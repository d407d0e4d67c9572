use sprite_anim::anim::{frames_from_range, Animation, AnimationType};
use sprite_anim::names::trim_extension;

#[test]
fn frames_from_closed_range_is_inclusive() {
    // boundary test for inclusive-range parsing: start=2, end=5 gives 4 frames
    assert_eq!(frames_from_range(2, 5), vec![2, 3, 4, 5]);
    assert_eq!(frames_from_range(0, 0), vec![0]);
    assert_eq!(frames_from_range(7, 8), vec![7, 8]);
}

#[test]
fn trim_extension_strips_final_extension() {
    assert_eq!(trim_extension("hero.png"), "hero");
    assert_eq!(trim_extension("archive.tar.gz"), "archive.tar");
    assert_eq!(trim_extension("noextension"), "noextension");
    assert_eq!(trim_extension("trailingdot."), "trailingdot.");
    // a leading dot starts an extension too when nothing else follows it
    assert_eq!(trim_extension(".hidden"), "");
    assert_eq!(trim_extension(""), "");
}

#[test]
fn repeat_animation_cycles_and_never_finishes() {
    let mut a = Animation::new(
        "hero.png".to_string(),
        vec![3, 4, 5],
        100,
        AnimationType::Repeat,
    );
    // a full-frame tick advances one position; positions wrap around
    assert_eq!(a.tick(100), 4);
    assert_eq!(a.tick(100), 5);
    assert_eq!(a.tick(100), 3);
    assert_eq!(a.tick(100), 4);
    assert!(!a.finished());
}

#[test]
fn once_animation_stops_on_last_frame() {
    let mut a = Animation::new(
        "hero.png".to_string(),
        vec![0, 1, 2],
        100,
        AnimationType::Once,
    );
    assert_eq!(a.tick(100), 1);
    assert_eq!(a.tick(100), 2);
    assert!(!a.finished());
    // the next full-frame tick completes; the position stays on the last frame
    assert_eq!(a.tick(100), 2);
    assert!(a.finished());
    // further ticks are safe no-ops for the position
    assert_eq!(a.tick(100), 2);
    assert_eq!(a.tick(1_000_000), 2);
    assert!(a.finished());
    assert_eq!(a.get_type(), AnimationType::Once);
}

#[test]
fn tick_advances_at_most_one_frame_and_resets_elapsed() {
    let mut a = Animation::new(
        "hero.png".to_string(),
        vec![0, 1, 2, 3, 4, 5],
        100,
        AnimationType::Repeat,
    );
    // a short tick does not advance
    assert_eq!(a.tick(60), 0);
    // the threshold is reached; the accumulator resets to zero, it does not
    // keep the 20 microseconds of excess
    assert_eq!(a.tick(60), 1);
    assert_eq!(a.tick(60), 1);
    assert_eq!(a.tick(60), 2);
    // one oversized delta still advances exactly one frame
    assert_eq!(a.tick(100_000), 3);
}

#[test]
fn despawn_animation_reports_its_type_on_completion() {
    let mut a = Animation::new("fx.png".to_string(), vec![9], 50, AnimationType::Despawn);
    assert!(!a.finished());
    assert_eq!(a.tick(50), 9);
    assert!(a.finished());
    assert_eq!(a.get_type(), AnimationType::Despawn);
}
