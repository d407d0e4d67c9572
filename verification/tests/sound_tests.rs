use sprite_anim::sound::{
    load_sounds, play_music, play_sfx, stop_music, Playback, PlayMusic, PlaySFX, SoundResource,
};

fn sound_registry() -> SoundResource {
    let mut sounds = SoundResource::new();
    sounds.insert("click".to_string(), 100);
    sounds.insert("theme".to_string(), 200);
    sounds.insert("battle".to_string(), 300);
    sounds
}

#[test]
fn sound_registry_lookup_and_overwrite() {
    let mut sounds = sound_registry();
    assert_eq!(sounds.get("click"), Some(100));
    assert_eq!(sounds.get("nope"), None);
    sounds.insert("click".to_string(), 101);
    assert_eq!(sounds.get("click"), Some(101));
    assert_eq!(sounds.get("theme"), Some(200));
}

#[test]
fn load_sounds_strips_extensions() {
    let config = vec!["click.ogg".to_string(), "theme.mp3".to_string()];
    let handles = vec![1, 2];
    let sounds = load_sounds(&config, &handles);
    assert_eq!(sounds.get("click"), Some(1));
    assert_eq!(sounds.get("theme"), Some(2));
    assert_eq!(sounds.get("click.ogg"), None);
}

#[test]
fn play_sfx_spawns_fire_and_forget_playback() {
    let sounds = sound_registry();
    let mut audio: Vec<Playback> = Vec::new();
    let found = play_sfx(&mut audio, &sounds, &PlaySFX { name: "click".to_string() }, 1);
    assert!(found);
    assert_eq!(
        audio,
        vec![Playback { id: 1, source: 100, looping: false, now_playing: false }]
    );
}

#[test]
fn play_sfx_unknown_name_is_ignored() {
    let sounds = sound_registry();
    let mut audio: Vec<Playback> = Vec::new();
    let found = play_sfx(&mut audio, &sounds, &PlaySFX { name: "nope".to_string() }, 1);
    assert!(!found);
    assert!(audio.is_empty());
}

#[test]
fn play_music_keeps_exactly_one_now_playing() {
    let sounds = sound_registry();
    let mut audio: Vec<Playback> = Vec::new();
    assert!(play_music(&mut audio, &sounds, &PlayMusic { name: "theme".to_string() }, 1));
    assert_eq!(audio.iter().filter(|p| p.now_playing).count(), 1);
    // playing music while another track is already playing stops it first:
    // exactly one tagged playback remains
    assert!(play_music(&mut audio, &sounds, &PlayMusic { name: "battle".to_string() }, 2));
    assert_eq!(audio.iter().filter(|p| p.now_playing).count(), 1);
    let playing: Vec<&Playback> = audio.iter().filter(|p| p.now_playing).collect();
    assert_eq!(playing[0].source, 300);
    assert!(playing[0].looping);
}

#[test]
fn play_music_survives_a_corrupt_store() {
    let sounds = sound_registry();
    // even if several tagged tracks crept in, dispatch restores the invariant
    let mut audio = vec![
        Playback { id: 1, source: 200, looping: true, now_playing: true },
        Playback { id: 2, source: 300, looping: true, now_playing: true },
        Playback { id: 3, source: 100, looping: false, now_playing: false },
    ];
    assert!(play_music(&mut audio, &sounds, &PlayMusic { name: "theme".to_string() }, 4));
    assert_eq!(audio.iter().filter(|p| p.now_playing).count(), 1);
    // the untagged effect playback was left alone
    assert!(audio.iter().any(|p| p.id == 3));
}

#[test]
fn play_music_unknown_name_keeps_current_track() {
    let sounds = sound_registry();
    let mut audio = vec![Playback { id: 1, source: 200, looping: true, now_playing: true }];
    let found = play_music(&mut audio, &sounds, &PlayMusic { name: "nope".to_string() }, 2);
    // the event is skipped: nothing spawned, the current track keeps playing
    assert!(!found);
    assert_eq!(
        audio,
        vec![Playback { id: 1, source: 200, looping: true, now_playing: true }]
    );
}

#[test]
fn stop_music_removes_only_the_playing_track() {
    let mut audio = vec![
        Playback { id: 1, source: 200, looping: true, now_playing: true },
        Playback { id: 2, source: 100, looping: false, now_playing: false },
    ];
    stop_music(&mut audio);
    assert_eq!(audio, vec![Playback { id: 2, source: 100, looping: false, now_playing: false }]);
    // stopping again is a safe no-op
    stop_music(&mut audio);
    assert_eq!(audio.len(), 1);
}
