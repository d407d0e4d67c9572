use sprite_anim::anim::{Animation, AnimationType};
use sprite_anim::sheets::{SpriteSheetHandle, SpriteSheetResource};
use sprite_anim::world::{
    add_sprite_from_sprite_meta, update_animations, update_ready, Entity, RenderedSprite,
    SpriteMeta,
};

fn sheet_registry() -> SpriteSheetResource {
    let mut sheets = SpriteSheetResource::new();
    sheets.insert(
        "hero".to_string(),
        SpriteSheetHandle { texture: 11, layout: 21 },
    );
    sheets
}

fn unbound_entity(id: u64, sheet: &str, index: usize) -> Entity {
    Entity {
        id,
        has_transform: true,
        sprite_meta: Some(SpriteMeta { index, sheet_name: sheet.to_string() }),
        animation: None,
        sprite_added: false,
        renderable: None,
    }
}

#[test]
fn binding_installs_renderable_and_marker() {
    let sheets = sheet_registry();
    let mut world = vec![unbound_entity(1, "hero", 3)];
    let warnings = add_sprite_from_sprite_meta(&mut world, &sheets, 2);
    assert!(warnings.is_empty());
    assert!(world[0].sprite_added);
    assert_eq!(
        world[0].renderable,
        Some(RenderedSprite { texture: 11, layout: 21, index: 3, size_px: 2 })
    );
}

#[test]
fn binding_is_idempotent() {
    let sheets = sheet_registry();
    let mut world = vec![unbound_entity(1, "hero", 0), unbound_entity(2, "ghost", 0)];
    let first = add_sprite_from_sprite_meta(&mut world, &sheets, 2);
    let bound_once: Vec<(bool, Option<RenderedSprite>)> =
        world.iter().map(|e| (e.sprite_added, e.renderable)).collect();
    let second = add_sprite_from_sprite_meta(&mut world, &sheets, 2);
    let bound_twice: Vec<(bool, Option<RenderedSprite>)> =
        world.iter().map(|e| (e.sprite_added, e.renderable)).collect();
    // the second run changes nothing: the marker was attached exactly once
    assert_eq!(bound_once, bound_twice);
    assert_eq!(first, vec!["ghost".to_string()]);
    assert_eq!(second, vec!["ghost".to_string()]);
}

#[test]
fn unknown_sheet_leaves_entity_unbound_with_warning() {
    let sheets = sheet_registry();
    let mut world = vec![unbound_entity(7, "missing", 0)];
    let warnings = add_sprite_from_sprite_meta(&mut world, &sheets, 2);
    assert_eq!(warnings, vec!["missing".to_string()]);
    assert!(!world[0].sprite_added);
    assert_eq!(world[0].renderable, None);
    assert_eq!(world.len(), 1);
}

#[test]
fn entity_without_transform_is_skipped() {
    let sheets = sheet_registry();
    let mut entity = unbound_entity(1, "hero", 0);
    entity.has_transform = false;
    let mut world = vec![entity];
    let warnings = add_sprite_from_sprite_meta(&mut world, &sheets, 2);
    assert!(warnings.is_empty());
    assert!(!world[0].sprite_added);
}

fn animated_entity(id: u64, frames: Vec<usize>, ty: AnimationType) -> Entity {
    let first = frames[0];
    Entity {
        id,
        has_transform: true,
        sprite_meta: Some(SpriteMeta { index: first, sheet_name: "hero".to_string() }),
        animation: Some(Animation::new("hero.png".to_string(), frames, 100, ty)),
        sprite_added: true,
        renderable: None,
    }
}

#[test]
fn tick_updates_index_and_clears_marker() {
    let mut world = vec![animated_entity(1, vec![4, 5, 6], AnimationType::Repeat)];
    assert!(update_ready(&world, 100));
    update_animations(&mut world, 100);
    // the displayed index advanced, so the binding marker was cleared in the
    // same step, forcing a re-bind before the next render
    assert_eq!(world[0].sprite_meta.as_ref().unwrap().index, 5);
    assert!(!world[0].sprite_added);
}

#[test]
fn short_tick_keeps_index_and_marker() {
    let mut world = vec![animated_entity(1, vec![4, 5, 6], AnimationType::Repeat)];
    update_animations(&mut world, 30);
    assert_eq!(world[0].sprite_meta.as_ref().unwrap().index, 4);
    assert!(world[0].sprite_added);
}

#[test]
fn once_completion_detaches_animation_and_keeps_entity() {
    // one full frame per step: tick first, then re-bind, as the host runs them
    let sheets = sheet_registry();
    let mut world = vec![animated_entity(1, vec![4, 5], AnimationType::Once)];
    update_animations(&mut world, 100);
    add_sprite_from_sprite_meta(&mut world, &sheets, 2);
    assert!(world[0].animation.is_some());
    update_animations(&mut world, 100);
    // completed: the instance is detached, the sprite freezes on its final frame
    assert_eq!(world.len(), 1);
    assert!(world[0].animation.is_none());
    assert_eq!(world[0].sprite_meta.as_ref().unwrap().index, 5);
}

#[test]
fn despawn_completion_removes_entity() {
    let sheets = sheet_registry();
    let mut world = vec![
        animated_entity(1, vec![4, 5], AnimationType::Despawn),
        animated_entity(2, vec![7, 8, 9], AnimationType::Repeat),
    ];
    update_animations(&mut world, 100);
    add_sprite_from_sprite_meta(&mut world, &sheets, 2);
    assert_eq!(world.len(), 2);
    update_animations(&mut world, 100);
    // entity 1 completed under Despawn and is gone; entity 2 goes on
    assert_eq!(world.len(), 1);
    assert_eq!(world[0].id, 2);
    // a further tick cannot touch the removed entity: it no longer exists
    add_sprite_from_sprite_meta(&mut world, &sheets, 2);
    update_animations(&mut world, 100);
    assert_eq!(world.len(), 1);
    assert_eq!(world[0].id, 2);
}

#[test]
fn unbound_entity_does_not_animate() {
    let mut entity = animated_entity(1, vec![4, 5, 6], AnimationType::Repeat);
    entity.sprite_added = false;
    let mut world = vec![entity];
    update_animations(&mut world, 100);
    assert_eq!(world[0].sprite_meta.as_ref().unwrap().index, 4);
}

#[test]
fn update_ready_rejects_saturated_accumulator() {
    let world = vec![animated_entity(1, vec![0, 1], AnimationType::Repeat)];
    assert!(update_ready(&world, u64::MAX - 1));
    let mut world = world;
    update_animations(&mut world, 50);
    assert!(update_ready(&world, 100));
}

#[test]
fn default_sprite_meta_points_at_default_sheet() {
    let meta = SpriteMeta::default();
    assert_eq!(meta.index, 0);
    assert_eq!(meta.sheet_name, "default");
}
