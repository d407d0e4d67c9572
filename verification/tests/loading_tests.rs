use sprite_anim::anim::{AnimationType, AnimRecord};
use sprite_anim::loading::{config_valid, load_sprite_sheets, SheetRecord};
use sprite_anim::sheets::SpriteSheetHandle;

fn sample_config() -> Vec<SheetRecord> {
    vec![
        SheetRecord {
            file_name: "hero.png".to_string(),
            animations: vec![
                AnimRecord {
                    name: "walk".to_string(),
                    start: 2,
                    end: 5,
                    frame_micros: 100,
                    animation_type: AnimationType::Repeat,
                },
                AnimRecord {
                    name: "die".to_string(),
                    start: 6,
                    end: 7,
                    frame_micros: 200,
                    animation_type: AnimationType::Once,
                },
            ],
        },
        SheetRecord { file_name: "tiles.png".to_string(), animations: vec![] },
    ]
}

fn sample_handles() -> Vec<SpriteSheetHandle> {
    vec![
        SpriteSheetHandle { texture: 1, layout: 2 },
        SpriteSheetHandle { texture: 3, layout: 4 },
    ]
}

#[test]
fn sheets_are_registered_under_trimmed_names() {
    let config = sample_config();
    let handles = sample_handles();
    assert!(config_valid(&config));
    let (sheets, _anims) = load_sprite_sheets(&config, &handles);
    assert_eq!(sheets.get("hero"), Some(SpriteSheetHandle { texture: 1, layout: 2 }));
    assert_eq!(sheets.get("tiles"), Some(SpriteSheetHandle { texture: 3, layout: 4 }));
    assert_eq!(sheets.get("hero.png"), None);
    assert_eq!(sheets.get("ghost"), None);
}

#[test]
fn animations_are_derived_from_inclusive_ranges() {
    let config = sample_config();
    let handles = sample_handles();
    assert!(config_valid(&config));
    let (_sheets, anims) = load_sprite_sheets(&config, &handles);
    let mut walk = anims.get("walk").expect("walk is in the catalog");
    assert_eq!(walk.get_type(), AnimationType::Repeat);
    // frames are [2, 3, 4, 5]: a fresh instance shows 2 and cycles from there
    assert_eq!(walk.tick(0), 2);
    assert_eq!(walk.tick(100), 3);
    assert_eq!(walk.tick(100), 4);
    assert_eq!(walk.tick(100), 5);
    assert_eq!(walk.tick(100), 2);
    assert!(!walk.finished());
    let mut die = anims.get("die").expect("die is in the catalog");
    assert_eq!(die.get_type(), AnimationType::Once);
    assert_eq!(die.tick(200), 7);
    assert!(!die.finished());
    assert_eq!(die.tick(200), 7);
    assert!(die.finished());
    assert!(anims.get("fly").is_none());
}

#[test]
fn catalog_hands_out_fresh_instances() {
    let config = sample_config();
    let handles = sample_handles();
    let (_sheets, anims) = load_sprite_sheets(&config, &handles);
    let mut first = anims.get("walk").unwrap();
    assert_eq!(first.tick(100), 3);
    // a second lookup starts from the beginning: definitions are immutable
    let mut second = anims.get("walk").unwrap();
    assert_eq!(second.tick(0), 2);
}

#[test]
fn config_valid_rejects_bad_records() {
    let mut config = sample_config();
    assert!(config_valid(&config));
    config[0].animations[0].start = 9;
    config[0].animations[0].end = 8;
    assert!(!config_valid(&config));
    let mut config = sample_config();
    config[0].animations[1].frame_micros = 0;
    assert!(!config_valid(&config));
    let empty: Vec<SheetRecord> = Vec::new();
    assert!(config_valid(&empty));
}
