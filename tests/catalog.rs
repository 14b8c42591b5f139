use spritepacker::catalog::{
    animation_of_collection, changed_originals, clip_with_frame, collection_of_sprite_name, find_collection,
    find_manifest_index, link_frames, merge_sprite, position_of_animation_for, position_of_collection, Animation, Clip, Collection, LinkError,
};
use spritepacker::session::{next_frame_index, InspectMode, Phase, ProgressEvent, Session};
use spritepacker::settings::Settings;
use spritepacker::sprite::{Sprite, SpriteInfo};
use spritepacker::watch::{changed_sprite, parse_u32, sprite_id_from_name, split_by, strip_png_chars, NameId, WatchError};

fn strings(v: &[&str]) -> Vec<String> {
    v.iter().map(|s| s.to_string()).collect()
}

fn manifest(collection_names: &[&str]) -> SpriteInfo {
    SpriteInfo {
        id: vec![1, 1, 2],
        name: strings(&["hero-idle-1.png", "hero-walk-1.png", "hero-idle-2.png"]),
        collection_name: strings(collection_names),
        path: strings(&["./hero/idle/hero-idle-1.png", "hero/walk/hero-walk-1.png", "hero/idle/hero-idle-2.png"]),
        flipped: vec![false, true, false],
        x: vec![0, 16, 32],
        y: vec![0, 0, 16],
        xr: vec![1, 2, 3],
        yr: vec![4, 5, 6],
        width: vec![10, 11, 12],
        height: vec![13, 14, 15],
    }
}

fn plain(id: u32, name: &str, collection: &str) -> Sprite {
    Sprite {
        id,
        name: name.to_string(),
        collection_name: collection.to_string(),
        path: name.to_string(),
        flipped: false,
        x: 0,
        y: 0,
        xr: 0,
        yr: 0,
        width: 0,
        height: 0,
    }
}

#[test]
fn manifest_element_assembles_sprite() {
    let info = manifest(&["heroCln", "heroCln", "heroCln"]);
    let s = info.at(1).unwrap();
    assert_eq!(s.id, 1);
    assert_eq!(s.name, "hero-walk-1.png");
    assert_eq!(s.collection_name, "heroCln");
    assert!(s.flipped);
    assert_eq!((s.x, s.y, s.xr, s.yr, s.width, s.height), (16, 0, 2, 5, 11, 14));
    assert!(info.at(3).is_none());
}

#[test]
fn manifest_single_collection_name_serves_every_index() {
    let info = manifest(&["heroCln"]);
    assert_eq!(info.at(2).unwrap().collection_name, "heroCln");
    let short = manifest(&["a", "b"]);
    assert!(short.at(2).is_none());
    assert_eq!(short.at(1).unwrap().collection_name, "b");
}

#[test]
fn manifest_round_trip_reemits_same_columns() {
    let info = manifest(&["heroCln", "heroCln", "heroCln"]);
    let again = SpriteInfo::from_sprites(&info.sprites());
    assert_eq!(again.id, info.id);
    assert_eq!(again.name, info.name);
    assert_eq!(again.collection_name, info.collection_name);
    assert_eq!(again.path, info.path);
    assert_eq!(again.flipped, info.flipped);
    assert_eq!((again.x, again.y, again.xr, again.yr), (info.x.clone(), info.y.clone(), info.xr.clone(), info.yr.clone()));
    assert_eq!((again.width, again.height), (info.width.clone(), info.height.clone()));
}

#[test]
fn suffix_match_prefers_longer_path() {
    let paths = strings(&["a/b.png", "x/a/b.png", "c.png"]);
    assert_eq!(find_manifest_index(&paths, "/root/x/a/b.png"), Some(1));
    assert_eq!(find_manifest_index(&paths, "/root/y/a/b.png"), Some(0));
    let reversed = strings(&["x/a/b.png", "a/b.png"]);
    assert_eq!(find_manifest_index(&reversed, "/root/x/a/b.png"), Some(0));
}

#[test]
fn suffix_match_whole_components_and_separators() {
    let paths = strings(&["b.png", ".\\hero\\idle\\hero-idle-1.png"]);
    assert_eq!(find_manifest_index(&paths, "/root/ab.png"), None);
    assert_eq!(find_manifest_index(&paths, "/root/hero/idle/hero-idle-1.png"), Some(1));
    assert_eq!(find_manifest_index(&paths, "b.png"), Some(0));
}

#[test]
fn link_frames_resolves_and_fails_on_unknown_frame() {
    let info = manifest(&["heroCln"]);
    let frames = strings(&["/r/hero/idle/hero-idle-2.png", "/r/hero/idle/hero-idle-1.png"]);
    let linked = link_frames(&info, &frames).unwrap();
    assert_eq!(linked.len(), 2);
    assert_eq!(linked[0].id, 2);
    assert_eq!(linked[1].name, "hero-idle-1.png");
    let missing = strings(&["/r/hero/idle/hero-idle-9.png"]);
    assert!(matches!(link_frames(&info, &missing), Err(LinkError::CorpusLink)));
}

#[test]
fn merge_appends_to_existing_or_creates() {
    let mut c: Vec<Collection> = vec![];
    merge_sprite(&mut c, plain(1, "a-b-1.png", "one"), "A/0.Atlases/one.png".to_string());
    merge_sprite(&mut c, plain(2, "a-b-2.png", "two"), "A/0.Atlases/two.png".to_string());
    merge_sprite(&mut c, plain(3, "a-b-3.png", "one"), "ignored".to_string());
    assert_eq!(c.len(), 2);
    assert_eq!(c[0].name, "one");
    assert_eq!(c[0].atlas_path, "A/0.Atlases/one.png");
    assert_eq!(c[0].sprites.len(), 2);
    assert_eq!(c[0].sprites[1].id, 3);
    assert_eq!(c[1].sprites.len(), 1);
    assert_eq!(find_collection(&c, &"two".to_string()), 1);
    assert_eq!(position_of_collection(&c, &"two".to_string()), Some(1));
    assert_eq!(position_of_collection(&c, &"three".to_string()), None);
    assert_eq!(collection_of_sprite_name(&c, &"a-b-3.png".to_string()), Some(0));
    assert_eq!(collection_of_sprite_name(&c, &"nope".to_string()), None);
}

#[test]
fn animation_and_clip_lookups() {
    let clip_a = Clip { name: "idle".to_string(), frames: vec![plain(1, "h-idle-1.png", "one")], loop_start: 0 };
    let clip_b = Clip { name: "walk".to_string(), frames: vec![plain(2, "h-walk-2.png", "two"), plain(3, "h-walk-3.png", "two")], loop_start: 0 };
    let anims = vec![
        Animation { name: "h".to_string(), clips: vec![clip_a.clone(), clip_b.clone()] },
        Animation { name: "g".to_string(), clips: vec![clip_b] },
    ];
    assert_eq!(animation_of_collection(&anims, &"two".to_string()), 0);
    assert_eq!(position_of_animation_for(&anims, &"two".to_string()), Some(0));
    assert_eq!(position_of_animation_for(&anims, &"none".to_string()), None);
    assert_eq!(clip_with_frame(&anims[0], &"h-walk-3.png".to_string()), Some((1, 1)));
    assert_eq!(clip_with_frame(&anims[0], &"x".to_string()), None);
}

#[test]
fn watcher_event_gives_one_sprite() {
    let s = changed_sprite("A/clipX/A-clipX-7.png", "heroCln").unwrap().unwrap();
    assert_eq!(s.id, 7);
    assert_eq!(s.name, "A-clipX-7.png");
    assert_eq!(s.collection_name, "heroCln");
    assert_eq!(s.path, "A/clipX/A-clipX-7.png");
    assert!(!s.flipped);
    assert_eq!((s.x, s.y, s.xr, s.yr, s.width, s.height), (0, 0, 0, 0, 0, 0));
    let w = changed_sprite("A\\clipX\\A-clipX-12.png", "c").unwrap().unwrap();
    assert_eq!(w.id, 12);
}

#[test]
fn watcher_ignores_short_paths_and_names() {
    assert!(changed_sprite("A/A-clipX-7.png", "c").unwrap().is_none());
    assert!(changed_sprite("A/clipX/clipX-7.png", "c").unwrap().is_none());
    assert!(matches!(changed_sprite("A/clipX/A-clipX-seven.png", "c"), Err(WatchError::BadSpriteId)));
}

#[test]
fn sprite_id_parse() {
    assert!(matches!(sprite_id_from_name("a-b-42.png"), NameId::Id(42)));
    assert!(matches!(sprite_id_from_name("a-b-c-0042.png.png"), NameId::Id(42)));
    assert!(matches!(sprite_id_from_name("a-b-+5.png"), NameId::Id(5)));
    assert!(matches!(sprite_id_from_name("a-b-4294967295.png"), NameId::Id(4294967295)));
    assert!(matches!(sprite_id_from_name("a-b-4294967296.png"), NameId::NotANumber));
    assert!(matches!(sprite_id_from_name("a-b-.png"), NameId::NotANumber));
    assert!(matches!(sprite_id_from_name("ab-42.png"), NameId::TooFewPieces));
    assert_eq!(parse_u32(&vec!['+']), None);
    assert_eq!(parse_u32(&vec!['0', '7']), Some(7));
    assert_eq!(strip_png_chars("7.pn.png"), vec!['7', '.', 'p', 'n']);
    assert_eq!(split_by("a//b", '/', '\\'), strings(&["a", "", "b"]));
    assert_eq!(split_by("", '/', '\\'), strings(&[""]));
}

#[test]
fn session_check_and_pack_cycle() {
    let mut s = Session::new();
    assert!(s.ui_enabled());
    assert!(!s.start_check());
    s.select_collection();
    assert_eq!(s.inspect_mode, InspectMode::Collection);
    assert!(s.start_check());
    assert_eq!(s.phase, Phase::Checking);
    assert!(!s.ui_enabled());
    s.on_changed_sprite(plain(1, "a-b-1.png", "one"));
    s.on_changed_sprite(plain(1, "a-b-1.png", "one"));
    assert_eq!(s.changed.len(), 1);
    s.on_changed_sprite(Sprite::sentinel());
    assert_eq!(s.phase, Phase::Ready);
    assert!(s.start_pack(4));
    assert_eq!(s.phase, Phase::Packing);
    s.on_progress(ProgressEvent::Progress { done: 2 });
    assert_eq!((s.phase, s.done), (Phase::Packing, 2));
    s.on_progress(ProgressEvent::Empty);
    assert_eq!(s.phase, Phase::Packing);
    s.on_progress(ProgressEvent::Progress { done: 4 });
    assert_eq!(s.phase, Phase::Idle);
}

#[test]
fn session_cancel_and_disconnect() {
    let mut s = Session::new();
    s.select_collection();
    s.start_check();
    s.on_changed_sprite(Sprite::sentinel());
    assert!(s.start_pack(3));
    assert!(s.cancel_pack());
    assert_eq!(s.phase, Phase::Idle);
    assert!(!s.cancel_pack());
    s.select_collection();
    s.start_check();
    s.on_changed_sprite(Sprite::sentinel());
    s.start_pack(3);
    s.on_progress(ProgressEvent::Disconnected);
    assert_eq!(s.phase, Phase::Idle);
    s.select_collection();
    s.start_check();
    s.on_changed_sprite(Sprite::sentinel());
    s.start_pack(3);
    s.on_progress(ProgressEvent::Cancelled);
    assert_eq!(s.phase, Phase::Idle);
}

#[test]
fn session_failed_check_does_not_allow_pack() {
    let mut s = Session::new();
    s.select_collection();
    assert!(s.start_check());
    s.check_failed();
    assert_eq!(s.phase, Phase::Idle);
    assert!(!s.start_pack(2));
    assert!(s.start_check());
}

#[test]
fn frame_index_wraps_to_loop_start() {
    assert_eq!(next_frame_index(0, 3, 1), 1);
    assert_eq!(next_frame_index(2, 3, 1), 1);
    assert_eq!(next_frame_index(5, 3, 0), 0);
}

#[test]
fn settings_default_values() {
    let d = Settings::default();
    assert_eq!(d.language, "en-US");
    assert_eq!(d.sprites_path, "");
    assert!(d.dark);
    assert!(d == d.clone());
}

#[test]
fn changed_sprites_map_to_unlisted_originals() {
    let mut c: Vec<Collection> = vec![];
    merge_sprite(&mut c, plain(1, "a-idle-1.png", "one"), "one.png".to_string());
    merge_sprite(&mut c, plain(1, "a-walk-1.png", "one"), "one.png".to_string());
    merge_sprite(&mut c, plain(2, "a-idle-2.png", "one"), "one.png".to_string());
    let changed = vec![
        plain(1, "a-walk-1.png", "one"),
        plain(2, "a-idle-2.png", "one"),
        plain(5, "a-idle-5.png", "one"),
        plain(1, "b-x-1.png", "missing"),
    ];
    let r = changed_originals(&c, &changed);
    assert_eq!(r.len(), 1);
    assert_eq!(r[0].name, "a-idle-1.png");
}
