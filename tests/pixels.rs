use spritepacker::check::check_collection;
use spritepacker::pack::{pack_collection, paint_sprite, PackProgress};
use spritepacker::raster::{Raster, SpriteImage};
use spritepacker::replace::{can_replace_into, duplicate_indices, replace_sprite};
use spritepacker::sprite::Sprite;

fn sprite(id: u32, name: &str, flipped: bool, x: i32, y: i32, xr: i32, yr: i32, w: i32, h: i32) -> Sprite {
    Sprite {
        id,
        name: name.to_string(),
        collection_name: "hero".to_string(),
        path: format!("hero/idle/{name}"),
        flipped,
        x,
        y,
        xr,
        yr,
        width: w,
        height: h,
    }
}

fn numbered(width: usize, height: usize, base: u32) -> Raster {
    let mut pixels = Vec::new();
    for k in 0..width * height {
        pixels.push(base + k as u32);
    }
    Raster { width, height, pixels }
}

fn px(r: &Raster, x: usize, y: usize) -> u32 {
    r.pixels[y * r.width + x]
}

fn hero_items(differ: bool) -> Vec<SpriteImage> {
    let a = numbered(4, 4, 100);
    let mut b = numbered(4, 4, 100);
    if differ {
        b.pixels[5] = 0xdeadbeef;
    }
    let c = numbered(4, 4, 900);
    vec![
        SpriteImage { sprite: sprite(1, "hero-idle-1.png", false, 0, 0, 0, 0, 4, 4), image: a },
        SpriteImage { sprite: sprite(1, "hero-walk-1.png", false, 0, 0, 0, 0, 4, 4), image: b },
        SpriteImage { sprite: sprite(2, "hero-idle-2.png", false, 4, 0, 0, 0, 4, 4), image: c },
    ]
}

#[test]
fn check_equal_duplicates_reports_nothing() {
    assert_eq!(check_collection(&hero_items(false)), Vec::<usize>::new());
}

#[test]
fn check_reports_both_differing_duplicates_once() {
    assert_eq!(check_collection(&hero_items(true)), vec![0, 1]);
}

#[test]
fn check_reports_each_sprite_once() {
    let mut items = hero_items(true);
    let mut third = items[1].clone();
    third.sprite.name = "hero-run-1.png".to_string();
    items.push(third);
    // both later duplicates differ from the first; the first is reported once
    assert_eq!(check_collection(&items), vec![0, 1, 3]);
}

#[test]
fn check_reports_whole_bucket_when_later_duplicate_differs() {
    let mut items = hero_items(false);
    let mut third = items[0].clone();
    third.sprite.name = "hero-run-1.png".to_string();
    third.image.pixels[3] = 0xdeadbeef;
    items.push(third);
    // the first two duplicates agree; the third differs, so all three are reported
    assert_eq!(check_collection(&items), vec![0, 1, 3]);
    let mut ids_only = hero_items(false);
    ids_only.truncate(2);
    let mut diff = ids_only[0].clone();
    diff.image.pixels[0] = 1;
    ids_only.push(diff);
    assert_eq!(check_collection(&ids_only), vec![0, 1, 2]);
}

#[test]
fn replace_then_check_reports_nothing() {
    let mut items = hero_items(true);
    let source = items[0].clone();
    let sprites: Vec<Sprite> = items.iter().map(|i| i.sprite.clone()).collect();
    let targets = duplicate_indices(&sprites, source.sprite.id);
    assert_eq!(targets, vec![0, 1]);
    for t in targets {
        assert!(can_replace_into(&source, &items[t]));
        replace_sprite(&source, &mut items[t]);
    }
    assert_eq!(check_collection(&items), Vec::<usize>::new());
}

#[test]
fn replace_paints_at_target_offset_bottom_up() {
    let src = SpriteImage { sprite: sprite(3, "a-b-3.png", false, 0, 0, 1, 0, 2, 1), image: numbered(3, 2, 10) };
    let mut tgt = SpriteImage { sprite: sprite(3, "a-c-3.png", false, 0, 0, 0, 1, 2, 1), image: numbered(3, 3, 50) };
    let before = tgt.image.clone();
    assert!(can_replace_into(&src, &tgt));
    replace_sprite(&src, &mut tgt);
    // source trimmed row 0 from the bottom is raster row 1, columns 1..3
    // target trim offset (0, 1) from the bottom is raster row 1, columns 0..2
    assert_eq!(px(&tgt.image, 0, 1), px(&src.image, 1, 1));
    assert_eq!(px(&tgt.image, 1, 1), px(&src.image, 2, 1));
    assert_eq!(px(&tgt.image, 2, 1), px(&before, 2, 1));
    assert_eq!(px(&tgt.image, 0, 0), px(&before, 0, 0));
    assert_eq!(px(&tgt.image, 0, 2), px(&before, 0, 2));
    assert_ne!(tgt.image.pixels, before.pixels);
}

#[test]
fn replace_twice_equals_once() {
    let src = SpriteImage { sprite: sprite(3, "a-b-3.png", false, 0, 0, 1, 1, 2, 2), image: numbered(4, 4, 7) };
    let mut once = SpriteImage { sprite: sprite(3, "a-c-3.png", false, 0, 0, 0, 0, 2, 2), image: numbered(3, 3, 500) };
    assert!(can_replace_into(&src, &once));
    replace_sprite(&src, &mut once);
    let mut twice = once.clone();
    assert!(can_replace_into(&src, &twice));
    replace_sprite(&src, &mut twice);
    assert_eq!(once.image.pixels, twice.image.pixels);
}

#[test]
fn replace_out_of_bounds_is_refused() {
    let src = SpriteImage { sprite: sprite(3, "a-b-3.png", false, 0, 0, 0, 0, 4, 4), image: numbered(4, 4, 7) };
    let mut tgt = SpriteImage { sprite: sprite(3, "a-c-3.png", false, 0, 0, 1, 0, 2, 2), image: numbered(4, 4, 500) };
    assert!(!can_replace_into(&src, &tgt));
    let bad_source = SpriteImage { sprite: sprite(3, "a-b-3.png", false, 0, 0, 3, 0, 2, 2), image: numbered(4, 4, 7) };
    assert!(!can_replace_into(&bad_source, &src));
}

#[test]
fn equals_is_symmetric_across_flip() {
    // a 3x2 region and its transpose (rows and columns exchanged, bottom-up)
    let a = SpriteImage { sprite: sprite(1, "a-a-1.png", false, 0, 0, 0, 0, 3, 2), image: numbered(3, 2, 1) };
    let mut t = Raster { width: 2, height: 3, pixels: vec![0; 6] };
    for i in 0..3usize {
        for j in 0..2usize {
            // a's pixel (i, j) from the bottom sits at raster row 1 - j
            let v = px(&a.image, i, 1 - j);
            // b's pixel (j, i) from the bottom sits at raster row 2 - i
            t.pixels[(2 - i) * 2 + j] = v;
        }
    }
    let b = SpriteImage { sprite: sprite(1, "a-b-1.png", true, 0, 0, 0, 0, 2, 3), image: t };
    assert!(a.equals(&b));
    assert!(b.equals(&a));
    let mut c = b.clone();
    c.image.pixels[0] = 0;
    assert_eq!(a.equals(&c), c.equals(&a));
    assert!(!a.equals(&c));
}

#[test]
fn equals_false_on_size_mismatch_or_bad_region() {
    let a = SpriteImage { sprite: sprite(1, "a-a-1.png", false, 0, 0, 0, 0, 2, 2), image: numbered(2, 2, 1) };
    let b = SpriteImage { sprite: sprite(1, "a-b-1.png", false, 0, 0, 0, 0, 2, 1), image: numbered(2, 2, 1) };
    assert!(!a.equals(&b));
    let c = SpriteImage { sprite: sprite(1, "a-c-1.png", false, 0, 0, 1, 0, 2, 2), image: numbered(2, 2, 1) };
    assert!(!c.equals(&c.clone()));
    assert!(a.equals(&a.clone()));
}

#[test]
fn pack_unflipped_places_frame_at_bottom_left() {
    let mut atlas = Raster { width: 64, height: 64, pixels: vec![0; 64 * 64] };
    let frame = numbered(16, 16, 1);
    let s = sprite(1, "hero-idle-1.png", false, 0, 0, 0, 0, 16, 16);
    paint_sprite(&mut atlas, &frame, &s);
    for x in 0..16 {
        for r in 0..16 {
            assert_eq!(px(&atlas, x, 48 + r), px(&frame, x, r));
        }
    }
    assert_eq!(px(&atlas, 16, 63), 0);
    assert_eq!(px(&atlas, 0, 47), 0);
}

#[test]
fn pack_flipped_places_transposed_frame() {
    let mut atlas = Raster { width: 64, height: 64, pixels: vec![0; 64 * 64] };
    let frame = numbered(16, 16, 1);
    let s = sprite(1, "hero-idle-1.png", true, 0, 0, 0, 0, 16, 16);
    paint_sprite(&mut atlas, &frame, &s);
    for i in 0..16 {
        for j in 0..16 {
            assert_eq!(px(&atlas, j, 63 - i), px(&frame, i, 15 - j));
        }
    }
    assert_ne!(px(&atlas, 1, 63), px(&frame, 1, 15));
}

#[test]
fn pack_honours_trim_and_offset() {
    let mut atlas = Raster { width: 8, height: 8, pixels: vec![0; 64] };
    let frame = numbered(4, 4, 1);
    // trimmed region: columns 1..3, rows 1..2 from the bottom; placed at (5, 2)
    let s = sprite(1, "a-b-1.png", false, 5, 2, 1, 1, 2, 1);
    paint_sprite(&mut atlas, &frame, &s);
    // frame pixel (1, 1 from bottom) = raster (1, 2) lands at atlas (5, 2 from bottom) = raster (5, 5)
    assert_eq!(px(&atlas, 5, 5), px(&frame, 1, 2));
    assert_eq!(px(&atlas, 6, 5), px(&frame, 2, 2));
    let painted = atlas.pixels.iter().filter(|p| **p != 0).count();
    assert_eq!(painted, 2);
}

#[test]
fn pack_clips_to_atlas() {
    let mut atlas = Raster { width: 4, height: 4, pixels: vec![0; 16] };
    let frame = numbered(4, 4, 1);
    let s = sprite(1, "a-b-1.png", false, 2, 0, 0, 0, 4, 4);
    paint_sprite(&mut atlas, &frame, &s);
    assert_eq!(px(&atlas, 2, 3), px(&frame, 0, 3));
    assert_eq!(px(&atlas, 3, 0), px(&frame, 1, 0));
    assert_eq!(px(&atlas, 1, 3), 0);
}

#[test]
fn pack_collection_later_sprite_wins_overlap() {
    let mut atlas = Raster { width: 4, height: 4, pixels: vec![0; 16] };
    let frames = vec![numbered(2, 2, 10), numbered(2, 2, 20)];
    let sprites = vec![
        sprite(1, "a-b-1.png", false, 0, 0, 0, 0, 2, 2),
        sprite(2, "a-b-2.png", false, 1, 0, 0, 0, 2, 2),
    ];
    pack_collection(&mut atlas, &frames, &sprites);
    assert_eq!(px(&atlas, 0, 3), px(&frames[0], 0, 1));
    assert_eq!(px(&atlas, 1, 3), px(&frames[1], 0, 1));
    assert_eq!(px(&atlas, 2, 2), px(&frames[1], 1, 0));
}

#[test]
fn progress_rises_to_total_and_cancel_blocks_save() {
    let mut atlas = Raster { width: 4, height: 4, pixels: vec![0; 16] };
    let frame = numbered(2, 2, 1);
    let s = sprite(1, "a-b-1.png", false, 0, 0, 0, 0, 2, 2);
    let mut p = PackProgress::new(3);
    let mut seen = vec![];
    for _ in 0..3 {
        seen.push(p.paint_next(&mut atlas, &frame, &s) as f32 / p.total as f32);
    }
    assert!(seen.windows(2).all(|w| w[0] <= w[1]));
    assert_eq!(*seen.last().unwrap(), 1.0);
    assert!(p.may_save());
    let mut q = PackProgress::new(2);
    q.paint_next(&mut atlas, &frame, &s);
    q.cancel();
    assert!(!q.may_save());
}

#[test]
fn trim_crops_from_bottom_left() {
    let img = numbered(4, 3, 1);
    let si = SpriteImage { sprite: sprite(1, "a-b-1.png", false, 0, 0, 1, 0, 2, 2), image: img.clone() };
    let t = si.trim().unwrap();
    assert_eq!((t.width, t.height), (2, 2));
    // trimmed rows 0..2 from the bottom are raster rows 1..3 of the frame
    assert_eq!(px(&t, 0, 1), px(&img, 1, 2));
    assert_eq!(px(&t, 1, 0), px(&img, 2, 1));
    let outside = SpriteImage { sprite: sprite(1, "a-b-1.png", false, 0, 0, 3, 0, 2, 2), image: img };
    assert!(outside.trim().is_none());
}
