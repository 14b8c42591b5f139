use vstd::prelude::*;
use crate::raster::{SpriteImage, region_fits, lemma_pixels_ext};
use crate::sprite::Sprite;
use crate::check::{published, lemma_agreeing_duplicates_report_nothing};

verus! {

/// The source's trimmed region fits in the source image, and a region of the
/// same size placed at the target's trim offset fits in the target image.
pub open spec fn can_replace(src: SpriteImage, tgt: SpriteImage) -> bool {
    src.fits() && region_fits(
        tgt.image,
        tgt.sprite.xr as int,
        tgt.sprite.yr as int,
        src.sprite.width as int,
        src.sprite.height as int,
    )
}

/// The target pixel at column `x`, row `j` (from the bottom) once the
/// source's trimmed pixels are painted at the target's trim offset.
pub open spec fn replace_step(src: SpriteImage, tgt: SpriteImage, x: int, j: int) -> u32 {
    let (s, t) = (src.sprite, tgt.sprite);
    if t.xr <= x < t.xr + s.width && t.yr <= j < t.yr + s.height {
        src.trimmed(x - t.xr, j - t.yr)
    } else {
        tgt.image.px_up(x, j)
    }
}

/// `after` is `before` with the source painted in where that is possible, and
/// unchanged where it is not.
pub open spec fn replaced(src: SpriteImage, before: SpriteImage, after: SpriteImage) -> bool {
    &&& after.sprite == before.sprite
    &&& after.image.wf()
    &&& after.image.width == before.image.width
    &&& after.image.height == before.image.height
    &&& if can_replace(src, before) {
        forall|x: int, j: int|
            0 <= x < before.image.width && 0 <= j < before.image.height
                ==> #[trigger] after.image.px_up(x, j) == replace_step(src, before, x, j)
    } else {
        after.image.pixels@ == before.image.pixels@
    }
}

/// Whether the source's trimmed region fits in its image and, placed at the
/// target's trim offset, in the target image.
pub fn can_replace_into(source: &SpriteImage, target: &SpriteImage) -> (r: bool)
    ensures
        r == can_replace(*source, *target),
{
    if !source.trim_fits() {
        return false;
    }
    let sw = source.sprite.width as usize;
    let sh = source.sprite.height as usize;
    let t = &target.sprite;
    t.xr >= 0 && t.yr >= 0 && t.xr as usize + sw <= target.image.width && t.yr as usize + sh
        <= target.image.height
}

/// Copies the source sprite's trimmed pixels into the target image at the
/// target's trim offset, bottom row onto bottom row.
pub fn replace_sprite(source: &SpriteImage, target: &mut SpriteImage)
    requires
        source.image.wf(),
        old(target).image.wf(),
        can_replace(*source, *old(target)),
    ensures
        replaced(*source, *old(target), *final(target)),
{
    let ghost before = *target;
    let sw = source.sprite.width as usize;
    let sh = source.sprite.height as usize;
    let txr = target.sprite.xr as usize;
    let tyr = target.sprite.yr as usize;
    let w = target.image.width;
    let h = target.image.height;
    let mut x: usize = 0;
    while x < sw
        invariant
            source.image.wf(),
            source.fits(),
            sw == source.sprite.width,
            sh == source.sprite.height,
            target.sprite == before.sprite,
            txr == before.sprite.xr,
            tyr == before.sprite.yr,
            target.image.wf(),
            before.image.wf(),
            target.image.width == w == before.image.width,
            target.image.height == h == before.image.height,
            txr + sw <= w,
            tyr + sh <= h,
            x <= sw,
            forall|x2: int, j2: int|
                0 <= x2 < w && 0 <= j2 < h ==> #[trigger] target.image.px_up(x2, j2) == if txr <= x2
                    < txr + x && tyr <= j2 < tyr + sh {
                    source.trimmed(x2 - txr, j2 - tyr)
                } else {
                    before.image.px_up(x2, j2)
                },
        decreases sw - x,
    {
        let mut y: usize = 0;
        while y < sh
            invariant
                source.image.wf(),
                source.fits(),
                sw == source.sprite.width,
                sh == source.sprite.height,
                target.sprite == before.sprite,
                txr == before.sprite.xr,
                tyr == before.sprite.yr,
                target.image.wf(),
                before.image.wf(),
                target.image.width == w == before.image.width,
                target.image.height == h == before.image.height,
                txr + sw <= w,
                tyr + sh <= h,
                x < sw,
                y <= sh,
                forall|x2: int, j2: int|
                    0 <= x2 < w && 0 <= j2 < h ==> #[trigger] target.image.px_up(x2, j2) == if (txr
                        <= x2 < txr + x && tyr <= j2 < tyr + sh) || (x2 == txr + x && tyr <= j2
                        < tyr + y) {
                        source.trimmed(x2 - txr, j2 - tyr)
                    } else {
                        before.image.px_up(x2, j2)
                    },
            decreases sh - y,
        {
            let p = source.trimmed_pixel(x, y);
            let ghost mid = target.image;
            let row = h - 1 - (tyr + y);
            target.image.put_pixel(txr + x, row, p);
            proof {
                assert forall|x2: int, j2: int| 0 <= x2 < w && 0 <= j2 < h implies #[trigger] target.image.px_up(
                    x2,
                    j2,
                ) == if (txr <= x2 < txr + x && tyr <= j2 < tyr + sh) || (x2 == txr + x && tyr <= j2
                    < tyr + y + 1) {
                    source.trimmed(x2 - txr, j2 - tyr)
                } else {
                    before.image.px_up(x2, j2)
                } by {
                    assert(mid.px_up(x2, j2) == mid.px(x2, h - 1 - j2));
                    assert(target.image.px(x2, h - 1 - j2) == if x2 == txr + x && h - 1 - j2 == row {
                        p
                    } else {
                        mid.px(x2, h - 1 - j2)
                    });
                }
            }
            y += 1;
        }
        x += 1;
    }
}

/// Replacing twice in a row from the same source leaves the target exactly as
/// replacing once does.
pub proof fn lemma_replace_idempotent(
    src: SpriteImage,
    t0: SpriteImage,
    t1: SpriteImage,
    t2: SpriteImage,
)
    requires
        t0.image.wf(),
        replaced(src, t0, t1),
        replaced(src, t1, t2),
    ensures
        t2.sprite == t1.sprite,
        t2.image.width == t1.image.width,
        t2.image.height == t1.image.height,
        t2.image.pixels@ == t1.image.pixels@,
{
    if can_replace(src, t0) {
        let h = t1.image.height as int;
        assert forall|x: int, y: int|
            0 <= x < t1.image.width && 0 <= y < h implies #[trigger] t2.image.px(x, y)
            == t1.image.px(x, y) by {
            let j = h - 1 - y;
            assert(t2.image.px_up(x, j) == replace_step(src, t1, x, j));
            assert(t1.image.px_up(x, j) == replace_step(src, t0, x, j));
        }
        lemma_pixels_ext(t2.image, t1.image);
    }
}

/// Two duplicates that were both replaced from the same source, whose own
/// trimmed size is the source's and whose `flipped` flags agree, show the
/// same art afterwards.
pub proof fn lemma_replaced_duplicates_agree(
    src: SpriteImage,
    b1: SpriteImage,
    a1: SpriteImage,
    b2: SpriteImage,
    a2: SpriteImage,
)
    requires
        replaced(src, b1, a1),
        replaced(src, b2, a2),
        can_replace(src, b1),
        can_replace(src, b2),
        b1.sprite.width == src.sprite.width,
        b1.sprite.height == src.sprite.height,
        b2.sprite.width == src.sprite.width,
        b2.sprite.height == src.sprite.height,
        b1.sprite.flipped == b2.sprite.flipped,
    ensures
        a1.same_art(&a2),
{
    assert forall|i: int, j: int|
        0 <= i < src.sprite.width && 0 <= j < src.sprite.height implies #[trigger] a1.trimmed(i, j)
        == a2.trimmed(i, j) by {
        assert(a1.image.px_up(b1.sprite.xr + i, b1.sprite.yr + j) == replace_step(
            src,
            b1,
            b1.sprite.xr + i,
            b1.sprite.yr + j,
        ));
        assert(a2.image.px_up(b2.sprite.xr + i, b2.sprite.yr + j) == replace_step(
            src,
            b2,
            b2.sprite.xr + i,
            b2.sprite.yr + j,
        ));
    }
}

/// Checking a collection again after every sprite of the source's id was
/// replaced from the source reports nothing, where those sprites have the
/// source's trimmed size and `flipped` flag and the sprites of every other
/// id already agree.
pub proof fn lemma_recheck_after_replace(src: SpriteImage, before: Seq<SpriteImage>, after: Seq<SpriteImage>)
    requires
        before.len() == after.len(),
        forall|k: int|
            0 <= k < after.len() && #[trigger] after[k].sprite.id == src.sprite.id ==> replaced(
                src,
                before[k],
                after[k],
            ) && can_replace(src, before[k]) && before[k].sprite.width == src.sprite.width
                && before[k].sprite.height == src.sprite.height && before[k].sprite.flipped
                == src.sprite.flipped,
        forall|i: int, j: int|
            0 <= j < i < after.len() && after[j].sprite.id == after[i].sprite.id
                && after[i].sprite.id != src.sprite.id ==> #[trigger] after[j].same_art(&after[i]),
    ensures
        published(after, after.len() as nat) == Seq::<usize>::empty(),
{
    assert forall|i: int, j: int|
        0 <= j < i < after.len() && after[j].sprite.id == after[i].sprite.id implies #[trigger] after[j].same_art(
        &after[i],
    ) by {
        if after[i].sprite.id == src.sprite.id {
            assert(after[j].sprite.id == src.sprite.id);
            lemma_replaced_duplicates_agree(src, before[j], after[j], before[i], after[i]);
        }
    }
    lemma_agreeing_duplicates_report_nothing(after, after.len() as nat);
}

/// Positions of the sprites whose id is `id`, in increasing order.
pub fn duplicate_indices(sprites: &Vec<Sprite>, id: u32) -> (r: Vec<usize>)
    ensures
        forall|m: int| 0 <= m < r.len() ==> #[trigger] r@[m] < sprites.len() && sprites@[r@[m] as int].id == id,
        forall|m1: int, m2: int| 0 <= m1 < m2 < r.len() ==> r@[m1] < r@[m2],
        forall|k: int| 0 <= k < sprites.len() && #[trigger] sprites@[k].id == id ==> r@.contains(k as usize),
{
    let mut r: Vec<usize> = Vec::new();
    let mut k: usize = 0;
    while k < sprites.len()
        invariant
            k <= sprites.len(),
            forall|m: int| 0 <= m < r.len() ==> #[trigger] r@[m] < k && sprites@[r@[m] as int].id == id,
            forall|m1: int, m2: int| 0 <= m1 < m2 < r.len() ==> r@[m1] < r@[m2],
            forall|k2: int| 0 <= k2 < k && #[trigger] sprites@[k2].id == id ==> r@.contains(k2 as usize),
        decreases sprites.len() - k,
    {
        let ghost prev = r@;
        if sprites[k].id == id {
            r.push(k);
            proof {
                assert(r@[r.len() - 1] == k);
            }
        }
        proof {
            assert forall|k2: int| 0 <= k2 < k + 1 && #[trigger] sprites@[k2].id == id implies r@.contains(
                k2 as usize,
            ) by {
                if k2 < k {
                    let m = choose|m: int| 0 <= m < prev.len() && prev[m] == k2 as usize;
                    assert(r@[m] == k2 as usize);
                } else {
                    assert(r@[r.len() - 1] == k);
                }
            }
        }
        k += 1;
    }
    r
}

} // verus!
