use vstd::prelude::*;
use crate::raster::Raster;
use crate::sprite::{Sprite, SpriteModel, models};

verus! {

/// Frame column that lands on atlas column `x`, row `u` (rows counted from
/// the bottom). A flipped sprite is stored with rows and columns exchanged.
pub open spec fn frame_i(s: SpriteModel, x: int, u: int) -> int {
    if s.flipped {
        u - s.y + s.xr
    } else {
        x - s.x + s.xr
    }
}

/// Frame row (counted from the bottom) that lands on atlas column `x`, row `u`.
pub open spec fn frame_j(s: SpriteModel, x: int, u: int) -> int {
    if s.flipped {
        x - s.x + s.yr
    } else {
        u - s.y + s.yr
    }
}

/// Frame pixel `(i, j)` is copied: it lies in the frame and in the trimmed region.
pub open spec fn copies(frame: Raster, s: SpriteModel, i: int, j: int) -> bool {
    s.xr <= i < s.xr + s.width && s.yr <= j < s.yr + s.height && 0 <= i < frame.width && 0 <= j
        < frame.height
}

/// The atlas pixel at column `x`, row `u` (from the bottom) after painting
/// `s` from `frame` over an atlas whose pixel there was `prev`.
pub open spec fn pack_step(prev: u32, frame: Raster, s: SpriteModel, x: int, u: int) -> u32 {
    let (i, j) = (frame_i(s, x, u), frame_j(s, x, u));
    if copies(frame, s, i, j) {
        frame.px_up(i, j)
    } else {
        prev
    }
}

/// The atlas pixel at column `x`, row `u` after painting the first `n`
/// sprites, in order, over `atlas`.
pub open spec fn pack_all(
    atlas: Raster,
    frames: Seq<Raster>,
    sprites: Seq<SpriteModel>,
    n: nat,
    x: int,
    u: int,
) -> u32
    decreases n,
{
    if n == 0 {
        atlas.px_up(x, u)
    } else {
        pack_step(
            pack_all(atlas, frames, sprites, (n - 1) as nat, x, u),
            frames[n - 1],
            sprites[n - 1],
            x,
            u,
        )
    }
}

/// `after` is `before` with sprite `s` painted from `frame`.
pub open spec fn painted(before: Raster, frame: Raster, s: SpriteModel, after: Raster) -> bool {
    after.wf() && after.width == before.width && after.height == before.height && forall|
        x: int,
        u: int,
    |
        0 <= x < before.width && 0 <= u < before.height ==> #[trigger] after.px_up(x, u)
            == pack_step(before.px_up(x, u), frame, s, x, u)
}

/// Paints one sprite into the atlas: every pixel of the sprite's trimmed
/// region that falls inside the atlas is copied to its place, rows and
/// columns exchanged for a flipped sprite; other atlas pixels keep their value.
pub fn paint_sprite(atlas: &mut Raster, frame: &Raster, s: &Sprite)
    requires
        old(atlas).wf(),
        frame.wf(),
    ensures
        painted(*old(atlas), *frame, s@, *final(atlas)),
{
    let ghost before = *atlas;
    let w = atlas.width;
    let h = atlas.height;
    let xr = s.xr as i64;
    let yr = s.yr as i64;
    let i0: usize = if xr > 0 {
        xr as usize
    } else {
        0
    };
    let i_end: i64 = xr + s.width as i64;
    let i1: usize = if i_end <= 0 {
        0
    } else if (i_end as u64) < (frame.width as u64) {
        i_end as usize
    } else {
        frame.width
    };
    let j0: usize = if yr > 0 {
        yr as usize
    } else {
        0
    };
    let j_end: i64 = yr + s.height as i64;
    let j1: usize = if j_end <= 0 {
        0
    } else if (j_end as u64) < (frame.height as u64) {
        j_end as usize
    } else {
        frame.height
    };
    let mut i: usize = i0;
    while i < i1
        invariant
            atlas.wf(),
            frame.wf(),
            atlas.width == w == before.width,
            atlas.height == h == before.height,
            before.wf(),
            xr == s.xr,
            yr == s.yr,
            i0 <= i,
            i0 == if xr > 0 { xr } else { 0 },
            i1 <= frame.width,
            i1 <= if xr + s.width > 0 { xr + s.width } else { 0 },
            j0 == if yr > 0 { yr } else { 0 },
            j1 <= frame.height,
            j1 <= if yr + s.height > 0 { yr + s.height } else { 0 },
            j1 == if yr + s.height <= 0 { 0 } else if yr + s.height < frame.height { yr + s.height } else { frame.height as int },
            i1 == if xr + s.width <= 0 { 0 } else if xr + s.width < frame.width { xr + s.width } else { frame.width as int },
            forall|x: int, u: int|
                0 <= x < w && 0 <= u < h ==> #[trigger] atlas.px_up(x, u) == if copies(
                    *frame,
                    s@,
                    frame_i(s@, x, u),
                    frame_j(s@, x, u),
                ) && frame_i(s@, x, u) < i {
                    frame.px_up(frame_i(s@, x, u), frame_j(s@, x, u))
                } else {
                    before.px_up(x, u)
                },
        decreases i1 - i,
    {
        let mut j: usize = j0;
        while j < j1
            invariant
                atlas.wf(),
                frame.wf(),
                atlas.width == w == before.width,
                atlas.height == h == before.height,
                before.wf(),
                xr == s.xr,
                yr == s.yr,
                i0 <= i < i1,
                i0 == if xr > 0 { xr } else { 0 },
                i1 <= frame.width,
                i1 <= if xr + s.width > 0 { xr + s.width } else { 0 },
                j0 == if yr > 0 { yr } else { 0 },
                j0 <= j,
                j1 <= frame.height,
                j1 <= if yr + s.height > 0 { yr + s.height } else { 0 },
                j1 == if yr + s.height <= 0 { 0 } else if yr + s.height < frame.height { yr + s.height } else { frame.height as int },
                i1 == if xr + s.width <= 0 { 0 } else if xr + s.width < frame.width { xr + s.width } else { frame.width as int },
                forall|x: int, u: int|
                    0 <= x < w && 0 <= u < h ==> #[trigger] atlas.px_up(x, u) == if copies(
                        *frame,
                        s@,
                        frame_i(s@, x, u),
                        frame_j(s@, x, u),
                    ) && (frame_i(s@, x, u) < i || (frame_i(s@, x, u) == i && frame_j(s@, x, u)
                        < j)) {
                        frame.px_up(frame_i(s@, x, u), frame_j(s@, x, u))
                    } else {
                        before.px_up(x, u)
                    },
            decreases j1 - j,
        {
            let x: i64 = if s.flipped {
                s.x as i64 + j as i64 - yr
            } else {
                s.x as i64 + i as i64 - xr
            };
            let u: i64 = if s.flipped {
                s.y as i64 + i as i64 - xr
            } else {
                s.y as i64 + j as i64 - yr
            };
            if 0 <= x && (x as u64) < (w as u64) && 0 <= u && (u as u64) < (h as u64) {
                let p = frame.get_pixel(i, frame.height - 1 - j);
                let ghost mid = *atlas;
                atlas.put_pixel(x as usize, h - 1 - u as usize, p);
                proof {
                    assert forall|x2: int, u2: int| 0 <= x2 < w && 0 <= u2 < h implies #[trigger] atlas.px_up(
                        x2,
                        u2,
                    ) == if copies(*frame, s@, frame_i(s@, x2, u2), frame_j(s@, x2, u2)) && (frame_i(
                        s@,
                        x2,
                        u2,
                    ) < i || (frame_i(s@, x2, u2) == i && frame_j(s@, x2, u2) < j + 1)) {
                        frame.px_up(frame_i(s@, x2, u2), frame_j(s@, x2, u2))
                    } else {
                        before.px_up(x2, u2)
                    } by {
                        assert(mid.px_up(x2, u2) == mid.px(x2, h - 1 - u2));
                        assert(atlas.px(x2, h - 1 - u2) == if x2 == x && h - 1 - u2 == h - 1 - u {
                            p
                        } else {
                            mid.px(x2, h - 1 - u2)
                        });
                    }
                }
            } else {
                proof {
                    assert forall|x2: int, u2: int| 0 <= x2 < w && 0 <= u2 < h implies #[trigger] atlas.px_up(
                        x2,
                        u2,
                    ) == if copies(*frame, s@, frame_i(s@, x2, u2), frame_j(s@, x2, u2)) && (frame_i(
                        s@,
                        x2,
                        u2,
                    ) < i || (frame_i(s@, x2, u2) == i && frame_j(s@, x2, u2) < j + 1)) {
                        frame.px_up(frame_i(s@, x2, u2), frame_j(s@, x2, u2))
                    } else {
                        before.px_up(x2, u2)
                    } by {
                        if copies(*frame, s@, frame_i(s@, x2, u2), frame_j(s@, x2, u2)) && frame_i(s@, x2, u2) == i && frame_j(s@, x2, u2) == j {
                            assert(x2 == x && u2 == u);
                        }
                    }
                }
            }
            j += 1;
        }
        proof {
            assert forall|x2: int, u2: int| 0 <= x2 < w && 0 <= u2 < h implies #[trigger] atlas.px_up(
                x2,
                u2,
            ) == if copies(*frame, s@, frame_i(s@, x2, u2), frame_j(s@, x2, u2)) && frame_i(
                s@,
                x2,
                u2,
            ) < i + 1 {
                frame.px_up(frame_i(s@, x2, u2), frame_j(s@, x2, u2))
            } else {
                before.px_up(x2, u2)
            } by {
                if copies(*frame, s@, frame_i(s@, x2, u2), frame_j(s@, x2, u2)) && frame_i(s@, x2, u2)
                    == i {
                    assert(frame_j(s@, x2, u2) < j);
                }
            }
        }
        i += 1;
    }
    proof {
        assert forall|x2: int, u2: int| 0 <= x2 < w && 0 <= u2 < h implies #[trigger] atlas.px_up(
            x2,
            u2,
        ) == pack_step(before.px_up(x2, u2), *frame, s@, x2, u2) by {
            if copies(*frame, s@, frame_i(s@, x2, u2), frame_j(s@, x2, u2)) {
                assert(frame_i(s@, x2, u2) < i);
            }
        }
    }
}

/// Paints every sprite of a collection, in order, from its decoded frame.
pub fn pack_collection(atlas: &mut Raster, frames: &Vec<Raster>, sprites: &Vec<Sprite>)
    requires
        old(atlas).wf(),
        frames.len() == sprites.len(),
        forall|k: int| 0 <= k < frames.len() ==> (#[trigger] frames@[k]).wf(),
    ensures
        final(atlas).wf(),
        final(atlas).width == old(atlas).width,
        final(atlas).height == old(atlas).height,
        forall|x: int, u: int|
            0 <= x < old(atlas).width && 0 <= u < old(atlas).height ==> #[trigger] final(atlas).px_up(x, u)
                == pack_all(*old(atlas), frames@, models(sprites@), sprites@.len(), x, u),
{
    let ghost start = *atlas;
    let mut k: usize = 0;
    while k < sprites.len()
        invariant
            k <= sprites.len(),
            frames.len() == sprites.len(),
            forall|m: int| 0 <= m < frames.len() ==> (#[trigger] frames@[m]).wf(),
            atlas.wf(),
            atlas.width == start.width,
            atlas.height == start.height,
            forall|x: int, u: int|
                0 <= x < start.width && 0 <= u < start.height ==> #[trigger] atlas.px_up(x, u)
                    == pack_all(start, frames@, models(sprites@), k as nat, x, u),
        decreases sprites.len() - k,
    {
        let ghost before = *atlas;
        paint_sprite(atlas, &frames[k], &sprites[k]);
        proof {
            assert forall|x: int, u: int| 0 <= x < start.width && 0 <= u < start.height implies #[trigger] atlas.px_up(
                x,
                u,
            ) == pack_all(start, frames@, models(sprites@), (k + 1) as nat, x, u) by {
                assert(before.px_up(x, u) == pack_all(start, frames@, models(sprites@), k as nat, x, u));
                assert(models(sprites@)[k as int] == sprites@[k as int]@);
            }
        }
        k += 1;
    }
}

/// Where a sprite's trimmed region lies inside its frame and its place lies
/// inside the atlas, reading the packed atlas back at that place, rows and
/// columns exchanged for a flipped sprite, gives the trimmed frame pixels.
pub proof fn lemma_pack_reproduces_frame(before: Raster, frame: Raster, s: SpriteModel, after: Raster)
    requires
        painted(before, frame, s, after),
        0 <= s.xr,
        0 <= s.yr,
        0 <= s.width,
        0 <= s.height,
        s.xr + s.width <= frame.width,
        s.yr + s.height <= frame.height,
        0 <= s.x,
        0 <= s.y,
        !s.flipped ==> s.x + s.width <= before.width && s.y + s.height <= before.height,
        s.flipped ==> s.x + s.height <= before.width && s.y + s.width <= before.height,
    ensures
        forall|i: int, j: int|
            0 <= i < s.width && 0 <= j < s.height ==> #[trigger] placed(after, s, i, j)
                == frame.px_up(s.xr + i, s.yr + j),
{
    assert forall|i: int, j: int| 0 <= i < s.width && 0 <= j < s.height implies #[trigger] placed(
        after,
        s,
        i,
        j,
    ) == frame.px_up(s.xr + i, s.yr + j) by {
        let (x, u) = if s.flipped {
            (s.x + j, s.y + i)
        } else {
            (s.x + i, s.y + j)
        };
        assert(after.px_up(x, u) == pack_step(before.px_up(x, u), frame, s, x, u));
    }
}

/// The atlas pixel that holds pixel `(i, j)` of the sprite's trimmed region.
pub open spec fn placed(atlas: Raster, s: SpriteModel, i: int, j: int) -> u32 {
    if s.flipped {
        atlas.px_up(s.x + j, s.y + i)
    } else {
        atlas.px_up(s.x + i, s.y + j)
    }
}

/// Progress of one packing run: how many of `total` sprites are painted, and
/// whether the run was cancelled. A cancelled run never saves its atlas.
pub struct PackProgress {
    pub done: usize,
    pub total: usize,
    pub cancelled: bool,
}

impl PackProgress {
    pub fn new(total: usize) -> (r: PackProgress)
        ensures
            r.done == 0,
            r.total == total,
            !r.cancelled,
    {
        PackProgress { done: 0, total, cancelled: false }
    }

    /// Paints the next sprite and returns the count of painted sprites, the
    /// numerator of the progress value to publish.
    pub fn paint_next(&mut self, atlas: &mut Raster, frame: &Raster, s: &Sprite) -> (done: usize)
        requires
            old(self).done < old(self).total,
            !old(self).cancelled,
            old(atlas).wf(),
            frame.wf(),
        ensures
            final(self).done == old(self).done + 1,
            final(self).total == old(self).total,
            !final(self).cancelled,
            done == final(self).done,
            0 < done <= final(self).total,
            painted(*old(atlas), *frame, s@, *final(atlas)),
    {
        paint_sprite(atlas, frame, s);
        self.done = self.done + 1;
        self.done
    }

    /// Marks the run cancelled: a cancel request arrived or the progress
    /// receiver went away.
    pub fn cancel(&mut self)
        ensures
            final(self).cancelled,
            final(self).done == old(self).done,
            final(self).total == old(self).total,
    {
        self.cancelled = true;
    }

    /// The atlas may be saved: every sprite is painted and the run was not
    /// cancelled.
    pub fn may_save(&self) -> (r: bool)
        ensures
            r == (self.done == self.total && !self.cancelled),
    {
        self.done == self.total && !self.cancelled
    }
}

/// A full run, from a fresh counter through one painting step per sprite,
/// publishes the counts `1, 2, ..., total` in that order: they rise, none is
/// negative, and the last equals the total, so the last fraction is whole.
pub proof fn lemma_progress_run(run: Seq<PackProgress>, total: usize)
    requires
        run.len() == total + 1,
        run[0].done == 0,
        run[0].total == total,
        forall|k: int|
            0 <= k < total ==> #[trigger] run[k + 1].done == run[k].done + 1 && run[k + 1].total
                == run[k].total,
    ensures
        forall|k: int| 0 <= k <= total ==> #[trigger] run[k].done == k && run[k].total == total,
        run[total as int].done == run[total as int].total,
{
    assert forall|k: int| 0 <= k <= total implies #[trigger] run[k].done == k && run[k].total
        == total by {
        lemma_progress_prefix(run, total, k);
    }
}

proof fn lemma_progress_prefix(run: Seq<PackProgress>, total: usize, k: int)
    requires
        run.len() == total + 1,
        run[0].done == 0,
        run[0].total == total,
        forall|m: int|
            0 <= m < total ==> #[trigger] run[m + 1].done == run[m].done + 1 && run[m + 1].total
                == run[m].total,
        0 <= k <= total,
    ensures
        run[k].done == k,
        run[k].total == total,
    decreases k,
{
    if k > 0 {
        lemma_progress_prefix(run, total, k - 1);
        assert(run[(k - 1) + 1].done == run[k - 1].done + 1);
    }
}

/// One step of a run: a painting step (only from a run not cancelled, see
/// `PackProgress::paint_next`) or a cancel (see `PackProgress::cancel`).
pub open spec fn run_step(a: PackProgress, b: PackProgress) -> bool {
    (!a.cancelled && !b.cancelled && b.done == a.done + 1 && b.total == a.total) || (b.cancelled
        && b.done == a.done && b.total == a.total)
}

/// Once a run is cancelled it stays cancelled, so no later state of it may
/// save its atlas.
pub proof fn lemma_cancelled_run_never_saves(run: Seq<PackProgress>, c: int)
    requires
        0 <= c < run.len(),
        run[c].cancelled,
        forall|k: int| 0 <= k < run.len() - 1 ==> #[trigger] run_step(run[k], run[k + 1]),
    ensures
        forall|k: int| c <= k < run.len() ==> (#[trigger] run[k]).cancelled && !(run[k].done
            == run[k].total && !run[k].cancelled),
{
    assert forall|k: int| c <= k < run.len() implies (#[trigger] run[k]).cancelled by {
        lemma_cancel_stays(run, c, k);
    }
}

proof fn lemma_cancel_stays(run: Seq<PackProgress>, c: int, k: int)
    requires
        0 <= c <= k < run.len(),
        run[c].cancelled,
        forall|m: int| 0 <= m < run.len() - 1 ==> #[trigger] run_step(run[m], run[m + 1]),
    ensures
        run[k].cancelled,
    decreases k - c,
{
    if k > c {
        lemma_cancel_stays(run, c, k - 1);
        assert(run_step(run[k - 1], run[(k - 1) + 1]));
    }
}

/// A painting step raises the count by one without passing the total, so
/// the published fractions `done / total` never decrease; a run may save
/// only once the count equals the total.
pub proof fn lemma_progress_monotone(before: PackProgress, after: PackProgress)
    requires
        after.done == before.done + 1,
        after.total == before.total,
        before.done < before.total,
    ensures
        before.done * after.total <= after.done * before.total,
        after.done <= after.total,
{
    assert(before.done * after.total <= after.done * before.total) by (nonlinear_arith)
        requires
            after.done == before.done + 1,
            after.total == before.total,
            0 <= before.done,
            0 <= before.total,
    ;
}

} // verus!
