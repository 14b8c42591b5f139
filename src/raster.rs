use vstd::prelude::*;
use crate::sprite::Sprite;

verus! {

/// A decoded image: `width * height` packed RGBA pixels, row by row from the
/// top-left corner.
#[derive(Clone, Debug)]
pub struct Raster {
    pub width: usize,
    pub height: usize,
    pub pixels: Vec<u32>,
}

proof fn lemma_index_bound(w: int, h: int, x: int, y: int)
    requires
        0 <= x < w,
        0 <= y < h,
    ensures
        0 <= y * w + x < w * h,
{
    assert(0 <= y * w) by (nonlinear_arith)
        requires
            0 <= y,
            0 <= w,
    ;
    assert(y * w + w <= w * h) by (nonlinear_arith)
        requires
            y + 1 <= h,
            0 <= w,
    ;
}

proof fn lemma_index_unique(w: int, x: int, y: int, x2: int, y2: int)
    requires
        0 <= x < w,
        0 <= x2 < w,
        0 <= y,
        0 <= y2,
        y * w + x == y2 * w + x2,
    ensures
        x == x2,
        y == y2,
{
    if y < y2 {
        assert(y2 * w >= y * w + w) by (nonlinear_arith)
            requires
                y2 >= y + 1,
                0 <= w,
        ;
    } else if y2 < y {
        assert(y * w >= y2 * w + w) by (nonlinear_arith)
            requires
                y >= y2 + 1,
                0 <= w,
        ;
    }
}

/// Two well-formed rasters of the same size that agree on every pixel hold
/// the same pixel sequence.
pub proof fn lemma_pixels_ext(a: Raster, b: Raster)
    requires
        a.wf(),
        b.wf(),
        a.width == b.width,
        a.height == b.height,
        forall|x: int, y: int|
            0 <= x < a.width && 0 <= y < a.height ==> #[trigger] a.px(x, y) == b.px(x, y),
    ensures
        a.pixels@ == b.pixels@,
{
    let w = a.width as int;
    assert forall|k: int| 0 <= k < a.pixels@.len() implies a.pixels@[k] == b.pixels@[k] by {
        let x = k % w;
        let y = k / w;
        vstd::arithmetic::div_mod::lemma_fundamental_div_mod(k, w);
        assert(0 <= y) by (nonlinear_arith)
            requires
                0 <= k,
                0 < w,
                y == k / w,
        ;
        assert(y < a.height) by (nonlinear_arith)
            requires
                k < w * a.height,
                k == w * y + x,
                0 <= x,
                0 < w,
        ;
        assert(k == y * w + x) by (nonlinear_arith)
            requires
                k == w * y + x,
        ;
        assert(a.px(x, y) == b.px(x, y));
    }
    assert(a.pixels@ =~= b.pixels@);
}

impl Raster {
    pub open spec fn wf(&self) -> bool {
        self.pixels@.len() == self.width * self.height
    }

    /// The pixel in column `x`, row `y` counted from the top.
    pub open spec fn px(&self, x: int, y: int) -> u32 {
        self.pixels@[y * self.width + x]
    }

    /// The pixel in column `x`, row `j` counted from the bottom.
    pub open spec fn px_up(&self, x: int, j: int) -> u32 {
        self.px(x, self.height - 1 - j)
    }

    /// A raster of the given size with every pixel set to `fill`.
    pub fn filled(width: usize, height: usize, fill: u32) -> (r: Raster)
        requires
            width * height <= usize::MAX,
        ensures
            r.wf(),
            r.width == width,
            r.height == height,
            forall|x: int, y: int| 0 <= x < width && 0 <= y < height ==> #[trigger] r.px(x, y) == fill,
    {
        let n: usize = width * height;
        let mut pixels: Vec<u32> = Vec::new();
        let mut k: usize = 0;
        while k < n
            invariant
                k <= n,
                pixels@.len() == k,
                forall|m: int| 0 <= m < k ==> pixels@[m] == fill,
            decreases n - k,
        {
            pixels.push(fill);
            k += 1;
        }
        let r = Raster { width, height, pixels };
        proof {
            assert forall|x: int, y: int| 0 <= x < width && 0 <= y < height implies #[trigger] r.px(
                x,
                y,
            ) == fill by {
                lemma_index_bound(width as int, height as int, x, y);
            }
        }
        r
    }

    pub fn get_pixel(&self, x: usize, y: usize) -> (r: u32)
        requires
            self.wf(),
            x < self.width,
            y < self.height,
        ensures
            r == self.px(x as int, y as int),
    {
        let n = self.pixels.len();
        proof {
            lemma_index_bound(self.width as int, self.height as int, x as int, y as int);
            assert(y * self.width + x < n);
        }
        self.pixels[y * self.width + x]
    }

    pub fn put_pixel(&mut self, x: usize, y: usize, p: u32)
        requires
            old(self).wf(),
            x < old(self).width,
            y < old(self).height,
        ensures
            final(self).wf(),
            final(self).width == old(self).width,
            final(self).height == old(self).height,
            forall|x2: int, y2: int|
                0 <= x2 < old(self).width && 0 <= y2 < old(self).height
                    ==> #[trigger] final(self).px(x2, y2) == if x2 == x && y2 == y {
                    p
                } else {
                    old(self).px(x2, y2)
                },
    {
        let n = self.pixels.len();
        proof {
            lemma_index_bound(self.width as int, self.height as int, x as int, y as int);
            assert(y * self.width + x < n);
        }
        let k = y * self.width + x;
        self.pixels.set(k, p);
        proof {
            let w = self.width as int;
            let h = self.height as int;
            assert forall|x2: int, y2: int| 0 <= x2 < w && 0 <= y2 < h implies #[trigger] self.px(
                x2,
                y2,
            ) == if x2 == x && y2 == y {
                p
            } else {
                old(self).px(x2, y2)
            } by {
                lemma_index_bound(w, h, x2, y2);
                if !(x2 == x && y2 == y) {
                    if y2 * w + x2 == k {
                        lemma_index_unique(w, x as int, y as int, x2, y2);
                    }
                }
            }
        }
    }
}

/// A sprite together with its decoded frame image.
#[derive(Clone, Debug)]
pub struct SpriteImage {
    pub sprite: Sprite,
    pub image: Raster,
}

/// The rectangle of `tw` by `th` pixels whose bottom-left corner is column
/// `xr`, row `yr` (counted from the bottom) lies inside `img`.
pub open spec fn region_fits(img: Raster, xr: int, yr: int, tw: int, th: int) -> bool {
    0 <= xr && 0 <= yr && 0 <= tw && 0 <= th && xr + tw <= img.width && yr + th <= img.height
}

impl SpriteImage {
    /// The sprite's trimmed region lies inside its frame image.
    pub open spec fn fits(&self) -> bool {
        region_fits(
            self.image,
            self.sprite.xr as int,
            self.sprite.yr as int,
            self.sprite.width as int,
            self.sprite.height as int,
        )
    }

    /// Pixel `(i, j)` of the trimmed region, both counted from its
    /// bottom-left corner.
    pub open spec fn trimmed(&self, i: int, j: int) -> u32 {
        self.image.px_up(self.sprite.xr + i, self.sprite.yr + j)
    }

    /// Same art: both trimmed regions lie in their images and hold the same
    /// pixels, directly where both sprites have the same `flipped` flag, and
    /// with rows and columns exchanged where the flags differ.
    pub open spec fn same_art(&self, o: &SpriteImage) -> bool {
        let (w, h) = (self.sprite.width as int, self.sprite.height as int);
        self.fits() && o.fits() && if self.sprite.flipped == o.sprite.flipped {
            w == o.sprite.width && h == o.sprite.height && forall|i: int, j: int|
                0 <= i < w && 0 <= j < h ==> #[trigger] self.trimmed(i, j) == o.trimmed(i, j)
        } else {
            w == o.sprite.height && h == o.sprite.width && forall|i: int, j: int|
                0 <= i < w && 0 <= j < h ==> #[trigger] self.trimmed(i, j) == o.trimmed(j, i)
        }
    }

    /// Whether the trimmed region lies inside the frame image.
    pub fn trim_fits(&self) -> (r: bool)
        ensures
            r == self.fits(),
    {
        let s = &self.sprite;
        s.xr >= 0 && s.yr >= 0 && s.width >= 0 && s.height >= 0 && s.xr as usize + s.width as usize
            <= self.image.width && s.yr as usize + s.height as usize <= self.image.height
    }

    /// Pixel `(i, j)` of the trimmed region, counted from its bottom-left.
    pub fn trimmed_pixel(&self, i: usize, j: usize) -> (r: u32)
        requires
            self.image.wf(),
            self.fits(),
            i < self.sprite.width,
            j < self.sprite.height,
        ensures
            r == self.trimmed(i as int, j as int),
    {
        let x = self.sprite.xr as usize + i;
        let row = self.image.height - 1 - (self.sprite.yr as usize + j);
        self.image.get_pixel(x, row)
    }

    /// The trimmed region as a raster of its own, or `None` where it leaves
    /// the frame image.
    pub fn trim(&self) -> (r: Option<Raster>)
        requires
            self.image.wf(),
        ensures
            r.is_some() == self.fits(),
            r matches Some(t) ==> t.wf() && t.width == self.sprite.width && t.height
                == self.sprite.height && forall|i: int, j: int|
                0 <= i < t.width && 0 <= j < t.height ==> #[trigger] t.px_up(i, j) == self.trimmed(i, j),
    {
        if !self.trim_fits() {
            return None;
        }
        let w = self.sprite.width as usize;
        let h = self.sprite.height as usize;
        let n = self.image.pixels.len();
        proof {
            assert(w * h <= n) by (nonlinear_arith)
                requires
                    w <= self.image.width,
                    h <= self.image.height,
                    n == self.image.width * self.image.height,
            ;
        }
        let mut t = Raster::filled(w, h, 0);
        let mut i: usize = 0;
        while i < w
            invariant
                self.image.wf(),
                self.fits(),
                w == self.sprite.width,
                h == self.sprite.height,
                t.wf(),
                t.width == w,
                t.height == h,
                i <= w,
                forall|i2: int, j2: int|
                    0 <= i2 < i && 0 <= j2 < h ==> #[trigger] t.px_up(i2, j2) == self.trimmed(i2, j2),
            decreases w - i,
        {
            let mut j: usize = 0;
            while j < h
                invariant
                    self.image.wf(),
                    self.fits(),
                    w == self.sprite.width,
                    h == self.sprite.height,
                    t.wf(),
                    t.width == w,
                    t.height == h,
                    i < w,
                    j <= h,
                    forall|i2: int, j2: int|
                        0 <= i2 < w && 0 <= j2 < h && (i2 < i || (i2 == i && j2 < j))
                            ==> #[trigger] t.px_up(i2, j2) == self.trimmed(i2, j2),
                decreases h - j,
            {
                let p = self.trimmed_pixel(i, j);
                let ghost mid = t;
                t.put_pixel(i, h - 1 - j, p);
                proof {
                    assert forall|i2: int, j2: int|
                        0 <= i2 < w && 0 <= j2 < h && (i2 < i || (i2 == i && j2 < j + 1)) implies #[trigger] t.px_up(
                        i2,
                        j2,
                    ) == self.trimmed(i2, j2) by {
                        assert(t.px(i2, h - 1 - j2) == if i2 == i && h - 1 - j2 == h - 1 - j {
                            p
                        } else {
                            mid.px(i2, h - 1 - j2)
                        });
                        assert(mid.px_up(i2, j2) == mid.px(i2, h - 1 - j2));
                    }
                }
                j += 1;
            }
            i += 1;
        }
        Some(t)
    }

    /// Whether the two sprite images show the same art (see `same_art`);
    /// regions that leave their image, or sizes that differ, give `false`.
    pub fn equals(&self, o: &SpriteImage) -> (r: bool)
        requires
            self.image.wf(),
            o.image.wf(),
        ensures
            r == self.same_art(o),
    {
        if !self.trim_fits() || !o.trim_fits() {
            return false;
        }
        let same = self.sprite.flipped == o.sprite.flipped;
        if same {
            if self.sprite.width != o.sprite.width || self.sprite.height != o.sprite.height {
                return false;
            }
        } else {
            if self.sprite.width != o.sprite.height || self.sprite.height != o.sprite.width {
                return false;
            }
        }
        let w = self.sprite.width as usize;
        let h = self.sprite.height as usize;
        let mut i: usize = 0;
        while i < w
            invariant
                self.image.wf(),
                o.image.wf(),
                self.fits(),
                o.fits(),
                same == (self.sprite.flipped == o.sprite.flipped),
                same ==> w == o.sprite.width && h == o.sprite.height,
                !same ==> w == o.sprite.height && h == o.sprite.width,
                w == self.sprite.width,
                h == self.sprite.height,
                i <= w,
                forall|i2: int, j2: int|
                    0 <= i2 < i && 0 <= j2 < h ==> #[trigger] self.trimmed(i2, j2) == if same {
                        o.trimmed(i2, j2)
                    } else {
                        o.trimmed(j2, i2)
                    },
            decreases w - i,
        {
            let mut j: usize = 0;
            while j < h
                invariant
                    self.image.wf(),
                    o.image.wf(),
                    self.fits(),
                    o.fits(),
                    same == (self.sprite.flipped == o.sprite.flipped),
                    same ==> w == o.sprite.width && h == o.sprite.height,
                    !same ==> w == o.sprite.height && h == o.sprite.width,
                    w == self.sprite.width,
                    h == self.sprite.height,
                    i < w,
                    j <= h,
                    forall|i2: int, j2: int|
                        0 <= i2 < i && 0 <= j2 < h ==> #[trigger] self.trimmed(i2, j2) == if same {
                            o.trimmed(i2, j2)
                        } else {
                            o.trimmed(j2, i2)
                        },
                    forall|j2: int|
                        0 <= j2 < j ==> #[trigger] self.trimmed(i as int, j2) == if same {
                            o.trimmed(i as int, j2)
                        } else {
                            o.trimmed(j2, i as int)
                        },
                decreases h - j,
            {
                let pa = self.trimmed_pixel(i, j);
                let pb = if same {
                    o.trimmed_pixel(i, j)
                } else {
                    o.trimmed_pixel(j, i)
                };
                if pa != pb {
                    return false;
                }
                j += 1;
            }
            i += 1;
        }
        true
    }
}

/// Same art is a symmetric relation, whatever the two `flipped` flags.
pub proof fn lemma_equals_symmetric(a: SpriteImage, b: SpriteImage)
    ensures
        a.same_art(&b) == b.same_art(&a),
{
    if a.same_art(&b) && a.sprite.flipped != b.sprite.flipped {
        assert forall|i: int, j: int|
            0 <= i < b.sprite.width && 0 <= j < b.sprite.height implies #[trigger] b.trimmed(i, j)
            == a.trimmed(j, i) by {
            assert(a.trimmed(j, i) == b.trimmed(i, j));
        }
    }
    if b.same_art(&a) && a.sprite.flipped != b.sprite.flipped {
        assert forall|i: int, j: int|
            0 <= i < a.sprite.width && 0 <= j < a.sprite.height implies #[trigger] a.trimmed(i, j)
            == b.trimmed(j, i) by {
            assert(b.trimmed(j, i) == a.trimmed(i, j));
        }
    }
}

} // verus!
