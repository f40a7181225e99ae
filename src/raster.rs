use vstd::prelude::*;
use vstd::arithmetic::div_mod::{
    lemma_fundamental_div_mod, lemma_fundamental_div_mod_converse, lemma_mod_pos_bound,
};

verus! {

/// One RGBA pixel, eight bits per channel.
#[derive(Clone, Copy, Debug, PartialEq, Eq, Structural)]
pub struct Pixel {
    pub r: u8,
    pub g: u8,
    pub b: u8,
    pub a: u8,
}

impl Pixel {
    /// A pixel whose four channels all hold `v`.
    pub fn splat(v: u8) -> (p: Pixel)
        ensures
            p == splat_spec(v),
    {
        Pixel { r: v, g: v, b: v, a: v }
    }

    /// An opaque gray pixel: `v` in red, green and blue, 255 in alpha.
    pub fn opaque_gray(v: u8) -> (p: Pixel)
        ensures
            p == (Pixel { r: v, g: v, b: v, a: 255 }),
    {
        Pixel { r: v, g: v, b: v, a: 255 }
    }
}

pub open spec fn splat_spec(v: u8) -> Pixel {
    Pixel { r: v, g: v, b: v, a: v }
}

/// A non-negative scale factor `num / den`, standing for a real gain or
/// multiplier; `den` must not be zero.
#[derive(Clone, Copy, Debug, PartialEq, Eq, Structural)]
pub struct Ratio {
    pub num: u32,
    pub den: u32,
}

impl Ratio {
    pub open spec fn wf(&self) -> bool {
        self.den > 0
    }
}

/// A raster image: `height` rows of `width` pixels, stored row by row.
#[derive(Clone, Debug)]
pub struct Image {
    pub width: u32,
    pub height: u32,
    pub pixels: Vec<Pixel>,
}

/// Position of pixel `(x, y)` in the row-major pixel sequence of a `w`-wide image.
pub open spec fn flat_index(x: int, y: int, w: int) -> int {
    y * w + x
}

/// `(x, y)` lies inside a `w` by `h` grid.
pub open spec fn in_grid(x: int, y: int, w: int, h: int) -> bool {
    0 <= x < w && 0 <= y < h
}

impl Image {
    /// The pixel sequence holds exactly `width * height` pixels.
    pub open spec fn wf(&self) -> bool {
        self.pixels@.len() == self.width as int * self.height as int
    }

    /// The pixel at column `x`, row `y`.
    pub open spec fn at(&self, x: int, y: int) -> Pixel {
        self.pixels@[flat_index(x, y, self.width as int)]
    }

    /// Two images have the same size and pixels.
    pub open spec fn same_as(&self, other: &Image) -> bool {
        self.width == other.width && self.height == other.height && self.pixels@ == other.pixels@
    }

    /// An image of the given size whose every pixel is `p`.
    pub fn filled(width: u32, height: u32, p: Pixel) -> (img: Image)
        requires
            width as int * height as int <= usize::MAX,
        ensures
            img.wf(),
            img.width == width,
            img.height == height,
            forall|i: int| 0 <= i < img.pixels@.len() ==> img.pixels@[i] == p,
    {
        let n: usize = width as usize * height as usize;
        let pixels = vec![p; n];
        Image { width, height, pixels }
    }

    /// The pixel at column `x`, row `y`.
    pub fn get_pixel(&self, x: u32, y: u32) -> (p: Pixel)
        requires
            self.wf(),
            x < self.width,
            y < self.height,
        ensures
            p == self.at(x as int, y as int),
    {
        let n: usize = self.pixels.len();
        proof {
            lemma_flat_index_bounds(x as int, y as int, self.width as int, self.height as int);
        }
        self.pixels[y as usize * self.width as usize + x as usize]
    }

    /// Writes `p` at column `x`, row `y`, leaving every other pixel as it was.
    pub fn put_pixel(&mut self, x: u32, y: u32, p: Pixel)
        requires
            old(self).wf(),
            x < old(self).width,
            y < old(self).height,
        ensures
            final(self).wf(),
            final(self).width == old(self).width,
            final(self).height == old(self).height,
            final(self).pixels@ == old(self).pixels@.update(
                flat_index(x as int, y as int, old(self).width as int),
                p,
            ),
    {
        let n: usize = self.pixels.len();
        proof {
            lemma_flat_index_bounds(x as int, y as int, self.width as int, self.height as int);
        }
        let i: usize = y as usize * self.width as usize + x as usize;
        self.pixels.set(i, p);
    }
}

/// A position inside the grid has a flat index inside the pixel sequence.
pub proof fn lemma_flat_index_bounds(x: int, y: int, w: int, h: int)
    requires
        in_grid(x, y, w, h),
    ensures
        0 <= flat_index(x, y, w) < w * h,
        flat_index(x, y, w) + 1 <= w * h,
        y * w <= flat_index(x, y, w),
{
    assert(0 <= y * w + x < w * h) by (nonlinear_arith)
        requires
            0 <= x < w,
            0 <= y < h,
    ;
}

/// The column and row of a flat index are recovered by `%` and `/`.
pub proof fn lemma_flat_index_div_mod(x: int, y: int, w: int)
    requires
        0 <= x < w,
    ensures
        flat_index(x, y, w) % w == x,
        flat_index(x, y, w) / w == y,
{
    lemma_fundamental_div_mod_converse(flat_index(x, y, w), w, y, x);
}

/// Distinct positions of the grid have distinct flat indices.
pub proof fn lemma_flat_index_injective(x1: int, y1: int, x2: int, y2: int, w: int)
    requires
        0 <= x1 < w,
        0 <= x2 < w,
        flat_index(x1, y1, w) == flat_index(x2, y2, w),
    ensures
        x1 == x2,
        y1 == y2,
{
    lemma_flat_index_div_mod(x1, y1, w);
    lemma_flat_index_div_mod(x2, y2, w);
}


/// Two well-formed images of one size that agree at every position hold the same
/// pixel sequence.
pub proof fn lemma_same_pixels(a: Image, b: Image)
    requires
        a.wf(),
        b.wf(),
        a.width == b.width,
        a.height == b.height,
        forall|x: int, y: int|
            in_grid(x, y, a.width as int, a.height as int) ==> #[trigger] a.at(x, y) == b.at(x, y),
    ensures
        a.pixels@ == b.pixels@,
{
    let w = a.width as int;
    let h = a.height as int;
    assert forall|i: int| 0 <= i < a.pixels@.len() implies a.pixels@[i] == b.pixels@[i] by {
        assert(w > 0) by (nonlinear_arith)
            requires
                0 <= i < w * h,
                w >= 0,
                h >= 0,
        ;
        lemma_fundamental_div_mod(i, w);
        lemma_mod_pos_bound(i, w);
        assert(i == flat_index(i % w, i / w, w)) by (nonlinear_arith)
            requires
                i == w * (i / w) + (i % w),
        ;
        assert(i / w < h) by (nonlinear_arith)
            requires
                0 <= i < w * h,
                i == w * (i / w) + (i % w),
                0 <= i % w < w,
        ;
        assert(a.at(i % w, i / w) == b.at(i % w, i / w));
    }
    assert(a.pixels@ =~= b.pixels@);
}

} // verus!
