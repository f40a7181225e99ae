use vstd::prelude::*;
use crate::raster::{
    flat_index, in_grid, lemma_flat_index_bounds, lemma_flat_index_div_mod, splat_spec, Image, Pixel,
    Ratio,
};
use crate::laws::{lemma_auto_adjust_range, lemma_dither_keeps_uniform, lemma_gain_one_and_zero};
use crate::render::{auto_adjusted, scaled};

verus! {

/// `floor(0.299 R + 0.587 G + 0.114 B)`, the luma of a pixel.
pub open spec fn luma(p: Pixel) -> u8 {
    ((299 * p.r + 587 * p.g + 114 * p.b) / 1000) as u8
}

/// The gray pixel of `p`: its luma in red, green and blue, its own alpha.
pub open spec fn gray_pixel(p: Pixel) -> Pixel {
    Pixel { r: luma(p), g: luma(p), b: luma(p), a: p.a }
}

fn luma_exec(p: Pixel) -> (r: u8)
    ensures
        r == luma(p),
{
    let sum: u32 = 299 * p.r as u32 + 587 * p.g as u32 + 114 * p.b as u32;
    (sum / 1000) as u8
}

/// The grayscale image of `img`: every pixel replaced by its gray pixel, alpha kept.
pub fn to_grayscale(img: &Image) -> (r: Image)
    requires
        img.wf(),
    ensures
        r.wf(),
        r.width == img.width,
        r.height == img.height,
        forall|i: int| 0 <= i < r.pixels@.len() ==> r.pixels@[i] == gray_pixel(img.pixels@[i]),
{
    let n: usize = img.pixels.len();
    let mut out: Vec<Pixel> = Vec::with_capacity(n);
    let mut i: usize = 0;
    while i < n
        invariant
            n == img.pixels@.len(),
            0 <= i <= n,
            out@.len() == i,
            forall|j: int| 0 <= j < i ==> out@[j] == gray_pixel(img.pixels@[j]),
        decreases n - i,
    {
        let p = img.pixels[i];
        let v = luma_exec(p);
        out.push(Pixel { r: v, g: v, b: v, a: p.a });
        i = i + 1;
    }
    Image { width: img.width, height: img.height, pixels: out }
}

/// `min(255, floor(v * gain))`.
pub open spec fn scale_channel(v: u8, gain: Ratio) -> u8 {
    let x = (v as int) * (gain.num as int) / (gain.den as int);
    if x > 255 {
        255
    } else {
        x as u8
    }
}

/// `p` with red, green and blue scaled by `gain`; alpha kept.
pub open spec fn scale_pixel(p: Pixel, gain: Ratio) -> Pixel {
    Pixel {
        r: scale_channel(p.r, gain),
        g: scale_channel(p.g, gain),
        b: scale_channel(p.b, gain),
        a: p.a,
    }
}

fn scale_channel_exec(v: u8, gain: Ratio) -> (r: u8)
    requires
        gain.wf(),
    ensures
        r == scale_channel(v, gain),
{
    proof {
        assert(v * gain.num <= 255 * 0xffff_ffff) by (nonlinear_arith)
            requires
                v <= 255,
                gain.num <= 0xffff_ffff,
        ;
    }
    let x: u64 = v as u64 * gain.num as u64 / gain.den as u64;
    if x > 255 {
        255
    } else {
        x as u8
    }
}

/// Multiplies red, green and blue of every pixel by `gain`, clamped to 255;
/// alpha is left as it was.
pub fn adjust_brightness(img: &mut Image, gain: Ratio)
    requires
        old(img).wf(),
        gain.wf(),
    ensures
        final(img).wf(),
        final(img).width == old(img).width,
        final(img).height == old(img).height,
        forall|i: int|
            0 <= i < final(img).pixels@.len() ==> final(img).pixels@[i] == scale_pixel(
                old(img).pixels@[i],
                gain,
            ),
        gain == (Ratio { num: 1, den: 1 }) ==> final(img).pixels@ == old(img).pixels@,
        gain.num == 0 ==> forall|i: int|
            0 <= i < final(img).pixels@.len() ==> {
                let p = #[trigger] final(img).pixels@[i];
                p.r == 0 && p.g == 0 && p.b == 0
            },
{
    let n: usize = img.pixels.len();
    let mut i: usize = 0;
    while i < n
        invariant
            n == img.pixels@.len(),
            n == old(img).pixels@.len(),
            img.width == old(img).width,
            img.height == old(img).height,
            0 <= i <= n,
            gain.wf(),
            forall|j: int| 0 <= j < i ==> img.pixels@[j] == scale_pixel(old(img).pixels@[j], gain),
            forall|j: int| i <= j < n ==> img.pixels@[j] == old(img).pixels@[j],
        decreases n - i,
    {
        let p = img.pixels[i];
        let q = Pixel {
            r: scale_channel_exec(p.r, gain),
            g: scale_channel_exec(p.g, gain),
            b: scale_channel_exec(p.b, gain),
            a: p.a,
        };
        img.pixels.set(i, q);
        i = i + 1;
    }
    proof {
        let s0 = old(img).pixels@;
        assert(img.pixels@ =~= scaled(s0, gain));
        lemma_gain_one_and_zero(s0, gain.den);
        if gain.num == 0 {
            assert(gain == (Ratio { num: 0, den: gain.den }));
        }
    }
}

/// The smallest red value of `s`; 255 for an empty sequence.
pub open spec fn red_min(s: Seq<Pixel>) -> u8
    decreases s.len(),
{
    if s.len() == 0 {
        255
    } else {
        let m = red_min(s.drop_last());
        if s.last().r < m {
            s.last().r
        } else {
            m
        }
    }
}

/// The largest red value of `s`; 0 for an empty sequence.
pub open spec fn red_max(s: Seq<Pixel>) -> u8
    decreases s.len(),
{
    if s.len() == 0 {
        0
    } else {
        let m = red_max(s.drop_last());
        if s.last().r > m {
            s.last().r
        } else {
            m
        }
    }
}

/// `round((v - lo) / (hi - lo) * 255)`, halves rounded up, clamped to `0..=255`.
pub open spec fn stretch_channel(v: u8, lo: u8, hi: u8) -> u8 {
    if v <= lo {
        0
    } else {
        let x = (2 * (v - lo) * 255 + (hi - lo)) / (2 * (hi - lo) as int);
        if x > 255 {
            255
        } else {
            x as u8
        }
    }
}

/// `p` with red, green and blue stretched from `lo..=hi` to `0..=255`; alpha kept.
pub open spec fn stretch_pixel(p: Pixel, lo: u8, hi: u8) -> Pixel {
    Pixel {
        r: stretch_channel(p.r, lo, hi),
        g: stretch_channel(p.g, lo, hi),
        b: stretch_channel(p.b, lo, hi),
        a: p.a,
    }
}

fn stretch_channel_exec(v: u8, lo: u8, hi: u8) -> (r: u8)
    requires
        lo < hi,
    ensures
        r == stretch_channel(v, lo, hi),
{
    if v <= lo {
        0
    } else {
        let range: u32 = (hi - lo) as u32;
        let x: u32 = (2 * (v - lo) as u32 * 255 + range) / (2 * range);
        if x > 255 {
            255
        } else {
            x as u8
        }
    }
}

/// Contrast stretch: where the red channel spans `lo < hi`, maps every red, green
/// and blue value `v` to `round((v - lo) / (hi - lo) * 255)`; an image whose red
/// channel is constant is left as it was.
pub fn auto_adjust_brightness(img: &mut Image)
    requires
        old(img).wf(),
    ensures
        final(img).wf(),
        final(img).width == old(img).width,
        final(img).height == old(img).height,
        final(img).pixels@.len() == old(img).pixels@.len(),
        red_min(old(img).pixels@) < red_max(old(img).pixels@) ==> forall|i: int|
            0 <= i < final(img).pixels@.len() ==> final(img).pixels@[i] == stretch_pixel(
                old(img).pixels@[i],
                red_min(old(img).pixels@),
                red_max(old(img).pixels@),
            ),
        red_min(old(img).pixels@) >= red_max(old(img).pixels@) ==> final(img).pixels@ == old(
            img,
        ).pixels@,
        red_min(old(img).pixels@) < red_max(old(img).pixels@) ==> red_min(final(img).pixels@) == 0
            && red_max(final(img).pixels@) == 255,
{
    let n: usize = img.pixels.len();
    let mut lo: u8 = 255;
    let mut hi: u8 = 0;
    let mut i: usize = 0;
    while i < n
        invariant
            n == img.pixels@.len(),
            0 <= i <= n,
            lo == red_min(img.pixels@.take(i as int)),
            hi == red_max(img.pixels@.take(i as int)),
        decreases n - i,
    {
        let v = img.pixels[i].r;
        assert(img.pixels@.take(i as int + 1).drop_last() =~= img.pixels@.take(i as int));
        if v < lo {
            lo = v;
        }
        if v > hi {
            hi = v;
        }
        i = i + 1;
    }
    assert(img.pixels@.take(n as int) =~= img.pixels@);
    if lo < hi {
        let mut i: usize = 0;
        while i < n
            invariant
                n == img.pixels@.len(),
                n == old(img).pixels@.len(),
                img.width == old(img).width,
                img.height == old(img).height,
                0 <= i <= n,
                lo < hi,
                lo == red_min(old(img).pixels@),
                hi == red_max(old(img).pixels@),
                forall|j: int|
                    0 <= j < i ==> img.pixels@[j] == stretch_pixel(old(img).pixels@[j], lo, hi),
                forall|j: int| i <= j < n ==> img.pixels@[j] == old(img).pixels@[j],
            decreases n - i,
        {
            let p = img.pixels[i];
            let q = Pixel {
                r: stretch_channel_exec(p.r, lo, hi),
                g: stretch_channel_exec(p.g, lo, hi),
                b: stretch_channel_exec(p.b, lo, hi),
                a: p.a,
            };
            img.pixels.set(i, q);
            i = i + 1;
        }
    }
    proof {
        let s0 = old(img).pixels@;
        if red_min(s0) < red_max(s0) {
            assert(img.pixels@ =~= auto_adjusted(s0));
        }
        lemma_auto_adjust_range(s0);
    }
}

/// `e / 16` rounded toward zero.
pub open spec fn trunc_div16(e: int) -> int {
    if e >= 0 {
        e / 16
    } else {
        -((-e) / 16)
    }
}

/// `v` clamped to `0..=255`.
pub open spec fn clamp_u8(v: int) -> u8 {
    if v < 0 {
        0
    } else if v > 255 {
        255
    } else {
        v as u8
    }
}

/// Adds `e` to the red value of pixel `i` and writes the clamped sum to all four
/// channels.
pub open spec fn spread(s: Seq<Pixel>, i: int, e: int) -> Seq<Pixel> {
    s.update(i, splat_spec(clamp_u8(s[i].r + e)))
}

/// The binarized value of a pixel: 255 above 127, else 0.
pub open spec fn binarize(v: u8) -> u8 {
    if v > 127 {
        255
    } else {
        0
    }
}

/// One Floyd-Steinberg step at `(x, y)` of a `w`-wide image: the pixel's error
/// goes 7/16 to the right, 3/16 below-left (where there is a column to the left),
/// 5/16 below and 1/16 below-right; then the pixel takes its binarized value in
/// all four channels.
pub open spec fn dither_step(s: Seq<Pixel>, w: int, x: int, y: int) -> Seq<Pixel> {
    let v = s[flat_index(x, y, w)].r;
    let err = v - binarize(v);
    let s1 = spread(s, flat_index(x + 1, y, w), trunc_div16(err * 7));
    let s2 = if x > 0 {
        spread(s1, flat_index(x - 1, y + 1, w), trunc_div16(err * 3))
    } else {
        s1
    };
    let s3 = spread(s2, flat_index(x, y + 1, w), trunc_div16(err * 5));
    let s4 = spread(s3, flat_index(x + 1, y + 1, w), trunc_div16(err * 1));
    s4.update(flat_index(x, y, w), splat_spec(binarize(v)))
}

/// The first `n` steps of row `y`.
pub open spec fn dither_row(s: Seq<Pixel>, w: int, y: int, n: int) -> Seq<Pixel>
    decreases n,
{
    if n <= 0 {
        s
    } else {
        dither_step(dither_row(s, w, y, n - 1), w, n - 1, y)
    }
}

/// The steps of the first `m` rows, each row over all but its last column.
pub open spec fn dither_rows(s: Seq<Pixel>, w: int, m: int) -> Seq<Pixel>
    decreases m,
{
    if m <= 0 {
        s
    } else {
        dither_row(dither_rows(s, w, m - 1), w, m - 1, w - 1)
    }
}

/// Floyd-Steinberg error diffusion over a `w` by `h` image, row by row, leaving
/// out the last row and the last column.
pub open spec fn dithered(s: Seq<Pixel>, w: int, h: int) -> Seq<Pixel> {
    if w >= 1 && h >= 1 {
        dither_rows(s, w, h - 1)
    } else {
        s
    }
}

fn clamp_exec(v: i32) -> (r: u8)
    ensures
        r == clamp_u8(v as int),
{
    if v < 0 {
        0
    } else if v > 255 {
        255
    } else {
        v as u8
    }
}

fn spread_at(img: &mut Image, x: u32, y: u32, weighted: i32)
    requires
        old(img).wf(),
        x < old(img).width,
        y < old(img).height,
        -255 * 7 <= weighted <= 255 * 7,
    ensures
        final(img).wf(),
        final(img).width == old(img).width,
        final(img).height == old(img).height,
        final(img).pixels@ == spread(
            old(img).pixels@,
            flat_index(x as int, y as int, old(img).width as int),
            trunc_div16(weighted as int),
        ),
{
    let e: i32 = if weighted >= 0 {
        weighted / 16
    } else {
        -((-weighted) / 16)
    };
    let v = img.get_pixel(x, y).r as i32;
    img.put_pixel(x, y, Pixel::splat(clamp_exec(v + e)));
}

fn dither_at(img: &mut Image, x: u32, y: u32)
    requires
        old(img).wf(),
        x as int + 1 < old(img).width,
        y as int + 1 < old(img).height,
    ensures
        final(img).wf(),
        final(img).width == old(img).width,
        final(img).height == old(img).height,
        final(img).pixels@ == dither_step(
            old(img).pixels@,
            old(img).width as int,
            x as int,
            y as int,
        ),
{
    let v = img.get_pixel(x, y).r;
    let new_v: u8 = if v > 127 {
        255
    } else {
        0
    };
    let err: i32 = v as i32 - new_v as i32;
    spread_at(img, x + 1, y, err * 7);
    if x > 0 {
        spread_at(img, x - 1, y + 1, err * 3);
    }
    spread_at(img, x, y + 1, err * 5);
    spread_at(img, x + 1, y + 1, err);
    img.put_pixel(x, y, Pixel::splat(new_v));
}

/// Floyd-Steinberg dithering in place, with threshold 127 and truncating integer
/// division of the weighted error; every visited pixel and every neighbor that
/// receives error takes one value in all four channels.
pub fn apply_dithering(img: &mut Image)
    requires
        old(img).wf(),
    ensures
        final(img).wf(),
        final(img).width == old(img).width,
        final(img).height == old(img).height,
        final(img).pixels@ == dithered(
            old(img).pixels@,
            old(img).width as int,
            old(img).height as int,
        ),
        (forall|i: int| 0 <= i < old(img).pixels@.len() ==> old(img).pixels@[i] == splat_spec(255))
            ==> final(img).pixels@ == old(img).pixels@,
        (forall|i: int| 0 <= i < old(img).pixels@.len() ==> old(img).pixels@[i] == splat_spec(0))
            ==> final(img).pixels@ == old(img).pixels@,
{
    proof {
        let s0 = old(img).pixels@;
        let w0 = old(img).width as int;
        let h0 = old(img).height as int;
        if forall|i: int| 0 <= i < s0.len() ==> s0[i] == splat_spec(255) {
            lemma_dither_keeps_uniform(s0, w0, h0, 255);
        }
        if forall|i: int| 0 <= i < s0.len() ==> s0[i] == splat_spec(0) {
            lemma_dither_keeps_uniform(s0, w0, h0, 0);
        }
    }
    let w = img.width;
    let h = img.height;
    if w == 0 || h == 0 {
        return;
    }
    let ghost start = img.pixels@;
    let mut y: u32 = 0;
    while y < h - 1
        invariant
            img.wf(),
            img.width == w,
            img.height == h,
            w >= 1,
            h >= 1,
            y <= h - 1,
            img.pixels@ == dither_rows(start, w as int, y as int),
        decreases h - 1 - y,
    {
        let mut x: u32 = 0;
        while x < w - 1
            invariant
                img.wf(),
                img.width == w,
                img.height == h,
                w >= 1,
                y < h - 1,
                x <= w - 1,
                img.pixels@ == dither_row(
                    dither_rows(start, w as int, y as int),
                    w as int,
                    y as int,
                    x as int,
                ),
            decreases w - 1 - x,
        {
            dither_at(img, x, y);
            x = x + 1;
        }
        y = y + 1;
    }
}

/// The luma of the pixel of `img` at `(x, y)`.
pub open spec fn gray_at(img: Image, x: int, y: int) -> int {
    luma(img.at(x, y)) as int
}

/// The Sobel gradient `Gx = [-1 0 1; -2 0 2; -1 0 1]`, whose row index runs along x
/// and whose column index runs along y.
pub open spec fn sobel_x(img: Image, x: int, y: int) -> int {
    -gray_at(img, x - 1, y - 1) + gray_at(img, x - 1, y + 1) - 2 * gray_at(img, x, y - 1) + 2
        * gray_at(img, x, y + 1) - gray_at(img, x + 1, y - 1) + gray_at(img, x + 1, y + 1)
}

/// The Sobel gradient `Gy = [-1 -2 -1; 0 0 0; 1 2 1]`, laid out as `sobel_x`.
pub open spec fn sobel_y(img: Image, x: int, y: int) -> int {
    -gray_at(img, x - 1, y - 1) - 2 * gray_at(img, x - 1, y) - gray_at(img, x - 1, y + 1)
        + gray_at(img, x + 1, y - 1) + 2 * gray_at(img, x + 1, y) + gray_at(img, x + 1, y + 1)
}

/// `gx^2 + gy^2` at `(x, y)`.
pub open spec fn gradient_sq(img: Image, x: int, y: int) -> int {
    sobel_x(img, x, y) * sobel_x(img, x, y) + sobel_y(img, x, y) * sobel_y(img, x, y)
}

/// `k <= s * sqrt(m)`, for `k >= 0`, without roots: `(k * den)^2 <= num^2 * m`.
pub open spec fn within_scaled_root(k: int, m: int, s: Ratio) -> bool {
    k * k * (s.den * s.den) <= (s.num * s.num) * m
}

/// The largest `j` in `k..=255` up to which every step stays within `s * sqrt(m)`.
pub open spec fn level_search(k: int, m: int, s: Ratio) -> int
    decreases 255 - k,
{
    if k >= 255 || !within_scaled_root(k + 1, m, s) {
        k
    } else {
        level_search(k + 1, m, s)
    }
}

/// `min(255, floor(s * sqrt(m)))`: the edge brightness of a squared gradient `m`.
pub open spec fn edge_level(m: int, s: Ratio) -> u8 {
    level_search(0, m, s) as u8
}

/// `(x, y)` is inside `img` and not on its one-pixel border.
pub open spec fn is_interior(img: Image, x: int, y: int) -> bool {
    1 <= x && x + 1 < img.width && 1 <= y && y + 1 < img.height
}

/// The pixel at `(x, y)` of the edge image of `img`: opaque gray at the edge level
/// inside, all zero on the border.
pub open spec fn edge_pixel(img: Image, sigma1: Ratio, x: int, y: int) -> Pixel {
    if is_interior(img, x, y) {
        Pixel {
            r: edge_level(gradient_sq(img, x, y), sigma1),
            g: edge_level(gradient_sq(img, x, y), sigma1),
            b: edge_level(gradient_sq(img, x, y), sigma1),
            a: 255,
        }
    } else {
        Pixel { r: 0, g: 0, b: 0, a: 0 }
    }
}

proof fn lemma_level_search_bounds(k: int, m: int, s: Ratio)
    requires
        0 <= k <= 255,
    ensures
        k <= level_search(k, m, s) <= 255,
    decreases 255 - k,
{
    if k < 255 && within_scaled_root(k + 1, m, s) {
        lemma_level_search_bounds(k + 1, m, s);
    }
}

fn within_scaled_root_exec(k: u32, m: u64, s: Ratio) -> (r: bool)
    requires
        k <= 255,
        m <= 2_080_800,
    ensures
        r == within_scaled_root(k as int, m as int, s),
{
    proof {
        assert(k * s.den <= 255 * 0xffff_ffff) by (nonlinear_arith)
            requires
                k <= 255,
                s.den <= 0xffff_ffff,
        ;
        assert((k * s.den) * (k * s.den) <= (255 * 0xffff_ffff) * (255 * 0xffff_ffff))
            by (nonlinear_arith)
            requires
                0 <= k * s.den <= 255 * 0xffff_ffff,
        ;
        assert(s.num * s.num <= 0xffff_ffff * 0xffff_ffff) by (nonlinear_arith)
            requires
                s.num <= 0xffff_ffff,
        ;
        assert((s.num * s.num) * m <= (0xffff_ffff * 0xffff_ffff) * 2_080_800)
            by (nonlinear_arith)
            requires
                0 <= s.num * s.num <= 0xffff_ffff * 0xffff_ffff,
                0 <= m <= 2_080_800,
        ;
        assert(k * k * (s.den * s.den) == (k * s.den) * (k * s.den)) by (nonlinear_arith);
    }
    let kd: u128 = k as u128 * s.den as u128;
    let nn: u128 = s.num as u128 * s.num as u128;
    kd * kd <= nn * m as u128
}

fn edge_level_exec(m: u64, s: Ratio) -> (r: u8)
    requires
        m <= 2_080_800,
    ensures
        r == edge_level(m as int, s),
{
    let mut k: u32 = 0;
    while k < 255 && within_scaled_root_exec(k + 1, m, s)
        invariant
            k <= 255,
            m <= 2_080_800,
            level_search(k as int, m as int, s) == level_search(0, m as int, s),
        decreases 255 - k,
    {
        k = k + 1;
    }
    proof {
        lemma_level_search_bounds(0, m as int, s);
    }
    k as u8
}

proof fn lemma_gradient_sq_bounds(gx: int, gy: int)
    requires
        -1020 <= gx <= 1020,
        -1020 <= gy <= 1020,
    ensures
        0 <= gx * gx + gy * gy <= 2_080_800,
{
    assert(0 <= gx * gx <= 1020 * 1020) by (nonlinear_arith)
        requires
            -1020 <= gx <= 1020,
    ;
    assert(0 <= gy * gy <= 1020 * 1020) by (nonlinear_arith)
        requires
            -1020 <= gy <= 1020,
    ;
}

proof fn lemma_gray_matches(gray: Image, img: Image, x: int, y: int)
    requires
        img.wf(),
        gray.width == img.width,
        gray.height == img.height,
        forall|i: int| 0 <= i < gray.pixels@.len() ==> gray.pixels@[i] == gray_pixel(img.pixels@[i]),
        gray.pixels@.len() == img.pixels@.len(),
        in_grid(x, y, img.width as int, img.height as int),
    ensures
        gray.at(x, y).r == gray_at(img, x, y),
{
    lemma_flat_index_bounds(x, y, img.width as int, img.height as int);
}

fn gradient_sq_exec(a: u8, b: u8, c: u8, d: u8, f: u8, g: u8, h: u8, k: u8) -> (r: u64)
    ensures
        r <= 2_080_800,
        r == {
            let gx = -(a as int) + c - 2 * d + 2 * f - g + k;
            let gy = -(a as int) - 2 * b - c + g + 2 * h + k;
            gx * gx + gy * gy
        },
{
    let gx: i32 = -(a as i32) + c as i32 - 2 * d as i32 + 2 * f as i32 - g as i32 + k as i32;
    let gy: i32 = -(a as i32) - 2 * b as i32 - c as i32 + g as i32 + 2 * h as i32 + k as i32;
    proof {
        lemma_gradient_sq_bounds(gx as int, gy as int);
        assert(0 <= gx * gx <= 1020 * 1020) by (nonlinear_arith)
            requires
                -1020 <= gx <= 1020,
        ;
    }
    (gx * gx + gy * gy) as u64
}

#[verifier::rlimit(30)]
fn edge_value_at(gray: &Image, img: &Image, sigma1: Ratio, x: u32, y: u32) -> (r: u8)
    requires
        img.wf(),
        gray.wf(),
        gray.width == img.width,
        gray.height == img.height,
        forall|i: int| 0 <= i < gray.pixels@.len() ==> gray.pixels@[i] == gray_pixel(img.pixels@[i]),
        is_interior(*img, x as int, y as int),
    ensures
        r == edge_level(gradient_sq(*img, x as int, y as int), sigma1),
{
    let a: u8 = gray.get_pixel(x - 1, y - 1).r;
    let b: u8 = gray.get_pixel(x - 1, y).r;
    let c: u8 = gray.get_pixel(x - 1, y + 1).r;
    let d: u8 = gray.get_pixel(x, y - 1).r;
    let f: u8 = gray.get_pixel(x, y + 1).r;
    let g: u8 = gray.get_pixel(x + 1, y - 1).r;
    let h: u8 = gray.get_pixel(x + 1, y).r;
    let k: u8 = gray.get_pixel(x + 1, y + 1).r;
    proof {
        let xi = x as int;
        let yi = y as int;
        lemma_gray_matches(*gray, *img, xi - 1, yi - 1);
        lemma_gray_matches(*gray, *img, xi - 1, yi);
        lemma_gray_matches(*gray, *img, xi - 1, yi + 1);
        lemma_gray_matches(*gray, *img, xi, yi - 1);
        lemma_gray_matches(*gray, *img, xi, yi + 1);
        lemma_gray_matches(*gray, *img, xi + 1, yi - 1);
        lemma_gray_matches(*gray, *img, xi + 1, yi);
        lemma_gray_matches(*gray, *img, xi + 1, yi + 1);
    }
    let m = gradient_sq_exec(a, b, c, d, f, g, h, k);
    edge_level_exec(m, sigma1)
}

/// Sobel edge image of `img`: every interior pixel is opaque gray at
/// `min(255, floor(sigma1 * sqrt(gx^2 + gy^2)))` over the luma of `img`; border
/// pixels are all zero. `_sigma2` has no effect.
pub fn detect_edges(img: &Image, sigma1: Ratio, _sigma2: Ratio) -> (r: Image)
    requires
        img.wf(),
    ensures
        r.wf(),
        r.width == img.width,
        r.height == img.height,
        forall|x: int, y: int|
            in_grid(x, y, img.width as int, img.height as int) ==> #[trigger] r.at(x, y)
                == edge_pixel(*img, sigma1, x, y),
{
    let gray = to_grayscale(img);
    let w = img.width;
    let h = img.height;
    let n: usize = img.pixels.len();
    let mut out: Vec<Pixel> = Vec::with_capacity(n);
    let mut y: u32 = 0;
    while y < h
        invariant
            gray.wf(),
            img.wf(),
            gray.width == w,
            gray.height == h,
            w == img.width,
            h == img.height,
            n == img.pixels@.len(),
            forall|i: int|
                0 <= i < gray.pixels@.len() ==> gray.pixels@[i] == gray_pixel(img.pixels@[i]),
            y <= h,
            out@.len() == y * w,
            forall|i: int|
                0 <= i < out@.len() ==> out@[i] == edge_pixel(*img, sigma1, i % (w as int), i / (w as int)),
        decreases h - y,
    {
        let mut x: u32 = 0;
        while x < w
            invariant
                gray.wf(),
                img.wf(),
                gray.width == w,
                gray.height == h,
                w == img.width,
                h == img.height,
                n == img.pixels@.len(),
                forall|i: int|
                    0 <= i < gray.pixels@.len() ==> gray.pixels@[i] == gray_pixel(img.pixels@[i]),
                y < h,
                x <= w,
                out@.len() == y * w + x,
                forall|i: int|
                    0 <= i < out@.len() ==> out@[i] == edge_pixel(*img, sigma1, i % (w as int), i / (w as int)),
            decreases w - x,
        {
            proof {
                lemma_flat_index_bounds(x as int, y as int, w as int, h as int);
                lemma_flat_index_div_mod(x as int, y as int, w as int);
            }
            let p = if 1 <= x && x + 1 < w && 1 <= y && y + 1 < h {
                Pixel::opaque_gray(edge_value_at(&gray, img, sigma1, x, y))
            } else {
                Pixel { r: 0, g: 0, b: 0, a: 0 }
            };
            out.push(p);
            x = x + 1;
        }
        proof {
            assert(y * w + w == (y + 1) * w) by (nonlinear_arith);
        }
        y = y + 1;
    }
    proof {
        assert(out@.len() == w as int * h as int) by (nonlinear_arith)
            requires
                out@.len() == y * w,
                y == h,
        ;
    }
    let r = Image { width: w, height: h, pixels: out };
    proof {
        assert forall|x: int, y: int|
            in_grid(x, y, w as int, h as int) implies #[trigger] r.at(x, y) == edge_pixel(*img, sigma1, x, y) by {
            lemma_flat_index_bounds(x, y, w as int, h as int);
            lemma_flat_index_div_mod(x, y, w as int);
        }
    }
    r
}

} // verus!
