use vstd::prelude::*;
use vstd::arithmetic::div_mod::lemma_fundamental_div_mod_converse;
use crate::filters::{
    dither_row, dither_rows, dither_step, dithered, edge_pixel, gradient_sq, gray_at, is_interior,
    level_search, red_max, red_min, sobel_x, sobel_y, spread, stretch_channel, within_scaled_root,
};
use crate::palette::{is_ramp_palette, lemma_palette_names_distinct, ramp_colors, ramp_index, resolve_color};
use crate::raster::{flat_index, in_grid, lemma_flat_index_bounds, lemma_same_pixels, splat_spec, Image, Pixel, Ratio};
use crate::render::{
    auto_adjusted, block_extent, fill_for, rect_sum, renders_as, rendered_pixel, row_sum, scaled, AsciiSettings,
    RenderError,
};

verus! {

/// On an image of constant luma the Sobel gradient vanishes at every interior
/// pixel, and the edge image is opaque black there.
pub proof fn lemma_flat_image_has_no_edges(img: Image, sigma1: Ratio, level: int)
    requires
        img.wf(),
        sigma1.wf(),
        forall|x: int, y: int| in_grid(x, y, img.width as int, img.height as int) ==> gray_at(img, x, y) == level,
    ensures
        forall|x: int, y: int|
            is_interior(img, x, y) ==> gradient_sq(img, x, y) == 0 && #[trigger] edge_pixel(img, sigma1, x, y)
                == (Pixel { r: 0, g: 0, b: 0, a: 255 }),
{
    assert(sigma1.den * sigma1.den > 0) by (nonlinear_arith)
        requires
            sigma1.den > 0,
    ;
    assert((sigma1.num * sigma1.num) * 0 == 0) by (nonlinear_arith);
    assert(1 * 1 * (sigma1.den * sigma1.den) == sigma1.den * sigma1.den) by (nonlinear_arith);
    assert(!within_scaled_root(1, 0, sigma1));
    assert(level_search(0, 0, sigma1) == 0);
    assert forall|x: int, y: int| is_interior(img, x, y) implies gradient_sq(img, x, y) == 0
        && #[trigger] edge_pixel(img, sigma1, x, y) == (Pixel { r: 0, g: 0, b: 0, a: 255 }) by {
        assert(in_grid(x - 1, y - 1, img.width as int, img.height as int));
        assert(in_grid(x - 1, y, img.width as int, img.height as int));
        assert(in_grid(x - 1, y + 1, img.width as int, img.height as int));
        assert(in_grid(x, y - 1, img.width as int, img.height as int));
        assert(in_grid(x, y + 1, img.width as int, img.height as int));
        assert(in_grid(x + 1, y - 1, img.width as int, img.height as int));
        assert(in_grid(x + 1, y, img.width as int, img.height as int));
        assert(in_grid(x + 1, y + 1, img.width as int, img.height as int));
        assert(sobel_x(img, x, y) == 0);
        assert(sobel_y(img, x, y) == 0);
    }
}

proof fn lemma_dither_step_uniform(s: Seq<Pixel>, w: int, h: int, x: int, y: int, v: u8)
    requires
        v == 0 || v == 255,
        s.len() == w * h,
        0 <= x,
        x + 1 < w,
        0 <= y,
        y + 1 < h,
        forall|i: int| 0 <= i < s.len() ==> s[i] == splat_spec(v),
    ensures
        dither_step(s, w, x, y) == s,
{
    lemma_flat_index_bounds(x, y, w, h);
    lemma_flat_index_bounds(x + 1, y, w, h);
    lemma_flat_index_bounds(x, y + 1, w, h);
    lemma_flat_index_bounds(x + 1, y + 1, w, h);
    if x > 0 {
        lemma_flat_index_bounds(x - 1, y + 1, w, h);
    }
    let i0 = flat_index(x, y, w);
    let s1 = spread(s, flat_index(x + 1, y, w), 0);
    assert(s1 =~= s);
    assert(s.update(i0, splat_spec(v)) =~= s);
}

proof fn lemma_dither_row_uniform(s: Seq<Pixel>, w: int, h: int, y: int, n: int, v: u8)
    requires
        v == 0 || v == 255,
        s.len() == w * h,
        0 <= n <= w - 1,
        0 <= y,
        y + 1 < h,
        forall|i: int| 0 <= i < s.len() ==> s[i] == splat_spec(v),
    ensures
        dither_row(s, w, y, n) == s,
    decreases n,
{
    if n > 0 {
        lemma_dither_row_uniform(s, w, h, y, n - 1, v);
        lemma_dither_step_uniform(s, w, h, n - 1, y, v);
    }
}

proof fn lemma_dither_rows_uniform(s: Seq<Pixel>, w: int, h: int, m: int, v: u8)
    requires
        v == 0 || v == 255,
        s.len() == w * h,
        w >= 1,
        0 <= m <= h - 1,
        forall|i: int| 0 <= i < s.len() ==> s[i] == splat_spec(v),
    ensures
        dither_rows(s, w, m) == s,
    decreases m,
{
    if m > 0 {
        lemma_dither_rows_uniform(s, w, h, m - 1, v);
        lemma_dither_row_uniform(s, w, h, m - 1, w - 1, v);
    }
}

/// Dithering leaves an all-white image and an all-black image as they are.
pub proof fn lemma_dither_keeps_uniform(s: Seq<Pixel>, w: int, h: int, v: u8)
    requires
        v == 0 || v == 255,
        w >= 0,
        h >= 0,
        s.len() == w * h,
        forall|i: int| 0 <= i < s.len() ==> s[i] == splat_spec(v),
    ensures
        dithered(s, w, h) == s,
{
    if w >= 1 && h >= 1 {
        lemma_dither_rows_uniform(s, w, h, h - 1, v);
    }
}

/// A gain of one changes nothing; a gain of zero turns red, green and blue to 0.
pub proof fn lemma_gain_one_and_zero(src: Seq<Pixel>, den: u32)
    requires
        den > 0,
    ensures
        scaled(src, Ratio { num: 1, den: 1 }) == src,
        forall|i: int|
            0 <= i < src.len() ==> {
                let p = #[trigger] scaled(src, Ratio { num: 0, den: den })[i];
                p.r == 0 && p.g == 0 && p.b == 0 && p.a == src[i].a
            },
{
    assert(scaled(src, Ratio { num: 1, den: 1 }) =~= src);
}

proof fn lemma_red_min_le(s: Seq<Pixel>, i: int)
    requires
        0 <= i < s.len(),
    ensures
        red_min(s) <= s[i].r,
    decreases s.len(),
{
    if i < s.len() - 1 {
        lemma_red_min_le(s.drop_last(), i);
        assert(s.drop_last()[i] == s[i]);
    }
}

proof fn lemma_red_max_ge(s: Seq<Pixel>, i: int)
    requires
        0 <= i < s.len(),
    ensures
        red_max(s) >= s[i].r,
    decreases s.len(),
{
    if i < s.len() - 1 {
        lemma_red_max_ge(s.drop_last(), i);
        assert(s.drop_last()[i] == s[i]);
    }
}

proof fn lemma_red_min_witness(s: Seq<Pixel>) -> (i: int)
    requires
        s.len() > 0,
    ensures
        0 <= i < s.len(),
        s[i].r == red_min(s),
    decreases s.len(),
{
    if s.len() == 1 {
        assert(red_min(s.drop_last()) == 255);
        0
    } else {
        let j = lemma_red_min_witness(s.drop_last());
        assert(s.drop_last()[j] == s[j]);
        if s.last().r < red_min(s.drop_last()) {
            s.len() - 1
        } else {
            j
        }
    }
}

proof fn lemma_red_max_witness(s: Seq<Pixel>) -> (i: int)
    requires
        s.len() > 0,
    ensures
        0 <= i < s.len(),
        s[i].r == red_max(s),
    decreases s.len(),
{
    if s.len() == 1 {
        assert(red_max(s.drop_last()) == 0);
        0
    } else {
        let j = lemma_red_max_witness(s.drop_last());
        assert(s.drop_last()[j] == s[j]);
        if s.last().r > red_max(s.drop_last()) {
            s.len() - 1
        } else {
            j
        }
    }
}

/// After the contrast stretch the red channel spans exactly `0..=255`, unless it
/// was constant, in which case nothing changes.
pub proof fn lemma_auto_adjust_range(src: Seq<Pixel>)
    ensures
        red_min(src) < red_max(src) ==> red_min(auto_adjusted(src)) == 0 && red_max(auto_adjusted(src)) == 255,
        red_min(src) >= red_max(src) ==> auto_adjusted(src) == src,
{
    let lo = red_min(src);
    let hi = red_max(src);
    if lo < hi {
        assert(src.len() > 0);
        let d = hi - lo;
        lemma_fundamental_div_mod_converse(2 * d * 255 + d, 2 * d, 255, d);
        assert(stretch_channel(hi, lo, hi) == 255);
        let out = auto_adjusted(src);
        let i_lo = lemma_red_min_witness(src);
        let i_hi = lemma_red_max_witness(src);
        assert(out[i_lo].r == 0);
        assert(out[i_hi].r == 255);
        lemma_red_min_le(out, i_lo);
        lemma_red_max_ge(out, i_hi);
    }
}

/// The pass-through palette returns the sampled color; a ramp palette gives its
/// first color at brightness 0 and its last at brightness 255.
pub proof fn lemma_palette_ends(b: u8, name: Seq<char>, c: [u8; 3])
    ensures
        resolve_color(b, "original"@, c) == c,
        is_ramp_palette(name) ==> resolve_color(0, name, c) == ramp_colors(name)[0],
        is_ramp_palette(name) ==> resolve_color(255, name, c) == ramp_colors(name).last(),
{
    lemma_palette_names_distinct();
    if is_ramp_palette(name) {
        let n = ramp_colors(name).len() as int;
        lemma_fundamental_div_mod_converse(510 * (n - 1) + 255, 510, n - 1, 255);
        assert(ramp_index(255, n) == n - 1);
        assert(0 * (n - 1) == 0);
        assert(ramp_index(0, n) == 0);
    }
}

/// With one-pixel blocks every output pixel is the fill for that pixel's own
/// brightness and color.
pub proof fn lemma_unit_blocks(src: Seq<Pixel>, w: int, h: int, s: AsciiSettings, x: int, y: int)
    requires
        s.block_size == 1,
        src.len() == w * h,
        in_grid(x, y, w, h),
    ensures
        0 <= flat_index(x, y, w) < src.len(),
        rendered_pixel(src, w, h, s, x, y) == {
            let p = src[flat_index(x, y, w)];
            fill_for(s, p.r, [p.r, p.g, p.b])
        },
{
    lemma_flat_index_bounds(x, y, w, h);
    let p = src[flat_index(x, y, w)];
    assert(row_sum(src, w, 0, x, y, 0) == 0);
    assert(row_sum(src, w, 1, x, y, 0) == 0);
    assert(row_sum(src, w, 2, x, y, 0) == 0);
    assert(rect_sum(src, w, 0, x, y, 1, 0) == 0);
    assert(rect_sum(src, w, 1, x, y, 1, 0) == 0);
    assert(rect_sum(src, w, 2, x, y, 1, 0) == 0);
    assert(row_sum(src, w, 0, x, y, 1) == p.r);
    assert(row_sum(src, w, 1, x, y, 1) == p.g);
    assert(row_sum(src, w, 2, x, y, 1) == p.b);
    assert(rect_sum(src, w, 0, x, y, 1, 1) == p.r);
    assert(rect_sum(src, w, 1, x, y, 1, 1) == p.g);
    assert(rect_sum(src, w, 2, x, y, 1, 1) == p.b);
    assert(x / 1 * 1 == x);
    assert(y / 1 * 1 == y);
    assert(block_extent(1, x, w) == 1);
    assert(block_extent(1, y, h) == 1);
    assert((rect_sum(src, w, 0, x, y, 1, 1) / (1int * 1int)) as u8 == p.r);
    assert((rect_sum(src, w, 1, x, y, 1, 1) / (1int * 1int)) as u8 == p.g);
    assert((rect_sum(src, w, 2, x, y, 1, 1) / (1int * 1int)) as u8 == p.b);
}

/// Rendering is a function of the image and the settings: two renders of the
/// same input agree, success and every pixel alike.
pub proof fn lemma_render_repeatable(
    src: Seq<Pixel>,
    w: u32,
    h: u32,
    s: AsciiSettings,
    first: Result<Image, RenderError>,
    second: Result<Image, RenderError>,
)
    requires
        renders_as(first, src, w, h, s),
        renders_as(second, src, w, h, s),
    ensures
        first is Ok <==> second is Ok,
        first is Err ==> first == second,
        first matches Ok(a) ==> second matches Ok(b) && a.same_as(&b),
{
    if first is Ok && second is Ok {
        let a = first->Ok_0;
        let b = second->Ok_0;
        assert forall|x: int, y: int| in_grid(x, y, a.width as int, a.height as int) implies #[trigger] a.at(x, y) == b.at(x, y) by {
            assert(a.at(x, y) == rendered_pixel(src, w as int, h as int, s, x, y));
            assert(b.at(x, y) == rendered_pixel(src, w as int, h as int, s, x, y));
        }
        lemma_same_pixels(a, b);
    }
}

} // verus!
