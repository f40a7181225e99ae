use vstd::prelude::*;
use vstd::arithmetic::div_mod::{
    lemma_fundamental_div_mod, lemma_fundamental_div_mod_converse, lemma_mod_pos_bound,
};
use crate::filters::{
    adjust_brightness, apply_dithering, auto_adjust_brightness, detect_edges, dithered, edge_pixel,
    gray_pixel, red_max, red_min, scale_pixel, stretch_pixel, to_grayscale,
};
use crate::palette::{get_color_for_brightness, ramp_index, resolve_color};
use crate::raster::{flat_index, in_grid, lemma_flat_index_bounds, lemma_flat_index_div_mod, Image, Pixel, Ratio};
use crate::text::chars_of;

verus! {

/// Index of the character chosen for brightness `b` in a ramp of `n` characters:
/// `round(b / 255 * (n - 1))` when inverted, `round((255 - b) / 255 * (n - 1))` otherwise.
pub open spec fn char_index(b: u8, n: int, invert: bool) -> int {
    if invert {
        ramp_index(b, n)
    } else {
        ramp_index((255 - b) as u8, n)
    }
}

/// The character of `chars` that stands for brightness `b`.
pub open spec fn ascii_char_for(b: u8, chars: Seq<char>, invert: bool) -> char {
    chars[char_index(b, chars.len() as int, invert)]
}

proof fn lemma_char_index_bounds(b: u8, n: int, invert: bool)
    requires
        n >= 1,
    ensures
        0 <= char_index(b, n, invert) < n,
{
    let c = if invert { b } else { (255 - b) as u8 };
    assert(0 <= 2 * c * (n - 1)) by (nonlinear_arith)
        requires
            n >= 1,
            c >= 0,
    ;
    assert(2 * c * (n - 1) <= 510 * (n - 1)) by (nonlinear_arith)
        requires
            n >= 1,
            c <= 255,
    ;
}

fn char_index_exec(b: u8, n: usize, invert: bool) -> (r: usize)
    requires
        n >= 1,
    ensures
        r == char_index(b, n as int, invert),
        r < n,
{
    proof {
        lemma_char_index_bounds(b, n as int, invert);
    }
    let c: u8 = if invert {
        b
    } else {
        255 - b
    };
    let n1: u128 = n as u128 - 1;
    ((2 * c as u128 * n1 + 255) / 510) as usize
}

/// The character of `chars` that stands for brightness `brightness`.
pub fn get_ascii_char(brightness: u8, chars: &str, invert: bool) -> (r: char)
    requires
        chars@.len() > 0,
    ensures
        r == ascii_char_for(brightness, chars@, invert),
{
    let cs = chars_of(chars);
    let i = char_index_exec(brightness, cs.len(), invert);
    cs[i]
}

/// What makes a render call impossible.
#[derive(Clone, Copy, Debug, PartialEq, Eq, Structural)]
pub enum RenderError {
    /// The block size is zero.
    BlockSizeZero,
    /// The character ramp holds no character.
    EmptyCharset,
}

/// The settings of one rendering run.
#[derive(Clone, Debug)]
pub struct AsciiSettings {
    /// Pixels per side of one character cell.
    pub block_size: u32,
    /// Gain applied to red, green and blue after the contrast stretch.
    pub brightness: Ratio,
    pub auto_adjust: bool,
    pub color: bool,
    pub invert: bool,
    pub edge_detection: bool,
    /// Multiplier of the gradient magnitude in the edge path.
    pub sigma1: Ratio,
    /// Accepted and without effect.
    pub sigma2: Ratio,
    pub ascii_chars: String,
    pub dithering: bool,
    pub palette: String,
    pub color_palette: Vec<String>,
    pub foreground: String,
    pub background: String,
}

impl AsciiSettings {
    /// Both scale factors have a nonzero denominator.
    pub open spec fn wf(&self) -> bool {
        self.brightness.wf() && self.sigma1.wf()
    }

    /// The settings admit a render: a nonzero block size and a nonempty ramp.
    pub open spec fn renderable(&self) -> bool {
        self.block_size > 0 && self.ascii_chars@.len() > 0
    }

    /// The error a render call with these settings reports.
    pub open spec fn config_error(&self) -> RenderError {
        if self.block_size == 0 {
            RenderError::BlockSizeZero
        } else {
            RenderError::EmptyCharset
        }
    }
}

impl Default for AsciiSettings {
    fn default() -> (r: AsciiSettings)
        ensures
            r.block_size == 8,
            r.brightness == (Ratio { num: 1, den: 1 }),
            r.auto_adjust,
            r.color,
            !r.invert,
            !r.edge_detection,
            r.sigma1 == (Ratio { num: 2, den: 1 }),
            r.sigma2 == (Ratio { num: 2, den: 1 }),
            r.ascii_chars@ == " .:-=+*#%@"@,
            !r.dithering,
            r.palette@ == "original"@,
            r.color_palette@.len() == 1,
            r.color_palette@[0]@ == "#ffffff"@,
            r.foreground@ == "#000000"@,
            r.background@ == "#ffffff"@,
    {
        AsciiSettings {
            block_size: 8,
            brightness: Ratio { num: 1, den: 1 },
            auto_adjust: true,
            color: true,
            invert: false,
            edge_detection: false,
            sigma1: Ratio { num: 2, den: 1 },
            sigma2: Ratio { num: 2, den: 1 },
            ascii_chars: " .:-=+*#%@".to_owned(),
            dithering: false,
            palette: "original".to_owned(),
            color_palette: vec!["#ffffff".to_owned()],
            foreground: "#000000".to_owned(),
            background: "#ffffff".to_owned(),
        }
    }
}

/// Channel `c` of `p`: 0 red, 1 green, 2 blue.
pub open spec fn channel(p: Pixel, c: int) -> u8 {
    if c == 0 {
        p.r
    } else if c == 1 {
        p.g
    } else {
        p.b
    }
}

/// Sum of channel `c` over the `n` pixels of row `y` from column `x0` on, in a
/// `w`-wide pixel sequence.
pub open spec fn row_sum(src: Seq<Pixel>, w: int, c: int, x0: int, y: int, n: int) -> int
    decreases n,
{
    if n <= 0 {
        0
    } else {
        row_sum(src, w, c, x0, y, n - 1) + channel(src[flat_index(x0 + n - 1, y, w)], c)
    }
}

/// Sum of channel `c` over the `nx` by `m` rectangle at `(x0, y0)`.
pub open spec fn rect_sum(src: Seq<Pixel>, w: int, c: int, x0: int, y0: int, nx: int, m: int) -> int
    decreases m,
{
    if m <= 0 {
        0
    } else {
        rect_sum(src, w, c, x0, y0, nx, m - 1) + row_sum(src, w, c, x0, y0 + m - 1, nx)
    }
}

pub open spec fn min_int(a: int, b: int) -> int {
    if a < b {
        a
    } else {
        b
    }
}

/// Width of the block at column `x0`: the block size, cut at the image's edge.
pub open spec fn block_extent(bs: int, x0: int, w: int) -> int {
    min_int(bs, w - x0)
}

/// The fill of a block of average brightness `b` and average color `avg`.
pub open spec fn fill_for(s: AsciiSettings, b: u8, avg: [u8; 3]) -> Pixel {
    if s.color {
        let c = resolve_color(b, s.palette@, avg);
        Pixel { r: c[0], g: c[1], b: c[2], a: 255 }
    } else if ascii_char_for(b, s.ascii_chars@, s.invert) == ' ' {
        Pixel { r: 255, g: 255, b: 255, a: 255 }
    } else {
        Pixel { r: 0, g: 0, b: 0, a: 255 }
    }
}

/// The fill of the block whose top-left pixel is `(x0, y0)` in the `w` by `h`
/// pixel sequence `src`: the averages are taken over the block's pixels inside
/// the image, with truncating division.
pub open spec fn block_fill(src: Seq<Pixel>, w: int, h: int, s: AsciiSettings, x0: int, y0: int) -> Pixel {
    let nx = block_extent(s.block_size as int, x0, w);
    let ny = block_extent(s.block_size as int, y0, h);
    let count = nx * ny;
    let avg = [
        (rect_sum(src, w, 0, x0, y0, nx, ny) / count) as u8,
        (rect_sum(src, w, 1, x0, y0, nx, ny) / count) as u8,
        (rect_sum(src, w, 2, x0, y0, nx, ny) / count) as u8,
    ];
    fill_for(s, avg[0], avg)
}

/// The output pixel at `(x, y)`: the fill of the block that holds it.
pub open spec fn rendered_pixel(src: Seq<Pixel>, w: int, h: int, s: AsciiSettings, x: int, y: int) -> Pixel {
    let bs = s.block_size as int;
    block_fill(src, w, h, s, (x / bs) * bs, (y / bs) * bs)
}

proof fn lemma_row_sum_bounds(src: Seq<Pixel>, w: int, c: int, x0: int, y: int, n: int)
    requires
        n >= 0,
    ensures
        0 <= row_sum(src, w, c, x0, y, n) <= 255 * n,
    decreases n,
{
    if n > 0 {
        lemma_row_sum_bounds(src, w, c, x0, y, n - 1);
    }
}

proof fn lemma_rect_sum_bounds(src: Seq<Pixel>, w: int, c: int, x0: int, y0: int, nx: int, m: int)
    requires
        nx >= 0,
        m >= 0,
    ensures
        0 <= rect_sum(src, w, c, x0, y0, nx, m) <= 255 * nx * m,
    decreases m,
{
    if m > 0 {
        lemma_rect_sum_bounds(src, w, c, x0, y0, nx, m - 1);
        lemma_row_sum_bounds(src, w, c, x0, y0 + m - 1, nx);
        assert(255 * nx * (m - 1) + 255 * nx == 255 * nx * m) by (nonlinear_arith);
    }
}

fn channel_exec(p: Pixel, c: usize) -> (r: u8)
    ensures
        r == channel(p, c as int),
{
    if c == 0 {
        p.r
    } else if c == 1 {
        p.g
    } else {
        p.b
    }
}

/// Sum of channel `c` over the `nx` by `ny` rectangle at `(x0, y0)` of `img`.
fn block_sum(img: &Image, c: usize, x0: u32, y0: u32, nx: u32, ny: u32) -> (r: u128)
    requires
        img.wf(),
        x0 as int + nx <= img.width,
        y0 as int + ny <= img.height,
    ensures
        r == rect_sum(img.pixels@, img.width as int, c as int, x0 as int, y0 as int, nx as int, ny as int),
        r <= 255 * nx * ny,
{
    let mut total: u128 = 0;
    let mut j: u32 = 0;
    while j < ny
        invariant
            img.wf(),
            x0 as int + nx <= img.width,
            y0 as int + ny <= img.height,
            j <= ny,
            total == rect_sum(img.pixels@, img.width as int, c as int, x0 as int, y0 as int, nx as int, j as int),
        decreases ny - j,
    {
        proof {
            lemma_rect_sum_bounds(img.pixels@, img.width as int, c as int, x0 as int, y0 as int, nx as int, j as int);
            lemma_rect_sum_bounds(img.pixels@, img.width as int, c as int, x0 as int, y0 as int, nx as int, j as int + 1);
            assert(255 * nx * (j + 1) <= 255 * 0xffff_ffff * 0xffff_ffff) by (nonlinear_arith)
                requires
                    nx <= 0xffff_ffff,
                    j + 1 <= 0xffff_ffff,
            ;
        }
        let mut row: u128 = 0;
        let mut i: u32 = 0;
        while i < nx
            invariant
                img.wf(),
                x0 as int + nx <= img.width,
                y0 as int + ny <= img.height,
                j < ny,
                i <= nx,
                row == row_sum(img.pixels@, img.width as int, c as int, x0 as int, (y0 + j) as int, i as int),
            decreases nx - i,
        {
            proof {
                lemma_row_sum_bounds(img.pixels@, img.width as int, c as int, x0 as int, (y0 + j) as int, i as int);
            }
            let p = img.get_pixel(x0 + i, y0 + j);
            row = row + channel_exec(p, c) as u128;
            i = i + 1;
        }
        total = total + row;
        j = j + 1;
    }
    proof {
        lemma_rect_sum_bounds(img.pixels@, img.width as int, c as int, x0 as int, y0 as int, nx as int, ny as int);
    }
    total
}

proof fn lemma_average_bound(sum: int, count: int)
    requires
        count >= 1,
        0 <= sum <= 255 * count,
    ensures
        0 <= sum / count <= 255,
{
    assert(sum / count <= 255) by (nonlinear_arith)
        requires
            count >= 1,
            0 <= sum <= 255 * count,
    ;
    assert(sum / count >= 0) by (nonlinear_arith)
        requires
            count >= 1,
            0 <= sum,
    ;
}

proof fn lemma_block_of(v: int, bs: int, q: int)
    requires
        bs > 0,
        q * bs <= v < q * bs + bs,
    ensures
        v / bs == q,
{
    lemma_fundamental_div_mod_converse(v, bs, q, v - q * bs);
}

proof fn lemma_div_below(x: int, bs: int, k: int)
    requires
        bs > 0,
        0 <= x < k * bs,
    ensures
        0 <= x / bs < k,
{
    lemma_fundamental_div_mod(x, bs);
    assert(0 <= x / bs < k) by (nonlinear_arith)
        requires
            bs > 0,
            0 <= x < k * bs,
            x == bs * (x / bs) + (x % bs),
            0 <= x % bs < bs,
    ;
}

/// The grayscale of every pixel of `src`.
pub open spec fn gray_seq(src: Seq<Pixel>) -> Seq<Pixel> {
    Seq::new(src.len(), |i: int| gray_pixel(src[i]))
}

/// The contrast stretch of `src` over the range of its red channel; `src` itself
/// where that channel is constant.
pub open spec fn auto_adjusted(src: Seq<Pixel>) -> Seq<Pixel> {
    if red_min(src) < red_max(src) {
        Seq::new(src.len(), |i: int| stretch_pixel(src[i], red_min(src), red_max(src)))
    } else {
        src
    }
}

/// Every pixel of `src` with its gain applied.
pub open spec fn scaled(src: Seq<Pixel>, gain: Ratio) -> Seq<Pixel> {
    Seq::new(src.len(), |i: int| scale_pixel(src[i], gain))
}

/// The image the normal path hands to the block renderer: grayscale, then the
/// contrast stretch if enabled, then the gain, then dithering if enabled.
pub open spec fn normal_stage(src: Seq<Pixel>, w: int, h: int, s: AsciiSettings) -> Seq<Pixel> {
    let g = gray_seq(src);
    let a = if s.auto_adjust {
        auto_adjusted(g)
    } else {
        g
    };
    let b = scaled(a, s.brightness);
    if s.dithering {
        dithered(b, w, h)
    } else {
        b
    }
}

/// The image the edge path hands to the block renderer.
pub open spec fn edge_stage(img: Image, s: AsciiSettings) -> Seq<Pixel> {
    let w = img.width as int;
    Seq::new((w * img.height) as nat, |i: int| edge_pixel(img, s.sigma1, i % w, i / w))
}

/// The image that the settings `s` make of `img`: the edge path where edge
/// detection is on, else the normal path.
pub open spec fn stage(img: Image, s: AsciiSettings) -> Seq<Pixel> {
    if s.edge_detection {
        edge_stage(img, s)
    } else {
        normal_stage(img.pixels@, img.width as int, img.height as int, s)
    }
}

/// `out` is the block rendering of the `w` by `h` pixel sequence `src` under `s`,
/// or the configuration error of `s`.
pub open spec fn renders_as(r: Result<Image, RenderError>, src: Seq<Pixel>, w: u32, h: u32, s: AsciiSettings) -> bool {
    match r {
        Ok(out) => {
            &&& s.renderable()
            &&& out.wf()
            &&& out.width == w
            &&& out.height == h
            &&& forall|x: int, y: int|
                in_grid(x, y, w as int, h as int) ==> #[trigger] out.at(x, y) == rendered_pixel(
                    src,
                    w as int,
                    h as int,
                    s,
                    x,
                    y,
                )
        },
        Err(e) => !s.renderable() && e == s.config_error(),
    }
}

/// The renderer: settings fixed at construction, images passed through.
pub struct ImageProcessor {
    pub settings: AsciiSettings,
}

impl ImageProcessor {
    pub fn new(settings: AsciiSettings) -> (r: ImageProcessor)
        ensures
            r.settings == settings,
    {
        ImageProcessor { settings }
    }

    /// The fill of the block at `(x0, y0)` of `img`.
    fn fill_block(&self, img: &Image, chars: &Vec<char>, x0: u32, y0: u32) -> (r: Pixel)
        requires
            img.wf(),
            self.settings.renderable(),
            chars@ == self.settings.ascii_chars@,
            x0 < img.width,
            y0 < img.height,
        ensures
            r == block_fill(img.pixels@, img.width as int, img.height as int, self.settings, x0 as int, y0 as int),
    {
        let bs = self.settings.block_size;
        let nx: u32 = if bs < img.width - x0 { bs } else { img.width - x0 };
        let ny: u32 = if bs < img.height - y0 { bs } else { img.height - y0 };
        proof {
            assert(1 <= nx * ny <= 0xffff_ffff * 0xffff_ffff) by (nonlinear_arith)
                requires
                    1 <= nx <= 0xffff_ffff,
                    1 <= ny <= 0xffff_ffff,
            ;
        }
        let count: u128 = nx as u128 * ny as u128;
        let sr = block_sum(img, 0, x0, y0, nx, ny);
        let sg = block_sum(img, 1, x0, y0, nx, ny);
        let sb = block_sum(img, 2, x0, y0, nx, ny);
        proof {
            assert(count == nx * ny);
            assert(255 * nx * ny == 255 * (nx * ny)) by (nonlinear_arith);
            lemma_average_bound(sr as int, count as int);
            lemma_average_bound(sg as int, count as int);
            lemma_average_bound(sb as int, count as int);
        }
        let avg: [u8; 3] = [(sr / count) as u8, (sg / count) as u8, (sb / count) as u8];
        if self.settings.color {
            let c = get_color_for_brightness(avg[0], self.settings.palette.as_str(), avg);
            Pixel { r: c[0], g: c[1], b: c[2], a: 255 }
        } else {
            let i = char_index_exec(avg[0], chars.len(), self.settings.invert);
            if chars[i] == ' ' {
                Pixel::opaque_gray(255)
            } else {
                Pixel::opaque_gray(0)
            }
        }
    }

    /// The fills of the blocks whose top row is `y0`, left to right.
    fn block_row_fills(&self, img: &Image, chars: &Vec<char>, y0: u32) -> (r: Vec<Pixel>)
        requires
            img.wf(),
            self.settings.renderable(),
            chars@ == self.settings.ascii_chars@,
            y0 < img.height,
        ensures
            r@.len() * self.settings.block_size >= img.width,
            forall|k: int|
                0 <= k < r@.len() ==> #[trigger] r@[k] == block_fill(
                    img.pixels@,
                    img.width as int,
                    img.height as int,
                    self.settings,
                    k * self.settings.block_size,
                    y0 as int,
                ),
    {
        let bs: u64 = self.settings.block_size as u64;
        let w: u64 = img.width as u64;
        let mut fills: Vec<Pixel> = Vec::new();
        let mut x0: u64 = 0;
        assert(fills@.len() * bs == 0) by (nonlinear_arith)
            requires
                fills@.len() == 0,
        ;
        while x0 < w
            invariant
                img.wf(),
                self.settings.renderable(),
                chars@ == self.settings.ascii_chars@,
                y0 < img.height,
                bs == self.settings.block_size,
                w == img.width,
                x0 == fills@.len() * bs,
                x0 <= w + bs,
                forall|k: int|
                    0 <= k < fills@.len() ==> #[trigger] fills@[k] == block_fill(
                        img.pixels@,
                        img.width as int,
                        img.height as int,
                        self.settings,
                        k * self.settings.block_size,
                        y0 as int,
                    ),
            decreases w + bs - x0,
        {
            let p = self.fill_block(img, chars, x0 as u32, y0);
            fills.push(p);
            proof {
                assert(x0 + bs == fills@.len() * bs) by (nonlinear_arith)
                    requires
                        x0 == (fills@.len() - 1) * bs,
                ;
            }
            x0 = x0 + bs;
        }
        fills
    }

    /// Renders `img` block by block: every pixel takes the fill of its block.
    /// Fails when the block size is zero or the character ramp is empty.
    pub fn create_ascii_art(&self, img: &Image) -> (r: Result<Image, RenderError>)
        requires
            img.wf(),
        ensures
            match r {
                Ok(out) => {
                    &&& self.settings.renderable()
                    &&& out.wf()
                    &&& out.width == img.width
                    &&& out.height == img.height
                    &&& forall|x: int, y: int|
                        in_grid(x, y, img.width as int, img.height as int) ==> #[trigger] out.at(x, y)
                            == rendered_pixel(
                            img.pixels@,
                            img.width as int,
                            img.height as int,
                            self.settings,
                            x,
                            y,
                        )
                },
                Err(e) => !self.settings.renderable() && e == self.settings.config_error(),
            },
    {
        let bs = self.settings.block_size;
        if bs == 0 {
            return Err(RenderError::BlockSizeZero);
        }
        let chars = chars_of(self.settings.ascii_chars.as_str());
        if chars.len() == 0 {
            return Err(RenderError::EmptyCharset);
        }
        let w = img.width;
        let h = img.height;
        let ghost src = img.pixels@;
        let ghost s = self.settings;
        let mut out: Vec<Pixel> = Vec::new();
        let mut y0: u32 = 0;
        let ghost mut q: int = 0;
        while y0 < h
            invariant
                img.wf(),
                src == img.pixels@,
                s == self.settings,
                self.settings.renderable(),
                chars@ == self.settings.ascii_chars@,
                bs == self.settings.block_size,
                w == img.width,
                h == img.height,
                y0 <= h,
                y0 < h ==> y0 == q * bs,
                out@.len() == y0 * w,
                forall|i: int|
                    0 <= i < out@.len() ==> out@[i] == rendered_pixel(src, w as int, h as int, s, i % (w as int), i / (w as int)),
            decreases h - y0,
        {
            let fills = self.block_row_fills(img, &chars, y0);
            let y_end: u32 = if bs < h - y0 { y0 + bs } else { h };
            let mut y: u32 = y0;
            while y < y_end
                invariant
                    img.wf(),
                    src == img.pixels@,
                    s == self.settings,
                    self.settings.renderable(),
                    bs == self.settings.block_size,
                    w == img.width,
                    h == img.height,
                    y0 < h,
                    y0 == q * bs,
                    y0 <= y <= y_end,
                    y_end <= h,
                    y_end <= y0 + bs,
                    fills@.len() * bs >= w,
                    forall|k: int|
                        0 <= k < fills@.len() ==> #[trigger] fills@[k] == block_fill(src, w as int, h as int, s, k * bs, y0 as int),
                    out@.len() == y * w,
                    forall|i: int|
                        0 <= i < out@.len() ==> out@[i] == rendered_pixel(src, w as int, h as int, s, i % (w as int), i / (w as int)),
                decreases y_end - y,
            {
                proof {
                    lemma_block_of(y as int, bs as int, q);
                }
                let mut x: u32 = 0;
                while x < w
                    invariant
                        img.wf(),
                        src == img.pixels@,
                        s == self.settings,
                        self.settings.renderable(),
                        bs == self.settings.block_size,
                        w == img.width,
                        h == img.height,
                        y < h,
                        (y as int) / (bs as int) == q,
                        y0 == q * bs,
                        x <= w,
                        fills@.len() * bs >= w,
                        forall|k: int|
                            0 <= k < fills@.len() ==> #[trigger] fills@[k] == block_fill(src, w as int, h as int, s, k * bs, y0 as int),
                        out@.len() == y * w + x,
                        forall|i: int|
                            0 <= i < out@.len() ==> out@[i] == rendered_pixel(src, w as int, h as int, s, i % (w as int), i / (w as int)),
                    decreases w - x,
                {
                    let k: usize = (x / bs) as usize;
                    proof {
                        lemma_div_below(x as int, bs as int, fills@.len() as int);
                        lemma_flat_index_div_mod(x as int, y as int, w as int);
                    }
                    out.push(fills[k]);
                    x = x + 1;
                }
                proof {
                    assert(y * w + w == (y + 1) * w) by (nonlinear_arith);
                }
                y = y + 1;
            }
            proof {
                if y_end < h {
                    assert(y_end == (q + 1) * bs) by (nonlinear_arith)
                        requires
                            y_end == y0 + bs,
                            y0 == q * bs,
                    ;
                }
                q = q + 1;
            }
            y0 = y_end;
        }
        proof {
            assert(out@.len() == w as int * h as int) by (nonlinear_arith)
                requires
                    out@.len() == y0 * w,
                    y0 == h,
            ;
        }
        let r = Image { width: w, height: h, pixels: out };
        proof {
            assert forall|x: int, y: int|
                in_grid(x, y, w as int, h as int) implies #[trigger] r.at(x, y) == rendered_pixel(
                src,
                w as int,
                h as int,
                s,
                x,
                y,
            ) by {
                lemma_flat_index_bounds(x, y, w as int, h as int);
                lemma_flat_index_div_mod(x, y, w as int);
            }
        }
        Ok(r)
    }

    /// The normal path: grayscale, contrast stretch if enabled, gain, dithering
    /// if enabled, then block rendering.
    pub fn process_normal(&self, img: &Image) -> (r: Result<Image, RenderError>)
        requires
            img.wf(),
            self.settings.wf(),
        ensures
            renders_as(
                r,
                normal_stage(img.pixels@, img.width as int, img.height as int, self.settings),
                img.width,
                img.height,
                self.settings,
            ),
    {
        let ghost w = img.width as int;
        let ghost h = img.height as int;
        let ghost s = self.settings;
        let mut processed = to_grayscale(img);
        assert(processed.pixels@ =~= gray_seq(img.pixels@));
        let ghost a = if s.auto_adjust {
            auto_adjusted(gray_seq(img.pixels@))
        } else {
            gray_seq(img.pixels@)
        };
        if self.settings.auto_adjust {
            auto_adjust_brightness(&mut processed);
            assert(processed.pixels@ =~= a);
        }
        adjust_brightness(&mut processed, self.settings.brightness);
        assert(processed.pixels@ =~= scaled(a, s.brightness));
        if self.settings.dithering {
            apply_dithering(&mut processed);
        }
        assert(processed.pixels@ == normal_stage(img.pixels@, w, h, s));
        self.create_ascii_art(&processed)
    }

    /// The edge path: Sobel edge image, then block rendering.
    pub fn process_with_edges(&self, img: &Image) -> (r: Result<Image, RenderError>)
        requires
            img.wf(),
            self.settings.wf(),
        ensures
            renders_as(r, edge_stage(*img, self.settings), img.width, img.height, self.settings),
    {
        let processed = detect_edges(img, self.settings.sigma1, self.settings.sigma2);
        proof {
            let w = img.width as int;
            let h = img.height as int;
            assert forall|i: int| 0 <= i < processed.pixels@.len() implies processed.pixels@[i]
                == edge_stage(*img, self.settings)[i] by {
                assert(w > 0) by (nonlinear_arith)
                    requires
                        0 <= i < w * h,
                        w >= 0,
                        h >= 0,
                ;
                lemma_fundamental_div_mod(i, w);
                lemma_mod_pos_bound(i, w);
                assert(i == flat_index(i % w, i / w, w)) by (nonlinear_arith)
                    requires
                        i == w * (i / w) + (i % w),
                ;
                assert(i / w < h) by (nonlinear_arith)
                    requires
                        0 <= i < w * h,
                        i == w * (i / w) + (i % w),
                        0 <= i % w < w,
                ;
                assert(in_grid(i % w, i / w, w, h));
                assert(processed.at(i % w, i / w) == edge_pixel(*img, self.settings.sigma1, i % w, i / w));
            }
            assert(processed.pixels@ =~= edge_stage(*img, self.settings));
        }
        self.create_ascii_art(&processed)
    }

    /// Renders `img` under the settings: the edge path where edge detection is
    /// on, else the normal path.
    pub fn render(&self, img: &Image) -> (r: Result<Image, RenderError>)
        requires
            img.wf(),
            self.settings.wf(),
        ensures
            renders_as(r, stage(*img, self.settings), img.width, img.height, self.settings),
    {
        if self.settings.edge_detection {
            self.process_with_edges(img)
        } else {
            self.process_normal(img)
        }
    }
}

} // verus!
