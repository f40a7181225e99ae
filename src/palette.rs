use vstd::prelude::*;
use crate::text::{chars_of, same_text};

verus! {

/// A named output palette. A palette with `colors` is a discrete ramp; one with
/// both `fg` and `bg` and no `colors` is a duotone blend from `bg` (dark) to `fg`
/// (bright); one with neither passes the sampled color through.
pub struct ColorPalette {
    pub name: &'static str,
    pub colors: Option<Vec<[u8; 3]>>,
    pub fg: Option<[u8; 3]>,
    pub bg: Option<[u8; 3]>,
}

/// The color ramp of a builtin ramp palette, darkest entry first; empty for
/// every other name.
pub open spec fn ramp_colors(name: Seq<char>) -> Seq<[u8; 3]> {
    if name == "terminal"@ {
        seq![[7, 54, 66], [88, 110, 117], [101, 123, 131], [131, 148, 150],
            [147, 161, 161], [238, 232, 213], [253, 246, 227]]
    } else if name == "amber"@ {
        seq![[255, 176, 0], [255, 192, 0], [255, 208, 0], [255, 224, 0]]
    } else if name == "low_contrast"@ {
        seq![[205, 205, 205], [180, 180, 180], [155, 155, 155], [130, 130, 130]]
    } else if name == "nord"@ {
        seq![[216, 222, 233], [229, 233, 240], [236, 239, 244]]
    } else if name == "catppuccin"@ {
        seq![[245, 224, 220], [242, 205, 205], [245, 194, 231], [203, 166, 247],
            [243, 139, 168], [235, 160, 172], [250, 179, 135], [249, 226, 175],
            [166, 227, 161], [148, 226, 213], [137, 220, 235], [116, 199, 236]]
    } else {
        seq![]
    }
}

/// The background a builtin ramp palette is meant to be shown on.
pub open spec fn ramp_background(name: Seq<char>) -> [u8; 3] {
    if name == "terminal"@ {
        [0, 43, 54]
    } else if name == "amber"@ {
        [0, 0, 0]
    } else if name == "low_contrast"@ {
        [230, 230, 230]
    } else if name == "nord"@ {
        [46, 52, 64]
    } else {
        [30, 30, 46]
    }
}

pub open spec fn is_ramp_palette(name: Seq<char>) -> bool {
    ramp_colors(name).len() > 0
}

/// Names of the builtin palettes; lookup is an exact, case-sensitive match.
pub open spec fn is_builtin_palette(name: Seq<char>) -> bool {
    name == "original"@ || name == "bw"@ || is_ramp_palette(name)
}

/// `p` is the builtin palette called `name`.
pub open spec fn describes(p: ColorPalette, name: Seq<char>) -> bool {
    &&& p.name@ == name
    &&& if is_ramp_palette(name) {
        &&& p.colors is Some
        &&& p.colors->0@ == ramp_colors(name)
        &&& p.fg is None
        &&& p.bg == Some(ramp_background(name))
    } else if name == "bw"@ {
        &&& p.colors is None
        &&& p.fg == Some([0u8, 0u8, 0u8])
        &&& p.bg == Some([255u8, 255u8, 255u8])
    } else {
        &&& p.colors is None
        &&& p.fg is None
        &&& p.bg is None
    }
}

/// `round(b / 255 * (n - 1))`, halves rounded up: the ramp entry for brightness `b`
/// in a ramp of `n` colors.
pub open spec fn ramp_index(b: u8, n: int) -> int {
    (2 * b * (n - 1) + 255) / 510
}

/// One channel of the duotone blend `(1 - b/255) * bg + (b/255) * fg`, truncated.
pub open spec fn blend_channel(b: u8, fg: u8, bg: u8) -> u8 {
    ((bg * (255 - b) + fg * b) / 255) as u8
}

pub open spec fn blend(b: u8, fg: [u8; 3], bg: [u8; 3]) -> [u8; 3] {
    [blend_channel(b, fg[0], bg[0]), blend_channel(b, fg[1], bg[1]), blend_channel(b, fg[2], bg[2])]
}

/// The color that brightness `b` takes under the palette called `name`, for a
/// block whose average sampled color is `orig`.
pub open spec fn resolve_color(b: u8, name: Seq<char>, orig: [u8; 3]) -> [u8; 3] {
    if name == "original"@ {
        orig
    } else if is_ramp_palette(name) {
        ramp_colors(name)[ramp_index(b, ramp_colors(name).len() as int)]
    } else if name == "bw"@ {
        blend(b, [0, 0, 0], [255, 255, 255])
    } else {
        [b, b, b]
    }
}

proof fn lemma_ramp_index_bounds(b: u8, n: int)
    requires
        n >= 1,
    ensures
        0 <= ramp_index(b, n) < n,
{
    assert(0 <= 2 * b * (n - 1)) by (nonlinear_arith)
        requires
            n >= 1,
            b >= 0,
    ;
    assert(2 * b * (n - 1) <= 510 * (n - 1)) by (nonlinear_arith)
        requires
            n >= 1,
            b <= 255,
    ;
    assert((2 * b * (n - 1) + 255) / 510 <= n - 1) by (nonlinear_arith)
        requires
            2 * b * (n - 1) <= 510 * (n - 1),
            n >= 1,
    ;
}

/// The builtin palette names differ in their first character.
pub proof fn lemma_palette_names_distinct()
    ensures
        "original"@.len() > 0 && "original"@[0] == 'o',
        "bw"@.len() > 0 && "bw"@[0] == 'b',
        "terminal"@.len() > 0 && "terminal"@[0] == 't',
        "amber"@.len() > 0 && "amber"@[0] == 'a',
        "low_contrast"@.len() > 0 && "low_contrast"@[0] == 'l',
        "nord"@.len() > 0 && "nord"@[0] == 'n',
        "catppuccin"@.len() > 0 && "catppuccin"@[0] == 'c',
{
    reveal_strlit("original");
    reveal_strlit("bw");
    reveal_strlit("terminal");
    reveal_strlit("amber");
    reveal_strlit("low_contrast");
    reveal_strlit("nord");
    reveal_strlit("catppuccin");
}

/// The builtin palette called `name`, if there is one.
pub fn builtin_palette(name: &str) -> (r: Option<ColorPalette>)
    ensures
        r is Some <==> is_builtin_palette(name@),
        r matches Some(p) ==> describes(p, name@),
{
    proof {
        lemma_palette_names_distinct();
    }
    if same_text(name, "original") {
        Some(ColorPalette { name: "original", colors: None, fg: None, bg: None })
    } else if same_text(name, "bw") {
        Some(ColorPalette { name: "bw", colors: None, fg: Some([0, 0, 0]), bg: Some([255, 255, 255]) })
    } else if same_text(name, "terminal") {
        let colors = vec![[7, 54, 66], [88, 110, 117], [101, 123, 131], [131, 148, 150],
            [147, 161, 161], [238, 232, 213], [253, 246, 227]];
        assert(colors@ =~= ramp_colors(name@));
        Some(ColorPalette { name: "terminal", colors: Some(colors), fg: None, bg: Some([0, 43, 54]) })
    } else if same_text(name, "amber") {
        let colors = vec![[255, 176, 0], [255, 192, 0], [255, 208, 0], [255, 224, 0]];
        assert(colors@ =~= ramp_colors(name@));
        Some(ColorPalette { name: "amber", colors: Some(colors), fg: None, bg: Some([0, 0, 0]) })
    } else if same_text(name, "low_contrast") {
        let colors = vec![[205, 205, 205], [180, 180, 180], [155, 155, 155], [130, 130, 130]];
        assert(colors@ =~= ramp_colors(name@));
        Some(ColorPalette { name: "low_contrast", colors: Some(colors), fg: None, bg: Some([230, 230, 230]) })
    } else if same_text(name, "nord") {
        let colors = vec![[216, 222, 233], [229, 233, 240], [236, 239, 244]];
        assert(colors@ =~= ramp_colors(name@));
        Some(ColorPalette { name: "nord", colors: Some(colors), fg: None, bg: Some([46, 52, 64]) })
    } else if same_text(name, "catppuccin") {
        let colors = vec![[245, 224, 220], [242, 205, 205], [245, 194, 231], [203, 166, 247],
            [243, 139, 168], [235, 160, 172], [250, 179, 135], [249, 226, 175],
            [166, 227, 161], [148, 226, 213], [137, 220, 235], [116, 199, 236]];
        assert(colors@ =~= ramp_colors(name@));
        Some(ColorPalette { name: "catppuccin", colors: Some(colors), fg: None, bg: Some([30, 30, 46]) })
    } else {
        None
    }
}

fn blend_channel_exec(b: u8, fg: u8, bg: u8) -> (r: u8)
    ensures
        r == blend_channel(b, fg, bg),
{
    proof {
        assert(bg * (255 - b) <= 255 * (255 - b) && fg * b <= 255 * b) by (nonlinear_arith)
            requires
                bg <= 255,
                fg <= 255,
                b <= 255,
        ;
    }
    let sum: u32 = bg as u32 * (255 - b as u32) + fg as u32 * b as u32;
    (sum / 255) as u8
}

/// The output color for a block of average brightness `brightness` and average
/// sampled color `original_color` under the palette called `palette_name`:
/// the sampled color for "original", the ramp entry `round(brightness / 255 * (n - 1))`
/// for a ramp palette of `n` colors, the truncated linear blend from background to
/// foreground for a duotone palette, and the gray `(brightness, brightness, brightness)`
/// for a name that is not a builtin palette.
pub fn get_color_for_brightness(brightness: u8, palette_name: &str, original_color: [u8; 3]) -> (r: [u8; 3])
    ensures
        r == resolve_color(brightness, palette_name@, original_color),
{
    proof {
        lemma_palette_names_distinct();
    }
    if same_text(palette_name, "original") {
        return original_color;
    }
    match builtin_palette(palette_name) {
        Some(p) => {
            match p.colors {
                Some(colors) => {
                    let n: usize = colors.len();
                    proof {
                        lemma_ramp_index_bounds(brightness, n as int);
                    }
                    let index: usize = ((2 * brightness as u64 * (n as u64 - 1) + 255) / 510) as usize;
                    colors[index]
                },
                None => match (p.fg, p.bg) {
                    (Some(fg), Some(bg)) => [
                        blend_channel_exec(brightness, fg[0], bg[0]),
                        blend_channel_exec(brightness, fg[1], bg[1]),
                        blend_channel_exec(brightness, fg[2], bg[2]),
                    ],
                    _ => original_color,
                },
            }
        },
        None => [brightness, brightness, brightness],
    }
}


/// `s` without its leading `#` characters.
pub open spec fn strip_hashes(s: Seq<char>) -> Seq<char>
    decreases s.len(),
{
    if s.len() > 0 && s[0] == '#' {
        strip_hashes(s.drop_first())
    } else {
        s
    }
}

pub open spec fn is_hex_digit(c: char) -> bool {
    ('0' <= c && c <= '9') || ('a' <= c && c <= 'f') || ('A' <= c && c <= 'F')
}

pub open spec fn hex_digit_value(c: char) -> int {
    if '0' <= c && c <= '9' {
        c as int - '0' as int
    } else if 'a' <= c && c <= 'f' {
        c as int - 'a' as int + 10
    } else {
        c as int - 'A' as int + 10
    }
}

/// Channel `k` of a hex color: the two digits at positions `2k` and `2k + 1`,
/// or 0 where those are missing or not hex digits.
pub open spec fn hex_channel(d: Seq<char>, k: int) -> u8 {
    if 2 * k + 1 < d.len() && is_hex_digit(d[2 * k]) && is_hex_digit(d[2 * k + 1]) {
        (16 * hex_digit_value(d[2 * k]) + hex_digit_value(d[2 * k + 1])) as u8
    } else {
        0
    }
}

fn hex_digit(c: char) -> (r: Option<u8>)
    ensures
        r is Some <==> is_hex_digit(c),
        r matches Some(v) ==> v == hex_digit_value(c) && v < 16,
{
    if '0' <= c && c <= '9' {
        Some((c as u32 - '0' as u32) as u8)
    } else if 'a' <= c && c <= 'f' {
        Some((c as u32 - 'a' as u32 + 10) as u8)
    } else if 'A' <= c && c <= 'F' {
        Some((c as u32 - 'A' as u32 + 10) as u8)
    } else {
        None
    }
}

fn hex_pair(d: &Vec<char>, k: usize) -> (r: u8)
    requires
        k < 3,
    ensures
        r == hex_channel(d@, k as int),
{
    if 2 * k + 1 < d.len() {
        match (hex_digit(d[2 * k]), hex_digit(d[2 * k + 1])) {
            (Some(hi), Some(lo)) => 16 * hi + lo,
            _ => 0,
        }
    } else {
        0
    }
}

/// Reads a color written as six hex digits after any number of `#` characters.
/// A channel whose two digits are missing or are not hex digits reads as 0.
pub fn hex_to_rgb(hex: &str) -> (r: [u8; 3])
    ensures
        r == [
            hex_channel(strip_hashes(hex@), 0),
            hex_channel(strip_hashes(hex@), 1),
            hex_channel(strip_hashes(hex@), 2),
        ],
{
    let all = chars_of(hex);
    let mut start: usize = 0;
    assert(all@.subrange(0, all@.len() as int) =~= all@);
    while start < all.len() && all[start] == '#'
        invariant
            0 <= start <= all@.len(),
            strip_hashes(all@.subrange(start as int, all@.len() as int)) == strip_hashes(hex@),
            all@ == hex@,
        decreases all@.len() - start,
    {
        assert(all@.subrange(start as int, all@.len() as int).drop_first()
            =~= all@.subrange(start as int + 1, all@.len() as int));
        start = start + 1;
    }
    let mut digits: Vec<char> = Vec::new();
    let mut i: usize = start;
    while i < all.len()
        invariant
            start <= i <= all@.len(),
            digits@ == all@.subrange(start as int, i as int),
        decreases all@.len() - i,
    {
        digits.push(all[i]);
        assert(digits@ =~= all@.subrange(start as int, i as int + 1));
        i = i + 1;
    }
    proof {
        assert(all@.subrange(0, all@.len() as int) =~= all@);
        assert(digits@ =~= all@.subrange(start as int, all@.len() as int));
    }
    [hex_pair(&digits, 0), hex_pair(&digits, 1), hex_pair(&digits, 2)]
}

} // verus!
