use ascii_art::{
    adjust_brightness, apply_dithering, auto_adjust_brightness, builtin_palette, detect_edges,
    get_ascii_char, get_color_for_brightness, hex_to_rgb, to_grayscale, AsciiSettings, Image,
    ImageProcessor, Pixel, Ratio, RenderError,
};

fn px(r: u8, g: u8, b: u8, a: u8) -> Pixel {
    Pixel { r, g, b, a }
}

fn uniform(width: u32, height: u32, p: Pixel) -> Image {
    Image { width, height, pixels: vec![p; (width * height) as usize] }
}

fn from_reds(width: u32, height: u32, reds: &[u8]) -> Image {
    Image { width, height, pixels: reds.iter().map(|&v| px(v, v, v, 255)).collect() }
}

#[test]
fn grayscale_uses_truncated_luma_and_keeps_alpha() {
    let img = Image { width: 2, height: 1, pixels: vec![px(10, 20, 30, 77), px(255, 255, 255, 0)] };
    let g = to_grayscale(&img);
    assert_eq!(g.width, 2);
    assert_eq!(g.height, 1);
    assert_eq!(g.pixels[0], px(18, 18, 18, 77));
    assert_eq!(g.pixels[1], px(255, 255, 255, 0));
}

#[test]
fn grayscale_channels_equal_for_every_pixel() {
    let mut pixels = Vec::new();
    for i in 0..64u32 {
        pixels.push(px((i * 4) as u8, (255 - i * 3) as u8, (i * 7 % 256) as u8, i as u8));
    }
    let img = Image { width: 8, height: 8, pixels };
    let g = to_grayscale(&img);
    for (src, out) in img.pixels.iter().zip(g.pixels.iter()) {
        let expected = ((299 * src.r as u32 + 587 * src.g as u32 + 114 * src.b as u32) / 1000) as u8;
        assert_eq!(*out, px(expected, expected, expected, src.a));
    }
}

#[test]
fn constant_image_has_no_interior_edges() {
    let img = uniform(5, 4, px(90, 90, 90, 255));
    let e = detect_edges(&img, Ratio { num: 2, den: 1 }, Ratio { num: 2, den: 1 });
    for y in 0..4u32 {
        for x in 0..5u32 {
            let p = e.pixels[(y * 5 + x) as usize];
            if x >= 1 && x + 1 < 5 && y >= 1 && y + 1 < 4 {
                assert_eq!(p, px(0, 0, 0, 255));
            } else {
                assert_eq!(p, px(0, 0, 0, 0));
            }
        }
    }
}

#[test]
fn vertical_step_gives_scaled_gradient() {
    let reds = [0, 0, 255, 0, 0, 255, 0, 0, 255];
    let img = from_reds(3, 3, &reds);
    let strong = detect_edges(&img, Ratio { num: 2, den: 1 }, Ratio { num: 2, den: 1 });
    assert_eq!(strong.pixels[4], px(255, 255, 255, 255));
    let weak = detect_edges(&img, Ratio { num: 1, den: 8 }, Ratio { num: 2, den: 1 });
    assert_eq!(weak.pixels[4], px(127, 127, 127, 255));
}

#[test]
fn edges_of_tiny_images_are_all_border() {
    let img = uniform(2, 2, px(10, 200, 30, 255));
    let e = detect_edges(&img, Ratio { num: 2, den: 1 }, Ratio { num: 2, den: 1 });
    assert_eq!(e.pixels, vec![px(0, 0, 0, 0); 4]);
    let empty = Image { width: 0, height: 0, pixels: vec![] };
    assert!(detect_edges(&empty, Ratio { num: 1, den: 1 }, Ratio { num: 1, den: 1 }).pixels.is_empty());
}

#[test]
fn dithering_keeps_white_and_black() {
    let mut white = uniform(4, 3, px(255, 255, 255, 255));
    apply_dithering(&mut white);
    assert_eq!(white.pixels, vec![px(255, 255, 255, 255); 12]);
    let mut black = uniform(4, 3, px(0, 0, 0, 0));
    apply_dithering(&mut black);
    assert_eq!(black.pixels, vec![px(0, 0, 0, 0); 12]);
}

#[test]
fn dithering_spreads_positive_error() {
    let mut img = uniform(2, 2, px(100, 100, 100, 255));
    apply_dithering(&mut img);
    assert_eq!(img.pixels[0], px(0, 0, 0, 0));
    assert_eq!(img.pixels[1], px(143, 143, 143, 143));
    assert_eq!(img.pixels[2], px(131, 131, 131, 131));
    assert_eq!(img.pixels[3], px(106, 106, 106, 106));
}

#[test]
fn dithering_truncates_negative_error_toward_zero() {
    let mut img = uniform(2, 2, px(200, 200, 200, 255));
    apply_dithering(&mut img);
    // error -55: -385/16, -275/16 and -55/16 truncate to -24, -17 and -3
    assert_eq!(img.pixels[0], px(255, 255, 255, 255));
    assert_eq!(img.pixels[1], px(176, 176, 176, 176));
    assert_eq!(img.pixels[2], px(183, 183, 183, 183));
    assert_eq!(img.pixels[3], px(197, 197, 197, 197));
}

#[test]
fn dithering_leaves_last_row_and_column_of_a_single_row() {
    let mut img = from_reds(3, 1, &[10, 200, 30]);
    let before = img.pixels.clone();
    apply_dithering(&mut img);
    assert_eq!(img.pixels, before);
}

#[test]
fn gain_one_is_identity_and_zero_clears() {
    let img = Image { width: 2, height: 1, pixels: vec![px(1, 128, 255, 9), px(40, 0, 77, 200)] };
    let mut same = img.clone();
    adjust_brightness(&mut same, Ratio { num: 1, den: 1 });
    assert_eq!(same.pixels, img.pixels);
    let mut dark = img.clone();
    adjust_brightness(&mut dark, Ratio { num: 0, den: 1 });
    assert_eq!(dark.pixels, vec![px(0, 0, 0, 9), px(0, 0, 0, 200)]);
}

#[test]
fn gain_scales_and_clamps() {
    let mut img = Image { width: 1, height: 1, pixels: vec![px(100, 200, 3, 50)] };
    adjust_brightness(&mut img, Ratio { num: 3, den: 2 });
    assert_eq!(img.pixels[0], px(150, 255, 4, 50));
}

#[test]
fn auto_adjust_stretches_to_full_range() {
    let mut img = from_reds(3, 1, &[50, 100, 150]);
    auto_adjust_brightness(&mut img);
    assert_eq!(img.pixels[0], px(0, 0, 0, 255));
    assert_eq!(img.pixels[1], px(128, 128, 128, 255));
    assert_eq!(img.pixels[2], px(255, 255, 255, 255));
}

#[test]
fn auto_adjust_leaves_constant_image() {
    let mut img = uniform(3, 2, px(77, 10, 200, 4));
    auto_adjust_brightness(&mut img);
    assert_eq!(img.pixels, vec![px(77, 10, 200, 4); 6]);
}

#[test]
fn palette_original_passes_color_through() {
    for b in [0u8, 1, 128, 254, 255] {
        assert_eq!(get_color_for_brightness(b, "original", [12, 34, 56]), [12, 34, 56]);
    }
}

#[test]
fn palette_ramp_ends() {
    assert_eq!(get_color_for_brightness(0, "terminal", [1, 2, 3]), [7, 54, 66]);
    assert_eq!(get_color_for_brightness(255, "terminal", [1, 2, 3]), [253, 246, 227]);
    assert_eq!(get_color_for_brightness(0, "catppuccin", [1, 2, 3]), [245, 224, 220]);
    assert_eq!(get_color_for_brightness(255, "catppuccin", [1, 2, 3]), [116, 199, 236]);
    assert_eq!(get_color_for_brightness(255, "nord", [1, 2, 3]), [236, 239, 244]);
}

#[test]
fn palette_ramp_rounds_index() {
    // round(128 / 255 * 3) = round(1.506) = 2
    assert_eq!(get_color_for_brightness(128, "amber", [0, 0, 0]), [255, 208, 0]);
    // round(42 / 255 * 3) = round(0.494) = 0
    assert_eq!(get_color_for_brightness(42, "amber", [0, 0, 0]), [255, 176, 0]);
    // round(43 / 255 * 3) = round(0.506) = 1
    assert_eq!(get_color_for_brightness(43, "low_contrast", [0, 0, 0]), [180, 180, 180]);
}

#[test]
fn palette_duotone_blends() {
    assert_eq!(get_color_for_brightness(0, "bw", [9, 9, 9]), [255, 255, 255]);
    assert_eq!(get_color_for_brightness(255, "bw", [9, 9, 9]), [0, 0, 0]);
    assert_eq!(get_color_for_brightness(100, "bw", [9, 9, 9]), [155, 155, 155]);
}

#[test]
fn palette_unknown_name_is_gray() {
    assert_eq!(get_color_for_brightness(77, "Amber", [1, 2, 3]), [77, 77, 77]);
    assert_eq!(get_color_for_brightness(5, "", [1, 2, 3]), [5, 5, 5]);
}

#[test]
fn builtin_palette_lookup() {
    let t = builtin_palette("terminal").unwrap();
    assert_eq!(t.name, "terminal");
    assert_eq!(t.colors.as_ref().unwrap().len(), 7);
    assert_eq!(t.bg, Some([0, 43, 54]));
    let bw = builtin_palette("bw").unwrap();
    assert!(bw.colors.is_none());
    assert_eq!(bw.fg, Some([0, 0, 0]));
    assert!(builtin_palette("original").unwrap().colors.is_none());
    assert!(builtin_palette("solarized").is_none());
}

#[test]
fn hex_colors_parse() {
    assert_eq!(hex_to_rgb("#ff8000"), [255, 128, 0]);
    assert_eq!(hex_to_rgb("##0a0B0c"), [10, 11, 12]);
    assert_eq!(hex_to_rgb("ffffff"), [255, 255, 255]);
}

#[test]
fn malformed_hex_channels_read_as_zero() {
    assert_eq!(hex_to_rgb("zz8000"), [0, 128, 0]);
    assert_eq!(hex_to_rgb("#12"), [18, 0, 0]);
    assert_eq!(hex_to_rgb(""), [0, 0, 0]);
}

#[test]
fn ascii_char_buckets() {
    let chars = " .:-=+*#%@";
    assert_eq!(get_ascii_char(128, chars, false), '=');
    assert_eq!(get_ascii_char(255, chars, false), ' ');
    assert_eq!(get_ascii_char(0, chars, false), '@');
    assert_eq!(get_ascii_char(255, chars, true), '@');
    assert_eq!(get_ascii_char(0, chars, true), ' ');
    assert_eq!(get_ascii_char(200, "#", true), '#');
}

fn settings(block_size: u32, color: bool) -> AsciiSettings {
    let mut s = AsciiSettings::default();
    s.block_size = block_size;
    s.color = color;
    s
}

#[test]
fn default_settings() {
    let s = AsciiSettings::default();
    assert_eq!(s.block_size, 8);
    assert_eq!(s.brightness, Ratio { num: 1, den: 1 });
    assert!(s.auto_adjust && s.color && !s.invert && !s.edge_detection && !s.dithering);
    assert_eq!(s.sigma1, Ratio { num: 2, den: 1 });
    assert_eq!(s.ascii_chars, " .:-=+*#%@");
    assert_eq!(s.palette, "original");
    assert_eq!(s.color_palette, vec!["#ffffff".to_string()]);
    assert_eq!(s.foreground, "#000000");
    assert_eq!(s.background, "#ffffff");
}

#[test]
fn mid_gray_without_color_renders_black() {
    let img = uniform(16, 16, px(128, 128, 128, 255));
    let out = ImageProcessor::new(settings(8, false)).render(&img).unwrap();
    assert_eq!(out.width, 16);
    assert_eq!(out.height, 16);
    assert_eq!(out.pixels, vec![px(0, 0, 0, 255); 256]);
}

#[test]
fn mid_gray_with_original_palette_is_unchanged() {
    let img = uniform(16, 16, px(128, 128, 128, 255));
    let out = ImageProcessor::new(settings(8, true)).render(&img).unwrap();
    assert_eq!(out.pixels, img.pixels);
}

#[test]
fn white_without_color_renders_white() {
    let img = uniform(4, 4, px(255, 255, 255, 255));
    let out = ImageProcessor::new(settings(2, false)).render(&img).unwrap();
    assert_eq!(out.pixels, vec![px(255, 255, 255, 255); 16]);
}

#[test]
fn unit_blocks_copy_each_pixel() {
    let img = from_reds(3, 2, &[0, 40, 80, 120, 160, 255]);
    let mut s = settings(1, true);
    s.auto_adjust = false;
    let out = ImageProcessor::new(s).create_ascii_art(&img).unwrap();
    assert_eq!(out.pixels, img.pixels);
}

#[test]
fn partial_blocks_average_in_bounds_samples() {
    let img = Image {
        width: 3,
        height: 1,
        pixels: vec![px(10, 0, 0, 0), px(21, 4, 0, 0), px(200, 1, 2, 3)],
    };
    let out = ImageProcessor::new(settings(2, true)).create_ascii_art(&img).unwrap();
    assert_eq!(out.pixels, vec![px(15, 2, 0, 255), px(15, 2, 0, 255), px(200, 1, 2, 255)]);
}

#[test]
fn ramp_palette_colors_blocks() {
    let img = uniform(2, 2, px(255, 255, 255, 255));
    let mut s = settings(2, true);
    s.palette = "amber".to_string();
    let out = ImageProcessor::new(s).render(&img).unwrap();
    assert_eq!(out.pixels, vec![px(255, 224, 0, 255); 4]);
}

#[test]
fn zero_block_size_is_rejected() {
    let img = uniform(2, 2, px(1, 2, 3, 4));
    let r = ImageProcessor::new(settings(0, true)).render(&img);
    assert_eq!(r.unwrap_err(), RenderError::BlockSizeZero);
}

#[test]
fn empty_charset_is_rejected() {
    let img = uniform(2, 2, px(1, 2, 3, 4));
    let mut s = settings(1, false);
    s.ascii_chars = String::new();
    let r = ImageProcessor::new(s).render(&img);
    assert_eq!(r.unwrap_err(), RenderError::EmptyCharset);
}

#[test]
fn edge_render_is_repeatable() {
    let reds: Vec<u8> = (0..64u32).map(|i| ((i * 37) % 256) as u8).collect();
    let img = from_reds(8, 8, &reds);
    let mut s = settings(2, false);
    s.edge_detection = true;
    let p = ImageProcessor::new(s);
    let first = p.render(&img).unwrap();
    let second = p.render(&img).unwrap();
    assert_eq!(first.pixels, second.pixels);
    assert_eq!((first.width, first.height), (8, 8));
}

#[test]
fn normal_path_with_dithering_binarizes() {
    let img = uniform(4, 4, px(100, 100, 100, 255));
    let mut s = settings(1, true);
    s.auto_adjust = false;
    s.dithering = true;
    let out = ImageProcessor::new(s).process_normal(&img).unwrap();
    assert_eq!(out.pixels[0], px(0, 0, 0, 255));
    assert!(out.pixels.iter().all(|p| p.a == 255));
}
