//! Block-quantized ASCII-art rendering of raster images: grayscale, Sobel edges,
//! Floyd-Steinberg dithering, brightness normalization, palettes and the block
//! renderer that ties them together.

pub mod filters;
pub mod laws;
pub mod palette;
pub mod raster;
pub mod render;
pub mod text;

pub use filters::{
    adjust_brightness, apply_dithering, auto_adjust_brightness, detect_edges, to_grayscale,
};
pub use palette::{builtin_palette, get_color_for_brightness, hex_to_rgb, ColorPalette};
pub use raster::{Image, Pixel, Ratio};
pub use render::{get_ascii_char, AsciiSettings, ImageProcessor, RenderError};
