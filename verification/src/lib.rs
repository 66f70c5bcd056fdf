//! Glyph rasterization core of the typf text engine: 26.6 fixed-point
//! arithmetic, Bézier flattening, edge tables, scanline conversion,
//! oversampled anti-aliasing, pixel compositing and glyph caching.

pub mod fixed;
pub mod curves;
pub mod edge;
pub mod scan_converter;
pub mod grayscale;
pub mod image;
pub mod types;
pub mod bitmap;
pub mod glyph_cache;
pub mod canvas;
pub mod text;
pub mod orge_renderer;
pub mod opixa_renderer;
pub mod outline_bounds;
pub mod glyph_raster;
pub mod font_cache;
pub mod shaping;
pub mod json_output;
pub mod os_renderers;
pub mod skia_renderer;
pub mod skia_canvas;
pub mod color_render;
pub mod font_data;
pub mod svg_glyph;
pub mod base64;
pub mod font_cache_key;
pub mod svg_output;
pub mod assoc;
pub mod cache_layers;
pub mod parallel;
