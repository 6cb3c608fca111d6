//! Verified core of a 2D rendering and text layout library: geometry types, text encoding index
//! conversion, glyph iteration, text run analysis and resource bookkeeping.

pub mod text_encoding;
pub mod utf16_utf8_index_converter;
pub mod utf_index_converter;
pub mod coordinates;
pub mod text_analyzer;
pub mod text_analyzer_backend;
pub mod text_layout;
pub mod glyph_image_slab;
pub mod color;
pub mod font;
pub mod formatted_string;
pub mod bezier;
pub mod quad_bezier;
pub mod cubic_bezier;
pub mod path;
pub mod image_group;
pub mod painter;
pub mod tiny_skia_painter;
pub mod generic_backend;
pub mod font_backend;
pub mod small_vecs;
pub mod vk_util;
pub mod vk_allocator;
pub mod retained;
pub mod wide_ffi_string;
pub mod vk_descriptor_set_allocator;
