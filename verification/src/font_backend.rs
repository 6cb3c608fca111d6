//! The platform data of fonts and glyph painting.

use vstd::prelude::*;
use std::rc::Rc;

verus! {

/// The pixels of a rendered glyph image, shared between the glyph images that view them.
#[derive(Debug, Clone)]
pub struct GlyphImageBackend {
    pub data: Rc<Vec<u8>>,
}

impl GlyphImageBackend {
    /// An image with no pixels.
    pub fn new() -> (r: Self)
        ensures
            r.data@.len() == 0,
    {
        GlyphImageBackend { data: Rc::new(Vec::new()) }
    }
}

/// The platform state of a glyph painter; the painter keeps none yet.
#[derive(Debug, Clone)]
pub struct GlyphPainterBackend {}

impl GlyphPainterBackend {
    pub fn new() -> (r: Self) {
        Self {  }
    }
}

} // verus!
