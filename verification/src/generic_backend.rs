//! The traits that each platform's backend types implement.

use vstd::prelude::*;
use core::fmt::Debug;
use crate::text_analyzer_backend::TextAnalyzerRunBackend;
use crate::font_backend::GlyphImageBackend;

verus! {

/// The platform data of a rendered glyph image.
pub trait GenericGlyphImageBackend: Debug + Clone {
}

/// The platform data of an analyzed run of text.
pub trait GenericTextAnalyzerRunBackend: Debug + Clone {
}

impl GenericTextAnalyzerRunBackend for TextAnalyzerRunBackend {
}

impl GenericGlyphImageBackend for GlyphImageBackend {
}

} // verus!
