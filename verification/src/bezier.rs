//! The kinds of curve a cubic Bézier curve can be.

use vstd::prelude::*;

verus! {

/// Whether a cubic curve is plain, has one or two inflection points, or forms a loop.
#[derive(Debug, Copy, Clone, PartialEq, Eq, Hash, Structural)]
pub enum CurveType {
    Plain,
    SingleInflection,
    DoubleInflection,
    FormsLoop,
}

} // verus!
