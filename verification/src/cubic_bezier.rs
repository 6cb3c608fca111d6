//! Cubic Bézier curves.

use vstd::prelude::*;
use crate::coordinates::Point2;

verus! {

/// Whether a cubic curve is plain, has one or two inflection points, or forms a loop.
#[derive(Debug, Copy, Clone, PartialEq, Eq, Hash, Structural)]
pub enum CurveType {
    Plain,
    SingleInflection,
    DoubleInflection,
    FormsLoop,
}

/// A cubic Bézier curve from `p0` to `p3` with control points `p1` and `p2`.
#[derive(Debug, Copy, Clone, PartialEq, Eq, Hash)]
pub struct CubicBezier<N> {
    pub p0: Point2<N>,
    pub p1: Point2<N>,
    pub p2: Point2<N>,
    pub p3: Point2<N>,
}

impl<N> CubicBezier<N> {
    pub fn new(p0: Point2<N>, p1: Point2<N>, p2: Point2<N>, p3: Point2<N>) -> (r: Self)
        ensures
            r.p0 == p0,
            r.p1 == p1,
            r.p2 == p2,
            r.p3 == p3,
    {
        CubicBezier { p0: p0, p1: p1, p2: p2, p3: p3 }
    }
}

} // verus!
