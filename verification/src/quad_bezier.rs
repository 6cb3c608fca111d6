//! Quadratic Bézier curves.

use vstd::prelude::*;
use crate::coordinates::Point2;

verus! {

/// A quadratic Bézier curve from `p0` to `p2` with control point `p1`.
#[derive(Debug, Copy, Clone, PartialEq, Eq, Hash)]
pub struct QuadBezier<N> {
    pub p0: Point2<N>,
    pub p1: Point2<N>,
    pub p2: Point2<N>,
}

impl<N> QuadBezier<N> {
    pub fn new(p0: Point2<N>, p1: Point2<N>, p2: Point2<N>) -> (r: Self)
        ensures
            r.p0 == p0,
            r.p1 == p1,
            r.p2 == p2,
    {
        QuadBezier { p0: p0, p1: p1, p2: p2 }
    }
}

} // verus!
