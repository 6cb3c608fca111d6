//! The segments of paths, as stored in flat arrays, and how the ends of stroked paths are drawn.

use vstd::prelude::*;

verus! {

/// The shape at the ends of an open stroked path.
#[derive(Debug, Clone, Copy, PartialEq, Eq, Structural)]
pub enum EndCap {
    Flat,
    Square,
    Round,
    Triangular,
}

/// The shape at the ends of a stroked line.
#[derive(Clone, Copy, Debug, PartialEq, Eq, Structural)]
pub enum LineCap {
    Flat,
    Square,
    Round,
}


/// The kind of a path segment, stored apart from its coordinates.
#[derive(Debug, Clone, Copy, PartialEq, Eq, Structural)]
pub enum PathSegmentType {
    Move,
    Line,
    QuadCurve,
    CubicCurve,
    Arc,
    Close,
}

/// How many coordinates a segment of kind `ty` keeps in the path's data: two per point, and for
/// an arc its center, two radii and two angles.
pub open spec fn spec_segment_data_len(ty: PathSegmentType) -> nat {
    match ty {
        PathSegmentType::Move => 2,
        PathSegmentType::Line => 2,
        PathSegmentType::QuadCurve => 4,
        PathSegmentType::CubicCurve => 6,
        PathSegmentType::Arc => 6,
        PathSegmentType::Close => 0,
    }
}

/// The number of coordinates that a segment of kind `ty` keeps in the path's data.
pub fn segment_data_len(ty: PathSegmentType) -> (r: usize)
    ensures
        r == spec_segment_data_len(ty),
{
    match ty {
        PathSegmentType::Move => 2,
        PathSegmentType::Line => 2,
        PathSegmentType::QuadCurve => 4,
        PathSegmentType::CubicCurve => 6,
        PathSegmentType::Arc => 6,
        PathSegmentType::Close => 0,
    }
}

/// The number of coordinates that the segments `types` keep, together.
pub open spec fn path_data_len(types: Seq<PathSegmentType>) -> nat
    decreases types.len(),
{
    if types.len() == 0 {
        0
    } else {
        spec_segment_data_len(types[0]) + path_data_len(types.drop_first())
    }
}

/// Walks the segments of a path, giving each segment's kind with its coordinates.
pub struct SegmentIter<'a, T> {
    pub types: &'a [PathSegmentType],
    pub data: &'a [T],
    pub types_index: usize,
    pub data_index: usize,
}

impl<'a, T> SegmentIter<'a, T> {
    /// The segments still to come.
    pub open spec fn rest(&self) -> Seq<PathSegmentType> {
        self.types@.subrange(self.types_index as int, self.types@.len() as int)
    }

    /// The data holds the coordinates of every segment still to come, from `data_index` on.
    pub open spec fn wf(&self) -> bool {
        &&& self.types_index <= self.types@.len()
        &&& self.data_index + path_data_len(self.rest()) <= self.data@.len()
    }

    /// A walk from the first segment of a path whose data holds the coordinates of its segments.
    pub fn new(types: &'a [PathSegmentType], data: &'a [T]) -> (r: Self)
        requires
            path_data_len(types@) <= data@.len(),
        ensures
            r.wf(),
            r.types == types,
            r.data == data,
            r.types_index == 0,
            r.data_index == 0,
    {
        let r = SegmentIter { types, data, types_index: 0, data_index: 0 };
        assert(r.rest() =~= types@);
        r
    }

    /// The next segment's kind and coordinates, moving past them; `None` once no segment is left.
    pub fn next(&mut self) -> (r: Option<(PathSegmentType, &'a [T])>)
        requires
            old(self).wf(),
        ensures
            final(self).wf(),
            final(self).types == old(self).types,
            final(self).data == old(self).data,
            old(self).types_index >= old(self).types@.len() ==> r is None && *final(self) == *old(
                self,
            ),
            old(self).types_index < old(self).types@.len() ==> {
                let ty = old(self).types@[old(self).types_index as int];
                let end = old(self).data_index + spec_segment_data_len(ty);
                &&& r matches Some((t, d)) && t == ty && d@ == old(self).data@.subrange(
                    old(self).data_index as int,
                    end,
                )
                &&& final(self).types_index == old(self).types_index + 1
                &&& final(self).data_index == end
                &&& final(self).rest() == old(self).rest().drop_first()
            },
    {
        if self.types_index >= self.types.len() {
            return None;
        }
        let ty = self.types[self.types_index];
        let used = segment_data_len(ty);
        let data_len = self.data.len();
        proof {
            assert(self.rest()[0] == ty);
            assert(path_data_len(self.rest()) == spec_segment_data_len(ty) + path_data_len(
                self.rest().drop_first(),
            ));
            assert(self.rest().drop_first() =~= self.types@.subrange(
                self.types_index + 1,
                self.types@.len() as int,
            ));
        }
        let start = self.data_index;
        assert(start + used <= data_len);
        let d = vstd::slice::slice_subrange(self.data, start, start + used);
        self.types_index += 1;
        self.data_index = start + used;
        Some((ty, d))
    }
}

} // verus!
