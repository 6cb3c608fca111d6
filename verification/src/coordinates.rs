//! Points, sizes, rectangles and border sizes.
//!
//! The types are generic over their coordinate type; their arithmetic is provided for `i32`
//! coordinates.

use vstd::prelude::*;
use core::ops::{Add, Sub};
use vstd::std_specs::ops::{AddSpec, SubSpec};

verus! {

/// A point in 2D space.
#[derive(Debug, Copy, Clone, PartialEq, Eq, Hash)]
pub struct Point2<N> {
    pub x: N,
    pub y: N,
}

impl<N> Point2<N> {
    pub fn new(x: N, y: N) -> (r: Self)
        ensures
            r.x == x,
            r.y == y,
    {
        Point2 { x, y }
    }
}

/// A size is a width and height.
#[derive(Debug, Copy, Clone, PartialEq, Eq, Hash)]
pub struct Size2<N> {
    pub width: N,
    pub height: N,
}

impl<N> Size2<N> {
    pub fn new(width: N, height: N) -> (r: Self)
        ensures
            r.width == width,
            r.height == height,
    {
        Size2 { width: width, height: height }
    }
}

impl<N: Copy> Size2<N> {
    /// Swaps the width and height.
    pub fn transpose(&self) -> (r: Self)
        ensures
            r.width == self.height,
            r.height == self.width,
    {
        Size2::new(self.height, self.width)
    }

    /// Swaps the width and height in place.
    pub fn transpose_mut(&mut self)
        ensures
            final(self).width == old(self).height,
            final(self).height == old(self).width,
    {
        let tmp = self.width;
        self.width = self.height;
        self.height = tmp;
    }
}

impl Add for Size2<i32> {
    type Output = Size2<i32>;

    fn add(self, other: Size2<i32>) -> (r: Size2<i32>) {
        Size2::new(self.width + other.width, self.height + other.height)
    }
}

impl vstd::std_specs::ops::AddSpecImpl for Size2<i32> {
    open spec fn obeys_add_spec() -> bool {
        true
    }

    open spec fn add_req(self, other: Size2<i32>) -> bool {
        &&& i32::MIN <= self.width + other.width <= i32::MAX
        &&& i32::MIN <= self.height + other.height <= i32::MAX
    }

    open spec fn add_spec(self, other: Size2<i32>) -> Size2<i32> {
        Size2 {
            width: (self.width + other.width) as i32,
            height: (self.height + other.height) as i32,
        }
    }
}

impl Sub for Size2<i32> {
    type Output = Size2<i32>;

    fn sub(self, other: Size2<i32>) -> (r: Size2<i32>) {
        Size2::new(self.width - other.width, self.height - other.height)
    }
}

impl vstd::std_specs::ops::SubSpecImpl for Size2<i32> {
    open spec fn obeys_sub_spec() -> bool {
        true
    }

    open spec fn sub_req(self, other: Size2<i32>) -> bool {
        &&& i32::MIN <= self.width - other.width <= i32::MAX
        &&& i32::MIN <= self.height - other.height <= i32::MAX
    }

    open spec fn sub_spec(self, other: Size2<i32>) -> Size2<i32> {
        Size2 {
            width: (self.width - other.width) as i32,
            height: (self.height - other.height) as i32,
        }
    }
}

/// A rectangle consisting of a point and size (x, y, width, height).
#[derive(Debug, Copy, Clone, PartialEq, Eq, Hash)]
pub struct Rect<N> {
    pub x: N,
    pub y: N,
    pub width: N,
    pub height: N,
}

impl<N> Rect<N> {
    pub fn new(x: N, y: N, width: N, height: N) -> (r: Self)
        ensures
            r.x == x,
            r.y == y,
            r.width == width,
            r.height == height,
    {
        Rect { x: x, y: y, width: width, height: height }
    }
}

impl Rect<i32> {
    /// The right and bottom edges fit in the coordinate type.
    pub open spec fn edges_fit(self) -> bool {
        &&& i32::MIN <= self.x + self.width <= i32::MAX
        &&& i32::MIN <= self.y + self.height <= i32::MAX
    }

    /// `pt` lies inside the rectangle: a point on the left or top edge is inside, one on the
    /// right or bottom edge is not.
    pub open spec fn spec_contains_pt(self, pt: Point2<i32>) -> bool {
        &&& pt.x >= self.x
        &&& pt.x < self.x + self.width
        &&& pt.y >= self.y
        &&& pt.y < self.y + self.height
    }

    /// `rect` lies inside the rectangle; its edges may coincide with this one's.
    pub open spec fn spec_contains_rect(self, rect: Rect<i32>) -> bool {
        &&& rect.x >= self.x
        &&& rect.x + rect.width <= self.x + self.width
        &&& rect.y >= self.y
        &&& rect.y + rect.height <= self.y + self.height
    }

    /// The rectangle covering the same area with a non-negative width and height.
    pub open spec fn spec_normalize(self) -> Rect<i32> {
        let (x, width) = if self.width < 0 {
            ((self.x + self.width) as i32, (-self.width) as i32)
        } else {
            (self.x, self.width)
        };
        let (y, height) = if self.height < 0 {
            ((self.y + self.height) as i32, (-self.height) as i32)
        } else {
            (self.y, self.height)
        };
        Rect { x, y, width, height }
    }

    /// The normalized rectangle is representable.
    pub open spec fn normalize_fits(self) -> bool {
        &&& self.edges_fit()
        &&& self.width != i32::MIN
        &&& self.height != i32::MIN
    }

    pub fn right(&self) -> (r: i32)
        requires
            i32::MIN <= self.x + self.width <= i32::MAX,
        ensures
            r == self.x + self.width,
    {
        self.x + self.width
    }

    pub fn bottom(&self) -> (r: i32)
        requires
            i32::MIN <= self.y + self.height <= i32::MAX,
        ensures
            r == self.y + self.height,
    {
        self.y + self.height
    }

    pub fn top_left(&self) -> (r: Point2<i32>)
        ensures
            r == (Point2 { x: self.x, y: self.y }),
    {
        Point2::new(self.x, self.y)
    }

    pub fn top_right(&self) -> (r: Point2<i32>)
        requires
            i32::MIN <= self.x + self.width <= i32::MAX,
        ensures
            r == (Point2 { x: (self.x + self.width) as i32, y: self.y }),
    {
        Point2::new(self.right(), self.y)
    }

    pub fn bottom_right(&self) -> (r: Point2<i32>)
        requires
            self.edges_fit(),
        ensures
            r == (Point2 { x: (self.x + self.width) as i32, y: (self.y + self.height) as i32 }),
    {
        Point2::new(self.right(), self.bottom())
    }

    pub fn bottom_left(&self) -> (r: Point2<i32>)
        requires
            i32::MIN <= self.y + self.height <= i32::MAX,
        ensures
            r == (Point2 { x: self.x, y: (self.y + self.height) as i32 }),
    {
        Point2::new(self.x, self.bottom())
    }

    pub fn size(&self) -> (r: Size2<i32>)
        ensures
            r == (Size2 { width: self.width, height: self.height }),
    {
        Size2::new(self.width, self.height)
    }

    /// Returns true if `pt` is inside this rectangle.
    ///
    /// A point is not treated like a zero-size rectangle: a point on the right edge is not in the
    /// rectangle, but if two rectangles' right edges are at the same location, one rectangle can
    /// still contain the other.
    pub fn contains_pt(&self, pt: Point2<i32>) -> (r: bool)
        requires
            self.width >= 0,
            self.height >= 0,
            self.edges_fit(),
        ensures
            r == self.spec_contains_pt(pt),
    {
        pt.x >= self.x && pt.x < self.right() && pt.y >= self.y && pt.y < self.bottom()
    }

    /// Returns true if `rect` is inside this rectangle.
    /// The rectangle's width and height must be positive.
    pub fn contains_rect(&self, rect: Rect<i32>) -> (r: bool)
        requires
            self.width >= 0,
            self.height >= 0,
            self.edges_fit(),
            rect.edges_fit(),
        ensures
            r == self.spec_contains_rect(rect),
    {
        rect.x >= self.x && rect.right() <= self.right() && rect.y >= self.y && rect.bottom()
            <= self.bottom()
    }

    /// Returns the rectangle that covers the same area as this one with a non-negative width and
    /// height.
    pub fn normalize(&self) -> (r: Rect<i32>)
        requires
            self.normalize_fits(),
        ensures
            r == self.spec_normalize(),
    {
        let (x, width) = if self.width < 0 {
            (self.x + self.width, -self.width)
        } else {
            (self.x, self.width)
        };
        let (y, height) = if self.height < 0 {
            (self.y + self.height, -self.height)
        } else {
            (self.y, self.height)
        };
        Rect::new(x, y, width, height)
    }
}

/// A border size stores a size for the left, top, right, and bottom edges of a rectangle.
#[derive(Debug, Copy, Clone, PartialEq, Eq, Hash)]
pub struct BorderSize2<N> {
    pub left: N,
    pub top: N,
    pub right: N,
    pub bottom: N,
}

impl<N> BorderSize2<N> {
    pub fn new(left: N, top: N, right: N, bottom: N) -> (r: Self)
        ensures
            r.left == left,
            r.top == top,
            r.right == right,
            r.bottom == bottom,
    {
        BorderSize2 { left: left, top: top, right: right, bottom: bottom }
    }
}

/// `x` lies in the range of `i32`.
pub open spec fn fits_i32(x: int) -> bool {
    i32::MIN <= x <= i32::MAX
}

impl Add<BorderSize2<i32>> for Rect<i32> {
    type Output = Rect<i32>;

    /// Adds the border size to the rectangle. A positive border size will enlarge the rectangle.
    fn add(self, other: BorderSize2<i32>) -> (r: Rect<i32>) {
        Rect::new(
            self.x - other.left,
            self.y - other.top,
            self.width + other.left + other.right,
            self.height + other.top + other.bottom,
        )
    }
}

impl vstd::std_specs::ops::AddSpecImpl<BorderSize2<i32>> for Rect<i32> {
    open spec fn obeys_add_spec() -> bool {
        true
    }

    open spec fn add_req(self, other: BorderSize2<i32>) -> bool {
        &&& fits_i32(self.x - other.left)
        &&& fits_i32(self.y - other.top)
        &&& fits_i32(self.width + other.left)
        &&& fits_i32(self.width + other.left + other.right)
        &&& fits_i32(self.height + other.top)
        &&& fits_i32(self.height + other.top + other.bottom)
    }

    open spec fn add_spec(self, other: BorderSize2<i32>) -> Rect<i32> {
        Rect {
            x: (self.x - other.left) as i32,
            y: (self.y - other.top) as i32,
            width: (self.width + other.left + other.right) as i32,
            height: (self.height + other.top + other.bottom) as i32,
        }
    }
}

impl Sub<BorderSize2<i32>> for Rect<i32> {
    type Output = Rect<i32>;

    /// Subtracts the border size from the rectangle. A positive border size will shrink the
    /// rectangle.
    fn sub(self, other: BorderSize2<i32>) -> (r: Rect<i32>) {
        Rect::new(
            self.x + other.left,
            self.y + other.top,
            self.width - other.left - other.right,
            self.height - other.top - other.bottom,
        )
    }
}

impl vstd::std_specs::ops::SubSpecImpl<BorderSize2<i32>> for Rect<i32> {
    open spec fn obeys_sub_spec() -> bool {
        true
    }

    open spec fn sub_req(self, other: BorderSize2<i32>) -> bool {
        &&& fits_i32(self.x + other.left)
        &&& fits_i32(self.y + other.top)
        &&& fits_i32(self.width - other.left)
        &&& fits_i32(self.width - other.left - other.right)
        &&& fits_i32(self.height - other.top)
        &&& fits_i32(self.height - other.top - other.bottom)
    }

    open spec fn sub_spec(self, other: BorderSize2<i32>) -> Rect<i32> {
        Rect {
            x: (self.x + other.left) as i32,
            y: (self.y + other.top) as i32,
            width: (self.width - other.left - other.right) as i32,
            height: (self.height - other.top - other.bottom) as i32,
        }
    }
}

impl Add for BorderSize2<i32> {
    type Output = BorderSize2<i32>;

    fn add(self, other: BorderSize2<i32>) -> (r: BorderSize2<i32>) {
        BorderSize2::new(
            self.left + other.left,
            self.top + other.top,
            self.right + other.right,
            self.bottom + other.bottom,
        )
    }
}

impl vstd::std_specs::ops::AddSpecImpl for BorderSize2<i32> {
    open spec fn obeys_add_spec() -> bool {
        true
    }

    open spec fn add_req(self, other: BorderSize2<i32>) -> bool {
        &&& fits_i32(self.left + other.left)
        &&& fits_i32(self.top + other.top)
        &&& fits_i32(self.right + other.right)
        &&& fits_i32(self.bottom + other.bottom)
    }

    open spec fn add_spec(self, other: BorderSize2<i32>) -> BorderSize2<i32> {
        BorderSize2 {
            left: (self.left + other.left) as i32,
            top: (self.top + other.top) as i32,
            right: (self.right + other.right) as i32,
            bottom: (self.bottom + other.bottom) as i32,
        }
    }
}

impl Sub for BorderSize2<i32> {
    type Output = BorderSize2<i32>;

    fn sub(self, other: BorderSize2<i32>) -> (r: BorderSize2<i32>) {
        BorderSize2::new(
            self.left - other.left,
            self.top - other.top,
            self.right - other.right,
            self.bottom - other.bottom,
        )
    }
}

impl vstd::std_specs::ops::SubSpecImpl for BorderSize2<i32> {
    open spec fn obeys_sub_spec() -> bool {
        true
    }

    open spec fn sub_req(self, other: BorderSize2<i32>) -> bool {
        &&& fits_i32(self.left - other.left)
        &&& fits_i32(self.top - other.top)
        &&& fits_i32(self.right - other.right)
        &&& fits_i32(self.bottom - other.bottom)
    }

    open spec fn sub_spec(self, other: BorderSize2<i32>) -> BorderSize2<i32> {
        BorderSize2 {
            left: (self.left - other.left) as i32,
            top: (self.top - other.top) as i32,
            right: (self.right - other.right) as i32,
            bottom: (self.bottom - other.bottom) as i32,
        }
    }
}

/// Transposing a size twice gives it back.
pub proof fn lemma_transpose_twice<N>(size: Size2<N>)
    ensures
        (Size2 { width: (Size2 { width: size.height, height: size.width }).height, height: (Size2 {
            width: size.height,
            height: size.width,
        }).width }) == size,
{
}

/// Subtracting a size that was added gives the first size back, and the other way round.
pub proof fn lemma_size_add_sub_inverse(a: Size2<i32>, b: Size2<i32>)
    requires
        a.add_req(b),
        a.add_spec(b).sub_req(b),
    ensures
        a.add_spec(b).sub_spec(b) == a,
{
}

/// Shrinking a rectangle by a border size it was grown by gives it back.
pub proof fn lemma_rect_border_add_sub_inverse(r: Rect<i32>, b: BorderSize2<i32>)
    requires
        r.add_req(b),
        r.add_spec(b).sub_req(b),
    ensures
        r.add_spec(b).sub_spec(b) == r,
{
}

/// Subtracting a border size that was added gives the first border size back.
pub proof fn lemma_border_add_sub_inverse(a: BorderSize2<i32>, b: BorderSize2<i32>)
    requires
        a.add_req(b),
        a.add_spec(b).sub_req(b),
    ensures
        a.add_spec(b).sub_spec(b) == a,
{
}

/// A normalized rectangle has a non-negative size, covers the same area as the rectangle, and
/// normalizing it again changes nothing.
pub proof fn lemma_normalize(r: Rect<i32>)
    requires
        r.normalize_fits(),
    ensures
        r.spec_normalize().width >= 0,
        r.spec_normalize().height >= 0,
        r.spec_normalize().normalize_fits(),
        r.spec_normalize().spec_normalize() == r.spec_normalize(),
        r.width >= 0 && r.height >= 0 ==> r.spec_normalize() == r,
        forall|p: Point2<i32>|
            #[trigger] r.spec_normalize().spec_contains_pt(p) <==> (if r.width >= 0 {
                r.x <= p.x < r.x + r.width
            } else {
                r.x + r.width <= p.x < r.x
            }) && (if r.height >= 0 {
                r.y <= p.y < r.y + r.height
            } else {
                r.y + r.height <= p.y < r.y
            }),
{
}

/// Every rectangle contains itself.
pub proof fn lemma_contains_rect_reflexive(r: Rect<i32>)
    ensures
        r.spec_contains_rect(r),
{
}

/// A rectangle inside a rectangle inside a third is inside the third.
pub proof fn lemma_contains_rect_transitive(a: Rect<i32>, b: Rect<i32>, c: Rect<i32>)
    requires
        a.spec_contains_rect(b),
        b.spec_contains_rect(c),
    ensures
        a.spec_contains_rect(c),
{
}

/// A point inside a rectangle that another rectangle contains is inside that one too.
pub proof fn lemma_contains_rect_contains_pt(outer: Rect<i32>, inner: Rect<i32>, p: Point2<i32>)
    requires
        outer.spec_contains_rect(inner),
        inner.spec_contains_pt(p),
    ensures
        outer.spec_contains_pt(p),
{
}


/// Containment is the four edge comparisons: the inner rectangle's left and top edges are not
/// before the outer one's, and its right and bottom edges are not past the outer one's. Edges may
/// coincide: a rectangle sharing its right (or bottom) edge with a larger one is inside it.
pub proof fn lemma_contains_rect_is_edge_comparisons(outer: Rect<i32>, inner: Rect<i32>)
    ensures
        outer.spec_contains_rect(inner) <==> (inner.x >= outer.x && inner.x + inner.width
            <= outer.x + outer.width && inner.y >= outer.y && inner.y + inner.height <= outer.y
            + outer.height),
        inner.x >= outer.x && inner.x + inner.width == outer.x + outer.width && inner.y >= outer.y
            && inner.y + inner.height <= outer.y + outer.height ==> outer.spec_contains_rect(inner),
{
}

/// A rectangle with area contains another with area exactly when every point of the other is
/// one of its points.
pub proof fn lemma_contains_rect_iff_contains_points(outer: Rect<i32>, inner: Rect<i32>)
    requires
        inner.width > 0,
        inner.height > 0,
        inner.edges_fit(),
    ensures
        outer.spec_contains_rect(inner) <==> forall|p: Point2<i32>|
            #[trigger] inner.spec_contains_pt(p) ==> outer.spec_contains_pt(p),
{
    if forall|p: Point2<i32>| #[trigger] inner.spec_contains_pt(p) ==> outer.spec_contains_pt(p) {
        let first = Point2 { x: inner.x, y: inner.y };
        let last = Point2 {
            x: (inner.x + inner.width - 1) as i32,
            y: (inner.y + inner.height - 1) as i32,
        };
        assert(inner.spec_contains_pt(first));
        assert(inner.spec_contains_pt(last));
    }
}


/// A point is inside a rectangle when it lies in the half-open spans `x..x + width` and
/// `y..y + height`: the top-left corner of a rectangle with area is inside it, and no point on
/// its right or bottom edge is.
pub proof fn lemma_contains_pt_is_half_open(r: Rect<i32>, p: Point2<i32>)
    ensures
        r.spec_contains_pt(p) <==> (r.x <= p.x < r.x + r.width && r.y <= p.y < r.y + r.height),
        r.width > 0 && r.height > 0 ==> r.spec_contains_pt(Point2 { x: r.x, y: r.y }),
        p.x == r.x + r.width || p.y == r.y + r.height ==> !r.spec_contains_pt(p),
{
}

} // verus!
