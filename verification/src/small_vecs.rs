//! The `smallvec` vectors that glyph runs keep their cluster maps and glyphs in, and what the
//! operations used on them do to their items.

use vstd::prelude::*;
use smallvec::SmallVec;

verus! {

/// A cluster map: for each code unit of a run's text, the index of the first glyph of its
/// cluster, kept inline up to 32 entries.
#[verifier::external_body]
#[derive(Debug)]
pub struct ClusterMap {
    items: SmallVec<[usize; 32]>,
}

/// The glyph indexes of a run, kept inline up to 32 glyphs.
#[verifier::external_body]
#[derive(Debug)]
pub struct GlyphList {
    items: SmallVec<[u16; 32]>,
}

impl Clone for ClusterMap {
    /// `SmallVec::clone`: a vector with copies of the items.
    #[verifier::external_body]
    fn clone(&self) -> (r: Self)
        ensures
            cluster_map_items(r) == cluster_map_items(*self),
    {
        ClusterMap { items: self.items.clone() }
    }
}

impl Clone for GlyphList {
    /// `SmallVec::clone`: a vector with copies of the items.
    #[verifier::external_body]
    fn clone(&self) -> (r: Self)
        ensures
            glyph_items(r) == glyph_items(*self),
    {
        GlyphList { items: self.items.clone() }
    }
}

/// A buffer of UTF-16 code units, kept inline up to 8 units.
#[verifier::external_body]
#[derive(Debug)]
pub struct WideBuffer {
    items: SmallVec<[u16; 8]>,
}

/// A buffer of bytes, kept inline up to 64 bytes.
#[verifier::external_body]
#[derive(Debug)]
pub struct ByteBuffer {
    items: SmallVec<[u8; 64]>,
}

impl Clone for WideBuffer {
    /// `SmallVec::clone`: a vector with copies of the items.
    #[verifier::external_body]
    fn clone(&self) -> (r: Self)
        ensures
            wide_buffer_items(r) == wide_buffer_items(*self),
    {
        WideBuffer { items: self.items.clone() }
    }
}

/// The code units of a wide buffer, in order.
pub uninterp spec fn wide_buffer_items(v: WideBuffer) -> Seq<u16>;

/// The bytes of a byte buffer, in order.
pub uninterp spec fn byte_buffer_items(v: ByteBuffer) -> Seq<u8>;

/// `SmallVec::new`: an empty vector.
#[verifier::external_body]
pub(crate) fn wide_buffer_new() -> (r: WideBuffer)
    ensures
        wide_buffer_items(r) == Seq::<u16>::empty(),
{
    WideBuffer { items: SmallVec::new() }
}

/// `SmallVec::push`: appends `x`.
#[verifier::external_body]
pub(crate) fn wide_buffer_push(v: &mut WideBuffer, x: u16)
    ensures
        wide_buffer_items(*final(v)) == wide_buffer_items(*old(v)).push(x),
{
    v.items.push(x);
}

/// `SmallVec::len`: the number of items.
#[verifier::external_body]
pub(crate) fn wide_buffer_len(v: &WideBuffer) -> (r: usize)
    ensures
        r == wide_buffer_items(*v).len(),
{
    v.items.len()
}

/// `SmallVec::as_slice`: the items as a slice.
#[verifier::external_body]
pub(crate) fn wide_buffer_as_slice(v: &WideBuffer) -> (r: &[u16])
    ensures
        r@ == wide_buffer_items(*v),
{
    v.items.as_slice()
}

/// `SmallVec::new`: an empty vector.
#[verifier::external_body]
pub(crate) fn byte_buffer_new() -> (r: ByteBuffer)
    ensures
        byte_buffer_items(r) == Seq::<u8>::empty(),
{
    ByteBuffer { items: SmallVec::new() }
}

/// `SmallVec::grow`: makes room for `new_cap` items without changing the items; it panics when
/// the capacity in bytes overflows, which a capacity up to `isize::MAX` bytes does not.
#[verifier::external_body]
pub(crate) fn byte_buffer_grow(v: &mut ByteBuffer, new_cap: usize)
    requires
        new_cap <= isize::MAX,
    ensures
        byte_buffer_items(*final(v)) == byte_buffer_items(*old(v)),
{
    v.items.grow(new_cap);
}

/// `SmallVec::push`: appends `x`.
#[verifier::external_body]
pub(crate) fn byte_buffer_push(v: &mut ByteBuffer, x: u8)
    ensures
        byte_buffer_items(*final(v)) == byte_buffer_items(*old(v)).push(x),
{
    v.items.push(x);
}

/// `SmallVec::as_slice`: the items as a slice.
#[verifier::external_body]
pub(crate) fn byte_buffer_as_slice(v: &ByteBuffer) -> (r: &[u8])
    ensures
        r@ == byte_buffer_items(*v),
{
    v.items.as_slice()
}

/// The entries of a cluster map, in order.
pub uninterp spec fn cluster_map_items(v: ClusterMap) -> Seq<usize>;

/// The glyph indexes of a glyph list, in order.
pub uninterp spec fn glyph_items(v: GlyphList) -> Seq<u16>;

/// `SmallVec::with_capacity`: an empty vector (with room for `n` items).
#[verifier::external_body]
pub(crate) fn cluster_map_with_capacity(n: usize) -> (r: ClusterMap)
    ensures
        cluster_map_items(r) == Seq::<usize>::empty(),
{
    ClusterMap { items: SmallVec::with_capacity(n) }
}

/// `SmallVec::len`: the number of items.
#[verifier::external_body]
pub(crate) fn cluster_map_len(v: &ClusterMap) -> (r: usize)
    ensures
        r == cluster_map_items(*v).len(),
{
    v.items.len()
}

/// Indexing (`SmallVec`'s `Index` by position, through its slice): the item at `i`; it panics
/// past the end.
#[verifier::external_body]
pub(crate) fn cluster_map_get(v: &ClusterMap, i: usize) -> (r: usize)
    requires
        i < cluster_map_items(*v).len(),
    ensures
        r == cluster_map_items(*v)[i as int],
{
    v.items[i]
}

/// Mutable indexing (`SmallVec`'s `IndexMut` by position): writes `x` at `i`; it panics past the
/// end.
#[verifier::external_body]
pub(crate) fn cluster_map_set(v: &mut ClusterMap, i: usize, x: usize)
    requires
        i < cluster_map_items(*old(v)).len(),
    ensures
        cluster_map_items(*final(v)) == cluster_map_items(*old(v)).update(i as int, x),
{
    v.items[i] = x;
}

/// `SmallVec::push`: appends `x`.
#[verifier::external_body]
pub(crate) fn cluster_map_push(v: &mut ClusterMap, x: usize)
    ensures
        cluster_map_items(*final(v)) == cluster_map_items(*old(v)).push(x),
{
    v.items.push(x);
}

/// Indexing by a range from `index` (`SmallVec`'s `Index` through its slice): the items from
/// `index` on; it panics past the end.
#[verifier::external_body]
pub(crate) fn cluster_map_tail(v: &ClusterMap, index: usize) -> (r: &[usize])
    requires
        index <= cluster_map_items(*v).len(),
    ensures
        r@ == cluster_map_items(*v).skip(index as int),
{
    &v.items[index..]
}

/// `SmallVec::from_slice`: a vector holding copies of the slice's items.
#[verifier::external_body]
pub(crate) fn cluster_map_from_slice(s: &[usize]) -> (r: ClusterMap)
    ensures
        cluster_map_items(r) == s@,
{
    ClusterMap { items: SmallVec::from_slice(s) }
}

/// `SmallVec::truncate`: keeps the first `len` items; a longer `len` changes nothing.
#[verifier::external_body]
pub(crate) fn cluster_map_truncate(v: &mut ClusterMap, len: usize)
    ensures
        len <= cluster_map_items(*old(v)).len() ==> cluster_map_items(*final(v)) == cluster_map_items(
            *old(v),
        ).take(len as int),
        len > cluster_map_items(*old(v)).len() ==> cluster_map_items(*final(v))
            == cluster_map_items(*old(v)),
{
    v.items.truncate(len);
}

/// Indexing (`SmallVec`'s `Index` by position, through its slice): the item at `i`; it panics
/// past the end.
#[verifier::external_body]
pub(crate) fn glyphs_get(v: &GlyphList, i: usize) -> (r: u16)
    requires
        i < glyph_items(*v).len(),
    ensures
        r == glyph_items(*v)[i as int],
{
    v.items[i]
}

/// `SmallVec::len`: the number of items.
#[verifier::external_body]
pub(crate) fn glyphs_len(v: &GlyphList) -> (r: usize)
    ensures
        r == glyph_items(*v).len(),
{
    v.items.len()
}

/// Indexing by a range from `index` (`SmallVec`'s `Index` through its slice): the items from
/// `index` on; it panics past the end.
#[verifier::external_body]
pub(crate) fn glyphs_tail(v: &GlyphList, index: usize) -> (r: &[u16])
    requires
        index <= glyph_items(*v).len(),
    ensures
        r@ == glyph_items(*v).skip(index as int),
{
    &v.items[index..]
}

/// `SmallVec::from_slice`: a vector holding copies of the slice's items.
#[verifier::external_body]
pub(crate) fn glyphs_from_slice(s: &[u16]) -> (r: GlyphList)
    ensures
        glyph_items(r) == s@,
{
    GlyphList { items: SmallVec::from_slice(s) }
}

/// `SmallVec::truncate`: keeps the first `len` items; a longer `len` changes nothing.
#[verifier::external_body]
pub(crate) fn glyphs_truncate(v: &mut GlyphList, len: usize)
    ensures
        len <= glyph_items(*old(v)).len() ==> glyph_items(*final(v)) == glyph_items(*old(v)).take(
            len as int,
        ),
        len > glyph_items(*old(v)).len() ==> glyph_items(*final(v)) == glyph_items(*old(v)),
{
    v.items.truncate(len);
}

impl ClusterMap {
    /// A cluster map with the entries of `s`.
    pub fn from_slice(s: &[usize]) -> (r: Self)
        ensures
            cluster_map_items(r) == s@,
    {
        cluster_map_from_slice(s)
    }

    pub fn len(&self) -> (r: usize)
        ensures
            r == cluster_map_items(*self).len(),
    {
        cluster_map_len(self)
    }

    /// The entries, in a `Vec`.
    pub fn to_vec(&self) -> (r: Vec<usize>)
        ensures
            r@ == cluster_map_items(*self),
    {
        let n = cluster_map_len(self);
        let mut r: Vec<usize> = Vec::new();
        let mut i: usize = 0;
        while i < n
            invariant
                n == cluster_map_items(*self).len(),
                i <= n,
                r@ == cluster_map_items(*self).take(i as int),
            decreases n - i,
        {
            r.push(cluster_map_get(self, i));
            i += 1;
            assert(r@ =~= cluster_map_items(*self).take(i as int));
        }
        assert(r@ =~= cluster_map_items(*self));
        r
    }
}

impl GlyphList {
    /// A glyph list with the glyphs of `s`.
    pub fn from_slice(s: &[u16]) -> (r: Self)
        ensures
            glyph_items(r) == s@,
    {
        glyphs_from_slice(s)
    }

    pub fn len(&self) -> (r: usize)
        ensures
            r == glyph_items(*self).len(),
    {
        glyphs_len(self)
    }

    /// The glyphs, in a `Vec`.
    pub fn to_vec(&self) -> (r: Vec<u16>)
        ensures
            r@ == glyph_items(*self),
    {
        let n = glyphs_len(self);
        let mut r: Vec<u16> = Vec::new();
        let mut i: usize = 0;
        while i < n
            invariant
                n == glyph_items(*self).len(),
                i <= n,
                r@ == glyph_items(*self).take(i as int),
            decreases n - i,
        {
            r.push(glyphs_get(self, i));
            i += 1;
            assert(r@ =~= glyph_items(*self).take(i as int));
        }
        assert(r@ =~= glyph_items(*self));
        r
    }
}

impl ByteBuffer {
    /// An empty buffer.
    pub fn new() -> (r: Self)
        ensures
            byte_buffer_items(r) == Seq::<u8>::empty(),
    {
        byte_buffer_new()
    }

    /// The bytes, as a slice.
    pub fn as_slice(&self) -> (r: &[u8])
        ensures
            r@ == byte_buffer_items(*self),
    {
        byte_buffer_as_slice(self)
    }
}

} // verus!
