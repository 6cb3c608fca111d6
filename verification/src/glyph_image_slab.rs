//! Slabs of glyph image memory, grouped into buckets by power-of-two image width.

use vstd::prelude::*;
use vstd::arithmetic::power2::{
    lemma2_to64, lemma_pow2_strictly_increases, lemma_pow2_unfold, pow2,
};
use std::rc::Rc;
use crate::font_backend::GlyphPainterBackend;

verus! {

/// A slab is this many times as high as it is wide.
pub const SLAB_HEIGHT_FACTOR: u32 = 16;

/// The base 2 logarithm of `x`, rounded down (`u32::ilog2`, which std documents to panic when
/// `x` is zero).
#[verifier::external_body]
fn u32_ilog2(x: u32) -> (r: u32)
    requires
        x > 0,
    ensures
        pow2(r as nat) <= x < pow2(r as nat + 1),
{
    x.ilog2()
}

/// Bucket `index` holds images of width `2^(index + 3)`. A width goes to the smallest bucket
/// whose images are at least that wide.
pub open spec fn is_bucket_for_width(index: nat, width: int) -> bool {
    &&& width <= pow2(index + 3)
    &&& index == 0 || pow2(index + 2) < width
}

/// A slab of glyph image memory, `width` wide, of which `allocated_height` rows are handed out in
/// `allocation_count` images.
#[derive(Debug)]
pub struct GlyphImageSlab {
    pub allocation_count: u32,
    pub allocated_height: u32,
    pub width: u32,
    pub height: u32,
}

impl GlyphImageSlab {
    /// An empty slab `width` wide and `SLAB_HEIGHT_FACTOR` times as high.
    pub fn new(width: u32) -> (r: Self)
        requires
            width * SLAB_HEIGHT_FACTOR <= u32::MAX,
        ensures
            r.allocation_count == 0,
            r.allocated_height == 0,
            r.width == width,
            r.height == width * SLAB_HEIGHT_FACTOR,
    {
        let height = width * SLAB_HEIGHT_FACTOR;
        GlyphImageSlab { allocation_count: 0, allocated_height: 0, width, height }
    }
}

/// The slabs whose images are `width` wide.
#[derive(Debug)]
pub struct GlyphImageFreeListBucket {
    pub width: u32,
    pub images: Vec<Rc<GlyphImageSlab>>,
}

impl GlyphImageFreeListBucket {
    pub fn new(width: u32) -> (r: Self)
        ensures
            r.width == width,
            r.images@.len() == 0,
    {
        GlyphImageFreeListBucket { width, images: Vec::new() }
    }
}

/// The buckets of glyph image slabs, by image width.
#[derive(Debug)]
pub struct GlyphImageFreeList(pub Vec<GlyphImageFreeListBucket>);

impl GlyphImageFreeList {
    pub fn new() -> (r: Self)
        ensures
            r.0@.len() == 0,
    {
        GlyphImageFreeList(Vec::new())
    }

    /// The index of the bucket for images `width` wide: the three smallest widths (1, 2 and 4)
    /// share the bucket of width 8.
    pub fn width_to_index(width: u32) -> (r: usize)
        ensures
            is_bucket_for_width(r as nat, width as int),
    {
        let w = if width < 8 {
            8
        } else {
            width
        };
        // Subtracting 1 from the width will always give one index too small, so then we can add 1.
        let log = u32_ilog2(w - 1);
        proof {
            lemma2_to64();
            if log < 2 {
                lemma_pow2_strictly_increases(log as nat + 1, 3);
            }
            if log > 32 {
                lemma_pow2_strictly_increases(32, log as nat);
            }
        }
        let index = log + 1;
        // Skip the three smallest widths: 1, 2, and 4.
        let r = index - 3;
        proof {
            assert(r as nat + 3 == log as nat + 1);
            assert(width <= w);
            if r > 0 {
                assert(r as nat + 2 == log as nat);
                if log > 3 {
                    lemma_pow2_strictly_increases(3, log as nat);
                }
                assert(w - 1 >= 8);
                assert(width == w);
            }
        }
        r as usize
    }

    /// The image width of bucket `index`.
    pub fn index_to_width(index: usize) -> (r: u32)
        requires
            index <= 28,
        ensures
            r == pow2(index as nat + 3),
    {
        let exponent: u32 = index as u32 + 3;
        let mut width: u32 = 1;
        let mut k: u32 = 0;
        proof {
            lemma2_to64();
        }
        while k < exponent
            invariant
                k <= exponent <= 31,
                width == pow2(k as nat),
                pow2(31) == 0x80000000,
            decreases exponent - k,
        {
            proof {
                lemma_pow2_unfold(k as nat + 1);
                if k + 1 < 31 {
                    lemma_pow2_strictly_increases(k as nat + 1, 31);
                }
            }
            width = width * 2;
            k += 1;
        }
        width
    }
}

/// Paints glyphs into images kept in slabs.
pub struct GlyphPainter {
    pub image_buckets: GlyphImageFreeList,
    pub backend: GlyphPainterBackend,
}

impl GlyphPainter {
    /// A painter with no glyph images yet.
    pub fn new() -> (r: Self)
        ensures
            r.image_buckets.0@.len() == 0,
    {
        GlyphPainter { image_buckets: GlyphImageFreeList::new(), backend: GlyphPainterBackend::new() }
    }
}

/// Each bucket is the bucket for its own image width.
pub proof fn lemma_bucket_width_maps_back(index: nat)
    ensures
        is_bucket_for_width(index, pow2(index + 3) as int),
{
    if index > 0 {
        lemma_pow2_strictly_increases(index + 2, index + 3);
    }
}

/// A width has one bucket.
pub proof fn lemma_bucket_for_width_unique(i: nat, j: nat, width: int)
    requires
        is_bucket_for_width(i, width),
        is_bucket_for_width(j, width),
    ensures
        i == j,
{
    if i < j {
        if i + 3 < j + 2 {
            lemma_pow2_strictly_increases(i + 3, j + 2);
        }
    } else if j < i {
        if j + 3 < i + 2 {
            lemma_pow2_strictly_increases(j + 3, i + 2);
        }
    }
}

} // verus!
