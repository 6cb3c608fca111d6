//! Runs of text that share a direction and script, and the glyphs shaped for them.

use vstd::prelude::*;
use core::ops::Range;
use crate::text_analyzer_backend::TextAnalyzerRunBackend;
use crate::small_vecs::{
    cluster_map_from_slice, cluster_map_get, cluster_map_items, cluster_map_len, cluster_map_set,
    cluster_map_tail, cluster_map_truncate, glyph_items, glyphs_from_slice, glyphs_tail,
    glyphs_truncate, ClusterMap, GlyphList,
};

verus! {

/// The direction in which the glyphs of a run are laid out.
#[derive(Debug, Clone, Copy, PartialEq, Eq, Structural)]
pub enum TextDirection {
    LeftToRight,
    RightToLeft,
}

/// A range of text (in UTF-8 offsets) with one direction and the backend's analysis of it.
#[derive(Debug)]
pub struct TextAnalyzerRun {
    pub text_range: Range<usize>,
    pub direction: TextDirection,
    pub backend: TextAnalyzerRunBackend,
}

impl Clone for TextAnalyzerRun {
    fn clone(&self) -> (r: Self)
        ensures
            r == *self,
    {
        TextAnalyzerRun {
            text_range: self.text_range.start..self.text_range.end,
            direction: self.direction,
            backend: self.backend,
        }
    }
}

impl TextAnalyzerRun {
    pub fn text_range(&self) -> (r: Range<usize>)
        ensures
            r == self.text_range,
    {
        self.text_range.start..self.text_range.end
    }

    pub fn direction(&self) -> (r: TextDirection)
        ensures
            r == self.direction,
    {
        self.direction
    }
}

/// The glyphs shaped for a range of text.
///
/// `cluster_map` maps each UTF-8 code unit of the text range to the index of the first glyph of
/// its cluster. Glyph advances and offsets are kept by the caller, indexed like `glyphs`.
#[derive(Debug)]
#[non_exhaustive]
pub struct TextAnalyzerGlyphRun {
    pub run: TextAnalyzerRun,
    pub text_range: Range<usize>,
    pub cluster_map: ClusterMap,
    pub glyphs: GlyphList,
}

impl TextAnalyzerGlyphRun {
    pub fn new(
        run: TextAnalyzerRun,
        text_range: Range<usize>,
        cluster_map: ClusterMap,
        glyphs: GlyphList,
    ) -> (r: Self)
        ensures
            r.run == run,
            r.text_range == text_range,
            r.cluster_map == cluster_map,
            r.glyphs == glyphs,
    {
        TextAnalyzerGlyphRun { run, text_range, cluster_map, glyphs }
    }

    /// Splits the run before the code unit `text_index` of its text: `self` keeps the text before
    /// it and the glyphs before its cluster's first glyph; the returned run gets the rest, with
    /// its cluster map counted from its own first glyph. The caller splits the glyph advances and
    /// offsets at `self.cluster_map[text_index]` too.
    pub fn split_off(&mut self, text_index: usize) -> (r: Self)
        requires
            text_index < cluster_map_items(old(self).cluster_map).len(),
            cluster_map_items(old(self).cluster_map)[text_index as int] <= glyph_items(
                old(self).glyphs,
            ).len(),
            forall|k: int|
                text_index <= k < cluster_map_items(old(self).cluster_map).len() ==> #[trigger] cluster_map_items(
                    old(self).cluster_map,
                )[k] >= cluster_map_items(old(self).cluster_map)[text_index as int],
        ensures
            ({
                let map = cluster_map_items(old(self).cluster_map);
                let glyphs = glyph_items(old(self).glyphs);
                let g = map[text_index as int] as int;
                &&& final(self).run == old(self).run
                &&& final(self).text_range == (0..text_index)
                &&& cluster_map_items(final(self).cluster_map) == map.take(text_index as int)
                &&& glyph_items(final(self).glyphs) == glyphs.take(g)
                &&& r.run == old(self).run
                &&& r.text_range == (text_index..old(self).text_range.end)
                &&& cluster_map_items(r.cluster_map) == map.skip(text_index as int).map_values(
                    |c: usize| (c - g) as usize,
                )
                &&& glyph_items(r.glyphs) == glyphs.skip(g)
            }),
    {
        let ghost old_map = cluster_map_items(self.cluster_map);
        let mut new_cluster_map = cluster_map_from_slice(cluster_map_tail(&self.cluster_map, text_index));
        cluster_map_truncate(&mut self.cluster_map, text_index);
        // The cluster map of a run starts at its first glyph.
        let glyph_split_index = cluster_map_get(&new_cluster_map, 0);
        let n = cluster_map_len(&new_cluster_map);
        let mut i: usize = 0;
        while i < n
            invariant
                0 <= i <= n,
                n == cluster_map_items(new_cluster_map).len(),
                n == old_map.len() - text_index,
                glyph_split_index == old_map[text_index as int],
                text_index < old_map.len(),
                forall|k: int|
                    text_index <= k < old_map.len() ==> #[trigger] old_map[k]
                        >= old_map[text_index as int],
                forall|k: int|
                    0 <= k < n ==> #[trigger] cluster_map_items(new_cluster_map)[k] == if k < i {
                        (old_map[text_index + k] - glyph_split_index) as usize
                    } else {
                        old_map[text_index + k]
                    },
            decreases n - i,
        {
            assert(old_map[text_index + i] >= old_map[text_index as int]);
            let c = cluster_map_get(&new_cluster_map, i) - glyph_split_index;
            cluster_map_set(&mut new_cluster_map, i, c);
            i += 1;
        }
        let new_text_range = text_index..self.text_range.end;
        self.text_range = 0..text_index;
        let new_glyphs = glyphs_from_slice(glyphs_tail(&self.glyphs, glyph_split_index));
        glyphs_truncate(&mut self.glyphs, glyph_split_index);
        let r = TextAnalyzerGlyphRun {
            run: self.run.clone(),
            text_range: new_text_range,
            cluster_map: new_cluster_map,
            glyphs: new_glyphs,
        };
        proof {
            assert(cluster_map_items(r.cluster_map) =~= old_map.skip(text_index as int).map_values(
                |c: usize| (c - glyph_split_index) as usize,
            ));
        }
        r
    }
}

} // verus!
