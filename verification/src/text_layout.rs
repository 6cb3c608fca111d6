//! Walking the glyphs of shaped runs in logical order, as text layout does.

use vstd::prelude::*;
use core::ops::Range;
use crate::text_analyzer::{TextAnalyzerGlyphRun, TextAnalyzerRun, TextDirection};
use crate::small_vecs::{cluster_map_get, cluster_map_items, cluster_map_len, glyph_items, glyphs_len};

verus! {

/// How the lines of a paragraph are aligned.
#[derive(Debug, Clone, Copy, PartialEq, Eq, Structural)]
pub enum TextAlignment {
    /// Left for left-to-right text and right for right-to-left text.
    Natural,
    Left,
    Center,
    Right,
    /// Text is expanded to fill the available space and is aligned to both edges. The last line
    /// of justified text is aligned naturally.
    Justify,
}

/// A glyph of a list of glyph runs.
#[derive(Debug, Clone, Copy, PartialEq, Eq, Structural)]
pub struct GlyphPosition {
    pub run_index: usize,
    /// The number of code units from the beginning of the current run.
    pub text_index: usize,
    /// Whether the glyph is the first glyph of a cluster. If not, `text_index` is that of an
    /// earlier glyph.
    pub is_cluster_start: bool,
    /// The number of glyphs from the beginning of the current run.
    pub glyph_index: usize,
}

impl Default for GlyphPosition {
    /// The first glyph of the first run.
    fn default() -> (r: Self)
        ensures
            r == (GlyphPosition {
                run_index: 0,
                text_index: 0,
                is_cluster_start: true,
                glyph_index: 0,
            }),
    {
        GlyphPosition { run_index: 0, text_index: 0, is_cluster_start: true, glyph_index: 0 }
    }
}

/// The first index at or after `from` whose cluster map entry is at least `glyph`, or the
/// length of the map when there is none.
pub open spec fn first_cluster_not_before(cluster_map: Seq<usize>, from: int, glyph: int) -> int
    decreases cluster_map.len() - from,
{
    if from >= cluster_map.len() {
        cluster_map.len() as int
    } else if cluster_map[from] >= glyph {
        from
    } else {
        first_cluster_not_before(cluster_map, from + 1, glyph)
    }
}

/// The position of the glyph after `pos`: the next glyph of the run, whose text index moves to
/// the first code unit (not before the current one) whose cluster starts there; or the first
/// glyph of the next run.
pub open spec fn next_position(pos: GlyphPosition, runs: Seq<TextAnalyzerGlyphRun>) -> GlyphPosition {
    let glyph = pos.glyph_index + 1;
    let run = runs[pos.run_index as int];
    if glyph >= glyph_items(run.glyphs).len() {
        GlyphPosition {
            run_index: (pos.run_index + 1) as usize,
            text_index: 0,
            is_cluster_start: true,
            glyph_index: 0,
        }
    } else {
        let cluster_map = cluster_map_items(run.cluster_map);
        let t = first_cluster_not_before(cluster_map, pos.text_index as int, glyph);
        if t < cluster_map.len() && cluster_map[t] == glyph {
            GlyphPosition {
                run_index: pos.run_index,
                text_index: t as usize,
                is_cluster_start: true,
                glyph_index: glyph as usize,
            }
        } else {
            GlyphPosition {
                run_index: pos.run_index,
                text_index: pos.text_index,
                is_cluster_start: false,
                glyph_index: glyph as usize,
            }
        }
    }
}

/// Iterates over the glyphs of a list of glyph runs, one glyph at a time.
#[derive(Debug, Clone, Copy, PartialEq, Eq, Structural)]
pub struct GlyphIter {
    pub pos: GlyphPosition,
}

impl GlyphIter {
    /// An iterator at the first glyph of the first run.
    pub fn new() -> (r: Self)
        ensures
            r.pos == (GlyphPosition {
                run_index: 0,
                text_index: 0,
                is_cluster_start: true,
                glyph_index: 0,
            }),
    {
        GlyphIter { pos: GlyphPosition::default() }
    }

    /// Returns the current position and moves to the next glyph, or returns `None` once past the
    /// last run.
    pub fn next(&mut self, runs: &[TextAnalyzerGlyphRun]) -> (r: Option<GlyphPosition>)
        requires
            old(self).pos.run_index < runs@.len() ==> old(self).pos.glyph_index < usize::MAX,
        ensures
            old(self).pos.run_index >= runs@.len() ==> r is None && *final(self) == *old(self),
            old(self).pos.run_index < runs@.len() ==> r == Some(old(self).pos) && final(self).pos
                == next_position(old(self).pos, runs@),
    {
        let ret = self.pos;
        if ret.run_index >= runs.len() {
            return None;
        }
        let glyph = self.pos.glyph_index + 1;
        self.pos.glyph_index = glyph;
        // Default to false, but then set to true any time the text index is increased.
        self.pos.is_cluster_start = false;
        let run = &runs[self.pos.run_index];
        if glyph >= glyphs_len(&run.glyphs) {
            self.pos.run_index += 1;
            self.pos.glyph_index = 0;
            self.pos.text_index = 0;
            self.pos.is_cluster_start = true;
        } else {
            // Find whether the text index moves forward or the new glyph is still part of the
            // same cluster of glyphs.
            let ghost cluster_map = cluster_map_items(run.cluster_map);
            let ghost from = ret.text_index as int;
            let mut test_text_index = ret.text_index;
            let map_len = cluster_map_len(&run.cluster_map);
            while test_text_index < map_len && cluster_map_get(&run.cluster_map, test_text_index)
                < glyph
                invariant
                    cluster_map == cluster_map_items(run.cluster_map),
                    map_len == cluster_map.len(),
                    from <= test_text_index,
                    first_cluster_not_before(cluster_map, from, glyph as int)
                        == first_cluster_not_before(cluster_map, test_text_index as int, glyph as int),
                decreases map_len - test_text_index,
            {
                test_text_index += 1;
            }
            if test_text_index < map_len && cluster_map_get(&run.cluster_map, test_text_index) == glyph {
                self.pos.text_index = test_text_index;
                self.pos.is_cluster_start = true;
            }
        }
        Some(ret)
    }

    /// Moves the iterator to `pos`.
    pub fn reset(&mut self, pos: GlyphPosition)
        ensures
            final(self).pos == pos,
    {
        self.pos = pos;
    }
}

/// `first_cluster_not_before` is the first index from `from` on whose entry reaches `glyph`.
pub proof fn lemma_first_cluster_not_before(cluster_map: Seq<usize>, from: int, glyph: int)
    requires
        0 <= from <= cluster_map.len(),
    ensures
        from <= first_cluster_not_before(cluster_map, from, glyph) <= cluster_map.len(),
        forall|k: int|
            from <= k < first_cluster_not_before(cluster_map, from, glyph) ==> #[trigger] cluster_map[k]
                < glyph,
        first_cluster_not_before(cluster_map, from, glyph) < cluster_map.len() ==> cluster_map[first_cluster_not_before(
            cluster_map,
            from,
            glyph,
        )] >= glyph,
    decreases cluster_map.len() - from,
{
    if from < cluster_map.len() && cluster_map[from] < glyph {
        lemma_first_cluster_not_before(cluster_map, from + 1, glyph);
    }
}

/// The number of glyphs in the runs before run `run_index`.
pub open spec fn glyphs_before(runs: Seq<TextAnalyzerGlyphRun>, run_index: int) -> int
    decreases run_index,
{
    if run_index <= 0 {
        0
    } else {
        glyphs_before(runs, run_index - 1) + glyph_items(runs[run_index - 1].glyphs).len()
    }
}

/// The rank of the glyph at `pos` among the glyphs of all runs, in order.
pub open spec fn glyph_rank(runs: Seq<TextAnalyzerGlyphRun>, pos: GlyphPosition) -> int {
    glyphs_before(runs, pos.run_index as int) + pos.glyph_index
}

/// `pos` is a glyph of one of the runs.
pub open spec fn is_glyph_of(runs: Seq<TextAnalyzerGlyphRun>, pos: GlyphPosition) -> bool {
    &&& pos.run_index < runs.len()
    &&& pos.glyph_index < glyph_items(runs[pos.run_index as int].glyphs).len()
}

/// From a glyph, the iterator moves to the glyph ranked next. So, starting at the first glyph,
/// it visits every glyph of every run once, in order; after the last glyph of the last run it is
/// past the last run, at rank equal to the number of glyphs, and yields no more positions.
/// When no run is empty, every position it moves to before that is a glyph.
pub proof fn lemma_glyph_iter_visits_glyphs_in_order(
    runs: Seq<TextAnalyzerGlyphRun>,
    pos: GlyphPosition,
)
    requires
        is_glyph_of(runs, pos),
        runs.len() <= usize::MAX,
        glyph_items(runs[pos.run_index as int].glyphs).len() <= usize::MAX,
    ensures
        glyph_rank(runs, next_position(pos, runs)) == glyph_rank(runs, pos) + 1,
        next_position(pos, runs).run_index <= runs.len(),
        next_position(pos, runs).run_index == runs.len() ==> next_position(pos, runs).glyph_index
            == 0 && glyph_rank(runs, next_position(pos, runs)) == glyphs_before(
            runs,
            runs.len() as int,
        ),
        (forall|r: int| 0 <= r < runs.len() ==> glyph_items(#[trigger] runs[r].glyphs).len() > 0) ==> (
        next_position(pos, runs).run_index < runs.len() ==> is_glyph_of(
            runs,
            next_position(pos, runs),
        )),
{
    let n = next_position(pos, runs);
    if pos.glyph_index + 1 >= glyph_items(runs[pos.run_index as int].glyphs).len() {
        assert(glyphs_before(runs, pos.run_index + 1) == glyphs_before(runs, pos.run_index as int)
            + glyph_items(runs[pos.run_index as int].glyphs).len());
    }
}

/// With a nondecreasing cluster map whose entry at the current text index is at most the
/// current glyph, the next glyph of the same run starts a cluster exactly when some code unit's
/// cluster begins at it; its text index is then the first such code unit, and otherwise stays.
/// The next position again has a cluster map entry at most its glyph.
pub proof fn lemma_glyph_iter_finds_cluster_starts(
    runs: Seq<TextAnalyzerGlyphRun>,
    pos: GlyphPosition,
)
    requires
        pos.run_index < runs.len(),
        pos.glyph_index + 1 < glyph_items(runs[pos.run_index as int].glyphs).len(),
        forall|a: int, b: int|
            0 <= a <= b < cluster_map_items(runs[pos.run_index as int].cluster_map).len() ==> #[trigger] cluster_map_items(runs[pos.run_index as int].cluster_map)[a]
                <= #[trigger] cluster_map_items(runs[pos.run_index as int].cluster_map)[b],
        cluster_map_items(runs[pos.run_index as int].cluster_map).len() <= usize::MAX,
        glyph_items(runs[pos.run_index as int].glyphs).len() <= usize::MAX,
        pos.text_index < cluster_map_items(runs[pos.run_index as int].cluster_map).len(),
        cluster_map_items(runs[pos.run_index as int].cluster_map)[pos.text_index as int] <= pos.glyph_index,
    ensures
        ({
            let cluster_map = cluster_map_items(runs[pos.run_index as int].cluster_map);
            let n = next_position(pos, runs);
            &&& n.run_index == pos.run_index
            &&& n.glyph_index == pos.glyph_index + 1
            &&& n.is_cluster_start <==> exists|t: int|
                0 <= t < cluster_map.len() && cluster_map[t] == n.glyph_index
            &&& n.is_cluster_start ==> cluster_map[n.text_index as int] == n.glyph_index
                && forall|t: int| 0 <= t < n.text_index ==> #[trigger] cluster_map[t] < n.glyph_index
            &&& !n.is_cluster_start ==> n.text_index == pos.text_index
            &&& n.text_index < cluster_map.len()
            &&& cluster_map[n.text_index as int] <= n.glyph_index
        }),
{
    let cluster_map = cluster_map_items(runs[pos.run_index as int].cluster_map);
    let glyph = pos.glyph_index + 1;
    let from = pos.text_index as int;
    lemma_first_cluster_not_before(cluster_map, from, glyph);
    let t = first_cluster_not_before(cluster_map, from, glyph);
    let n = next_position(pos, runs);
    if exists|u: int| 0 <= u < cluster_map.len() && cluster_map[u] == glyph {
        let u = choose|u: int| 0 <= u < cluster_map.len() && cluster_map[u] == glyph;
        if u < from {
            assert(cluster_map[u] <= cluster_map[from]);
        }
        if t < u {
            assert(cluster_map[t] <= cluster_map[u]);
        }
        if u < t {
            assert(cluster_map[u] < glyph);
        }
        assert forall|k: int| 0 <= k < t implies #[trigger] cluster_map[k] < glyph by {
            if k < from {
                assert(cluster_map[k] <= cluster_map[from]);
            }
        }
    }
}

/// The position a fresh iterator stands at after `n` steps over `runs`.
pub open spec fn iter_position(runs: Seq<TextAnalyzerGlyphRun>, n: nat) -> GlyphPosition
    decreases n,
{
    if n == 0 {
        GlyphPosition { run_index: 0, text_index: 0, is_cluster_start: true, glyph_index: 0 }
    } else {
        next_position(iter_position(runs, (n - 1) as nat), runs)
    }
}

/// Every run has at least one glyph, and the sizes fit in `usize`.
pub open spec fn runs_have_glyphs(runs: Seq<TextAnalyzerGlyphRun>) -> bool {
    &&& runs.len() <= usize::MAX
    &&& forall|r: int|
        0 <= r < runs.len() ==> 0 < glyph_items(#[trigger] runs[r].glyphs).len() <= usize::MAX
}

/// Each cluster map starts at glyph 0, never decreases, and its length fits in `usize`.
pub open spec fn cluster_maps_ordered(runs: Seq<TextAnalyzerGlyphRun>) -> bool {
    forall|r: int|
        0 <= r < runs.len() ==> {
            let cm = cluster_map_items(#[trigger] runs[r].cluster_map);
            &&& 0 < cm.len() <= usize::MAX
            &&& cm[0] == 0
            &&& forall|a: int, b: int| 0 <= a <= b < cm.len() ==> #[trigger] cm[a] <= #[trigger] cm[b]
        }
}

/// The glyph counts before a run grow with the run index.
proof fn lemma_glyphs_before_monotone(runs: Seq<TextAnalyzerGlyphRun>, i: int, j: int)
    requires
        0 <= i <= j,
    ensures
        glyphs_before(runs, i) <= glyphs_before(runs, j),
    decreases j - i,
{
    if i < j {
        lemma_glyphs_before_monotone(runs, i, j - 1);
    }
}

/// A fresh iterator over runs that all have glyphs visits every glyph of every run exactly once,
/// in order: after `n` steps, for each `n` below the number of glyphs, it stands at the glyph
/// ranked `n` (run `run_index`, glyph `n` minus the glyphs of the earlier runs). After as many
/// steps as there are glyphs it stands past the last run, where `next` yields `None` and leaves
/// it unchanged.
pub proof fn lemma_glyph_iter_whole_iteration(runs: Seq<TextAnalyzerGlyphRun>, n: nat)
    requires
        runs_have_glyphs(runs),
        n <= glyphs_before(runs, runs.len() as int),
    ensures
        n < glyphs_before(runs, runs.len() as int) ==> {
            let p = iter_position(runs, n);
            &&& is_glyph_of(runs, p)
            &&& glyph_rank(runs, p) == n
            &&& glyphs_before(runs, p.run_index as int) <= n < glyphs_before(
                runs,
                p.run_index + 1,
            )
            &&& p.glyph_index == n - glyphs_before(runs, p.run_index as int)
        },
        n == glyphs_before(runs, runs.len() as int) ==> iter_position(runs, n).run_index
            == runs.len() && iter_position(runs, n).glyph_index == 0,
    decreases n,
{
    let total = glyphs_before(runs, runs.len() as int);
    if n == 0 {
        if runs.len() > 0 {
            lemma_glyphs_before_monotone(runs, 1, runs.len() as int);
            assert(glyph_items(runs[0].glyphs).len() > 0);
        }
    } else {
        lemma_glyph_iter_whole_iteration(runs, (n - 1) as nat);
        let prev = iter_position(runs, (n - 1) as nat);
        lemma_glyph_iter_visits_glyphs_in_order(runs, prev);
        let p = iter_position(runs, n);
        assert(p == next_position(prev, runs));
        if p.run_index < runs.len() {
            lemma_glyphs_before_monotone(runs, p.run_index + 1, runs.len() as int);
            assert(glyphs_before(runs, p.run_index + 1) == glyphs_before(runs, p.run_index as int)
                + glyph_items(runs[p.run_index as int].glyphs).len());
        }
    }
}

/// Over runs whose cluster maps start at 0 and never decrease, a fresh iterator marks a glyph as
/// a cluster start exactly when some code unit's cluster begins at it; its text index is then
/// the first such code unit, and otherwise the text index of the glyph before it in the same
/// run.
pub proof fn lemma_glyph_iter_cluster_rule(runs: Seq<TextAnalyzerGlyphRun>, n: nat)
    requires
        runs_have_glyphs(runs),
        cluster_maps_ordered(runs),
        n < glyphs_before(runs, runs.len() as int),
    ensures
        ({
            let p = iter_position(runs, n);
            let cm = cluster_map_items(runs[p.run_index as int].cluster_map);
            &&& p.text_index < cm.len()
            &&& cm[p.text_index as int] <= p.glyph_index
            &&& p.is_cluster_start <==> exists|t: int| 0 <= t < cm.len() && cm[t] == p.glyph_index
            &&& p.is_cluster_start ==> cm[p.text_index as int] == p.glyph_index && forall|t: int|
                0 <= t < p.text_index ==> #[trigger] cm[t] < p.glyph_index
            &&& !p.is_cluster_start ==> n > 0 && iter_position(runs, (n - 1) as nat).run_index
                == p.run_index && iter_position(runs, (n - 1) as nat).text_index == p.text_index
        }),
    decreases n,
{
    lemma_glyph_iter_whole_iteration(runs, n);
    let p = iter_position(runs, n);
    let cm = cluster_map_items(runs[p.run_index as int].cluster_map);
    if n == 0 {
        assert(cm[0] == 0);
    } else {
        lemma_glyph_iter_cluster_rule(runs, (n - 1) as nat);
        lemma_glyph_iter_whole_iteration(runs, (n - 1) as nat);
        let prev = iter_position(runs, (n - 1) as nat);
        assert(p == next_position(prev, runs));
        if prev.glyph_index + 1 < glyph_items(runs[prev.run_index as int].glyphs).len() {
            assert(cluster_maps_ordered(runs));
            let pcm = cluster_map_items(runs[prev.run_index as int].cluster_map);
            assert(forall|a: int, b: int|
                0 <= a <= b < pcm.len() ==> #[trigger] pcm[a] <= #[trigger] pcm[b]);
            lemma_glyph_iter_finds_cluster_starts(runs, prev);
        } else {
            assert(p.run_index == prev.run_index + 1);
            assert(cm[0] == 0);
        }
    }
}

/// All entries before position `i` are below `x`, and the entry at `i` (if any) is not.
pub open spec fn splits_below(indexes: Seq<usize>, x: int, i: int) -> bool {
    &&& 0 <= i <= indexes.len()
    &&& forall|j: int| 0 <= j < i ==> #[trigger] indexes[j] < x
    &&& i < indexes.len() ==> indexes[i] >= x
}

/// The number of entries of the increasing sequence `indexes` that are below `x`: the position of
/// the first entry at or past `x`.
pub open spec fn count_below(indexes: Seq<usize>, x: int) -> int {
    choose|i: int| splits_below(indexes, x, i)
}

/// `indexes` increases strictly.
#[verifier::opaque]
pub open spec fn strictly_increasing(indexes: Seq<usize>) -> bool {
    forall|a: int, b: int| 0 <= a < b < indexes.len() ==> #[trigger] indexes[a] < #[trigger] indexes[b]
}

/// Entries of an increasing sequence keep the order of their positions.
proof fn lemma_increasing(indexes: Seq<usize>, a: int, b: int)
    requires
        strictly_increasing(indexes),
        0 <= a < b < indexes.len(),
    ensures
        indexes[a] < indexes[b],
{
    reveal(strictly_increasing);
}

/// `count_below` has its defining property.
proof fn lemma_count_below_exists(indexes: Seq<usize>, x: int)
    ensures
        0 <= count_below(indexes, x) <= indexes.len(),
        forall|j: int| 0 <= j < count_below(indexes, x) ==> #[trigger] indexes[j] < x,
        count_below(indexes, x) < indexes.len() ==> indexes[count_below(indexes, x)] >= x,
{
    let w = first_at_least(indexes, x, 0);
    assert(splits_below(indexes, x, w));
}

/// The first position from `i` on whose entry is at or past `x`.
proof fn first_at_least(indexes: Seq<usize>, x: int, i: int) -> (w: int)
    requires
        0 <= i <= indexes.len(),
        forall|j: int| 0 <= j < i ==> #[trigger] indexes[j] < x,
    ensures
        i <= w <= indexes.len(),
        forall|j: int| 0 <= j < w ==> #[trigger] indexes[j] < x,
        w < indexes.len() ==> indexes[w] >= x,
    decreases indexes.len() - i,
{
    if i == indexes.len() || indexes[i] >= x {
        i
    } else {
        first_at_least(indexes, x, i + 1)
    }
}

/// `count_below` is the position of the first entry at or past `x`; for an increasing sequence,
/// that is any position before which all entries are below `x` and at which the entry is not.
proof fn lemma_count_below(indexes: Seq<usize>, x: int, i: int)
    requires
        strictly_increasing(indexes),
        0 <= i <= indexes.len(),
        forall|j: int| 0 <= j < i ==> #[trigger] indexes[j] < x,
        i < indexes.len() ==> indexes[i] >= x,
    ensures
        count_below(indexes, x) == i,
{
    lemma_count_below_exists(indexes, x);
    let c = count_below(indexes, x);
    if c < i {
        assert(indexes[c] < x);
    }
    if i < c {
        assert(indexes[i] < x);
    }
}

/// The pieces of the run `run_index`, from `start` to `end`, split at each entry of `cuts`.
pub open spec fn run_pieces(run_index: usize, start: usize, end: usize, cuts: Seq<usize>) -> Seq<
    (usize, Range<usize>),
> {
    Seq::new(
        cuts.len() + 1,
        |i: int|
            (
                run_index,
                (if i == 0 {
                    start
                } else {
                    cuts[i - 1]
                })..(if i == cuts.len() {
                    end
                } else {
                    cuts[i]
                }),
            ),
    )
}

/// The format change indexes strictly inside `start..end`.
pub open spec fn cuts_inside(indexes: Seq<usize>, start: usize, end: usize) -> Seq<usize> {
    if start < end {
        indexes.subrange(count_below(indexes, start + 1), count_below(indexes, end as int))
    } else {
        Seq::empty()
    }
}

/// The pieces of the first `k` runs: each run split at the format change indexes strictly
/// inside it.
pub open spec fn pieces_of_runs(runs: Seq<TextAnalyzerRun>, indexes: Seq<usize>, k: int) -> Seq<
    (usize, Range<usize>),
>
    decreases k,
{
    if k <= 0 {
        Seq::empty()
    } else {
        let run = runs[k - 1];
        pieces_of_runs(runs, indexes, k - 1) + run_pieces(
            (k - 1) as usize,
            run.text_range.start,
            run.text_range.end,
            cuts_inside(indexes, run.text_range.start, run.text_range.end),
        )
    }
}

/// Appends the pieces of run `k`, `start..end`, split at the format change indexes inside it;
/// `f` moves past the indexes below `end` (and past one at `start`).
fn push_run_pieces(
    result: &mut Vec<(usize, Range<usize>)>,
    k: usize,
    start: usize,
    end: usize,
    format_indexes: &[usize],
    f: &mut usize,
)
    requires
        strictly_increasing(format_indexes@),
        start <= end,
        *old(f) == count_below(format_indexes@, start as int),
    ensures
        final(result)@ == old(result)@ + run_pieces(
            k,
            start,
            end,
            cuts_inside(format_indexes@, start, end),
        ),
        start < end ==> *final(f) == count_below(format_indexes@, end as int),
{
    let ghost before = result@;
    let ghost indexes = format_indexes@;
    proof {
        lemma_count_below_exists(indexes, start as int);
    }
    // A format change at the start of the run does not split it.
    if *f < format_indexes.len() && format_indexes[*f] == start {
        *f = *f + 1;
    }
    proof {
        if *f < indexes.len() && *f > 0 {
            lemma_increasing(indexes, *f - 1, *f as int);
        }
        lemma_count_below(indexes, start + 1, *f as int);
        lemma_count_below_exists(indexes, end as int);
        if start < end && count_below(indexes, end as int) < *f {
            let c = count_below(indexes, end as int);
            assert(indexes[c] < start + 1);
        }
    }
    let ghost first: int = *f as int;
    let ghost last: int = if start < end {
        count_below(indexes, end as int)
    } else {
        first
    };
    let mut text_start = start;
    while *f < format_indexes.len() && format_indexes[*f] < end
        invariant
            indexes == format_indexes@,
            strictly_increasing(indexes),
            start <= text_start <= end,
            first == count_below(indexes, start + 1),
            0 <= first <= *f <= indexes.len(),
            forall|j: int| 0 <= j < first ==> #[trigger] indexes[j] < start + 1,
            first < indexes.len() ==> indexes[first] >= start + 1,
            forall|j: int| first <= j < *f ==> #[trigger] indexes[j] < end,
            *f > first ==> text_start == indexes[*f - 1],
            *f == first ==> text_start == start,
            0 <= last <= indexes.len(),
            start < end ==> last == count_below(indexes, end as int),
            start < end ==> forall|j: int| 0 <= j < last ==> #[trigger] indexes[j] < end,
            start < end && last < indexes.len() ==> indexes[last] >= end,
            start >= end ==> last == first,
            *f <= last,
            result@ == before + run_pieces(k, start, end, indexes.subrange(first, last)).take(
                *f - first,
            ),
        decreases indexes.len() - *f,
    {
        let e = format_indexes[*f];
        let ghost m = *f - first;
        proof {
            lemma_next_piece(indexes, start, end, first, last, *f as int, text_start);
            lemma_push_piece(before, k, start, end, indexes.subrange(first, last), m);
        }
        *f = *f + 1;
        result.push((k, text_start..e));
        text_start = e;
    }
    proof {
        if start < end {
            assert forall|j: int| 0 <= j < *f implies #[trigger] indexes[j] < end by {
                if j < first {
                    assert(indexes[j] < start + 1);
                }
            }
            lemma_count_below(indexes, end as int, *f as int);
        } else if first < indexes.len() {
            assert(indexes[first] >= start + 1);
        }
        assert(*f == last);
    }
    result.push((k, text_start..end));
    proof {
        let cuts = indexes.subrange(first, last);
        assert(cuts_inside(indexes, start, end) =~= cuts);
        assert(result@ =~= before + run_pieces(k, start, end, cuts));
    }
}

/// Appending the next piece of a run to the pieces so far gives one more piece of the run.
proof fn lemma_push_piece(
    before: Seq<(usize, Range<usize>)>,
    k: usize,
    start: usize,
    end: usize,
    cuts: Seq<usize>,
    m: int,
)
    requires
        0 <= m < cuts.len(),
    ensures
        (before + run_pieces(k, start, end, cuts).take(m)).push(
            (
                k,
                (if m == 0 {
                    start
                } else {
                    cuts[m - 1]
                })..cuts[m],
            ),
        ) == before + run_pieces(k, start, end, cuts).take(m + 1),
{
    assert((before + run_pieces(k, start, end, cuts).take(m)).push(
        (
            k,
            (if m == 0 {
                start
            } else {
                cuts[m - 1]
            })..cuts[m],
        ),
    ) =~= before + run_pieces(k, start, end, cuts).take(m + 1));
}

/// The next format change inside the run is one of the cuts, after the piece start.
proof fn lemma_next_piece(
    indexes: Seq<usize>,
    start: usize,
    end: usize,
    first: int,
    last: int,
    f: int,
    text_start: usize,
)
    requires
        strictly_increasing(indexes),
        0 <= first <= f < indexes.len(),
        indexes[f] < end,
        f > first ==> text_start == indexes[f - 1],
        f == first ==> text_start == start,
        first < indexes.len() ==> indexes[first] >= start + 1,
        0 <= last <= indexes.len(),
        start < end ==> forall|j: int| 0 <= j < last ==> #[trigger] indexes[j] < end,
        start < end && last < indexes.len() ==> indexes[last] >= end,
        start >= end ==> last == first,
        f <= last,
    ensures
        start < end,
        f < last,
        text_start < indexes[f],
{
    if f > first {
        lemma_increasing(indexes, f - 1, f);
    }
    if first < f {
        lemma_increasing(indexes, first, f);
    }
    if last == f {
        assert(start < end);
    }
}

/// The alignment that natural alignment stands for: left when the first run goes left to right
/// or there is no run, right when it goes right to left.
pub open spec fn spec_resolved_alignment(
    alignment: TextAlignment,
    runs: Seq<TextAnalyzerRun>,
) -> TextAlignment {
    if alignment != TextAlignment::Natural {
        alignment
    } else if runs.len() > 0 && runs[0].direction == TextDirection::RightToLeft {
        TextAlignment::Right
    } else {
        TextAlignment::Left
    }
}

/// The alignment to lay out lines with: `alignment` itself, unless it is natural, which follows
/// the direction of the first run.
pub fn resolved_alignment(alignment: TextAlignment, runs: &[TextAnalyzerRun]) -> (r: TextAlignment)
    ensures
        r == spec_resolved_alignment(alignment, runs@),
        r != TextAlignment::Natural,
{
    match alignment {
        TextAlignment::Natural => {
            if runs.len() > 0 {
                match runs[0].direction {
                    TextDirection::LeftToRight => TextAlignment::Left,
                    TextDirection::RightToLeft => TextAlignment::Right,
                }
            } else {
                TextAlignment::Left
            }
        },
        other => other,
    }
}

/// Resolving keeps every alignment other than natural as it is. Natural becomes left or right
/// (never center or justify), right exactly when there is a first run and it goes right to left;
/// so it depends on the first run's direction alone.
pub proof fn lemma_resolved_alignment(
    alignment: TextAlignment,
    runs: Seq<TextAnalyzerRun>,
    other_runs: Seq<TextAnalyzerRun>,
)
    ensures
        alignment != TextAlignment::Natural ==> spec_resolved_alignment(alignment, runs)
            == alignment,
        spec_resolved_alignment(TextAlignment::Natural, runs) == TextAlignment::Left
            || spec_resolved_alignment(TextAlignment::Natural, runs) == TextAlignment::Right,
        spec_resolved_alignment(TextAlignment::Natural, runs) == TextAlignment::Right <==> (
        runs.len() > 0 && runs[0].direction == TextDirection::RightToLeft),
        runs.len() > 0 && other_runs.len() > 0 && runs[0].direction == other_runs[0].direction
            ==> spec_resolved_alignment(alignment, runs) == spec_resolved_alignment(
            alignment,
            other_runs,
        ),
{
}

/// The ranges of text to shape separately, with the index of the run each lies in: each analyzer
/// run, split where the formatting changes. `format_indexes` are the text indexes where the
/// formatting changes, in increasing order; one at the start of a run does not split it.
pub fn format_run_pieces(runs: &[TextAnalyzerRun], format_indexes: &[usize]) -> (r: Vec<
    (usize, Range<usize>),
>)
    requires
        strictly_increasing(format_indexes@),
        runs@.len() > 0 ==> runs@[0].text_range.start == 0,
        forall|k: int|
            0 <= k < runs@.len() ==> #[trigger] runs@[k].text_range.start
                <= runs@[k].text_range.end,
        runs@.len() > 1 ==> forall|k: int|
            0 <= k < runs@.len() ==> #[trigger] runs@[k].text_range.start
                < runs@[k].text_range.end,
        forall|k: int|
            0 <= k < runs@.len() - 1 ==> #[trigger] runs@[k].text_range.end == runs@[k
                + 1].text_range.start,
    ensures
        r@ == pieces_of_runs(runs@, format_indexes@, runs@.len() as int),
{
    let mut result: Vec<(usize, Range<usize>)> = Vec::new();
    let mut f: usize = 0;
    let mut k: usize = 0;
    proof {
        lemma_count_below(format_indexes@, 0, 0);
    }
    while k < runs.len()
        invariant
            strictly_increasing(format_indexes@),
            runs@.len() > 0 ==> runs@[0].text_range.start == 0,
            forall|k: int|
                0 <= k < runs@.len() ==> #[trigger] runs@[k].text_range.start
                    <= runs@[k].text_range.end,
            runs@.len() > 1 ==> forall|k: int|
                0 <= k < runs@.len() ==> #[trigger] runs@[k].text_range.start
                    < runs@[k].text_range.end,
            forall|k: int|
                0 <= k < runs@.len() - 1 ==> #[trigger] runs@[k].text_range.end == runs@[k
                    + 1].text_range.start,
            k <= runs@.len(),
            k < runs@.len() ==> f == count_below(
                format_indexes@,
                runs@[k as int].text_range.start as int,
            ),
            result@ == pieces_of_runs(runs@, format_indexes@, k as int),
        decreases runs@.len() - k,
    {
        let start = runs[k].text_range.start;
        let end = runs[k].text_range.end;
        push_run_pieces(&mut result, k, start, end, format_indexes, &mut f);
        proof {
            if k + 1 < runs@.len() {
                assert(runs@[k as int].text_range.end == runs@[k + 1].text_range.start);
                assert(runs@[k as int].text_range.start < runs@[k as int].text_range.end);
            }
        }
        k += 1;
    }
    result
}

} // verus!
