//! The DirectWrite text analysis bookkeeping: the sink that collects the script, bidi and number
//! substitution analyses into runs.

use vstd::prelude::*;
use core::ops::Range;
use vstd::utf8::encode_utf8;
use crate::text_analyzer::{TextAnalyzerGlyphRun, TextAnalyzerRun, TextDirection};
use crate::text_encoding::{
    char_index_of_utf16, char_index_of_utf8, encode_utf16, is_utf16_boundary, is_utf8_boundary,
    lemma_char_index_of_offset, lemma_offset_bounds, lemma_offset_ends, lemma_offset_monotone,
    lemma_offset_strictly_increasing,
    lemma_utf8_of_utf16_order, utf16_offset, utf8_of_utf16, utf8_offset,
};
use crate::small_vecs::{
    cluster_map_items, cluster_map_push, cluster_map_with_capacity, glyph_items, ClusterMap, GlyphList,
};
use crate::utf_index_converter::{
    char_containing_utf8_byte, lemma_char_containing_utf8_byte, lemma_containing_char_unique,
    utf16_indexes_of_utf8_bytes, UtfIndexConverter,
};

verus! {

/// The explicit and resolved bidi embedding levels of a run.
#[derive(Debug, Clone, Copy, PartialEq, Eq, Structural)]
pub struct BidiLevels {
    pub explicit_level: u8,
    pub resolved_level: u8,
}

/// The script of a run and whether it needs shaping (`DWRITE_SCRIPT_ANALYSIS`).
#[derive(Debug, Clone, Copy, PartialEq, Eq, Structural)]
pub struct ScriptAnalysis {
    pub script: u16,
    pub shapes: i32,
}

/// What the analyses reported for a run. The number substitution is an index into the caller's
/// list of number substitution objects.
#[derive(Debug, Clone, Copy, PartialEq, Eq, Structural)]
pub struct TextAnalyzerRunBackend {
    pub script_analysis: Option<ScriptAnalysis>,
    pub bidi_levels: Option<BidiLevels>,
    pub number_substitution: Option<usize>,
}

impl TextAnalyzerRunBackend {
    /// A backend on which no analysis has reported yet.
    pub fn new() -> (r: Self)
        ensures
            r.script_analysis is None,
            r.bidi_levels is None,
            r.number_substitution is None,
    {
        TextAnalyzerRunBackend { script_analysis: None, bidi_levels: None, number_substitution: None }
    }
}


/// The same run with another text range.
pub open spec fn with_range(run: TextAnalyzerRun, start: usize, end: usize) -> TextAnalyzerRun {
    TextAnalyzerRun { text_range: start..end, ..run }
}

/// The end of the text that `runs` cover.
pub open spec fn covered_len(runs: Seq<TextAnalyzerRun>) -> int {
    runs.last().text_range.end as int
}

/// `runs` split the text `0..covered_len(runs)` into consecutive ranges, in order. Only a lone
/// run may be empty (the run of an empty text).
#[verifier::opaque]
pub open spec fn runs_partition(runs: Seq<TextAnalyzerRun>) -> bool {
    &&& runs.len() > 0
    &&& runs[0].text_range.start == 0
    &&& forall|i: int|
        0 <= i < runs.len() ==> runs.len() == 1 || #[trigger] runs[i].text_range.start
            < runs[i].text_range.end
    &&& forall|i: int|
        0 <= i < runs.len() - 1 ==> #[trigger] runs[i].text_range.end == runs[i
            + 1].text_range.start
    &&& forall|i: int, j: int|
        0 <= i < j < runs.len() ==> #[trigger] runs[i].text_range.end
            <= #[trigger] runs[j].text_range.start
}

/// A partition has a first run, which starts at 0.
proof fn lemma_partition_first(runs: Seq<TextAnalyzerRun>)
    requires
        runs_partition(runs),
    ensures
        runs.len() > 0,
        runs[0].text_range.start == 0,
{
    reveal(runs_partition);
}

/// The offsets at which one run ends and the next begins, with the start and end of the text.
pub open spec fn run_boundaries(runs: Seq<TextAnalyzerRun>) -> Set<int> {
    Set::new(
        |b: int|
            (exists|i: int| 0 <= i < runs.len() && #[trigger] runs[i].text_range.start == b) || b
                == covered_len(runs),
    )
}

/// Run `a` lies inside run `b` and has its direction and analyses.
pub open spec fn run_within(a: TextAnalyzerRun, b: TextAnalyzerRun) -> bool {
    &&& b.text_range.start <= a.text_range.start
    &&& a.text_range.end <= b.text_range.end
    &&& a.direction == b.direction
    &&& a.backend == b.backend
}

/// `run` lies inside one of the runs `old` and carries what that run carries.
pub open spec fn within_some(run: TextAnalyzerRun, old: Seq<TextAnalyzerRun>) -> bool {
    exists|i: int| 0 <= i < old.len() && run_within(run, #[trigger] old[i])
}

/// Every run of `new` lies inside a run of `old` and carries what that run carries.
pub open spec fn runs_refine(new: Seq<TextAnalyzerRun>, old: Seq<TextAnalyzerRun>) -> bool {
    forall|j: int| 0 <= j < new.len() ==> within_some(#[trigger] new[j], old)
}

/// The runs after splitting run `i` at `k`.
pub open spec fn split_runs(runs: Seq<TextAnalyzerRun>, i: int, k: usize) -> Seq<TextAnalyzerRun> {
    runs.update(i, with_range(runs[i], runs[i].text_range.start, k)).insert(
        i + 1,
        with_range(runs[i], k, runs[i].text_range.end),
    )
}

proof fn lemma_run_within_trans(a: TextAnalyzerRun, b: TextAnalyzerRun, c: TextAnalyzerRun)
    requires
        run_within(a, b),
        run_within(b, c),
    ensures
        run_within(a, c),
{
}

proof fn lemma_runs_refine_trans(
    a: Seq<TextAnalyzerRun>,
    b: Seq<TextAnalyzerRun>,
    c: Seq<TextAnalyzerRun>,
)
    requires
        runs_refine(a, b),
        runs_refine(b, c),
    ensures
        runs_refine(a, c),
{
    assert forall|j: int| 0 <= j < a.len() implies within_some(#[trigger] a[j], c) by {
        let aj = a[j];
        assert(within_some(aj, b));
        let m = choose|m: int| 0 <= m < b.len() && run_within(aj, #[trigger] b[m]);
        let bm = b[m];
        assert(within_some(bm, c));
        let i = choose|i: int| 0 <= i < c.len() && run_within(bm, #[trigger] c[i]);
        lemma_run_within_trans(aj, bm, c[i]);
    }
}

/// Where each run of `split_runs` comes from.
proof fn lemma_split_index(runs: Seq<TextAnalyzerRun>, i: int, k: usize)
    requires
        0 <= i < runs.len(),
    ensures
        split_runs(runs, i, k).len() == runs.len() + 1,
        forall|j: int|
            0 <= j < split_runs(runs, i, k).len() ==> #[trigger] split_runs(runs, i, k)[j] == (if j
                < i {
                runs[j]
            } else if j == i {
                with_range(runs[i], runs[i].text_range.start, k)
            } else if j == i + 1 {
                with_range(runs[i], k, runs[i].text_range.end)
            } else {
                runs[j - 1]
            }),
{
}

proof fn lemma_split_nonempty(runs: Seq<TextAnalyzerRun>, i: int, k: usize)
    requires
        runs_partition(runs),
        0 <= i < runs.len(),
        runs[i].text_range.start < k < runs[i].text_range.end,
    ensures
        forall|j: int|
            0 <= j < split_runs(runs, i, k).len() ==> #[trigger] split_runs(
                runs,
                i,
                k,
            )[j].text_range.start < split_runs(runs, i, k)[j].text_range.end,
{
    reveal(runs_partition);
    let n = split_runs(runs, i, k);
    lemma_split_index(runs, i, k);
    assert forall|j: int| 0 <= j < n.len() implies #[trigger] n[j].text_range.start
        < n[j].text_range.end by {
        if j != i && j != i + 1 {
            let m = if j < i { j } else { j - 1 };
            assert(runs.len() == 1 || runs[m].text_range.start < runs[m].text_range.end);
        }
    }
}

proof fn lemma_split_adjacent(runs: Seq<TextAnalyzerRun>, i: int, k: usize)
    requires
        runs_partition(runs),
        0 <= i < runs.len(),
        runs[i].text_range.start < k < runs[i].text_range.end,
    ensures
        forall|j: int|
            0 <= j < split_runs(runs, i, k).len() - 1 ==> #[trigger] split_runs(
                runs,
                i,
                k,
            )[j].text_range.end == split_runs(runs, i, k)[j + 1].text_range.start,
{
    reveal(runs_partition);
    let n = split_runs(runs, i, k);
    lemma_split_index(runs, i, k);
    assert forall|j: int| 0 <= j < n.len() - 1 implies #[trigger] n[j].text_range.end == n[j
        + 1].text_range.start by {
        if j < i {
            assert(runs[j].text_range.end == runs[j + 1].text_range.start);
        } else if j > i + 1 {
            assert(runs[j - 1].text_range.end == runs[j].text_range.start);
        } else if j == i + 1 {
            assert(runs[i].text_range.end == runs[i + 1].text_range.start);
        }
    }
}

proof fn lemma_split_sorted(runs: Seq<TextAnalyzerRun>, i: int, k: usize)
    requires
        runs_partition(runs),
        0 <= i < runs.len(),
        runs[i].text_range.start < k < runs[i].text_range.end,
    ensures
        forall|p: int, q: int|
            0 <= p < q < split_runs(runs, i, k).len() ==> #[trigger] split_runs(
                runs,
                i,
                k,
            )[p].text_range.end <= #[trigger] split_runs(runs, i, k)[q].text_range.start,
{
    reveal(runs_partition);
    let n = split_runs(runs, i, k);
    lemma_split_index(runs, i, k);
    assert forall|p: int, q: int| 0 <= p < q < n.len() implies #[trigger] n[p].text_range.end
        <= #[trigger] n[q].text_range.start by {
        let pp = if p <= i { p } else { p - 1 };
        let qq = if q <= i { q } else { q - 1 };
        if pp < qq {
            assert(runs[pp].text_range.end <= runs[qq].text_range.start);
        }
        if q > i + 1 && p <= i {
            assert(runs[i].text_range.end <= runs[qq].text_range.start);
        }
        if p < i && q >= i {
            assert(runs[p].text_range.end <= runs[i].text_range.start);
        }
    }
}

proof fn lemma_split_partition(runs: Seq<TextAnalyzerRun>, i: int, k: usize)
    requires
        runs_partition(runs),
        0 <= i < runs.len(),
        runs[i].text_range.start < k < runs[i].text_range.end,
    ensures
        runs_partition(split_runs(runs, i, k)),
        covered_len(split_runs(runs, i, k)) == covered_len(runs),
{
    reveal(runs_partition);
    let n = split_runs(runs, i, k);
    lemma_split_index(runs, i, k);
    lemma_split_nonempty(runs, i, k);
    lemma_split_adjacent(runs, i, k);
    lemma_split_sorted(runs, i, k);
    assert(n.last() == n[n.len() - 1]);
    assert(n[0].text_range.start == 0);
}

proof fn lemma_split_boundaries(runs: Seq<TextAnalyzerRun>, i: int, k: usize)
    requires
        runs_partition(runs),
        0 <= i < runs.len(),
        runs[i].text_range.start < k < runs[i].text_range.end,
    ensures
        run_boundaries(split_runs(runs, i, k)) == run_boundaries(runs).insert(k as int),
{
    let n = split_runs(runs, i, k);
    lemma_split_index(runs, i, k);
    lemma_split_partition(runs, i, k);
    assert forall|bd: int| #[trigger] run_boundaries(n).contains(bd) implies run_boundaries(
        runs,
    ).insert(k as int).contains(bd) by {
        if bd != covered_len(n) && bd != k {
            let j = choose|j: int| 0 <= j < n.len() && #[trigger] n[j].text_range.start == bd;
            let m = if j <= i { j } else { j - 1 };
            assert(runs[m].text_range.start == bd);
        }
    }
    assert forall|bd: int| #[trigger] run_boundaries(runs).insert(k as int).contains(bd)
        implies run_boundaries(n).contains(bd) by {
        if bd == k {
            assert(n[i + 1].text_range.start == bd);
        } else if bd != covered_len(runs) {
            let m = choose|m: int| 0 <= m < runs.len() && #[trigger] runs[m].text_range.start == bd;
            let j = if m <= i { m } else { m + 1 };
            assert(n[j].text_range.start == bd);
        }
    }
    assert(run_boundaries(n) =~= run_boundaries(runs).insert(k as int));
}

proof fn lemma_split_refines(runs: Seq<TextAnalyzerRun>, i: int, k: usize)
    requires
        0 <= i < runs.len(),
        runs[i].text_range.start < k < runs[i].text_range.end,
    ensures
        runs_refine(split_runs(runs, i, k), runs),
{
    let n = split_runs(runs, i, k);
    lemma_split_index(runs, i, k);
    assert forall|j: int| 0 <= j < n.len() implies within_some(#[trigger] n[j], runs) by {
        let m = if j <= i { j } else if j == i + 1 { i } else { j - 1 };
        assert(run_within(n[j], runs[m]));
    }
}

/// Runs `a..b` are exactly the runs that start inside `pos..end`, when run `a` starts at `pos`
/// and run `b - 1` ends at `end`.
proof fn lemma_runs_in_range(runs: Seq<TextAnalyzerRun>, a: int, b: int, pos: int, end: int)
    requires
        runs_partition(runs),
        0 <= a < b <= runs.len(),
        runs[a].text_range.start == pos,
        runs[b - 1].text_range.end == end,
        pos < end,
    ensures
        forall|j: int|
            0 <= j < runs.len() ==> (a <= j < b <==> pos <= #[trigger] runs[j].text_range.start
                < end),
{
    reveal(runs_partition);
    assert forall|j: int| 0 <= j < runs.len() implies (a <= j < b <==> pos
        <= #[trigger] runs[j].text_range.start < end) by {
        if runs.len() > 1 {
            assert(runs[j].text_range.start < runs[j].text_range.end);
            assert(runs[a].text_range.start < runs[a].text_range.end);
        }
        if a < j {
            assert(runs[a].text_range.end <= runs[j].text_range.start);
        }
        if j < a {
            assert(runs[j].text_range.end <= runs[a].text_range.start);
        }
        if j < b - 1 {
            assert(runs[j].text_range.end <= runs[b - 1].text_range.start);
            assert(runs[b - 1].text_range.start < runs[b - 1].text_range.end);
        }
        if j >= b {
            assert(runs[b - 1].text_range.end <= runs[j].text_range.start);
        }
    }
}

/// Runs with the same ranges partition the same text at the same boundaries.
proof fn lemma_same_ranges(a: Seq<TextAnalyzerRun>, b: Seq<TextAnalyzerRun>)
    requires
        a.len() == b.len(),
        a.len() > 0,
        forall|k: int| 0 <= k < a.len() ==> (#[trigger] a[k]).text_range == b[k].text_range,
    ensures
        runs_partition(a) == runs_partition(b),
        covered_len(a) == covered_len(b),
        run_boundaries(a) == run_boundaries(b),
{
    reveal(runs_partition);
    assert(a.last().text_range == b.last().text_range);
    assert(a[0].text_range == b[0].text_range);
    if runs_partition(a) {
        assert forall|i: int| 0 <= i < b.len() - 1 implies #[trigger] b[i].text_range.end == b[i
            + 1].text_range.start by {
            assert(a[i].text_range.end == a[i + 1].text_range.start);
            assert(a[i + 1].text_range == b[i + 1].text_range);
        }
        assert forall|i: int, j: int| 0 <= i < j < b.len() implies #[trigger] b[i].text_range.end
            <= #[trigger] b[j].text_range.start by {
            assert(a[i].text_range.end <= a[j].text_range.start);
            assert(a[j].text_range == b[j].text_range);
        }
        assert forall|i: int| 0 <= i < b.len() implies b.len() == 1 || #[trigger] b[i].text_range.start
            < b[i].text_range.end by {
            assert(a[i].text_range == b[i].text_range);
        }
    }
    if runs_partition(b) {
        assert forall|i: int| 0 <= i < a.len() - 1 implies #[trigger] a[i].text_range.end == a[i
            + 1].text_range.start by {
            assert(b[i].text_range.end == b[i + 1].text_range.start);
            assert(a[i + 1].text_range == b[i + 1].text_range);
        }
        assert forall|i: int, j: int| 0 <= i < j < a.len() implies #[trigger] a[i].text_range.end
            <= #[trigger] a[j].text_range.start by {
            assert(b[i].text_range.end <= b[j].text_range.start);
            assert(a[j].text_range == b[j].text_range);
        }
        assert forall|i: int| 0 <= i < a.len() implies a.len() == 1 || #[trigger] a[i].text_range.start
            < a[i].text_range.end by {
            assert(a[i].text_range == b[i].text_range);
        }
    }
    assert forall|bd: int| #[trigger] run_boundaries(a).contains(bd) implies run_boundaries(
        b,
    ).contains(bd) by {
        if bd != covered_len(a) {
            let j = choose|j: int| 0 <= j < a.len() && #[trigger] a[j].text_range.start == bd;
            assert(b[j].text_range.start == bd);
        }
    }
    assert forall|bd: int| #[trigger] run_boundaries(b).contains(bd) implies run_boundaries(
        a,
    ).contains(bd) by {
        if bd != covered_len(b) {
            let j = choose|j: int| 0 <= j < b.len() && #[trigger] b[j].text_range.start == bd;
            assert(a[j].text_range.start == bd);
        }
    }
    assert(run_boundaries(a) =~= run_boundaries(b));
}

/// Splits run `run_index` at `text_index` into two runs that carry the same analyses.
fn split_run(runs: &mut Vec<TextAnalyzerRun>, run_index: usize, text_index: usize)
    requires
        run_index < old(runs).len(),
        old(runs)[run_index as int].text_range.start < text_index,
        text_index < old(runs)[run_index as int].text_range.end,
    ensures
        final(runs)@ == split_runs(old(runs)@, run_index as int, text_index),
{
    let mut new_run = runs[run_index].clone();
    let mut first = runs[run_index].clone();
    first.text_range.end = text_index;
    new_run.text_range.start = text_index;
    runs.set(run_index, first);
    runs.insert(run_index + 1, new_run);
    proof {
        assert(runs@ =~= split_runs(old(runs)@, run_index as int, text_index));
    }
}

/// Collects the runs that the DirectWrite analyzers report: each report on a range of text splits
/// the runs at the range's ends and annotates the runs inside it.
pub struct DWriteRunAnalysisSinkData {
    pub runs: Vec<TextAnalyzerRun>,
    /// Where the last reported range started; the analyzers usually move forward, so the next
    /// search starts here.
    pub last_run_index: usize,
}

impl DWriteRunAnalysisSinkData {
    /// The runs partition the text.
    pub open spec fn wf(&self) -> bool {
        runs_partition(self.runs@)
    }

    /// The length of the analyzed text, in UTF-16 code units.
    pub open spec fn text_len(&self) -> int {
        covered_len(self.runs@)
    }

    /// A sink with no runs; `clear_and_resize` gives it its text.
    pub fn new() -> (r: Self)
        ensures
            r.runs@.len() == 0,
            r.last_run_index == 0,
    {
        DWriteRunAnalysisSinkData { runs: Vec::new(), last_run_index: 0 }
    }

    /// Starts over with one left-to-right run over a text of `len` code units, on which no
    /// analysis has reported.
    pub fn clear_and_resize(&mut self, len: usize)
        ensures
            final(self).wf(),
            final(self).runs@ == seq![
                TextAnalyzerRun {
                    text_range: 0..len,
                    direction: TextDirection::LeftToRight,
                    backend: TextAnalyzerRunBackend {
                        script_analysis: None,
                        bidi_levels: None,
                        number_substitution: None,
                    },
                },
            ],
            final(self).last_run_index == old(self).last_run_index,
    {
        reveal(runs_partition);
        self.runs.clear();
        self.runs.push(
            TextAnalyzerRun {
                text_range: 0..len,
                direction: TextDirection::LeftToRight,
                backend: TextAnalyzerRunBackend::new(),
            },
        );
    }
}

/// The index of the run that contains offset `pos`, searching forward from run `from`, which
/// starts at or before `pos`.
fn find_run_containing(runs: &Vec<TextAnalyzerRun>, from: usize, pos: usize) -> (r: usize)
    requires
        runs_partition(runs@),
        from < runs.len(),
        runs@[from as int].text_range.start <= pos,
        pos < covered_len(runs@),
    ensures
        from <= r < runs.len(),
        runs@[r as int].text_range.start <= pos < runs@[r as int].text_range.end,
{
    reveal(runs_partition);
    let mut i = from;
    while runs[i].text_range.end <= pos
        invariant
            runs_partition(runs@),
            from <= i < runs.len(),
            runs@[i as int].text_range.start <= pos,
            pos < covered_len(runs@),
        decreases runs.len() - i,
    {
        reveal(runs_partition);
        assert(runs@.last() == runs@[runs@.len() - 1]);
        assert(runs@[i as int].text_range.end == runs@[i + 1].text_range.start);
        i += 1;
    }
    i
}

/// One past the index of the run that contains offset `end - 1`, searching forward from run
/// `from`, which starts before `end`.
fn find_runs_end(runs: &Vec<TextAnalyzerRun>, from: usize, end: usize) -> (r: usize)
    requires
        runs_partition(runs@),
        from < runs.len(),
        runs@[from as int].text_range.start < end,
        end <= covered_len(runs@),
    ensures
        from < r <= runs.len(),
        runs@[r - 1].text_range.start < end <= runs@[r - 1].text_range.end,
        r < runs.len() ==> runs@[r as int].text_range.start == runs@[r - 1].text_range.end,
{
    reveal(runs_partition);
    let mut i = from;
    while i < runs.len() && runs[i].text_range.start < end
        invariant
            runs_partition(runs@),
            from < runs.len(),
            runs@[from as int].text_range.start < end,
            from <= i <= runs.len(),
            i > from ==> runs@[i - 1].text_range.start < end,
        decreases runs.len() - i,
    {
        i += 1;
    }
    if i < runs.len() {
        assert(runs@[i - 1].text_range.end == runs@[i as int].text_range.start);
    } else {
        assert(runs@.last() == runs@[i - 1]);
    }
    i
}

/// Makes `pos`, which lies inside run `i`, the start of a run, and returns that run's index.
fn split_at_start(runs: &mut Vec<TextAnalyzerRun>, i: usize, pos: usize) -> (r: usize)
    requires
        runs_partition(old(runs)@),
        i < old(runs).len(),
        old(runs)@[i as int].text_range.start <= pos < old(runs)@[i as int].text_range.end,
    ensures
        runs_partition(final(runs)@),
        covered_len(final(runs)@) == covered_len(old(runs)@),
        run_boundaries(final(runs)@) == run_boundaries(old(runs)@).insert(pos as int),
        runs_refine(final(runs)@, old(runs)@),
        r < final(runs).len(),
        final(runs)@[r as int].text_range.start == pos,
{
    reveal(runs_partition);
    if runs[i].text_range.start != pos {
        proof {
            lemma_split_partition(runs@, i as int, pos);
            lemma_split_boundaries(runs@, i as int, pos);
            lemma_split_refines(runs@, i as int, pos);
            lemma_split_index(runs@, i as int, pos);
        }
        split_run(runs, i, pos);
        i + 1
    } else {
        proof {
            assert(run_boundaries(runs@).contains(pos as int));
            assert(run_boundaries(runs@).insert(pos as int) =~= run_boundaries(runs@));
            assert forall|j: int| 0 <= j < runs@.len() implies within_some(
                #[trigger] runs@[j],
                runs@,
            ) by {
                assert(run_within(runs@[j], runs@[j]));
            }
        }
        i
    }
}

/// Makes `end`, which lies inside run `i` or at its end, the end of a run.
fn split_at_end(runs: &mut Vec<TextAnalyzerRun>, i: usize, end: usize)
    requires
        runs_partition(old(runs)@),
        i < old(runs).len(),
        old(runs)@[i as int].text_range.start < end <= old(runs)@[i as int].text_range.end,
        i + 1 < old(runs).len() ==> old(runs)@[i + 1].text_range.start
            == old(runs)@[i as int].text_range.end,
    ensures
        runs_partition(final(runs)@),
        covered_len(final(runs)@) == covered_len(old(runs)@),
        run_boundaries(final(runs)@) == run_boundaries(old(runs)@).insert(end as int),
        runs_refine(final(runs)@, old(runs)@),
        final(runs).len() == old(runs).len() || final(runs).len() == old(runs).len() + 1,
        forall|j: int| 0 <= j < i ==> final(runs)@[j] == old(runs)@[j],
        final(runs)@[i as int].text_range.start == old(runs)@[i as int].text_range.start,
        final(runs)@[i as int].text_range.end == end,
{
    reveal(runs_partition);
    if runs[i].text_range.end != end {
        proof {
            if runs@.len() > 1 {
                assert(runs@[i as int].text_range.start < runs@[i as int].text_range.end);
            }
            lemma_split_partition(runs@, i as int, end);
            lemma_split_boundaries(runs@, i as int, end);
            lemma_split_refines(runs@, i as int, end);
            lemma_split_index(runs@, i as int, end);
        }
        split_run(runs, i, end);
    } else {
        proof {
            if i + 1 < runs@.len() {
                assert(run_boundaries(runs@).contains(runs@[i + 1].text_range.start as int));
            } else {
                assert(runs@.last() == runs@[i as int]);
            }
            assert(run_boundaries(runs@).contains(end as int));
            assert(run_boundaries(runs@).insert(end as int) =~= run_boundaries(runs@));
            assert forall|j: int| 0 <= j < runs@.len() implies within_some(
                #[trigger] runs@[j],
                runs@,
            ) by {
                assert(run_within(runs@[j], runs@[j]));
            }
        }
    }
}

impl DWriteRunAnalysisSinkData {
    /// Splits the runs so that `text_position..text_position + text_length` starts and ends at
    /// run boundaries, and returns the range of indexes of the runs inside it.
    ///
    /// The search starts at the run found by the previous call, or at the first run when the
    /// range starts before that one (or when the previous run index is past the last run).
    pub fn get_run_range(&mut self, text_position: u32, text_length: u32) -> (r: Range<usize>)
        requires
            old(self).wf(),
            text_length > 0,
            text_position + text_length <= old(self).text_len(),
        ensures
            final(self).wf(),
            final(self).text_len() == old(self).text_len(),
            run_boundaries(final(self).runs@) == run_boundaries(old(self).runs@).insert(
                text_position as int,
            ).insert(text_position + text_length),
            runs_refine(final(self).runs@, old(self).runs@),
            r.start < r.end <= final(self).runs@.len(),
            final(self).runs@[r.start as int].text_range.start == text_position,
            final(self).runs@[r.end - 1].text_range.end == text_position + text_length,
            forall|j: int|
                0 <= j < final(self).runs@.len() ==> (r.start <= j < r.end <==> text_position
                    <= #[trigger] final(self).runs@[j].text_range.start < text_position
                    + text_length),
            final(self).last_run_index == r.start,
    {
        let text_position = text_position as usize;
        let text_length = text_length as usize;
        let text_end = text_position + text_length;
        let ghost old_runs = self.runs@;
        proof {
            lemma_partition_first(self.runs@);
        }
        let hint = if self.last_run_index < self.runs.len() {
            self.last_run_index
        } else {
            0
        };
        let from = if text_position < self.runs[hint].text_range.start {
            0
        } else {
            hint
        };
        let found = find_run_containing(&self.runs, from, text_position);
        let run_start = split_at_start(&mut self.runs, found, text_position);
        let ghost mid = self.runs@;
        let run_end = find_runs_end(&self.runs, run_start, text_end);
        split_at_end(&mut self.runs, run_end - 1, text_end);
        proof {
            lemma_runs_refine_trans(self.runs@, mid, old_runs);
            lemma_runs_in_range(
                self.runs@,
                run_start as int,
                run_end as int,
                text_position as int,
                text_end as int,
            );
        }
        self.last_run_index = run_start;
        run_start..run_end
    }
}

/// An analysis that the analyzers report for a range of text.
#[derive(Debug, Clone, Copy, PartialEq, Eq, Structural)]
pub enum RunAnalysis {
    Script(ScriptAnalysis),
    Bidi(BidiLevels),
    NumberSubstitution(usize),
}

/// `backend` with `analysis` recorded in it.
pub open spec fn with_analysis(
    backend: TextAnalyzerRunBackend,
    analysis: RunAnalysis,
) -> TextAnalyzerRunBackend {
    match analysis {
        RunAnalysis::Script(s) => TextAnalyzerRunBackend { script_analysis: Some(s), ..backend },
        RunAnalysis::Bidi(b) => TextAnalyzerRunBackend { bidi_levels: Some(b), ..backend },
        RunAnalysis::NumberSubstitution(n) => TextAnalyzerRunBackend {
            number_substitution: Some(n),
            ..backend
        },
    }
}

/// Run `a` lies inside run `b` and has its direction; it carries `b`'s analyses, with `analysis`
/// added when `a` starts inside `start..end`.
pub open spec fn annotated_within(
    a: TextAnalyzerRun,
    b: TextAnalyzerRun,
    start: int,
    end: int,
    analysis: RunAnalysis,
) -> bool {
    &&& b.text_range.start <= a.text_range.start
    &&& a.text_range.end <= b.text_range.end
    &&& a.direction == b.direction
    &&& a.backend == if start <= a.text_range.start < end {
        with_analysis(b.backend, analysis)
    } else {
        b.backend
    }
}

/// `run` is annotated within one of the runs `old`.
pub open spec fn annotated_in_some(
    run: TextAnalyzerRun,
    old: Seq<TextAnalyzerRun>,
    start: int,
    end: int,
    analysis: RunAnalysis,
) -> bool {
    exists|i: int| 0 <= i < old.len() && annotated_within(run, #[trigger] old[i], start, end, analysis)
}

/// Every run of `new` lies inside a run of `old`; those inside `start..end` carry `analysis` too.
pub open spec fn runs_annotated(
    new: Seq<TextAnalyzerRun>,
    old: Seq<TextAnalyzerRun>,
    start: int,
    end: int,
    analysis: RunAnalysis,
) -> bool {
    forall|j: int| 0 <= j < new.len() ==> annotated_in_some(#[trigger] new[j], old, start, end, analysis)
}

/// Recording an analysis sets only its own kind: the other analyses stay as they were. So the
/// order in which the analyzers report does not matter, and a run ends up with every analysis
/// reported for it.
pub proof fn lemma_analysis_sets_only_its_kind(
    backend: TextAnalyzerRunBackend,
    analysis: RunAnalysis,
    other: RunAnalysis,
)
    ensures
        ({
            let r = with_analysis(backend, analysis);
            match analysis {
                RunAnalysis::Script(s) => r.script_analysis == Some(s) && r.bidi_levels
                    == backend.bidi_levels && r.number_substitution == backend.number_substitution,
                RunAnalysis::Bidi(b) => r.bidi_levels == Some(b) && r.script_analysis
                    == backend.script_analysis && r.number_substitution
                    == backend.number_substitution,
                RunAnalysis::NumberSubstitution(n) => r.number_substitution == Some(n)
                    && r.script_analysis == backend.script_analysis && r.bidi_levels
                    == backend.bidi_levels,
            }
        }),
        (analysis is Script && other is Bidi) || (analysis is Script && other is NumberSubstitution)
            || (analysis is Bidi && other is NumberSubstitution) ==> with_analysis(
            with_analysis(backend, analysis),
            other,
        ) == with_analysis(with_analysis(backend, other), analysis),
{
}

/// Run `run` lies inside `old_run` and has its direction; if it starts inside `start..end` it has
/// the reported analysis, and each other analysis it has is `old_run`'s.
pub open spec fn reported_on(
    run: TextAnalyzerRun,
    old_run: TextAnalyzerRun,
    start: int,
    end: int,
    analysis: RunAnalysis,
) -> bool {
    let a = run.backend;
    let b = old_run.backend;
    let inside = start <= run.text_range.start < end;
    &&& old_run.text_range.start <= run.text_range.start
    &&& run.text_range.end <= old_run.text_range.end
    &&& run.direction == old_run.direction
    &&& a.script_analysis == match analysis {
        RunAnalysis::Script(s) => if inside {
            Some(s)
        } else {
            b.script_analysis
        },
        _ => b.script_analysis,
    }
    &&& a.bidi_levels == match analysis {
        RunAnalysis::Bidi(l) => if inside {
            Some(l)
        } else {
            b.bidi_levels
        },
        _ => b.bidi_levels,
    }
    &&& a.number_substitution == match analysis {
        RunAnalysis::NumberSubstitution(n) => if inside {
            Some(n)
        } else {
            b.number_substitution
        },
        _ => b.number_substitution,
    }
}

/// `run` is reported on within one of the runs `old`.
pub open spec fn reported_in_some(
    run: TextAnalyzerRun,
    old: Seq<TextAnalyzerRun>,
    start: int,
    end: int,
    analysis: RunAnalysis,
) -> bool {
    exists|i: int| 0 <= i < old.len() && #[trigger] reported_on(run, old[i], start, end, analysis)
}

/// After an analyzer's report on `start..end` (as `set_script_analysis`, `set_bidi_level` and
/// `set_number_substitution` give it), every run lies inside a run of before; a run inside the
/// range carries the reported analysis, and every other analysis of every run is that of the run
/// it lies in: a bidi report, for one, keeps the script analysis.
pub proof fn lemma_report_keeps_other_analyses(
    new: Seq<TextAnalyzerRun>,
    old: Seq<TextAnalyzerRun>,
    start: int,
    end: int,
    analysis: RunAnalysis,
)
    requires
        runs_annotated(new, old, start, end, analysis),
    ensures
        forall|j: int|
            0 <= j < new.len() ==> reported_in_some(#[trigger] new[j], old, start, end, analysis),
{
    assert forall|j: int| 0 <= j < new.len() implies reported_in_some(
        #[trigger] new[j],
        old,
        start,
        end,
        analysis,
    ) by {
        assert(annotated_in_some(new[j], old, start, end, analysis));
        let i = choose|i: int|
            0 <= i < old.len() && annotated_within(new[j], #[trigger] old[i], start, end, analysis);
        lemma_analysis_sets_only_its_kind(old[i].backend, analysis, analysis);
        assert(reported_on(new[j], old[i], start, end, analysis));
    }
}

fn apply_analysis(backend: TextAnalyzerRunBackend, analysis: RunAnalysis) -> (r:
    TextAnalyzerRunBackend)
    ensures
        r == with_analysis(backend, analysis),
{
    let mut r = backend;
    match analysis {
        RunAnalysis::Script(s) => {
            r.script_analysis = Some(s);
        },
        RunAnalysis::Bidi(b) => {
            r.bidi_levels = Some(b);
        },
        RunAnalysis::NumberSubstitution(n) => {
            r.number_substitution = Some(n);
        },
    }
    r
}

impl DWriteRunAnalysisSinkData {
    /// Records `analysis` on the text `text_position..text_position + text_length`, splitting the
    /// runs at its ends.
    fn annotate(&mut self, text_position: u32, text_length: u32, analysis: RunAnalysis)
        requires
            old(self).wf(),
            text_length > 0,
            text_position + text_length <= old(self).text_len(),
        ensures
            final(self).wf(),
            final(self).text_len() == old(self).text_len(),
            run_boundaries(final(self).runs@) == run_boundaries(old(self).runs@).insert(
                text_position as int,
            ).insert(text_position + text_length),
            runs_annotated(
                final(self).runs@,
                old(self).runs@,
                text_position as int,
                text_position + text_length,
                analysis,
            ),
    {
        let ghost old_runs = self.runs@;
        let range = self.get_run_range(text_position, text_length);
        let ghost mid = self.runs@;
        let mut j = range.start;
        while j < range.end
            invariant
                range.start <= j <= range.end <= mid.len(),
                self.runs@.len() == mid.len(),
                forall|k: int|
                    0 <= k < mid.len() ==> #[trigger] self.runs@[k] == if range.start <= k < j {
                        TextAnalyzerRun { backend: with_analysis(mid[k].backend, analysis), ..mid[k] }
                    } else {
                        mid[k]
                    },
            decreases range.end - j,
        {
            let mut run = self.runs[j].clone();
            run.backend = apply_analysis(run.backend, analysis);
            self.runs.set(j, run);
            j += 1;
        }
        proof {
            lemma_partition_first(mid);
            assert forall|k: int| 0 <= k < self.runs@.len() implies (
            #[trigger] self.runs@[k]).text_range == mid[k].text_range by {}
            lemma_same_ranges(self.runs@, mid);
            let end = text_position + text_length;
            assert forall|k: int| 0 <= k < self.runs@.len() implies annotated_in_some(
                #[trigger] self.runs@[k],
                old_runs,
                text_position as int,
                end,
                analysis,
            ) by {
                assert(within_some(mid[k], old_runs));
                let i = choose|i: int| 0 <= i < old_runs.len() && run_within(mid[k], #[trigger] old_runs[i]);
                assert(annotated_within(self.runs@[k], old_runs[i], text_position as int, end, analysis));
            }
        }
    }

    /// The script analyzer's report: the text `text_position..text_position + text_length` has
    /// `script_analysis`.
    pub fn set_script_analysis(
        &mut self,
        text_position: u32,
        text_length: u32,
        script_analysis: ScriptAnalysis,
    )
        requires
            old(self).wf(),
            text_length > 0,
            text_position + text_length <= old(self).text_len(),
        ensures
            final(self).wf(),
            final(self).text_len() == old(self).text_len(),
            run_boundaries(final(self).runs@) == run_boundaries(old(self).runs@).insert(
                text_position as int,
            ).insert(text_position + text_length),
            runs_annotated(
                final(self).runs@,
                old(self).runs@,
                text_position as int,
                text_position + text_length,
                RunAnalysis::Script(script_analysis),
            ),
    {
        self.annotate(text_position, text_length, RunAnalysis::Script(script_analysis));
    }

    /// The bidi analyzer's report: the text `text_position..text_position + text_length` has the
    /// given embedding levels.
    pub fn set_bidi_level(
        &mut self,
        text_position: u32,
        text_length: u32,
        explicit_level: u8,
        resolved_level: u8,
    )
        requires
            old(self).wf(),
            text_length > 0,
            text_position + text_length <= old(self).text_len(),
        ensures
            final(self).wf(),
            final(self).text_len() == old(self).text_len(),
            run_boundaries(final(self).runs@) == run_boundaries(old(self).runs@).insert(
                text_position as int,
            ).insert(text_position + text_length),
            runs_annotated(
                final(self).runs@,
                old(self).runs@,
                text_position as int,
                text_position + text_length,
                RunAnalysis::Bidi(BidiLevels { explicit_level, resolved_level }),
            ),
    {
        self.annotate(
            text_position,
            text_length,
            RunAnalysis::Bidi(BidiLevels { explicit_level, resolved_level }),
        );
    }

    /// The number substitution analyzer's report: the text
    /// `text_position..text_position + text_length` uses `number_substitution`. The runs are split
    /// at the range's ends even when there is no number substitution.
    pub fn set_number_substitution(
        &mut self,
        text_position: u32,
        text_length: u32,
        number_substitution: Option<usize>,
    )
        requires
            old(self).wf(),
            text_length > 0,
            text_position + text_length <= old(self).text_len(),
        ensures
            final(self).wf(),
            final(self).text_len() == old(self).text_len(),
            run_boundaries(final(self).runs@) == run_boundaries(old(self).runs@).insert(
                text_position as int,
            ).insert(text_position + text_length),
            match number_substitution {
                Some(n) => runs_annotated(
                    final(self).runs@,
                    old(self).runs@,
                    text_position as int,
                    text_position + text_length,
                    RunAnalysis::NumberSubstitution(n),
                ),
                None => runs_refine(final(self).runs@, old(self).runs@),
            },
    {
        match number_substitution {
            Some(n) => {
                self.annotate(text_position, text_length, RunAnalysis::NumberSubstitution(n));
            },
            None => {
                self.get_run_range(text_position, text_length);
            },
        }
    }
}

/// Whether `x` is odd (`num::Integer::is_odd`, which for unsigned integers is `x % 2 != 0`).
#[verifier::external_body]
fn u8_is_odd(x: u8) -> (r: bool)
    ensures
        r == (x % 2 == 1),
{
    num::Integer::is_odd(&x)
}

/// The direction of a run with the given bidi levels: right-to-left at an odd resolved level,
/// otherwise (and without levels) left-to-right.
pub open spec fn direction_of_bidi_levels(levels: Option<BidiLevels>) -> TextDirection {
    match levels {
        Some(l) => if l.resolved_level % 2 == 1 {
            TextDirection::RightToLeft
        } else {
            TextDirection::LeftToRight
        },
        None => TextDirection::LeftToRight,
    }
}

/// The direction of a run with the given bidi levels.
pub fn direction_from_bidi_levels(levels: Option<BidiLevels>) -> (r: TextDirection)
    ensures
        r == direction_of_bidi_levels(levels),
{
    match levels {
        Some(lvs) => if u8_is_odd(lvs.resolved_level) {
            TextDirection::RightToLeft
        } else {
            TextDirection::LeftToRight
        },
        None => TextDirection::LeftToRight,
    }
}

/// A run goes right to left exactly when its resolved bidi level is odd; its explicit
/// (embedding) level plays no part, and a run without levels goes left to right.
pub proof fn lemma_direction_follows_resolved_level(explicit: u8, other_explicit: u8, resolved: u8)
    ensures
        direction_of_bidi_levels(Some(BidiLevels { explicit_level: explicit, resolved_level: resolved }))
            == TextDirection::RightToLeft <==> resolved % 2 == 1,
        direction_of_bidi_levels(Some(BidiLevels { explicit_level: explicit, resolved_level: resolved }))
            == TextDirection::LeftToRight <==> resolved % 2 == 0,
        direction_of_bidi_levels(Some(BidiLevels { explicit_level: explicit, resolved_level: resolved }))
            == direction_of_bidi_levels(
            Some(BidiLevels { explicit_level: other_explicit, resolved_level: resolved }),
        ),
        direction_of_bidi_levels(None) == TextDirection::LeftToRight,
{
}

/// The analyzed runs in UTF-8 offsets of `text`, each with the direction of its bidi level.
pub open spec fn spec_utf8_run(run: TextAnalyzerRun, chars: Seq<char>) -> TextAnalyzerRun {
    TextAnalyzerRun {
        text_range: (utf8_of_utf16(chars, run.text_range.start as int) as usize)..(utf8_of_utf16(
            chars,
            run.text_range.end as int,
        ) as usize),
        direction: direction_of_bidi_levels(run.backend.bidi_levels),
        backend: run.backend,
    }
}

/// Converts one run to UTF-8 offsets, moving the converter to the run's end.
fn utf8_run(converter: &mut UtfIndexConverter, run: &TextAnalyzerRun) -> (r: TextAnalyzerRun)
    requires
        old(converter).wf(),
        is_utf16_boundary(old(converter).chars(), run.text_range.start as int),
        is_utf16_boundary(old(converter).chars(), run.text_range.end as int),
        run.text_range.start <= run.text_range.end,
        old(converter).boundary() <= char_index_of_utf16(
            old(converter).chars(),
            run.text_range.start as int,
        ),
    ensures
        final(converter).wf(),
        final(converter).utf8_str == old(converter).utf8_str,
        final(converter).utf16_str == old(converter).utf16_str,
        final(converter).boundary() == char_index_of_utf16(
            old(converter).chars(),
            run.text_range.end as int,
        ),
        r == spec_utf8_run(*run, old(converter).chars()),
{
    let ghost chars = converter.chars();
    proof {
        let ks = char_index_of_utf16(chars, run.text_range.start as int);
        let ke = char_index_of_utf16(chars, run.text_range.end as int);
        lemma_offset_monotone(chars, ks, ke);
        converter.lemma_boundary();
        lemma_char_index_of_offset(chars, converter.boundary());
    }
    let start = converter.convert_to_utf8_index(run.text_range.start);
    proof {
        converter.lemma_boundary();
        lemma_char_index_of_offset(chars, converter.boundary());
    }
    let end = converter.convert_to_utf8_index(run.text_range.end);
    proof {
        converter.lemma_boundary();
        lemma_char_index_of_offset(chars, converter.boundary());
    }
    TextAnalyzerRun {
        text_range: start..end,
        direction: direction_from_bidi_levels(run.backend.bidi_levels),
        backend: run.backend,
    }
}

/// The end of each run is a boundary of the text when the starts are, and the next run starts
/// there.
proof fn lemma_run_end_boundary(runs: Seq<TextAnalyzerRun>, chars: Seq<char>, i: int)
    requires
        runs_partition(runs),
        0 <= i < runs.len(),
        covered_len(runs) == encode_utf16(chars).len(),
        forall|j: int|
            0 <= j < runs.len() ==> is_utf16_boundary(chars, #[trigger] runs[j].text_range.start as int),
    ensures
        is_utf16_boundary(chars, runs[i].text_range.end as int),
        runs[i].text_range.start <= runs[i].text_range.end,
        i + 1 < runs.len() ==> runs[i + 1].text_range.start == runs[i].text_range.end,
{
    reveal(runs_partition);
    lemma_offset_ends(chars);
    if i + 1 < runs.len() {
        assert(runs[i].text_range.end == runs[i + 1].text_range.start);
        assert(is_utf16_boundary(chars, runs[i + 1].text_range.start as int));
    } else {
        assert(runs.last() == runs[i]);
    }
    if runs.len() > 1 {
        assert(runs[i].text_range.start < runs[i].text_range.end);
    }
}

/// Converts the runs that the analyzers reported on `wide_text`, the UTF-16 encoding of `text`,
/// to UTF-8 offsets of `text`, and gives each run the direction of its bidi level.
pub fn utf8_runs(runs: &Vec<TextAnalyzerRun>, text: &str, wide_text: &[u16]) -> (r: Vec<
    TextAnalyzerRun,
>)
    requires
        runs_partition(runs@),
        covered_len(runs@) == wide_text@.len(),
        wide_text@ == encode_utf16(text@),
        encode_utf8(text@).len() <= usize::MAX,
        forall|i: int|
            0 <= i < runs@.len() ==> is_utf16_boundary(
                text@,
                #[trigger] runs@[i].text_range.start as int,
            ),
    ensures
        r@.len() == runs@.len(),
        forall|i: int| 0 <= i < runs@.len() ==> r@[i] == spec_utf8_run(#[trigger] runs@[i], text@),
        runs_partition(r@),
        covered_len(r@) == encode_utf8(text@).len(),
        forall|i: int|
            0 <= i < r@.len() ==> is_utf8_boundary(text@, #[trigger] r@[i].text_range.start as int)
                && is_utf8_boundary(text@, r@[i].text_range.end as int),
{
    let ghost chars = text@;
    let mut converter = UtfIndexConverter::new(text, wide_text);
    let mut result: Vec<TextAnalyzerRun> = Vec::new();
    let mut i: usize = 0;
    proof {
        lemma_partition_first(runs@);
        lemma_char_index_of_offset(chars, 0);
        lemma_offset_ends(chars);
    }
    while i < runs.len()
        invariant
            chars == text@,
            runs_partition(runs@),
            covered_len(runs@) == wide_text@.len(),
            wide_text@ == encode_utf16(chars),
            forall|j: int|
                0 <= j < runs@.len() ==> is_utf16_boundary(
                    chars,
                    #[trigger] runs@[j].text_range.start as int,
                ),
            i <= runs@.len(),
            result@.len() == i,
            forall|j: int| 0 <= j < i ==> result@[j] == spec_utf8_run(#[trigger] runs@[j], chars),
            converter.wf(),
            converter.utf8_str == text,
            converter.utf16_str == wide_text,
            i < runs@.len() ==> converter.boundary() <= char_index_of_utf16(
                chars,
                runs@[i as int].text_range.start as int,
            ),
        decreases runs@.len() - i,
    {
        proof {
            lemma_run_end_boundary(runs@, chars, i as int);
        }
        let run = utf8_run(&mut converter, &runs[i]);
        result.push(run);
        i += 1;
    }
    proof {
        lemma_utf8_runs_partition(runs@, chars, result@);
    }
    result
}

/// Run `r` spans the UTF-8 offsets of the UTF-16 boundaries that `run` spans.
spec fn converted_span(r: TextAnalyzerRun, run: TextAnalyzerRun, chars: Seq<char>) -> bool {
    &&& is_utf16_boundary(chars, run.text_range.start as int)
    &&& is_utf16_boundary(chars, run.text_range.end as int)
    &&& r.text_range.start == utf8_of_utf16(chars, run.text_range.start as int)
    &&& r.text_range.end == utf8_of_utf16(chars, run.text_range.end as int)
}

/// Runs that span the UTF-8 offsets of a partition of the UTF-16 text partition the UTF-8 text.
#[verifier::rlimit(40)]
proof fn lemma_converted_partition(runs: Seq<TextAnalyzerRun>, chars: Seq<char>, r: Seq<
    TextAnalyzerRun,
>)
    requires
        runs_partition(runs),
        covered_len(runs) == encode_utf16(chars).len(),
        r.len() == runs.len(),
        forall|i: int| 0 <= i < runs.len() ==> converted_span(#[trigger] r[i], runs[i], chars),
    ensures
        runs_partition(r),
        covered_len(r) == encode_utf8(chars).len(),
{
    reveal(runs_partition);
    let last = runs.len() - 1;
    assert(converted_span(r[0], runs[0], chars));
    assert(converted_span(r[last], runs[last], chars));
    lemma_utf8_of_utf16_order(chars, 0, 0);
    assert(runs.last() == runs[last]);
    assert(r.last() == r[last]);
    lemma_utf8_of_utf16_order(chars, runs[last].text_range.end as int, 0);
    assert forall|i: int, j: int| 0 <= i < j < r.len() implies #[trigger] r[i].text_range.end
        <= #[trigger] r[j].text_range.start by {
        assert(converted_span(r[i], runs[i], chars));
        assert(converted_span(r[j], runs[j], chars));
        assert(runs[i].text_range.end <= runs[j].text_range.start);
        lemma_utf8_of_utf16_order(
            chars,
            runs[i].text_range.end as int,
            runs[j].text_range.start as int,
        );
    }
    assert forall|i: int| 0 <= i < r.len() implies r.len() == 1 || #[trigger] r[i].text_range.start
        < r[i].text_range.end by {
        if r.len() != 1 {
            assert(converted_span(r[i], runs[i], chars));
            assert(runs[i].text_range.start < runs[i].text_range.end);
            lemma_utf8_of_utf16_order(
                chars,
                runs[i].text_range.start as int,
                runs[i].text_range.end as int,
            );
        }
    }
    assert forall|i: int| 0 <= i < r.len() - 1 implies #[trigger] r[i].text_range.end == r[i
        + 1].text_range.start by {
        assert(converted_span(r[i], runs[i], chars));
        assert(converted_span(r[i + 1], runs[i + 1], chars));
        assert(runs[i].text_range.end == runs[i + 1].text_range.start);
    }
}

/// The UTF-8 runs of a partition of the UTF-16 text again partition the UTF-8 text, on code-point
/// boundaries.
proof fn lemma_utf8_runs_partition(runs: Seq<TextAnalyzerRun>, chars: Seq<char>, r: Seq<
    TextAnalyzerRun,
>)
    requires
        runs_partition(runs),
        covered_len(runs) == encode_utf16(chars).len(),
        encode_utf8(chars).len() <= usize::MAX,
        forall|j: int|
            0 <= j < runs.len() ==> is_utf16_boundary(chars, #[trigger] runs[j].text_range.start as int),
        r.len() == runs.len(),
        forall|i: int| 0 <= i < runs.len() ==> r[i] == spec_utf8_run(#[trigger] runs[i], chars),
    ensures
        runs_partition(r),
        covered_len(r) == encode_utf8(chars).len(),
        forall|i: int|
            0 <= i < r.len() ==> is_utf8_boundary(chars, #[trigger] r[i].text_range.start as int)
                && is_utf8_boundary(chars, r[i].text_range.end as int),
{
    assert forall|i: int| 0 <= i < runs.len() implies converted_span(#[trigger] r[i], runs[i], chars)
        && is_utf8_boundary(chars, r[i].text_range.start as int) && is_utf8_boundary(
        chars,
        r[i].text_range.end as int,
    ) by {
        lemma_run_end_boundary(runs, chars, i);
        assert(r[i] == spec_utf8_run(runs[i], chars));
        lemma_utf8_of_utf16_order(
            chars,
            runs[i].text_range.start as int,
            runs[i].text_range.end as int,
        );
        lemma_utf8_of_utf16_order(
            chars,
            runs[i].text_range.end as int,
            runs[i].text_range.start as int,
        );
    }
    lemma_converted_partition(runs, chars, r);
}

/// Converts a cluster map over UTF-16 code units to one over UTF-8 code units: for each UTF-8
/// code unit of `text_range`, the entry of `cluster_map` for the code point that holds it.
/// `cluster_map` covers the same text, starting at UTF-16 offset `wtext_start`.
pub fn utf8_cluster_map(
    text: &str,
    wide_text: &[u16],
    text_range: Range<usize>,
    wtext_start: usize,
    cluster_map: &[u16],
) -> (r: ClusterMap)
    requires
        wide_text@ == encode_utf16(text@),
        encode_utf8(text@).len() <= usize::MAX,
        is_utf8_boundary(text@, text_range.start as int),
        is_utf8_boundary(text@, text_range.end as int),
        text_range.start <= text_range.end,
        text_range.start < encode_utf8(text@).len(),
        wtext_start == utf16_offset(text@, char_index_of_utf8(text@, text_range.start as int)),
        cluster_map@.len() == utf16_offset(text@, char_index_of_utf8(text@, text_range.end as int))
            - wtext_start,
    ensures
        cluster_map_items(r).len() == text_range.end - text_range.start,
        forall|k: int|
            0 <= k < cluster_map_items(r).len() ==> #[trigger] cluster_map_items(r)[k]
                == cluster_map@[utf16_indexes_of_utf8_bytes(text@)[text_range.start + k]
                - wtext_start] as usize,
{
    let ghost chars = text@;
    let ghost m0 = char_index_of_utf8(chars, text_range.start as int);
    let ghost me = char_index_of_utf8(chars, text_range.end as int);
    let mut converter = UtfIndexConverter {
        utf8_str: text,
        utf16_str: wide_text,
        initial: true,
        utf8_index: text_range.start,
        utf16_index: wtext_start,
    };
    proof {
        lemma_offset_ends(chars);
        assert(converter.at_boundary(m0));
        converter.lemma_boundary();
        if m0 == chars.len() {
            assert(false);
        }
        lemma_offset_bounds(chars, m0);
        lemma_offset_monotone(chars, m0, me);
    }
    // The converter gives at least the pair it starts at.
    let mut next_index_pair = converter.next().unwrap();
    let mut wide_index: usize = 0;
    let mut result = cluster_map_with_capacity(text.len());
    let mut i = text_range.start;
    while i < text_range.end
        invariant
            chars == text@,
            wide_text@ == encode_utf16(chars),
            converter.wf(),
            converter.utf8_str == text,
            converter.utf16_str == wide_text,
            !converter.initial,
            0 <= m0 <= converter.boundary() <= chars.len(),
            0 <= me <= chars.len(),
            utf8_offset(chars, m0) == text_range.start,
            utf8_offset(chars, me) == text_range.end,
            utf16_offset(chars, m0) == wtext_start,
            cluster_map@.len() == utf16_offset(chars, me) - wtext_start,
            next_index_pair == (
                utf8_offset(chars, converter.boundary()) as usize,
                utf16_offset(chars, converter.boundary()) as usize,
            ),
            text_range.start <= i <= text_range.end,
            i <= utf8_offset(chars, converter.boundary()),
            i < utf8_offset(chars, converter.boundary()) ==> converter.boundary() > m0 && utf8_offset(
                chars,
                converter.boundary() - 1,
            ) <= i && wide_index == utf16_offset(chars, converter.boundary() - 1),
            cluster_map_items(result).len() == i - text_range.start,
            forall|k: int|
                0 <= k < cluster_map_items(result).len() ==> #[trigger] cluster_map_items(result)[k]
                    == cluster_map@[utf16_indexes_of_utf8_bytes(chars)[text_range.start + k]
                    - wtext_start] as usize,
        decreases text_range.end - i,
    {
        proof {
            converter.lemma_boundary();
            lemma_offset_bounds(chars, converter.boundary());
        }
        if i == next_index_pair.0 {
            wide_index = next_index_pair.1;
            proof {
                lemma_offset_monotone(chars, converter.boundary(), me);
                if converter.boundary() == chars.len() {
                    lemma_offset_monotone(chars, me, chars.len() as int);
                    assert(false);
                }
            }
            // The converter gives the end pair, and the loop stops before it.
            next_index_pair = converter.next().unwrap();
            proof {
                converter.lemma_boundary();
                lemma_offset_monotone(chars, converter.boundary() - 1, converter.boundary());
                if converter.boundary() - 1 < converter.boundary() {
                    crate::text_encoding::lemma_offset_strictly_increasing(
                        chars,
                        converter.boundary() - 1,
                        converter.boundary(),
                    );
                }
            }
        }
        let ghost c = converter.boundary() - 1;
        proof {
            lemma_offset_bounds(chars, c);
            lemma_offset_ends(chars);
            lemma_char_containing_utf8_byte(chars, i as int, c);
            lemma_containing_char_unique(chars, i as int, c, char_containing_utf8_byte(chars, i as int));
            lemma_offset_monotone(chars, m0, c);
            lemma_offset_monotone(chars, c + 1, me);
            if c + 1 > me {
                lemma_offset_monotone(chars, me, c);
            }
            lemma_offset_monotone(chars, me, c);
            if c < me {
                crate::text_encoding::lemma_offset_strictly_increasing(chars, c, me);
            }
        }
        cluster_map_push(&mut result, cluster_map[wide_index - wtext_start] as usize);
        i += 1;
    }
    result
}

/// A byte of a range between two code-point boundaries lies in a code point of the range, so
/// the UTF-16 offset given for it lies in the UTF-16 range.
proof fn lemma_byte_offset_in_range(chars: Seq<char>, start: int, end: int, b: int)
    requires
        is_utf8_boundary(chars, start),
        is_utf8_boundary(chars, end),
        start <= b < end,
    ensures
        utf16_offset(chars, char_index_of_utf8(chars, start)) <= utf16_offset(
            chars,
            char_containing_utf8_byte(chars, b),
        ) < utf16_offset(chars, char_index_of_utf8(chars, end)),
{
    let ks = char_index_of_utf8(chars, start);
    let ke = char_index_of_utf8(chars, end);
    lemma_char_index_of_offset(chars, ks);
    lemma_char_index_of_offset(chars, ke);
    lemma_offset_bounds(chars, ke);
    lemma_char_containing_utf8_byte(chars, b, 0);
    let c = char_containing_utf8_byte(chars, b);
    lemma_offset_monotone(chars, ks, c + 1);
    lemma_offset_monotone(chars, ke, c);
    if ks > c {
        lemma_offset_monotone(chars, c + 1, ks);
    }
    lemma_offset_monotone(chars, ks, c);
    if c + 1 <= ke {
        lemma_offset_strictly_increasing(chars, c, ke);
    }
}

/// The UTF-16 cluster entry that byte `start + k` of a range takes is one of the range's.
proof fn lemma_shaped_entry_index(
    chars: Seq<char>,
    start: int,
    end: int,
    wtext_start: int,
    map_len: int,
    k: int,
)
    requires
        is_utf8_boundary(chars, start),
        is_utf8_boundary(chars, end),
        0 <= k < end - start,
        encode_utf16(chars).len() <= usize::MAX,
        wtext_start == utf16_offset(chars, char_index_of_utf8(chars, start)),
        map_len == utf16_offset(chars, char_index_of_utf8(chars, end)) - wtext_start,
    ensures
        start + k < utf16_indexes_of_utf8_bytes(chars).len(),
        0 <= utf16_indexes_of_utf8_bytes(chars)[start + k] - wtext_start < map_len,
{
    let b = start + k;
    let ke = char_index_of_utf8(chars, end);
    lemma_char_index_of_offset(chars, ke);
    lemma_offset_bounds(chars, ke);
    lemma_byte_offset_in_range(chars, start, end, b);
    let c = char_containing_utf8_byte(chars, b);
    lemma_char_containing_utf8_byte(chars, b, 0);
    lemma_offset_bounds(chars, c);
}

/// The UTF-8 cluster entries of a range each index a glyph when the UTF-16 entries do, and the
/// bytes of one code point share their entry.
proof fn lemma_shaped_entries(
    chars: Seq<char>,
    start: int,
    end: int,
    wtext_start: int,
    cluster_map: Seq<u16>,
    glyph_count: int,
    items: Seq<usize>,
)
    requires
        is_utf8_boundary(chars, start),
        is_utf8_boundary(chars, end),
        start <= end,
        encode_utf16(chars).len() <= usize::MAX,
        wtext_start == utf16_offset(chars, char_index_of_utf8(chars, start)),
        cluster_map.len() == utf16_offset(chars, char_index_of_utf8(chars, end)) - wtext_start,
        forall|i: int| 0 <= i < cluster_map.len() ==> #[trigger] cluster_map[i] < glyph_count,
        items.len() == end - start,
        forall|k: int|
            0 <= k < items.len() ==> #[trigger] items[k] == cluster_map[utf16_indexes_of_utf8_bytes(
                chars,
            )[start + k] - wtext_start] as usize,
    ensures
        forall|k: int| 0 <= k < items.len() ==> #[trigger] items[k] < glyph_count,
        forall|a: int, b: int|
            0 <= a < items.len() && 0 <= b < items.len() && char_containing_utf8_byte(
                chars,
                start + a,
            ) == char_containing_utf8_byte(chars, start + b) ==> #[trigger] items[a]
                == #[trigger] items[b],
{
    assert forall|k: int| 0 <= k < items.len() implies #[trigger] items[k] < glyph_count by {
        lemma_shaped_entry_index(chars, start, end, wtext_start, cluster_map.len() as int, k);
        let i = utf16_indexes_of_utf8_bytes(chars)[start + k] - wtext_start;
        assert(cluster_map[i] < glyph_count);
    }
    assert forall|a: int, b: int|
        0 <= a < items.len() && 0 <= b < items.len() && char_containing_utf8_byte(chars, start + a)
            == char_containing_utf8_byte(chars, start + b) implies #[trigger] items[a]
        == #[trigger] items[b] by {
        lemma_shaped_entry_index(chars, start, end, wtext_start, cluster_map.len() as int, a);
        lemma_shaped_entry_index(chars, start, end, wtext_start, cluster_map.len() as int, b);
    }
}

/// The glyph run of `text_range` from what the shaper gave for the UTF-16 text of the range
/// (which starts at `wtext_start`): its glyphs, and for each UTF-16 code unit the index of the
/// first glyph of its cluster. The run gets the glyphs as they are and, for each UTF-8 byte of
/// the range, the cluster entry of the code point holding it; so the bytes of one code point
/// share their entry, and every entry indexes a glyph.
pub fn shaped_glyph_run(
    text: &str,
    wide_text: &[u16],
    text_range: Range<usize>,
    run: TextAnalyzerRun,
    wtext_start: usize,
    cluster_map: &[u16],
    glyphs: &[u16],
) -> (r: TextAnalyzerGlyphRun)
    requires
        wide_text@ == encode_utf16(text@),
        encode_utf8(text@).len() <= usize::MAX,
        is_utf8_boundary(text@, text_range.start as int),
        is_utf8_boundary(text@, text_range.end as int),
        text_range.start <= text_range.end,
        text_range.start < encode_utf8(text@).len(),
        wtext_start == utf16_offset(text@, char_index_of_utf8(text@, text_range.start as int)),
        cluster_map@.len() == utf16_offset(text@, char_index_of_utf8(text@, text_range.end as int))
            - wtext_start,
        forall|i: int| 0 <= i < cluster_map@.len() ==> #[trigger] cluster_map@[i] < glyphs@.len(),
    ensures
        r.run == run,
        r.text_range == text_range,
        glyph_items(r.glyphs) == glyphs@,
        cluster_map_items(r.cluster_map).len() == text_range.end - text_range.start,
        forall|k: int|
            0 <= k < cluster_map_items(r.cluster_map).len() ==> #[trigger] cluster_map_items(
                r.cluster_map,
            )[k] == cluster_map@[utf16_indexes_of_utf8_bytes(text@)[text_range.start + k]
                - wtext_start] as usize,
        forall|k: int|
            0 <= k < cluster_map_items(r.cluster_map).len() ==> #[trigger] cluster_map_items(
                r.cluster_map,
            )[k] < glyphs@.len(),
        forall|a: int, b: int|
            0 <= a < cluster_map_items(r.cluster_map).len() && 0 <= b < cluster_map_items(
                r.cluster_map,
            ).len() && char_containing_utf8_byte(text@, text_range.start + a)
                == char_containing_utf8_byte(text@, text_range.start + b) ==> #[trigger] cluster_map_items(
                r.cluster_map,
            )[a] == #[trigger] cluster_map_items(r.cluster_map)[b],
{
    let utf8_map = utf8_cluster_map(
        text,
        wide_text,
        text_range.start..text_range.end,
        wtext_start,
        cluster_map,
    );
    let glyph_list = GlyphList::from_slice(glyphs);
    let wide_len: usize = wide_text.len();
    proof {
        assert(encode_utf16(text@).len() == wide_len);
        lemma_shaped_entries(
            text@,
            text_range.start as int,
            text_range.end as int,
            wtext_start as int,
            cluster_map@,
            glyphs@.len() as int,
            cluster_map_items(utf8_map),
        );
    }
    TextAnalyzerGlyphRun::new(run, text_range, utf8_map, glyph_list)
}

/// The UTF-16 offsets of `text_range`, found by converting forward from `last_index_pair`, the
/// (UTF-8, UTF-16) offsets of a boundary at or before the range that an earlier call ended at;
/// also the pair to start the next call from, which is the end of the range.
pub fn glyph_run_utf16_range(
    text: &str,
    wide_text: &[u16],
    last_index_pair: (u32, u32),
    text_range: Range<usize>,
) -> (r: (usize, usize, (u32, u32)))
    requires
        wide_text@ == encode_utf16(text@),
        encode_utf8(text@).len() <= u32::MAX,
        exists|k: int|
            0 <= k <= text@.len() && utf8_offset(text@, k) == last_index_pair.0 && utf16_offset(
                text@,
                k,
            ) == last_index_pair.1,
        is_utf8_boundary(text@, text_range.start as int),
        is_utf8_boundary(text@, text_range.end as int),
        last_index_pair.0 <= text_range.start <= text_range.end,
    ensures
        r.0 == utf16_offset(text@, char_index_of_utf8(text@, text_range.start as int)),
        r.1 == utf16_offset(text@, char_index_of_utf8(text@, text_range.end as int)),
        r.2 == (text_range.end as u32, r.1 as u32),
{
    let ghost chars = text@;
    let ghost k = choose|k: int|
        0 <= k <= chars.len() && utf8_offset(chars, k) == last_index_pair.0 && utf16_offset(
            chars,
            k,
        ) == last_index_pair.1;
    let ghost ks = char_index_of_utf8(chars, text_range.start as int);
    let ghost ke = char_index_of_utf8(chars, text_range.end as int);
    let mut converter = UtfIndexConverter {
        utf8_str: text,
        utf16_str: wide_text,
        initial: true,
        utf8_index: last_index_pair.0 as usize,
        utf16_index: last_index_pair.1 as usize,
    };
    proof {
        lemma_offset_ends(chars);
        lemma_offset_bounds(chars, k);
        lemma_offset_bounds(chars, ks);
        lemma_offset_bounds(chars, ke);
        assert(converter.at_boundary(k));
        converter.lemma_boundary();
        lemma_offset_monotone(chars, k, ks);
        lemma_offset_monotone(chars, ks, ke);
    }
    let wtext_start = converter.convert_to_utf16_index(text_range.start);
    proof {
        converter.lemma_boundary();
        lemma_char_index_of_offset(chars, converter.boundary());
    }
    let wtext_end = converter.convert_to_utf16_index(text_range.end);
    proof {
        converter.lemma_boundary();
        lemma_char_index_of_offset(chars, converter.boundary());
        lemma_offset_bounds(chars, converter.boundary());
        crate::text_encoding::lemma_offset_injective(chars, converter.boundary(), ke);
    }
    (wtext_start, wtext_end, (converter.utf8_index as u32, converter.utf16_index as u32))
}

/// The number of glyphs to make room for when shaping `text_units` UTF-16 code units: one per
/// code unit and 16 more (there are rarely more glyphs than characters).
pub fn initial_glyph_buffer_capacity(text_units: usize) -> (r: usize)
    requires
        text_units + 16 <= usize::MAX,
    ensures
        r == text_units + 16,
{
    text_units + 16
}

/// The glyph buffer capacity to retry with when shaping reports that the buffer is too small:
/// half as much again.
pub fn grown_glyph_buffer_capacity(capacity: usize) -> (r: usize)
    requires
        3 * capacity <= usize::MAX,
    ensures
        r == 3 * capacity / 2,
        capacity >= 2 ==> r > capacity,
{
    3 * capacity / 2
}

/// The line breaking analysis of one code unit (`DWRITE_LINE_BREAKPOINT`, whose bit fields are
/// packed in one byte).
#[derive(Debug, Clone, Copy, PartialEq, Eq, Structural)]
pub struct LineBreakpoint(pub u8);

/// Collects the line breaking analysis of each code unit of a text.
pub struct DWriteLineBreakAnalysisSink {
    pub breakpoints: Vec<Option<LineBreakpoint>>,
}

impl DWriteLineBreakAnalysisSink {
    /// A sink with no code units.
    pub fn new() -> (r: Self)
        ensures
            r.breakpoints@.len() == 0,
    {
        DWriteLineBreakAnalysisSink { breakpoints: Vec::new() }
    }

    /// Starts over with `new_len` code units, none of them analyzed.
    pub fn clear_and_resize(&mut self, new_len: usize)
        ensures
            final(self).breakpoints@ == Seq::new(new_len as nat, |i: int| None::<LineBreakpoint>),
    {
        self.breakpoints.clear();
        let mut i: usize = 0;
        while i < new_len
            invariant
                i <= new_len,
                self.breakpoints@ == Seq::new(i as nat, |j: int| None::<LineBreakpoint>),
            decreases new_len - i,
        {
            self.breakpoints.push(None);
            i += 1;
            assert(self.breakpoints@ =~= Seq::new(i as nat, |j: int| None::<LineBreakpoint>));
        }
    }

    /// The line breaking analyzer's report on `text_position..text_position + text_length`:
    /// each of those code units gets the entry of `line_breakpoints` at its own index in the text
    /// (so the report's entries are read from the start of the text, not of the range).
    pub fn set_line_breakpoints(
        &mut self,
        text_position: u32,
        text_length: u32,
        line_breakpoints: &[LineBreakpoint],
    )
        requires
            text_position + text_length <= old(self).breakpoints@.len(),
            text_position + text_length <= line_breakpoints@.len(),
        ensures
            final(self).breakpoints@.len() == old(self).breakpoints@.len(),
            forall|i: int|
                0 <= i < old(self).breakpoints@.len() ==> #[trigger] final(self).breakpoints@[i]
                    == if text_position <= i < text_position + text_length {
                    Some(line_breakpoints@[i])
                } else {
                    old(self).breakpoints@[i]
                },
    {
        let available: usize = self.breakpoints.len();
        assert(text_position + text_length <= available);
        let text_end = text_position as usize + text_length as usize;
        let mut i = text_position as usize;
        while i < text_end
            invariant
                text_position <= i <= text_end,
                text_end == text_position + text_length,
                text_end <= line_breakpoints@.len(),
                self.breakpoints@.len() == old(self).breakpoints@.len(),
                text_end <= self.breakpoints@.len(),
                forall|j: int|
                    0 <= j < old(self).breakpoints@.len() ==> #[trigger] self.breakpoints@[j]
                        == if text_position <= j < i {
                        Some(line_breakpoints@[j])
                    } else {
                        old(self).breakpoints@[j]
                    },
            decreases text_end - i,
        {
            self.breakpoints.set(i, Some(line_breakpoints[i]));
            i += 1;
        }
    }
}

} // verus!
