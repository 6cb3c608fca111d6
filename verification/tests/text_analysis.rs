use std::ops::Range;

use zaffre::small_vecs::{ClusterMap, GlyphList};
use zaffre::text_analyzer::{TextAnalyzerGlyphRun, TextAnalyzerRun, TextDirection};
use zaffre::text_analyzer_backend::{
    direction_from_bidi_levels, glyph_run_utf16_range, shaped_glyph_run, utf8_cluster_map, utf8_runs, BidiLevels,
    DWriteLineBreakAnalysisSink, DWriteRunAnalysisSinkData, LineBreakpoint, ScriptAnalysis,
    TextAnalyzerRunBackend,
};

fn set_bidi_levels(sink: &mut DWriteRunAnalysisSinkData, level_range_calls: &[(u8, Range<usize>)]) {
    for (level, range) in level_range_calls {
        sink.set_bidi_level(range.start as u32, (range.end - range.start) as u32, 0, *level);
    }
}

fn get_bidi_levels(sink: &DWriteRunAnalysisSinkData) -> Vec<(u8, Range<usize>)> {
    sink.runs
        .iter()
        .map(|run| {
            (
                run.backend.bidi_levels.map(|bidi_levels| bidi_levels.resolved_level).unwrap_or(0),
                run.text_range.clone(),
            )
        })
        .collect()
}

#[test]
fn test_dwrite_run_analysis_sink_1() {
    let mut sink = DWriteRunAnalysisSinkData::new();
    sink.clear_and_resize(16);
    let bidi_level_range_calls = &[(0, 0..16)];
    set_bidi_levels(&mut sink, bidi_level_range_calls);
    assert_eq!(get_bidi_levels(&sink), &[(0, 0..16)]);
}

#[test]
fn test_dwrite_run_analysis_sink_2() {
    let mut sink = DWriteRunAnalysisSinkData::new();
    sink.clear_and_resize(23);
    let bidi_level_range_calls = &[(2, 0..6)];
    set_bidi_levels(&mut sink, bidi_level_range_calls);
    assert_eq!(get_bidi_levels(&sink), &[(2, 0..6), (0, 6..23)]);
}

#[test]
fn test_dwrite_run_analysis_sink_3() {
    let mut sink = DWriteRunAnalysisSinkData::new();
    sink.clear_and_resize(23);
    let bidi_level_range_calls = &[(2, 4..7), (3, 0..4), (4, 7..12), (5, 15..20), (6, 10..18)];
    set_bidi_levels(&mut sink, bidi_level_range_calls);
    assert_eq!(
        get_bidi_levels(&sink),
        &[
            (3, 0..4),
            (2, 4..7),
            (4, 7..10),
            (6, 10..12),
            (6, 12..15),
            (6, 15..18),
            (5, 18..20),
            (0, 20..23),
        ]
    );
}

#[test]
fn sink_get_run_range_splits_and_reports_runs() {
    let mut sink = DWriteRunAnalysisSinkData::new();
    sink.clear_and_resize(10);
    assert_eq!(sink.get_run_range(3, 4), 1..2);
    let ranges: Vec<Range<usize>> = sink.runs.iter().map(|r| r.text_range.clone()).collect();
    assert_eq!(ranges, vec![0..3, 3..7, 7..10]);
    assert_eq!(sink.last_run_index, 1);
    // A range that starts before the last one searches from the first run.
    assert_eq!(sink.get_run_range(0, 10), 0..3);
    assert_eq!(sink.last_run_index, 0);
    assert_eq!(sink.runs.len(), 3);
}

#[test]
fn sink_hint_past_the_runs_is_ignored() {
    let mut sink = DWriteRunAnalysisSinkData::new();
    sink.clear_and_resize(10);
    sink.get_run_range(8, 1);
    assert_eq!(sink.last_run_index, 1);
    sink.clear_and_resize(4);
    assert_eq!(sink.runs.len(), 1);
    assert_eq!(sink.last_run_index, 1);
    assert_eq!(sink.get_run_range(1, 2), 1..2);
}

#[test]
fn sink_records_script_and_number_substitution() {
    let mut sink = DWriteRunAnalysisSinkData::new();
    sink.clear_and_resize(8);
    let latin = ScriptAnalysis { script: 49, shapes: 0 };
    sink.set_script_analysis(0, 5, latin);
    sink.set_number_substitution(2, 6, Some(7));
    sink.set_number_substitution(4, 2, None);
    let got: Vec<(Range<usize>, Option<ScriptAnalysis>, Option<usize>)> = sink
        .runs
        .iter()
        .map(|r| (r.text_range.clone(), r.backend.script_analysis, r.backend.number_substitution))
        .collect();
    assert_eq!(
        got,
        vec![
            (0..2, Some(latin), None),
            (2..4, Some(latin), Some(7)),
            (4..5, Some(latin), Some(7)),
            (5..6, None, Some(7)),
            (6..8, None, Some(7)),
        ]
    );
    assert!(sink.runs.iter().all(|r| r.direction == TextDirection::LeftToRight));
}

#[test]
fn direction_follows_resolved_bidi_level() {
    let level = |resolved_level| Some(BidiLevels { explicit_level: 0, resolved_level });
    assert_eq!(direction_from_bidi_levels(None), TextDirection::LeftToRight);
    assert_eq!(direction_from_bidi_levels(level(0)), TextDirection::LeftToRight);
    assert_eq!(direction_from_bidi_levels(level(1)), TextDirection::RightToLeft);
    assert_eq!(direction_from_bidi_levels(level(2)), TextDirection::LeftToRight);
    assert_eq!(direction_from_bidi_levels(level(5)), TextDirection::RightToLeft);
}

#[test]
fn utf8_runs_converts_ranges_and_sets_directions() {
    // "Ей" + "אבא": 2 + 3 UTF-16 code units, 4 + 6 UTF-8 bytes.
    let text = "Ейאבא";
    let wide: Vec<u16> = text.encode_utf16().collect();
    let mut sink = DWriteRunAnalysisSinkData::new();
    sink.clear_and_resize(wide.len());
    sink.set_bidi_level(0, 2, 0, 0);
    sink.set_bidi_level(2, 3, 1, 1);
    let runs = utf8_runs(&sink.runs, text, &wide);
    assert_eq!(runs.len(), 2);
    assert_eq!(runs[0].text_range, 0..4);
    assert_eq!(runs[0].direction, TextDirection::LeftToRight);
    assert_eq!(runs[1].text_range, 4..10);
    assert_eq!(runs[1].direction, TextDirection::RightToLeft);
    assert_eq!(runs[1].backend, sink.runs[1].backend);
}

#[test]
fn utf8_runs_handles_surrogate_pairs() {
    let text = "a🙃b";
    let wide: Vec<u16> = text.encode_utf16().collect();
    let mut sink = DWriteRunAnalysisSinkData::new();
    sink.clear_and_resize(wide.len());
    sink.set_bidi_level(1, 2, 0, 2);
    let runs = utf8_runs(&sink.runs, text, &wide);
    let ranges: Vec<Range<usize>> = runs.iter().map(|r| r.text_range.clone()).collect();
    assert_eq!(ranges, vec![0..1, 1..5, 5..6]);
}

#[test]
fn utf8_cluster_map_repeats_entries_for_each_byte() {
    // "aב🙃": UTF-16 offsets 0, 1, 2 (surrogate pair to 4); UTF-8 offsets 0, 1, 3 (to 7).
    let text = "aב🙃";
    let wide: Vec<u16> = text.encode_utf16().collect();
    let cluster_map = [0u16, 1, 2, 2];
    assert_eq!(
        utf8_cluster_map(text, &wide, 0..7, 0, &cluster_map).to_vec(),
        vec![0, 1, 1, 2, 2, 2, 2]
    );
    // A range that starts inside the text uses the map of that range only.
    let cluster_map = [0u16, 1, 1];
    assert_eq!(utf8_cluster_map(text, &wide, 1..7, 1, &cluster_map).to_vec(), vec![0, 0, 1, 1, 1, 1]);
    assert_eq!(utf8_cluster_map(text, &wide, 3..3, 2, &[]).to_vec(), Vec::<usize>::new());
}

#[test]
fn glyph_run_utf16_range_converts_forward() {
    let text = "hi🙃💙";
    let wide: Vec<u16> = text.encode_utf16().collect();
    assert_eq!(glyph_run_utf16_range(text, &wide, (0, 0), 2..6), (2, 4, (6, 4)));
    assert_eq!(glyph_run_utf16_range(text, &wide, (6, 4), 6..10), (4, 6, (10, 6)));
    assert_eq!(glyph_run_utf16_range(text, &wide, (2, 2), 2..2), (2, 2, (2, 2)));
}

fn glyph_run(text_range: Range<usize>, cluster_map: Vec<usize>, glyphs: Vec<u16>) -> TextAnalyzerGlyphRun {
    let run = TextAnalyzerRun {
        text_range: text_range.clone(),
        direction: TextDirection::LeftToRight,
        backend: TextAnalyzerRunBackend::new(),
    };
    TextAnalyzerGlyphRun::new(run, text_range, ClusterMap::from_slice(&cluster_map), GlyphList::from_slice(&glyphs))
}

#[test]
fn split_off_splits_text_cluster_map_and_glyphs() {
    let mut first = glyph_run(0..6, vec![0, 0, 1, 3, 3, 4], vec![10, 11, 12, 13, 14]);
    let second = first.split_off(3);
    assert_eq!(first.text_range, 0..3);
    assert_eq!(first.cluster_map.to_vec(), vec![0, 0, 1]);
    assert_eq!(first.glyphs.to_vec(), vec![10, 11, 12]);
    assert_eq!(second.text_range, 3..6);
    assert_eq!(second.cluster_map.to_vec(), vec![0, 0, 1]);
    assert_eq!(second.glyphs.to_vec(), vec![13, 14]);
    assert_eq!(second.cluster_map.len(), 3);
    assert_eq!(second.glyphs.len(), 2);
    assert_eq!(second.run.text_range, 0..6);
}

#[test]
fn text_analyzer_run_getters() {
    let run = TextAnalyzerRun {
        text_range: 3..9,
        direction: TextDirection::RightToLeft,
        backend: TextAnalyzerRunBackend::new(),
    };
    assert_eq!(run.text_range(), 3..9);
    assert_eq!(run.direction(), TextDirection::RightToLeft);
    let copy = run.clone();
    assert_eq!(copy.text_range, 3..9);
    assert_eq!(copy.backend.bidi_levels, None);
}

#[test]
fn line_break_sink_fills_the_reported_range() {
    let mut sink = DWriteLineBreakAnalysisSink::new();
    assert!(sink.breakpoints.is_empty());
    sink.clear_and_resize(5);
    assert_eq!(sink.breakpoints, vec![None; 5]);
    let report: Vec<LineBreakpoint> = (0u8..5).map(LineBreakpoint).collect();
    sink.set_line_breakpoints(1, 3, &report);
    assert_eq!(
        sink.breakpoints,
        vec![
            None,
            Some(LineBreakpoint(1)),
            Some(LineBreakpoint(2)),
            Some(LineBreakpoint(3)),
            None
        ]
    );
    sink.clear_and_resize(2);
    assert_eq!(sink.breakpoints, vec![None, None]);
}

#[test]
fn shaped_glyph_run_maps_bytes_to_glyphs() {
    let text = "aב🙃";
    let wide: Vec<u16> = text.encode_utf16().collect();
    let run = TextAnalyzerRun {
        text_range: 0..7,
        direction: TextDirection::LeftToRight,
        backend: TextAnalyzerRunBackend::new(),
    };
    // The shaper made two glyphs for "a" and one for "ב🙃".
    let g = shaped_glyph_run(text, &wide, 1..7, run.clone(), 1, &[0, 0, 0], &[40]);
    assert_eq!(g.text_range, 1..7);
    assert_eq!(g.cluster_map.to_vec(), vec![0, 0, 0, 0, 0, 0]);
    assert_eq!(g.glyphs.to_vec(), vec![40]);
    let g = shaped_glyph_run(text, &wide, 0..7, run, 0, &[0, 2, 3, 3], &[7, 8, 9, 10]);
    assert_eq!(g.cluster_map.to_vec(), vec![0, 2, 2, 3, 3, 3, 3]);
    assert_eq!(g.glyphs.to_vec(), vec![7, 8, 9, 10]);
    assert_eq!(g.run.text_range, 0..7);
}
