use std::ops::Range;

use zaffre::text_analyzer::{TextAnalyzerRun, TextDirection};
use zaffre::text_analyzer_backend::{
    grown_glyph_buffer_capacity, initial_glyph_buffer_capacity, TextAnalyzerRunBackend,
};
use zaffre::text_layout::{format_run_pieces, resolved_alignment, TextAlignment};
use zaffre::wide_ffi_string::WideFfiString;

fn runs(ranges: &[Range<usize>]) -> Vec<TextAnalyzerRun> {
    ranges
        .iter()
        .map(|r| TextAnalyzerRun {
            text_range: r.clone(),
            direction: TextDirection::LeftToRight,
            backend: TextAnalyzerRunBackend::new(),
        })
        .collect()
}

#[test]
fn format_change_at_the_start_keeps_runs_whole() {
    let runs = runs(&[0..4, 4..9]);
    assert_eq!(format_run_pieces(&runs, &[0]), vec![(0, 0..4), (1, 4..9)]);
}

#[test]
fn format_changes_inside_runs_split_them() {
    let runs = runs(&[0..4, 4..9]);
    assert_eq!(
        format_run_pieces(&runs, &[0, 2, 4, 6, 7, 20]),
        vec![(0, 0..2), (0, 2..4), (1, 4..6), (1, 6..7), (1, 7..9)]
    );
}

#[test]
fn empty_text_has_one_empty_piece() {
    let runs = runs(&[0..0]);
    assert_eq!(format_run_pieces(&runs, &[0]), vec![(0, 0..0)]);
    assert_eq!(format_run_pieces(&[], &[0]), vec![]);
}

#[test]
fn glyph_buffer_capacities() {
    assert_eq!(initial_glyph_buffer_capacity(5), 21);
    assert_eq!(grown_glyph_buffer_capacity(21), 31);
    assert_eq!(grown_glyph_buffer_capacity(1), 1);
}

#[test]
fn wide_ffi_string_is_nul_terminated() {
    let units: Vec<u16> = "a\0b".encode_utf16().collect();
    let s = WideFfiString::new(&units);
    assert_eq!(s.len(), 3);
    assert_eq!(s.as_slice(), &[0x61, 0x3F, 0x62, 0]);
    let copy = s.clone();
    assert_eq!(copy.as_slice(), s.as_slice());
    let empty = WideFfiString::new(&[]);
    assert_eq!(empty.len(), 0);
    assert_eq!(empty.as_slice(), &[0]);
}

#[test]
fn text_alignment_values() {
    assert_ne!(TextAlignment::Natural, TextAlignment::Left);
    assert_eq!(TextAlignment::Justify, TextAlignment::Justify);
}

#[test]
fn natural_alignment_follows_the_first_run() {
    let mut rtl = runs(&[0..3, 3..5]);
    assert_eq!(resolved_alignment(TextAlignment::Natural, &rtl), TextAlignment::Left);
    rtl[0].direction = TextDirection::RightToLeft;
    assert_eq!(resolved_alignment(TextAlignment::Natural, &rtl), TextAlignment::Right);
    assert_eq!(resolved_alignment(TextAlignment::Natural, &[]), TextAlignment::Left);
    assert_eq!(resolved_alignment(TextAlignment::Center, &rtl), TextAlignment::Center);
    assert_eq!(resolved_alignment(TextAlignment::Justify, &rtl), TextAlignment::Justify);
}
