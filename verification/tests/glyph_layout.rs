use std::ops::Range;

use zaffre::glyph_image_slab::{
    GlyphImageFreeList, GlyphImageFreeListBucket, GlyphPainter, GlyphImageSlab, SLAB_HEIGHT_FACTOR,
};
use zaffre::small_vecs::{ClusterMap, GlyphList};
use zaffre::text_analyzer::{TextAnalyzerGlyphRun, TextAnalyzerRun, TextDirection};
use zaffre::text_analyzer_backend::TextAnalyzerRunBackend;
use zaffre::text_layout::{GlyphIter, GlyphPosition};

/// A glyph run with the cluster map and glyph count that shaping the text gives.
fn glyph_run(text_len: usize, cluster_map: Vec<usize>, glyph_count: usize) -> TextAnalyzerGlyphRun {
    let text_range: Range<usize> = 0..text_len;
    let run = TextAnalyzerRun {
        text_range: text_range.clone(),
        direction: TextDirection::LeftToRight,
        backend: TextAnalyzerRunBackend::new(),
    };
    TextAnalyzerGlyphRun::new(
        run,
        text_range,
        ClusterMap::from_slice(&cluster_map),
        GlyphList::from_slice(&vec![0; glyph_count]),
    )
}

#[test]
fn test_glyph_iter_english() {
    // "Hi": one glyph per byte.
    let glyph_runs = vec![glyph_run(2, vec![0, 1], 2)];
    assert_eq!(glyph_runs.len(), 1);

    let mut iter = GlyphIter::new();

    let pos = iter.next(&glyph_runs).unwrap();
    assert_eq!(pos.glyph_index, 0);
    assert_eq!(pos.text_index, 0);
    assert_eq!(pos.is_cluster_start, true);

    let pos = iter.next(&glyph_runs).unwrap();
    assert_eq!(pos.glyph_index, 1);
    assert_eq!(pos.text_index, 1);
    assert_eq!(pos.is_cluster_start, true);

    let pos = iter.next(&glyph_runs);
    assert_eq!(pos, None);
}

#[test]
fn test_glyph_iter_hebrew() {
    // "בא": Hebrew characters are two bytes each in UTF-8.
    let glyph_runs = vec![glyph_run(4, vec![0, 0, 1, 1], 2)];
    assert_eq!(glyph_runs.len(), 1);

    let mut iter = GlyphIter::new();

    let pos = iter.next(&glyph_runs).unwrap();
    assert_eq!(pos.glyph_index, 0);
    assert_eq!(pos.text_index, 0);
    assert_eq!(pos.is_cluster_start, true);

    let pos = iter.next(&glyph_runs).unwrap();
    assert_eq!(pos.glyph_index, 1);
    assert_eq!(pos.text_index, 2);
    assert_eq!(pos.is_cluster_start, true);

    let pos = iter.next(&glyph_runs);
    assert_eq!(pos, None);
}

#[test]
fn test_glyph_iter_devanagari() {
    // "काकि" has 4 code points of 3 bytes each. They shape to 4 glyphs in two clusters, and the
    // second vowel glyph comes before the second consonant glyph.
    let glyph_runs = vec![glyph_run(12, vec![0, 0, 0, 0, 0, 0, 2, 2, 2, 2, 2, 2], 4)];
    assert_eq!(glyph_runs.len(), 1);

    let mut iter = GlyphIter::new();

    let pos = iter.next(&glyph_runs).unwrap();
    assert_eq!(pos.glyph_index, 0);
    assert_eq!(pos.text_index, 0);
    assert_eq!(pos.is_cluster_start, true);

    let pos = iter.next(&glyph_runs).unwrap();
    assert_eq!(pos.glyph_index, 1);
    assert_eq!(pos.text_index, 0);
    assert_eq!(pos.is_cluster_start, false);

    let pos = iter.next(&glyph_runs).unwrap();
    assert_eq!(pos.glyph_index, 2);
    assert_eq!(pos.text_index, 6);
    assert_eq!(pos.is_cluster_start, true);

    let pos = iter.next(&glyph_runs).unwrap();
    assert_eq!(pos.glyph_index, 3);
    assert_eq!(pos.text_index, 6);
    assert_eq!(pos.is_cluster_start, false);

    let pos = iter.next(&glyph_runs);
    assert_eq!(pos, None);
}

#[test]
fn test_glyph_iter_second_run() {
    // "Ейאבא" gives a Ukrainian run and a Hebrew run.
    let glyph_runs = vec![glyph_run(4, vec![0, 0, 1, 1], 2), glyph_run(6, vec![0, 0, 1, 1, 2, 2], 3)];
    assert_eq!(glyph_runs.len(), 2);

    let glyph_runs_hebrew = &glyph_runs[1..];
    let mut iter = GlyphIter::new();

    let pos = iter.next(glyph_runs_hebrew).unwrap();
    assert_eq!(pos.glyph_index, 0);
    assert_eq!(pos.text_index, 0);
    assert_eq!(pos.is_cluster_start, true);

    let pos = iter.next(glyph_runs_hebrew).unwrap();
    assert_eq!(pos.glyph_index, 1);
    assert_eq!(pos.text_index, 2);
    assert_eq!(pos.is_cluster_start, true);

    let pos = iter.next(glyph_runs_hebrew).unwrap();
    assert_eq!(pos.glyph_index, 2);
    assert_eq!(pos.text_index, 4);
    assert_eq!(pos.is_cluster_start, true);
}

#[test]
fn glyph_iter_visits_every_glyph_of_every_run_in_order() {
    let glyph_runs = vec![glyph_run(4, vec![0, 0, 1, 1], 2), glyph_run(6, vec![0, 0, 1, 1, 2, 2], 3)];
    let mut iter = GlyphIter::new();
    let mut visited = Vec::new();
    while let Some(pos) = iter.next(&glyph_runs) {
        visited.push((pos.run_index, pos.glyph_index, pos.text_index));
    }
    assert_eq!(visited, vec![(0, 0, 0), (0, 1, 2), (1, 0, 0), (1, 1, 2), (1, 2, 4)]);
    assert_eq!(iter.pos.run_index, 2);
    assert_eq!(iter.next(&glyph_runs), None);
}

#[test]
fn glyph_iter_reset_moves_back() {
    let glyph_runs = vec![glyph_run(3, vec![0, 1, 2], 3)];
    let mut iter = GlyphIter::new();
    let first = iter.next(&glyph_runs).unwrap();
    iter.next(&glyph_runs);
    iter.reset(first);
    assert_eq!(iter.next(&glyph_runs), Some(first));
    assert_eq!(GlyphPosition::default(), first);
}

#[test]
fn glyph_image_slab_test_glyph_free_list_width_to_index() {
    assert_eq!(GlyphImageFreeList::width_to_index(4), 0);
    assert_eq!(GlyphImageFreeList::width_to_index(7), 0);
    assert_eq!(GlyphImageFreeList::width_to_index(8), 0);
    assert_eq!(GlyphImageFreeList::width_to_index(9), 1);
    assert_eq!(GlyphImageFreeList::width_to_index(15), 1);
    assert_eq!(GlyphImageFreeList::width_to_index(16), 1);
    assert_eq!(GlyphImageFreeList::width_to_index(17), 2);
}

#[test]
fn glyph_image_slab_test_glyph_free_list_index_to_width() {
    assert_eq!(GlyphImageFreeList::index_to_width(0), 8);
    assert_eq!(GlyphImageFreeList::index_to_width(1), 16);
    assert_eq!(GlyphImageFreeList::index_to_width(2), 32);
}

#[test]
fn glyph_painter_test_glyph_free_list_width_to_index() {
    assert_eq!(GlyphImageFreeList::width_to_index(4), 0);
    assert_eq!(GlyphImageFreeList::width_to_index(7), 0);
    assert_eq!(GlyphImageFreeList::width_to_index(8), 0);
    assert_eq!(GlyphImageFreeList::width_to_index(9), 1);
    assert_eq!(GlyphImageFreeList::width_to_index(15), 1);
    assert_eq!(GlyphImageFreeList::width_to_index(16), 1);
    assert_eq!(GlyphImageFreeList::width_to_index(17), 2);
}

#[test]
fn glyph_painter_test_glyph_free_list_index_to_width() {
    assert_eq!(GlyphImageFreeList::index_to_width(0), 8);
    assert_eq!(GlyphImageFreeList::index_to_width(1), 16);
    assert_eq!(GlyphImageFreeList::index_to_width(2), 32);
}

#[test]
fn glyph_free_list_extreme_widths() {
    assert_eq!(GlyphImageFreeList::width_to_index(0), 0);
    assert_eq!(GlyphImageFreeList::width_to_index(1), 0);
    assert_eq!(GlyphImageFreeList::width_to_index(u32::MAX), 29);
    assert_eq!(GlyphImageFreeList::index_to_width(28), 1 << 31);
}

#[test]
fn glyph_free_list_bucket_width_maps_back() {
    for index in 0..=28usize {
        let width = GlyphImageFreeList::index_to_width(index);
        assert_eq!(GlyphImageFreeList::width_to_index(width), index);
        if index > 0 {
            assert_eq!(GlyphImageFreeList::width_to_index(width / 2 + 1), index);
        }
    }
}

#[test]
fn glyph_image_slab_new_is_empty() {
    let slab = GlyphImageSlab::new(32);
    assert_eq!(slab.width, 32);
    assert_eq!(slab.height, 32 * SLAB_HEIGHT_FACTOR);
    assert_eq!(slab.height, 512);
    assert_eq!((slab.allocation_count, slab.allocated_height), (0, 0));
    let bucket = GlyphImageFreeListBucket::new(64);
    assert_eq!(bucket.width, 64);
    assert!(bucket.images.is_empty());
    assert!(GlyphImageFreeList::new().0.is_empty());
}

#[test]
fn glyph_painter_starts_without_buckets() {
    let painter = GlyphPainter::new();
    assert!(painter.image_buckets.0.is_empty());
}
