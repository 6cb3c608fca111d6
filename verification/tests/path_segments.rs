use zaffre::path::{segment_data_len, PathSegmentType, SegmentIter};

#[test]
fn segment_iter_gives_each_segment_its_coordinates() {
    let types = [
        PathSegmentType::Move,
        PathSegmentType::QuadCurve,
        PathSegmentType::Close,
        PathSegmentType::Arc,
        PathSegmentType::Line,
    ];
    let data: Vec<i32> = (0..20).collect();
    let mut iter = SegmentIter::new(&types, &data);
    assert_eq!(iter.next(), Some((PathSegmentType::Move, &data[0..2])));
    assert_eq!(iter.next(), Some((PathSegmentType::QuadCurve, &data[2..6])));
    assert_eq!(iter.next(), Some((PathSegmentType::Close, &data[6..6])));
    assert_eq!(iter.next(), Some((PathSegmentType::Arc, &data[6..12])));
    assert_eq!(iter.next(), Some((PathSegmentType::Line, &data[12..14])));
    assert_eq!(iter.next(), None);
    assert_eq!(iter.next(), None);
    assert_eq!((iter.types_index, iter.data_index), (5, 14));
}

#[test]
fn segment_data_lengths() {
    assert_eq!(segment_data_len(PathSegmentType::Move), 2);
    assert_eq!(segment_data_len(PathSegmentType::Line), 2);
    assert_eq!(segment_data_len(PathSegmentType::QuadCurve), 4);
    assert_eq!(segment_data_len(PathSegmentType::CubicCurve), 6);
    assert_eq!(segment_data_len(PathSegmentType::Arc), 6);
    assert_eq!(segment_data_len(PathSegmentType::Close), 0);
}
