use zaffre::coordinates::{BorderSize2, Point2, Rect, Size2};

#[test]
fn test_size() {
    let sz = Size2::new(2i32, 7);
    assert!(sz.width == 2 && sz.height == 7); // width and height

    let sz2 = sz + Size2::new(3, -11); // i32 add
    assert_eq!(&sz2, &Size2::new(5, -4));
    let sz2 = sz - Size2::new(3, -11); // i32 sub
    assert_eq!(&sz2, &Size2::new(-1, 18));
}

#[test]
fn test_rect() {
    let rect = Rect::new(10, 12, 3, 4);
    assert_eq!(&rect.right(), &13);
    assert_eq!(&rect.bottom(), &16);
    assert_eq!(&rect.top_left(), &Point2::new(10, 12));
    assert_eq!(&rect.top_right(), &Point2::new(13, 12));
    assert_eq!(&rect.bottom_right(), &Point2::new(13, 16));
    assert_eq!(&rect.bottom_left(), &Point2::new(10, 16));

    assert!(Rect::new(4, 5, 3, 3).contains_pt(Point2::new(4, 6)));
    assert!(Rect::new(4, 5, 3, 3).contains_pt(Point2::new(6, 6)));
    assert!(!Rect::new(4, 5, 3, 3).contains_pt(Point2::new(7, 6)));
    assert!(Rect::new(4, 5, 3, 3).contains_pt(Point2::new(5, 5)));
    assert!(Rect::new(4, 5, 3, 3).contains_pt(Point2::new(5, 7)));
    assert!(!Rect::new(4, 5, 3, 3).contains_pt(Point2::new(5, 8)));
    assert!(!Rect::new(4, 5, 3, 3).contains_pt(Point2::new(2, 3)));
    assert!(!Rect::new(4, 5, 3, 3).contains_pt(Point2::new(10, 15)));

    assert!(Rect::new(4, 5, 3, 3).contains_rect(Rect::new(5, 6, 1, 1)));
    assert!(Rect::new(4, 5, 3, 3).contains_rect(Rect::new(4, 5, 3, 3)));
    assert!(!Rect::new(4, 5, 3, 3).contains_rect(Rect::new(5, 6, 3, 3)));
    assert!(!Rect::new(4, 5, 3, 3).contains_rect(Rect::new(5, 6, 4, 1)));
    assert!(!Rect::new(4, 5, 3, 3).contains_rect(Rect::new(5, 6, 1, 4)));
    assert!(!Rect::new(4, 5, 3, 3).contains_rect(Rect::new(5, 4, 1, 4)));
    assert!(!Rect::new(4, 5, 3, 3).contains_rect(Rect::new(3, 6, 4, 1)));
    assert!(!Rect::new(4, 5, 3, 3).contains_rect(Rect::new(20, 30, 5, 5)));
    assert!(!Rect::new(4, 5, 3, 3).contains_rect(Rect::new(-20, -30, 5, 5)));

    assert_eq!(&Rect::new(10, 15, 2, 3).normalize(), &Rect::new(10, 15, 2, 3));
    assert_eq!(&Rect::new(10, 15, -2, 3).normalize(), &Rect::new(8, 15, 2, 3));
    assert_eq!(&Rect::new(10, 15, 2, -3).normalize(), &Rect::new(10, 12, 2, 3));
    assert_eq!(&Rect::new(10, 15, -2, -3).normalize(), &Rect::new(8, 12, 2, 3));
}

#[test]
fn test_ops() {
    assert_eq!(&(Rect::new(3, 10, 20, 15) + BorderSize2::new(2, 3, 6, 9)), &Rect::new(1, 7, 28, 27));
    assert_eq!(&(Rect::new(3, 10, 20, 15) - BorderSize2::new(2, 3, 6, 9)), &Rect::new(5, 13, 12, 3));
}

#[test]
fn test_border_size() {
    assert_eq!(
        &(BorderSize2::new(3, 4, 6, 9) + BorderSize2::new(10, 20, 30, 40)),
        &BorderSize2::new(13, 24, 36, 49)
    );
    assert_eq!(
        &(BorderSize2::new(3, 4, 6, 9) - BorderSize2::new(10, 20, 30, 40)),
        &BorderSize2::new(-7, -16, -24, -31)
    );
}

#[test]
fn size_transpose_and_transpose_mut() {
    let sz = Size2::new(3, 8);
    assert_eq!(sz.transpose(), Size2::new(8, 3));
    assert_eq!(sz.transpose().transpose(), sz);
    let mut m = Size2::new(3, 8);
    m.transpose_mut();
    assert_eq!(m, Size2::new(8, 3));
    m.transpose_mut();
    assert_eq!(m, Size2::new(3, 8));
}

#[test]
fn rect_size_and_normalize_laws() {
    let r = Rect::new(-5, 7, -4, -9);
    let n = r.normalize();
    assert_eq!(n, Rect::new(-9, -2, 4, 9));
    assert_eq!(n.normalize(), n);
    assert_eq!(r.size(), Size2::new(-4, -9));
    let b = BorderSize2::new(1, 2, 3, 4);
    assert_eq!((Rect::new(0, 0, 10, 10) + b) - b, Rect::new(0, 0, 10, 10));
    assert_eq!((b + BorderSize2::new(5, 5, 5, 5)) - BorderSize2::new(5, 5, 5, 5), b);
}

#[test]
fn contains_rect_chains_and_reaches_points() {
    let outer = Rect::new(0, 0, 20, 20);
    let middle = Rect::new(2, 3, 10, 10);
    let inner = Rect::new(4, 5, 2, 2);
    assert!(outer.contains_rect(outer));
    assert!(outer.contains_rect(middle) && middle.contains_rect(inner));
    assert!(outer.contains_rect(inner));
    assert!(inner.contains_pt(Point2::new(5, 6)));
    assert!(outer.contains_pt(Point2::new(5, 6)));
    let a = Size2::new(4, -9);
    let b = Size2::new(-3, 12);
    assert_eq!((a + b) - b, a);
    assert_eq!((a - b) + b, a);
}
