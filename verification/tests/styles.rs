use zaffre::color::Color;
use zaffre::font::{FontSlant, FontStretch, FontWeight, OpenTypeFontStretch, OpenTypeFontWeight};
use zaffre::formatted_string::{LineStyle, SmallType};
use zaffre::image_group::{ImageGroup, IMAGE_GROUP_SIZE};
use zaffre::tiny_skia_painter::{color_to_rgba8, TinySkiaPainterByteOrder};
use zaffre::coordinates::Point2;
use zaffre::cubic_bezier::{CubicBezier, CurveType};
use zaffre::quad_bezier::QuadBezier;

#[test]
fn color_components_round_trip() {
    let c = Color::from_rgba(1u8, 2, 3, 4);
    assert_eq!(c.as_rgba(), (1, 2, 3, 4));
    assert_eq!((c.red, c.green, c.blue, c.alpha), (1, 2, 3, 4));
}

#[test]
fn byte_order_swaps_red_and_blue() {
    let c = Color::from_rgba(10u8, 20, 30, 40);
    assert_eq!(color_to_rgba8(c, TinySkiaPainterByteOrder::Rgba), (10, 20, 30, 40));
    assert_eq!(color_to_rgba8(c, TinySkiaPainterByteOrder::Bgra), (30, 20, 10, 40));
}

#[test]
fn font_weights_and_stretches_have_open_type_values() {
    assert_eq!(OpenTypeFontWeight::from(FontWeight::Thin), OpenTypeFontWeight(100));
    assert_eq!(OpenTypeFontWeight::from(FontWeight::Normal), OpenTypeFontWeight(400));
    assert_eq!(OpenTypeFontWeight::from(FontWeight::Bold), OpenTypeFontWeight(700));
    assert_eq!(OpenTypeFontWeight::from(FontWeight::ExtraBlack), OpenTypeFontWeight(950));
    assert_eq!(OpenTypeFontStretch::from(FontStretch::UltraCondensed), OpenTypeFontStretch(1));
    assert_eq!(OpenTypeFontStretch::from(FontStretch::Normal), OpenTypeFontStretch(5));
    assert_eq!(OpenTypeFontStretch::from(FontStretch::UltraExpanded), OpenTypeFontStretch(9));
    assert_ne!(FontSlant::Italic, FontSlant::Oblique);
}

#[test]
fn style_enums_and_image_groups() {
    assert!(matches!(LineStyle::Double, LineStyle::Double));
    assert!(matches!(SmallType::Superscript, SmallType::Superscript));
    let group = ImageGroup::new();
    group.add_image();
    assert_eq!(IMAGE_GROUP_SIZE, 4);
}

#[test]
fn bezier_constructors_keep_points() {
    let q = QuadBezier::new(Point2::new(0, 1), Point2::new(2, 3), Point2::new(4, 5));
    assert_eq!(q.p2, Point2::new(4, 5));
    let c = CubicBezier::new(Point2::new(0, 0), Point2::new(1, 1), Point2::new(2, 2), Point2::new(3, 3));
    assert_eq!(c.p3, Point2::new(3, 3));
    assert_ne!(CurveType::Plain, CurveType::FormsLoop);
}
