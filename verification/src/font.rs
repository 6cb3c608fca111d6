//! Font weights, slants and stretches, and their OpenType values.

use vstd::prelude::*;
use vstd::std_specs::convert::FromSpec;

verus! {

/// The common font weights.
#[derive(Debug, Clone, Copy, PartialEq, Eq, Structural)]
pub enum FontWeight {
    Thin,
    ExtraLight,
    Light,
    Normal,
    Medium,
    SemiBold,
    Bold,
    ExtraBold,
    Black,
    ExtraBlack,
}

/// The OpenType weight class of each weight.
pub open spec fn font_weight_value(weight: FontWeight) -> u32 {
    match weight {
        FontWeight::Thin => 100,
        FontWeight::ExtraLight => 200,
        FontWeight::Light => 300,
        FontWeight::Normal => 400,
        FontWeight::Medium => 500,
        FontWeight::SemiBold => 600,
        FontWeight::Bold => 700,
        FontWeight::ExtraBold => 800,
        FontWeight::Black => 900,
        FontWeight::ExtraBlack => 950,
    }
}

/// A weight as an OpenType weight class (`usWeightClass` in the OS/2 table).
#[derive(Debug, Clone, Copy, PartialEq, Eq, Structural)]
pub struct OpenTypeFontWeight(pub u32);

impl From<FontWeight> for OpenTypeFontWeight {
    fn from(weight: FontWeight) -> (r: Self) {
        let value = match weight {
            FontWeight::Thin => 100,
            FontWeight::ExtraLight => 200,
            FontWeight::Light => 300,
            FontWeight::Normal => 400,
            FontWeight::Medium => 500,
            FontWeight::SemiBold => 600,
            FontWeight::Bold => 700,
            FontWeight::ExtraBold => 800,
            FontWeight::Black => 900,
            FontWeight::ExtraBlack => 950,
        };
        OpenTypeFontWeight(value)
    }
}

impl vstd::std_specs::convert::FromSpecImpl<FontWeight> for OpenTypeFontWeight {
    open spec fn obeys_from_spec() -> bool {
        true
    }

    open spec fn from_spec(weight: FontWeight) -> OpenTypeFontWeight {
        OpenTypeFontWeight(font_weight_value(weight))
    }
}

/// Whether glyphs are upright, italic or oblique ("style" in DirectWrite, Pango and CSS; "slant"
/// in Core Text, cairo and Skia).
#[derive(Debug, Clone, Copy, PartialEq, Eq, Structural)]
pub enum FontSlant {
    Normal,
    Italic,
    Oblique,
}

/// The common font stretches.
#[derive(Debug, Clone, Copy, PartialEq, Eq, Structural)]
pub enum FontStretch {
    UltraCondensed,
    ExtraCondensed,
    Condensed,
    SemiCondensed,
    Normal,
    SemiExpanded,
    Expanded,
    ExtraExpanded,
    UltraExpanded,
}

/// The OpenType width class of each stretch, from 1 (ultra-condensed) to 9 (ultra-expanded).
pub open spec fn font_stretch_value(stretch: FontStretch) -> u32 {
    match stretch {
        FontStretch::UltraCondensed => 1,
        FontStretch::ExtraCondensed => 2,
        FontStretch::Condensed => 3,
        FontStretch::SemiCondensed => 4,
        FontStretch::Normal => 5,
        FontStretch::SemiExpanded => 6,
        FontStretch::Expanded => 7,
        FontStretch::ExtraExpanded => 8,
        FontStretch::UltraExpanded => 9,
    }
}

/// A stretch as an OpenType width class (`usWidthClass` in the OS/2 table).
#[derive(Debug, Clone, Copy, PartialEq, Eq, Structural)]
pub struct OpenTypeFontStretch(pub u32);

impl From<FontStretch> for OpenTypeFontStretch {
    fn from(stretch: FontStretch) -> (r: Self) {
        let value = match stretch {
            FontStretch::UltraCondensed => 1,
            FontStretch::ExtraCondensed => 2,
            FontStretch::Condensed => 3,
            FontStretch::SemiCondensed => 4,
            FontStretch::Normal => 5,
            FontStretch::SemiExpanded => 6,
            FontStretch::Expanded => 7,
            FontStretch::ExtraExpanded => 8,
            FontStretch::UltraExpanded => 9,
        };
        OpenTypeFontStretch(value)
    }
}

impl vstd::std_specs::convert::FromSpecImpl<FontStretch> for OpenTypeFontStretch {
    open spec fn obeys_from_spec() -> bool {
        true
    }

    open spec fn from_spec(stretch: FontStretch) -> OpenTypeFontStretch {
        OpenTypeFontStretch(font_stretch_value(stretch))
    }
}

/// Heavier named weights have larger OpenType weight classes, and likewise for stretches: the
/// conversions keep the order of the named values.
pub proof fn lemma_named_values_are_ordered()
    ensures
        font_weight_value(FontWeight::Thin) < font_weight_value(FontWeight::ExtraLight)
            < font_weight_value(FontWeight::Light) < font_weight_value(FontWeight::Normal)
            < font_weight_value(FontWeight::Medium) < font_weight_value(FontWeight::SemiBold)
            < font_weight_value(FontWeight::Bold) < font_weight_value(FontWeight::ExtraBold)
            < font_weight_value(FontWeight::Black) < font_weight_value(FontWeight::ExtraBlack),
        forall|s: FontStretch| 1 <= #[trigger] font_stretch_value(s) <= 9,
        forall|a: FontStretch, b: FontStretch|
            #[trigger] font_stretch_value(a) == #[trigger] font_stretch_value(b) ==> a == b,
        forall|a: FontWeight, b: FontWeight|
            #[trigger] font_weight_value(a) == #[trigger] font_weight_value(b) ==> a == b,
{
}


/// The OpenType width class that converting `stretch` gives.
pub open spec fn converted_stretch_class(stretch: FontStretch) -> u32 {
    <OpenTypeFontStretch as FromSpec<FontStretch>>::from_spec(stretch).0
}

/// The OpenType weight class that converting `weight` gives.
pub open spec fn converted_weight_class(weight: FontWeight) -> u32 {
    <OpenTypeFontWeight as FromSpec<FontWeight>>::from_spec(weight).0
}

/// Converting the named stretches keeps their order, from ultra-condensed to ultra-expanded, and
/// gives them the consecutive width classes 1 to 9; converting the named weights keeps their
/// order, from thin to extra-black, in the hundreds from 100 to 900, with extra-black at 950.
pub proof fn lemma_conversions_keep_named_order()
    ensures
        converted_stretch_class(FontStretch::UltraCondensed) == 1,
        converted_stretch_class(FontStretch::UltraCondensed) + 1 == converted_stretch_class(
            FontStretch::ExtraCondensed,
        ),
        converted_stretch_class(FontStretch::ExtraCondensed) + 1 == converted_stretch_class(
            FontStretch::Condensed,
        ),
        converted_stretch_class(FontStretch::Condensed) + 1 == converted_stretch_class(
            FontStretch::SemiCondensed,
        ),
        converted_stretch_class(FontStretch::SemiCondensed) + 1 == converted_stretch_class(
            FontStretch::Normal,
        ),
        converted_stretch_class(FontStretch::Normal) + 1 == converted_stretch_class(
            FontStretch::SemiExpanded,
        ),
        converted_stretch_class(FontStretch::SemiExpanded) + 1 == converted_stretch_class(
            FontStretch::Expanded,
        ),
        converted_stretch_class(FontStretch::Expanded) + 1 == converted_stretch_class(
            FontStretch::ExtraExpanded,
        ),
        converted_stretch_class(FontStretch::ExtraExpanded) + 1 == converted_stretch_class(
            FontStretch::UltraExpanded,
        ),
        converted_weight_class(FontWeight::Thin) == 100,
        converted_weight_class(FontWeight::Thin) + 100 == converted_weight_class(
            FontWeight::ExtraLight,
        ),
        converted_weight_class(FontWeight::ExtraLight) + 100 == converted_weight_class(
            FontWeight::Light,
        ),
        converted_weight_class(FontWeight::Light) + 100 == converted_weight_class(
            FontWeight::Normal,
        ),
        converted_weight_class(FontWeight::Normal) + 100 == converted_weight_class(
            FontWeight::Medium,
        ),
        converted_weight_class(FontWeight::Medium) + 100 == converted_weight_class(
            FontWeight::SemiBold,
        ),
        converted_weight_class(FontWeight::SemiBold) + 100 == converted_weight_class(
            FontWeight::Bold,
        ),
        converted_weight_class(FontWeight::Bold) + 100 == converted_weight_class(
            FontWeight::ExtraBold,
        ),
        converted_weight_class(FontWeight::ExtraBold) + 100 == converted_weight_class(
            FontWeight::Black,
        ),
        converted_weight_class(FontWeight::Black) + 50 == converted_weight_class(
            FontWeight::ExtraBlack,
        ),
{
}

} // verus!
