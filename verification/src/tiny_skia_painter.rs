//! Painting into a tiny-skia pixmap whose bytes are in RGBA or BGRA order.

use vstd::prelude::*;
use crate::color::Color;

verus! {

/// The order of the color channels in the pixmap's bytes.
#[derive(Debug, Clone, Copy, PartialEq, Eq, Structural)]
pub enum TinySkiaPainterByteOrder {
    Rgba,
    Bgra,
}

/// The channels to hand tiny-skia, which paints in RGBA order, so that the pixmap's bytes come
/// out in `byte_order`: for BGRA the red and blue channels trade places.
pub fn color_to_rgba8(color: Color<u8>, byte_order: TinySkiaPainterByteOrder) -> (r: (
    u8,
    u8,
    u8,
    u8,
))
    ensures
        byte_order == TinySkiaPainterByteOrder::Rgba ==> r == (
            color.red,
            color.green,
            color.blue,
            color.alpha,
        ),
        byte_order == TinySkiaPainterByteOrder::Bgra ==> r == (
            color.blue,
            color.green,
            color.red,
            color.alpha,
        ),
{
    let (r, g, b, a) = color.as_rgba();
    let (r, b) = if byte_order == TinySkiaPainterByteOrder::Rgba {
        (r, b)
    } else {
        (b, r)
    };
    (r, g, b, a)
}

/// Swapping the channels twice gives the color back: painting a color read back from a BGRA
/// pixmap as BGRA again reproduces the pixmap's bytes.
pub proof fn lemma_byte_order_swap_is_involution(c: Color<u8>)
    ensures
        ({
            let swapped = Color { red: c.blue, green: c.green, blue: c.red, alpha: c.alpha };
            (swapped.blue, swapped.green, swapped.red, swapped.alpha) == (
                c.red,
                c.green,
                c.blue,
                c.alpha,
            )
        }),
{
}

} // verus!
