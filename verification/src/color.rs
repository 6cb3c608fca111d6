//! Colors as red, green, blue and alpha components.

use vstd::prelude::*;

verus! {

/// A color with red, green, blue and alpha components.
#[derive(Copy, Clone, Debug)]
pub struct Color<N> {
    pub red: N,
    pub green: N,
    pub blue: N,
    pub alpha: N,
}

impl<N: Copy> Color<N> {
    /// The components as a tuple `(red, green, blue, alpha)`.
    pub open spec fn rgba(self) -> (N, N, N, N) {
        (self.red, self.green, self.blue, self.alpha)
    }

    pub fn from_rgba(red: N, green: N, blue: N, alpha: N) -> (r: Self)
        ensures
            r.rgba() == (red, green, blue, alpha),
    {
        Color { red, green, blue, alpha }
    }

    pub fn as_rgba(&self) -> (r: (N, N, N, N))
        ensures
            r == self.rgba(),
    {
        (self.red, self.green, self.blue, self.alpha)
    }
}

/// The components a color is made from are the components it gives back.
pub proof fn lemma_color_components_round_trip<N: Copy>(red: N, green: N, blue: N, alpha: N)
    ensures
        (Color { red, green, blue, alpha }).rgba() == (red, green, blue, alpha),
{
}

} // verus!
