//! The text styles of formatted strings.

use vstd::prelude::*;

verus! {

/// How a line drawn through, under or over text looks.
#[derive(Debug, Clone, Copy, PartialEq, Eq, Structural)]
pub enum LineStyle {
    /// No line.
    NoLine,
    Single,
    Double,
    Dotted,
}

/// Normal, superscript or subscript text.
#[derive(Debug, Clone, Copy, PartialEq, Eq, Structural)]
pub enum SmallType {
    /// Specifies normal text.
    Normal,
    /// Specifies text smaller than normal and raised above the normal baseline.
    Superscript,
    /// Specifies text smaller than normal and lowered below the normal baseline.
    Subscript,
}

} // verus!
