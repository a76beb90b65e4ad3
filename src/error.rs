//! The one error this library reports.

use vstd::prelude::*;

verus! {

/// A request that names something outside what exists: a cell beyond the
/// grid, or a character the font has no glyph for.
#[derive(Clone, Copy, Debug, PartialEq, Eq, Structural)]
pub enum IndexError {
    /// A column or row beyond the grid's bounds.
    Coordinates,
    /// A character code outside the font's printable range.
    Character,
}

} // verus!
