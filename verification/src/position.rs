//! Coordinates in a document and the direction of a search.

use vstd::prelude::*;

verus! {

/// A place in a document: `y` is the index of a line, `x` the index of a
/// grapheme cluster within it.
#[derive(Default, Clone, Copy, Debug, PartialEq, Eq, Structural)]
pub struct Position {
    pub x: usize,
    pub y: usize,
}

/// The direction in which a search walks away from its starting point.
#[derive(Clone, Copy, Debug, PartialEq, Eq, Structural)]
pub enum SearchDirection {
    Forward,
    Backward,
}

} // verus!
