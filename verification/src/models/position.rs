//! The place in an audiobook that a listener has reached.

use vstd::prelude::*;

verus! {

/// A file of an audiobook and an offset into it.
#[derive(Debug, PartialEq, Eq)]
pub struct Position {
    pub file: String,
    pub position: u32,
}

/// The mathematical content of a [`Position`].
pub struct PositionView {
    pub file: Seq<char>,
    pub position: u32,
}

impl View for Position {
    type V = PositionView;

    open spec fn view(&self) -> PositionView {
        PositionView { file: self.file@, position: self.position }
    }
}

} // verus!
