use vstd::prelude::*;

verus! {

/// The content of one cell of the board.
#[derive(Debug, Clone, Copy, PartialEq, Eq, Structural)]
pub enum Mark {
    X,
    O,
    Empty,
}

} // verus!
