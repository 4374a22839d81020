//! Input shortcuts: the abstract buttons and axes that the input
//! collaborator binds to concrete keys.

use vstd::prelude::*;

verus! {

/// A logical button of the game.
#[derive(Debug, Copy, Clone, PartialEq, Eq, Hash, Structural)]
pub enum Button {
    Up,
    Down,
    Left,
    Right,
    Select,
    Quit,
    Fire,
}

/// A logical input axis of the game.
#[derive(Debug, Copy, Clone, PartialEq, Eq, Hash, Structural)]
pub enum Axis {
    Vertical,
    Horizontal,
}

} // verus!
