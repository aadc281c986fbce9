//! Plain-data snapshot of the mouse buttons and keyboard modifiers of one
//! frame.

use vstd::prelude::*;

verus! {

/// Mouse button state for one frame.
#[derive(Debug, Clone, Copy, Default, PartialEq, Eq, Structural)]
pub struct MouseButtons {
    pub left_down: bool,
    pub left_clicked: bool,
    pub right_clicked: bool,
}

/// Keyboard modifiers held during one frame.
#[derive(Debug, Clone, Copy, Default, PartialEq, Eq, Structural)]
pub struct Modifiers {
    pub shift: bool,
    pub ctrl: bool,
    pub alt: bool,
    pub super_: bool,
}

} // verus!
