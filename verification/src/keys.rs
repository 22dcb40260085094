//! The key events the input dispatcher understands, modelled as plain
//! values: the terminal backend's events are converted to these at the
//! process boundary.

use vstd::prelude::*;

verus! {

/// A key, reduced to what the dispatcher routes on.
#[derive(Debug, Clone, Copy, PartialEq, Eq, Structural)]
pub enum Key {
    Char(char),
    Enter,
    Esc,
    Backspace,
    Delete,
    Left,
    Right,
    Up,
    Down,
    Home,
    End,
    Other,
}

/// A key press: the key and whether the control modifier was held.
#[derive(Debug, Clone, Copy, PartialEq, Eq, Structural)]
pub struct KeyPress {
    pub code: Key,
    pub ctrl: bool,
}

} // verus!
