//! The keys that the views react to.
use vstd::prelude::*;

verus! {

/// A key press, as the views see it.
#[derive(Clone, Copy, Debug, PartialEq, Eq, Structural)]
pub enum Key {
    Escape,
    Enter,
    Delete,
    Backspace,
    Tab,
    Space,
    ArrowUp,
    ArrowDown,
    ArrowLeft,
    ArrowRight,
    Character(char),
    Other,
}

/// The modifier keys held with a key press.
#[derive(Clone, Copy, Debug, PartialEq, Eq, Structural)]
pub struct Modifiers {
    pub ctrl: bool,
    pub alt: bool,
    pub shift: bool,
}

impl Modifiers {
    /// Only Ctrl is held.
    pub open spec fn ctrl_only(self) -> bool {
        self.ctrl && !self.alt && !self.shift
    }

    /// No modifier is held.
    pub open spec fn none(self) -> bool {
        !self.ctrl && !self.alt && !self.shift
    }
}

} // verus!
