//! Tracks which keyboard modifier keys are currently held down.

use vstd::prelude::*;

verus! {

/// The held state of the shift, control and alt keys.
#[derive(Clone, Copy, Debug, PartialEq, Eq, Structural)]
pub struct ModifierTracker {
    pub shift: bool,
    pub control: bool,
    pub alt: bool,
}

/// The modifiers as an input event carries them. The control key counts
/// both as control and as the platform's command key.
#[derive(Clone, Copy, Debug, PartialEq, Eq, Structural)]
pub struct Modifiers {
    pub alt: bool,
    pub ctrl: bool,
    pub shift: bool,
    pub mac_cmd: bool,
    pub command: bool,
}

impl ModifierTracker {
    /// A tracker with no modifier held.
    pub fn new() -> (tracker: Self)
        ensures
            tracker == (ModifierTracker { shift: false, control: false, alt: false }),
    {
        ModifierTracker { shift: false, control: false, alt: false }
    }

    /// The modifiers that an input event carries now.
    pub fn get_modifiers(&self) -> (mods: Modifiers)
        ensures
            mods == (Modifiers {
                alt: self.alt,
                ctrl: self.control,
                shift: self.shift,
                mac_cmd: false,
                command: self.control,
            }),
    {
        Modifiers {
            alt: self.alt,
            ctrl: self.control,
            shift: self.shift,
            mac_cmd: false,
            command: self.control,
        }
    }

    /// Records that shift went down; the other keys keep their state.
    pub fn set_shift(&mut self)
        ensures
            *final(self) == (ModifierTracker { shift: true, ..*old(self) }),
    {
        self.shift = true;
    }

    /// Records that shift was released; the other keys keep their state.
    pub fn unset_shift(&mut self)
        ensures
            *final(self) == (ModifierTracker { shift: false, ..*old(self) }),
    {
        self.shift = false;
    }

    /// Records that control went down; the other keys keep their state.
    pub fn set_control(&mut self)
        ensures
            *final(self) == (ModifierTracker { control: true, ..*old(self) }),
    {
        self.control = true;
    }

    /// Records that control was released; the other keys keep their state.
    pub fn unset_control(&mut self)
        ensures
            *final(self) == (ModifierTracker { control: false, ..*old(self) }),
    {
        self.control = false;
    }

    /// Records that alt went down; the other keys keep their state.
    pub fn set_alt(&mut self)
        ensures
            *final(self) == (ModifierTracker { alt: true, ..*old(self) }),
    {
        self.alt = true;
    }

    /// Records that alt was released; the other keys keep their state.
    pub fn unset_alt(&mut self)
        ensures
            *final(self) == (ModifierTracker { alt: false, ..*old(self) }),
    {
        self.alt = false;
    }
}

} // verus!
