//! Edge detection for one logical button.
use vstd::prelude::*;

verus! {

/// One logical button: whether it is held this frame and was held the
/// frame before.
pub struct Btn {
    pub input: bool,
    pub prev_input: bool,
}

impl Btn {
    pub fn new() -> (b: Btn)
        ensures
            !b.input,
            !b.prev_input,
    {
        Btn { input: false, prev_input: false }
    }

    /// Records whether the button is held this frame.
    pub fn update(&mut self, held: bool)
        ensures
            final(self).prev_input == old(self).input,
            final(self).input == held,
    {
        self.prev_input = self.input;
        self.input = held;
    }

    /// With `press`, whether the button went down this frame; otherwise
    /// whether it is held.
    pub fn down(&self, press: bool) -> (r: bool)
        ensures
            r == if press {
                self.input && !self.prev_input
            } else {
                self.input
            },
    {
        if press {
            self.input && !self.prev_input
        } else {
            self.input
        }
    }
}

} // verus!
