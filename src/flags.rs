//! Application feature switches.

use vstd::prelude::*;

verus! {

/// Feature switches read by the recorder and the editor.
#[derive(Debug, Clone, Copy, PartialEq, Eq, Structural)]
pub struct Flags {
    pub record_mouse_state: bool,
    pub split: bool,
}

impl Flags {
    /// The switches as shipped: mouse state is recorded, splitting is off.
    pub fn shipped() -> (r: Flags)
        ensures
            r.record_mouse_state,
            !r.split,
    {
        Flags { record_mouse_state: true, split: false }
    }
}

} // verus!
