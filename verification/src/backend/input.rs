//! The input capability: the keyboard and mouse state that scripts may ask
//! for.

use vstd::prelude::*;

verus! {

/// What the player asks of an input device. The timeline and the scheduler
/// are told of input as events; the player keeps the device for the scripts
/// it hosts.
pub trait InputBackend {
}

/// An input device on which nothing is ever pressed.
pub struct NullInputBackend {
}

impl NullInputBackend {
    /// An input device on which nothing is ever pressed.
    pub fn new() -> (input: NullInputBackend) {
        NullInputBackend {  }
    }
}

impl InputBackend for NullInputBackend {
}

} // verus!
