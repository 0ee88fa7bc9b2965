//! The navigation capability: where the movie sends requests to leave for
//! another address.

use vstd::prelude::*;

verus! {

/// What the player asks of a navigator. The timeline and the scheduler make
/// no request themselves; the player keeps the navigator for the scripts it
/// hosts.
pub trait NavigatorBackend {
}

/// A navigator that goes nowhere.
pub struct NullNavigatorBackend {
}

impl NullNavigatorBackend {
    /// A navigator that goes nowhere.
    pub fn new() -> (navigator: NullNavigatorBackend) {
        NullNavigatorBackend {  }
    }
}

impl NavigatorBackend for NullNavigatorBackend {
}

} // verus!
