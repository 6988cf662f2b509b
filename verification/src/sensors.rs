//! Event sensors of the AI: what a sensor does when a stimulus reaches it.
use vstd::prelude::*;

verus! {

/// A sensor that notices damage dealt to its owner.
#[derive(Debug, Clone, Copy, PartialEq, Eq, Structural)]
pub struct DamageSensor {}

impl DamageSensor {
    /// Receives a stimulus. The damage sensor consumes every stimulus it gets.
    pub fn stimulate(&mut self) -> (consumed: bool)
        ensures
            consumed,
            *final(self) == *old(self),
    {
        true
    }
}

} // verus!
