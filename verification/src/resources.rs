//! Resources: global values of the world, one per type.
use vstd::prelude::*;

verus! {

/// A type that can be stored as a resource.
pub trait Resource {}

/// How a timer repeats.
#[derive(Debug, Clone, Copy, PartialEq, Eq, Structural)]
pub enum TimerVariant {
    /// Finishes once
    Once,
    /// Never finishes
    Repeat,
    /// Finishes after running its duration the given number of times
    RepeatN(u32),
}

} // verus!
