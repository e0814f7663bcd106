//! What can be read from a plant.
pub mod model;

use crate::state_registry::{CurrentState, CurrentView, Outline};
use vstd::prelude::*;

verus! {

/// The contract of a reading.
pub trait Sensor: Sized {
    /// Whether the sensor can be read on a confirmed state with this outline.
    spec fn readable(&self, outline: Outline) -> bool;

    /// Whether a reading may give `value` and leave `after` behind.
    spec fn reads(before: Self, current: CurrentView, value: u64, after: Self) -> bool;

    fn read(&mut self, current: &CurrentState) -> (value: u64)
        requires
            old(self).readable(current@.outline()),
        ensures
            Self::reads(*old(self), current@, value, *final(self)),
            final(self).readable(current@.outline()),
    ;
}

} // verus!
