//! What can be commanded in a plant.
pub mod model;

use crate::state_registry::{CommandCell, EvaluationState, EvaluationView, Layout};
use std::rc::Rc;
use vstd::prelude::*;

verus! {

/// The contract of a command.
pub trait Actuator {
    /// Whether the actuator can be written on a buffer with this layout.
    spec fn writable(&self, layout: Layout) -> bool;

    /// Whether writing `value` may lead from `before` to `after`.
    spec fn writes(&self, before: EvaluationView, value: u64, after: EvaluationView) -> bool;

    fn write(&self, state: &mut EvaluationState, value: u64)
        requires
            self.writable(old(state)@.layout()),
        ensures
            self.writes(old(state)@, value, final(state)@),
            final(state)@.layout() == old(state)@.layout(),
    ;
}

/// A command cell is an actuator without a dynamics: the command is kept for whoever reads it.
impl Actuator for CommandCell {
    open spec fn writable(&self, layout: Layout) -> bool {
        layout.has_command(*self)
    }

    open spec fn writes(&self, before: EvaluationView, value: u64, after: EvaluationView) -> bool {
        after == before.commanded(*self, value)
    }

    fn write(&self, state: &mut EvaluationState, value: u64) {
        self.set(state, value);
    }
}

/// A shared actuator is commanded as the actuator that it shares.
impl<T: Actuator + ?Sized> Actuator for Rc<T> {
    open spec fn writable(&self, layout: Layout) -> bool {
        (**self).writable(layout)
    }

    open spec fn writes(&self, before: EvaluationView, value: u64, after: EvaluationView) -> bool {
        (**self).writes(before, value, after)
    }

    fn write(&self, state: &mut EvaluationState, value: u64) {
        (**self).write(state, value);
    }
}

} // verus!
