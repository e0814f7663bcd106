//! The signals of a declared component, which it reads and sets on the working copy of the state.
//!
//! Two signals may lie in one slot: what one of them sets, the other shows at once.
use crate::state_registry;
use crate::state_registry::{EvaluationState, EvaluationView, Layout, Proxy};
use vstd::prelude::*;

verus! {

/// The signals that a component offers and those that it needs. Of the offered ones it may set those
/// that no integrator advances.
#[derive(Clone)]
pub struct Signals {
    pub offered: Vec<Proxy>,
    pub settable: Vec<bool>,
    pub needed: Vec<Proxy>,
}

impl Signals {
    pub open spec fn wf(&self) -> bool {
        self.settable@.len() == self.offered@.len()
    }

    /// Whether every signal has its slot in a buffer with this layout.
    pub open spec fn works_on(&self, layout: Layout) -> bool {
        &&& self.wf()
        &&& state_registry::all_resolved(self.offered@, layout)
        &&& state_registry::all_resolved(self.needed@, layout)
    }

    /// Whether the component may set what lies in the slot.
    pub open spec fn may_set(&self, layout: Layout, slot: int) -> bool {
        exists|i: int|
            {
                &&& 0 <= i < self.offered@.len()
                &&& self.settable@[i]
                &&& layout.position(#[trigger] self.offered@[i]) matches Some(p) && p == slot
            }
    }

    /// Whether nothing but what the component may set differs between the two.
    pub open spec fn only_set(&self, before: EvaluationView, after: EvaluationView) -> bool {
        &&& after.layout() == before.layout()
        &&& after.commands == before.commands
        &&& forall|slot: int|
            0 <= slot < before.values.len() && !self.may_set(before.layout(), slot)
                ==> #[trigger] after.values[slot] == before.values[slot]
    }

    /// The value of an offered signal.
    pub fn read_offered(&self, state: &EvaluationState, i: usize) -> (value: u64)
        requires
            self.works_on(state@.layout()),
            i < self.offered@.len(),
        ensures
            value == state@.get(self.offered@[i as int]),
    {
        self.offered[i].get(state)
    }

    /// The value of a needed signal.
    pub fn read_needed(&self, state: &EvaluationState, i: usize) -> (value: u64)
        requires
            self.works_on(state@.layout()),
            i < self.needed@.len(),
        ensures
            value == state@.get(self.needed@[i as int]),
    {
        self.needed[i].get(state)
    }

    /// Sets an offered signal.
    pub fn set(&self, state: &mut EvaluationState, i: usize, value: u64)
        requires
            self.works_on(old(state)@.layout()),
            i < self.offered@.len(),
            self.settable@[i as int],
        ensures
            final(state)@ == old(state)@.set(self.offered@[i as int], value),
            self.only_set(old(state)@, final(state)@),
    {
        let ghost before = state@;
        self.offered[i].set(state, value);
        proof {
            let slot = before.layout().position(self.offered@[i as int])->0 as int;
            assert(self.may_set(before.layout(), slot));
        }
    }
}

/// A signal that is set is seen at once, through every signal that lies in the same slot; signals in
/// other slots stay as they are.
pub proof fn what_is_set_is_seen_at_once(
    signals: Signals,
    state: EvaluationView,
    i: int,
    value: u64,
    other: Proxy,
)
    requires
        signals.works_on(state.layout()),
        0 <= i < signals.offered@.len(),
        state.layout().resolved(other),
    ensures
        state.set(signals.offered@[i], value).get(other) == (if state.layout().position(other)
            == state.layout().position(signals.offered@[i]) {
            value
        } else {
            state.get(other)
        }),
{
    let after = state.set(signals.offered@[i], value);
    assert(after.layout() == state.layout());
}

/// Setting one signal after the other changes nothing but what the component may set.
pub proof fn settings_add_up(
    signals: Signals,
    first: EvaluationView,
    second: EvaluationView,
    third: EvaluationView,
)
    requires
        signals.only_set(first, second),
        signals.only_set(second, third),
    ensures
        signals.only_set(first, third),
{
    assert forall|slot: int|
        0 <= slot < first.values.len() && !signals.may_set(
            first.layout(),
            slot,
        ) implies #[trigger] third.values[slot] == first.values[slot] by {
        assert(second.values[slot] == first.values[slot]);
    }
}

} // verus!
