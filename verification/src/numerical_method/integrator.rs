//! What advances a state vector in time.
use crate::arithmetic::{Arithmetic, Operations};
use vstd::prelude::*;

verus! {

/// The right-hand side of a system of differential equations. Answering may change the state of
/// whoever answers.
pub trait Dynamics: Sized {
    /// The number of states.
    spec fn size(&self) -> nat;

    /// Whether the answer can be given at all.
    spec fn answerable(&self) -> bool;

    /// Whether `after` may be what is left of `before`, whatever was asked.
    spec fn continues(before: Self, after: Self) -> bool;

    /// What is left of what is left of `first` is left of `first`.
    proof fn continues_on(first: Self, second: Self, third: Self)
        requires
            Self::continues(first, second),
            Self::continues(second, third),
        ensures
            Self::continues(first, third),
    ;

    /// Whether `derivatives` may be the answer to `perturbed`, leaving `after` behind.
    spec fn responds(
        before: Self,
        perturbed: Seq<u64>,
        derivatives: Seq<u64>,
        after: Self,
    ) -> bool;

    /// The derivative of each state, for a state vector that the caller tries out. What stands
    /// behind the derivatives of the states is not read.
    fn derivatives(&mut self, perturbed: &Vec<u64>) -> (derivatives: Vec<u64>)
        requires
            old(self).answerable(),
            perturbed@.len() == old(self).size(),
        ensures
            derivatives@.len() >= old(self).size(),
            final(self).size() == old(self).size(),
            final(self).answerable(),
            Self::continues(*old(self), *final(self)),
            Self::responds(*old(self), perturbed@, derivatives@, *final(self)),
    ;
}

/// Dynamics that a function gives, and that asking leaves as they are.
pub struct Field<F> {
    states: usize,
    law: F,
}

impl<F: Fn(&Vec<u64>) -> Vec<u64>> Field<F> {
    pub closed spec fn states(&self) -> nat {
        self.states as nat
    }

    pub closed spec fn law(&self) -> F {
        self.law
    }

    /// The dynamics of so many states under a law.
    pub fn new(states: usize, law: F) -> (field: Field<F>)
        ensures
            field.states() == states,
            field.law() == law,
    {
        Field { states, law }
    }
}

impl<F: Fn(&Vec<u64>) -> Vec<u64>> Dynamics for Field<F> {
    open spec fn size(&self) -> nat {
        self.states()
    }

    /// The law takes every vector of the right length, and gives at least one value for each state.
    open spec fn answerable(&self) -> bool {
        &&& forall|perturbed: Vec<u64>|
            perturbed@.len() == self.states() ==> #[trigger] call_requires(
                self.law(),
                (&perturbed,),
            )
        &&& forall|perturbed: Vec<u64>, derivatives: Vec<u64>| #[trigger]
            call_ensures(self.law(), (&perturbed,), derivatives) && perturbed@.len()
                == self.states() ==> derivatives@.len() >= self.states()
    }

    open spec fn continues(before: Field<F>, after: Field<F>) -> bool {
        after == before
    }

    proof fn continues_on(first: Field<F>, second: Field<F>, third: Field<F>) {
    }

    open spec fn responds(
        before: Field<F>,
        perturbed: Seq<u64>,
        derivatives: Seq<u64>,
        after: Field<F>,
    ) -> bool {
        exists|given: Vec<u64>, answer: Vec<u64>| #[trigger]
            call_ensures(before.law(), (&given,), answer) && given@ == perturbed && answer@
                == derivatives
    }

    fn derivatives(&mut self, perturbed: &Vec<u64>) -> (derivatives: Vec<u64>) {
        assert(call_requires(self.law(), (perturbed,)));
        (self.law)(perturbed)
    }
}

/// A method of integration. It knows nothing of models and registries.
pub trait Integrator<Y: Dynamics> {
    spec fn title(&self) -> Seq<char>;

    /// Whether one step may lead from `state` to `next`, with `before` and `after` the dynamics at
    /// its two ends.
    spec fn steps(
        &self,
        model: Operations,
        state: Seq<u64>,
        dt: u64,
        before: Y,
        after: Y,
        next: Seq<u64>,
    ) -> bool;

    fn name(&self) -> (name: &'static str)
        ensures
            name@ == self.title(),
    ;

    /// The state vector one step of length `dt` later. The given vector stays as it is.
    fn step<
        P: Fn(u64, u64) -> u64,
        N: Fn(u64, u64) -> u64,
        M: Fn(u64, u64) -> u64,
        D: Fn(u64, u64) -> u64,
    >(
        &self,
        state: &Vec<u64>,
        dt: u64,
        dynamics: &mut Y,
        arithmetic: &Arithmetic<P, N, M, D>,
    ) -> (next: Vec<u64>)
        requires
            arithmetic.total(),
            old(dynamics).answerable(),
            state@.len() == old(dynamics).size(),
        ensures
            next@.len() == state@.len(),
            final(dynamics).size() == old(dynamics).size(),
            final(dynamics).answerable(),
            Y::continues(*old(dynamics), *final(dynamics)),
            forall|model: Operations| #[trigger]
                arithmetic.computes(model) ==> self.steps(
                    model,
                    state@,
                    dt,
                    *old(dynamics),
                    *final(dynamics),
                    next@,
                ),
    ;
}

} // verus!
