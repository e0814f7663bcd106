//! The arithmetic on doubles that a caller hands in.
//!
//! The library decides which operations are applied to which values and in which order; the
//! operations themselves are the caller's.
use vstd::prelude::*;

verus! {

/// Addition, subtraction, multiplication and division of doubles, each from two bit patterns to one.
pub struct Arithmetic<P, N, M, D> {
    pub plus: P,
    pub minus: N,
    pub times: M,
    pub over: D,
}

/// The four operations as mathematical functions.
pub ghost struct Operations {
    pub plus: spec_fn(u64, u64) -> u64,
    pub minus: spec_fn(u64, u64) -> u64,
    pub times: spec_fn(u64, u64) -> u64,
    pub over: spec_fn(u64, u64) -> u64,
}

impl<
    P: Fn(u64, u64) -> u64,
    N: Fn(u64, u64) -> u64,
    M: Fn(u64, u64) -> u64,
    D: Fn(u64, u64) -> u64,
> Arithmetic<P, N, M, D> {
    /// Whether the operations accept every pair of doubles.
    pub open spec fn total(&self) -> bool {
        forall|x: u64, y: u64|
            #![trigger call_requires(self.plus, (x, y))]
            #![trigger call_requires(self.minus, (x, y))]
            #![trigger call_requires(self.times, (x, y))]
            #![trigger call_requires(self.over, (x, y))]
            call_requires(self.plus, (x, y)) && call_requires(self.minus, (x, y))
                && call_requires(self.times, (x, y)) && call_requires(self.over, (x, y))
    }

    /// Whether the operations compute these functions.
    pub open spec fn computes(&self, model: Operations) -> bool {
        &&& forall|x: u64, y: u64, z: u64| #[trigger]
            call_ensures(self.plus, (x, y), z) ==> z == (model.plus)(x, y)
        &&& forall|x: u64, y: u64, z: u64| #[trigger]
            call_ensures(self.minus, (x, y), z) ==> z == (model.minus)(x, y)
        &&& forall|x: u64, y: u64, z: u64| #[trigger]
            call_ensures(self.times, (x, y), z) ==> z == (model.times)(x, y)
        &&& forall|x: u64, y: u64, z: u64| #[trigger]
            call_ensures(self.over, (x, y), z) ==> z == (model.over)(x, y)
    }

    pub fn sum(&self, x: u64, y: u64) -> (z: u64)
        requires
            self.total(),
        ensures
            forall|model: Operations| #[trigger] self.computes(model) ==> z == (model.plus)(x, y),
    {
        (self.plus)(x, y)
    }

    pub fn difference(&self, x: u64, y: u64) -> (z: u64)
        requires
            self.total(),
        ensures
            forall|model: Operations| #[trigger] self.computes(model) ==> z == (model.minus)(x, y),
    {
        (self.minus)(x, y)
    }

    pub fn product(&self, x: u64, y: u64) -> (z: u64)
        requires
            self.total(),
        ensures
            forall|model: Operations| #[trigger] self.computes(model) ==> z == (model.times)(x, y),
    {
        (self.times)(x, y)
    }

    pub fn quotient(&self, x: u64, y: u64) -> (z: u64)
        requires
            self.total(),
        ensures
            forall|model: Operations| #[trigger] self.computes(model) ==> z == (model.over)(x, y),
    {
        (self.over)(x, y)
    }

}

} // verus!
