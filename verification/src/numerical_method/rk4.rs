//! The classical Runge-Kutta method of fourth order.
use crate::arithmetic::{Arithmetic, Operations};
use crate::double;
use crate::numerical_method::integrator::{Dynamics, Integrator};
use vstd::prelude::*;

verus! {

pub struct RK4;

/// Each state moved along its slope: `state[i] + factor * slope[i]`.
pub open spec fn moved(
    model: Operations,
    state: Seq<u64>,
    factor: u64,
    slope: Seq<u64>,
) -> Seq<u64> {
    Seq::new(
        state.len(),
        |i: int| (model.plus)(state[i], (model.times)(factor, slope[i])),
    )
}

/// The four slopes in one: `k1 + 2 * k2 + 2 * k3 + k4`, from left to right.
pub open spec fn weighted(model: Operations, k1: u64, k2: u64, k3: u64, k4: u64) -> u64 {
    (model.plus)(
        (model.plus)(
            (model.plus)(k1, (model.times)(double::TWO, k2)),
            (model.times)(double::TWO, k3),
        ),
        k4,
    )
}

/// Each state moved along the weighted slope by a sixth of the step.
pub open spec fn combined(
    model: Operations,
    state: Seq<u64>,
    dt: u64,
    k1: Seq<u64>,
    k2: Seq<u64>,
    k3: Seq<u64>,
    k4: Seq<u64>,
) -> Seq<u64> {
    Seq::new(
        state.len(),
        |i: int|
            (model.plus)(
                state[i],
                (model.times)(
                    (model.over)(dt, double::SIX),
                    weighted(model, k1[i], k2[i], k3[i], k4[i]),
                ),
            ),
    )
}

/// Whether `slope` is an answer to `state` that leaves `after` behind of the same dynamics.
pub open spec fn answers<Y: Dynamics>(before: Y, state: Seq<u64>, slope: Seq<u64>, after: Y) -> bool {
    Y::responds(before, state, slope, after) && Y::continues(before, after)
}

/// Whether the four answers were given one after the other, each to the state that the one before
/// it leads to.
pub open spec fn four_answers<Y: Dynamics>(
    model: Operations,
    state: Seq<u64>,
    dt: u64,
    visited: (Y, Y, Y, Y, Y),
    slopes: (Seq<u64>, Seq<u64>, Seq<u64>, Seq<u64>),
) -> bool {
    let half = (model.times)(double::HALF, dt);
    &&& answers(visited.0, state, slopes.0, visited.1)
    &&& answers(visited.1, moved(model, state, half, slopes.0), slopes.1, visited.2)
    &&& answers(visited.2, moved(model, state, half, slopes.1), slopes.2, visited.3)
    &&& answers(visited.3, moved(model, state, dt, slopes.2), slopes.3, visited.4)
}

/// `state[i] + factor * slope[i]`, for each `i`.
fn move_along<
    P: Fn(u64, u64) -> u64,
    N: Fn(u64, u64) -> u64,
    M: Fn(u64, u64) -> u64,
    D: Fn(u64, u64) -> u64,
>(
    arithmetic: &Arithmetic<P, N, M, D>,
    state: &Vec<u64>,
    factor: u64,
    slope: &Vec<u64>,
) -> (result: Vec<u64>)
    requires
        arithmetic.total(),
        state@.len() <= slope@.len(),
    ensures
        result@.len() == state@.len(),
        forall|model: Operations| #[trigger]
            arithmetic.computes(model) ==> result@ == moved(model, state@, factor, slope@),
{
    let mut result: Vec<u64> = Vec::new();
    let mut i: usize = 0;
    while i < state.len()
        invariant
            i <= state@.len(),
            state@.len() <= slope@.len(),
            arithmetic.total(),
            result@.len() == i,
            forall|model: Operations, k: int|
                0 <= k < i && #[trigger] arithmetic.computes(model) ==> #[trigger] result@[k]
                    == moved(model, state@, factor, slope@)[k],
        decreases state@.len() - i,
    {
        let step: u64 = (arithmetic.times)(factor, slope[i]);
        let value: u64 = (arithmetic.plus)(state[i], step);
        result.push(value);
        i = i + 1;
    }
    assert forall|model: Operations| #[trigger] arithmetic.computes(model) implies result@ == moved(
        model,
        state@,
        factor,
        slope@,
    ) by {
        assert(result@ =~= moved(model, state@, factor, slope@));
    }
    result
}

impl<Y: Dynamics> Integrator<Y> for RK4 {
    open spec fn title(&self) -> Seq<char> {
        "RK4"@
    }

    open spec fn steps(
        &self,
        model: Operations,
        state: Seq<u64>,
        dt: u64,
        before: Y,
        after: Y,
        next: Seq<u64>,
    ) -> bool {
        exists|
            visited: (Y, Y, Y, Y, Y),
            slopes: (Seq<u64>, Seq<u64>, Seq<u64>, Seq<u64>),
        |
            {
                &&& #[trigger] four_answers(model, state, dt, visited, slopes)
                &&& visited.0 == before
                &&& visited.4 == after
                &&& next == combined(model, state, dt, slopes.0, slopes.1, slopes.2, slopes.3)
            }
    }

    fn name(&self) -> (name: &'static str) {
        "RK4"
    }

    fn step<
        P: Fn(u64, u64) -> u64,
        N: Fn(u64, u64) -> u64,
        M: Fn(u64, u64) -> u64,
        D: Fn(u64, u64) -> u64,
    >(
        &self,
        state: &Vec<u64>,
        dt: u64,
        dynamics: &mut Y,
        arithmetic: &Arithmetic<P, N, M, D>,
    ) -> (next: Vec<u64>) {
        let ghost d0 = *dynamics;
        let half: u64 = (arithmetic.times)(double::HALF, dt);
        let k1 = dynamics.derivatives(state);
        let ghost d1 = *dynamics;
        let s2 = move_along(arithmetic, state, half, &k1);
        let k2 = dynamics.derivatives(&s2);
        let ghost d2 = *dynamics;
        let s3 = move_along(arithmetic, state, half, &k2);
        let k3 = dynamics.derivatives(&s3);
        let ghost d3 = *dynamics;
        let s4 = move_along(arithmetic, state, dt, &k3);
        let k4 = dynamics.derivatives(&s4);
        let ghost d4 = *dynamics;
        proof {
            Y::continues_on(d0, d1, d2);
            Y::continues_on(d0, d2, d3);
            Y::continues_on(d0, d3, d4);
        }
        let sixth: u64 = (arithmetic.over)(dt, double::SIX);
        let mut next: Vec<u64> = Vec::new();
        let mut i: usize = 0;
        while i < state.len()
            invariant
                i <= state@.len(),
                k1@.len() >= state@.len(),
                k2@.len() >= state@.len(),
                k3@.len() >= state@.len(),
                k4@.len() >= state@.len(),
                arithmetic.total(),
                call_ensures(arithmetic.over, (dt, double::SIX), sixth),
                next@.len() == i,
                forall|model: Operations, k: int|
                    0 <= k < i && #[trigger] arithmetic.computes(model) ==> #[trigger] next@[k]
                        == combined(model, state@, dt, k1@, k2@, k3@, k4@)[k],
            decreases state@.len() - i,
        {
            let twice_k2: u64 = (arithmetic.times)(double::TWO, k2[i]);
            let twice_k3: u64 = (arithmetic.times)(double::TWO, k3[i]);
            let two: u64 = (arithmetic.plus)(k1[i], twice_k2);
            let three: u64 = (arithmetic.plus)(two, twice_k3);
            let four: u64 = (arithmetic.plus)(three, k4[i]);
            let step: u64 = (arithmetic.times)(sixth, four);
            let value: u64 = (arithmetic.plus)(state[i], step);
            next.push(value);
            i = i + 1;
        }
        assert forall|model: Operations| #[trigger] arithmetic.computes(model) implies <RK4 as Integrator<Y>>::steps(
            self,
            model,
            state@,
            dt,
            d0,
            d4,
            next@,
        ) by {
            assert(next@ =~= combined(model, state@, dt, k1@, k2@, k3@, k4@));
            assert(four_answers(
                model,
                state@,
                dt,
                (d0, d1, d2, d3, d4),
                (k1@, k2@, k3@, k4@),
            ));
        }
        next
    }
}

} // verus!
