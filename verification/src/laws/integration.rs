//! Laws of one step of integration.
use crate::arithmetic::Operations;
use crate::double;
use crate::numerical_method::integrator::{Dynamics, Integrator};
use crate::numerical_method::rk4;
use crate::numerical_method::rk4::RK4;
use vstd::prelude::*;

verus! {

/// Four answers of the dynamics, one after the other.
pub ghost struct Answers<Y> {
    /// The dynamics before the first answer and after each of the four.
    pub first: Y,
    pub second: Y,
    pub third: Y,
    pub fourth: Y,
    pub last: Y,
    pub k1: Seq<u64>,
    pub k2: Seq<u64>,
    pub k3: Seq<u64>,
    pub k4: Seq<u64>,
}

/// Whether each state of `moved` is the state at the same place, moved by `factor` along the slope at
/// the same place.
pub open spec fn each_moved(
    ops: Operations,
    state: Seq<u64>,
    factor: u64,
    slope: Seq<u64>,
    moved: Seq<u64>,
) -> bool {
    &&& moved.len() == state.len()
    &&& forall|i: int|
        0 <= i < state.len() ==> #[trigger] moved[i] == (ops.plus)(
            state[i],
            (ops.times)(factor, slope[i]),
        )
}

/// Whether the dynamics were asked at the start, twice in the middle and at the end of the step, and
/// `next` is each state moved by a sixth of the step along `k1 + 2 k2 + 2 k3 + k4` at its own place.
pub open spec fn weighs_four_answers<Y: Dynamics>(
    ops: Operations,
    state: Seq<u64>,
    dt: u64,
    a: Answers<Y>,
    s2: Seq<u64>,
    s3: Seq<u64>,
    s4: Seq<u64>,
    next: Seq<u64>,
) -> bool {
    &&& Y::responds(a.first, state, a.k1, a.second)
    &&& each_moved(ops, state, (ops.times)(double::HALF, dt), a.k1, s2)
    &&& Y::responds(a.second, s2, a.k2, a.third)
    &&& each_moved(ops, state, (ops.times)(double::HALF, dt), a.k2, s3)
    &&& Y::responds(a.third, s3, a.k3, a.fourth)
    &&& each_moved(ops, state, dt, a.k3, s4)
    &&& Y::responds(a.fourth, s4, a.k4, a.last)
    &&& next.len() == state.len()
    &&& forall|i: int|
        0 <= i < state.len() ==> #[trigger] next[i] == (ops.plus)(
            state[i],
            (ops.times)(
                (ops.over)(dt, double::SIX),
                (ops.plus)(
                    (ops.plus)(
                        (ops.plus)(a.k1[i], (ops.times)(double::TWO, a.k2[i])),
                        (ops.times)(double::TWO, a.k3[i]),
                    ),
                    a.k4[i],
                ),
            ),
        )
}

/// A step weighs four answers, each state by the slopes at its own place.
pub proof fn a_step_weighs_four_answers<Y: Dynamics>(
    ops: Operations,
    state: Seq<u64>,
    dt: u64,
    before: Y,
    after: Y,
    next: Seq<u64>,
) -> (found: (Answers<Y>, Seq<u64>, Seq<u64>, Seq<u64>))
    requires
        RK4.steps(ops, state, dt, before, after, next),
    ensures
        weighs_four_answers(ops, state, dt, found.0, found.1, found.2, found.3, next),
        found.0.first == before,
        found.0.last == after,
{
    let (v, k) = choose|
        visited: (Y, Y, Y, Y, Y),
        slopes: (Seq<u64>, Seq<u64>, Seq<u64>, Seq<u64>),
    |
        {
            &&& #[trigger] rk4::four_answers(ops, state, dt, visited, slopes)
            &&& visited.0 == before
            &&& visited.4 == after
            &&& next == rk4::combined(ops, state, dt, slopes.0, slopes.1, slopes.2, slopes.3)
        };
    let a = Answers {
        first: v.0,
        second: v.1,
        third: v.2,
        fourth: v.3,
        last: v.4,
        k1: k.0,
        k2: k.1,
        k3: k.2,
        k4: k.3,
    };
    let half = (ops.times)(double::HALF, dt);
    let s2 = rk4::moved(ops, state, half, k.0);
    let s3 = rk4::moved(ops, state, half, k.1);
    let s4 = rk4::moved(ops, state, dt, k.2);
    (a, s2, s3, s4)
}

/// A state moves along its own slope alone: two steps of one length, of states that agree at a place
/// and whose four slopes agree there, agree there afterwards, whatever stands at other places.
pub proof fn a_state_moves_along_its_own_slope<Y: Dynamics, Z: Dynamics>(
    ops: Operations,
    dt: u64,
    state: Seq<u64>,
    a: Answers<Y>,
    trials: (Seq<u64>, Seq<u64>, Seq<u64>),
    next: Seq<u64>,
    other_state: Seq<u64>,
    b: Answers<Z>,
    other_trials: (Seq<u64>, Seq<u64>, Seq<u64>),
    other_next: Seq<u64>,
    i: int,
)
    requires
        weighs_four_answers(ops, state, dt, a, trials.0, trials.1, trials.2, next),
        weighs_four_answers(
            ops,
            other_state,
            dt,
            b,
            other_trials.0,
            other_trials.1,
            other_trials.2,
            other_next,
        ),
        0 <= i < state.len(),
        0 <= i < other_state.len(),
        state[i] == other_state[i],
        a.k1[i] == b.k1[i],
        a.k2[i] == b.k2[i],
        a.k3[i] == b.k3[i],
        a.k4[i] == b.k4[i],
    ensures
        next[i] == other_next[i],
{
}

/// The constants of the method are the doubles a half, two and six.
pub proof fn the_weights_are_doubles()
    ensures
        double::HALF == 0x3FE0_0000_0000_0000u64,
        double::TWO == 0x4000_0000_0000_0000u64,
        double::SIX == 0x4018_0000_0000_0000u64,
{
}

} // verus!
