//! Properties of mixtures.
//!
//! Enthalpy, temperature from enthalpy, and liquid density of a mixture of `N` components, by
//! empirical correlations whose coefficients the caller gives. Which component stands at which index
//! is the caller's choice.
use crate::arithmetic::{Arithmetic, Operations};
use crate::double;
use vstd::prelude::*;

verus! {

pub const KCAL_PER_DEGREE: u64 = 0x3FFC_CCCC_CCCC_CCCD;

pub const THREE: u64 = 0x4008_0000_0000_0000;

/// Zero degrees Celsius, in kelvins.
pub const FREEZING: u64 = 0x4071_1266_6666_6666;

/// The gas constant of the correction for ideal gases.
pub const GAS_CONSTANT: u64 = 0x3ECE_0176_8E58_F40F;

/// The change of temperature below which the search has converged.
pub const TOLERANCE: u64 = 0x3D71_9799_812D_EA11;

/// Coefficients of `N` components, a set for each correlation.
pub struct Coefficients<const N: usize> {
    /// Molar masses.
    pub xmw: [u64; N],
    /// Antoine's equation for the vapour pressure: `ln P = avp + bvp / (t + cvp)`.
    pub avp: [u64; N],
    pub bvp: [u64; N],
    pub cvp: [u64; N],
    /// Liquid density: `xmw / (ad + (bd + cd * t) * t)` is the molar volume of a component.
    pub ad: [u64; N],
    pub bd: [u64; N],
    pub cd: [u64; N],
    /// Liquid enthalpy.
    pub ah: [u64; N],
    pub bh: [u64; N],
    pub ch: [u64; N],
    /// Vapour enthalpy.
    pub ag: [u64; N],
    pub bg: [u64; N],
    pub cg: [u64; N],
    /// Heat of vaporization.
    pub av: [u64; N],
}

/// `t * (a + b * t / 2 + c * t * t / 3)`.
pub open spec fn polynomial(ops: Operations, t: u64, a: u64, b: u64, c: u64) -> u64 {
    (ops.times)(
        t,
        (ops.plus)(
            (ops.plus)(a, (ops.over)((ops.times)(b, t), double::TWO)),
            (ops.over)((ops.times)((ops.times)(c, t), t), THREE),
        ),
    )
}

/// `(a + b * t + c * t * t) * 1.8`, where the factor is [`KCAL_PER_DEGREE`].
pub open spec fn slope(ops: Operations, t: u64, a: u64, b: u64, c: u64) -> u64 {
    (ops.times)(
        (ops.plus)((ops.plus)(a, (ops.times)(b, t)), (ops.times)((ops.times)(c, t), t)),
        KCAL_PER_DEGREE,
    )
}

/// What component `i` adds to the enthalpy of a mixture.
pub open spec fn enthalpy_part<const N: usize>(
    ops: Operations,
    z: [u64; N],
    t: u64,
    ity: i32,
    constants: Coefficients<N>,
    i: int,
) -> u64 {
    let mass = (ops.times)(z@[i], constants.xmw@[i]);
    if ity == 0 {
        (ops.times)(
            (ops.times)(mass, KCAL_PER_DEGREE),
            polynomial(ops, t, constants.ah@[i], constants.bh@[i], constants.ch@[i]),
        )
    } else {
        (ops.times)(
            mass,
            (ops.plus)(
                (ops.times)(
                    KCAL_PER_DEGREE,
                    polynomial(ops, t, constants.ag@[i], constants.bg@[i], constants.cg@[i]),
                ),
                constants.av@[i],
            ),
        )
    }
}

/// The sum over the first `n` components, from left to right.
pub open spec fn enthalpy_sum<const N: usize>(
    ops: Operations,
    z: [u64; N],
    t: u64,
    ity: i32,
    constants: Coefficients<N>,
    n: nat,
) -> u64
    decreases n,
{
    if n == 0 {
        double::ZERO
    } else {
        (ops.plus)(
            enthalpy_sum(ops, z, t, ity, constants, (n - 1) as nat),
            enthalpy_part(ops, z, t, ity, constants, n - 1),
        )
    }
}

/// The enthalpy of a mixture: of a liquid where `ity` is 0, else of a vapour, and where `ity` is 2
/// with the correction for an ideal gas.
pub open spec fn enthalpy<const N: usize>(
    ops: Operations,
    z: [u64; N],
    t: u64,
    ity: i32,
    constants: Coefficients<N>,
) -> u64 {
    let h = enthalpy_sum(ops, z, t, ity, constants, N as nat);
    if ity == 2 {
        (ops.minus)(h, (ops.times)(GAS_CONSTANT, (ops.plus)(t, FREEZING)))
    } else {
        h
    }
}

/// What component `i` adds to the derivative of the enthalpy by the temperature.
pub open spec fn derivative_part<const N: usize>(
    ops: Operations,
    z: [u64; N],
    t: u64,
    ity: i32,
    constants: Coefficients<N>,
    i: int,
) -> u64 {
    let mass = (ops.times)(z@[i], constants.xmw@[i]);
    if ity == 0 {
        (ops.times)(
            mass,
            slope(ops, t, constants.ah@[i], constants.bh@[i], constants.ch@[i]),
        )
    } else {
        (ops.times)(
            mass,
            slope(ops, t, constants.ag@[i], constants.bg@[i], constants.cg@[i]),
        )
    }
}

/// The sum over the first `n` components, from left to right.
pub open spec fn derivative_sum<const N: usize>(
    ops: Operations,
    z: [u64; N],
    t: u64,
    ity: i32,
    constants: Coefficients<N>,
    n: nat,
) -> u64
    decreases n,
{
    if n == 0 {
        double::ZERO
    } else {
        (ops.plus)(
            derivative_sum(ops, z, t, ity, constants, (n - 1) as nat),
            derivative_part(ops, z, t, ity, constants, n - 1),
        )
    }
}

/// The derivative of the enthalpy of a mixture by its temperature.
pub open spec fn derivative<const N: usize>(
    ops: Operations,
    z: [u64; N],
    t: u64,
    ity: i32,
    constants: Coefficients<N>,
) -> u64 {
    let dh = derivative_sum(ops, z, t, ity, constants, N as nat);
    if ity == 2 {
        (ops.minus)(dh, GAS_CONSTANT)
    } else {
        dh
    }
}

/// One change of temperature of Newton's method: `-(h - target) / dh`.
pub open spec fn newton_change<const N: usize>(
    ops: Operations,
    z: [u64; N],
    t: u64,
    target: u64,
    ity: i32,
    constants: Coefficients<N>,
) -> u64 {
    (ops.over)(
        double::negated((ops.minus)(enthalpy(ops, z, t, ity, constants), target)),
        derivative(ops, z, t, ity, constants),
    )
}

/// The temperature after at most `n` more changes: the one at which the change falls below the
/// tolerance, and nothing where none does.
pub open spec fn newton<const N: usize>(
    ops: Operations,
    z: [u64; N],
    t: u64,
    target: u64,
    ity: i32,
    constants: Coefficients<N>,
    n: nat,
) -> Option<u64>
    decreases n,
{
    if n == 0 {
        None
    } else {
        let change = newton_change(ops, z, t, target, ity, constants);
        let next = (ops.plus)(t, change);
        if double::magnitude(change) < TOLERANCE {
            Some(next)
        } else {
            newton(ops, z, next, target, ity, constants, (n - 1) as nat)
        }
    }
}

/// What component `i` adds to the molar volume of a liquid mixture.
pub open spec fn volume_part<const N: usize>(
    ops: Operations,
    x: [u64; N],
    t: u64,
    constants: Coefficients<N>,
    i: int,
) -> u64 {
    (ops.over)(
        (ops.times)(x@[i], constants.xmw@[i]),
        (ops.plus)(
            constants.ad@[i],
            (ops.times)((ops.plus)(constants.bd@[i], (ops.times)(constants.cd@[i], t)), t),
        ),
    )
}

/// The sum over the first `n` components, from left to right. A sum of doubles begins with negative
/// zero, which every double keeps its value beside.
pub open spec fn volume_sum<const N: usize>(
    ops: Operations,
    x: [u64; N],
    t: u64,
    constants: Coefficients<N>,
    n: nat,
) -> u64
    decreases n,
{
    if n == 0 {
        double::NEGATIVE_ZERO
    } else {
        (ops.plus)(
            volume_sum(ops, x, t, constants, (n - 1) as nat),
            volume_part(ops, x, t, constants, n - 1),
        )
    }
}

fn evaluate_polynomial<
    P: Fn(u64, u64) -> u64,
    S: Fn(u64, u64) -> u64,
    M: Fn(u64, u64) -> u64,
    D: Fn(u64, u64) -> u64,
>(arithmetic: &Arithmetic<P, S, M, D>, t: u64, a: u64, b: u64, c: u64) -> (value: u64)
    requires
        arithmetic.total(),
    ensures
        forall|ops: Operations| #[trigger]
            arithmetic.computes(ops) ==> value == polynomial(ops, t, a, b, c),
{
    let linear: u64 = arithmetic.quotient(arithmetic.product(b, t), double::TWO);
    let square: u64 = arithmetic.quotient(
        arithmetic.product(arithmetic.product(c, t), t),
        THREE,
    );
    arithmetic.product(t, arithmetic.sum(arithmetic.sum(a, linear), square))
}

fn evaluate_slope<
    P: Fn(u64, u64) -> u64,
    S: Fn(u64, u64) -> u64,
    M: Fn(u64, u64) -> u64,
    D: Fn(u64, u64) -> u64,
>(arithmetic: &Arithmetic<P, S, M, D>, t: u64, a: u64, b: u64, c: u64) -> (value: u64)
    requires
        arithmetic.total(),
    ensures
        forall|ops: Operations| #[trigger]
            arithmetic.computes(ops) ==> value == slope(ops, t, a, b, c),
{
    let linear: u64 = arithmetic.product(b, t);
    let square: u64 = arithmetic.product(arithmetic.product(c, t), t);
    arithmetic.product(arithmetic.sum(arithmetic.sum(a, linear), square), KCAL_PER_DEGREE)
}

/// The enthalpy of a mixture at temperature `t`.
pub fn mixture_enthalpy<
    const N: usize,
    P: Fn(u64, u64) -> u64,
    S: Fn(u64, u64) -> u64,
    M: Fn(u64, u64) -> u64,
    D: Fn(u64, u64) -> u64,
>(
    z: &[u64; N],
    t: u64,
    ity: i32,
    constants: &Coefficients<N>,
    arithmetic: &Arithmetic<P, S, M, D>,
) -> (h: u64)
    requires
        arithmetic.total(),
    ensures
        forall|ops: Operations| #[trigger]
            arithmetic.computes(ops) ==> h == enthalpy(ops, *z, t, ity, *constants),
{
    let mut h: u64 = double::ZERO;
    let mut i: usize = 0;
    while i < N
        invariant
            i <= N,
            arithmetic.total(),
            forall|ops: Operations| #[trigger]
                arithmetic.computes(ops) ==> h == enthalpy_sum(
                    ops,
                    *z,
                    t,
                    ity,
                    *constants,
                    i as nat,
                ),
        decreases N - i,
    {
        let mass: u64 = arithmetic.product(z[i], constants.xmw[i]);
        let part: u64 = if ity == 0 {
            let hi: u64 = evaluate_polynomial(
                arithmetic,
                t,
                constants.ah[i],
                constants.bh[i],
                constants.ch[i],
            );
            arithmetic.product(arithmetic.product(mass, KCAL_PER_DEGREE), hi)
        } else {
            let hi: u64 = evaluate_polynomial(
                arithmetic,
                t,
                constants.ag[i],
                constants.bg[i],
                constants.cg[i],
            );
            arithmetic.product(
                mass,
                arithmetic.sum(arithmetic.product(KCAL_PER_DEGREE, hi), constants.av[i]),
            )
        };
        assert forall|ops: Operations| #[trigger] arithmetic.computes(ops) implies part
            == enthalpy_part(ops, *z, t, ity, *constants, i as int) by {}
        h = arithmetic.sum(h, part);
        i = i + 1;
    }
    if ity == 2 {
        let correction: u64 = arithmetic.product(GAS_CONSTANT, arithmetic.sum(t, FREEZING));
        h = arithmetic.difference(h, correction);
    }
    h
}

/// The derivative of the enthalpy by the temperature.
pub fn enthalpy_derivative<
    const N: usize,
    P: Fn(u64, u64) -> u64,
    S: Fn(u64, u64) -> u64,
    M: Fn(u64, u64) -> u64,
    D: Fn(u64, u64) -> u64,
>(
    z: &[u64; N],
    t: u64,
    ity: i32,
    constants: &Coefficients<N>,
    arithmetic: &Arithmetic<P, S, M, D>,
) -> (dh: u64)
    requires
        arithmetic.total(),
    ensures
        forall|ops: Operations| #[trigger]
            arithmetic.computes(ops) ==> dh == derivative(ops, *z, t, ity, *constants),
{
    let mut dh: u64 = double::ZERO;
    let mut i: usize = 0;
    while i < N
        invariant
            i <= N,
            arithmetic.total(),
            forall|ops: Operations| #[trigger]
                arithmetic.computes(ops) ==> dh == derivative_sum(
                    ops,
                    *z,
                    t,
                    ity,
                    *constants,
                    i as nat,
                ),
        decreases N - i,
    {
        let mass: u64 = arithmetic.product(z[i], constants.xmw[i]);
        let dhi: u64 = if ity == 0 {
            evaluate_slope(arithmetic, t, constants.ah[i], constants.bh[i], constants.ch[i])
        } else {
            evaluate_slope(arithmetic, t, constants.ag[i], constants.bg[i], constants.cg[i])
        };
        let part: u64 = arithmetic.product(mass, dhi);
        assert forall|ops: Operations| #[trigger] arithmetic.computes(ops) implies part
            == derivative_part(ops, *z, t, ity, *constants, i as int) by {}
        dh = arithmetic.sum(dh, part);
        i = i + 1;
    }
    if ity == 2 {
        dh = arithmetic.difference(dh, GAS_CONSTANT);
    }
    dh
}

/// The temperature at which the mixture has the enthalpy `h_target`, by Newton's method from
/// `t_init`. Where a hundred changes do not converge, it is `t_init`.
pub fn temperature_from_enthalpy<
    const N: usize,
    P: Fn(u64, u64) -> u64,
    S: Fn(u64, u64) -> u64,
    M: Fn(u64, u64) -> u64,
    D: Fn(u64, u64) -> u64,
>(
    z: &[u64; N],
    t_init: u64,
    h_target: u64,
    ity: i32,
    constants: &Coefficients<N>,
    arithmetic: &Arithmetic<P, S, M, D>,
) -> (t: u64)
    requires
        arithmetic.total(),
    ensures
        forall|ops: Operations| #[trigger]
            arithmetic.computes(ops) ==> t == match newton(
                ops,
                *z,
                t_init,
                h_target,
                ity,
                *constants,
                100,
            ) {
                Some(found) => found,
                None => t_init,
            },
{
    let mut t: u64 = t_init;
    let mut left: usize = 100;
    while left > 0
        invariant
            left <= 100,
            arithmetic.total(),
            forall|ops: Operations| #[trigger]
                arithmetic.computes(ops) ==> newton(
                    ops,
                    *z,
                    t_init,
                    h_target,
                    ity,
                    *constants,
                    100,
                ) == newton(ops, *z, t, h_target, ity, *constants, left as nat),
        decreases left,
    {
        let h_test: u64 = mixture_enthalpy(z, t, ity, constants, arithmetic);
        let dh: u64 = enthalpy_derivative(z, t, ity, constants, arithmetic);
        let change: u64 = arithmetic.quotient(
            double::negate(arithmetic.difference(h_test, h_target)),
            dh,
        );
        assert forall|ops: Operations| #[trigger] arithmetic.computes(ops) implies change
            == newton_change(ops, *z, t, h_target, ity, *constants) by {}
        t = arithmetic.sum(t, change);
        if double::magnitude_of(change) < TOLERANCE {
            return t;
        }
        left = left - 1;
    }
    t_init
}

/// The density of a liquid mixture at temperature `t`: one over its molar volume.
pub fn liquid_density<
    const N: usize,
    P: Fn(u64, u64) -> u64,
    S: Fn(u64, u64) -> u64,
    M: Fn(u64, u64) -> u64,
    D: Fn(u64, u64) -> u64,
>(
    x: &[u64; N],
    t: u64,
    constants: &Coefficients<N>,
    arithmetic: &Arithmetic<P, S, M, D>,
) -> (density: u64)
    requires
        arithmetic.total(),
    ensures
        forall|ops: Operations| #[trigger]
            arithmetic.computes(ops) ==> density == (ops.over)(
                double::ONE,
                volume_sum(ops, *x, t, *constants, N as nat),
            ),
{
    let mut volume: u64 = double::NEGATIVE_ZERO;
    let mut i: usize = 0;
    while i < N
        invariant
            i <= N,
            arithmetic.total(),
            forall|ops: Operations| #[trigger]
                arithmetic.computes(ops) ==> volume == volume_sum(
                    ops,
                    *x,
                    t,
                    *constants,
                    i as nat,
                ),
        decreases N - i,
    {
        let mass: u64 = arithmetic.product(x[i], constants.xmw[i]);
        let slope: u64 = arithmetic.sum(constants.bd[i], arithmetic.product(constants.cd[i], t));
        let divisor: u64 = arithmetic.sum(constants.ad[i], arithmetic.product(slope, t));
        let part: u64 = arithmetic.quotient(mass, divisor);
        assert forall|ops: Operations| #[trigger] arithmetic.computes(ops) implies part
            == volume_part(ops, *x, t, *constants, i as int) by {}
        volume = arithmetic.sum(volume, part);
        i = i + 1;
    }
    arithmetic.quotient(double::ONE, volume)
}

} // verus!
