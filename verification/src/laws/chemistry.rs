//! Laws of the properties of mixtures.
use crate::arithmetic::Operations;
use crate::chemistry;
use crate::chemistry::Coefficients;
use crate::double;
use vstd::prelude::*;

verus! {

/// Whether `sums` adds up `parts` from left to right, beginning with `start`.
pub open spec fn adds_up(ops: Operations, start: u64, parts: Seq<u64>, sums: Seq<u64>) -> bool {
    &&& sums.len() == parts.len() + 1
    &&& sums[0] == start
    &&& forall|i: int|
        0 <= i < parts.len() ==> #[trigger] sums[i + 1] == (ops.plus)(sums[i], parts[i])
}

/// What a component adds to the enthalpy of a liquid:
/// `z * xmw * 1.8 * (t * (a + b * t / 2 + c * t * t / 3))`.
pub open spec fn liquid_part(
    ops: Operations,
    z: u64,
    xmw: u64,
    t: u64,
    a: u64,
    b: u64,
    c: u64,
) -> u64 {
    (ops.times)(
        (ops.times)((ops.times)(z, xmw), chemistry::KCAL_PER_DEGREE),
        (ops.times)(
            t,
            (ops.plus)(
                (ops.plus)(a, (ops.over)((ops.times)(b, t), double::TWO)),
                (ops.over)((ops.times)((ops.times)(c, t), t), chemistry::THREE),
            ),
        ),
    )
}

/// What a component adds to the enthalpy of a vapour:
/// `z * xmw * (1.8 * (t * (a + b * t / 2 + c * t * t / 3)) + v)`.
pub open spec fn vapour_part(
    ops: Operations,
    z: u64,
    xmw: u64,
    t: u64,
    a: u64,
    b: u64,
    c: u64,
    v: u64,
) -> u64 {
    (ops.times)(
        (ops.times)(z, xmw),
        (ops.plus)(
            (ops.times)(
                chemistry::KCAL_PER_DEGREE,
                (ops.times)(
                    t,
                    (ops.plus)(
                        (ops.plus)(a, (ops.over)((ops.times)(b, t), double::TWO)),
                        (ops.over)((ops.times)((ops.times)(c, t), t), chemistry::THREE),
                    ),
                ),
            ),
            v,
        ),
    )
}

/// What a component adds to the slope of the enthalpy: `z * xmw * ((a + b * t + c * t * t) * 1.8)`.
pub open spec fn slope_part(
    ops: Operations,
    z: u64,
    xmw: u64,
    t: u64,
    a: u64,
    b: u64,
    c: u64,
) -> u64 {
    (ops.times)(
        (ops.times)(z, xmw),
        (ops.times)(
            (ops.plus)((ops.plus)(a, (ops.times)(b, t)), (ops.times)((ops.times)(c, t), t)),
            chemistry::KCAL_PER_DEGREE,
        ),
    )
}

/// What a component adds to the molar volume of a liquid: `x * xmw / (a + (b + c * t) * t)`.
pub open spec fn liquid_volume(
    ops: Operations,
    x: u64,
    xmw: u64,
    t: u64,
    a: u64,
    b: u64,
    c: u64,
) -> u64 {
    (ops.over)(
        (ops.times)(x, xmw),
        (ops.plus)(a, (ops.times)((ops.plus)(b, (ops.times)(c, t)), t)),
    )
}

/// The enthalpy of a mixture adds up its components, each with its own share, mass and coefficients.
/// Those of the liquid count for a liquid, and those of the vapour, with the heat of vaporization, for
/// a vapour. For an ideal gas the gas constant times the absolute temperature goes off.
pub proof fn the_enthalpy_adds_up_its_components<const N: usize>(
    ops: Operations,
    z: [u64; N],
    t: u64,
    ity: i32,
    constants: Coefficients<N>,
) -> (sums: Seq<u64>)
    ensures
        adds_up(
            ops,
            0,
            Seq::new(
                N as nat,
                |i: int|
                    if ity == 0 {
                        liquid_part(
                            ops,
                            z@[i],
                            constants.xmw@[i],
                            t,
                            constants.ah@[i],
                            constants.bh@[i],
                            constants.ch@[i],
                        )
                    } else {
                        vapour_part(
                            ops,
                            z@[i],
                            constants.xmw@[i],
                            t,
                            constants.ag@[i],
                            constants.bg@[i],
                            constants.cg@[i],
                            constants.av@[i],
                        )
                    },
            ),
            sums,
        ),
        chemistry::enthalpy(ops, z, t, ity, constants) == (if ity == 2 {
            (ops.minus)(
                sums[N as int],
                (ops.times)(chemistry::GAS_CONSTANT, (ops.plus)(t, chemistry::FREEZING)),
            )
        } else {
            sums[N as int]
        }),
{
    Seq::new(
        (N + 1) as nat,
        |i: int| chemistry::enthalpy_sum(ops, z, t, ity, constants, i as nat),
    )
}

/// The slope of the enthalpy adds up its components, with the coefficients of the phase. For an ideal
/// gas the gas constant goes off.
pub proof fn the_slope_adds_up_its_components<const N: usize>(
    ops: Operations,
    z: [u64; N],
    t: u64,
    ity: i32,
    constants: Coefficients<N>,
) -> (sums: Seq<u64>)
    ensures
        adds_up(
            ops,
            0,
            Seq::new(
                N as nat,
                |i: int|
                    if ity == 0 {
                        slope_part(
                            ops,
                            z@[i],
                            constants.xmw@[i],
                            t,
                            constants.ah@[i],
                            constants.bh@[i],
                            constants.ch@[i],
                        )
                    } else {
                        slope_part(
                            ops,
                            z@[i],
                            constants.xmw@[i],
                            t,
                            constants.ag@[i],
                            constants.bg@[i],
                            constants.cg@[i],
                        )
                    },
            ),
            sums,
        ),
        chemistry::derivative(ops, z, t, ity, constants) == (if ity == 2 {
            (ops.minus)(sums[N as int], chemistry::GAS_CONSTANT)
        } else {
            sums[N as int]
        }),
{
    Seq::new(
        (N + 1) as nat,
        |i: int| chemistry::derivative_sum(ops, z, t, ity, constants, i as nat),
    )
}

/// The molar volume of a liquid adds up its components, beginning with negative zero.
pub proof fn the_volume_adds_up_its_components<const N: usize>(
    ops: Operations,
    x: [u64; N],
    t: u64,
    constants: Coefficients<N>,
) -> (sums: Seq<u64>)
    ensures
        adds_up(
            ops,
            0x8000_0000_0000_0000,
            Seq::new(
                N as nat,
                |i: int|
                    liquid_volume(
                        ops,
                        x@[i],
                        constants.xmw@[i],
                        t,
                        constants.ad@[i],
                        constants.bd@[i],
                        constants.cd@[i],
                    ),
            ),
            sums,
        ),
        chemistry::volume_sum(ops, x, t, constants, N as nat) == sums[N as int],
{
    Seq::new((N + 1) as nat, |i: int| chemistry::volume_sum(ops, x, t, constants, i as nat))
}

/// A double without its sign: the pattern without its highest bit.
pub open spec fn unsigned(bits: u64) -> int {
    bits as int % 0x8000_0000_0000_0000
}

/// Whether the two doubles differ in their sign and in nothing else.
pub open spec fn are_opposite(x: u64, y: u64) -> bool {
    x as int - y as int == 0x8000_0000_0000_0000 || y as int - x as int == 0x8000_0000_0000_0000
}

/// Whether a change of temperature at `t` is minus the excess of enthalpy over its slope, both of the
/// phase that is asked for.
pub open spec fn is_newton_change<const N: usize>(
    ops: Operations,
    z: [u64; N],
    t: u64,
    target: u64,
    ity: i32,
    constants: Coefficients<N>,
    change: u64,
) -> bool {
    exists|excess: u64| #[trigger]
        are_opposite(
            excess,
            (ops.minus)(chemistry::enthalpy(ops, z, t, ity, constants), target),
        ) && change == (ops.over)(excess, chemistry::derivative(ops, z, t, ity, constants))
}

/// Whether the temperatures were visited one after the other, each the one before it moved by the
/// change there.
pub open spec fn are_visited<const N: usize>(
    ops: Operations,
    z: [u64; N],
    target: u64,
    ity: i32,
    constants: Coefficients<N>,
    visited: Seq<u64>,
    changes: Seq<u64>,
) -> bool {
    &&& visited.len() == changes.len() + 1
    &&& forall|i: int|
        0 <= i < changes.len() ==> {
            &&& is_newton_change(ops, z, visited[i], target, ity, constants, #[trigger] changes[i])
            &&& visited[i + 1] == (ops.plus)(visited[i], changes[i])
        }
}

/// Where a temperature is found from an enthalpy, Newton's method led to it from the first guess, in
/// the phase that was asked for. The last change was less than the tolerance and none before it was.
/// Where none is found, no change of so many was.
pub proof fn a_temperature_is_found_by_newton<const N: usize>(
    ops: Operations,
    z: [u64; N],
    t: u64,
    target: u64,
    ity: i32,
    constants: Coefficients<N>,
    n: nat,
) -> (path: (Seq<u64>, Seq<u64>))
    ensures
        are_visited(ops, z, target, ity, constants, path.0, path.1),
        path.0[0] == t,
        path.1.len() <= n,
        match chemistry::newton(ops, z, t, target, ity, constants, n) {
            Some(found) => {
                &&& path.1.len() > 0
                &&& found == path.0.last()
                &&& unsigned(path.1.last()) < chemistry::TOLERANCE
                &&& forall|i: int|
                    0 <= i < path.1.len() - 1 ==> unsigned(#[trigger] path.1[i])
                        >= chemistry::TOLERANCE
            },
            None => path.1.len() == n && forall|i: int|
                0 <= i < n ==> unsigned(#[trigger] path.1[i]) >= chemistry::TOLERANCE,
        },
    decreases n,
{
    if n == 0 {
        (seq![t], Seq::empty())
    } else {
        let change = chemistry::newton_change(ops, z, t, target, ity, constants);
        let next = (ops.plus)(t, change);
        let difference = (ops.minus)(chemistry::enthalpy(ops, z, t, ity, constants), target);
        assert(are_opposite(double::negated(difference), difference));
        if double::magnitude(change) < chemistry::TOLERANCE {
            let path = (seq![t, next], seq![change]);
            path
        } else {
            let rest = a_temperature_is_found_by_newton(
                ops,
                z,
                next,
                target,
                ity,
                constants,
                (n - 1) as nat,
            );
            let visited = seq![t] + rest.0;
            let changes = seq![change] + rest.1;
            assert(are_visited(ops, z, target, ity, constants, visited, changes)) by {
                assert forall|i: int| 0 <= i < changes.len() implies {
                    &&& is_newton_change(
                        ops,
                        z,
                        visited[i],
                        target,
                        ity,
                        constants,
                        #[trigger] changes[i],
                    )
                    &&& visited[i + 1] == (ops.plus)(visited[i], changes[i])
                } by {
                    if i > 0 {
                        assert(changes[i] == rest.1[i - 1]);
                        assert(visited[i] == rest.0[i - 1]);
                        assert(visited[i + 1] == rest.0[i]);
                    }
                }
            }
            assert forall|i: int| 0 < i < changes.len() implies changes[i] == rest.1[i - 1] by {}
            assert(visited.last() == rest.0.last());
            if rest.1.len() > 0 {
                assert(changes.last() == rest.1.last());
            }
            (visited, changes)
        }
    }
}

/// A guess that has the enthalpy already is the answer, in every phase: where the difference of equal
/// doubles is zero, zero over the slope is zero, and a double stays as it is beside zero.
pub proof fn a_right_guess_is_the_answer<const N: usize>(
    ops: Operations,
    z: [u64; N],
    t: u64,
    ity: i32,
    constants: Coefficients<N>,
    n: nat,
    zero: u64,
)
    requires
        n > 0,
        ({
            let h = chemistry::enthalpy(ops, z, t, ity, constants);
            &&& (ops.minus)(h, h) == 0
            &&& (ops.over)(
                0x8000_0000_0000_0000,
                chemistry::derivative(ops, z, t, ity, constants),
            ) == zero
        }),
        zero == 0 || zero == 0x8000_0000_0000_0000,
        (ops.plus)(t, zero) == t,
    ensures
        chemistry::newton(
            ops,
            z,
            t,
            chemistry::enthalpy(ops, z, t, ity, constants),
            ity,
            constants,
            n,
        ) == Some(t),
{
}

/// The constants of the correlations.
pub proof fn the_constants_are_doubles()
    ensures
        chemistry::KCAL_PER_DEGREE == 0x3FFC_CCCC_CCCC_CCCDu64,
        chemistry::THREE == 0x4008_0000_0000_0000u64,
        chemistry::FREEZING == 0x4071_1266_6666_6666u64,
        chemistry::GAS_CONSTANT == 0x3ECE_0176_8E58_F40Fu64,
        chemistry::TOLERANCE == 0x3D71_9799_812D_EA11u64,
        double::ONE == 0x3FF0_0000_0000_0000u64,
        double::TWO == 0x4000_0000_0000_0000u64,
{
}

} // verus!
