//! Doubles by their bit patterns.
//!
//! A signal value is an IEEE 754 double, carried as the 64 bits that encode it: the sign, eleven
//! bits of exponent, and fifty-two bits of fraction. Non-negative finite doubles and infinity are
//! ordered as their patterns are.
use vstd::arithmetic::power2::pow2;
use vstd::prelude::*;

verus! {

pub const ZERO: u64 = 0;

pub const NEGATIVE_ZERO: u64 = 0x8000_0000_0000_0000;

pub const HALF: u64 = 0x3FE0_0000_0000_0000;

pub const ONE: u64 = 0x3FF0_0000_0000_0000;

pub const TWO: u64 = 0x4000_0000_0000_0000;

pub const SIX: u64 = 0x4018_0000_0000_0000;

/// One second, in hours.
pub const SECOND_IN_HOURS: u64 = 0x3F32_3456_789A_BCDF;

pub const INFINITY: u64 = 0x7FF0_0000_0000_0000;

pub const NEGATIVE_INFINITY: u64 = 0xFFF0_0000_0000_0000;

/// Whether the pattern encodes zero, of either sign.
pub open spec fn is_zero(bits: u64) -> bool {
    bits == ZERO || bits == NEGATIVE_ZERO
}

/// Whether the double is zero or less. What is not a number is neither.
pub open spec fn is_not_positive(bits: u64) -> bool {
    bits == ZERO || NEGATIVE_ZERO <= bits <= NEGATIVE_INFINITY
}

/// The double with the other sign.
pub open spec fn negated(bits: u64) -> u64 {
    if bits >= NEGATIVE_ZERO {
        (bits - NEGATIVE_ZERO) as u64
    } else {
        (bits + NEGATIVE_ZERO) as u64
    }
}

/// The double without its sign. The patterns of magnitudes are ordered as the magnitudes are, with
/// what is not a number above them all.
pub open spec fn magnitude(bits: u64) -> u64 {
    if bits >= NEGATIVE_ZERO {
        (bits - NEGATIVE_ZERO) as u64
    } else {
        bits
    }
}

/// The greater of the double and zero. What is not a number counts as zero.
pub open spec fn at_least_zero(bits: u64) -> u64 {
    if bits <= INFINITY {
        bits
    } else {
        ZERO
    }
}

/// The place of the highest set bit.
pub open spec fn highest_bit(m: nat) -> nat
    decreases m,
{
    if m < 2 {
        0
    } else {
        1 + highest_bit(m / 2)
    }
}

/// The magnitude as a significand of fifty-three bits: exact where it fits, and otherwise rounded
/// to the nearest, with ties to even. A significand that is rounded up out of its fifty-three bits
/// carries into the exponent.
pub open spec fn significand(m: nat) -> int {
    let k = highest_bit(m);
    if k <= 52 {
        m as int * pow2((52 - k) as nat) as int
    } else {
        let unit = pow2((k - 52) as nat) as int;
        let quotient = m as int / unit;
        let rest = m as int % unit;
        if 2 * rest > unit || (2 * rest == unit && quotient % 2 == 1) {
            quotient + 1
        } else {
            quotient
        }
    }
}

/// The double nearest to an integer.
pub open spec fn nearest(i: int) -> int {
    if i == 0 {
        0
    } else {
        let m = if i < 0 {
            (-i) as nat
        } else {
            i as nat
        };
        let sign: int = if i < 0 {
            0x8000_0000_0000_0000
        } else {
            0
        };
        sign + (1022 + highest_bit(m)) * 0x10_0000_0000_0000 + significand(m)
    }
}

proof fn highest_bit_bounds(m: nat)
    requires
        m > 0,
    ensures
        pow2(highest_bit(m)) <= m < pow2(highest_bit(m) + 1),
    decreases m,
{
    vstd::arithmetic::power2::lemma2_to64();
    vstd::arithmetic::power2::lemma2_to64_rest();
    if m >= 2 {
        highest_bit_bounds(m / 2);
        vstd::arithmetic::power2::lemma_pow2_unfold(highest_bit(m));
        vstd::arithmetic::power2::lemma_pow2_unfold(highest_bit(m) + 1);
    }
}

/// A significand has fifty-three bits, or is the power of two above them.
proof fn significand_bounds(m: nat)
    requires
        0 < m <= 0x8000_0000_0000_0000,
    ensures
        0x10_0000_0000_0000 <= significand(m) <= 0x20_0000_0000_0000,
        highest_bit(m) <= 63,
{
    let k = highest_bit(m);
    vstd::arithmetic::power2::lemma2_to64();
    vstd::arithmetic::power2::lemma2_to64_rest();
    highest_bit_bounds(m);
    if k > 63 {
        vstd::arithmetic::power2::lemma_pow2_strictly_increases(63, k);
        if k > 64 {
            vstd::arithmetic::power2::lemma_pow2_strictly_increases(64, k);
        }
    }
    if k <= 52 {
        let scale = pow2((52 - k) as nat);
        vstd::arithmetic::power2::lemma_pow2_adds(k, (52 - k) as nat);
        vstd::arithmetic::power2::lemma_pow2_adds(k + 1, (52 - k) as nat);
        assert(pow2(k) * scale <= m * scale <= pow2(k + 1) * scale) by (nonlinear_arith)
            requires
                pow2(k) <= m < pow2(k + 1),
                scale > 0,
        ;
    } else {
        let unit = pow2((k - 52) as nat);
        vstd::arithmetic::power2::lemma_pow2_adds((k - 52) as nat, 52);
        vstd::arithmetic::power2::lemma_pow2_adds((k - 52) as nat, 53);
        assert(0x10_0000_0000_0000 <= m as int / unit as int) by (nonlinear_arith)
            requires
                m >= unit * 0x10_0000_0000_0000,
                unit > 0,
        ;
        assert((m as int / unit as int) < 0x20_0000_0000_0000) by (nonlinear_arith)
            requires
                m < unit * 0x20_0000_0000_0000,
                unit > 0,
        ;
    }
}

/// The double nearest to an integer of sixty-four bits is a pattern of sixty-four bits.
pub proof fn nearest_is_a_pattern(i: int)
    requires
        i64::MIN <= i <= i64::MAX,
    ensures
        0 <= nearest(i) <= u64::MAX,
{
    if i != 0 {
        significand_bounds(
            if i < 0 {
                (-i) as nat
            } else {
                i as nat
            },
        );
    }
}

/// The exponent field of a positive pattern.
pub open spec fn exponent_field(pattern: int) -> int {
    pattern / 0x10_0000_0000_0000
}

/// The fraction field of a positive pattern.
pub open spec fn fraction_field(pattern: int) -> int {
    pattern % 0x10_0000_0000_0000
}

/// Whether the positive pattern stands for the integer, or for the double nearest to it. Up to two to
/// the fifty-third every integer is a double. Above, the distance to the integer is at most half of the
/// distance between two doubles, and of two that are as near the one with an even fraction is taken.
pub open spec fn stands_for(pattern: int, m: int) -> bool {
    let e = exponent_field(pattern);
    let f = fraction_field(pattern);
    &&& 0 < m <= 0x20_0000_0000_0000 ==> e >= 1023 && (0x10_0000_0000_0000 + f) * pow2(
        (e - 1023) as nat,
    ) == m * 0x10_0000_0000_0000
    &&& m > 0x20_0000_0000_0000 ==> {
        let spacing = pow2((e - 1075) as nat) as int;
        let value = (0x10_0000_0000_0000 + f) * spacing;
        &&& e >= 1075
        &&& 2 * (value - m) <= spacing
        &&& 2 * (m - value) <= spacing
        &&& 2 * (value - m) == spacing || 2 * (m - value) == spacing ==> f % 2 == 0
        &&& f == 0 && m < value ==> 4 * (value - m) <= spacing
    }
}

proof fn a_small_integer_is_exact(m: nat)
    requires
        0 < m,
        highest_bit(m) <= 52,
        m <= 0x8000_0000_0000_0000,
    ensures
        ({
            let pattern = nearest(m as int);
            let e = exponent_field(pattern);
            &&& e >= 1023
            &&& (0x10_0000_0000_0000 + fraction_field(pattern)) * pow2((e - 1023) as nat) == m
                * 0x10_0000_0000_0000
        }),
{
    let k = highest_bit(m);
    let scale = pow2((52 - k) as nat) as int;
    let size = pow2(k) as int;
    significand_bounds(m);
    highest_bit_bounds(m);
    vstd::arithmetic::power2::lemma2_to64();
    vstd::arithmetic::power2::lemma2_to64_rest();
    vstd::arithmetic::power2::lemma_pow2_adds(k, (52 - k) as nat);
    vstd::arithmetic::power2::lemma_pow2_adds(k + 1, (52 - k) as nat);
    vstd::arithmetic::power2::lemma_pow2_pos((52 - k) as nat);
    assert(pow2(52) == 0x10_0000_0000_0000);
    assert(pow2(53) == 0x20_0000_0000_0000);
    let sig = significand(m);
    let above = pow2(k + 1) as int;
    assert(m * scale < above * scale) by (nonlinear_arith)
        requires
            m < above,
            scale > 0,
    ;
    assert(sig < 0x20_0000_0000_0000);
    let pattern = nearest(m as int);
    assert(exponent_field(pattern) == 1023 + k);
    assert(fraction_field(pattern) == sig - 0x10_0000_0000_0000);
    assert(sig * size == m * (scale * size)) by (nonlinear_arith)
        requires
            sig == m * scale,
    ;
    assert(scale * size == 0x10_0000_0000_0000) by (nonlinear_arith)
        requires
            size * scale == 0x10_0000_0000_0000,
    ;
}

proof fn a_large_integer_is_rounded(m: nat)
    requires
        highest_bit(m) > 52,
        0 < m <= 0x8000_0000_0000_0000,
    ensures
        ({
            let pattern = nearest(m as int);
            let e = exponent_field(pattern);
            let f = fraction_field(pattern);
            let spacing = pow2((e - 1075) as nat) as int;
            let value = (0x10_0000_0000_0000 + f) * spacing;
            &&& e >= 1075
            &&& 2 * (value - m) <= spacing
            &&& 2 * (m - value) <= spacing
            &&& 2 * (value - m) == spacing || 2 * (m - value) == spacing ==> f % 2 == 0
            &&& f == 0 && m < value ==> 4 * (value - m) <= spacing
            &&& m == 0x20_0000_0000_0000 ==> value == m && e == 1076
        }),
{
    let k = highest_bit(m);
    let unit = pow2((k - 52) as nat) as int;
    significand_bounds(m);
    highest_bit_bounds(m);
    vstd::arithmetic::power2::lemma2_to64();
    vstd::arithmetic::power2::lemma2_to64_rest();
    vstd::arithmetic::power2::lemma_pow2_pos((k - 52) as nat);
    vstd::arithmetic::power2::lemma_pow2_unfold((k - 51) as nat);
    let quotient = m as int / unit;
    let rest = m as int % unit;
    vstd::arithmetic::div_mod::lemma_fundamental_div_mod(m as int, unit);
    vstd::arithmetic::div_mod::lemma_mod_bound(m as int, unit);
    let sig = significand(m);
    let pattern = nearest(m as int);
    let e = exponent_field(pattern);
    let f = fraction_field(pattern);
    let spacing = pow2((e - 1075) as nat) as int;
    let value = (0x10_0000_0000_0000 + f) * spacing;
    assert(m == unit * quotient + rest);
    if sig < 0x20_0000_0000_0000 {
        assert(e == 1023 + k);
        assert(f == sig - 0x10_0000_0000_0000);
        assert(spacing == unit);
        assert(value == sig * unit);
    } else {
        assert(e == 1024 + k);
        assert(f == 0);
        assert(spacing == 2 * unit);
        assert(value == sig * unit) by (nonlinear_arith)
            requires
                sig == 0x20_0000_0000_0000,
                spacing == 2 * unit,
                value == (0x10_0000_0000_0000 + 0) * spacing,
        ;
    }
    if sig == quotient {
        assert(sig * unit == unit * quotient) by (nonlinear_arith)
            requires
                sig == quotient,
        ;
        assert(m - value == rest);
    } else {
        assert(sig * unit == unit * quotient + unit) by (nonlinear_arith)
            requires
                sig == quotient + 1,
        ;
        assert(value - m == unit - rest);
    }
    if m == 0x20_0000_0000_0000 {
        if k > 53 {
            if k > 54 {
                vstd::arithmetic::power2::lemma_pow2_strictly_increases(54, k);
            }
            assert(pow2(54) == 0x40_0000_0000_0000);
        }
        assert(k == 53);
        assert(unit == 2);
        assert(quotient == 0x10_0000_0000_0000);
    }
}

/// An integer becomes the double nearest to it, and the negative of an integer the same double with the
/// other sign. Zero becomes zero.
pub proof fn an_integer_becomes_the_nearest_double(i: int)
    requires
        i64::MIN <= i <= i64::MAX,
    ensures
        nearest(0) == 0,
        i > 0 ==> 0 < nearest(i) < 0x8000_0000_0000_0000 && stands_for(nearest(i), i),
        i < 0 ==> {
            let positive = nearest(i) - 0x8000_0000_0000_0000;
            0 < positive < 0x8000_0000_0000_0000 && stands_for(positive, -i)
        },
{
    if i != 0 {
        let m = if i < 0 {
            (-i) as nat
        } else {
            i as nat
        };
        significand_bounds(m);
        highest_bit_bounds(m);
        vstd::arithmetic::power2::lemma2_to64();
        vstd::arithmetic::power2::lemma2_to64_rest();
        let k = highest_bit(m);
        if k <= 52 {
            if k < 52 {
                vstd::arithmetic::power2::lemma_pow2_strictly_increases(k + 1, 53);
            }
            assert(pow2(53) == 0x20_0000_0000_0000);
            assert(m < 0x20_0000_0000_0000);
            a_small_integer_is_exact(m);
            assert(stands_for(nearest(m as int), m as int));
        } else {
            if k > 53 {
                vstd::arithmetic::power2::lemma_pow2_strictly_increases(53, k);
            }
            assert(pow2(53) == 0x20_0000_0000_0000);
            assert(m >= 0x20_0000_0000_0000);
            a_large_integer_is_rounded(m);
            if m == 0x20_0000_0000_0000 {
                assert(pow2(1) == 2 && pow2(53) == 0x20_0000_0000_0000);
                let f = fraction_field(nearest(m as int));
                assert(pow2((1076 - 1075) as nat) == 2);
                assert((0x10_0000_0000_0000 + f) * 2 == 0x20_0000_0000_0000);
                assert(f == 0);
                assert(exponent_field(nearest(m as int)) == 1076);
                assert(pow2((1076 - 1023) as nat) == 0x20_0000_0000_0000);
                assert(stands_for(nearest(m as int), m as int));
            } else {
                assert(stands_for(nearest(m as int), m as int));
            }
        }
        assert(stands_for(nearest(m as int), m as int));
        assert(i < 0 ==> nearest(i) == nearest(m as int) + 0x8000_0000_0000_0000);
    }
}

pub fn is_zero_pattern(bits: u64) -> (yes: bool)
    ensures
        yes == is_zero(bits),
{
    bits == ZERO || bits == NEGATIVE_ZERO
}

pub fn is_zero_or_less(bits: u64) -> (yes: bool)
    ensures
        yes == is_not_positive(bits),
{
    bits == ZERO || (NEGATIVE_ZERO <= bits && bits <= NEGATIVE_INFINITY)
}

pub fn negate(bits: u64) -> (other: u64)
    ensures
        other == negated(bits),
{
    if bits >= NEGATIVE_ZERO {
        bits - NEGATIVE_ZERO
    } else {
        bits + NEGATIVE_ZERO
    }
}

pub fn magnitude_of(bits: u64) -> (size: u64)
    ensures
        size == magnitude(bits),
{
    if bits >= NEGATIVE_ZERO {
        bits - NEGATIVE_ZERO
    } else {
        bits
    }
}

pub fn clamp_to_zero(bits: u64) -> (clamped: u64)
    ensures
        clamped == at_least_zero(bits),
{
    if bits <= INFINITY {
        bits
    } else {
        ZERO
    }
}

/// The double nearest to an integer.
pub fn from_integer(i: i64) -> (bits: u64)
    ensures
        bits == nearest(i as int),
{
    if i == 0 {
        return 0;
    }
    let m: u64 = if i < 0 {
        (-(i as i128)) as u64
    } else {
        i as u64
    };
    let sign: u64 = if i < 0 {
        NEGATIVE_ZERO
    } else {
        0
    };
    let mut k: u64 = 0;
    let mut rest: u64 = m;
    proof {
        vstd::arithmetic::power2::lemma2_to64();
        vstd::arithmetic::power2::lemma2_to64_rest();
        highest_bit_bounds(m as nat);
        if highest_bit(m as nat) > 64 {
            vstd::arithmetic::power2::lemma_pow2_strictly_increases(64, highest_bit(m as nat));
        }
    }
    while rest >= 2
        invariant
            rest >= 1,
            highest_bit(m as nat) <= 63,
            highest_bit(m as nat) == k + highest_bit(rest as nat),
        decreases rest,
    {
        rest = rest / 2;
        k = k + 1;
    }
    let kept: u64 = if k <= 52 {
        let mut scaled: u64 = m;
        let mut j: u64 = k;
        proof {
            assert(m * 1 == m) by (nonlinear_arith);
            vstd::arithmetic::power2::lemma2_to64();
            vstd::arithmetic::power2::lemma2_to64_rest();
        }
        while j < 52
            invariant
                k <= j <= 52,
                k == highest_bit(m as nat),
                scaled == m * pow2((j - k) as nat),
                scaled < pow2((j + 1) as nat),
            decreases 52 - j,
        {
            proof {
                vstd::arithmetic::power2::lemma2_to64();
                vstd::arithmetic::power2::lemma2_to64_rest();
                vstd::arithmetic::power2::lemma_pow2_unfold((j + 1 - k) as nat);
                vstd::arithmetic::power2::lemma_pow2_unfold((j + 2) as nat);
                if j + 1 < 52 {
                    vstd::arithmetic::power2::lemma_pow2_strictly_increases((j + 1) as nat, 52);
                }
                assert(m * (2 * pow2((j - k) as nat)) == 2 * (m * pow2((j - k) as nat)))
                    by (nonlinear_arith);
            }
            scaled = scaled * 2;
            j = j + 1;
        }
        scaled
    } else {
        let mut unit: u64 = 1;
        let mut j: u64 = 52;
        proof {
            vstd::arithmetic::power2::lemma2_to64();
            vstd::arithmetic::power2::lemma2_to64_rest();
        }
        while j < k
            invariant
                52 <= j <= k <= 63,
                unit == pow2((j - 52) as nat),
                unit <= 2048,
                j - 52 <= 11,
            decreases k - j,
        {
            proof {
                vstd::arithmetic::power2::lemma2_to64();
                vstd::arithmetic::power2::lemma2_to64_rest();
                vstd::arithmetic::power2::lemma_pow2_unfold((j + 1 - 52) as nat);
                if j + 1 - 52 < 11 {
                    vstd::arithmetic::power2::lemma_pow2_strictly_increases(
                        (j + 1 - 52) as nat,
                        11,
                    );
                }
            }
            unit = unit * 2;
            j = j + 1;
        }
        let quotient: u64 = m / unit;
        let left: u64 = m % unit;
        proof {
            vstd::arithmetic::power2::lemma2_to64();
            vstd::arithmetic::power2::lemma2_to64_rest();
            vstd::arithmetic::power2::lemma_pow2_adds((k - 52) as nat, 53);
            assert(m < pow2((k + 1) as nat));
            assert(pow2((k + 1) as nat) == unit * 0x20_0000_0000_0000);
            assert(quotient < 0x20_0000_0000_0000) by (nonlinear_arith)
                requires
                    quotient == m / unit,
                    m < unit * 0x20_0000_0000_0000,
                    unit > 0,
            ;
        }
        if 2 * left > unit || (2 * left == unit && quotient % 2 == 1) {
            quotient + 1
        } else {
            quotient
        }
    };
    proof {
        assert(kept == significand(m as nat));
        vstd::arithmetic::power2::lemma2_to64();
        vstd::arithmetic::power2::lemma2_to64_rest();
        if k <= 52 {
            assert(kept <= 0x20_0000_0000_0000);
        }
    }
    sign + (1022 + k) * 0x10_0000_0000_0000 + kept
}

} // verus!
