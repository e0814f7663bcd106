//! Laws of numbers as text and of doubles as bit patterns.
use crate::{double, text};
use vstd::prelude::*;

verus! {

/// A number is written digit by digit: one digit by itself, and behind the digits of its tenth the
/// digit of what is left.
pub proof fn a_number_is_written_digit_by_digit(n: nat, d: nat)
    requires
        d < 10,
    ensures
        text::decimal(d) == seq![('0' as int + d) as char],
        n > 0 ==> text::decimal(10 * n + d) == text::decimal(n).push(('0' as int + d) as char),
{
    reveal_strlit("0");
    reveal_strlit("1");
    reveal_strlit("2");
    reveal_strlit("3");
    reveal_strlit("4");
    reveal_strlit("5");
    reveal_strlit("6");
    reveal_strlit("7");
    reveal_strlit("8");
    reveal_strlit("9");
    assert(text::digit(d as int) =~= seq![('0' as int + d) as char]);
    if n > 0 {
        assert((10 * n + d) / 10 == n);
        assert((10 * n + d) % 10 == d);
        assert(text::decimal(10 * n + d) =~= text::decimal(n).push(('0' as int + d) as char));
    }
}

/// Two numbers that are written alike are the same.
pub proof fn a_text_writes_one_number(one: nat, other: nat)
    requires
        text::decimal(one) == text::decimal(other),
    ensures
        one == other,
{
    text::a_written_number_is_read_back(one);
    text::a_written_number_is_read_back(other);
}

/// A text is read as a number digit by digit, and only where each of its characters is a digit.
pub proof fn a_number_is_read_digit_by_digit(digits: Seq<char>, c: char)
    ensures
        text::decimal_value(Seq::empty()) == Some(0nat),
        '0' <= c <= '9' ==> (text::decimal_value(digits) matches Some(n) ==> text::decimal_value(
            digits.push(c),
        ) == Some((10 * n + (c as int - '0' as int)) as nat)),
        !('0' <= c <= '9') ==> text::decimal_value(digits.push(c)) is None,
        text::decimal_value(digits) is None ==> text::decimal_value(digits.push(c)) is None,
{
    assert(digits.push(c).drop_last() =~= digits);
}

/// Capital letters become small ones, and every other character stays; a text that is lowered stays as
/// it is.
pub proof fn capital_letters_become_small(name: Seq<char>)
    ensures
        text::lowered(name).len() == name.len(),
        forall|i: int|
            0 <= i < name.len() ==> #[trigger] text::lowered(name)[i] == if 'A' <= name[i] <= 'Z' {
                (name[i] as int - 'A' as int + 'a' as int) as char
            } else {
                name[i]
            },
        text::lowered(text::lowered(name)) == text::lowered(name),
{
    assert(text::lowered(text::lowered(name)) =~= text::lowered(name));
}

/// The names of the method are all its spellings with capital and small letters.
pub proof fn a_method_is_named_in_any_case(name: Seq<char>)
    ensures
        text::lowered(name) == "rk4"@ <==> name.len() == 3 && (name[0] == 'r' || name[0] == 'R') && (
        name[1] == 'k' || name[1] == 'K') && name[2] == '4',
{
    reveal_strlit("rk4");
    assert("rk4"@.len() == 3 && "rk4"@[0] == 'r' && "rk4"@[1] == 'k' && "rk4"@[2] == '4');
    assert(text::lowered(name).len() == name.len());
    if name.len() == 3 {
        assert(text::lowered(name)[0] == text::lowered_char(name[0]));
        assert(text::lowered(name)[1] == text::lowered_char(name[1]));
        assert(text::lowered(name)[2] == text::lowered_char(name[2]));
        if (name[0] == 'r' || name[0] == 'R') && (name[1] == 'k' || name[1] == 'K') && name[2]
            == '4' {
            assert(text::lowered(name) =~= "rk4"@);
        }
    }
}

/// Negating a double changes its sign and nothing else: twice is as good as never, and a double and its
/// negative are of one magnitude. A magnitude has no sign, and is that of the double or of its negative.
pub proof fn a_sign_is_changed_and_left_out(bits: u64)
    ensures
        double::negated(double::negated(bits)) == bits,
        double::negated(bits) != bits,
        double::negated(bits) as int - bits as int == 0x8000_0000_0000_0000 || bits as int
            - double::negated(bits) as int == 0x8000_0000_0000_0000,
        double::magnitude(bits) < 0x8000_0000_0000_0000,
        double::magnitude(double::negated(bits)) == double::magnitude(bits),
        bits == double::magnitude(bits) || bits == double::negated(double::magnitude(bits)),
        bits < 0x8000_0000_0000_0000 ==> double::magnitude(bits) == bits,
{
}

/// A double that is held at zero or more stays where it is not below zero, and becomes zero where it is
/// or where it is no number.
pub proof fn a_speed_is_held_at_zero_or_more(bits: u64)
    ensures
        bits <= 0x7FF0_0000_0000_0000 ==> double::at_least_zero(bits) == bits,
        bits > 0x7FF0_0000_0000_0000 ==> double::at_least_zero(bits) == 0,
        double::at_least_zero(double::at_least_zero(bits)) == double::at_least_zero(bits),
        double::is_zero(bits) <==> bits == 0 || bits == 0x8000_0000_0000_0000,
        double::is_not_positive(bits) <==> bits == 0 || 0x8000_0000_0000_0000 <= bits
            <= 0xFFF0_0000_0000_0000,
{
}

/// The constants are the doubles that they are named after.
pub proof fn the_named_doubles_are_patterns()
    ensures
        double::ZERO == 0,
        double::ONE == 0x3FF0_0000_0000_0000u64,
        double::NEGATIVE_ZERO == 0x8000_0000_0000_0000u64,
        double::INFINITY == 0x7FF0_0000_0000_0000u64,
        double::NEGATIVE_INFINITY == 0xFFF0_0000_0000_0000u64,
        double::SECOND_IN_HOURS == 0x3F32_3456_789A_BCDFu64,
        double::nearest(0) == double::ZERO,
        double::nearest(1) == double::ONE,
        double::nearest(2) == double::TWO,
        double::nearest(6) == double::SIX,
{
    vstd::arithmetic::power2::lemma2_to64();
    vstd::arithmetic::power2::lemma2_to64_rest();
    reveal_with_fuel(double::highest_bit, 4);
    assert(double::highest_bit(1) == 0);
    assert(double::highest_bit(2) == 1);
    assert(double::highest_bit(6) == 2);
    assert(double::significand(1) == 0x10_0000_0000_0000);
    assert(double::significand(2) == 0x10_0000_0000_0000);
    assert(double::significand(6) == 0x18_0000_0000_0000);
}

} // verus!
