//! Names and lists of names.
//!
//! Every signal, sensor, actuator and controller is addressed by a text key. Lists of names are
//! append-only, and a name that was given twice means its latest place, so all look-ups go through
//! [`find_last`].
use vstd::prelude::*;

verus! {

/// The characters of each string of a list.
pub open spec fn texts(list: Seq<String>) -> Seq<Seq<char>> {
    Seq::new(list.len(), |i: int| list[i]@)
}

/// The characters of each string slice of a list.
pub open spec fn strs(list: Seq<&str>) -> Seq<Seq<char>> {
    Seq::new(list.len(), |i: int| list[i]@)
}

/// The last place at which `name` stands in `names`, if it stands there at all.
pub open spec fn last_position(names: Seq<Seq<char>>, name: Seq<char>) -> Option<usize>
    decreases names.len(),
{
    if names.len() == 0 {
        None
    } else if names.last() == name {
        Some((names.len() - 1) as usize)
    } else {
        last_position(names.drop_last(), name)
    }
}

/// Whether the entry at `i` is the one that a look-up of its own name finds.
pub open spec fn is_effective(names: Seq<Seq<char>>, i: int) -> bool {
    last_position(names, names[i]) == Some(i as usize)
}

/// The effective names among the first `n`, in the order of their places.
pub open spec fn effective_names(names: Seq<Seq<char>>, n: nat) -> Seq<Seq<char>>
    recommends
        n <= names.len(),
    decreases n,
{
    if n == 0 {
        Seq::empty()
    } else {
        let before = effective_names(names, (n - 1) as nat);
        if is_effective(names, n - 1) {
            before.push(names[n - 1])
        } else {
            before
        }
    }
}

/// A found place holds the name, and no later place does; nothing is found only where no place
/// holds it.
pub proof fn last_position_is_last(names: Seq<Seq<char>>, name: Seq<char>)
    requires
        names.len() <= usize::MAX,
    ensures
        match last_position(names, name) {
            Some(p) => p < names.len() && names[p as int] == name && forall|j: int|
                p < j < names.len() ==> #[trigger] names[j] != name,
            None => !names.contains(name),
        },
    decreases names.len(),
{
    if names.len() > 0 && names.last() != name {
        last_position_is_last(names.drop_last(), name);
        let shorter = names.drop_last();
        assert forall|j: int| 0 <= j < shorter.len() implies #[trigger] names[j] == shorter[j] by {}
        if last_position(shorter, name) is None && names.contains(name) {
            let j = choose|j: int| 0 <= j < names.len() && names[j] == name;
            assert(shorter[j] == name);
        }
    }
}

/// The effective names hold every name exactly once.
pub proof fn effective_names_are_the_names(names: Seq<Seq<char>>, n: nat)
    requires
        n <= names.len() <= usize::MAX,
    ensures
        effective_names(names, n).no_duplicates(),
        forall|name: Seq<char>|
            effective_names(names, n).contains(name) <==> (last_position(names, name) matches Some(
                p,
            ) && p < n),
    decreases n,
{
    let listed = effective_names(names, n);
    if n > 0 {
        let m = (n - 1) as nat;
        let before = effective_names(names, m);
        effective_names_are_the_names(names, m);
        if is_effective(names, m as int) {
            assert(!before.contains(names[m as int]));
            assert forall|name: Seq<char>|
                listed.contains(name) <==> (last_position(names, name) matches Some(p) && p < n) by {
                if before.contains(name) {
                    let j = choose|j: int| 0 <= j < before.len() && before[j] == name;
                    assert(listed[j] == name);
                }
                if name == names[m as int] {
                    assert(listed[before.len() as int] == name);
                }
                last_position_is_last(names, name);
                if listed.contains(name) && name != names[m as int] {
                    let j = choose|j: int| 0 <= j < listed.len() && listed[j] == name;
                    assert(before[j] == name);
                }
            }
        } else {
            assert forall|name: Seq<char>|
                listed.contains(name) <==> (last_position(names, name) matches Some(p) && p < n) by {
                last_position_is_last(names, name);
            }
        }
    }
}

/// The last place of `name` in `names`.
pub fn find_last(names: &Vec<String>, name: &str) -> (place: Option<usize>)
    ensures
        place == last_position(texts(names@), name@),
{
    let wanted: String = name.to_owned();
    let mut i: usize = names.len();
    let ghost all = texts(names@);
    assert(all.take(i as int) =~= all);
    while i > 0
        invariant
            i <= names@.len(),
            all == texts(names@),
            wanted@ == name@,
            last_position(all, name@) == last_position(all.take(i as int), name@),
        decreases i,
    {
        assert(all.take(i as int).drop_last() =~= all.take(i - 1));
        i = i - 1;
        if names[i] == wanted {
            return Some(i);
        }
    }
    None
}

/// The effective names of a list, in the order of their places.
pub fn list_names(names: &Vec<String>) -> (listed: Vec<String>)
    ensures
        texts(listed@) == effective_names(texts(names@), names@.len()),
{
    let mut listed: Vec<String> = Vec::new();
    let mut i: usize = 0;
    let ghost all = texts(names@);
    assert(texts(listed@) =~= effective_names(all, 0));
    while i < names.len()
        invariant
            i <= names@.len(),
            all == texts(names@),
            texts(listed@) == effective_names(all, i as nat),
        decreases names@.len() - i,
    {
        let ghost before = listed@;
        let effective: bool = match find_last(names, names[i].as_str()) {
            Some(p) => p == i,
            None => false,
        };
        if effective {
            listed.push(names[i].clone());
            assert(texts(listed@) =~= texts(before).push(all[i as int]));
        }
        i = i + 1;
    }
    listed
}

/// `first` followed by `second`.
pub fn joined(first: &str, second: &str) -> (both: String)
    ensures
        both@ == first@ + second@,
{
    let mut both: String = first.to_owned();
    both.append(second);
    both
}

/// `prefix` and `name` with a dot between them.
pub fn dotted(prefix: &str, name: &str) -> (path: String)
    ensures
        path@ == prefix@ + "."@ + name@,
{
    let mut path: String = prefix.to_owned();
    path.append(".");
    path.append(name);
    path
}

/// `name` between `before` and `after`.
pub fn framed(before: &str, name: &str, after: &str) -> (text: String)
    ensures
        text@ == before@ + name@ + after@,
{
    let mut text: String = before.to_owned();
    text.append(name);
    text.append(after);
    text
}

/// The character with an ASCII capital letter made small.
pub open spec fn lowered_char(c: char) -> char {
    if 'A' <= c <= 'Z' {
        (c as int + 32) as char
    } else {
        c
    }
}

/// The text with its ASCII capital letters made small.
pub open spec fn lowered(name: Seq<char>) -> Seq<char> {
    Seq::new(name.len(), |i: int| lowered_char(name[i]))
}

/// The small letter for an ASCII capital letter.
fn small_letter(c: char) -> (letter: &'static str)
    requires
        'A' <= c <= 'Z',
    ensures
        letter@ == seq![lowered_char(c)],
{
    let letter: &'static str = match c {
        'A' => "a",
        'B' => "b",
        'C' => "c",
        'D' => "d",
        'E' => "e",
        'F' => "f",
        'G' => "g",
        'H' => "h",
        'I' => "i",
        'J' => "j",
        'K' => "k",
        'L' => "l",
        'M' => "m",
        'N' => "n",
        'O' => "o",
        'P' => "p",
        'Q' => "q",
        'R' => "r",
        'S' => "s",
        'T' => "t",
        'U' => "u",
        'V' => "v",
        'W' => "w",
        'X' => "x",
        'Y' => "y",
        _ => "z",
    };
    proof {
        reveal_strlit("a");
        reveal_strlit("b");
        reveal_strlit("c");
        reveal_strlit("d");
        reveal_strlit("e");
        reveal_strlit("f");
        reveal_strlit("g");
        reveal_strlit("h");
        reveal_strlit("i");
        reveal_strlit("j");
        reveal_strlit("k");
        reveal_strlit("l");
        reveal_strlit("m");
        reveal_strlit("n");
        reveal_strlit("o");
        reveal_strlit("p");
        reveal_strlit("q");
        reveal_strlit("r");
        reveal_strlit("s");
        reveal_strlit("t");
        reveal_strlit("u");
        reveal_strlit("v");
        reveal_strlit("w");
        reveal_strlit("x");
        reveal_strlit("y");
        reveal_strlit("z");
        assert(letter@ =~= seq![lowered_char(c)]);
    }
    letter
}

/// The text with its ASCII capital letters made small.
pub(crate) fn to_lowered(name: &str) -> (small: String)
    ensures
        small@ == lowered(name@),
{
    let n: usize = name.unicode_len();
    let mut small: String = String::new();
    let mut i: usize = 0;
    assert(small@ =~= lowered(name@).take(0));
    while i < n
        invariant
            i <= n == name@.len(),
            small@ == lowered(name@).take(i as int),
        decreases n - i,
    {
        let c: char = name.get_char(i);
        if 'A' <= c && c <= 'Z' {
            small.append(small_letter(c));
        } else {
            small.append(name.substring_char(i, i + 1));
        }
        i = i + 1;
        assert(small@ =~= lowered(name@).take(i as int));
    }
    assert(lowered(name@).take(n as int) =~= lowered(name@));
    small
}

/// A digit as text.
pub open spec fn digit(d: int) -> Seq<char> {
    if d == 0 {
        "0"@
    } else if d == 1 {
        "1"@
    } else if d == 2 {
        "2"@
    } else if d == 3 {
        "3"@
    } else if d == 4 {
        "4"@
    } else if d == 5 {
        "5"@
    } else if d == 6 {
        "6"@
    } else if d == 7 {
        "7"@
    } else if d == 8 {
        "8"@
    } else {
        "9"@
    }
}

/// A number in decimal digits.
pub open spec fn decimal(n: nat) -> Seq<char>
    decreases n,
{
    if n < 10 {
        digit(n as int)
    } else {
        decimal(n / 10) + digit((n % 10) as int)
    }
}

fn digit_text(d: usize) -> (text: &'static str)
    requires
        d < 10,
    ensures
        text@ == digit(d as int),
{
    if d == 0 {
        "0"
    } else if d == 1 {
        "1"
    } else if d == 2 {
        "2"
    } else if d == 3 {
        "3"
    } else if d == 4 {
        "4"
    } else if d == 5 {
        "5"
    } else if d == 6 {
        "6"
    } else if d == 7 {
        "7"
    } else if d == 8 {
        "8"
    } else {
        "9"
    }
}

/// A number in decimal digits.
pub fn to_decimal(n: usize) -> (text: String)
    ensures
        text@ == decimal(n as nat),
    decreases n,
{
    if n < 10 {
        digit_text(n).to_owned()
    } else {
        let mut text: String = to_decimal(n / 10);
        text.append(digit_text(n % 10));
        text
    }
}

/// Whether two texts are the same.
pub fn same(first: &String, second: &str) -> (yes: bool)
    ensures
        yes == (first@ == second@),
{
    *first == second.to_owned()
}

/// A copy of a list of texts.
pub fn copy_texts(list: &Vec<String>) -> (copy: Vec<String>)
    ensures
        texts(copy@) == texts(list@),
{
    let mut copy: Vec<String> = Vec::new();
    let mut i: usize = 0;
    while i < list.len()
        invariant
            i <= list@.len(),
            copy@.len() == i,
            forall|k: int| 0 <= k < i ==> (#[trigger] copy@[k])@ == list@[k]@,
        decreases list@.len() - i,
    {
        copy.push(list[i].clone());
        i = i + 1;
    }
    assert(texts(copy@) =~= texts(list@));
    copy
}

/// The strings of a list as slices.
pub fn as_strs<'a>(list: &'a Vec<String>) -> (slices: Vec<&'a str>)
    ensures
        strs(slices@) == texts(list@),
{
    let mut slices: Vec<&'a str> = Vec::new();
    let mut i: usize = 0;
    while i < list.len()
        invariant
            i <= list@.len(),
            slices@.len() == i,
            forall|k: int| 0 <= k < i ==> (#[trigger] slices@[k])@ == list@[k]@,
        decreases list@.len() - i,
    {
        slices.push(list[i].as_str());
        i = i + 1;
    }
    assert(strs(slices@) =~= texts(list@));
    slices
}

/// The number that a decimal digit stands for.
pub open spec fn digit_value(c: char) -> Option<nat> {
    if '0' <= c <= '9' {
        Some((c as int - '0' as int) as nat)
    } else {
        None
    }
}

/// The number that decimal digits stand for.
pub open spec fn decimal_value(digits: Seq<char>) -> Option<nat>
    decreases digits.len(),
{
    if digits.len() == 0 {
        Some(0)
    } else {
        match (decimal_value(digits.drop_last()), digit_value(digits.last())) {
            (Some(n), Some(d)) => Some(10 * n + d),
            _ => None,
        }
    }
}

/// The beginning of a number is no larger than the number.
pub proof fn a_beginning_is_no_larger(digits: Seq<char>, n: int)
    requires
        0 <= n <= digits.len(),
    ensures
        decimal_value(digits) matches Some(whole) ==> (decimal_value(digits.take(n)) matches Some(
            part,
        ) && part <= whole),
    decreases digits.len() - n,
{
    if n == digits.len() {
        assert(digits.take(n) =~= digits);
    } else {
        a_beginning_is_no_larger(digits, n + 1);
        assert(digits.take(n + 1).drop_last() =~= digits.take(n));
    }
}

proof fn digits_are_plain(d: int)
    requires
        0 <= d < 10,
    ensures
        digit(d).len() == 1,
        digit_value(digit(d)[0]) == Some(d as nat),
{
    reveal_strlit("0");
    reveal_strlit("1");
    reveal_strlit("2");
    reveal_strlit("3");
    reveal_strlit("4");
    reveal_strlit("5");
    reveal_strlit("6");
    reveal_strlit("7");
    reveal_strlit("8");
    reveal_strlit("9");
}

/// A number that was written in decimal digits is read back.
pub proof fn a_written_number_is_read_back(n: nat)
    ensures
        decimal(n).len() > 0,
        forall|i: int|
            0 <= i < decimal(n).len() ==> digit_value(#[trigger] decimal(n)[i]) is Some,
        decimal_value(decimal(n)) == Some(n),
    decreases n,
{
    let written = decimal(n);
    if n < 10 {
        digits_are_plain(n as int);
        assert(written.drop_last() =~= Seq::empty());
        assert(decimal_value(written.drop_last()) == Some(0nat));
    } else {
        a_written_number_is_read_back(n / 10);
        digits_are_plain((n % 10) as int);
        assert(written.drop_last() =~= decimal(n / 10));
        assert(written.last() == digit((n % 10) as int)[0]);
        assert forall|i: int| 0 <= i < written.len() implies digit_value(#[trigger] written[i]) is Some by {
            if i < written.len() - 1 {
                assert(written[i] == decimal(n / 10)[i]);
            }
        }
    }
}

/// Reads a number in decimal digits. There is none where a character is no digit or the number does
/// not fit.
pub fn from_decimal(digits: &str) -> (number: Option<usize>)
    ensures
        match decimal_value(digits@) {
            Some(n) => if n <= usize::MAX {
                number == Some(n as usize)
            } else {
                number is None
            },
            None => number is None,
        },
{
    let n: usize = digits.unicode_len();
    let mut value: usize = 0;
    let mut i: usize = 0;
    assert(digits@.take(0) =~= Seq::empty());
    while i < n
        invariant
            i <= n == digits@.len(),
            decimal_value(digits@.take(i as int)) == Some(value as nat),
        decreases n - i,
    {
        let c: char = digits.get_char(i);
        proof {
            assert(digits@.take(i + 1).drop_last() =~= digits@.take(i as int));
            assert(digits@.take(i + 1).last() == c);
            a_beginning_is_no_larger(digits@, i + 1);
        }
        if c < '0' || c > '9' {
            return None;
        }
        let d: usize = (c as u32 - '0' as u32) as usize;
        if value > usize::MAX / 10 || 10 * value > usize::MAX - d {
            return None;
        }
        value = 10 * value + d;
        i = i + 1;
    }
    assert(digits@.take(i as int) =~= digits@);
    Some(value)
}

/// Whether an outcome is the expected one: a text, or the text of an error.
pub open spec fn outcome_is(
    outcome: Result<String, String>,
    expected: Result<Seq<char>, Seq<char>>,
) -> bool {
    match (outcome, expected) {
        (Ok(text), Ok(wanted)) => text@ == wanted,
        (Err(message), Err(wanted)) => message@ == wanted,
        _ => false,
    }
}

} // verus!
