//! Numbers in decimal notation: writing them, and reading them back.

use vstd::prelude::*;

use crate::text::chars_of;

verus! {

/// The decimal digit for `d`.
pub open spec fn digit(d: int) -> char {
    ('0' as u32 + d) as char
}

/// Whether `c` is one of the ten decimal digits.
pub open spec fn is_digit(c: char) -> bool {
    '0' <= c <= '9'
}

/// The decimal notation of `n`: no sign, no leading zero.
pub open spec fn decimal(n: nat) -> Seq<char>
    decreases n,
{
    if n < 10 {
        seq![digit(n as int)]
    } else {
        decimal(n / 10).push(digit((n % 10) as int))
    }
}

/// The number that a sequence of digits denotes, nothing where another character occurs.
pub open spec fn digits_value(s: Seq<char>) -> Option<nat>
    decreases s.len(),
{
    if s.len() == 0 {
        Some(0)
    } else {
        match digits_value(s.drop_last()) {
            Some(v) if is_digit(s.last()) => Some((10 * v + (s.last() as u32 - '0' as u32)) as nat),
            _ => None,
        }
    }
}

/// The number that `s` denotes without a sign of its own but for an optional `+`.
pub open spec fn natural(s: Seq<char>) -> Option<nat> {
    if s.len() == 0 {
        None
    } else if s.len() > 1 && s[0] == '+' {
        digits_value(s.skip(1))
    } else {
        digits_value(s)
    }
}

/// The number that `s` denotes with an optional sign.
pub open spec fn integer(s: Seq<char>) -> Option<int> {
    if s.len() > 1 && s[0] == '-' {
        match digits_value(s.skip(1)) {
            Some(v) => Some(-(v as int)),
            None => None,
        }
    } else {
        match natural(s) {
            Some(v) => Some(v as int),
            None => None,
        }
    }
}

/// What more digits do to a number: it does not shrink.
proof fn lemma_digits_grow(s: Seq<char>, k: int)
    requires
        0 <= k <= s.len(),
    ensures
        digits_value(s.take(k)) is None ==> digits_value(s) is None,
        digits_value(s) matches Some(v) ==> digits_value(s.take(k)) matches Some(w) && w <= v,
    decreases s.len(),
{
    if k < s.len() {
        assert(s.drop_last().take(k) == s.take(k));
        lemma_digits_grow(s.drop_last(), k);
    } else {
        assert(s.take(k) == s);
    }
}

/// Reads the digits of `chars` from `from` on, up to `max`.
fn read_digits(chars: &Vec<char>, from: usize, max: u64) -> (value: Option<u64>)
    requires
        from <= chars.len(),
    ensures
        value == match digits_value(chars@.skip(from as int)) {
            Some(v) if v <= max => Some(v as u64),
            _ => None::<u64>,
        },
{
    let ghost all = chars@.skip(from as int);
    let mut value: u64 = 0;
    let mut i: usize = from;
    assert(all.take(0) == Seq::<char>::empty());
    while i < chars.len()
        invariant
            from <= i <= chars.len(),
            all == chars@.skip(from as int),
            digits_value(all.take(i - from)) == Some(value as nat),
            value <= max,
        decreases chars.len() - i,
    {
        let c = chars[i];
        let ghost next = all.take(i + 1 - from);
        proof {
            assert(next.drop_last() == all.take(i - from));
            assert(next.last() == c);
            lemma_digits_grow(all, i + 1 - from);
        }
        if !('0' <= c && c <= '9') {
            return None;
        }
        let unit: u64 = c as u64 - '0' as u64;
        if unit > max || value > (max - unit) / 10 {
            assert(10 * value + unit > max);
            return None;
        }
        value = 10 * value + unit;
        i += 1;
    }
    assert(all.take(i - from) == all);
    Some(value)
}

/// Reads a number without a sign of its own but for an optional `+`, up to `max`.
pub fn read_natural(s: &str, max: u64) -> (value: Option<u64>)
    ensures
        value == match natural(s@) {
            Some(v) if v <= max => Some(v as u64),
            _ => None::<u64>,
        },
{
    let chars = chars_of(s);
    if chars.len() == 0 {
        return None;
    }
    assert(chars@.skip(0) == s@);
    if chars.len() > 1 && chars[0] == '+' {
        read_digits(&chars, 1, max)
    } else {
        read_digits(&chars, 0, max)
    }
}

/// Reads a `u32`.
pub fn read_u32(s: &str) -> (value: Option<u32>)
    ensures
        value == match natural(s@) {
            Some(v) if v <= u32::MAX => Some(v as u32),
            _ => None::<u32>,
        },
{
    match read_natural(s, u32::MAX as u64) {
        Some(v) => Some(v as u32),
        None => None,
    }
}

/// Reads a `usize`.
pub fn read_usize(s: &str) -> (value: Option<usize>)
    ensures
        value == match natural(s@) {
            Some(v) if v <= usize::MAX => Some(v as usize),
            _ => None::<usize>,
        },
{
    match read_natural(s, usize::MAX as u64) {
        Some(v) => Some(v as usize),
        None => None,
    }
}

/// Reads an `i32`.
pub fn read_i32(s: &str) -> (value: Option<i32>)
    ensures
        value == match integer(s@) {
            Some(v) if i32::MIN <= v <= i32::MAX => Some(v as i32),
            _ => None::<i32>,
        },
{
    let chars = chars_of(s);
    if chars.len() > 1 && chars[0] == '-' {
        match read_digits(&chars, 1, 0x8000_0000) {
            Some(v) => Some((-(v as i64)) as i32),
            None => None,
        }
    } else {
        match read_natural(s, 0x7fff_ffff) {
            Some(v) => Some(v as i32),
            None => None,
        }
    }
}

/// The decimal digit for `d`, as a text.
fn digit_text(d: u64) -> (text: &'static str)
    requires
        d < 10,
    ensures
        text@ == seq![digit(d as int)],
{
    proof {
        reveal_strlit("0");
        reveal_strlit("1");
        reveal_strlit("2");
        reveal_strlit("3");
        reveal_strlit("4");
        reveal_strlit("5");
        reveal_strlit("6");
        reveal_strlit("7");
        reveal_strlit("8");
        reveal_strlit("9");
    }
    match d {
        0 => "0",
        1 => "1",
        2 => "2",
        3 => "3",
        4 => "4",
        5 => "5",
        6 => "6",
        7 => "7",
        8 => "8",
        _ => "9",
    }
}

/// Writes `n` in decimal notation.
pub fn write_decimal(n: u64) -> (text: String)
    ensures
        text@ == decimal(n as nat),
    decreases n,
{
    if n < 10 {
        digit_text(n).to_owned()
    } else {
        let mut text = write_decimal(n / 10);
        text.append(digit_text(n % 10));
        text
    }
}

/// Every number is read back from its decimal notation.
pub proof fn law_decimal_read_back(n: nat)
    ensures
        natural(decimal(n)) == Some(n),
        integer(decimal(n)) == Some(n as int),
{
    lemma_decimal_digits(n);
}

/// Two numbers with the same decimal notation are one number.
pub proof fn law_decimal_injective(m: nat, n: nat)
    requires
        decimal(m) == decimal(n),
    ensures
        m == n,
{
    law_decimal_read_back(m);
    law_decimal_read_back(n);
}

/// Decimal notation: digits only, at least one, with the right value.
pub proof fn lemma_decimal_digits(n: nat)
    ensures
        decimal(n).len() > 0,
        forall|i: int| 0 <= i < decimal(n).len() ==> is_digit(#[trigger] decimal(n)[i]),
        digits_value(decimal(n)) == Some(n),
    decreases n,
{
    let s = decimal(n);
    reveal_with_fuel(digits_value, 2);
    if n < 10 {
        assert(s.drop_last() == Seq::<char>::empty());
    } else {
        lemma_decimal_digits(n / 10);
        assert(s.drop_last() == decimal(n / 10));
    }
}

/// A digit is one of ten characters.
pub proof fn law_digits(c: char)
    ensures
        is_digit(c) <==> (c == '0' || c == '1' || c == '2' || c == '3' || c == '4' || c == '5' || c
            == '6' || c == '7' || c == '8' || c == '9'),
{
}

/// A digit denotes itself, and a further digit ten times what came before, and itself.
pub proof fn law_natural_digits(s: Seq<char>, c: char)
    requires
        '0' <= c <= '9',
    ensures
        natural(seq![c]) == Some((c as int - '0' as int) as nat),
        natural(s) matches Some(v) ==> natural(s.push(c)) == Some(
            (10 * v + (c as int - '0' as int)) as nat,
        ),
{
    reveal_with_fuel(digits_value, 2);
    assert(seq![c].drop_last() == Seq::<char>::empty());
    if natural(s) is Some {
        assert(s.push(c).drop_last() == s);
        if s.len() > 1 && s[0] == '+' {
            assert(s.push(c).skip(1).drop_last() == s.skip(1));
        } else {
            if s.len() == 1 && s[0] == '+' {
                assert(!is_digit(s.last()));
            }
        }
    }
}

/// A plus sign before a number makes no difference.
pub proof fn law_plus_sign(s: Seq<char>)
    requires
        s.len() > 0,
        s[0] != '+',
    ensures
        natural(seq!['+'] + s) == natural(s),
{
    assert((seq!['+'] + s).skip(1) == s);
}

/// Nothing denotes a number but digits, one at least, with a plus sign before them or without.
pub proof fn law_number_is_digits(s: Seq<char>)
    ensures
        natural(s) is Some <==> ({
            let first: int = if s.len() > 0 && s[0] == '+' {
                1
            } else {
                0
            };
            &&& first < s.len()
            &&& forall|i: int| first <= i < s.len() ==> '0' <= #[trigger] s[i] <= '9'
        }),
{
    let first: int = if s.len() > 0 && s[0] == '+' {
        1
    } else {
        0
    };
    if s.len() > 0 {
        let rest = if s.len() > 1 && s[0] == '+' {
            s.skip(1)
        } else {
            s
        };
        lemma_all_digits(rest);
        if s.len() == 1 && s[0] == '+' {
            assert(!is_digit(rest[0]));
        } else if s[0] == '+' {
            assert forall|i: int| 1 <= i < s.len() implies is_digit(#[trigger] s[i]) == is_digit(
                rest[i - 1],
            ) by {
                assert(rest[i - 1] == s[i]);
            }
            if digits_value(rest) is None {
                let i = choose|i: int| 0 <= i < rest.len() && !is_digit(#[trigger] rest[i]);
                assert(s[i + 1] == rest[i]);
            }
        }
    }
}

/// A sequence denotes a number just where it is all digits.
proof fn lemma_all_digits(s: Seq<char>)
    ensures
        digits_value(s) is Some <==> forall|i: int| 0 <= i < s.len() ==> is_digit(#[trigger] s[i]),
    decreases s.len(),
{
    if s.len() > 0 {
        let start = s.drop_last();
        lemma_all_digits(start);
        assert forall|i: int| 0 <= i < start.len() implies start[i] == #[trigger] s[i] by {}
        if digits_value(start) is None {
            let i = choose|i: int| 0 <= i < start.len() && !is_digit(#[trigger] start[i]);
            assert(!is_digit(s[i]));
        }
        if !is_digit(s.last()) {
            assert(!is_digit(s[s.len() - 1]));
        }
    }
}

/// A number after a minus sign counts below zero, and one without as it is. A minus sign alone and
/// two signs denote nothing.
pub proof fn law_integer_signs(s: Seq<char>)
    ensures
        s.len() == 0 || s[0] != '-' ==> integer(s) == match natural(s) {
            Some(v) => Some(v as int),
            None => None,
        },
        s.len() > 0 && s[0] != '+' ==> integer(seq!['-'] + s) == match natural(s) {
            Some(v) => Some(0 - v as int),
            None => None,
        },
        s.len() == 0 || s[0] == '+' ==> integer(seq!['-'] + s) is None,
{
    let signed = seq!['-'] + s;
    assert(signed.skip(1) == s);
    law_number_is_digits(signed);
    assert(signed[0] == '-');
    if s.len() > 0 && s[0] == '+' {
        lemma_all_digits(s);
        assert(!is_digit(s[0]));
    }
}

/// The notation of a number below ten is its digit; that of any other is the notation of its tens
/// and the digit of its units.
pub proof fn law_decimal_digits(tens: nat, units: nat)
    requires
        units < 10,
    ensures
        decimal(units).len() == 1,
        decimal(units)[0] as int == '0' as int + units,
        tens > 0 ==> decimal(10 * tens + units) == decimal(tens) + decimal(units),
{
    if tens > 0 {
        let n = 10 * tens + units;
        assert(n / 10 == tens && n % 10 == units);
        assert(decimal(n) == decimal(tens).push(digit(units as int)));
        assert(decimal(n) == decimal(tens) + decimal(units));
    }
}

} // verus!
