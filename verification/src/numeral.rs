//! Decimal numerals: writing natural numbers and reading port numbers.

use vstd::prelude::*;
use vstd::string::*;

verus! {

/// The digit for `n`, which is below ten.
pub open spec fn digit_char(n: nat) -> char {
    (('0' as u32) + n) as char
}

/// The shortest decimal numeral of `n`.
pub open spec fn decimal(n: nat) -> Seq<char>
    decreases n,
{
    if n < 10 {
        seq![digit_char(n)]
    } else {
        decimal(n / 10).push(digit_char(n % 10))
    }
}

/// Whether `c` is one of the ten ASCII digits.
pub open spec fn is_digit(c: char) -> bool {
    '0' as u32 <= c as u32 <= '9' as u32
}

/// The number that a digit stands for.
pub open spec fn digit_value(c: char) -> nat {
    (c as u32 - '0' as u32) as nat
}

/// Whether every character of `s` is a digit.
pub open spec fn all_digits(s: Seq<char>) -> bool {
    forall|i: int| 0 <= i < s.len() ==> is_digit(#[trigger] s[i])
}

/// The number that a sequence of digits stands for in base ten.
pub open spec fn decimal_value(s: Seq<char>) -> nat
    decreases s.len(),
{
    if s.len() == 0 {
        0
    } else {
        10 * decimal_value(s.drop_last()) + digit_value(s.last())
    }
}

/// Reading the numeral of a number gives the number back.
pub proof fn lemma_decimal_round_trip(n: nat)
    ensures
        decimal(n).len() > 0,
        all_digits(decimal(n)),
        decimal_value(decimal(n)) == n,
    decreases n,
{
    reveal_with_fuel(decimal_value, 2);
    if n >= 10 {
        lemma_decimal_round_trip(n / 10);
        assert(decimal(n).drop_last() =~= decimal(n / 10));
    } else {
        assert(decimal(n).drop_last() =~= Seq::empty());
    }
}

/// Different numbers have different numerals.
pub proof fn lemma_decimal_injective(a: nat, b: nat)
    requires
        decimal(a) == decimal(b),
    ensures
        a == b,
{
    lemma_decimal_round_trip(a);
    lemma_decimal_round_trip(b);
}

/// The numeral of the digit `n`.
fn digit_str(n: u64) -> (s: &'static str)
    requires
        n < 10,
    ensures
        s@ == seq![digit_char(n as nat)],
{
    proof {
        reveal_strlit("0");
        reveal_strlit("1");
        reveal_strlit("2");
        reveal_strlit("3");
        reveal_strlit("4");
        reveal_strlit("5");
        reveal_strlit("6");
        reveal_strlit("7");
        reveal_strlit("8");
        reveal_strlit("9");
    }
    let s: &'static str = match n {
        0 => "0",
        1 => "1",
        2 => "2",
        3 => "3",
        4 => "4",
        5 => "5",
        6 => "6",
        7 => "7",
        8 => "8",
        _ => "9",
    };
    assert(s@ =~= seq![digit_char(n as nat)]);
    s
}

/// Writes `n` in base ten.
pub fn to_decimal(n: u64) -> (s: String)
    ensures
        s@ == decimal(n as nat),
    decreases n,
{
    if n < 10 {
        digit_str(n).to_owned()
    } else {
        let mut s = to_decimal(n / 10);
        s.append(digit_str(n % 10));
        assert(s@ =~= decimal(n as nat));
        s
    }
}

/// The digits of a numeral: what follows an optional plus sign.
pub open spec fn after_plus(s: Seq<char>) -> Seq<char> {
    if s.len() > 0 && s[0] == '+' {
        s.drop_first()
    } else {
        s
    }
}

/// The `u16` that `s` spells: an optional plus sign and one or more digits, no larger than 65535.
pub open spec fn spelled_u16(s: Seq<char>) -> Option<u16> {
    let digits = after_plus(s);
    if digits.len() > 0 && all_digits(digits) && decimal_value(digits) <= u16::MAX {
        Some(decimal_value(digits) as u16)
    } else {
        None
    }
}

/// Further digits do not make a number smaller.
proof fn lemma_decimal_value_grows(s: Seq<char>, n: int)
    requires
        0 <= n <= s.len(),
    ensures
        decimal_value(s.take(n)) <= decimal_value(s),
    decreases s.len(),
{
    if n < s.len() {
        lemma_decimal_value_grows(s.drop_last(), n);
        assert(s.drop_last().take(n) =~= s.take(n));
    } else {
        assert(s.take(n) =~= s);
    }
}

/// Reads a 16-bit number in base ten.
pub fn parse_u16(s: &str) -> (r: Option<u16>)
    ensures
        r == spelled_u16(s@),
{
    let n: usize = s.unicode_len();
    let start: usize = if n > 0 && s.get_char(0) == '+' { 1 } else { 0 };
    let ghost digits = after_plus(s@);
    assert(digits =~= s@.skip(start as int));
    if start == n {
        return None;
    }
    let mut i: usize = start;
    let mut value: u32 = 0;
    assert(digits.take(0) =~= Seq::empty());
    while i < n
        invariant
            start <= i <= n == s@.len(),
            digits == s@.skip(start as int),
            digits == after_plus(s@),
            value == decimal_value(digits.take(i - start)),
            value <= u16::MAX,
            forall|j: int| 0 <= j < i - start ==> is_digit(#[trigger] digits[j]),
        decreases n - i,
    {
        let c: char = s.get_char(i);
        assert(c == digits[i - start]);
        if !('0' <= c && c <= '9') {
            assert(!all_digits(digits));
            return None;
        }
        assert(digits.take(i + 1 - start).drop_last() =~= digits.take(i - start));
        value = value * 10 + (c as u32 - '0' as u32);
        assert(value == decimal_value(digits.take(i + 1 - start)));
        if value > u16::MAX as u32 {
            proof {
                lemma_decimal_value_grows(digits, i + 1 - start);
            }
            return None;
        }
        i += 1;
    }
    assert(digits.take(n - start) =~= digits);
    Some(value as u16)
}

/// Every 16-bit number is read back from its own numeral.
pub proof fn lemma_u16_round_trip(n: u16)
    ensures
        spelled_u16(decimal(n as nat)) == Some(n),
{
    lemma_decimal_round_trip(n as nat);
    assert(is_digit(decimal(n as nat)[0]));
}

/// Numerals are written in base ten: a further digit stands behind those of the rest.
pub proof fn lemma_decimal_digits(n: nat, d: nat)
    requires
        d < 10,
    ensures
        decimal(d) == seq![(48 + d) as char],
        n > 0 ==> decimal(10 * n + d) == decimal(n).push((48 + d) as char),
{
    if n > 0 {
        assert((10 * n + d) / 10 == n);
        assert((10 * n + d) % 10 == d);
    }
}

/// A numeral has no leading zero.
pub proof fn lemma_decimal_is_shortest(n: nat)
    ensures
        decimal(n).len() > 0,
        n > 0 ==> decimal(n)[0] != '0',
        n == 0 ==> decimal(n) == seq!['0'],
    decreases n,
{
    if n >= 10 {
        lemma_decimal_is_shortest(n / 10);
    }
}

/// Digits are read in base ten: a further digit counts its own value, and the others ten times
/// theirs.
pub proof fn lemma_digits_are_read(s: Seq<char>, c: char)
    requires
        '0' <= c <= '9',
    ensures
        decimal_value(Seq::empty()) == 0,
        decimal_value(s.push(c)) == 10 * decimal_value(s) + (c as u32 - 48),
        is_digit(c),
{
    assert(s.push(c).drop_last() =~= s);
}

/// The digits are the characters from `0` to `9`.
pub proof fn lemma_is_digit(c: char)
    ensures
        is_digit(c) <==> '0' <= c <= '9',
{
}

/// A text spells a number of 16 bits exactly if it is one or more digits, with or without a plus
/// sign before them, and their value is at most 65535; that value is the number.
pub proof fn lemma_spelled_u16(digits: Seq<char>)
    requires
        digits.len() > 0 ==> digits[0] != '+',
    ensures
        spelled_u16(digits) is Some <==> digits.len() > 0 && (forall|i: int|
            0 <= i < digits.len() ==> '0' <= #[trigger] digits[i] <= '9') && decimal_value(digits)
            <= 65535,
        spelled_u16(digits) is Some ==> spelled_u16(digits)->0 == decimal_value(digits),
        spelled_u16(seq!['+'] + digits) == spelled_u16(digits),
        spelled_u16(seq!['+', '+'] + digits) is None,
{
    assert((seq!['+'] + digits).drop_first() =~= digits);
    if forall|i: int| 0 <= i < digits.len() ==> '0' <= #[trigger] digits[i] <= '9' {
        assert(all_digits(digits));
    }
    if all_digits(digits) {
        assert forall|i: int| 0 <= i < digits.len() implies '0' <= #[trigger] digits[i] <= '9' by {
            assert(is_digit(digits[i]));
            lemma_is_digit(digits[i]);
        }
    }
    let twice = seq!['+', '+'] + digits;
    assert(after_plus(twice)[0] == '+');
    assert(!is_digit(after_plus(twice)[0]));
}

} // verus!
