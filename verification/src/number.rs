//! Unsigned integers in decimal.

use crate::text;
use vstd::prelude::*;

verus! {

/// The digit for `d`.
pub open spec fn digit(d: nat) -> char {
    (48 + d) as char
}

/// Whether `c` is a decimal digit.
pub open spec fn is_digit(c: char) -> bool {
    48 <= c as u32 <= 57
}

/// The number that the digits spell.
pub open spec fn digits_value(s: Seq<char>) -> nat
    decreases s.len(),
{
    if s.len() == 0 {
        0
    } else {
        digits_value(s.drop_last()) * 10 + (s.last() as u32 - 48) as nat
    }
}

/// `n` in decimal, without leading zeros.
pub open spec fn decimal(n: nat) -> Seq<char>
    decreases n,
{
    if n < 10 {
        seq![digit(n)]
    } else {
        decimal(n / 10).push(digit(n % 10))
    }
}

/// Whether `s` is a run of digits, and not an empty one.
pub open spec fn all_digits(s: Seq<char>) -> bool {
    s.len() > 0 && forall|i: int| 0 <= i < s.len() ==> is_digit(#[trigger] s[i])
}

/// `s` without the plus sign that it may begin with.
pub open spec fn unsigned_part(s: Seq<char>) -> Seq<char> {
    if s.len() > 0 && s[0] == '+' {
        s.drop_first()
    } else {
        s
    }
}

/// The number that `s` spells: digits, behind a plus sign if there is one. A number over `max` is
/// none.
pub open spec fn parsed(s: Seq<char>, max: nat) -> Option<nat> {
    let digits = unsigned_part(s);
    if all_digits(digits) && digits_value(digits) <= max {
        Some(digits_value(digits))
    } else {
        None
    }
}

/// More digits spell no smaller number.
proof fn lemma_prefix_value(s: Seq<char>, n: int)
    requires
        0 <= n <= s.len(),
    ensures
        digits_value(s.take(n)) <= digits_value(s),
    decreases s.len(),
{
    if n == s.len() {
        assert(s.take(n) =~= s);
    } else {
        lemma_prefix_value(s.drop_last(), n);
        assert(s.drop_last().take(n) =~= s.take(n));
    }
}

/// The number that `s` spells, if it is at most `max`.
pub fn parse_unsigned(s: &str, max: u64) -> (r: Option<u64>)
    ensures
        match r {
            Some(n) => parsed(s@, max as nat) == Some(n as nat),
            None => parsed(s@, max as nat) is None,
        },
{
    let chars = text::to_chars(s);
    let start: usize = if chars.len() > 0 && chars[0] == '+' {
        1
    } else {
        0
    };
    let ghost digits = unsigned_part(s@);
    assert(chars@.skip(start as int) =~= digits);
    if start == chars.len() {
        return None;
    }
    let mut value: u128 = 0;
    let mut i: usize = start;
    assert(digits.take(0) =~= seq![]);
    while i < chars.len()
        invariant
            start <= i <= chars@.len(),
            chars@.skip(start as int) == digits,
            digits == unsigned_part(s@),
            digits.len() == chars@.len() - start,
            value == digits_value(digits.take(i - start)),
            value <= max,
            forall|k: int| 0 <= k < i - start ==> is_digit(#[trigger] digits[k]),
        decreases chars@.len() - i,
    {
        let c: char = chars[i];
        let n: u32 = c as u32;
        assert(digits[i - start] == c);
        if n < 48 || n > 57 {
            assert(!is_digit(digits[i - start]));
            return None;
        }
        value = value * 10 + (n - 48) as u128;
        proof {
            let head = digits.take(i - start + 1);
            assert(head.drop_last() =~= digits.take(i - start));
            lemma_prefix_value(digits, i - start + 1);
        }
        if value > max as u128 {
            return None;
        }
        i = i + 1;
    }
    assert(digits.take(digits.len() as int) =~= digits);
    Some(value as u64)
}

/// The number that `value` spells, or `default` where it spells none up to `max`.
pub open spec fn parsed_or(value: Option<Seq<char>>, max: nat, default: nat) -> nat {
    match value {
        Some(v) => match parsed(v, max) {
            Some(n) => n,
            None => default,
        },
        None => default,
    }
}

/// The number that `value` spells, or `default` where it spells none up to `max`.
pub fn parse_or(value: Option<&str>, max: u64, default: u64) -> (r: u64)
    ensures
        r == parsed_or(text::opt_text(value), max as nat, default as nat),
        r <= max || r == default,
{
    match value {
        Some(v) => match parse_unsigned(v, max) {
            Some(n) => n,
            None => default,
        },
        None => default,
    }
}

/// `n` in decimal, without leading zeros.
pub fn decimal_text(n: u64) -> (r: String)
    ensures
        r@ == decimal(n as nat),
    decreases n,
{
    let low: char = (48 + (n % 10) as u8) as char;
    if n < 10 {
        let mut out = String::new();
        out.push(low);
        assert(out@ =~= decimal(n as nat));
        out
    } else {
        let mut out = decimal_text(n / 10);
        out.push(low);
        out
    }
}

/// What is written in decimal reads back as the number.
pub proof fn law_decimal_reads_back(n: nat, max: nat)
    requires
        n <= max,
    ensures
        parsed(decimal(n), max) == Some(n),
{
    lemma_decimal(n);
    assert(is_digit(decimal(n)[0]));
    assert(decimal(n)[0] != '+');
}

/// A number in decimal is a run of digits that spells it.
proof fn lemma_decimal(n: nat)
    ensures
        all_digits(decimal(n)),
        digits_value(decimal(n)) == n,
    decreases n,
{
    let low = digit(n % 10);
    assert(is_digit(low));
    if n < 10 {
        assert(decimal(n).drop_last() =~= seq![]);
        assert(digits_value(decimal(n).drop_last()) == 0);
    } else {
        lemma_decimal(n / 10);
        assert(decimal(n).drop_last() =~= decimal(n / 10));
        assert forall|i: int| 0 <= i < decimal(n).len() implies is_digit(
            #[trigger] decimal(n)[i],
        ) by {
            if i < decimal(n / 10).len() {
                assert(decimal(n)[i] == decimal(n / 10)[i]);
            }
        }
    }
}

/// Different numbers are written differently.
pub proof fn law_decimal_is_injective(a: nat, b: nat)
    requires
        decimal(a) == decimal(b),
    ensures
        a == b,
{
    lemma_decimal(a);
    lemma_decimal(b);
}

// --------------------------------------------------------------------- laws

/// The digits are the characters from zero to nine.
proof fn lemma_digit(c: char)
    ensures
        is_digit(c) <==> '0' <= c <= '9',
{
}

/// One more digit makes the number ten times as large and adds the digit.
pub proof fn law_digits(s: Seq<char>, c: char)
    requires
        '0' <= c <= '9',
    ensures
        is_digit(c),
        digits_value(seq![]) == 0,
        digits_value(s.push(c)) == 10 * digits_value(s) + (c as int - '0' as int),
{
    assert(s.push(c).drop_last() =~= s);
}

/// A number is written in digits only, and without a leading zero but for zero itself.
pub proof fn law_decimal_is_plain(n: nat)
    ensures
        decimal(n).len() > 0,
        forall|i: int| 0 <= i < decimal(n).len() ==> '0' <= #[trigger] decimal(n)[i] <= '9',
        digits_value(decimal(n)) == n,
        decimal(n)[0] == '0' ==> n == 0 && decimal(n).len() == 1,
    decreases n,
{
    lemma_decimal(n);
    assert forall|i: int| 0 <= i < decimal(n).len() implies '0' <= #[trigger] decimal(n)[i]
        <= '9' by {
        assert(is_digit(decimal(n)[i]));
        lemma_digit(decimal(n)[i]);
    }
    if n >= 10 {
        law_decimal_is_plain(n / 10);
        assert(decimal(n)[0] == decimal(n / 10)[0]);
    }
}

/// Digits are read as the number that they spell, also behind a plus sign, unless it is too large.
pub proof fn law_digits_are_read(digits: Seq<char>, max: nat)
    requires
        digits.len() > 0,
        forall|i: int| 0 <= i < digits.len() ==> '0' <= #[trigger] digits[i] <= '9',
    ensures
        parsed(digits, max) == if digits_value(digits) <= max {
            Some(digits_value(digits))
        } else {
            None
        },
        parsed(seq!['+'] + digits, max) == parsed(digits, max),
{
    assert('0' <= digits[0] <= '9');
    assert forall|i: int| 0 <= i < digits.len() implies is_digit(#[trigger] digits[i]) by {
        assert('0' <= digits[i] <= '9');
    }
    let signed = seq!['+'] + digits;
    assert(signed.drop_first() =~= digits);
}

/// What is read as a number is digits, behind a plus sign if there is one, and nothing else.
pub proof fn law_only_digits_are_read(s: Seq<char>, max: nat)
    requires
        parsed(s, max) is Some,
    ensures
        s.len() > 0,
        s[0] == '+' ==> s.len() > 1,
        forall|i: int|
            0 <= i < s.len() ==> '0' <= #[trigger] s[i] <= '9' || (i == 0 && s[i] == '+'),
{
    let digits = unsigned_part(s);
    assert(all_digits(digits));
    assert forall|i: int| 0 <= i < s.len() implies '0' <= #[trigger] s[i] <= '9' || (i == 0 && s[i]
        == '+') by {
        if s[0] == '+' {
            if i > 0 {
                assert(digits[i - 1] == s[i]);
                assert(is_digit(digits[i - 1]));
                lemma_digit(digits[i - 1]);
            }
        } else {
            assert(digits[i] == s[i]);
            assert(is_digit(digits[i]));
            lemma_digit(digits[i]);
        }
    }
}

/// A default stands in exactly where there is no number to read.
pub proof fn law_default_stands_in(value: Seq<char>, max: nat, default: nat)
    ensures
        parsed_or(None, max, default) == default,
        parsed_or(Some(value), max, default) == match parsed(value, max) {
            Some(n) => n,
            None => default,
        },
{
}

} // verus!
