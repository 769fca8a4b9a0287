//! Decimal numbers in texts.
use vstd::prelude::*;

use crate::text::to_chars;
use crate::text::to_text;

verus! {

/// Whether `c` is one of the ten decimal digits.
pub open spec fn is_digit(c: char) -> bool {
    '0' <= c <= '9'
}

/// The number that a digit stands for.
pub open spec fn digit_value(c: char) -> nat {
    (c as u32 - '0' as u32) as nat
}

/// The digit that stands for a number below ten.
pub open spec fn digit_of(n: nat) -> char {
    ('0' as u32 + n) as char
}

/// Whether `s` holds digits and nothing else.
pub open spec fn all_digits(s: Seq<char>) -> bool {
    forall|i: int| 0 <= i < s.len() ==> is_digit(#[trigger] s[i])
}

/// The number that a sequence of digits stands for.
pub open spec fn decimal_value(s: Seq<char>) -> nat
    decreases s.len(),
{
    if s.len() == 0 {
        0
    } else {
        decimal_value(s.drop_last()) * 10 + digit_value(s.last())
    }
}

/// The digits of a text that may start with a plus sign.
pub open spec fn unsigned_part(s: Seq<char>) -> Seq<char> {
    if s.len() > 0 && s[0] == '+' {
        s.drop_first()
    } else {
        s
    }
}

/// The number that `s` writes: an optional plus sign and then one digit or
/// more. A number above `max` is none.
pub open spec fn parsed(s: Seq<char>, max: nat) -> Option<nat> {
    let digits = unsigned_part(s);
    if digits.len() > 0 && all_digits(digits) && decimal_value(digits) <= max {
        Some(decimal_value(digits))
    } else {
        None
    }
}

/// The decimal digits of `n`, without a leading zero.
pub open spec fn decimal(n: nat) -> Seq<char>
    decreases n,
{
    if n < 10 {
        seq![digit_of(n)]
    } else {
        decimal(n / 10).push(digit_of(n % 10))
    }
}

/// Fewer digits never stand for a larger number.
proof fn lemma_value_of_prefix(s: Seq<char>, i: int)
    requires
        0 <= i <= s.len(),
    ensures
        decimal_value(s.take(i)) <= decimal_value(s),
    decreases s.len(),
{
    if i == s.len() {
        assert(s.take(i) == s);
    } else {
        lemma_value_of_prefix(s.drop_last(), i);
        assert(s.drop_last().take(i) == s.take(i));
    }
}

/// The digits of a number stand for that number, and a text of them reads back
/// as that number wherever it is not above the largest one allowed.
pub proof fn law_decimal_reads_back(n: nat, max: nat)
    ensures
        decimal(n).len() > 0,
        all_digits(decimal(n)),
        decimal_value(decimal(n)) == n,
        n <= max ==> parsed(decimal(n), max) == Some(n),
    decreases n,
{
    if n < 10 {
        assert(decimal(n).drop_last() == Seq::<char>::empty());
        assert(decimal_value(Seq::<char>::empty()) == 0);
        assert(is_digit(digit_of(n)));
    } else {
        law_decimal_reads_back(n / 10, max);
        let d = digit_of(n % 10);
        assert(is_digit(d));
        assert(decimal(n).drop_last() == decimal(n / 10));
        assert(decimal(n).last() == d);
        assert forall|i: int| 0 <= i < decimal(n).len() implies is_digit(
            #[trigger] decimal(n)[i],
        ) by {
            if i < decimal(n / 10).len() {
                assert(decimal(n)[i] == decimal(n / 10)[i]);
            }
        }
    }
    assert(is_digit(decimal(n)[0]));
}

/// The number that a slice writes, up to `max`.
pub fn parse_chars(chars: &[char], max: u64) -> (r: Option<u64>)
    ensures
        r matches Some(n) ==> parsed(chars@, max as nat) == Some(n as nat),
        r is None ==> parsed(chars@, max as nat) is None,
{
    let digits = if chars.len() > 0 && chars[0] == '+' {
        &chars[1..chars.len()]
    } else {
        chars
    };
    assert(digits@ == unsigned_part(chars@));
    if digits.len() == 0 {
        return None;
    }
    let len: usize = digits.len();
    let mut n: u64 = 0;
    let mut i: usize = 0;
    while i < len
        invariant
            i <= len,
            len == digits@.len(),
            digits@ == unsigned_part(chars@),
            n <= max,
            n == decimal_value(digits@.take(i as int)),
            forall|j: int| 0 <= j < i ==> is_digit(#[trigger] digits@[j]),
        decreases len - i,
    {
        let c: char = digits[i];
        if c < '0' || '9' < c {
            assert(!is_digit(digits@[i as int]));
            return None;
        }
        let d: u64 = (c as u32 - '0' as u32) as u64;
        proof {
            assert(digits@.take(i + 1).drop_last() == digits@.take(i as int));
            assert(digits@.take(i + 1).last() == c);
            lemma_value_of_prefix(digits@, i + 1);
        }
        if d > max || n > max / 10 || n * 10 > max - d {
            return None;
        }
        n = n * 10 + d;
        i += 1;
    }
    assert(digits@.take(len as int) == digits@);
    Some(n)
}

/// The number that a string writes, up to `max`.
pub fn parse(s: &str, max: u64) -> (r: Option<u64>)
    ensures
        r matches Some(n) ==> parsed(s@, max as nat) == Some(n as nat),
        r is None ==> parsed(s@, max as nat) is None,
{
    parse_chars(to_chars(s).as_slice(), max)
}

/// The decimal digits of a number.
pub fn to_decimal(n: usize) -> (r: String)
    ensures
        r@ == decimal(n as nat),
{
    let mut reversed: Vec<char> = Vec::new();
    let mut rest: usize = n;
    while rest >= 10
        invariant
            decimal(rest as nat) + reversed@.reverse() == decimal(n as nat),
        decreases rest,
    {
        let d: u8 = (rest % 10) as u8;
        let c: char = (48 + d) as char;
        let ghost before = reversed@;
        reversed.push(c);
        proof {
            assert(c == digit_of((rest % 10) as nat));
            assert(reversed@.reverse() == seq![c] + before.reverse());
            assert(decimal(rest as nat) == decimal((rest / 10) as nat).push(c));
            assert(decimal(rest as nat) + before.reverse() == decimal((rest / 10) as nat)
                + reversed@.reverse());
        }
        rest = rest / 10;
    }
    let d: u8 = rest as u8;
    let c: char = (48 + d) as char;
    let ghost before = reversed@;
    reversed.push(c);
    proof {
        assert(c == digit_of(rest as nat));
        assert(reversed@.reverse() == seq![c] + before.reverse());
    }
    let mut digits: Vec<char> = Vec::new();
    let len: usize = reversed.len();
    let mut i: usize = 0;
    while i < len
        invariant
            i <= len,
            len == reversed@.len(),
            digits@ == reversed@.reverse().take(i as int),
        decreases len - i,
    {
        digits.push(reversed[len - 1 - i]);
        assert(reversed@.reverse().take(i + 1) == reversed@.reverse().take(i as int).push(
            reversed@[len - 1 - i],
        ));
        i += 1;
    }
    assert(reversed@.reverse().take(len as int) == reversed@.reverse());
    to_text(digits.as_slice())
}

/// Only an optional plus sign and one digit or more write a number; a number
/// above the largest one allowed is refused, and none is made larger or smaller.
pub proof fn law_parsed(s: Seq<char>, max: nat)
    ensures
        parsed(s, max) matches Some(n) ==> n <= max && s.len() > 0 && (is_digit(s[0]) || s[0]
            == '+' && s.len() > 1) && forall|i: int|
            0 < i < s.len() ==> is_digit(#[trigger] s[i]),
        s.len() > 0 && all_digits(s) ==> parsed(seq!['+'] + s, max) == parsed(s, max),
        s.len() > 0 && all_digits(s) ==> parsed(seq!['0'] + s, max) == parsed(s, max),
{
    if parsed(s, max) is Some {
        let digits = unsigned_part(s);
        assert(is_digit(digits[0]));
        assert forall|i: int| 0 < i < s.len() implies is_digit(#[trigger] s[i]) by {
            if s[0] == '+' {
                assert(digits[i - 1] == s[i]);
            } else {
                assert(digits[i] == s[i]);
            }
        }
    }
    if s.len() > 0 && all_digits(s) {
        assert((seq!['+'] + s).drop_first() == s);
        assert(is_digit(s[0]));
        let padded = seq!['0'] + s;
        lemma_leading_zero(s);
        assert forall|i: int| 0 <= i < padded.len() implies is_digit(#[trigger] padded[i]) by {
            if i > 0 {
                assert(padded[i] == s[i - 1]);
            }
        }
    }
}

proof fn lemma_leading_zero(s: Seq<char>)
    ensures
        decimal_value(seq!['0'] + s) == decimal_value(s),
    decreases s.len(),
{
    let padded = seq!['0'] + s;
    if s.len() == 0 {
        assert(padded.drop_last() == s);
    } else {
        lemma_leading_zero(s.drop_last());
        assert(padded.drop_last() == seq!['0'] + s.drop_last());
        assert(padded.last() == s.last());
    }
}

/// A number that is above the largest one allowed does not read back.
pub proof fn law_large_numbers_are_refused(n: nat, max: nat)
    requires
        n > max,
    ensures
        parsed(decimal(n), max) is None,
{
    law_decimal_reads_back(n, n);
    assert(is_digit(decimal(n)[0]));
}

/// Digits without a leading zero are those of the number that they stand for.
pub proof fn law_digits_are_those_of_their_number(s: Seq<char>)
    requires
        s.len() > 0,
        all_digits(s),
        s.len() > 1 ==> s[0] != '0',
    ensures
        decimal(decimal_value(s)) == s,
    decreases s.len(),
{
    let d = digit_value(s.last());
    assert(is_digit(s[s.len() - 1]));
    assert(digit_of(d) == s.last());
    let front = s.drop_last();
    if s.len() == 1 {
        assert(front == Seq::<char>::empty());
        assert(decimal_value(front) == 0);
        assert(s == seq![s.last()]);
    } else {
        assert forall|i: int| 0 <= i < front.len() implies is_digit(#[trigger] front[i]) by {
            assert(front[i] == s[i]);
        }
        assert(front[0] == s[0]);
        law_digits_are_those_of_their_number(front);
        let v = decimal_value(front);
        lemma_positive(front);
        assert(decimal_value(s) == v * 10 + d);
        assert((v * 10 + d) / 10 == v && (v * 10 + d) % 10 == d) by (nonlinear_arith)
            requires
                d < 10,
        ;
        assert(front.push(s.last()) == s);
    }
}

proof fn lemma_positive(s: Seq<char>)
    requires
        s.len() > 0,
        all_digits(s),
        s[0] != '0',
    ensures
        decimal_value(s) > 0,
    decreases s.len(),
{
    assert(is_digit(s[s.len() - 1]));
    assert(is_digit(s[0]));
    if s.len() > 1 {
        let front = s.drop_last();
        assert(front[0] == s[0]);
        assert forall|i: int| 0 <= i < front.len() implies is_digit(#[trigger] front[i]) by {
            assert(front[i] == s[i]);
        }
        lemma_positive(front);
    }
}

} // verus!
