//! Decimal text of integers.

use vstd::prelude::*;

verus! {

/// The character of one decimal digit.
pub open spec fn digit_char(d: int) -> char
    recommends
        0 <= d < 10,
{
    ('0' as int + d) as char
}

/// The decimal digits of a natural number, most significant first, without leading zeros.
pub open spec fn decimal_digits(n: nat) -> Seq<char>
    decreases n,
{
    if n < 10 {
        seq![digit_char(n as int)]
    } else {
        decimal_digits(n / 10).push(digit_char((n % 10) as int))
    }
}

/// The decimal text of an integer: a minus sign if it is negative, then the digits of its
/// magnitude.
pub open spec fn decimal_text(i: int) -> Seq<char> {
    if i < 0 {
        seq!['-'] + decimal_digits((-i) as nat)
    } else {
        decimal_digits(i as nat)
    }
}

fn digit_of(d: u64) -> (c: char)
    requires
        d < 10,
    ensures
        c == digit_char(d as int),
{
    (48u8 + d as u8) as char
}

/// Writes an integer in decimal.
pub fn integer_text(i: i64) -> (text: String)
    ensures
        text@ == decimal_text(i as int),
{
    let magnitude: u64 = if i < 0 {
        (0 - i as i128) as u64
    } else {
        i as u64
    };
    let mut reversed: Vec<char> = Vec::new();
    let mut rest: u64 = magnitude;
    while rest >= 10
        invariant
            decimal_digits(magnitude as nat) == decimal_digits(rest as nat) + reversed@.reverse(),
        decreases rest,
    {
        let ghost before = reversed@;
        reversed.push(digit_of(rest % 10));
        proof {
            assert(reversed@.reverse() == seq![digit_char((rest % 10) as int)] + before.reverse());
        }
        rest = rest / 10;
    }
    reversed.push(digit_of(rest));
    let mut text = String::new();
    if i < 0 {
        text.push('-');
    }
    let ghost sign = text@;
    let mut k: usize = reversed.len();
    while k > 0
        invariant
            k <= reversed.len(),
            text@ == sign + reversed@.reverse().take(reversed.len() - k),
        decreases k,
    {
        k = k - 1;
        text.push(reversed[k]);
        proof {
            let r = reversed@.reverse();
            let n = reversed.len() - k;
            assert(r.take(n) == r.take(n - 1).push(r[n - 1]));
        }
    }
    proof {
        let r = reversed@.reverse();
        assert(r.take(r.len() as int) == r);
    }
    text
}

/// Whether a character is a decimal digit.
pub open spec fn is_digit(c: char) -> bool {
    '0' <= c <= '9'
}

/// The number that a text of decimal digits stands for.
pub open spec fn digits_value(s: Seq<char>) -> int
    decreases s.len(),
{
    if s.len() == 0 {
        0
    } else {
        digits_value(s.drop_last()) * 10 + (s.last() as int - '0' as int)
    }
}

/// The integer that a decimal text stands for: the value of its digits, negated after a
/// minus sign.
pub open spec fn decimal_value(s: Seq<char>) -> int {
    if s.len() > 0 && s[0] == '-' {
        -digits_value(s.drop_first())
    } else {
        digits_value(s)
    }
}

/// The digits of a natural number are decimal digits that stand for it, at least one, and
/// the first is a zero only for zero itself.
pub proof fn lemma_decimal_digits(n: nat)
    ensures
        decimal_digits(n).len() >= 1,
        forall|k: int|
            0 <= k < decimal_digits(n).len() ==> is_digit(#[trigger] decimal_digits(n)[k]),
        digits_value(decimal_digits(n)) == n,
        decimal_digits(n)[0] == '0' <==> n == 0,
    decreases n,
{
    if n < 10 {
        let d = decimal_digits(n);
        assert(d.drop_last() =~= Seq::<char>::empty());
        assert(digits_value(d.drop_last()) == 0);
    } else {
        lemma_decimal_digits(n / 10);
        let d = decimal_digits(n);
        assert(d.drop_last() =~= decimal_digits(n / 10));
    }
}

/// The decimal text of an integer stands for that integer exactly, whatever its size.
/// It starts with a minus sign if and only if the integer is negative, the rest are
/// digits, and no zero leads unless the magnitude is zero.
pub proof fn lemma_decimal_text(i: int)
    ensures
        decimal_value(decimal_text(i)) == i,
        decimal_text(i)[0] == '-' <==> i < 0,
        i >= 0 ==> decimal_text(i) == decimal_digits(i as nat),
        i < 0 ==> decimal_text(i).drop_first() == decimal_digits((-i) as nat),
        decimal_text(i).len() >= 1,
        forall|k: int|
            0 <= k < decimal_text(i).len() ==> is_digit(#[trigger] decimal_text(i)[k]) || (k == 0
                && i < 0 && decimal_text(i)[k] == '-'),
{
    if i < 0 {
        let m = (-i) as nat;
        lemma_decimal_digits(m);
        let t = decimal_text(i);
        assert(t.drop_first() =~= decimal_digits(m));
        assert forall|k: int| 0 <= k < t.len() implies is_digit(#[trigger] t[k]) || (k == 0 && i
            < 0 && t[k] == '-') by {
            if k > 0 {
                assert(t[k] == decimal_digits(m)[k - 1]);
            }
        }
    } else {
        lemma_decimal_digits(i as nat);
    }
}

/// Two integers with the same decimal text are the same integer.
pub proof fn lemma_decimal_text_injective(i: int, j: int)
    requires
        decimal_text(i) == decimal_text(j),
    ensures
        i == j,
{
    lemma_decimal_text(i);
    lemma_decimal_text(j);
}

} // verus!
