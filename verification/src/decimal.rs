//! Decimal notation for natural numbers, read and written.

use vstd::prelude::*;
use crate::bytes::ascii;

verus! {

/// Whether `c` is one of the ASCII digits `0` to `9`.
pub open spec fn is_digit(c: char) -> bool {
    '0' <= c <= '9'
}

/// The number a decimal digit stands for.
pub open spec fn digit_value(c: char) -> nat
    recommends
        is_digit(c),
{
    (c as nat - '0' as nat) as nat
}

/// The decimal digit that stands for a number below ten.
pub open spec fn digit_of(d: nat) -> char
    recommends
        d < 10,
{
    ('0' as nat + d) as char
}

/// Whether every character of `s` is a decimal digit.
pub open spec fn all_digits(s: Seq<char>) -> bool {
    forall|i: int| 0 <= i < s.len() ==> is_digit(#[trigger] s[i])
}

/// The number that a string of decimal digits denotes, most significant digit
/// first. The empty string denotes zero.
pub open spec fn decimal_value(s: Seq<char>) -> nat
    decreases s.len(),
{
    if s.len() == 0 {
        0
    } else {
        10 * decimal_value(s.drop_last()) + digit_value(s.last())
    }
}

/// The decimal notation of `n`: its digits, most significant first, without
/// leading zeros; zero is written `0`.
pub open spec fn digits_of(n: nat) -> Seq<char>
    decreases n,
{
    if n < 10 {
        seq![digit_of(n)]
    } else {
        digits_of(n / 10).push(digit_of(n % 10))
    }
}

/// A digit string denotes at least what any of its prefixes denotes.
pub proof fn lemma_decimal_value_grows(s: Seq<char>, n: int)
    requires
        0 <= n <= s.len(),
    ensures
        decimal_value(s.take(n)) <= decimal_value(s),
    decreases s.len() - n,
{
    if n < s.len() {
        lemma_decimal_value_grows(s, n + 1);
        assert(s.take(n + 1).drop_last() =~= s.take(n));
    } else {
        assert(s.take(n) =~= s);
    }
}

/// Writing a number and reading the digits back gives the number: the notation
/// of `n` is a non-empty string of digits that denotes `n`.
pub proof fn lemma_digits_denote(n: nat)
    ensures
        digits_of(n).len() >= 1,
        all_digits(digits_of(n)),
        decimal_value(digits_of(n)) == n,
    decreases n,
{
    if n < 10 {
        assert(digits_of(n).drop_last() =~= Seq::<char>::empty());
        assert(decimal_value(Seq::<char>::empty()) == 0);
        assert(digit_value(digits_of(n).last()) == n);
    } else {
        lemma_digits_denote(n / 10);
        let front = digits_of(n / 10);
        assert(digits_of(n).drop_last() =~= front);
        assert(digit_value(digits_of(n).last()) == n % 10);
        assert forall|i: int| 0 <= i < digits_of(n).len() implies is_digit(
            #[trigger] digits_of(n)[i],
        ) by {
            if i < front.len() {
                assert(digits_of(n)[i] == front[i]);
            }
        }
    }
}

/// The notation of a number has no leading zero, unless the number is zero.
pub proof fn lemma_digits_no_leading_zero(n: nat)
    ensures
        n > 0 ==> digits_of(n)[0] != '0',
        n == 0 ==> digits_of(n) == seq!['0'],
    decreases n,
{
    if n >= 10 {
        lemma_digits_no_leading_zero(n / 10);
        lemma_digits_denote(n / 10);
    }
}

/// Appends the decimal notation of `n` to `out`, as ASCII bytes.
pub fn push_decimal(out: &mut Vec<u8>, n: usize)
    ensures
        final(out)@ == old(out)@ + ascii(digits_of(n as nat)),
    decreases n,
{
    if n >= 10 {
        push_decimal(out, n / 10);
    }
    let digit: u8 = 48 + (n % 10) as u8;
    out.push(digit);
    proof {
        if n >= 10 {
            assert(ascii(digits_of(n as nat)) =~= ascii(digits_of((n / 10) as nat)).push(digit));
        } else {
            assert(ascii(digits_of(n as nat)) =~= seq![digit]);
        }
        assert(final(out)@ =~= old(out)@ + ascii(digits_of(n as nat)));
    }
}

} // verus!
