//! The listening port, chosen from the command line.

use vstd::prelude::*;
use crate::decimal::{
    all_digits,
    decimal_value,
    digits_of,
    is_digit,
    lemma_decimal_value_grows,
    lemma_digits_denote,
};
use crate::text::chars_of;

verus! {

/// The port the server listens on when the command line names no usable one.
pub const DEFAULT_PORT: u16 = 28333;

/// The digits of a port argument: the argument itself, without a leading `+`.
pub open spec fn unsigned_digits(s: Seq<char>) -> Seq<char> {
    if s.len() > 0 && s[0] == '+' {
        s.subrange(1, s.len() as int)
    } else {
        s
    }
}

/// The port that an argument denotes: an optional `+`, then one or more
/// decimal digits whose value fits in sixteen bits. Anything else denotes none.
pub open spec fn port_of(s: Seq<char>) -> Option<u16> {
    let digits = unsigned_digits(s);
    if digits.len() > 0 && all_digits(digits) && decimal_value(digits) <= u16::MAX {
        Some(decimal_value(digits) as u16)
    } else {
        None
    }
}

/// The port to listen on, given the words of the command line, the program's
/// name first: the port that the first argument denotes, and the default
/// where there is no argument or it denotes none.
pub open spec fn chosen_port(args: Seq<Seq<char>>) -> u16 {
    if args.len() > 1 {
        match port_of(args[1]) {
            Some(port) => port,
            None => DEFAULT_PORT,
        }
    } else {
        DEFAULT_PORT
    }
}

/// Reads a port number from one command-line argument.
pub fn parse_port(arg: &str) -> (port: Option<u16>)
    ensures
        port == port_of(arg@),
{
    let chars = chars_of(arg);
    let len: usize = chars.len();
    if len == 0 {
        return None;
    }
    let start: usize = if chars[0] == '+' {
        1
    } else {
        0
    };
    if start == len {
        return None;
    }
    let ghost digits = unsigned_digits(arg@);
    let mut value: u32 = 0;
    let mut i: usize = start;
    while i < len
        invariant
            start <= i <= len,
            len == arg@.len(),
            chars@ == arg@,
            digits == unsigned_digits(arg@),
            digits == arg@.subrange(start as int, len as int),
            all_digits(digits.take(i - start)),
            value == decimal_value(digits.take(i - start)),
            value <= u16::MAX,
        decreases len - i,
    {
        let c: char = chars[i];
        if !('0' <= c && c <= '9') {
            assert(!is_digit(digits[i - start]));
            return None;
        }
        let digit: u32 = c as u32 - '0' as u32;
        let next: u32 = value * 10 + digit;
        proof {
            let k = i - start;
            assert(digits.take(k + 1).drop_last() =~= digits.take(k));
            assert(digits.take(k + 1).last() == c);
            assert(next == decimal_value(digits.take(k + 1)));
            assert forall|j: int| 0 <= j < k + 1 implies is_digit(
                #[trigger] digits.take(k + 1)[j],
            ) by {
                if j < k {
                    assert(digits.take(k + 1)[j] == digits.take(k)[j]);
                }
            }
        }
        if next > 65535 {
            proof {
                lemma_decimal_value_grows(digits, i - start + 1);
            }
            return None;
        }
        value = next;
        i = i + 1;
    }
    proof {
        assert(digits.take(len - start) =~= digits);
    }
    Some(value as u16)
}

/// Chooses the port to listen on from the words of the command line, the
/// program's name first.
pub fn port_from_args(args: &[String]) -> (port: u16)
    ensures
        port == chosen_port(args.deep_view()),
{
    if args.len() > 1 {
        match parse_port(args[1].as_str()) {
            Some(port) => port,
            None => DEFAULT_PORT,
        }
    } else {
        DEFAULT_PORT
    }
}

/// Every port has an argument that selects it: its decimal notation.
pub proof fn lemma_port_round_trip(port: u16)
    ensures
        port_of(digits_of(port as nat)) == Some(port),
{
    lemma_digits_denote(port as nat);
    let digits = digits_of(port as nat);
    assert(digits[0] != '+') by {
        assert(is_digit(digits[0]));
    }
}

/// Without an argument, or with one that is no number, the default port is
/// chosen.
pub proof fn lemma_default_port(args: Seq<Seq<char>>)
    requires
        args.len() <= 1 || (args[1].len() > 0 && !is_digit(args[1].last())),
    ensures
        chosen_port(args) == DEFAULT_PORT,
{
    if args.len() > 1 {
        let arg = args[1];
        let digits = unsigned_digits(arg);
        if digits.len() > 0 {
            assert(digits.last() == arg.last());
            assert(!is_digit(digits[digits.len() - 1]));
        }
    }
}

} // verus!
