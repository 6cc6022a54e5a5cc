//! Rendering numbers and ranges as text, for error messages.

use vstd::prelude::*;
use vstd::string::*;
use crate::gvas::nav::{hex_char, hex_digit_str};

verus! {

/// The decimal digits of `n`, most significant first.
pub open spec fn decimal(n: nat) -> Seq<char>
    decreases n,
{
    if n < 10 {
        seq![hex_char(n as u8)]
    } else {
        decimal(n / 10).push(hex_char((n % 10) as u8))
    }
}

/// A signed integer in decimal, with a leading `-` when negative.
pub open spec fn signed_decimal(n: int) -> Seq<char> {
    if n < 0 {
        seq!['-'] + decimal((-n) as nat)
    } else {
        decimal(n as nat)
    }
}

/// A range as Rust's `Debug` prints it: `start..end`.
pub open spec fn range_text(start: nat, end: nat) -> Seq<char> {
    decimal(start) + seq!['.', '.'] + decimal(end)
}

/// An uppercase hex digit.
pub open spec fn upper_hex_char(n: u8) -> char {
    if n < 10 {
        (n + 48) as char
    } else {
        (n + 55) as char
    }
}

/// A byte as two uppercase hex digits.
pub open spec fn byte_upper_hex(b: u8) -> Seq<char> {
    seq![upper_hex_char(b / 16), upper_hex_char(b % 16)]
}

/// Appends `t`.
pub fn push_str(s: &mut String, t: &str)
    ensures
        final(s)@ == old(s)@ + t@,
{
    s.append(t);
}

/// Appends `n` in decimal.
pub fn push_decimal(s: &mut String, n: u64)
    ensures
        final(s)@ == old(s)@ + decimal(n as nat),
    decreases n,
{
    if n >= 10 {
        push_decimal(s, n / 10);
    }
    let d = (n % 10) as u8;
    s.append(hex_digit_str(d));
    assert(final(s)@ =~= old(s)@ + decimal(n as nat));
}

/// Appends a signed integer in decimal.
pub fn push_signed_decimal(s: &mut String, n: i64)
    ensures
        final(s)@ == old(s)@ + signed_decimal(n as int),
{
    if n < 0 {
        s.append("-");
        proof {
            reveal_strlit("-");
        }
        let m: u64 = if n == i64::MIN {
            0x8000_0000_0000_0000u64
        } else {
            (-n) as u64
        };
        push_decimal(s, m);
        assert(final(s)@ =~= old(s)@ + signed_decimal(n as int));
    } else {
        push_decimal(s, n as u64);
    }
}

/// Appends a range as `start..end`.
pub fn push_range(s: &mut String, r: &std::ops::Range<usize>)
    ensures
        final(s)@ == old(s)@ + range_text(r.start as nat, r.end as nat),
{
    push_decimal(s, r.start as u64);
    s.append("..");
    proof {
        reveal_strlit("..");
    }
    push_decimal(s, r.end as u64);
    assert(final(s)@ =~= old(s)@ + range_text(r.start as nat, r.end as nat));
}

fn upper_hex_digit(n: u8) -> (s: &'static str)
    requires
        n < 16,
    ensures
        s@ == seq![upper_hex_char(n)],
{
    proof {
        reveal_strlit("A");
        reveal_strlit("B");
        reveal_strlit("C");
        reveal_strlit("D");
        reveal_strlit("E");
        reveal_strlit("F");
    }
    if n < 10 {
        let s = hex_digit_str(n);
        s
    } else {
        let s = match n {
            10 => "A",
            11 => "B",
            12 => "C",
            13 => "D",
            14 => "E",
            _ => "F",
        };
        assert(s@ =~= seq![upper_hex_char(n)]);
        s
    }
}

/// Appends a byte as two uppercase hex digits.
pub fn push_byte_upper_hex(s: &mut String, b: u8)
    ensures
        final(s)@ == old(s)@ + byte_upper_hex(b),
{
    s.append(upper_hex_digit(b / 16));
    s.append(upper_hex_digit(b % 16));
    assert(final(s)@ =~= old(s)@ + byte_upper_hex(b));
}

} // verus!
