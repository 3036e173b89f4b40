//! Small verified helpers for building strings character by character:
//! digit characters and decimal rendering of integers.

use vstd::prelude::*;

verus! {

/// Relies on std's `String::push`: appends the given character to the end of
/// this `String`.
pub assume_specification[ String::push ](s: &mut String, ch: char)
    ensures
        final(s)@ == old(s)@ + seq![ch],
;

/// The character for one digit value below sixteen, lowercase.
pub open spec fn digit_char(v: int) -> char
    recommends
        0 <= v < 16,
{
    if v == 0 {
        '0'
    } else if v == 1 {
        '1'
    } else if v == 2 {
        '2'
    } else if v == 3 {
        '3'
    } else if v == 4 {
        '4'
    } else if v == 5 {
        '5'
    } else if v == 6 {
        '6'
    } else if v == 7 {
        '7'
    } else if v == 8 {
        '8'
    } else if v == 9 {
        '9'
    } else if v == 10 {
        'a'
    } else if v == 11 {
        'b'
    } else if v == 12 {
        'c'
    } else if v == 13 {
        'd'
    } else if v == 14 {
        'e'
    } else {
        'f'
    }
}

/// The decimal rendering of a nonnegative integer, without leading zeros
/// (a single `'0'` for zero).
pub open spec fn dec_spec(n: int) -> Seq<char>
    recommends
        n >= 0,
    decreases n,
{
    if n < 10 {
        seq![digit_char(n)]
    } else {
        dec_spec(n / 10).push(digit_char(n % 10))
    }
}

/// The character for one digit value below sixteen, lowercase.
pub fn digit_to_char(v: u32) -> (c: char)
    requires
        v < 16,
    ensures
        c == digit_char(v as int),
{
    if v == 0 {
        '0'
    } else if v == 1 {
        '1'
    } else if v == 2 {
        '2'
    } else if v == 3 {
        '3'
    } else if v == 4 {
        '4'
    } else if v == 5 {
        '5'
    } else if v == 6 {
        '6'
    } else if v == 7 {
        '7'
    } else if v == 8 {
        '8'
    } else if v == 9 {
        '9'
    } else if v == 10 {
        'a'
    } else if v == 11 {
        'b'
    } else if v == 12 {
        'c'
    } else if v == 13 {
        'd'
    } else if v == 14 {
        'e'
    } else {
        'f'
    }
}

/// Appends the decimal rendering of `n` to `s`.
pub fn push_decimal(s: &mut String, n: u64)
    ensures
        final(s)@ == old(s)@ + dec_spec(n as int),
    decreases n,
{
    if n < 10 {
        s.push(digit_to_char(n as u32));
        proof {
            assert(old(s)@ + seq![digit_char(n as int)] =~= old(s)@ + dec_spec(n as int));
        }
    } else {
        push_decimal(s, n / 10);
        s.push(digit_to_char((n % 10) as u32));
        proof {
            assert((old(s)@ + dec_spec(n as int / 10)) + seq![digit_char(n as int % 10)] =~= old(
                s,
            )@ + dec_spec(n as int));
        }
    }
}

} // verus!
