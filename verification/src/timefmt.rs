//! Rendering a duration as a clock string: `MM:SS`, or `HH:MM:SS` once a
//! full hour is reached, each component padded to two digits.

use vstd::prelude::*;

use crate::text::string_from_chars;

verus! {

/// The character of one decimal digit.
pub open spec fn digit_char(d: int) -> char {
    if d == 0 {
        '0'
    } else if d == 1 {
        '1'
    } else if d == 2 {
        '2'
    } else if d == 3 {
        '3'
    } else if d == 4 {
        '4'
    } else if d == 5 {
        '5'
    } else if d == 6 {
        '6'
    } else if d == 7 {
        '7'
    } else if d == 8 {
        '8'
    } else {
        '9'
    }
}

/// The decimal rendering of a non-negative number, most significant digit
/// first.
pub open spec fn dec_str(n: int) -> Seq<char>
    recommends
        n >= 0,
    decreases n,
{
    if n < 10 {
        seq![digit_char(n)]
    } else {
        dec_str(n / 10).push(digit_char(n % 10))
    }
}

/// The decimal rendering padded to at least two digits.
pub open spec fn pad2(n: int) -> Seq<char>
    recommends
        n >= 0,
{
    if n < 10 {
        seq!['0'] + dec_str(n)
    } else {
        dec_str(n)
    }
}

/// The clock string of a non-negative duration in milliseconds: hours,
/// minutes and seconds each padded to two digits, with the hour component
/// present only when the duration reaches a full hour.
pub open spec fn spec_duration_string(ms: int) -> Seq<char>
    recommends
        ms >= 0,
{
    let total = ms / 1000;
    let hours = total / 3600;
    let minutes = (total / 60) % 60;
    let seconds = total % 60;
    if hours > 0 {
        pad2(hours) + seq![':'] + pad2(minutes) + seq![':'] + pad2(seconds)
    } else {
        pad2(minutes) + seq![':'] + pad2(seconds)
    }
}

fn digit_char_exec(d: u64) -> (c: char)
    requires
        d < 10,
    ensures
        c == digit_char(d as int),
{
    if d == 0 {
        '0'
    } else if d == 1 {
        '1'
    } else if d == 2 {
        '2'
    } else if d == 3 {
        '3'
    } else if d == 4 {
        '4'
    } else if d == 5 {
        '5'
    } else if d == 6 {
        '6'
    } else if d == 7 {
        '7'
    } else if d == 8 {
        '8'
    } else {
        '9'
    }
}

fn push_dec(n: u64, out: &mut Vec<char>)
    ensures
        final(out)@ == old(out)@ + dec_str(n as int),
    decreases n,
{
    let d = digit_char_exec(n % 10);
    if n < 10 {
        out.push(d);
        proof {
            assert(final(out)@ =~= old(out)@ + dec_str(n as int));
        }
    } else {
        push_dec(n / 10, out);
        out.push(d);
        proof {
            assert(final(out)@ =~= old(out)@ + dec_str(n as int));
        }
    }
}

fn push_pad2(n: u64, out: &mut Vec<char>)
    ensures
        final(out)@ == old(out)@ + pad2(n as int),
{
    if n < 10 {
        out.push('0');
    }
    push_dec(n, out);
    proof {
        assert(final(out)@ =~= old(out)@ + pad2(n as int));
    }
}

/// Render a non-negative duration in milliseconds as a padded clock
/// string: `MM:SS`, or `HH:MM:SS` once it reaches a full hour.
pub fn duration_to_string(duration_ms: i64) -> (r: String)
    requires
        duration_ms >= 0,
    ensures
        r@ == spec_duration_string(duration_ms as int),
{
    let ms = duration_ms as u64;
    let total = ms / 1000;
    let hours = total / 3600;
    let minutes = (total / 60) % 60;
    let seconds = total % 60;
    let mut out: Vec<char> = Vec::new();
    if hours > 0 {
        push_pad2(hours, &mut out);
        out.push(':');
    }
    push_pad2(minutes, &mut out);
    out.push(':');
    push_pad2(seconds, &mut out);
    proof {
        assert(out@ =~= spec_duration_string(duration_ms as int));
    }
    string_from_chars(&out)
}

} // verus!
