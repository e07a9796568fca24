//! Wall-clock runtime formatting: `HH:MM:SS`, preceded by a day count once a
//! full day has elapsed.

use vstd::prelude::*;
use crate::text::{digit_char, decimal_text, append_decimal, push_char};

verus! {

/// A two-digit, zero-padded rendering of `n`, `0 <= n < 100`.
pub open spec fn two_digit_text(n: int) -> Seq<char> {
    seq![digit_char(n / 10), digit_char(n % 10)]
}

/// `HH:MM:SS` of the elapsed seconds; runs of a day or more put the day count
/// and a `d` in front.
pub open spec fn duration_text(secs: nat) -> Seq<char> {
    let days = secs / 86400;
    let hrs = (secs % 86400) / 3600;
    let mins = (secs % 3600) / 60;
    let s = secs % 60;
    let hms = two_digit_text(hrs as int) + seq![':'] + two_digit_text(mins as int) + seq![':']
        + two_digit_text(s as int);
    if days > 0 {
        decimal_text(days) + seq!['d', ' '] + hms
    } else {
        hms
    }
}

/// Append the two zero-padded digits of `n`.
fn append_two_digit(out: &mut String, n: u64)
    requires
        n < 100,
    ensures
        final(out)@ == old(out)@ + two_digit_text(n as int),
{
    push_char(out, (48 + (n / 10) as u8) as char);
    push_char(out, (48 + (n % 10) as u8) as char);
    proof {
        assert(old(out)@ + seq![digit_char(n as int / 10)] + seq![digit_char(n as int % 10)]
            =~= old(out)@ + two_digit_text(n as int));
    }
}

/// Format an elapsed wall-clock time, given in whole seconds, as
/// `HH:MM:SS` — or `Dd HH:MM:SS` once at least one day has elapsed.
pub fn format_duration(secs: u64) -> (r: String)
    ensures
        r@ == duration_text(secs as nat),
{
    let days = secs / 86400;
    let hrs = (secs % 86400) / 3600;
    let mins = (secs % 3600) / 60;
    let s = secs % 60;
    assert(hrs < 24 && mins < 60 && s < 60);
    let mut out = String::new();
    if days > 0 {
        append_decimal(&mut out, days);
        push_char(&mut out, 'd');
        push_char(&mut out, ' ');
    }
    append_two_digit(&mut out, hrs);
    push_char(&mut out, ':');
    append_two_digit(&mut out, mins);
    push_char(&mut out, ':');
    append_two_digit(&mut out, s);
    proof {
        assert(out@ =~= duration_text(secs as nat));
    }
    out
}

} // verus!
