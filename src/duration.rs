//! Lengths of time written for people, from a whole number of seconds.
//!
//! Minutes and hours are whole quotients rounded toward zero, and the seconds
//! are what is left over, as for a signed time span.
use vstd::prelude::*;

use crate::chart::{digit, two_digits};
use crate::text::push_char;
use crate::raster::{abs, trunc_div};

verus! {

/// The decimal digits of `n`.
pub open spec fn decimal(n: nat) -> Seq<char>
    decreases n,
{
    if n < 10 {
        seq![digit(n as int)]
    } else {
        decimal(n / 10) + seq![digit((n % 10) as int)]
    }
}

/// `v` in decimal, with a minus sign when negative.
pub open spec fn signed_decimal(v: int) -> Seq<char> {
    if v < 0 {
        seq!['-'] + decimal((-v) as nat)
    } else {
        decimal(v as nat)
    }
}

/// A minus sign for a negative `secs`, else nothing.
pub open spec fn sign_of(secs: int) -> Seq<char> {
    if secs < 0 {
        seq!['-']
    } else {
        Seq::empty()
    }
}

/// `secs` as minutes and seconds: `M:SS`, after a minus sign when negative.
pub open spec fn minutes_text(secs: int) -> Seq<char> {
    sign_of(secs) + decimal(abs(trunc_div(secs, 60)) as nat) + seq![':'] + two_digits(
        abs(secs - 60 * trunc_div(secs, 60)),
    )
}

/// `secs` as hours, minutes and seconds: `H:MM:SS`, after a minus sign when
/// negative; the hours keep their own sign.
pub open spec fn hours_text(secs: int) -> Seq<char> {
    sign_of(secs) + signed_decimal(trunc_div(secs, 3600)) + seq![':'] + two_digits(
        abs(trunc_div(secs, 60)) % 60,
    ) + seq![':'] + two_digits(abs(secs - 60 * trunc_div(secs, 60)))
}

/// The decimal digit `d`.
fn digit_char(d: u64) -> (r: char)
    requires
        d < 10,
    ensures
        r == digit(d as int),
{
    let b = 48u8 + d as u8;
    b as char
}

/// Appends the decimal digits of `n` to `s`.
fn push_decimal(s: &mut String, n: u64)
    ensures
        final(s)@ == old(s)@ + decimal(n as nat),
    decreases n,
{
    if n >= 10 {
        push_decimal(s, n / 10);
    }
    push_char(s, digit_char(n % 10));
    proof {
        if n >= 10 {
            assert(final(s)@ =~= old(s)@ + decimal(n as nat));
        } else {
            assert(final(s)@ =~= old(s)@ + decimal(n as nat));
        }
    }
}

/// Appends `v` (below 100) as two decimal digits to `s`.
fn push_two_digits(s: &mut String, v: u64)
    requires
        v < 100,
    ensures
        final(s)@ == old(s)@ + two_digits(v as int),
{
    push_char(s, digit_char(v / 10));
    push_char(s, digit_char(v % 10));
    assert(final(s)@ =~= old(s)@ + two_digits(v as int));
}

/// The magnitude of `secs`, and its quotients by 60 and 3600.
proof fn lemma_magnitude(secs: int, m: int)
    requires
        m == abs(secs),
    ensures
        abs(trunc_div(secs, 60)) == m / 60,
        abs(secs - 60 * trunc_div(secs, 60)) == m % 60,
        trunc_div(secs, 3600) == (if secs < 0 {
            -(m / 3600)
        } else {
            m / 3600
        }),
{
    assert(m == 60 * (m / 60) + m % 60) by (nonlinear_arith);
    assert(0 <= m % 60 < 60) by (nonlinear_arith);
    assert(0 <= m / 60) by (nonlinear_arith)
        requires
            0 <= m,
    ;
}

/// `secs` as minutes and seconds, `M:SS`, after a minus sign when negative.
pub fn format_duration_ms(secs: i64) -> (r: String)
    ensures
        r@ == minutes_text(secs as int),
{
    let m: u64 = if secs < 0 { (-(secs as i128)) as u64 } else { secs as u64 };
    proof {
        lemma_magnitude(secs as int, m as int);
    }
    let mut s = String::new();
    if secs < 0 {
        push_char(&mut s, '-');
    }
    push_decimal(&mut s, m / 60);
    push_char(&mut s, ':');
    push_two_digits(&mut s, m % 60);
    assert(s@ =~= minutes_text(secs as int));
    s
}

/// `secs` as hours, minutes and seconds, `H:MM:SS`, after a minus sign when
/// negative.
pub fn format_duration_hms(secs: i64) -> (r: String)
    ensures
        r@ == hours_text(secs as int),
{
    let m: u64 = if secs < 0 { (-(secs as i128)) as u64 } else { secs as u64 };
    proof {
        lemma_magnitude(secs as int, m as int);
    }
    let mut s = String::new();
    if secs < 0 {
        push_char(&mut s, '-');
    }
    let hours = m / 3600;
    if secs < 0 && hours > 0 {
        push_char(&mut s, '-');
    }
    push_decimal(&mut s, hours);
    push_char(&mut s, ':');
    push_two_digits(&mut s, (m / 60) % 60);
    push_char(&mut s, ':');
    push_two_digits(&mut s, m % 60);
    assert(s@ =~= hours_text(secs as int));
    s
}

} // verus!
