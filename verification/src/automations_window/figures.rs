//! Times, sizes and excerpts as the store inspector shows them.

use vstd::prelude::*;

use super::phrases::{self, phrase, phrase_with, Phrase, PhraseView};
use crate::text::{self, decimal_text, join2, join3};
use crate::words::{self, join_texts, lines_of};

verus! {

/// How long ago something was, in seconds. What lies ahead is now.
pub open spec fn elapsed(at_epoch_ms: u64, now_ms: u64) -> nat {
    if now_ms > at_epoch_ms {
        ((now_ms - at_epoch_ms) / 1000) as nat
    } else {
        0
    }
}

/// How long ago something was, in words.
pub open spec fn ago_text(seconds: nat) -> PhraseView {
    if seconds <= 2 {
        phrases::plain("time-just-now"@)
    } else if seconds <= 99 {
        phrases::with_argument("time-seconds-ago"@, "count"@, text::decimal(seconds))
    } else if seconds <= 5999 {
        phrases::with_argument("time-minutes-ago"@, "count"@, text::decimal(seconds / 60))
    } else {
        phrases::with_argument("time-hours-ago"@, "count"@, text::decimal(seconds / 3600))
    }
}

/// How long ago something was, in words: now, or in seconds, minutes or hours.
pub fn ago(at_epoch_ms: u64, now_ms: u64) -> (time: Phrase)
    ensures
        time@ == ago_text(elapsed(at_epoch_ms, now_ms)),
{
    let seconds: u64 = if now_ms > at_epoch_ms {
        (now_ms - at_epoch_ms) / 1000
    } else {
        0
    };
    if seconds <= 2 {
        phrase("time-just-now")
    } else if seconds <= 99 {
        let count = decimal_text(seconds);
        phrase_with("time-seconds-ago", "count", &count)
    } else if seconds <= 5999 {
        let count = decimal_text(seconds / 60);
        phrase_with("time-minutes-ago", "count", &count)
    } else {
        let count = decimal_text(seconds / 3600);
        phrase_with("time-hours-ago", "count", &count)
    }
}

/// A quotient to the nearest whole number; to the even one of two that are as near.
pub open spec fn nearest(n: nat, d: nat) -> nat {
    let rest = n % d;
    if 2 * rest > d || (2 * rest == d && (n / d) % 2 == 1) {
        n / d + 1
    } else {
        n / d
    }
}

/// The distance between neighbours of a number among those with 53 binary digits.
pub open spec fn spacing(n: nat) -> nat
    decreases n,
{
    if n < 0x20_0000_0000_0000 {
        1
    } else {
        2 * spacing(n / 2)
    }
}

/// The nearest number with 53 binary digits.
pub open spec fn to_53_digits(n: nat) -> nat {
    nearest(n, spacing(n)) * spacing(n)
}

/// A number of tenths.
pub open spec fn tenths_text(tenths: nat) -> Seq<char> {
    text::decimal(tenths / 10) + "."@ + text::decimal(tenths % 10)
}

/// A size in bytes, or in larger units with one digit after the point.
pub open spec fn size_text(bytes: u64) -> Seq<char> {
    if bytes >= 0x10_0000 {
        tenths_text(nearest(to_53_digits(bytes as nat) * 10, 0x10_0000)) + " MiB"@
    } else if bytes >= 1024 {
        tenths_text(nearest((bytes * 10) as nat, 1024)) + " KiB"@
    } else {
        text::decimal(bytes as nat) + " B"@
    }
}

/// A quotient to the nearest whole number.
fn divide_nearest(n: u128, d: u128) -> (q: u128)
    requires
        0 < d <= 0xffff_ffff_ffff_ffff,
        n <= 0xffff_ffff_ffff_ffff_ffff,
    ensures
        q == nearest(n as nat, d as nat),
{
    let whole: u128 = n / d;
    let rest: u128 = n % d;
    assert(whole <= n) by (nonlinear_arith)
        requires
            whole == n / d,
            d > 0,
    {}
    if 2 * rest > d || (2 * rest == d && whole % 2 == 1) {
        whole + 1
    } else {
        whole
    }
}

/// The nearest number with 53 binary digits.
fn round_to_53_digits(n: u64) -> (rounded: u128)
    ensures
        rounded == to_53_digits(n as nat),
        rounded <= 2 * n + 1,
{
    let mut top: u64 = n;
    let mut unit: u64 = 1;
    while top >= 0x20_0000_0000_0000
        invariant
            unit >= 1,
            unit * top <= n,
            unit > 1 ==> top >= 1,
            unit * spacing(top as nat) == spacing(n as nat),
        decreases top,
    {
        let ghost unit_before = unit as int;
        let ghost top_before = top as int;
        assert(unit_before * 2 <= n) by (nonlinear_arith)
            requires
                unit_before >= 1,
                unit_before * top_before <= n,
                top_before >= 0x20_0000_0000_0000,
        {}
        assert((unit_before * 2) * (top_before / 2) <= n) by (nonlinear_arith)
            requires
                unit_before >= 1,
                unit_before * top_before <= n,
                top_before >= 0,
        {}
        assert((unit_before * 2) * spacing((top_before / 2) as nat) == unit_before * (2 * spacing(
            (top_before / 2) as nat,
        ))) by (nonlinear_arith);
        unit = unit * 2;
        top = top / 2;
    }
    assert(unit * 1 == unit);
    assert(unit == spacing(n as nat));
    let count: u128 = divide_nearest(n as u128, unit as u128);
    proof {
        let u = unit as int;
        let given = n as int;
        vstd::arithmetic::div_mod::lemma_fundamental_div_mod(given, u);
        let q = given / u;
        let r = given % u;
        if unit == 1 {
            assert(given % 1 == 0);
            assert(count == n);
        } else {
            assert(u <= given) by (nonlinear_arith)
                requires
                    u >= 1,
                    u * top <= given,
                    u > 1,
                    given == u * q + r,
                    0 <= r < u,
                    top >= 1,
            {}
        }
        assert(count <= q + 1);
        assert(count * u <= given + u) by (nonlinear_arith)
            requires
                count <= q + 1,
                given == u * q + r,
                0 <= r < u,
                u >= 1,
        {}
    }
    assert(count * unit <= 2 * n + 1);
    count * (unit as u128)
}

/// A number of tenths.
fn tenths_line(tenths: u64) -> (line: String)
    ensures
        line@ == tenths_text(tenths as nat),
{
    let whole = decimal_text(tenths / 10);
    let rest = decimal_text(tenths % 10);
    join3(&whole, ".", &rest)
}

/// A size in bytes, or in larger units with one digit after the point.
pub fn format_bytes(bytes: u64) -> (size: String)
    ensures
        size@ == size_text(bytes),
{
    if bytes >= 0x10_0000 {
        let rounded: u128 = round_to_53_digits(bytes);
        let tenths: u128 = divide_nearest(rounded * 10, 0x10_0000);
        assert(tenths <= rounded * 10 / 0x10_0000 + 1);
        let line = tenths_line(tenths as u64);
        join2(&line, " MiB")
    } else if bytes >= 1024 {
        let tenths: u128 = divide_nearest(bytes as u128 * 10, 1024);
        let line = tenths_line(tenths as u64);
        join2(&line, " KiB")
    } else {
        let count = decimal_text(bytes);
        join2(&count, " B")
    }
}

/// The first lines of a text, with a mark where there are more.
pub open spec fn excerpt(source: Seq<char>, n: nat) -> Seq<char> {
    let all = words::lines(source);
    if all.len() > n {
        words::joined(all.take(n as int), "\n"@) + " \u{2026}"@
    } else {
        words::joined(all, "\n"@)
    }
}

/// The first lines of a text, with a mark where there are more.
pub fn first_lines(source: &str, n: usize) -> (start: String)
    ensures
        start@ == excerpt(source@, n as nat),
{
    let all = lines_of(source);
    if all.len() > n {
        let start = join_texts(&all, n, "\n");
        join2(&start, " \u{2026}")
    } else {
        assert(text::texts(all@).take(all.len() as int) =~= text::texts(all@));
        join_texts(&all, all.len(), "\n")
    }
}

} // verus!
