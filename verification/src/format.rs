//! How the monitoring views print instants, spans, counts and byte sizes.
//!
//! An instant is a count of milliseconds since 1970-01-01T00:00:00Z.

use vstd::prelude::*;
use chrono::{DateTime, NaiveDateTime};
use crate::text::{chars_of, dec, dec_of, lit, push_all, string_of, trim, trim_of};

verus! {

pub const DASH: &'static str = "—";

/// What `DateTime::parse_from_rfc3339` reads from a text, as milliseconds.
pub uninterp spec fn rfc3339_instant(s: Seq<char>) -> Option<i64>;

/// What `NaiveDateTime::parse_from_str` reads from a text with a pattern,
/// taken as UTC, as milliseconds.
pub uninterp spec fn naive_instant(s: Seq<char>, pattern: Seq<char>) -> Option<i64>;

/// What `DateTime<Utc>::format` prints for an instant and a pattern.
pub uninterp spec fn utc_text(ms: i64, pattern: Seq<char>) -> Seq<char>;

/// `DateTime::parse_from_rfc3339`, read back as milliseconds since the epoch.
/// The result depends on the text alone; what it accepts is not restated here.
#[verifier::external_body]
fn parse_rfc3339(s: &str) -> (r: Option<i64>)
    ensures
        r == rfc3339_instant(s@),
{
    match DateTime::parse_from_rfc3339(s) {
        Ok(t) => Some(t.timestamp_millis()),
        Err(_) => None,
    }
}

/// `NaiveDateTime::parse_from_str`, the result taken as UTC and read back as
/// milliseconds since the epoch. The result depends on the text and pattern alone.
#[verifier::external_body]
fn parse_naive(s: &str, pattern: &str) -> (r: Option<i64>)
    ensures
        r == naive_instant(s@, pattern@),
{
    match NaiveDateTime::parse_from_str(s, pattern) {
        Ok(n) => Some(n.and_utc().timestamp_millis()),
        Err(_) => None,
    }
}

/// The patterns the views print with.
pub open spec fn is_view_pattern(p: Seq<char>) -> bool {
    ||| p == "%Y-%m-%d %H:%M:%SZ"@
    ||| p == "%H:%M:%SZ"@
    ||| p == "%m-%d %H:%M:%SZ"@
    ||| p == "%m-%d %H:%MZ"@
    ||| p == "%Y-%m-%d"@
    ||| p == "%m-%d"@
}

/// The first millisecond `chrono` represents: -262143-01-01T00:00:00Z.
pub const CALENDAR_FIRST_MS: i64 = -8_334_601_228_800_000;

/// The last millisecond `chrono` represents: 262142-12-31T23:59:59.999Z.
pub const CALENDAR_LAST_MS: i64 = 8_210_266_876_799_999;

/// Instants inside the calendar range `chrono` represents (years -262143 to
/// 262142): exactly those `DateTime::from_timestamp_millis` accepts.
pub open spec fn in_calendar(ms: i64) -> bool {
    CALENDAR_FIRST_MS <= ms <= CALENDAR_LAST_MS
}

/// `DateTime::from_timestamp_millis` then `format(..).to_string()`. The
/// instant is in range (so the first call gives a value) whenever it is in
/// the calendar; the text depends on the instant and the pattern alone.
#[verifier::external_body]
fn format_utc(ms: i64, pattern: &str) -> (r: Option<String>)
    requires
        is_view_pattern(pattern@),
    ensures
        in_calendar(ms) ==> r is Some,
        r matches Some(t) ==> t@ == utc_text(ms, pattern@),
{
    match DateTime::from_timestamp_millis(ms) {
        Some(t) => Some(t.format(pattern).to_string()),
        None => None,
    }
}

pub fn fits_calendar(ms: i64) -> (b: bool)
    ensures
        b == in_calendar(ms),
{
    CALENDAR_FIRST_MS <= ms && ms <= CALENDAR_LAST_MS
}

/// What an instant's text reads as: RFC 3339 with a space allowed for the
/// `T`, else a naive ISO date-time taken as UTC. Blank reads as nothing.
pub open spec fn parse_spec(value: Seq<char>) -> Option<i64> {
    let v = trim(value);
    if v.len() == 0 {
        None
    } else if rfc3339_instant(v.map_values(|c: char| if c == ' ' { 'T' } else { c })) is Some {
        rfc3339_instant(v.map_values(|c: char| if c == ' ' { 'T' } else { c }))
    } else {
        naive_instant(v, "%Y-%m-%dT%H:%M:%S%.f"@)
    }
}

/// Reads an instant written by the probe.
pub fn parse(value: &str) -> (r: Option<i64>)
    ensures
        r == parse_spec(value@),
{
    let v = trim_of(&chars_of(value));
    if v.len() == 0 {
        return None;
    }
    let mut t: Vec<char> = Vec::new();
    let mut i: usize = 0;
    while i < v.len()
        invariant
            i <= v.len(),
            t@ == v@.take(i as int).map_values(|c: char| if c == ' ' { 'T' } else { c }),
        decreases v.len() - i,
    {
        t.push(if v[i] == ' ' { 'T' } else { v[i] });
        proof {
            assert(t@ =~= v@.take(i + 1).map_values(|c: char| if c == ' ' { 'T' } else { c }));
        }
        i += 1;
    }
    proof {
        assert(v@.take(i as int) =~= v@);
    }
    let with_t = string_of(t.as_slice());
    match parse_rfc3339(with_t.as_str()) {
        Some(ms) => Some(ms),
        None => {
            let plain = string_of(v.as_slice());
            parse_naive(plain.as_str(), "%Y-%m-%dT%H:%M:%S%.f")
        },
    }
}

/// Reads an optional instant.
pub fn parse_opt(value: &Option<String>) -> (r: Option<i64>)
    ensures
        r == match value {
            Some(v) => parse_spec(v@),
            None => None,
        },
{
    match value {
        Some(v) => parse(v.as_str()),
        None => None,
    }
}

fn formatted(ms: i64, pattern: &str) -> (r: String)
    requires
        is_view_pattern(pattern@),
        in_calendar(ms),
    ensures
        r@ == utc_text(ms, pattern@),
{
    match format_utc(ms, pattern) {
        Some(t) => t,
        None => String::new(),
    }
}

/// `2026-08-14 09:04:11Z`
pub fn full(ms: i64) -> (r: String)
    requires
        in_calendar(ms),
    ensures
        r@ == utc_text(ms, "%Y-%m-%d %H:%M:%SZ"@),
{
    formatted(ms, "%Y-%m-%d %H:%M:%SZ")
}

/// `04:12:07Z`
pub fn clock(ms: i64) -> (r: String)
    requires
        in_calendar(ms),
    ensures
        r@ == utc_text(ms, "%H:%M:%SZ"@),
{
    formatted(ms, "%H:%M:%SZ")
}

/// `08-11 04:12:07Z`
pub fn day_clock(ms: i64) -> (r: String)
    requires
        in_calendar(ms),
    ensures
        r@ == utc_text(ms, "%m-%d %H:%M:%SZ"@),
{
    formatted(ms, "%m-%d %H:%M:%SZ")
}

/// `08-11 04:12Z`
pub fn day_minute(ms: i64) -> (r: String)
    requires
        in_calendar(ms),
    ensures
        r@ == utc_text(ms, "%m-%d %H:%MZ"@),
{
    formatted(ms, "%m-%d %H:%MZ")
}

/// `08-19`
pub fn month_day(ms: i64) -> (r: String)
    requires
        in_calendar(ms),
    ensures
        r@ == utc_text(ms, "%m-%d"@),
{
    formatted(ms, "%m-%d")
}

/// `2026-08-19`
pub fn date(ms: i64) -> (r: String)
    requires
        in_calendar(ms),
    ensures
        r@ == utc_text(ms, "%Y-%m-%d"@),
{
    formatted(ms, "%Y-%m-%d")
}


/// Two digits, zero-padded: `{:02}`.
pub open spec fn pad2(n: nat) -> Seq<char> {
    if n < 10 {
        seq!['0'] + dec(n)
    } else {
        dec(n)
    }
}

fn pad2_of(n: u64) -> (r: Vec<char>)
    ensures
        r@ == pad2(n as nat),
{
    let mut r: Vec<char> = Vec::new();
    if n < 10 {
        r.push('0');
    }
    push_all(&mut r, &dec_of(n as u128));
    r
}

/// `41s`, `1m 49s`, `15h 55m`, `6d 11h`: the two largest units. A negative
/// span reads as none.
pub open spec fn span_spec(secs: int) -> Seq<char> {
    let s: int = if secs < 0 { 0 } else { secs };
    if s < 60 {
        dec(s as nat) + "s"@
    } else if s < 3_600 {
        dec((s / 60) as nat) + "m "@ + pad2((s % 60) as nat) + "s"@
    } else if s < 86_400 {
        dec((s / 3_600) as nat) + "h "@ + pad2((s / 60 % 60) as nat) + "m"@
    } else {
        dec((s / 86_400) as nat) + "d "@ + pad2((s / 3_600 % 24) as nat) + "h"@
    }
}

/// A span of whole seconds in its two largest units.
pub fn span(secs: i64) -> (r: String)
    ensures
        r@ == span_spec(secs as int),
{
    let s: u64 = if secs < 0 {
        0
    } else {
        secs as u64
    };
    let mut v: Vec<char>;
    if s < 60 {
        v = dec_of(s as u128);
        push_all(&mut v, &lit("s"));
    } else if s < 3_600 {
        v = dec_of((s / 60) as u128);
        push_all(&mut v, &lit("m "));
        push_all(&mut v, &pad2_of(s % 60));
        push_all(&mut v, &lit("s"));
    } else if s < 86_400 {
        v = dec_of((s / 3_600) as u128);
        push_all(&mut v, &lit("h "));
        push_all(&mut v, &pad2_of(s / 60 % 60));
        push_all(&mut v, &lit("m"));
    } else {
        v = dec_of((s / 86_400) as u128);
        push_all(&mut v, &lit("d "));
        push_all(&mut v, &pad2_of(s / 3_600 % 24));
        push_all(&mut v, &lit("h"));
    }
    string_of(v.as_slice())
}

/// Whole seconds in a span of milliseconds, truncated toward zero.
pub open spec fn whole_seconds(ms: int) -> int {
    if ms >= 0 {
        ms / 1000
    } else {
        -((-ms) / 1000)
    }
}

/// `in 5 days`, `in 14h 02m`, `3h 10m ago`: from one instant to another.
pub open spec fn until_spec(from: int, to: int) -> Seq<char> {
    let d = to - from;
    if d < 0 {
        span_spec(whole_seconds(-d)) + " ago"@
    } else if d >= 172_800_000 {
        "in "@ + dec((d / 86_400_000) as nat) + " days"@
    } else {
        "in "@ + span_spec(whole_seconds(d))
    }
}

pub fn until(from: i64, to: i64) -> (r: String)
    ensures
        r@ == until_spec(from as int, to as int),
{
    let d: i128 = to as i128 - from as i128;
    let mut v: Vec<char>;
    if d < 0 {
        let secs = (-d) / 1000;
        v = chars_of(span(secs as i64).as_str());
        push_all(&mut v, &lit(" ago"));
    } else if d >= 172_800_000 {
        v = lit("in ");
        push_all(&mut v, &dec_of((d / 86_400_000) as u128));
        push_all(&mut v, &lit(" days"));
    } else {
        v = lit("in ");
        push_all(&mut v, &chars_of(span((d / 1000) as i64).as_str()));
    }
    string_of(v.as_slice())
}

/// `2d`, `14h`, `35m`: a short countdown, in the largest whole unit, at
/// least one minute; the sign is dropped.
pub open spec fn countdown_spec(ms: int) -> Seq<char> {
    let d: int = if ms < 0 { -ms } else { ms };
    if d >= 86_400_000 {
        dec((d / 86_400_000) as nat) + "d"@
    } else if d >= 3_600_000 {
        dec((d / 3_600_000) as nat) + "h"@
    } else if d / 60_000 >= 1 {
        dec((d / 60_000) as nat) + "m"@
    } else {
        "1m"@
    }
}

pub fn countdown(ms: i128) -> (r: String)
    requires
        -0x1_0000_0000_0000_0000 < ms < 0x1_0000_0000_0000_0000,
    ensures
        r@ == countdown_spec(ms as int),
{
    let d: u128 = if ms < 0 {
        (-ms) as u128
    } else {
        ms as u128
    };
    let mut v: Vec<char>;
    if d >= 86_400_000 {
        v = dec_of(d / 86_400_000);
        push_all(&mut v, &lit("d"));
    } else if d >= 3_600_000 {
        v = dec_of(d / 3_600_000);
        push_all(&mut v, &lit("h"));
    } else if d / 60_000 >= 1 {
        v = dec_of(d / 60_000);
        push_all(&mut v, &lit("m"));
    } else {
        v = lit("1m");
        proof {
            assert(dec(1) == seq!['1']);
        }
    }
    string_of(v.as_slice())
}

/// `1 audit row`, `2 audit rows`.
pub open spec fn plural_spec(n: nat, word: Seq<char>) -> Seq<char> {
    dec(n) + " "@ + word + if n == 1 { ""@ } else { "s"@ }
}

pub fn plural(n: u64, word: &str) -> (r: String)
    ensures
        r@ == plural_spec(n as nat, word@),
{
    let mut v = dec_of(n as u128);
    push_all(&mut v, &lit(" "));
    push_all(&mut v, &lit(word));
    if n == 1 {
        push_all(&mut v, &lit(""));
    } else {
        push_all(&mut v, &lit("s"));
    }
    string_of(v.as_slice())
}

/// The first `k` digits of `d`, with a comma wherever three digits remain.
pub open spec fn grouped(d: Seq<char>, k: int) -> Seq<char>
    decreases k,
{
    if k <= 0 {
        seq![]
    } else {
        grouped(d, k - 1) + (if k - 1 > 0 && (d.len() - (k - 1)) % 3 == 0 {
            seq![',']
        } else {
            seq![]
        }) + seq![d[k - 1]]
    }
}

/// `184,320 B`
pub fn bytes(n: u64) -> (r: String)
    ensures
        r@ == grouped(dec(n as nat), dec(n as nat).len() as int) + " B"@,
{
    let digits = dec_of(n as u128);
    let mut out: Vec<char> = Vec::new();
    let mut i: usize = 0;
    while i < digits.len()
        invariant
            i <= digits.len(),
            digits@ == dec(n as nat),
            out@ == grouped(digits@, i as int),
        decreases digits.len() - i,
    {
        if i > 0 && (digits.len() - i) % 3 == 0 {
            out.push(',');
        }
        out.push(digits[i]);
        proof {
            assert(out@ =~= grouped(digits@, i + 1));
        }
        i += 1;
    }
    push_all(&mut out, &lit(" B"));
    string_of(out.as_slice())
}

/// The value, or a dash when it is absent or empty.
pub fn or_dash(value: Option<String>) -> (r: String)
    ensures
        r@ == match value {
            Some(v) => if v@.len() > 0 { v@ } else { DASH@ },
            None => DASH@,
        },
{
    match value {
        Some(v) => if v.as_str().is_empty() {
            DASH.to_owned()
        } else {
            v
        },
        None => DASH.to_owned(),
    }
}
} // verus!
