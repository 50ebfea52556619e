use vstd::prelude::*;

use chrono::{Datelike, TimeZone, Timelike};

use crate::text::{ decimal_nat, decimal_u64, digit_char, extend_chars, string_of};

verus! {

/// An instant: seconds since the Unix epoch and the nanoseconds within that second
/// (chrono's `timestamp()` and `timestamp_subsec_nanos()`).
#[derive(Debug)]
pub struct Timestamp {
    pub secs: i64,
    pub nanos: u32,
}

/// The instant that `chrono::DateTime::parse_from_rfc2822` reads from the text, if it accepts it.
pub uninterp spec fn spec_rfc2822(raw: Seq<char>) -> Option<(i64, u32)>;

/// The instant that `chrono::DateTime::parse_from_rfc3339` reads from the text, if it accepts it.
pub uninterp spec fn spec_rfc3339(raw: Seq<char>) -> Option<(i64, u32)>;

/// `chrono::DateTime::<Utc>::to_rfc3339` of the instant, if chrono can represent it.
pub uninterp spec fn spec_rfc3339_text(secs: i64, nanos: u32) -> Option<Seq<char>>;

/// The proleptic Gregorian date (year, month, day) of day `z`, counted from
/// 1970-01-01 (day 0), by the usual civil-from-days arithmetic.
pub open spec fn civil_from_days(z: int) -> (int, int, int) {
    let z0 = z + 719468;
    let era = z0 / 146097;
    let doe = z0 - era * 146097;
    let yoe = (doe - doe / 1460 + doe / 36524 - doe / 146096) / 365;
    let doy = doe - (365 * yoe + yoe / 4 - yoe / 100);
    let mp = (5 * doy + 2) / 153;
    let d = doy - (153 * mp + 2) / 5 + 1;
    let m = if mp < 10 {
        mp + 3
    } else {
        mp - 9
    };
    (if m <= 2 {
        yoe + era * 400 + 1
    } else {
        yoe + era * 400
    }, m, d)
}

/// The UTC calendar date and time (year, month, day, hour, minute) of a whole-second
/// timestamp, where chrono can represent it: years -262143 to 262142.
pub open spec fn spec_utc_civil(ts: i64) -> Option<(i32, u32, u32, u32, u32)> {
    let days = ts / 86400;
    let secs = ts % 86400;
    let (y, m, d) = civil_from_days(days as int);
    if -262143 <= y <= 262142 {
        Some((y as i32, m as u32, d as u32, (secs / 3600) as u32, (secs % 3600 / 60) as u32))
    } else {
        None
    }
}

/// Calls `chrono::DateTime::parse_from_rfc2822` and reads the instant.
/// Claims only that the result is the named function of the text.
#[verifier::external_body]
fn chrono_parse_rfc2822(raw: &str) -> (r: Option<Timestamp>)
    ensures
        match r {
            Some(t) => spec_rfc2822(raw@) == Some((t.secs, t.nanos)),
            None => spec_rfc2822(raw@).is_none(),
        },
{
    chrono::DateTime::parse_from_rfc2822(raw).ok().map(
        |dt| Timestamp { secs: dt.timestamp(), nanos: dt.timestamp_subsec_nanos() },
    )
}

/// Calls `chrono::DateTime::parse_from_rfc3339` and reads the instant.
/// Claims only that the result is the named function of the text.
#[verifier::external_body]
fn chrono_parse_rfc3339(raw: &str) -> (r: Option<Timestamp>)
    ensures
        match r {
            Some(t) => spec_rfc3339(raw@) == Some((t.secs, t.nanos)),
            None => spec_rfc3339(raw@).is_none(),
        },
{
    chrono::DateTime::parse_from_rfc3339(raw).ok().map(
        |dt| Timestamp { secs: dt.timestamp(), nanos: dt.timestamp_subsec_nanos() },
    )
}

/// Calls `chrono::DateTime::<Utc>::to_rfc3339` on the instant built by
/// `DateTime::from_timestamp`. Claims only that the result is the named function
/// of the instant.
#[verifier::external_body]
fn chrono_to_rfc3339(secs: i64, nanos: u32) -> (r: Option<String>)
    ensures
        match r {
            Some(s) => spec_rfc3339_text(secs, nanos) == Some(s@),
            None => spec_rfc3339_text(secs, nanos).is_none(),
        },
{
    chrono::DateTime::from_timestamp(secs, nanos).map(|dt| dt.to_rfc3339())
}

/// Calls `chrono::TimeZone::timestamp_opt` for `Utc` and reads the calendar fields.
/// Claims that they are the proleptic Gregorian date and time of the timestamp
/// where its year lies in chrono's range (`NaiveDate::MIN` to `NaiveDate::MAX`),
/// none outside it, and the field ranges that chrono documents (month 1-12, day
/// 1-31, hour 0-23, minute 0-59).
#[verifier::external_body]
pub(crate) fn chrono_utc_civil(ts: i64) -> (r: Option<(i32, u32, u32, u32, u32)>)
    ensures
        r == spec_utc_civil(ts),
        r matches Some(c) ==> 1 <= c.1 <= 12 && 1 <= c.2 <= 31 && c.3 <= 23 && c.4 <= 59,
{
    chrono::Utc.timestamp_opt(ts, 0).single().map(
        |dt| (dt.year(), dt.month(), dt.day(), dt.hour(), dt.minute()),
    )
}

#[verifier::external_type_specification]
#[verifier::external_body]
pub struct ExSystemTime(std::time::SystemTime);

#[verifier::external_type_specification]
#[verifier::external_body]
pub struct ExSystemTimeError(std::time::SystemTimeError);

/// Calls `std::time::SystemTime::now`: the system clock. Nothing is claimed of it.
#[verifier::external_body]
fn system_now() -> (r: std::time::SystemTime) {
    std::time::SystemTime::now()
}

/// Calls `SystemTime::duration_since` with the Unix epoch: how long after the epoch
/// the instant is, or, as the error, that it lies before the epoch. Nothing is
/// claimed of the result.
#[verifier::external_body]
fn since_epoch(t: &std::time::SystemTime) -> (r: Result<core::time::Duration, std::time::SystemTimeError>) {
    t.duration_since(std::time::UNIX_EPOCH)
}

/// Calls `SystemTimeError::duration`: how far before the epoch the instant lies.
/// Nothing is claimed of the result.
#[verifier::external_body]
fn before_epoch(e: &std::time::SystemTimeError) -> (r: core::time::Duration) {
    e.duration()
}

/// Calls `Duration::as_secs`: the whole seconds of the duration. Nothing is claimed
/// of the result.
#[verifier::external_body]
fn whole_secs(d: &core::time::Duration) -> (r: u64) {
    d.as_secs()
}

/// Calls `Duration::subsec_nanos`: the nanoseconds past the whole seconds, which
/// std documents as less than one billion.
#[verifier::external_body]
fn subsec_nanos(d: &core::time::Duration) -> (r: u32)
    ensures
        r < 1_000_000_000,
{
    d.subsec_nanos()
}

/// Milliseconds since the Unix epoch, rounded down, of the instant `secs` seconds
/// and `nanos` nanoseconds after the epoch (`after`) or before it.
pub open spec fn epoch_millis(after: bool, secs: u64, nanos: u32) -> int {
    if after {
        secs * 1000 + nanos / 1_000_000
    } else {
        -(secs * 1000 + (nanos + 999_999) / 1_000_000)
    }
}

/// `x`, or the nearest bound of `i64` where it lies outside.
pub open spec fn clamp_i64(x: int) -> i64 {
    if x > i64::MAX {
        i64::MAX
    } else if x < i64::MIN {
        i64::MIN
    } else {
        x as i64
    }
}

/// The clock as chrono's `Utc::now()` reads it through `timestamp()` and
/// `timestamp_millis()`: seconds and milliseconds since the Unix epoch, rounded
/// down. A clock set before the epoch gives negative values (where chrono panics),
/// and the milliseconds stop at the bounds of `i64`.
pub(crate) fn utc_now() -> (r: (i64, i64))
    ensures
        exists|after: bool, secs: u64, nanos: u32|
            nanos < 1_000_000_000 && r.1 == clamp_i64(#[trigger] epoch_millis(after, secs, nanos)),
        r.0 == r.1 / 1000,
{
    let t = system_now();
    let (after, d) = match since_epoch(&t) {
        Ok(d) => (true, d),
        Err(e) => (false, before_epoch(&e)),
    };
    let s = whole_secs(&d);
    let n = subsec_nanos(&d);
    let m: i128 = if after {
        (s as i128) * 1000 + ((n / 1_000_000) as i128)
    } else {
        0 - ((s as i128) * 1000 + (((n + 999_999) / 1_000_000) as i128))
    };
    assert(m == epoch_millis(after, s, n));
    let ms: i64 = if m > (i64::MAX as i128) {
        i64::MAX
    } else if m < (i64::MIN as i128) {
        i64::MIN
    } else {
        m as i64
    };
    let secs: i64 = if ms >= 0 {
        ms / 1000
    } else {
        let a: i128 = 0 - (ms as i128);
        let q: i128 = (a + 999) / 1000;
        assert(0 - q == (0 - a) / 1000) by (nonlinear_arith)
            requires
                a > 0,
                q == (a + 999) / 1000,
        ;
        (0 - q) as i64
    };
    (secs, ms)
}

/// `parse_datetime`: RFC 2822 first, then RFC 3339.
pub open spec fn parse_datetime_spec(raw: Seq<char>) -> Option<(i64, u32)> {
    match spec_rfc2822(raw) {
        Some(t) => Some(t),
        None => spec_rfc3339(raw),
    }
}

pub fn parse_datetime(raw: &str) -> (r: Option<Timestamp>)
    ensures
        match r {
            Some(t) => parse_datetime_spec(raw@) == Some((t.secs, t.nanos)),
            None => parse_datetime_spec(raw@).is_none(),
        },
{
    match chrono_parse_rfc2822(raw) {
        Some(t) => Some(t),
        None => chrono_parse_rfc3339(raw),
    }
}

/// The RFC 3339 text of an instant (see `spec_rfc3339_text`).
pub fn rfc3339_text(t: &Timestamp) -> (r: Option<String>)
    ensures
        match r {
            Some(s) => spec_rfc3339_text(t.secs, t.nanos) == Some(s@),
            None => spec_rfc3339_text(t.secs, t.nanos).is_none(),
        },
{
    chrono_to_rfc3339(t.secs, t.nanos)
}

/// `n` in at least four digits, zero-padded on the left.
pub open spec fn pad4(n: nat) -> Seq<char> {
    let d = decimal_nat(n);
    if d.len() < 4 {
        Seq::new((4 - d.len()) as nat, |i: int| '0') + d
    } else {
        d
    }
}

/// How chrono writes `%Y`: four digits (zero-padded) for years 0 to 9999,
/// with a sign otherwise.
pub open spec fn year_text(y: int) -> Seq<char> {
    if y < 0 {
        seq!['-'] + pad4((-y) as nat)
    } else if y >= 10000 {
        seq!['+'] + pad4(y as nat)
    } else {
        pad4(y as nat)
    }
}

/// Two digits of a value below 100 (`%m`, `%d`, `%H`, `%M`).
pub open spec fn two_digits(v: nat) -> Seq<char> {
    seq![digit_char(v / 10), digit_char(v % 10)]
}

/// `%Y-%m-%d %H:%M` of a UTC calendar time.
pub open spec fn minute_text(c: (i32, u32, u32, u32, u32)) -> Seq<char> {
    year_text(c.0 as int) + seq!['-'] + two_digits(c.1 as nat) + seq!['-'] + two_digits(c.2 as nat)
        + seq![' '] + two_digits(c.3 as nat) + seq![':'] + two_digits(c.4 as nat)
}

/// `format_time`: `%Y-%m-%d %H:%M` in UTC, or `unknown` where there is no time or
/// chrono cannot represent it.
pub open spec fn format_time_spec(ts: Option<i64>) -> Seq<char> {
    match ts {
        Some(v) => match spec_utc_civil(v) {
            Some(c) => minute_text(c),
            None => "unknown"@,
        },
        None => "unknown"@,
    }
}

fn pad4_exec(n: u64) -> (r: Vec<char>)
    ensures
        r@ == pad4(n as nat),
{
    let d = decimal_u64(n);
    if d.len() < 4 {
        let mut r: Vec<char> = Vec::new();
        let k = 4 - d.len();
        let mut i: usize = 0;
        while i < k
            invariant
                i <= k,
                r@ == Seq::new(i as nat, |j: int| '0'),
            decreases k - i,
        {
            r.push('0');
            assert(r@ =~= Seq::new((i + 1) as nat, |j: int| '0'));
            i = i + 1;
        }
        extend_chars(&mut r, &d);
        r
    } else {
        d
    }
}

fn push_two(r: &mut Vec<char>, v: u32)
    requires
        v < 100,
    ensures
        final(r)@ == old(r)@ + two_digits(v as nat),
{
    let ghost before = r@;
    r.push(((v / 10) as u8 + 48) as char);
    r.push(((v % 10) as u8 + 48) as char);
    assert(r@ =~= before + two_digits(v as nat));
}

/// Formats an optional timestamp as `%Y-%m-%d %H:%M` (UTC), or `unknown`.
pub fn format_time(ts: Option<i64>) -> (r: String)
    ensures
        r@ == format_time_spec(ts),
{
    match ts {
        Some(v) => match chrono_utc_civil(v) {
            Some(c) => {
                let (y, mo, d, h, mi) = c;
                let mut r: Vec<char> = Vec::new();
                if y < 0 {
                    r.push('-');
                    let p = pad4_exec((0i64 - (y as i64)) as u64);
                    extend_chars(&mut r, &p);
                } else if y >= 10000 {
                    r.push('+');
                    let p = pad4_exec(y as u64);
                    extend_chars(&mut r, &p);
                } else {
                    r = pad4_exec(y as u64);
                }
                assert(r@ == year_text(y as int));
                r.push('-');
                push_two(&mut r, mo);
                r.push('-');
                push_two(&mut r, d);
                r.push(' ');
                push_two(&mut r, h);
                r.push(':');
                push_two(&mut r, mi);
                assert(r@ =~= minute_text(c));
                string_of(&r)
            },
            None => String::from_str("unknown"),
        },
        None => String::from_str("unknown"),
    }
}

} // verus!
