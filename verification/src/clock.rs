//! Instants as signed nanoseconds since the Unix epoch (UTC), calendar
//! days as signed day numbers since 1970-01-01, and the few readings of
//! the system clocks that the rest of the library needs.

use vstd::prelude::*;

verus! {

pub const NANOS_PER_SECOND: i128 = 1_000_000_000;

pub const NANOS_PER_MINUTE: i128 = 60_000_000_000;

pub const NANOS_PER_DAY: i128 = 86_400_000_000_000;

/// Largest magnitude of an instant the library works with: that of
/// chrono's earliest date, -262143-01-01 00:00 UTC. Every instant a
/// `DateTime<Utc>` can hold lies within it.
pub const MAX_INSTANT: i128 = 8_334_601_315_200_000_000_000;

/// An instant the library can compute with.
pub open spec fn valid_instant(t: int) -> bool {
    -MAX_INSTANT <= t <= MAX_INSTANT
}

/// The UTC calendar day (days since 1970-01-01) on which an instant falls.
pub open spec fn day_of(t: int) -> int {
    t / (NANOS_PER_DAY as int)
}

/// The first instant (midnight UTC) of a calendar day.
pub open spec fn day_start(d: int) -> int {
    d * (NANOS_PER_DAY as int)
}

/// Whole minutes from `s` to `e`, for `s <= e`.
pub open spec fn whole_minutes(s: int, e: int) -> int {
    (e - s) / (NANOS_PER_MINUTE as int)
}

pub open spec fn spec_min(a: int, b: int) -> int {
    if a <= b { a } else { b }
}

pub open spec fn spec_max(a: int, b: int) -> int {
    if a >= b { a } else { b }
}

/// Calendar day of an instant.
pub fn day_of_instant(t: i128) -> (d: i64)
    requires
        valid_instant(t as int),
    ensures
        d as int == day_of(t as int),
        -100_000_000 <= d <= 100_000_000,
{
    let q = t.checked_div_euclid(NANOS_PER_DAY).unwrap();
    assert(-100_000_000 <= q <= 100_000_000) by (nonlinear_arith)
        requires
            q == t as int / 86_400_000_000_000int,
            -8_334_601_315_200_000_000_000 <= t <= 8_334_601_315_200_000_000_000,
    ;
    q as i64
}

/// Midnight UTC at the start of a calendar day.
pub fn start_of_day(d: i64) -> (t: i128)
    requires
        -100_000_000 <= d <= 100_000_000,
    ensures
        t as int == day_start(d as int),
{
    assert(-100_000_000 * 86_400_000_000_000 <= d * 86_400_000_000_000 <= 100_000_000
        * 86_400_000_000_000) by (nonlinear_arith)
        requires
            -100_000_000 <= d <= 100_000_000,
    ;
    (d as i128) * NANOS_PER_DAY
}

pub fn min_instant(a: i128, b: i128) -> (r: i128)
    ensures
        r as int == spec_min(a as int, b as int),
{
    if a <= b {
        a
    } else {
        b
    }
}

pub fn max_instant(a: i128, b: i128) -> (r: i128)
    ensures
        r as int == spec_max(a as int, b as int),
{
    if a >= b {
        a
    } else {
        b
    }
}

/// An instant within a day's reach of the library's range.
pub open spec fn near_instant(t: int) -> bool {
    -9_000_000_000_000_000_000_000 <= t <= 9_000_000_000_000_000_000_000
}

/// Whole minutes elapsed from `s` to `e`.
pub fn minutes_between(s: i128, e: i128) -> (m: i128)
    requires
        near_instant(s as int),
        near_instant(e as int),
        s <= e,
    ensures
        m as int == whole_minutes(s as int, e as int),
        0 <= m <= 300_000_000_000,
{
    let m = (e - s) / NANOS_PER_MINUTE;
    assert(0 <= m <= 300_000_000_000) by (nonlinear_arith)
        requires
            m == (e - s) / 60_000_000_000int,
            0 <= e - s <= 18_000_000_000_000_000_000_000,
    ;
    m
}

/// The last whole second of the UTC day on which `now` falls
/// (23:59:59.000000000).
pub open spec fn end_of_day(now: int) -> int {
    day_start(day_of(now)) + 86_399 * (NANOS_PER_SECOND as int)
}

/// Makes `std::time::SystemTime` known to the verifier as an opaque type:
/// nothing is claimed of what a value holds.
#[verifier::external_type_specification]
#[verifier::external_body]
pub struct ExSystemTime(std::time::SystemTime);

/// Reads `std::time::SystemTime::now()`. Depends on the system clock, so
/// nothing is claimed of it.
#[verifier::external_body]
fn system_now() -> (r: std::time::SystemTime) {
    std::time::SystemTime::now()
}

/// `SystemTime::duration_since(UNIX_EPOCH)` as whole seconds and the
/// nanoseconds past them: `Ok` with the time elapsed since the epoch, or,
/// for a reading before the epoch, `Err` with how far before it lies (the
/// error's `duration`). `Duration::subsec_nanos` is documented as always
/// below one billion; nothing else is claimed, as the reading depends on
/// the clock.
#[verifier::external_body]
fn since_epoch(t: &std::time::SystemTime) -> (r: Result<(u64, u32), (u64, u32)>)
    ensures
        match r {
            Ok(d) => d.1 < 1_000_000_000,
            Err(d) => d.1 < 1_000_000_000,
        },
{
    match t.duration_since(std::time::UNIX_EPOCH) {
        Ok(d) => Ok((d.as_secs(), d.subsec_nanos())),
        Err(e) => Err((e.duration().as_secs(), e.duration().subsec_nanos())),
    }
}

/// Largest magnitude `utc_now` can return: `u64::MAX` seconds and a
/// fraction, in nanoseconds.
pub const MAX_READING: i128 = 18_446_744_073_709_551_615_999_999_999;

/// The current UTC instant, in nanoseconds since the epoch (negative for
/// a clock set before 1970).
pub fn utc_now() -> (t: i128)
    ensures
        -MAX_READING <= t <= MAX_READING,
{
    let now = system_now();
    match since_epoch(&now) {
        Ok((secs, nanos)) => {
            assert(secs * 1_000_000_000 <= 18_446_744_073_709_551_615 * 1_000_000_000) by (nonlinear_arith)
                requires
                    secs <= 18_446_744_073_709_551_615u64,
            ;
            (secs as i128) * NANOS_PER_SECOND + (nanos as i128)
        },
        Err((secs, nanos)) => {
            assert(secs * 1_000_000_000 <= 18_446_744_073_709_551_615 * 1_000_000_000) by (nonlinear_arith)
                requires
                    secs <= 18_446_744_073_709_551_615u64,
            ;
            -((secs as i128) * NANOS_PER_SECOND + (nanos as i128))
        },
    }
}

/// The end (23:59:59 UTC) of the day on which `now` falls.
pub fn end_of_day_of(now: i128) -> (t: i128)
    requires
        -MAX_READING <= now <= MAX_READING,
    ensures
        t as int == end_of_day(now as int),
{
    let d = now.checked_div_euclid(NANOS_PER_DAY).unwrap();
    assert(-20_000_000_000_000_000_000_000_000_000 <= d * 86_400_000_000_000 <= 20_000_000_000_000_000_000_000_000_000) by (nonlinear_arith)
        requires
            d == now as int / 86_400_000_000_000int,
            -18_446_744_073_709_551_615_999_999_999 <= now <= 18_446_744_073_709_551_615_999_999_999,
    ;
    d * NANOS_PER_DAY + 86_399 * NANOS_PER_SECOND
}

/// The end of the current UTC day: 23:59:59 of today, read from the
/// system clock.
pub fn today_utc() -> (t: i128)
    ensures
        exists|now: int| t as int == end_of_day(now),
{
    let now = utc_now();
    end_of_day_of(now)
}

/// A UTC instant that lies within the library's range, read from the
/// system clock; `None` when the clock reads outside it.
pub fn checked_today_utc() -> (t: Option<i128>)
    ensures
        t matches Some(v) ==> valid_instant(v as int) && exists|now: int| v as int == end_of_day(now),
{
    let t = today_utc();
    if -MAX_INSTANT <= t && t <= MAX_INSTANT {
        Some(t)
    } else {
        None
    }
}

/// Reads `std::time::Instant::now()`.
#[verifier::external_body]
pub(crate) fn monotonic_start() -> (r: std::time::Instant) {
    std::time::Instant::now()
}

/// Makes `std::time::Instant` known to the verifier as an opaque type:
/// nothing is claimed of what a value holds.
#[verifier::external_type_specification]
#[verifier::external_body]
pub struct ExInstant(std::time::Instant);

/// Milliseconds elapsed since `start`, from `Instant::elapsed` and
/// `Duration::as_millis`, narrowed to `u64`. Depends on the clock, so
/// nothing is claimed of it.
#[verifier::external_body]
pub(crate) fn elapsed_millis(start: &std::time::Instant) -> (r: u64) {
    start.elapsed().as_millis() as u64
}

/// Whether `y` is a leap year of the proleptic Gregorian calendar.
pub open spec fn leap_year(y: int) -> bool {
    y % 4 == 0 && (y % 100 != 0 || y % 400 == 0)
}

/// Days in month `m` (1 to 12) of year `y`.
pub open spec fn days_in_month(y: int, m: int) -> int {
    if m == 2 {
        if leap_year(y) {
            29
        } else {
            28
        }
    } else if m == 4 || m == 6 || m == 9 || m == 11 {
        30
    } else {
        31
    }
}

/// Earliest and latest years a `chrono::NaiveDate` holds.
pub const MIN_DATE_YEAR: i32 = -262143;

pub const MAX_DATE_YEAR: i32 = 262142;

/// Days from 1970-01-01 to the date `y`-`m`-`d` of the proleptic
/// Gregorian calendar (negative before 1970): years counted from March,
/// in 400-year eras of 146,097 days.
pub open spec fn days_from_civil(y: int, m: int, d: int) -> int {
    let y1 = if m <= 2 {
        y - 1
    } else {
        y
    };
    let era = y1 / 400;
    let yoe = y1 - era * 400;
    let mp = if m > 2 {
        m - 3
    } else {
        m + 9
    };
    let doy = (153 * mp + 2) / 5 + d - 1;
    let doe = yoe * 365 + yoe / 4 - yoe / 100 + doy;
    era * 146097 + doe - 719468
}

/// The day number of a calendar date, or `None` when the date does not
/// exist or lies outside chrono's range of years.
pub open spec fn civil_day_number(year: i32, month: u32, day: u32) -> Option<i32> {
    if MIN_DATE_YEAR <= year <= MAX_DATE_YEAR && 1 <= month <= 12 && 1 <= day <= days_in_month(
        year as int,
        month as int,
    ) {
        Some(days_from_civil(year as int, month as int, day as int) as i32)
    } else {
        None
    }
}

/// Calls `chrono::NaiveDate::from_ymd_opt` and, for a valid date, its
/// `to_epoch_days`. `from_ymd_opt` gives a date exactly when the month
/// and day exist in that year of the proleptic Gregorian calendar and the
/// year lies in chrono's range; `to_epoch_days` counts days from
/// 1970-01-01. The contract states both through `civil_day_number`.
#[verifier::external_body]
pub(crate) fn civil_day(year: i32, month: u32, day: u32) -> (r: Option<i32>)
    ensures
        r == civil_day_number(year, month, day),
{
    match chrono::NaiveDate::from_ymd_opt(year, month, day) {
        Some(d) => Some(d.to_epoch_days()),
        None => None,
    }
}

/// Name for what `NaiveDate::from_epoch_days` followed by
/// `NaiveDate::format(pattern).to_string()` gives: the formatted calendar
/// date, or `None` when the day number lies outside chrono's range.
pub uninterp spec fn formatted_day(day: i32, pattern: Seq<char>) -> Option<Seq<char>>;

pub open spec fn supported_day_pattern(p: Seq<char>) -> bool {
    p == "%b %-d"@ || p == "%a %b %-d, %Y"@
}

/// Calls `chrono::NaiveDate::from_epoch_days` and formats the date with
/// one of the two patterns this library uses (both valid chrono
/// patterns, so formatting cannot fail). The result is named by
/// `formatted_day`.
#[verifier::external_body]
pub(crate) fn format_day(day: i32, pattern: &str) -> (r: Option<String>)
    requires
        supported_day_pattern(pattern@),
    ensures
        match r {
            Some(s) => formatted_day(day, pattern@) == Some(s@),
            None => formatted_day(day, pattern@) is None,
        },
{
    match chrono::NaiveDate::from_epoch_days(day) {
        Some(d) => Some(d.format(pattern).to_string()),
        None => None,
    }
}

/// Name for what `DateTime::<Utc>::from_timestamp(secs, nanos)` followed
/// by `format(pattern).to_string()` gives: the formatted UTC instant, or
/// `None` when chrono cannot represent the instant.
pub uninterp spec fn formatted_timestamp(secs: i64, nanos: u32, pattern: Seq<char>) -> Option<Seq<char>>;

/// The three instant patterns this library formats with.
pub open spec fn supported_instant_pattern(p: Seq<char>) -> bool {
    p == "%H:%M"@ || p == "%Y-%m-%d %H:%M UTC"@ || p == "%b %-d %H:%M "@
}

/// Calls `chrono::DateTime::<Utc>::from_timestamp` and formats the
/// instant with one of the patterns this library uses (all valid chrono
/// patterns, so formatting cannot fail). The result is named by
/// `formatted_timestamp`.
#[verifier::external_body]
fn format_timestamp(secs: i64, nanos: u32, pattern: &str) -> (r: Option<String>)
    requires
        supported_instant_pattern(pattern@),
    ensures
        match r {
            Some(s) => formatted_timestamp(secs, nanos, pattern@) == Some(s@),
            None => formatted_timestamp(secs, nanos, pattern@) is None,
        },
{
    match chrono::DateTime::<chrono::Utc>::from_timestamp(secs, nanos) {
        Some(d) => Some(d.format(pattern).to_string()),
        None => None,
    }
}

/// Text of instant `t` under `pattern`: its whole seconds and the
/// nanoseconds past them, formatted; empty when chrono cannot represent it.
pub open spec fn instant_text_spec(t: int, pattern: Seq<char>) -> Seq<char> {
    match formatted_timestamp(
        (t / (NANOS_PER_SECOND as int)) as i64,
        (t % (NANOS_PER_SECOND as int)) as u32,
        pattern,
    ) {
        Some(s) => s,
        None => Seq::empty(),
    }
}

/// Formats instant `t` with a supported pattern.
pub fn instant_text(t: i128, pattern: &str) -> (s: String)
    requires
        valid_instant(t as int),
        supported_instant_pattern(pattern@),
    ensures
        s@ == instant_text_spec(t as int, pattern@),
{
    let secs = t.checked_div_euclid(NANOS_PER_SECOND).unwrap();
    let nanos = t.checked_rem_euclid(NANOS_PER_SECOND).unwrap();
    assert(-9_000_000_000_000 <= secs <= 9_000_000_000_000) by (nonlinear_arith)
        requires
            secs == t as int / 1_000_000_000int,
            -8_334_601_315_200_000_000_000 <= t <= 8_334_601_315_200_000_000_000,
    ;
    match format_timestamp(secs as i64, nanos as u32, pattern) {
        Some(s) => s,
        None => String::new(),
    }
}

} // verus!
