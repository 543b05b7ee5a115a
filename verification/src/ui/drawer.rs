//! The side drawer: its width and how durations read in it.

use vstd::prelude::*;

use crate::clock::{NANOS_PER_MINUTE, valid_instant};
use crate::text::{int_string, int_text, two_digit_string, two_digits};

verus! {

/// Width of the drawer on a screen `w` wide: 40 % of it, kept between 40
/// and 64 columns, and never wider than the screen less two.
pub open spec fn drawer_width_spec(w: int) -> int {
    let pct = w * 40 / 100;
    let clamped = if pct < 40 {
        40
    } else if pct > 64 {
        64
    } else {
        pct
    };
    let limit = if w >= 2 {
        w - 2
    } else {
        0
    };
    if clamped <= limit {
        clamped
    } else {
        limit
    }
}

pub fn drawer_width(w: u16) -> (r: u16)
    ensures
        r as int == drawer_width_spec(w as int),
{
    let pct = (w as u32) * 40 / 100;
    let clamped: u32 = if pct < 40 {
        40
    } else if pct > 64 {
        64
    } else {
        pct
    };
    let limit: u32 = if w >= 2 {
        (w - 2) as u32
    } else {
        0
    };
    let r = if clamped <= limit {
        clamped
    } else {
        limit
    };
    r as u16
}

/// A duration as shown: whole minutes under an hour, else hours and
/// minutes.
#[derive(Debug, Clone, Copy, PartialEq, Eq, Structural)]
pub enum DurationText {
    Minutes(i128),
    HoursMinutes(i128, i128),
}

/// How a duration reads: "42m", or "2h 05m".
pub open spec fn duration_text(d: DurationText) -> Seq<char> {
    match d {
        DurationText::Minutes(m) => int_text(m as int) + "m"@,
        DurationText::HoursMinutes(h, m) => int_text(h as int) + "h "@ + two_digits(m as int) + "m"@,
    }
}

impl DurationText {
    /// The duration as shown.
    pub fn text(&self) -> (s: String)
        ensures
            s@ == duration_text(*self),
    {
        match self {
            DurationText::Minutes(m) => int_string(*m).concat("m"),
            DurationText::HoursMinutes(h, m) => int_string(*h).concat("h ").concat(two_digit_string(*m).as_str()).concat("m"),
        }
    }
}

/// Whole minutes from `start` to `end`, zero when `end` is not later.
pub open spec fn elapsed_minutes(start: int, end: int) -> int {
    if end > start {
        (end - start) / (NANOS_PER_MINUTE as int)
    } else {
        0
    }
}

pub open spec fn duration_text_spec(start: int, end: int) -> DurationText {
    let m = elapsed_minutes(start, end);
    if m < 60 {
        DurationText::Minutes(m as i128)
    } else {
        DurationText::HoursMinutes((m / 60) as i128, (m % 60) as i128)
    }
}

/// How long an incident lasted, from `start` to `end`.
pub fn duration_str(start: i128, end: i128) -> (r: DurationText)
    requires
        valid_instant(start as int),
        valid_instant(end as int),
    ensures
        r == duration_text_spec(start as int, end as int),
{
    let mins = if end > start {
        crate::clock::minutes_between(start, end)
    } else {
        0
    };
    if mins < 60 {
        DurationText::Minutes(mins)
    } else {
        DurationText::HoursMinutes(mins / 60, mins % 60)
    }
}

} // verus!
