//! The header's status line and how old the page is.

use vstd::prelude::*;

use crate::app::App;
use crate::clock::{NANOS_PER_SECOND, near_instant};
use crate::text::{int_string, int_text};
use crate::theme::{ColorRole, indicator_role};

verus! {

/// How long ago something happened, as shown.
#[derive(Debug, Clone, Copy, PartialEq, Eq, Structural)]
pub enum Relative {
    JustNow,
    Seconds(i128),
    Minutes(i128),
    Hours(i128),
}

/// How an age reads: "just now", "12s ago", "5m ago", "3h ago".
pub open spec fn relative_text(r: Relative) -> Seq<char> {
    match r {
        Relative::JustNow => "just now"@,
        Relative::Seconds(n) => int_text(n as int) + "s ago"@,
        Relative::Minutes(n) => int_text(n as int) + "m ago"@,
        Relative::Hours(n) => int_text(n as int) + "h ago"@,
    }
}

impl Relative {
    /// The age as shown.
    pub fn text(&self) -> (s: String)
        ensures
            s@ == relative_text(*self),
    {
        match self {
            Relative::JustNow => String::from_str("just now"),
            Relative::Seconds(n) => int_string(*n).concat("s ago"),
            Relative::Minutes(n) => int_string(*n).concat("m ago"),
            Relative::Hours(n) => int_string(*n).concat("h ago"),
        }
    }
}

/// The header's second line: when the page was last updated.
pub open spec fn updated_line(age: Option<Relative>) -> Seq<char> {
    match age {
        Some(r) => "page updated "@ + relative_text(r),
        None => "page updated never"@,
    }
}

pub fn updated_text(age: Option<Relative>) -> (s: String)
    ensures
        s@ == updated_line(age),
{
    match age {
        Some(r) => String::from_str("page updated ").concat(r.text().as_str()),
        None => String::from_str("page updated never"),
    }
}

/// Age of `t` seen at `now`: "just now" under five seconds (or in the
/// future), then whole seconds, minutes or hours.
pub open spec fn relative_spec(t: int, now: int) -> Relative {
    let d = now - t;
    if d < 5 * NANOS_PER_SECOND {
        Relative::JustNow
    } else {
        let secs = d / (NANOS_PER_SECOND as int);
        if secs < 60 {
            Relative::Seconds(secs as i128)
        } else if secs < 3600 {
            Relative::Minutes((secs / 60) as i128)
        } else {
            Relative::Hours((secs / 3600) as i128)
        }
    }
}

pub fn relative(t: i128, now: i128) -> (r: Relative)
    requires
        near_instant(t as int),
        near_instant(now as int),
    ensures
        r == relative_spec(t as int, now as int),
{
    let d = now - t;
    if d < 5 * NANOS_PER_SECOND {
        return Relative::JustNow;
    }
    let secs = d / NANOS_PER_SECOND;
    if secs < 60 {
        Relative::Seconds(secs)
    } else if secs < 3600 {
        Relative::Minutes(secs / 60)
    } else {
        Relative::Hours(secs / 3600)
    }
}

/// Colour and text of the header's status line: the page indicator and
/// its description once loaded, a muted "Loading…" before.
pub fn status_line(app: &App) -> (r: (ColorRole, String))
    ensures
        match app.summary {
            Some(s) => r.0 == indicator_role(s.status.indicator) && r.1@ == s.status.description@,
            None => r.0 == ColorRole::Muted && r.1@ == "Loading…"@,
        },
{
    match &app.summary {
        Some(s) => (app.theme.indicator_color(s.status.indicator), s.status.description.clone()),
        None => (ColorRole::Muted, String::from_str("Loading…")),
    }
}

/// Age of the page's last update, if a page is loaded.
pub fn page_age(app: &App, now: i128) -> (r: Option<Relative>)
    requires
        app@.wf(),
        near_instant(now as int),
    ensures
        match app.summary {
            Some(s) => r == Some(relative_spec(s.page.updated_at as int, now as int)),
            None => r is None,
        },
{
    match &app.summary {
        Some(s) => Some(relative(s.page.updated_at, now)),
        None => None,
    }
}

} // verus!
