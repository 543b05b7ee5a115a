//! The detail modal: its title, what it looks up, and how large it is
//! drawn for its content.

use vstd::prelude::*;

use crate::api::{Incident, IncidentUpdate};
use crate::app::{App, ModalTarget};
use crate::bars::{DayStatus, WINDOW_DAYS, date_for_day, window_start_day};
use crate::clock::{day_of, day_of_instant, format_day, formatted_day, instant_text, instant_text_spec, valid_instant};
use crate::ui::drawer::{duration_str, duration_text, duration_text_spec};
use crate::sorting::{
    identity_order, index_range, key_le, lemma_key_le_total, lemma_sort_by_sorted, sort_by, stable_sort_indices,
};
use crate::theme::ColorRole;

verus! {

pub open spec fn modal_title_text(t: ModalTarget) -> Seq<char> {
    match t {
        ModalTarget::Empty => "Details"@,
        ModalTarget::Incident(_) => "Incident detail"@,
        ModalTarget::Day { .. } => "Day detail"@,
    }
}

/// Title of the modal for its target.
pub fn modal_title(app: &App) -> (t: &'static str)
    ensures
        t@ == modal_title_text(app.modal_target),
{
    match &app.modal_target {
        ModalTarget::Empty => "Details",
        ModalTarget::Incident(_) => "Incident detail",
        ModalTarget::Day { .. } => "Day detail",
    }
}

/// Incidents the modal can show: the incidents, then the scheduled
/// maintenances.
pub open spec fn modal_incidents(app: App) -> Seq<Incident> {
    match app.summary {
        Some(s) => s.incidents@ + s.scheduled_maintenances@,
        None => Seq::empty(),
    }
}

/// Index of the first incident with this id.
pub open spec fn first_with_id(s: Seq<Incident>, id: Seq<char>) -> Option<int>
    decreases s.len(),
{
    if s.len() == 0 {
        None
    } else {
        match first_with_id(s.drop_last(), id) {
            Some(i) => Some(i),
            None => if s.last().id@ == id {
                Some(s.len() - 1)
            } else {
                None
            },
        }
    }
}

proof fn lemma_first_prefix(s: Seq<Incident>, id: Seq<char>, k: int)
    requires
        0 <= k <= s.len(),
        first_with_id(s.take(k), id) is Some,
    ensures
        first_with_id(s, id) == first_with_id(s.take(k), id),
    decreases s.len() - k,
{
    if k < s.len() {
        assert(s.take(k + 1).drop_last() =~= s.take(k));
        lemma_first_prefix(s, id, k + 1);
    } else {
        assert(s.take(k) =~= s);
    }
}

/// The incident (or maintenance) with this id, if loaded.
pub fn lookup_incident<'a>(app: &'a App, id: &String) -> (r: Option<&'a Incident>)
    ensures
        match r {
            Some(inc) => first_with_id(modal_incidents(*app), id@) is Some && *inc == modal_incidents(
                *app,
            )[first_with_id(modal_incidents(*app), id@)->0],
            None => first_with_id(modal_incidents(*app), id@) is None,
        },
{
    let s = match &app.summary {
        Some(s) => s,
        None => return None,
    };
    let ghost all = modal_incidents(*app);
    let ghost n1 = s.incidents@.len();
    let mut i: usize = 0;
    assert(all.take(0) =~= Seq::<Incident>::empty());
    while i < s.incidents.len()
        invariant
            i <= n1,
            n1 == s.incidents@.len(),
            all == s.incidents@ + s.scheduled_maintenances@,
            all == modal_incidents(*app),
            first_with_id(all.take(i as int), id@) is None,
        decreases n1 - i,
    {
        let inc = &s.incidents[i];
        assert(*inc == all[i as int]);
        assert(all.take(i + 1).drop_last() =~= all.take(i as int));
        if inc.id == *id {
            proof {
                assert(all.take(i + 1).last() == all[i as int]);
                assert(first_with_id(all.take(i + 1), id@) == Some(i as int));
                lemma_first_prefix(all, id@, i + 1);
            }
            return Some(inc);
        }
        i = i + 1;
    }
    let mut j: usize = 0;
    while j < s.scheduled_maintenances.len()
        invariant
            j <= s.scheduled_maintenances@.len(),
            n1 == s.incidents@.len(),
            all == s.incidents@ + s.scheduled_maintenances@,
            all == modal_incidents(*app),
            first_with_id(all.take(n1 + j), id@) is None,
        decreases s.scheduled_maintenances@.len() - j,
    {
        let inc = &s.scheduled_maintenances[j];
        assert(*inc == all[n1 + j]);
        assert(all.take(n1 + j + 1).drop_last() =~= all.take(n1 + j));
        if inc.id == *id {
            proof {
                assert(all.take(n1 + j + 1).last() == all[n1 + j]);
                assert(first_with_id(all.take(n1 + j + 1), id@) == Some(n1 + j));
                lemma_first_prefix(all, id@, n1 + j + 1);
            }
            return Some(inc);
        }
        j = j + 1;
    }
    assert(all.take(n1 + j) =~= all);
    None
}

// ---------------------------------------------------------------------
// Sizing
// ---------------------------------------------------------------------

/// Index of the first newline in `s` at or after `i`, or the length of
/// `s` when there is none.
pub open spec fn next_newline(s: Seq<char>, i: int) -> int
    decreases s.len() - i,
{
    if i >= s.len() {
        s.len() as int
    } else if s[i] == '\n' {
        i
    } else {
        next_newline(s, i + 1)
    }
}

/// From a position inside `s`, the next newline is at or after it.
pub proof fn lemma_next_newline_range(s: Seq<char>, i: int)
    requires
        0 <= i <= s.len(),
    ensures
        i <= next_newline(s, i) <= s.len(),
    decreases s.len() - i,
{
    if i < s.len() && s[i] != '\n' {
        lemma_next_newline_range(s, i + 1);
    }
}

/// `line` without one carriage return at its end.
pub open spec fn without_cr(line: Seq<char>) -> Seq<char> {
    if line.len() > 0 && line.last() == '\r' {
        line.drop_last()
    } else {
        line
    }
}

/// The lines of `s` as `str::lines` yields them: split at each newline,
/// with a carriage return just before a newline dropped along with it,
/// and no empty line after a final newline.
pub open spec fn lines_of(s: Seq<char>) -> Seq<Seq<char>>
    decreases s.len(),
{
    if s.len() == 0 {
        Seq::empty()
    } else {
        let k = next_newline(s, 0);
        if k >= s.len() {
            seq![s]
        } else {
            proof {
                lemma_next_newline_range(s, 0);
            }
            seq![without_cr(s.take(k))] + lines_of(s.skip(k + 1))
        }
    }
}

/// Calls `str::lines` and collects each line. As documented, the text is
/// split at line endings, each a newline or a carriage return followed by
/// a newline; the endings are not part of the lines, and a final line
/// ending is optional. `lines_of` states this.
#[verifier::external_body]
fn split_lines(s: &str) -> (r: Vec<String>)
    ensures
        r@.map_values(|l: String| l@) == lines_of(s@),
{
    s.lines().map(|l| l.to_string()).collect()
}

/// Wrapped rows of one body line at `budget` columns (at least one).
pub open spec fn line_rows(len: int, budget: int) -> int {
    let r = (len + budget - 1) / budget;
    if r < 1 {
        1
    } else {
        r
    }
}

pub open spec fn body_rows(lines: Seq<Seq<char>>, budget: int) -> int
    decreases lines.len(),
{
    if lines.len() == 0 {
        0
    } else {
        body_rows(lines.drop_last(), budget) + line_rows(lines.last().len() as int, budget)
    }
}

/// Rows of the updates section: its heading, then per update a status
/// line, its wrapped body and a blank line.
pub open spec fn updates_rows(us: Seq<crate::api::IncidentUpdate>, budget: int) -> int
    decreases us.len(),
{
    if us.len() == 0 {
        1
    } else {
        updates_rows(us.drop_last(), budget) + 2 + body_rows(lines_of(us.last().body@), budget)
    }
}

/// Column budget for update bodies in a modal `width_budget` wide.
pub open spec fn body_budget(width_budget: int) -> int {
    let b = if width_budget >= 4 {
        width_budget - 4
    } else {
        0
    };
    if b < 40 {
        40
    } else {
        b
    }
}

/// Preferred (width, content height) of an incident modal: 90 columns,
/// the eight-line header plus the updates section (at least two lines),
/// the height taken modulo 2^16; (60, 8) when the incident is not found.
pub open spec fn incident_size_spec(app: App, id: Seq<char>, width_budget: int) -> (int, int) {
    match first_with_id(modal_incidents(app), id) {
        None => (60, 8),
        Some(i) => {
            let u = updates_rows(modal_incidents(app)[i].incident_updates@, body_budget(width_budget));
            (90, (8 + if u < 2 {
                2
            } else {
                u
            }) % 65536)
        },
    }
}

fn body_rows_exec(body: &String, budget: usize) -> (r: usize)
    requires
        budget >= 40,
        body_rows(lines_of(body@), budget as int) <= usize::MAX,
    ensures
        r as int == body_rows(lines_of(body@), budget as int),
{
    let lines = split_lines(body.as_str());
    let ghost ls = lines_of(body@);
    let mut total: usize = 0;
    let mut k: usize = 0;
    assert(ls.take(0) =~= Seq::<Seq<char>>::empty());
    while k < lines.len()
        invariant
            k <= lines@.len(),
            budget >= 40,
            lines@.map_values(|l: String| l@) == ls,
            ls == lines_of(body@),
            body_rows(ls, budget as int) <= usize::MAX,
            total as int == body_rows(ls.take(k as int), budget as int),
        decreases lines@.len() - k,
    {
        let len = lines[k].as_str().unicode_len();
        assert(ls[k as int] == lines@[k as int]@);
        assert(ls.take(k + 1).drop_last() =~= ls.take(k as int));
        let wide = (len as u128 + budget as u128 - 1) / (budget as u128);
        let wide = if wide < 1 {
            1
        } else {
            wide
        };
        proof {
            lemma_body_rows_prefix(ls, budget as int, k + 1);
        }
        let rows = wide as usize;
        total = total + rows;
        k = k + 1;
    }
    assert(ls.take(k as int) =~= ls);
    total
}

proof fn lemma_body_rows_prefix(ls: Seq<Seq<char>>, budget: int, k: int)
    requires
        0 <= k <= ls.len(),
        budget >= 1,
    ensures
        body_rows(ls.take(k), budget) <= body_rows(ls, budget),
    decreases ls.len() - k,
{
    if k < ls.len() {
        lemma_body_rows_prefix(ls, budget, k + 1);
        assert(ls.take(k + 1).drop_last() =~= ls.take(k));
    } else {
        assert(ls.take(k) =~= ls);
    }
}

proof fn lemma_updates_rows_prefix(us: Seq<crate::api::IncidentUpdate>, budget: int, k: int)
    requires
        0 <= k <= us.len(),
        budget >= 1,
    ensures
        updates_rows(us.take(k), budget) <= updates_rows(us, budget),
        body_rows(lines_of(us[k].body@), budget) >= 0 || k == us.len(),
    decreases us.len() - k,
{
    if k < us.len() {
        lemma_updates_rows_prefix(us, budget, k + 1);
        assert(us.take(k + 1).drop_last() =~= us.take(k));
        lemma_body_rows_nonneg(lines_of(us[k].body@), budget);
    } else {
        assert(us.take(k) =~= us);
    }
}

proof fn lemma_body_rows_nonneg(ls: Seq<Seq<char>>, budget: int)
    requires
        budget >= 1,
    ensures
        body_rows(ls, budget) >= 0,
    decreases ls.len(),
{
    if ls.len() > 0 {
        lemma_body_rows_nonneg(ls.drop_last(), budget);
    }
}

/// What the incident modal's size computation must hold to stay within
/// `usize`.
pub open spec fn incident_size_fits(app: App, id: Seq<char>, width_budget: int) -> bool {
    match first_with_id(modal_incidents(app), id) {
        None => true,
        Some(i) => updates_rows(modal_incidents(app)[i].incident_updates@, body_budget(width_budget)) + 8
            <= usize::MAX,
    }
}

pub fn incident_size(app: &App, id: &String, width_budget: u16) -> (r: (u16, u16))
    requires
        incident_size_fits(*app, id@, width_budget as int),
    ensures
        r.0 as int == incident_size_spec(*app, id@, width_budget as int).0,
        r.1 as int == incident_size_spec(*app, id@, width_budget as int).1,
{
    let inc = match lookup_incident(app, id) {
        Some(inc) => inc,
        None => return (60, 8),
    };
    let b = if width_budget >= 4 {
        width_budget - 4
    } else {
        0
    };
    let budget: usize = if b < 40 {
        40
    } else {
        b as usize
    };
    let us = &inc.incident_updates;
    let ghost total_rows = updates_rows(us@, budget as int);
    let mut h: usize = 1;
    let mut k: usize = 0;
    assert(us@.take(0) =~= Seq::<crate::api::IncidentUpdate>::empty());
    while k < us.len()
        invariant
            k <= us@.len(),
            budget >= 40,
            budget as int == body_budget(width_budget as int),
            total_rows == updates_rows(us@, budget as int),
            total_rows + 8 <= usize::MAX,
            h as int == updates_rows(us@.take(k as int), budget as int),
        decreases us@.len() - k,
    {
        proof {
            lemma_updates_rows_prefix(us@, budget as int, k + 1);
            assert(us@.take(k + 1).drop_last() =~= us@.take(k as int));
            assert(us@.take(k + 1).last() == us@[k as int]);
            lemma_body_rows_nonneg(lines_of(us@[k as int].body@), budget as int);
        }
        let rows = body_rows_exec(&us[k].body, budget);
        h = h + 2 + rows;
        k = k + 1;
    }
    assert(us@.take(k as int) =~= us@);
    let u = if h < 2 {
        2
    } else {
        h
    };
    let total = 8 + u;
    (90, (total % 65536) as u16)
}

/// The incident spans calendar day `date`; an open incident runs to `now`.
pub open spec fn on_day(inc: Incident, date: int, now: int) -> bool {
    let end = match inc.resolved_at {
        Some(t) => t as int,
        None => now,
    };
    day_of(inc.started_at as int) <= date <= day_of(end)
}

/// The incidents of `s` that span calendar day `date`, in order.
pub open spec fn incidents_on(s: Seq<Incident>, date: int, now: int) -> Seq<Incident> {
    s.filter(|i: Incident| on_day(i, date, now))
}

/// Incidents and maintenances spanning calendar day `date`, in order.
pub fn incidents_on_day<'a>(app: &'a App, date: i64, now: i128) -> (r: Vec<&'a Incident>)
    requires
        app@.wf(),
        valid_instant(now as int),
    ensures
        r@.len() == incidents_on(modal_incidents(*app), date as int, now as int).len(),
        forall|k: int|
            0 <= k < r@.len() ==> *r@[k] == incidents_on(modal_incidents(*app), date as int, now as int)[k],
{
    let mut r: Vec<&'a Incident> = Vec::new();
    let s = match &app.summary {
        Some(s) => s,
        None => return r,
    };
    let ghost all = modal_incidents(*app);
    let ghost n1 = s.incidents@.len();
    let ghost pred = |i: Incident| on_day(i, date as int, now as int);
    let mut i: usize = 0;
    assert(all.take(0) =~= Seq::<Incident>::empty());
    assert(all.take(0).filter(pred) =~= Seq::<Incident>::empty());
    while i < s.incidents.len()
        invariant
            i <= n1,
            n1 == s.incidents@.len(),
            all == s.incidents@ + s.scheduled_maintenances@,
            s.times_valid(),
            valid_instant(now as int),
            pred == (|i: Incident| on_day(i, date as int, now as int)),
            r@.len() == all.take(i as int).filter(pred).len(),
            forall|k: int| 0 <= k < r@.len() ==> *r@[k] == all.take(i as int).filter(pred)[k],
        decreases n1 - i,
    {
        assert(s.incidents@[i as int].times_valid());
        let inc = &s.incidents[i];
        assert(*inc == all[i as int]);
        proof {
            assert(all.take(i + 1) =~= all.take(i as int).push(*inc));
            all.take(i as int).lemma_filter_push(*inc, pred);
        }
        if spans_day(inc, date, now) {
            r.push(inc);
        }
        i = i + 1;
    }
    let mut j: usize = 0;
    while j < s.scheduled_maintenances.len()
        invariant
            j <= s.scheduled_maintenances@.len(),
            n1 == s.incidents@.len(),
            all == s.incidents@ + s.scheduled_maintenances@,
            s.times_valid(),
            valid_instant(now as int),
            pred == (|i: Incident| on_day(i, date as int, now as int)),
            r@.len() == all.take(n1 + j).filter(pred).len(),
            forall|k: int| 0 <= k < r@.len() ==> *r@[k] == all.take(n1 + j).filter(pred)[k],
        decreases s.scheduled_maintenances@.len() - j,
    {
        assert(s.scheduled_maintenances@[j as int].times_valid());
        let inc = &s.scheduled_maintenances[j];
        assert(*inc == all[n1 + j]);
        proof {
            assert(all.take(n1 + j + 1) =~= all.take(n1 + j).push(*inc));
            all.take(n1 + j).lemma_filter_push(*inc, pred);
        }
        if spans_day(inc, date, now) {
            r.push(inc);
        }
        j = j + 1;
    }
    assert(all.take(n1 + j) =~= all);
    r
}

/// Whether the incident spans calendar day `date` (an open one running
/// to `now`).
fn spans_day(inc: &Incident, date: i64, now: i128) -> (b: bool)
    requires
        inc.times_valid(),
        valid_instant(now as int),
    ensures
        b == on_day(*inc, date as int, now as int),
{
    let end = match inc.resolved_at {
        Some(t) => t,
        None => now,
    };
    let started = day_of_instant(inc.started_at);
    let ended = day_of_instant(end);
    started <= date && date <= ended
}

/// Preferred (width, content height) of a day modal: 70 columns, six
/// header lines plus one per incident on the day (at least one); (60, 8)
/// for a row that does not exist.
pub open spec fn day_size_spec(app: App, row: int, day: int, today: int, now: int) -> (int, int) {
    if row >= app.bars@.len() {
        (60, 8)
    } else {
        let m = incidents_on(modal_incidents(app), window_start_day(today) + day, now).len() as int;
        (70, 6 + ((if m < 1 {
            1
        } else {
            m
        }) % 65536))
    }
}

pub open spec fn day_size_fits(app: App, day: int, today: int, now: int) -> bool {
    let m = incidents_on(modal_incidents(app), window_start_day(today) + day, now).len() as int;
    6 + ((if m < 1 {
        1
    } else {
        m
    }) % 65536) <= u16::MAX
}

pub fn day_size(app: &App, row: usize, day: usize, today: i128, now: i128) -> (r: (u16, u16))
    requires
        app@.wf(),
        valid_instant(today as int),
        valid_instant(now as int),
        day <= 100_000_000,
        day_size_fits(*app, day as int, today as int, now as int),
    ensures
        r.0 as int == day_size_spec(*app, row as int, day as int, today as int, now as int).0,
        r.1 as int == day_size_spec(*app, row as int, day as int, today as int, now as int).1,
{
    if row >= app.bars.len() {
        return (60, 8);
    }
    let date = date_for_day(today, day);
    let matching = incidents_on_day(app, date, now).len();
    let m = if matching < 1 {
        1
    } else {
        matching
    };
    (70, 6 + ((m % 65536) as u16))
}

pub open spec fn sat_sub16(a: int, b: int) -> int {
    if a >= b {
        a - b
    } else {
        0
    }
}

/// Modal size for a viewport `area_w` by `area_h`: the content's
/// preference plus two lines of border, held to the viewport less a
/// margin of four (a limit never below 40 by 8), and never larger than
/// the viewport itself.
pub open spec fn fit_size(pref_w: int, content_h: int, area_w: int, area_h: int) -> (int, int) {
    let max_w = if sat_sub16(area_w, 4) < 40 {
        40
    } else {
        sat_sub16(area_w, 4)
    };
    let max_h = if sat_sub16(area_h, 4) < 8 {
        8
    } else {
        sat_sub16(area_h, 4)
    };
    let h2 = if content_h + 2 > u16::MAX {
        u16::MAX as int
    } else {
        content_h + 2
    };
    let w = if pref_w < max_w {
        pref_w
    } else {
        max_w
    };
    let h = if h2 < max_h {
        h2
    } else {
        max_h
    };
    (if w < area_w {
        w
    } else {
        area_w
    }, if h < area_h {
        h
    } else {
        area_h
    })
}

pub open spec fn max_w_of(area_w: int) -> int {
    if sat_sub16(area_w, 4) < 40 {
        40
    } else {
        sat_sub16(area_w, 4)
    }
}

/// Preferred (width, content height) for the modal's target.
pub open spec fn content_size(app: App, area_w: int, today: int, now: int) -> (int, int) {
    match app.modal_target {
        ModalTarget::Empty => (50, 4),
        ModalTarget::Incident(id) => incident_size_spec(app, id@, max_w_of(area_w)),
        ModalTarget::Day { row, day } => day_size_spec(app, row as int, day as int, today, now),
    }
}

pub open spec fn content_fits(app: App, area_w: int, today: int, now: int) -> bool {
    match app.modal_target {
        ModalTarget::Empty => true,
        ModalTarget::Incident(id) => incident_size_fits(app, id@, max_w_of(area_w)),
        ModalTarget::Day { row, day } => day <= 100_000_000 && day_size_fits(app, day as int, today, now),
    }
}

/// Size of the modal drawn in a viewport `area_w` by `area_h`.
pub fn desired_size(app: &App, area_w: u16, area_h: u16, today: i128, now: i128) -> (r: (u16, u16))
    requires
        app@.wf(),
        valid_instant(today as int),
        valid_instant(now as int),
        content_fits(*app, area_w as int, today as int, now as int),
    ensures
        ({
            let c = content_size(*app, area_w as int, today as int, now as int);
            let f = fit_size(c.0, c.1, area_w as int, area_h as int);
            r.0 as int == f.0 && r.1 as int == f.1
        }),
        r.0 <= area_w && r.1 <= area_h,
{
    let sw = if area_w >= 4 {
        area_w - 4
    } else {
        0
    };
    let max_w = if sw < 40 {
        40
    } else {
        sw
    };
    let sh = if area_h >= 4 {
        area_h - 4
    } else {
        0
    };
    let max_h = if sh < 8 {
        8
    } else {
        sh
    };
    let (pref_w, content_h) = match &app.modal_target {
        ModalTarget::Empty => (50u16, 4u16),
        ModalTarget::Incident(id) => incident_size(app, id, max_w),
        ModalTarget::Day { row, day } => day_size(app, *row, *day, today, now),
    };
    let w = if pref_w < max_w {
        pref_w
    } else {
        max_w
    };
    let h2: u16 = if content_h as u32 + 2 > 65535 {
        65535
    } else {
        content_h + 2
    };
    let h = if h2 < max_h {
        h2
    } else {
        max_h
    };
    (if w < area_w {
        w
    } else {
        area_w
    }, if h < area_h {
        h
    } else {
        area_h
    })
}

/// Whether the modal's size can be computed (the content's row counts
/// stay within machine integers), with `desired_size` when it can.
pub fn checked_desired_size(app: &App, area_w: u16, area_h: u16, today: i128, now: i128) -> (r: Option<(u16, u16)>)
    requires
        app@.wf(),
        valid_instant(today as int),
        valid_instant(now as int),
    ensures
        match r {
            Some(v) => content_fits(*app, area_w as int, today as int, now as int) && ({
                let c = content_size(*app, area_w as int, today as int, now as int);
                let f = fit_size(c.0, c.1, area_w as int, area_h as int);
                v.0 as int == f.0 && v.1 as int == f.1
            }),
            None => !content_fits(*app, area_w as int, today as int, now as int),
        },
{
    if content_fits_exec(app, area_w, today, now) {
        Some(desired_size(app, area_w, area_h, today, now))
    } else {
        None
    }
}

fn content_fits_exec(app: &App, area_w: u16, today: i128, now: i128) -> (b: bool)
    requires
        app@.wf(),
        valid_instant(today as int),
        valid_instant(now as int),
    ensures
        b == content_fits(*app, area_w as int, today as int, now as int),
{
    let sw = if area_w >= 4 {
        area_w - 4
    } else {
        0
    };
    let max_w = if sw < 40 {
        40
    } else {
        sw
    };
    match &app.modal_target {
        ModalTarget::Empty => true,
        ModalTarget::Incident(id) => incident_fits_exec(app, id, max_w),
        ModalTarget::Day { row, day } => {
            if *day > 100_000_000 {
                return false;
            }
            let date = date_for_day(today, *day);
            let matching = incidents_on_day(app, date, now).len();
            let m = if matching < 1 {
                1
            } else {
                matching
            };
            6 + (m % 65536) <= 65535
        },
    }
}

fn incident_fits_exec(app: &App, id: &String, width_budget: u16) -> (b: bool)
    ensures
        b == incident_size_fits(*app, id@, width_budget as int),
{
    let inc = match lookup_incident(app, id) {
        Some(inc) => inc,
        None => return true,
    };
    let b = if width_budget >= 4 {
        width_budget - 4
    } else {
        0
    };
    let budget: usize = if b < 40 {
        40
    } else {
        b as usize
    };
    let us = &inc.incident_updates;
    let limit: u128 = (usize::MAX - 8) as u128;
    let mut h: u128 = 1;
    let mut k: usize = 0;
    assert(us@.take(0) =~= Seq::<crate::api::IncidentUpdate>::empty());
    while k < us.len()
        invariant
            k <= us@.len(),
            budget >= 40,
            budget as int == body_budget(width_budget as int),
            limit == usize::MAX - 8,
            incident_size_fits(*app, id@, width_budget as int) <==> updates_rows(us@, budget as int)
                <= limit,
            h as int == updates_rows(us@.take(k as int), budget as int),
            h <= limit,
        decreases us@.len() - k,
    {
        assert(us@.take(k + 1).drop_last() =~= us@.take(k as int));
        assert(us@.take(k + 1).last() == us@[k as int]);
        let add = body_rows_capped(&us[k].body, budget, limit);
        match add {
            Some(rows) => {
                if h + 2 + rows > limit {
                    proof {
                        lemma_updates_rows_prefix(us@, budget as int, k + 1);
                    }
                    return false;
                }
                h = h + 2 + rows;
            },
            None => {
                proof {
                    lemma_updates_rows_prefix(us@, budget as int, k + 1);
                }
                return false;
            },
        }
        k = k + 1;
    }
    assert(us@.take(k as int) =~= us@);
    true
}

/// Wrapped rows of a body, or `None` once they exceed `limit`.
fn body_rows_capped(body: &String, budget: usize, limit: u128) -> (r: Option<u128>)
    requires
        budget >= 40,
    ensures
        match r {
            Some(v) => v as int == body_rows(lines_of(body@), budget as int) && v <= limit,
            None => body_rows(lines_of(body@), budget as int) > limit,
        },
{
    let lines = split_lines(body.as_str());
    let ghost ls = lines_of(body@);
    let mut total: u128 = 0;
    let mut k: usize = 0;
    assert(ls.take(0) =~= Seq::<Seq<char>>::empty());
    while k < lines.len()
        invariant
            k <= lines@.len(),
            budget >= 40,
            lines@.map_values(|l: String| l@) == ls,
            ls == lines_of(body@),
            total as int == body_rows(ls.take(k as int), budget as int),
            total <= limit,
        decreases lines@.len() - k,
    {
        let len = lines[k].as_str().unicode_len();
        assert(ls[k as int] == lines@[k as int]@);
        assert(ls.take(k + 1).drop_last() =~= ls.take(k as int));
        let rows = (len as u128 + budget as u128 - 1) / (budget as u128);
        let rows = if rows < 1 {
            1
        } else {
            rows
        };
        if rows > limit - total {
            proof {
                lemma_body_rows_prefix(ls, budget as int, k + 1);
            }
            return None;
        }
        total = total + rows;
        k = k + 1;
    }
    assert(ls.take(k as int) =~= ls);
    Some(total)
}

// ---------------------------------------------------------------------
// Incident detail
// ---------------------------------------------------------------------

/// Sort keys that put the most recently shown update first.
pub open spec fn newest_first_keys(us: Seq<IncidentUpdate>) -> Seq<i128> {
    us.map_values(|u: IncidentUpdate| (-(u.shown_at() as int)) as i128)
}

/// Order in which the incident detail lists the updates: by when each was
/// shown as posted, newest first, updates shown at the same instant kept
/// in their order. The result holds indices into `incident_updates`.
pub fn updates_newest_first(inc: &Incident) -> (r: Vec<usize>)
    requires
        inc.times_valid(),
    ensures
        r@ == sort_by(
            identity_order(inc.incident_updates@.len()),
            key_le(newest_first_keys(inc.incident_updates@)),
        ),
        forall|k: int| 0 <= k < r@.len() ==> (#[trigger] r@[k]) < inc.incident_updates@.len(),
        r@.len() == inc.incident_updates@.len(),
        forall|i: int, j: int|
            0 <= i < j < r@.len() ==> inc.incident_updates@[#[trigger] r@[i] as int].shown_at()
                >= inc.incident_updates@[#[trigger] r@[j] as int].shown_at(),
{
    let us = &inc.incident_updates;
    let n = us.len();
    let mut keys: Vec<i128> = Vec::new();
    let mut k: usize = 0;
    while k < n
        invariant
            n == us@.len(),
            k <= n,
            inc.times_valid(),
            us == &inc.incident_updates,
            keys@ == newest_first_keys(us@.take(k as int)),
        decreases n - k,
    {
        assert(us@[k as int].times_valid());
        let t = us[k].shown_at_exec();
        keys.push(-t);
        assert(us@.take(k + 1) =~= us@.take(k as int).push(us@[k as int]));
        assert(newest_first_keys(us@.take(k + 1)) =~= newest_first_keys(us@.take(k as int)).push(
            (-(us@[k as int].shown_at() as int)) as i128,
        ));
        k = k + 1;
    }
    assert(us@.take(n as int) =~= us@);
    let all = index_range(n);
    let r = stable_sort_indices(&all, &keys);
    proof {
        let le = key_le(keys@);
        lemma_key_le_total(keys@);
        lemma_sort_by_sorted(identity_order(n as nat), le);
        assert forall|i: int, j: int| 0 <= i < j < r@.len() implies us@[#[trigger] r@[i] as int].shown_at()
            >= us@[#[trigger] r@[j] as int].shown_at() by {
            assert(le(r@[i], r@[j]));
            assert(us@[r@[i] as int].times_valid());
            assert(us@[r@[j] as int].times_valid());
        }
    }
    r
}

/// When the incident started, as the detail shows it.
pub fn started_text(inc: &Incident) -> (s: String)
    requires
        inc.times_valid(),
    ensures
        s@ == instant_text_spec(inc.started_at as int, "%Y-%m-%d %H:%M UTC"@),
{
    instant_text(inc.started_at, "%Y-%m-%d %H:%M UTC")
}

/// The resolution line: the resolution instant and how long the incident
/// lasted, or "ongoing".
pub open spec fn resolved_line(inc: Incident) -> Seq<char> {
    match inc.resolved_at {
        Some(r) => instant_text_spec(r as int, "%Y-%m-%d %H:%M UTC"@) + " ("@ + duration_text(
            duration_text_spec(inc.started_at as int, r as int),
        ) + ")"@,
        None => "ongoing"@,
    }
}

pub fn resolved_text(inc: &Incident) -> (s: String)
    requires
        inc.times_valid(),
    ensures
        s@ == resolved_line(*inc),
{
    match inc.resolved_at {
        Some(r) => {
            let when = instant_text(r, "%Y-%m-%d %H:%M UTC");
            let lasted = duration_str(inc.started_at, r).text();
            when.concat(" (").concat(lasted.as_str()).concat(")")
        },
        None => String::from_str("ongoing"),
    }
}

/// Names joined with ", ".
pub open spec fn joined(names: Seq<Seq<char>>) -> Seq<char>
    decreases names.len(),
{
    if names.len() == 0 {
        Seq::empty()
    } else if names.len() == 1 {
        names[0]
    } else {
        joined(names.drop_last()) + ", "@ + names.last()
    }
}

/// The components an incident affects, joined, or a dash for none.
pub open spec fn affects_line(inc: Incident) -> Seq<char> {
    let j = joined(inc.components@.map_values(|c: crate::api::IncidentComponentRef| c.name@));
    if j.len() == 0 {
        "—"@
    } else {
        j
    }
}

pub fn affects_text(inc: &Incident) -> (s: String)
    ensures
        s@ == affects_line(*inc),
{
    let cs = &inc.components;
    let ghost names = cs@.map_values(|c: crate::api::IncidentComponentRef| c.name@);
    let mut out = String::new();
    let mut k: usize = 0;
    while k < cs.len()
        invariant
            k <= cs@.len(),
            names == cs@.map_values(|c: crate::api::IncidentComponentRef| c.name@),
            out@ == joined(names.take(k as int)),
        decreases cs@.len() - k,
    {
        assert(names.take(k + 1).drop_last() =~= names.take(k as int));
        assert(names.take(k + 1).last() == cs@[k as int].name@);
        if k == 0 {
            assert(names.take(1) =~= seq![cs@[0].name@]);
            out = cs[0].name.clone();
        } else {
            out = out.concat(", ").concat(cs[k].name.as_str());
        }
        k = k + 1;
    }
    assert(names.take(k as int) =~= names);
    if out.unicode_len() == 0 {
        String::from_str("—")
    } else {
        out
    }
}

/// When an update was shown as posted, as the detail lists it.
pub fn update_time_text(u: &IncidentUpdate) -> (s: String)
    requires
        u.times_valid(),
    ensures
        s@ == instant_text_spec(u.shown_at() as int, "%b %-d %H:%M "@),
{
    instant_text(u.shown_at_exec(), "%b %-d %H:%M ")
}

/// The lines of an update's body, as the detail lists them.
pub fn update_body_lines(u: &IncidentUpdate) -> (r: Vec<String>)
    ensures
        r@.map_values(|l: String| l@) == lines_of(u.body@),
{
    split_lines(u.body.as_str())
}

// ---------------------------------------------------------------------
// Day detail
// ---------------------------------------------------------------------

pub open spec fn day_status_text(s: DayStatus) -> Seq<char> {
    match s {
        DayStatus::Unknown => "no data"@,
        DayStatus::Operational => "operational"@,
        DayStatus::Maintenance => "maintenance"@,
        DayStatus::Degraded => "degraded"@,
        DayStatus::Outage => "outage"@,
    }
}

/// The date line of the day detail, such as "Mon Apr 27, 2026", for
/// calendar day `date`; `None` when the day lies outside the calendar.
pub fn day_date_text(date: i64) -> (r: Option<String>)
    ensures
        match r {
            Some(s) => i32::MIN <= date <= i32::MAX && formatted_day(date as i32, "%a %b %-d, %Y"@) == Some(s@),
            None => !(i32::MIN <= date <= i32::MAX) || formatted_day(date as i32, "%a %b %-d, %Y"@) is None,
        },
{
    if date < i32::MIN as i64 || date > i32::MAX as i64 {
        return None;
    }
    proof {
        reveal_strlit("%a %b %-d, %Y");
    }
    format_day(date as i32, "%a %b %-d, %Y")
}

/// Label of a day's status in the day detail.
pub fn day_status_label(s: DayStatus) -> (r: &'static str)
    ensures
        r@ == day_status_text(s),
{
    match s {
        DayStatus::Unknown => "no data",
        DayStatus::Operational => "operational",
        DayStatus::Maintenance => "maintenance",
        DayStatus::Degraded => "degraded",
        DayStatus::Outage => "outage",
    }
}

/// Status of day `day` of row `row`, unknown outside the bars.
pub fn day_status_at(app: &App, row: usize, day: usize) -> (s: Option<DayStatus>)
    ensures
        row < app.bars@.len() ==> s == Some(if day < app.bars@[row as int].days@.len() {
            app.bars@[row as int].days@[day as int]
        } else {
            DayStatus::Unknown
        }),
        row >= app.bars@.len() ==> s is None,
{
    if row >= app.bars.len() {
        return None;
    }
    let days = &app.bars[row].days;
    if day < days.len() {
        Some(days[day])
    } else {
        Some(DayStatus::Unknown)
    }
}

/// Colour of a day's status in the day detail.
pub fn day_status_color(s: DayStatus) -> (c: ColorRole)
    ensures
        c == crate::ui::services::day_role(s),
{
    crate::ui::services::day_color(s)
}

/// The day detail lists exactly the incidents whose interval meets the
/// day: from the day it started to the day it was resolved, or, while
/// still open, to the day of `now`. Each listed incident is one of the
/// summary's, and every such incident is listed.
pub proof fn lemma_day_lists_the_incidents_spanning_it(s: Seq<Incident>, date: int, now: int)
    ensures
        forall|k: int|
            0 <= k < incidents_on(s, date, now).len() ==> {
                let inc = #[trigger] incidents_on(s, date, now)[k];
                &&& s.contains(inc)
                &&& day_of(inc.started_at as int) <= date
                &&& date <= day_of(
                    match inc.resolved_at {
                        Some(t) => t as int,
                        None => now,
                    },
                )
            },
        forall|j: int|
            0 <= j < s.len() && day_of(s[j].started_at as int) <= date && date <= day_of(
                match s[j].resolved_at {
                    Some(t) => t as int,
                    None => now,
                },
            ) ==> incidents_on(s, date, now).contains(#[trigger] s[j]),
{
    let pred = |i: Incident| on_day(i, date, now);
    assert forall|k: int| 0 <= k < incidents_on(s, date, now).len() implies {
        let inc = #[trigger] incidents_on(s, date, now)[k];
        &&& s.contains(inc)
        &&& day_of(inc.started_at as int) <= date
        &&& date <= day_of(
            match inc.resolved_at {
                Some(t) => t as int,
                None => now,
            },
        )
    } by {
        s.lemma_filter_pred(pred, k);
        s.lemma_filter_contains_rev(pred, incidents_on(s, date, now)[k]);
    }
    assert forall|j: int|
        0 <= j < s.len() && day_of(s[j].started_at as int) <= date && date <= day_of(
            match s[j].resolved_at {
                Some(t) => t as int,
                None => now,
            },
        ) implies incidents_on(s, date, now).contains(#[trigger] s[j]) by {
        s.lemma_filter_contains(pred, j);
    }
}

} // verus!
