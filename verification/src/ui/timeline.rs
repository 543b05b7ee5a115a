//! The incident timeline pane: name budget, truncation, status pills and
//! the list rows behind the day headings.

use vstd::prelude::*;

use crate::api::{Incident, IncidentStatus};
use crate::api::{Impact, resolved_status};
use crate::clock::{instant_text, instant_text_spec};
use crate::theme::{ColorRole, impact_role};
use crate::text::{truncate_chars, truncated};

verus! {

/// Width taken by the fixed chrome of an incident line: highlight
/// symbol (3), indent (3), dot (2), time (5), two gaps (2 + 2) and the
/// widest status pill (13).
pub const LINE_CHROME: u16 = 30;

/// Characters left for the incident name on a line `area_width` wide.
pub fn name_budget_for(area_width: u16) -> (r: usize)
    ensures
        r as int == if area_width >= LINE_CHROME {
            area_width - LINE_CHROME
        } else {
            0
        },
{
    if area_width >= LINE_CHROME {
        (area_width - LINE_CHROME) as usize
    } else {
        0
    }
}

/// An incident name cut to `max` characters (empty when `max` is zero).
pub open spec fn name_cut(s: Seq<char>, max: nat) -> Seq<char> {
    if max == 0 {
        Seq::empty()
    } else {
        truncated(s, max)
    }
}

pub fn truncate(s: &str, max: usize) -> (r: String)
    ensures
        r@ == name_cut(s@, max as nat),
{
    if max == 0 {
        return String::new();
    }
    truncate_chars(s, max)
}

pub open spec fn status_pill_text(s: IncidentStatus) -> Seq<char> {
    match s {
        IncidentStatus::Investigating => "investigating"@,
        IncidentStatus::Identified => "identified"@,
        IncidentStatus::Monitoring => "monitoring"@,
        IncidentStatus::Resolved => "resolved"@,
        IncidentStatus::Postmortem => "postmortem"@,
        IncidentStatus::Scheduled => "scheduled"@,
        IncidentStatus::InProgress => "in progress"@,
        IncidentStatus::Verifying => "verifying"@,
        IncidentStatus::Completed => "completed"@,
    }
}

/// Lower-case status pill of an incident line.
pub fn status_pill(s: IncidentStatus) -> (r: &'static str)
    ensures
        r@ == status_pill_text(s),
{
    match s {
        IncidentStatus::Investigating => "investigating",
        IncidentStatus::Identified => "identified",
        IncidentStatus::Monitoring => "monitoring",
        IncidentStatus::Resolved => "resolved",
        IncidentStatus::Postmortem => "postmortem",
        IncidentStatus::Scheduled => "scheduled",
        IncidentStatus::InProgress => "in progress",
        IncidentStatus::Verifying => "verifying",
        IncidentStatus::Completed => "completed",
    }
}

/// List rows for day groups of the given sizes: each group is a heading
/// (`None`) followed by its incidents (numbered in listing order) or, for
/// an empty day, a placeholder (`None`).
pub open spec fn slots_spec(sizes: Seq<usize>) -> Seq<Option<int>>
    decreases sizes.len(),
{
    if sizes.len() == 0 {
        Seq::empty()
    } else {
        let prev = slots_spec(sizes.drop_last());
        let before = numbered(sizes.drop_last());
        let n = sizes.last() as int;
        if n == 0 {
            prev + seq![None, None]
        } else {
            prev + seq![None] + Seq::new(n as nat, |m: int| Some(before + m))
        }
    }
}

/// Incidents numbered in the groups.
pub open spec fn numbered(sizes: Seq<usize>) -> int
    decreases sizes.len(),
{
    if sizes.len() == 0 {
        0
    } else {
        numbered(sizes.drop_last()) + sizes.last()
    }
}

proof fn lemma_numbered_prefix(s: Seq<usize>, k: int)
    requires
        0 <= k <= s.len(),
    ensures
        numbered(s.take(k)) <= numbered(s),
    decreases s.len() - k,
{
    if k < s.len() {
        lemma_numbered_prefix(s, k + 1);
        assert(s.take(k + 1).drop_last() =~= s.take(k));
    } else {
        assert(s.take(k) =~= s);
    }
}

pub fn list_slots(sizes: &Vec<usize>) -> (r: Vec<Option<usize>>)
    requires
        numbered(sizes@) <= usize::MAX,
    ensures
        r@.len() == slots_spec(sizes@).len(),
        forall|q: int|
            0 <= q < r@.len() ==> match #[trigger] r@[q] {
                Some(v) => slots_spec(sizes@)[q] == Some(v as int),
                None => slots_spec(sizes@)[q] is None,
            },
{
    let mut r: Vec<Option<usize>> = Vec::new();
    let mut counter: usize = 0;
    let mut g: usize = 0;
    assert(sizes@.take(0) =~= Seq::<usize>::empty());
    assert forall|k: int| 0 <= k <= sizes@.len() implies numbered(#[trigger] sizes@.take(k)) <= numbered(sizes@) by {
        lemma_numbered_prefix(sizes@, k);
    }
    while g < sizes.len()
        invariant
            g <= sizes@.len(),
            numbered(sizes@) <= usize::MAX,
            forall|k: int| 0 <= k <= sizes@.len() ==> numbered(#[trigger] sizes@.take(k)) <= numbered(sizes@),
            counter as int == numbered(sizes@.take(g as int)),
            r@.len() == slots_spec(sizes@.take(g as int)).len(),
            forall|q: int|
                0 <= q < r@.len() ==> match #[trigger] r@[q] {
                    Some(v) => slots_spec(sizes@.take(g as int))[q] == Some(v as int),
                    None => slots_spec(sizes@.take(g as int))[q] is None,
                },
        decreases sizes@.len() - g,
    {
        let n = sizes[g];
        let ghost t = sizes@.take(g + 1);
        assert(t.drop_last() =~= sizes@.take(g as int));
        assert(t.last() == n);
        let ghost prev = slots_spec(sizes@.take(g as int));
        let ghost start_len = r@.len();
        let ghost r0 = r@;
        let ghost c0 = counter as int;
        r.push(None);
        if n == 0 {
            r.push(None);
        } else {
            let mut m: usize = 0;
            while m < n
                invariant
                    m <= n,
                    counter as int + n <= numbered(sizes@),
                    numbered(sizes@) <= usize::MAX,
                    r@.len() == start_len + 1 + m,
                    forall|q: int| 0 <= q < start_len ==> #[trigger] r@[q] == r0[q],
                    counter as int == c0,
                    r@[start_len as int] is None,
                    forall|z: int| 0 <= z < m ==> #[trigger] r@[start_len + 1 + z] == Some((counter + z) as usize),
                decreases n - m,
            {
                r.push(Some(counter + m));
                m = m + 1;
            }
        }
        proof {
            assert(numbered(t) <= numbered(sizes@));
        }
        counter = counter + n;
        g = g + 1;
        assert forall|q: int| 0 <= q < r@.len() implies match #[trigger] r@[q] {
            Some(v) => slots_spec(sizes@.take(g as int))[q] == Some(v as int),
            None => slots_spec(sizes@.take(g as int))[q] is None,
        } by {
            assert(numbered(t.drop_last()) == c0);
            if q < start_len {
                assert(r@[q] == r0[q]);
                assert(slots_spec(sizes@.take(g as int))[q] == prev[q]);
            } else if q == start_len {
                assert(slots_spec(sizes@.take(g as int))[q] is None);
            } else if n == 0 {
                assert(slots_spec(sizes@.take(g as int))[q] is None);
            } else {
                let z = q - start_len - 1;
                assert(r@[start_len + 1 + z] == Some((c0 + z) as usize));
                assert(slots_spec(sizes@.take(g as int))[q] == Some(c0 + z));
            }
        }
    }
    assert(sizes@.take(g as int) =~= sizes@);
    r
}

/// Row of the list holding incident number `event_idx`, if listed.
pub fn selected_slot(slots: &Vec<Option<usize>>, event_idx: usize) -> (r: Option<usize>)
    ensures
        match r {
            Some(t) => t < slots@.len() && slots@[t as int] == Some(event_idx) && forall|q: int|
                0 <= q < t ==> #[trigger] slots@[q] != Some(event_idx),
            None => forall|q: int| 0 <= q < slots@.len() ==> #[trigger] slots@[q] != Some(event_idx),
        },
{
    let mut t: usize = 0;
    while t < slots.len()
        invariant
            t <= slots@.len(),
            forall|q: int| 0 <= q < t ==> #[trigger] slots@[q] != Some(event_idx),
        decreases slots@.len() - t,
    {
        match slots[t] {
            Some(v) => {
                if v == event_idx {
                    return Some(t);
                }
            },
            None => {},
        }
        t = t + 1;
    }
    None
}

/// The clock time (UTC) at which an incident started, as its line shows it.
pub fn start_clock(inc: &Incident) -> (s: String)
    requires
        inc.times_valid(),
    ensures
        s@ == instant_text_spec(inc.started_at as int, "%H:%M"@),
{
    instant_text(inc.started_at, "%H:%M")
}

/// Colour of a status pill: green once resolved, else the impact's colour.
pub open spec fn status_role(status: IncidentStatus, impact: Impact) -> ColorRole {
    if resolved_status(status) {
        ColorRole::Success
    } else {
        impact_role(impact)
    }
}

pub fn status_color(status: IncidentStatus, impact: Impact) -> (c: ColorRole)
    ensures
        c == status_role(status, impact),
{
    if status.is_resolved() {
        ColorRole::Success
    } else {
        match impact {
            Impact::Nil => ColorRole::Muted,
            Impact::Minor => ColorRole::Warning,
            Impact::Major | Impact::Critical => ColorRole::Danger,
            Impact::Maintenance => ColorRole::Info,
        }
    }
}

} // verus!
