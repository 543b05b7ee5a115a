//! The disruption banner shown above the body while incidents are
//! active or maintenance is scheduled.

use vstd::prelude::*;

use crate::api::{Impact, Incident, Summary, resolved_status};
use crate::app::App;
use crate::text::{decimal, decimal_string};
use crate::theme::{ColorRole, impact_role};

verus! {

/// Active incidents listed before summarising the rest.
pub const MAX_INCIDENT_ROWS: usize = 3;

/// Scheduled maintenances listed before summarising the rest.
pub const MAX_MAINTENANCE_ROWS: usize = 1;

/// One line of the banner.
#[derive(Debug, Clone)]
pub enum BannerLine {
    /// An incident: its name and impact, in the given colour.
    Item { name: String, impact: Impact, color: ColorRole },
    /// "+N more <label><plural>" for the incidents not listed.
    More { extra: usize, label: &'static str, plural: &'static str },
}

/// The banner: its lines, border colour and title.
pub struct Alert {
    pub lines: Vec<BannerLine>,
    pub border_color: ColorRole,
    pub title: &'static str,
}

/// The overflow line: "  +2 more active incidents".
pub open spec fn overflow_line(extra: nat, label: Seq<char>, plural: Seq<char>) -> Seq<char> {
    "  +"@ + decimal(extra) + " more "@ + label + plural
}

impl BannerLine {
    /// The text of an overflow line; `None` for an incident line, whose
    /// parts are drawn in their own colours.
    pub fn summary_text(&self) -> (s: Option<String>)
        ensures
            match *self {
                BannerLine::More { extra, label, plural } => s matches Some(t) && t@ == overflow_line(
                    extra as nat,
                    label@,
                    plural@,
                ),
                BannerLine::Item { .. } => s is None,
            },
    {
        match self {
            BannerLine::More { extra, label, plural } => Some(
                String::from_str("  +").concat(decimal_string(*extra as u128).as_str()).concat(" more ").concat(
                    label,
                ).concat(plural),
            ),
            BannerLine::Item { .. } => None,
        }
    }
}

impl Alert {
    /// Height including the border: the lines plus two (saturating).
    pub fn block_height(&self) -> (h: u16)
        ensures
            h as int == if (self.lines@.len() % 65536) + 2 > u16::MAX {
                u16::MAX as int
            } else {
                (self.lines@.len() % 65536) as int + 2
            },
    {
        let n = (self.lines.len() % 65536) as u32;
        if n + 2 > 65535 {
            65535
        } else {
            (n + 2) as u16
        }
    }
}

/// Rank of an impact for the banner: none < maintenance < minor < major
/// < critical.
pub open spec fn impact_rank_spec(i: Impact) -> int {
    match i {
        Impact::Nil => 0,
        Impact::Maintenance => 1,
        Impact::Minor => 2,
        Impact::Major => 3,
        Impact::Critical => 4,
    }
}

pub fn impact_rank(i: Impact) -> (r: u8)
    ensures
        r as int == impact_rank_spec(i),
{
    match i {
        Impact::Nil => 0,
        Impact::Maintenance => 1,
        Impact::Minor => 2,
        Impact::Major => 3,
        Impact::Critical => 4,
    }
}

/// Highest impact among the unresolved incidents.
pub open spec fn active_max(incs: Seq<Incident>) -> Option<Impact>
    decreases incs.len(),
{
    if incs.len() == 0 {
        None
    } else {
        let prev = active_max(incs.drop_last());
        let inc = incs.last();
        if resolved_status(inc.status) {
            prev
        } else {
            match prev {
                Some(p) if impact_rank_spec(p) > impact_rank_spec(inc.impact) => Some(p),
                _ => Some(inc.impact),
            }
        }
    }
}

pub fn active_max_impact(s: &Summary) -> (r: Option<Impact>)
    ensures
        r == active_max(s.incidents@),
{
    let mut best: Option<Impact> = None;
    let mut k: usize = 0;
    while k < s.incidents.len()
        invariant
            k <= s.incidents@.len(),
            best == active_max(s.incidents@.take(k as int)),
        decreases s.incidents@.len() - k,
    {
        let inc = &s.incidents[k];
        assert(s.incidents@.take(k + 1).drop_last() =~= s.incidents@.take(k as int));
        assert(s.incidents@.take(k + 1).last() == *inc);
        if !inc.status.is_resolved() {
            best = match best {
                Some(p) => if impact_rank(p) > impact_rank(inc.impact) {
                    Some(p)
                } else {
                    Some(inc.impact)
                },
                None => Some(inc.impact),
            };
        }
        k = k + 1;
    }
    assert(s.incidents@.take(k as int) =~= s.incidents@);
    best
}

pub open spec fn alert_role(max: Option<Impact>) -> ColorRole {
    match max {
        Some(Impact::Critical) => ColorRole::Danger,
        Some(Impact::Major) => ColorRole::Danger,
        Some(Impact::Minor) => ColorRole::Warning,
        _ => ColorRole::Info,
    }
}

/// Border colour: red for a major or critical incident, yellow for a
/// minor one, blue otherwise (maintenance only).
pub fn alert_color(max: Option<Impact>) -> (c: ColorRole)
    ensures
        c == alert_role(max),
{
    match max {
        Some(Impact::Critical) | Some(Impact::Major) => ColorRole::Danger,
        Some(Impact::Minor) => ColorRole::Warning,
        _ => ColorRole::Info,
    }
}

pub open spec fn alert_title_text(has_active: bool) -> Seq<char> {
    if has_active {
        "Service Disruption"@
    } else {
        "Scheduled Maintenance"@
    }
}

pub fn alert_title(has_active: bool) -> (t: &'static str)
    ensures
        t@ == alert_title_text(has_active),
{
    if has_active {
        "Service Disruption"
    } else {
        "Scheduled Maintenance"
    }
}

pub open spec fn plural_suffix(n: int) -> Seq<char> {
    if n == 1 {
        ""@
    } else {
        "s"@
    }
}

pub fn plural(n: usize) -> (s: &'static str)
    ensures
        s@ == plural_suffix(n as int),
{
    if n == 1 {
        ""
    } else {
        "s"
    }
}

/// Number of lines `rows` produces for `n` incidents capped at `cap`.
pub open spec fn rows_len(n: int, cap: int) -> int {
    if n == 0 {
        0
    } else if n > cap {
        cap + 1
    } else {
        n
    }
}

/// Lines for `incidents`: the first `cap` as items, then, if any are
/// left, one summary line counting them.
pub open spec fn rows_spec_ok<F: Fn(&Incident) -> ColorRole>(
    out: Seq<BannerLine>,
    incidents: Seq<&Incident>,
    cap: int,
    color: F,
    summary_label: Seq<char>,
) -> bool {
    let n = incidents.len() as int;
    &&& out.len() == rows_len(n, cap)
    &&& forall|k: int|
        0 <= k < n && k < cap ==> match #[trigger] out[k] {
            BannerLine::Item { name, impact, color: c } => name@ == incidents[k].name@ && impact
                == incidents[k].impact && color.ensures((incidents[k],), c),
            _ => false,
        }
    &&& n > cap ==> match out[cap] {
        BannerLine::More { extra, label, plural } => extra == n - cap && label@ == summary_label
            && plural@ == plural_suffix(n - cap),
        _ => false,
    }
}

pub fn rows<F: Fn(&Incident) -> ColorRole>(
    incidents: &Vec<&Incident>,
    cap: usize,
    color: F,
    summary_label: &'static str,
) -> (out: Vec<BannerLine>)
    requires
        forall|i: &Incident| color.requires((i,)),
    ensures
        rows_spec_ok(out@, incidents@, cap as int, color, summary_label@),
{
    let mut out: Vec<BannerLine> = Vec::new();
    if incidents.len() == 0 {
        return out;
    }
    let n = incidents.len();
    let shown = if cap < n {
        cap
    } else {
        n
    };
    let mut k: usize = 0;
    while k < shown
        invariant
            k <= shown,
            shown <= n,
            shown <= cap,
            n == incidents@.len(),
            shown == (if cap < n { cap } else { n }),
            forall|i: &Incident| color.requires((i,)),
            out@.len() == k,
            forall|q: int|
                0 <= q < k ==> match #[trigger] out@[q] {
                    BannerLine::Item { name, impact, color: c } => name@ == incidents@[q].name@ && impact
                        == incidents@[q].impact && color.ensures((incidents@[q],), c),
                    _ => false,
                },
        decreases shown - k,
    {
        let inc = incidents[k];
        let c = color(inc);
        out.push(BannerLine::Item { name: inc.name.clone(), impact: inc.impact, color: c });
        k = k + 1;
    }
    if n > cap {
        let extra = n - cap;
        out.push(BannerLine::More { extra, label: summary_label, plural: plural(extra) });
    }
    out
}

fn impact_line_color(i: &Incident) -> (c: ColorRole)
    ensures
        c == impact_role(i.impact),
{
    match i.impact {
        Impact::Nil => ColorRole::Muted,
        Impact::Minor => ColorRole::Warning,
        Impact::Major | Impact::Critical => ColorRole::Danger,
        Impact::Maintenance => ColorRole::Info,
    }
}

fn maintenance_line_color(i: &Incident) -> (c: ColorRole)
    ensures
        c == ColorRole::Info,
{
    ColorRole::Info
}

/// Unresolved incidents, in input order.
pub open spec fn active_incidents(incs: Seq<Incident>) -> Seq<Incident> {
    incs.filter(|i: Incident| !resolved_status(i.status))
}

/// The banner lines of summary `s`: up to three active incidents coloured
/// by impact, then a line counting the active incidents left over; then
/// up to one scheduled maintenance in blue, then a line counting the
/// maintenances left over.
pub open spec fn banner_lines(out: Seq<BannerLine>, s: Summary) -> bool {
    let act = active_incidents(s.incidents@);
    let a = rows_len(act.len() as int, MAX_INCIDENT_ROWS as int);
    let m = s.scheduled_maintenances@;
    &&& out.len() == a + rows_len(m.len() as int, MAX_MAINTENANCE_ROWS as int)
    &&& forall|k: int|
        0 <= k < act.len() && k < MAX_INCIDENT_ROWS ==> match #[trigger] out[k] {
            BannerLine::Item { name, impact, color } => name@ == act[k].name@ && impact == act[k].impact
                && color == impact_role(act[k].impact),
            _ => false,
        }
    &&& act.len() > MAX_INCIDENT_ROWS ==> match out[MAX_INCIDENT_ROWS as int] {
        BannerLine::More { extra, label, plural } => extra == act.len() - MAX_INCIDENT_ROWS
            && label@ == "active incident"@ && plural@ == plural_suffix(act.len() - MAX_INCIDENT_ROWS),
        _ => false,
    }
    &&& forall|k: int|
        0 <= k < m.len() && k < MAX_MAINTENANCE_ROWS ==> match #[trigger] out[a + k] {
            BannerLine::Item { name, impact, color } => name@ == m[k].name@ && impact == m[k].impact
                && color == ColorRole::Info,
            _ => false,
        }
    &&& m.len() > MAX_MAINTENANCE_ROWS ==> match out[a + MAX_MAINTENANCE_ROWS] {
        BannerLine::More { extra, label, plural } => extra == m.len() - MAX_MAINTENANCE_ROWS
            && label@ == "scheduled maintenance"@ && plural@ == plural_suffix(m.len() - MAX_MAINTENANCE_ROWS),
        _ => false,
    }
}

/// Banner lines for a summary (see `banner_lines`).
pub fn lines_for(s: &Summary) -> (out: Vec<BannerLine>)
    ensures
        banner_lines(out@, *s),
{
    let ghost pred = |i: Incident| !resolved_status(i.status);
    let mut active: Vec<&Incident> = Vec::new();
    let mut k: usize = 0;
    assert(s.incidents@.take(0).filter(pred) =~= Seq::<Incident>::empty());
    while k < s.incidents.len()
        invariant
            k <= s.incidents@.len(),
            pred == (|i: Incident| !resolved_status(i.status)),
            active@.len() == s.incidents@.take(k as int).filter(pred).len(),
            forall|q: int| 0 <= q < active@.len() ==> *active@[q] == s.incidents@.take(k as int).filter(pred)[q],
        decreases s.incidents@.len() - k,
    {
        let inc = &s.incidents[k];
        proof {
            assert(s.incidents@.take(k + 1) =~= s.incidents@.take(k as int).push(*inc));
            s.incidents@.take(k as int).lemma_filter_push(*inc, pred);
        }
        if !inc.status.is_resolved() {
            active.push(inc);
        }
        k = k + 1;
    }
    assert(s.incidents@.take(k as int) =~= s.incidents@);
    let mut out = rows(&active, MAX_INCIDENT_ROWS, impact_line_color, "active incident");
    let mut upcoming: Vec<&Incident> = Vec::new();
    let mut k: usize = 0;
    while k < s.scheduled_maintenances.len()
        invariant
            k <= s.scheduled_maintenances@.len(),
            upcoming@.len() == k,
            forall|q: int| 0 <= q < k ==> *upcoming@[q] == s.scheduled_maintenances@[q],
        decreases s.scheduled_maintenances@.len() - k,
    {
        upcoming.push(&s.scheduled_maintenances[k]);
        k = k + 1;
    }
    let mut more = rows(&upcoming, MAX_MAINTENANCE_ROWS, maintenance_line_color, "scheduled maintenance");
    let ghost first = out@;
    out.append(&mut more);
    out
}

/// The banner for the application's summary: none before the first load
/// or when nothing is active or scheduled.
pub fn build(app: &App) -> (r: Option<Alert>)
    ensures
        match app.summary {
            None => r is None,
            Some(s) => {
                let n = rows_len(active_incidents(s.incidents@).len() as int, MAX_INCIDENT_ROWS as int)
                    + rows_len(s.scheduled_maintenances@.len() as int, MAX_MAINTENANCE_ROWS as int);
                match r {
                    None => n == 0,
                    Some(a) => n > 0 && banner_lines(a.lines@, s) && a.border_color == alert_role(
                        active_max(s.incidents@),
                    ) && a.title@ == alert_title_text(active_max(s.incidents@) is Some),
                }
            },
        },
{
    let s = match &app.summary {
        Some(s) => s,
        None => return None,
    };
    let lines = lines_for(s);
    if lines.len() == 0 {
        return None;
    }
    let active_max = active_max_impact(s);
    Some(Alert { lines, border_color: alert_color(active_max), title: alert_title(active_max.is_some()) })
}

/// The banner's impact is the highest among the unresolved incidents:
/// it is the impact of one of them, a critical one wins over all, a
/// major one over all but critical, and so on down through minor and
/// maintenance; there is none exactly when every incident is resolved.
pub proof fn lemma_active_max_is_highest(incs: Seq<Incident>)
    ensures
        (active_max(incs) is None) == (forall|j: int| 0 <= j < incs.len() ==> resolved_status(#[trigger] incs[j].status)),
        active_max(incs) matches Some(x) ==> exists|j: int|
            0 <= j < incs.len() && !resolved_status(#[trigger] incs[j].status) && incs[j].impact == x,
        forall|j: int|
            0 <= j < incs.len() && !resolved_status(#[trigger] incs[j].status) ==> {
                let x = active_max(incs)->0;
                &&& active_max(incs) is Some
                &&& (incs[j].impact == Impact::Critical ==> x == Impact::Critical)
                &&& (incs[j].impact == Impact::Major ==> x == Impact::Major || x == Impact::Critical)
                &&& (incs[j].impact == Impact::Minor ==> x == Impact::Minor || x == Impact::Major || x
                    == Impact::Critical)
                &&& (incs[j].impact == Impact::Maintenance ==> x != Impact::Nil)
            },
    decreases incs.len(),
{
    if incs.len() > 0 {
        let t = incs.drop_last();
        let n = incs.len() - 1;
        let last = incs[n];
        lemma_active_max_is_highest(t);
        assert(incs.last() == last);
        assert forall|j: int| 0 <= j < t.len() implies #[trigger] t[j] == incs[j] by {}
        match active_max(t) {
            Some(x) => {
                let j = choose|j: int| 0 <= j < t.len() && !resolved_status(#[trigger] t[j].status) && t[j].impact == x;
                assert(incs[j] == t[j]);
            },
            None => {},
        }
        if resolved_status(last.status) {
            assert(active_max(incs) == active_max(t));
            assert((forall|j: int| 0 <= j < incs.len() ==> resolved_status(#[trigger] incs[j].status)) == (forall|
                j: int,
            | 0 <= j < t.len() ==> resolved_status(#[trigger] t[j].status))) by {
                if forall|j: int| 0 <= j < t.len() ==> resolved_status(#[trigger] t[j].status) {
                    assert forall|j: int| 0 <= j < incs.len() implies resolved_status(#[trigger] incs[j].status) by {
                        if j < n {
                            assert(t[j] == incs[j]);
                        }
                    }
                }
                if forall|j: int| 0 <= j < incs.len() ==> resolved_status(#[trigger] incs[j].status) {
                    assert forall|j: int| 0 <= j < t.len() implies resolved_status(#[trigger] t[j].status) by {
                        assert(t[j] == incs[j]);
                    }
                }
            }
            assert forall|j: int| 0 <= j < incs.len() && !resolved_status(#[trigger] incs[j].status) implies {
                let x = active_max(incs)->0;
                &&& active_max(incs) is Some
                &&& (incs[j].impact == Impact::Critical ==> x == Impact::Critical)
                &&& (incs[j].impact == Impact::Major ==> x == Impact::Major || x == Impact::Critical)
                &&& (incs[j].impact == Impact::Minor ==> x == Impact::Minor || x == Impact::Major || x
                    == Impact::Critical)
                &&& (incs[j].impact == Impact::Maintenance ==> x != Impact::Nil)
            } by {
                assert(j < n);
                assert(t[j] == incs[j]);
                assert(!resolved_status(t[j].status));
            }
        } else {
            assert(!resolved_status(incs[n].status));
            assert forall|j: int| 0 <= j < incs.len() && !resolved_status(#[trigger] incs[j].status) implies {
                let x = active_max(incs)->0;
                &&& active_max(incs) is Some
                &&& (incs[j].impact == Impact::Critical ==> x == Impact::Critical)
                &&& (incs[j].impact == Impact::Major ==> x == Impact::Major || x == Impact::Critical)
                &&& (incs[j].impact == Impact::Minor ==> x == Impact::Minor || x == Impact::Major || x
                    == Impact::Critical)
                &&& (incs[j].impact == Impact::Maintenance ==> x != Impact::Nil)
            } by {
                if j < n {
                    assert(t[j] == incs[j]);
                    assert(!resolved_status(t[j].status));
                }
            }
            match active_max(t) {
                Some(x) => {
                    if !(impact_rank_spec(x) > impact_rank_spec(last.impact)) {
                        assert(active_max(incs) == Some(last.impact));
                        assert(incs[n].impact == last.impact);
                    } else {
                        let j = choose|j: int|
                            0 <= j < t.len() && !resolved_status(#[trigger] t[j].status) && t[j].impact == x;
                        assert(incs[j] == t[j]);
                    }
                },
                None => {
                    assert(incs[n].impact == last.impact);
                },
            }
        }
    }
}

} // verus!
