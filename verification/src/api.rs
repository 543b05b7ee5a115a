//! The Statuspage data model, the labels of its status enums, and the
//! pure decisions behind fetching: which endpoints to call, which
//! history months overlap the window, and which incidents still need
//! their detail fetched.
//!
//! Instants are nanoseconds since the Unix epoch (see `clock`).

use vstd::prelude::*;

use crate::clock::{civil_day, civil_day_number, day_of, day_of_instant, valid_instant};
use crate::text::text_eq;

verus! {

/// Overall page indicator reported by Statuspage (`none` is `Nil`).
#[derive(Debug, Clone, Copy, PartialEq, Eq, Structural)]
pub enum Indicator {
    Nil,
    Minor,
    Major,
    Critical,
    Maintenance,
}

/// Current status of one component.
#[derive(Debug, Clone, Copy, PartialEq, Eq, Structural)]
pub enum ComponentStatus {
    Operational,
    DegradedPerformance,
    PartialOutage,
    MajorOutage,
    UnderMaintenance,
}

/// Lifecycle status of an incident or maintenance.
#[derive(Debug, Clone, Copy, PartialEq, Eq, Structural)]
pub enum IncidentStatus {
    Investigating,
    Identified,
    Monitoring,
    Resolved,
    Postmortem,
    Scheduled,
    InProgress,
    Verifying,
    Completed,
}

/// Declared impact of an incident (`none` is `Nil`).
#[derive(Debug, Clone, Copy, PartialEq, Eq, Structural)]
pub enum Impact {
    Nil,
    Minor,
    Major,
    Critical,
    Maintenance,
}

impl ComponentStatus {
    /// True exactly for `Operational`.
    pub fn is_operational(self) -> (b: bool)
        ensures
            b <==> self == ComponentStatus::Operational,
    {
        matches!(self, ComponentStatus::Operational)
    }
}

pub open spec fn resolved_status(s: IncidentStatus) -> bool {
    s == IncidentStatus::Resolved || s == IncidentStatus::Completed || s == IncidentStatus::Postmortem
}

pub open spec fn incident_status_label(s: IncidentStatus) -> Seq<char> {
    match s {
        IncidentStatus::Investigating => "INVESTIGATING"@,
        IncidentStatus::Identified => "IDENTIFIED"@,
        IncidentStatus::Monitoring => "MONITORING"@,
        IncidentStatus::Resolved => "RESOLVED"@,
        IncidentStatus::Postmortem => "POSTMORTEM"@,
        IncidentStatus::Scheduled => "SCHEDULED"@,
        IncidentStatus::InProgress => "IN PROGRESS"@,
        IncidentStatus::Verifying => "VERIFYING"@,
        IncidentStatus::Completed => "COMPLETED"@,
    }
}

impl IncidentStatus {
    /// Resolved, completed and postmortem incidents are over.
    pub fn is_resolved(self) -> (b: bool)
        ensures
            b == resolved_status(self),
    {
        matches!(self, IncidentStatus::Resolved | IncidentStatus::Completed | IncidentStatus::Postmortem)
    }

    /// Upper-case label shown in detail views.
    pub fn label(self) -> (r: &'static str)
        ensures
            r@ == incident_status_label(self),
    {
        match self {
            IncidentStatus::Investigating => "INVESTIGATING",
            IncidentStatus::Identified => "IDENTIFIED",
            IncidentStatus::Monitoring => "MONITORING",
            IncidentStatus::Resolved => "RESOLVED",
            IncidentStatus::Postmortem => "POSTMORTEM",
            IncidentStatus::Scheduled => "SCHEDULED",
            IncidentStatus::InProgress => "IN PROGRESS",
            IncidentStatus::Verifying => "VERIFYING",
            IncidentStatus::Completed => "COMPLETED",
        }
    }
}

pub open spec fn impact_label(i: Impact) -> Seq<char> {
    match i {
        Impact::Nil => "none"@,
        Impact::Minor => "minor"@,
        Impact::Major => "major"@,
        Impact::Critical => "critical"@,
        Impact::Maintenance => "maintenance"@,
    }
}

impl Impact {
    /// Lower-case label of the impact.
    pub fn label(self) -> (r: &'static str)
        ensures
            r@ == impact_label(self),
    {
        match self {
            Impact::Nil => "none",
            Impact::Minor => "minor",
            Impact::Major => "major",
            Impact::Critical => "critical",
            Impact::Maintenance => "maintenance",
        }
    }
}

pub open spec fn indicator_label(i: Indicator) -> Seq<char> {
    match i {
        Indicator::Nil => "operational"@,
        Indicator::Minor => "minor"@,
        Indicator::Major => "major"@,
        Indicator::Critical => "critical"@,
        Indicator::Maintenance => "maintenance"@,
    }
}

impl Indicator {
    /// Lower-case label of the indicator; `none` reads "operational".
    pub fn label(self) -> (r: &'static str)
        ensures
            r@ == indicator_label(self),
    {
        match self {
            Indicator::Nil => "operational",
            Indicator::Minor => "minor",
            Indicator::Major => "major",
            Indicator::Critical => "critical",
            Indicator::Maintenance => "maintenance",
        }
    }
}

/// Page metadata.
#[derive(Debug, Clone)]
pub struct Page {
    pub id: String,
    pub name: String,
    pub url: String,
    pub updated_at: i128,
}

/// Overall status line of the page.
#[derive(Debug, Clone)]
pub struct Status {
    pub indicator: Indicator,
    pub description: String,
}

/// A component, or a group of components (`group` set), of the page.
#[derive(Debug, Clone)]
pub struct Component {
    pub id: String,
    pub name: String,
    pub status: ComponentStatus,
    pub created_at: i128,
    pub updated_at: i128,
    pub position: u32,
    pub description: Option<String>,
    pub group_id: Option<String>,
    pub group: bool,
}

/// An incident or a scheduled maintenance.
#[derive(Debug, Clone)]
pub struct Incident {
    pub id: String,
    pub name: String,
    pub status: IncidentStatus,
    pub impact: Impact,
    pub created_at: i128,
    pub updated_at: i128,
    pub monitoring_at: Option<i128>,
    pub resolved_at: Option<i128>,
    pub started_at: i128,
    pub shortlink: Option<String>,
    pub incident_updates: Vec<IncidentUpdate>,
    pub components: Vec<IncidentComponentRef>,
}

/// One posted update of an incident.
#[derive(Debug, Clone)]
pub struct IncidentUpdate {
    pub id: String,
    pub status: IncidentStatus,
    pub body: String,
    pub created_at: i128,
    pub display_at: Option<i128>,
    pub affected_components: Option<Vec<AffectedComponent>>,
}

/// A component status transition recorded on an update.
#[derive(Debug, Clone)]
pub struct AffectedComponent {
    pub code: String,
    pub name: String,
    pub old_status: String,
    pub new_status: String,
}

/// A component an incident names as affected.
#[derive(Debug, Clone)]
pub struct IncidentComponentRef {
    pub id: String,
    pub name: String,
}

/// What one refresh of the page yields.
#[derive(Debug, Clone)]
pub struct Summary {
    pub page: Page,
    pub status: Status,
    pub components: Vec<Component>,
    pub incidents: Vec<Incident>,
    pub scheduled_maintenances: Vec<Incident>,
}

pub open spec fn opt_instant_valid(t: Option<i128>) -> bool {
    match t {
        Some(v) => valid_instant(v as int),
        None => true,
    }
}

impl IncidentUpdate {
    /// When the update is shown as posted: `display_at`, else `created_at`.
    pub open spec fn shown_at(self) -> i128 {
        match self.display_at {
            Some(t) => t,
            None => self.created_at,
        }
    }

    pub open spec fn times_valid(self) -> bool {
        valid_instant(self.created_at as int) && opt_instant_valid(self.display_at)
    }

    pub fn shown_at_exec(&self) -> (t: i128)
        ensures
            t == self.shown_at(),
    {
        match self.display_at {
            Some(t) => t,
            None => self.created_at,
        }
    }
}

impl Incident {
    pub open spec fn times_valid(self) -> bool {
        &&& valid_instant(self.created_at as int)
        &&& valid_instant(self.updated_at as int)
        &&& valid_instant(self.started_at as int)
        &&& opt_instant_valid(self.monitoring_at)
        &&& opt_instant_valid(self.resolved_at)
        &&& forall|k: int|
            0 <= k < self.incident_updates@.len() ==> (#[trigger] self.incident_updates@[k]).times_valid()
    }

    /// Checks that every instant of the incident lies in the library's range.
    pub fn has_valid_times(&self) -> (r: bool)
        ensures
            r == self.times_valid(),
    {
        if !(in_range(self.created_at) && in_range(self.updated_at) && in_range(self.started_at)
            && opt_in_range(self.monitoring_at) && opt_in_range(self.resolved_at)) {
            return false;
        }
        let mut k: usize = 0;
        while k < self.incident_updates.len()
            invariant
                k <= self.incident_updates@.len(),
                forall|j: int| 0 <= j < k ==> (#[trigger] self.incident_updates@[j]).times_valid(),
            decreases self.incident_updates@.len() - k,
        {
            let u = &self.incident_updates[k];
            if !(in_range(u.created_at) && opt_in_range(u.display_at)) {
                return false;
            }
            k = k + 1;
        }
        true
    }
}

impl Component {
    pub open spec fn times_valid(self) -> bool {
        valid_instant(self.created_at as int) && valid_instant(self.updated_at as int)
    }
}

fn in_range(t: i128) -> (r: bool)
    ensures
        r == valid_instant(t as int),
{
    -crate::clock::MAX_INSTANT <= t && t <= crate::clock::MAX_INSTANT
}

fn opt_in_range(t: Option<i128>) -> (r: bool)
    ensures
        r == opt_instant_valid(t),
{
    match t {
        Some(v) => in_range(v),
        None => true,
    }
}

pub open spec fn incidents_valid(s: Seq<Incident>) -> bool {
    forall|i: int| 0 <= i < s.len() ==> (#[trigger] s[i]).times_valid()
}

pub open spec fn components_valid(s: Seq<Component>) -> bool {
    forall|i: int| 0 <= i < s.len() ==> (#[trigger] s[i]).times_valid()
}

fn all_incidents_valid(v: &Vec<Incident>) -> (r: bool)
    ensures
        r == incidents_valid(v@),
{
    let mut i: usize = 0;
    while i < v.len()
        invariant
            i <= v@.len(),
            incidents_valid(v@.take(i as int)),
        decreases v@.len() - i,
    {
        if !v[i].has_valid_times() {
            assert(!incidents_valid(v@)) by {
                assert(!v@[i as int].times_valid());
            }
            return false;
        }
        assert(v@.take(i + 1)[i as int] == v@[i as int]);
        i = i + 1;
    }
    assert(v@.take(i as int) =~= v@);
    true
}

fn all_components_valid(v: &Vec<Component>) -> (r: bool)
    ensures
        r == components_valid(v@),
{
    let mut i: usize = 0;
    while i < v.len()
        invariant
            i <= v@.len(),
            components_valid(v@.take(i as int)),
        decreases v@.len() - i,
    {
        let c = &v[i];
        if !(in_range(c.created_at) && in_range(c.updated_at)) {
            assert(!v@[i as int].times_valid());
            return false;
        }
        assert(v@.take(i + 1)[i as int] == v@[i as int]);
        i = i + 1;
    }
    assert(v@.take(i as int) =~= v@);
    true
}

impl Summary {
    /// Every instant of the summary lies in the library's range.
    pub open spec fn times_valid(self) -> bool {
        &&& valid_instant(self.page.updated_at as int)
        &&& components_valid(self.components@)
        &&& incidents_valid(self.incidents@)
        &&& incidents_valid(self.scheduled_maintenances@)
    }

    pub fn has_valid_times(&self) -> (r: bool)
        ensures
            r == self.times_valid(),
    {
        in_range(self.page.updated_at) && all_components_valid(&self.components)
            && all_incidents_valid(&self.incidents) && all_incidents_valid(
            &self.scheduled_maintenances,
        )
    }
}

// ---------------------------------------------------------------------
// Fetch planning
// ---------------------------------------------------------------------

/// History pages scanned to fill the older end of the window.
pub const HISTORY_PAGES: usize = 2;

/// Concurrency cap on per-incident detail fetches.
pub const DETAIL_FETCH_CONCURRENCY: usize = 8;

/// `{base}/api/v2/summary.json`
pub fn summary_url(base: &String) -> (r: String)
    ensures
        r@ == base@ + "/api/v2/summary.json"@,
{
    base.clone().concat("/api/v2/summary.json")
}

/// `{base}/api/v2/incidents.json`
pub fn incidents_url(base: &String) -> (r: String)
    ensures
        r@ == base@ + "/api/v2/incidents.json"@,
{
    base.clone().concat("/api/v2/incidents.json")
}

/// `{base}/api/v2/incidents/{code}.json`
pub fn incident_detail_url(base: &String, code: &String) -> (r: String)
    ensures
        r@ == base@ + "/api/v2/incidents/"@ + code@ + ".json"@,
{
    base.clone().concat("/api/v2/incidents/").concat(code.as_str()).concat(".json")
}

/// `{base}/history.json?page={page}` for pages 1 to `HISTORY_PAGES`.
pub fn history_urls(base: &String) -> (r: Vec<String>)
    ensures
        r@.len() == HISTORY_PAGES,
        forall|i: int|
            0 <= i < HISTORY_PAGES ==> (#[trigger] r@[i])@ == base@ + "/history.json?page="@ + (
            if i == 0 {
                "1"@
            } else {
                "2"@
            }),
{
    let mut r: Vec<String> = Vec::new();
    r.push(base.clone().concat("/history.json?page=1"));
    r.push(base.clone().concat("/history.json?page=2"));
    proof {
        reveal_strlit("/history.json?page=1");
        reveal_strlit("/history.json?page=2");
        reveal_strlit("/history.json?page=");
        reveal_strlit("1");
        reveal_strlit("2");
        assert(r@[0]@ =~= base@ + "/history.json?page="@ + "1"@);
        assert(r@[1]@ =~= base@ + "/history.json?page="@ + "2"@);
    }
    r
}

/// One month of the (undocumented) `/history.json` listing.
#[derive(Debug, Clone)]
pub struct HistoryMonth {
    pub name: String,
    pub year: i32,
    pub incidents: Vec<HistoryIncident>,
}

/// An incident code listed in a history month.
#[derive(Debug, Clone)]
pub struct HistoryIncident {
    pub code: String,
}

/// One page of `/history.json`.
#[derive(Debug, Clone)]
pub struct HistoryResponse {
    pub months: Vec<HistoryMonth>,
}

/// Month number (1 to 12) of an English month name.
pub open spec fn month_number(name: Seq<char>) -> Option<int> {
    if name == "January"@ {
        Some(1)
    } else if name == "February"@ {
        Some(2)
    } else if name == "March"@ {
        Some(3)
    } else if name == "April"@ {
        Some(4)
    } else if name == "May"@ {
        Some(5)
    } else if name == "June"@ {
        Some(6)
    } else if name == "July"@ {
        Some(7)
    } else if name == "August"@ {
        Some(8)
    } else if name == "September"@ {
        Some(9)
    } else if name == "October"@ {
        Some(10)
    } else if name == "November"@ {
        Some(11)
    } else if name == "December"@ {
        Some(12)
    } else {
        None
    }
}

/// Day number of the last day of month `m` (1 to 12) of `year`.
pub open spec fn last_day_of_month(year: i32, m: int) -> Option<int> {
    if m == 12 {
        match civil_day_number(year, 12, 31) {
            Some(d) => Some(d as int),
            None => None,
        }
    } else {
        match civil_day_number(year, (m + 1) as u32, 1) {
            Some(d) => Some(d - 1),
            None => None,
        }
    }
}

/// A history month overlaps the window when its last day is on or after
/// `cutoff`; a month with an unknown name is kept.
pub open spec fn month_overlaps_spec(name: Seq<char>, year: i32, cutoff: int) -> bool {
    match month_number(name) {
        None => true,
        Some(m) => match last_day_of_month(year, m) {
            Some(last) => last >= cutoff,
            None => false,
        },
    }
}

fn month_index(name: &str) -> (r: Option<u32>)
    ensures
        match month_number(name@) {
            Some(m) => r == Some(m as u32),
            None => r is None,
        },
{
    if text_eq(name, "January") {
        Some(1)
    } else if text_eq(name, "February") {
        Some(2)
    } else if text_eq(name, "March") {
        Some(3)
    } else if text_eq(name, "April") {
        Some(4)
    } else if text_eq(name, "May") {
        Some(5)
    } else if text_eq(name, "June") {
        Some(6)
    } else if text_eq(name, "July") {
        Some(7)
    } else if text_eq(name, "August") {
        Some(8)
    } else if text_eq(name, "September") {
        Some(9)
    } else if text_eq(name, "October") {
        Some(10)
    } else if text_eq(name, "November") {
        Some(11)
    } else if text_eq(name, "December") {
        Some(12)
    } else {
        None
    }
}

/// Whether a history month's last day falls on or after the cutoff day.
pub fn month_overlaps(month: &HistoryMonth, cutoff: i64) -> (r: bool)
    ensures
        r == month_overlaps_spec(month.name@, month.year, cutoff as int),
{
    let m = match month_index(month.name.as_str()) {
        Some(m) => m,
        None => return true,
    };
    if m == 12 {
        match civil_day(month.year, 12, 31) {
            Some(d) => (d as i64) >= cutoff,
            None => false,
        }
    } else {
        match civil_day(month.year, m + 1, 1) {
            Some(d) => (d as i64) - 1 >= cutoff,
            None => false,
        }
    }
}

/// First day of the 90-day window, as seen at `now`: the calendar day of
/// `now` minus the window length.
pub open spec fn history_cutoff(now: int) -> int {
    day_of(now - crate::bars::WINDOW_DAYS * (crate::clock::NANOS_PER_DAY as int))
}

pub fn cutoff_day(now: i128) -> (d: i64)
    requires
        valid_instant(now as int),
    ensures
        d as int == history_cutoff(now as int),
{
    let shifted = now - (crate::bars::WINDOW_DAYS as i128) * crate::clock::NANOS_PER_DAY;
    let q = shifted.checked_div_euclid(crate::clock::NANOS_PER_DAY).unwrap();
    assert(-200_000_000 <= q <= 200_000_000) by (nonlinear_arith)
        requires
            q == shifted as int / 86_400_000_000_000int,
            -9_000_000_000_000_000_000_000 <= shifted <= 9_000_000_000_000_000_000_000,
    ;
    q as i64
}

pub open spec fn code_in(code: Seq<char>, incidents: Seq<Incident>) -> bool {
    exists|i: int| 0 <= i < incidents.len() && (#[trigger] incidents[i]).id@ == code
}

/// Codes of one month still to fetch: none when the month lies before
/// the cutoff, else its codes not among `recent`, in listing order.
pub open spec fn month_codes(m: HistoryMonth, cutoff: int, recent: Seq<Incident>) -> Seq<Seq<char>> {
    if month_overlaps_spec(m.name@, m.year, cutoff) {
        m.incidents@.map_values(|h: HistoryIncident| h.code@).filter(
            |c: Seq<char>| !code_in(c, recent),
        )
    } else {
        Seq::empty()
    }
}

pub open spec fn months_codes(ms: Seq<HistoryMonth>, cutoff: int, recent: Seq<Incident>) -> Seq<
    Seq<char>,
>
    decreases ms.len(),
{
    if ms.len() == 0 {
        Seq::empty()
    } else {
        months_codes(ms.drop_last(), cutoff, recent) + month_codes(ms.last(), cutoff, recent)
    }
}

/// Codes to fetch from all history pages, in page, month and listing order.
pub open spec fn pages_codes(hs: Seq<HistoryResponse>, cutoff: int, recent: Seq<Incident>) -> Seq<
    Seq<char>,
>
    decreases hs.len(),
{
    if hs.len() == 0 {
        Seq::empty()
    } else {
        pages_codes(hs.drop_last(), cutoff, recent) + months_codes(hs.last().months@, cutoff, recent)
    }
}

fn listed_in(code: &String, incidents: &Vec<Incident>) -> (r: bool)
    ensures
        r == code_in(code@, incidents@),
{
    let mut i: usize = 0;
    while i < incidents.len()
        invariant
            i <= incidents@.len(),
            forall|j: int| 0 <= j < i ==> incidents@[j].id@ != code@,
        decreases incidents@.len() - i,
    {
        if incidents[i].id == *code {
            return true;
        }
        i = i + 1;
    }
    false
}

fn push_month_codes(out: &mut Vec<String>, m: &HistoryMonth, cutoff: i64, recent: &Vec<Incident>)
    ensures
        final(out)@.map_values(|s: String| s@) == old(out)@.map_values(|s: String| s@) + month_codes(
            *m,
            cutoff as int,
            recent@,
        ),
{
    let ghost start = out@.map_values(|s: String| s@);
    if !month_overlaps(m, cutoff) {
        assert(out@.map_values(|s: String| s@) =~= start + Seq::empty());
        return;
    }
    let ghost codes = m.incidents@.map_values(|h: HistoryIncident| h.code@);
    let ghost keep = |c: Seq<char>| !code_in(c, recent@);
    let mut k: usize = 0;
    while k < m.incidents.len()
        invariant
            k <= m.incidents@.len(),
            codes == m.incidents@.map_values(|h: HistoryIncident| h.code@),
            keep == (|c: Seq<char>| !code_in(c, recent@)),
            out@.map_values(|s: String| s@) == start + codes.take(k as int).filter(keep),
        decreases m.incidents@.len() - k,
    {
        let code = &m.incidents[k].code;
        let ghost before = out@.map_values(|s: String| s@);
        assert(codes.take(k + 1) =~= codes.take(k as int).push(code@));
        proof {
            codes.take(k as int).lemma_filter_push(code@, keep);
        }
        if !listed_in(code, recent) {
            out.push(code.clone());
            assert(out@.map_values(|s: String| s@) =~= before.push(code@));
        } else {
            assert(out@.map_values(|s: String| s@) =~= before);
        }
        k = k + 1;
    }
    assert(codes.take(k as int) =~= codes);
}

/// Incident codes listed in the history pages that overlap the window
/// and are not among the recent incidents, in page, month and listing
/// order.
pub fn history_codes_to_fetch(history: &Vec<HistoryResponse>, cutoff: i64, recent: &Vec<Incident>) -> (r:
    Vec<String>)
    ensures
        r@.map_values(|s: String| s@) == pages_codes(history@, cutoff as int, recent@),
{
    let mut out: Vec<String> = Vec::new();
    let mut p: usize = 0;
    assert(out@.map_values(|s: String| s@) =~= pages_codes(history@.take(0), cutoff as int, recent@));
    while p < history.len()
        invariant
            p <= history@.len(),
            out@.map_values(|s: String| s@) == pages_codes(history@.take(p as int), cutoff as int, recent@),
        decreases history@.len() - p,
    {
        let ghost before = out@.map_values(|s: String| s@);
        let months = &history[p].months;
        let mut q: usize = 0;
        assert(months_codes(months@.take(0), cutoff as int, recent@) =~= Seq::empty());
        assert(before =~= before + months_codes(months@.take(0), cutoff as int, recent@));
        while q < months.len()
            invariant
                q <= months@.len(),
                months == &history@[p as int].months,
                out@.map_values(|s: String| s@) == before + months_codes(months@.take(q as int), cutoff as int, recent@),
            decreases months@.len() - q,
        {
            push_month_codes(&mut out, &months[q], cutoff, recent);
            assert(months@.take(q + 1).drop_last() =~= months@.take(q as int));
            q = q + 1;
            assert(out@.map_values(|s: String| s@) =~= before + months_codes(months@.take(q as int), cutoff as int, recent@));
        }
        assert(months@.take(q as int) =~= months@);
        assert(history@.take(p + 1).drop_last() =~= history@.take(p as int));
        p = p + 1;
    }
    assert(history@.take(p as int) =~= history@);
    out
}

/// All incidents after a refresh: the recent ones, then each detail
/// fetched for an older code.
pub fn merge_detail_incidents(recent: Vec<Incident>, details: Vec<Incident>) -> (r: Vec<Incident>)
    ensures
        r@ == recent@ + details@,
{
    let mut all = recent;
    let mut details = details;
    all.append(&mut details);
    all
}

} // verus!
