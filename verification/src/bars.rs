//! The 90-day uptime bars: which components are services and in which
//! order, the status painted on each day of each service, and the
//! weighted downtime behind each service's uptime figure.

use vstd::prelude::*;

use crate::api::{
    Component, Impact, Incident, IncidentStatus, IncidentUpdate, components_valid, incidents_valid,
};
use crate::clock::{
    MAX_INSTANT, NANOS_PER_DAY, day_of, day_of_instant, day_start, max_instant, min_instant,
    minutes_between, near_instant, spec_max, spec_min, start_of_day, valid_instant, whole_minutes,
};
use crate::sorting::{
    identity_order, index_range, key_le, lemma_key_le_total, lemma_sort_by_len, lemma_sort_by_multiset,
    lemma_sort_by_sorted, sort_by, sorted_by, stable_sort_indices,
};
use crate::text::text_eq;

pub use crate::clock::today_utc;

verus! {

/// Length of the window, in days, ending today.
pub const WINDOW_DAYS: i64 = 90;

/// Length of the window in half-minutes, the unit of weighted downtime
/// (a major outage weighs two half-minutes per minute, a partial one).
pub const WINDOW_HALF_MINUTES: u128 = 259_200;

/// Status of one service on one day; later variants are more severe.
#[derive(Debug, Clone, Copy, PartialEq, Eq, PartialOrd, Ord, Structural)]
pub enum DayStatus {
    Unknown,
    Operational,
    Maintenance,
    Degraded,
    Outage,
}

/// Severity rank, in declaration order.
pub open spec fn rank(s: DayStatus) -> int {
    match s {
        DayStatus::Unknown => 0,
        DayStatus::Operational => 1,
        DayStatus::Maintenance => 2,
        DayStatus::Degraded => 3,
        DayStatus::Outage => 4,
    }
}

pub fn day_rank(s: DayStatus) -> (r: u8)
    ensures
        r as int == rank(s),
{
    match s {
        DayStatus::Unknown => 0,
        DayStatus::Operational => 1,
        DayStatus::Maintenance => 2,
        DayStatus::Degraded => 3,
        DayStatus::Outage => 4,
    }
}

/// One service's row: its day statuses over the window (oldest first)
/// and its uptime in parts per million of the window.
#[derive(Debug, Clone)]
pub struct UptimeRow {
    pub group_id: String,
    pub group_name: String,
    pub days: Vec<DayStatus>,
    pub uptime_ppm: u32,
}

// ---------------------------------------------------------------------
// Which components are services, in which order
// ---------------------------------------------------------------------

/// Groups and ungrouped components are services; grouped leaves are not.
pub open spec fn is_service(c: Component) -> bool {
    c.group || c.group_id is None
}

/// Order key: groups first, then by position.
pub open spec fn service_key(c: Component) -> i128 {
    ((if c.group { 0int } else { 1int }) * 0x1_0000_0000 + c.position as int) as i128
}

pub open spec fn service_keys(comps: Seq<Component>) -> Seq<i128> {
    comps.map_values(|c: Component| service_key(c))
}

pub open spec fn service_candidates(comps: Seq<Component>) -> Seq<usize> {
    identity_order(comps.len()).filter(|i: usize| is_service(comps[i as int]))
}

/// Indices of the services, groups before ungrouped components and each
/// kind by ascending position, ties kept in input order.
pub open spec fn service_order(comps: Seq<Component>) -> Seq<usize> {
    sort_by(service_candidates(comps), key_le(service_keys(comps)))
}

fn service_key_exec(c: &Component) -> (k: i128)
    ensures
        k == service_key(*c),
{
    let flag: i128 = if c.group {
        0
    } else {
        1
    };
    flag * 0x1_0000_0000 + (c.position as i128)
}

/// Indices of the service components, in display order.
pub fn service_indices(comps: &Vec<Component>) -> (r: Vec<usize>)
    ensures
        r@ == service_order(comps@),
        forall|k: int| 0 <= k < r@.len() ==> (#[trigger] r@[k]) < comps@.len(),
{
    let n = comps.len();
    let mut keys: Vec<i128> = Vec::new();
    let mut cands: Vec<usize> = Vec::new();
    let ghost pred = |i: usize| is_service(comps@[i as int]);
    let mut i: usize = 0;
    assert(identity_order(0).filter(pred) =~= Seq::<usize>::empty());
    while i < n
        invariant
            n == comps@.len(),
            i <= n,
            keys@ == service_keys(comps@.take(i as int)),
            pred == (|i: usize| is_service(comps@[i as int])),
            cands@ == identity_order(i as nat).filter(pred),
            forall|k: int| 0 <= k < cands@.len() ==> (#[trigger] cands@[k]) < i,
        decreases n - i,
    {
        let c = &comps[i];
        keys.push(service_key_exec(c));
        assert(comps@.take(i + 1) =~= comps@.take(i as int).push(*c));
        assert(service_keys(comps@.take(i + 1)) =~= service_keys(comps@.take(i as int)).push(
            service_key(*c),
        ));
        assert(identity_order((i + 1) as nat) =~= identity_order(i as nat).push(i));
        proof {
            identity_order(i as nat).lemma_filter_push(i, pred);
        }
        if c.group || c.group_id.is_none() {
            cands.push(i);
        }
        i = i + 1;
    }
    assert(comps@.take(n as int) =~= comps@);
    assert(identity_order(n as nat) =~= identity_order(comps@.len()));
    stable_sort_indices(&cands, &keys)
}

// ---------------------------------------------------------------------
// Day statuses
// ---------------------------------------------------------------------

/// First calendar day of the window that ends on `today`'s day.
pub open spec fn window_start_day(today: int) -> int {
    day_of(today) - (WINDOW_DAYS - 1)
}

/// Status of day `i` of a fresh row: unknown before the component existed.
pub open spec fn initial_day(c: Component, start: int, i: int) -> DayStatus {
    if start + i < day_of(c.created_at as int) {
        DayStatus::Unknown
    } else {
        DayStatus::Operational
    }
}

/// Group of a grouped component: that of the last component with this id
/// and a group.
pub open spec fn parent_of(comps: Seq<Component>, id: Seq<char>) -> Option<Seq<char>>
    decreases comps.len(),
{
    if comps.len() == 0 {
        None
    } else {
        let c = comps.last();
        if c.id@ == id && c.group_id is Some {
            Some(c.group_id->0@)
        } else {
            parent_of(comps.drop_last(), id)
        }
    }
}

/// The service an incident's component reference paints: its group if
/// grouped, else itself.
pub open spec fn target_of(comps: Seq<Component>, id: Seq<char>) -> Seq<char> {
    match parent_of(comps, id) {
        Some(g) => g,
        None => id,
    }
}

/// Row carrying a service id: the last row with that id.
pub open spec fn row_index(ids: Seq<Seq<char>>, id: Seq<char>) -> Option<int>
    decreases ids.len(),
{
    if ids.len() == 0 {
        None
    } else if ids.last() == id {
        Some(ids.len() - 1)
    } else {
        row_index(ids.drop_last(), id)
    }
}

/// Ids of the rows, in row order.
pub open spec fn row_ids(comps: Seq<Component>) -> Seq<Seq<char>> {
    service_order(comps).map_values(|j: usize| comps[j as int].id@)
}

pub open spec fn severity(i: Impact) -> DayStatus {
    match i {
        Impact::Nil => DayStatus::Operational,
        Impact::Minor => DayStatus::Degraded,
        Impact::Major => DayStatus::Outage,
        Impact::Critical => DayStatus::Outage,
        Impact::Maintenance => DayStatus::Maintenance,
    }
}

pub fn severity_for(impact: Impact) -> (s: DayStatus)
    ensures
        s == severity(impact),
{
    match impact {
        Impact::Nil => DayStatus::Operational,
        Impact::Minor => DayStatus::Degraded,
        Impact::Major | Impact::Critical => DayStatus::Outage,
        Impact::Maintenance => DayStatus::Maintenance,
    }
}

/// The incident names a component that paints row `r`.
pub open spec fn hits(comps: Seq<Component>, ids: Seq<Seq<char>>, inc: Incident, r: int) -> bool {
    exists|j: int|
        0 <= j < inc.components@.len() && row_index(
            ids,
            target_of(comps, (#[trigger] inc.components@[j]).id@),
        ) == Some(r)
}

/// When an incident ends for painting: resolution, or `today` if open.
pub open spec fn painted_end(inc: Incident, today: int) -> int {
    match inc.resolved_at {
        Some(t) => t as int,
        None => today,
    }
}

/// The incident spans calendar day `d`.
pub open spec fn covers(inc: Incident, today: int, d: int) -> bool {
    day_of(inc.started_at as int) <= d <= day_of(painted_end(inc, today))
}

/// One incident's effect on one day of one row: a known day is raised to
/// the incident's severity when the incident hits the row, spans the
/// day, and is more severe.
pub open spec fn paint_step(
    prev: DayStatus,
    comps: Seq<Component>,
    ids: Seq<Seq<char>>,
    inc: Incident,
    today: int,
    r: int,
    d: int,
) -> DayStatus {
    if inc.impact != Impact::Nil && prev != DayStatus::Unknown && hits(comps, ids, inc, r) && covers(
        inc,
        today,
        d,
    ) && rank(severity(inc.impact)) > rank(prev) {
        severity(inc.impact)
    } else {
        prev
    }
}

/// Day `d` of row `r` after painting every incident in turn.
pub open spec fn painted(
    init: DayStatus,
    comps: Seq<Component>,
    ids: Seq<Seq<char>>,
    incs: Seq<Incident>,
    today: int,
    r: int,
    d: int,
) -> DayStatus
    decreases incs.len(),
{
    if incs.len() == 0 {
        init
    } else {
        paint_step(painted(init, comps, ids, incs.drop_last(), today, r, d), comps, ids, incs.last(), today, r, d)
    }
}

/// Status of day `i` (oldest first) of row `k` of the bars computed at `today`.
pub open spec fn day_status(comps: Seq<Component>, incs: Seq<Incident>, today: int, k: int, i: int) -> DayStatus {
    let start = window_start_day(today);
    let c = comps[service_order(comps)[k] as int];
    painted(initial_day(c, start, i), comps, row_ids(comps), incs, today, k, start + i)
}

pub open spec fn views(v: Seq<String>) -> Seq<Seq<char>> {
    v.map_values(|s: String| s@)
}

fn find_parent(comps: &Vec<Component>, id: &String) -> (r: Option<String>)
    ensures
        match r {
            Some(g) => parent_of(comps@, id@) == Some(g@),
            None => parent_of(comps@, id@) is None,
        },
{
    let mut i = comps.len();
    assert(comps@.take(i as int) =~= comps@);
    while i > 0
        invariant
            i <= comps@.len(),
            parent_of(comps@, id@) == parent_of(comps@.take(i as int), id@),
        decreases i,
    {
        i = i - 1;
        let c = &comps[i];
        assert(comps@.take(i + 1).drop_last() =~= comps@.take(i as int));
        assert(comps@.take(i + 1).last() == *c);
        if c.id == *id {
            match &c.group_id {
                Some(g) => {
                    return Some(g.clone());
                },
                None => {},
            }
        }
    }
    None
}

/// The service id a component reference resolves to.
fn resolve_target(comps: &Vec<Component>, id: &String) -> (r: String)
    ensures
        r@ == target_of(comps@, id@),
{
    match find_parent(comps, id) {
        Some(g) => g,
        None => id.clone(),
    }
}

fn find_row(ids: &Vec<String>, id: &String) -> (r: Option<usize>)
    ensures
        match r {
            Some(k) => row_index(views(ids@), id@) == Some(k as int) && k < ids@.len(),
            None => row_index(views(ids@), id@) is None,
        },
{
    let mut i = ids.len();
    assert(views(ids@).take(i as int) =~= views(ids@));
    while i > 0
        invariant
            i <= ids@.len(),
            row_index(views(ids@), id@) == row_index(views(ids@).take(i as int), id@),
        decreases i,
    {
        i = i - 1;
        assert(views(ids@).take(i + 1).drop_last() =~= views(ids@).take(i as int));
        assert(views(ids@).take(i + 1).last() == ids@[i as int]@);
        if ids[i] == *id {
            return Some(i);
        }
    }
    None
}

/// `paint_step` with the hit decided by the caller.
pub open spec fn step_if(prev: DayStatus, hit: bool, inc: Incident, today: int, d: int) -> DayStatus {
    if inc.impact != Impact::Nil && prev != DayStatus::Unknown && hit && covers(inc, today, d) && rank(
        severity(inc.impact),
    ) > rank(prev) {
        severity(inc.impact)
    } else {
        prev
    }
}

proof fn lemma_step_idempotent(prev: DayStatus, inc: Incident, today: int, d: int)
    ensures
        step_if(step_if(prev, true, inc, today, d), true, inc, today, d) == step_if(prev, true, inc, today, d),
{
}

/// Raises the days of one row that an incident spans to its severity.
fn paint(days: &mut Vec<DayStatus>, inc: &Incident, today: i128, start: i64)
    requires
        old(days)@.len() == WINDOW_DAYS,
        inc.times_valid(),
        valid_instant(today as int),
        start as int == window_start_day(today as int),
    ensures
        final(days)@.len() == WINDOW_DAYS,
        forall|i: int|
            0 <= i < WINDOW_DAYS ==> #[trigger] final(days)@[i] == step_if(
                old(days)@[i],
                true,
                *inc,
                today as int,
                start + i,
            ),
{
    let sev = severity_for(inc.impact);
    let from = day_of_instant(inc.started_at);
    let end = match inc.resolved_at {
        Some(t) => t,
        None => today,
    };
    let to = day_of_instant(end);
    let mut i: usize = 0;
    while i < 90
        invariant
            days@.len() == WINDOW_DAYS,
            i <= 90,
            -100_000_000 <= start <= 100_000_000,
            sev == severity(inc.impact),
            from as int == day_of(inc.started_at as int),
            to as int == day_of(painted_end(*inc, today as int)),
            forall|k: int|
                0 <= k < i ==> #[trigger] days@[k] == step_if(
                    old(days)@[k],
                    true,
                    *inc,
                    today as int,
                    start + k,
                ),
            forall|k: int| i <= k < WINDOW_DAYS ==> #[trigger] days@[k] == old(days)@[k],
        decreases 90 - i,
    {
        let d = start + (i as i64);
        let cur = days[i];
        if !matches!(inc.impact, Impact::Nil) && !matches!(cur, DayStatus::Unknown) && from <= d && d
            <= to && day_rank(sev) > day_rank(cur) {
            days.set(i, sev);
        }
        i = i + 1;
    }
}

/// The incident hits row `r` through one of its first `m` component references.
pub open spec fn hits_upto(comps: Seq<Component>, ids: Seq<Seq<char>>, inc: Incident, m: int, r: int) -> bool {
    exists|j: int|
        0 <= j < m && row_index(ids, target_of(comps, (#[trigger] inc.components@[j]).id@)) == Some(r)
}

pub open spec fn grid_shape(grid: Seq<Vec<DayStatus>>, rows: int) -> bool {
    &&& grid.len() == rows
    &&& forall|k: int| 0 <= k < rows ==> (#[trigger] grid[k])@.len() == WINDOW_DAYS
}

/// Paints every incident that has an impact onto the rows it hits.
fn paint_incidents(
    grid: &mut Vec<Vec<DayStatus>>,
    comps: &Vec<Component>,
    ids: &Vec<String>,
    incs: &Vec<Incident>,
    today: i128,
    start: i64,
)
    requires
        grid_shape(old(grid)@, ids@.len() as int),
        incidents_valid(incs@),
        valid_instant(today as int),
        start as int == window_start_day(today as int),
    ensures
        grid_shape(final(grid)@, ids@.len() as int),
        forall|k: int, i: int|
            0 <= k < ids@.len() && 0 <= i < WINDOW_DAYS ==> #[trigger] final(grid)@[k]@[i] == painted(
                old(grid)@[k]@[i],
                comps@,
                views(ids@),
                incs@,
                today as int,
                k,
                start + i,
            ),
{
    let ghost init = old(grid)@;
    let ghost vids = views(ids@);
    let mut n: usize = 0;
    while n < incs.len()
        invariant
            n <= incs@.len(),
            vids == views(ids@),
            grid_shape(grid@, ids@.len() as int),
            incidents_valid(incs@),
            valid_instant(today as int),
            start as int == window_start_day(today as int),
            forall|k: int, i: int|
                0 <= k < ids@.len() && 0 <= i < WINDOW_DAYS ==> #[trigger] grid@[k]@[i] == painted(
                    init[k]@[i],
                    comps@,
                    vids,
                    incs@.take(n as int),
                    today as int,
                    k,
                    start + i,
                ),
        decreases incs@.len() - n,
    {
        let inc = &incs[n];
        let ghost before = grid@;
        assert(incs@.take(n + 1).drop_last() =~= incs@.take(n as int));
        assert(incs@.take(n + 1).last() == *inc);
        assert(inc.times_valid());
        let mut j: usize = 0;
        while j < inc.components.len()
            invariant
                j <= inc.components@.len(),
                *inc == incs@[n as int],
                inc.times_valid(),
                vids == views(ids@),
                grid_shape(grid@, ids@.len() as int),
                grid_shape(before, ids@.len() as int),
                valid_instant(today as int),
                start as int == window_start_day(today as int),
                forall|k: int, i: int|
                    0 <= k < ids@.len() && 0 <= i < WINDOW_DAYS ==> #[trigger] grid@[k]@[i] == step_if(
                        before[k]@[i],
                        hits_upto(comps@, vids, *inc, j as int, k),
                        *inc,
                        today as int,
                        start + i,
                    ),
            decreases inc.components@.len() - j,
        {
            let target = resolve_target(comps, &inc.components[j].id);
            let found = find_row(ids, &target);
            let ghost mid = grid@;
            match found {
                Some(r) => {
                    paint(&mut grid[r], inc, today, start);
                    assert forall|k: int, i: int|
                        0 <= k < ids@.len() && 0 <= i < WINDOW_DAYS implies #[trigger] grid@[k]@[i]
                        == step_if(
                            before[k]@[i],
                            hits_upto(comps@, vids, *inc, j + 1, k),
                            *inc,
                            today as int,
                            start + i,
                        ) by {
                        if k == r {
                            assert(hits_upto(comps@, vids, *inc, j + 1, k)) by {
                                assert(row_index(vids, target_of(comps@, inc.components@[j as int].id@))
                                    == Some(k));
                            }
                            lemma_step_idempotent(before[k]@[i], *inc, today as int, start + i);
                        } else {
                            assert(grid@[k] == mid[k]);
                            assert(hits_upto(comps@, vids, *inc, j + 1, k) == hits_upto(
                                comps@,
                                vids,
                                *inc,
                                j as int,
                                k,
                            )) by {
                                if hits_upto(comps@, vids, *inc, j + 1, k) {
                                    let jj = choose|jj: int|
                                        0 <= jj < j + 1 && row_index(
                                            vids,
                                            target_of(comps@, (#[trigger] inc.components@[jj]).id@),
                                        ) == Some(k);
                                    assert(jj != j);
                                }
                            }
                        }
                    }
                },
                None => {
                    assert forall|k: int, i: int|
                        0 <= k < ids@.len() && 0 <= i < WINDOW_DAYS implies #[trigger] grid@[k]@[i]
                        == step_if(
                            before[k]@[i],
                            hits_upto(comps@, vids, *inc, j + 1, k),
                            *inc,
                            today as int,
                            start + i,
                        ) by {
                        assert(hits_upto(comps@, vids, *inc, j + 1, k) == hits_upto(
                            comps@,
                            vids,
                            *inc,
                            j as int,
                            k,
                        )) by {
                            if hits_upto(comps@, vids, *inc, j + 1, k) {
                                let jj = choose|jj: int|
                                    0 <= jj < j + 1 && row_index(
                                        vids,
                                        target_of(comps@, (#[trigger] inc.components@[jj]).id@),
                                    ) == Some(k);
                                assert(jj != j);
                            }
                        }
                    }
                },
            }
            j = j + 1;
        }
        assert forall|k: int, i: int|
            0 <= k < ids@.len() && 0 <= i < WINDOW_DAYS implies #[trigger] grid@[k]@[i] == painted(
                init[k]@[i],
                comps@,
                vids,
                incs@.take(n + 1),
                today as int,
                k,
                start + i,
            ) by {
            assert(hits_upto(comps@, vids, *inc, inc.components@.len() as int, k) == hits(
                comps@,
                vids,
                *inc,
                k,
            ));
        }
        n = n + 1;
    }
    assert(incs@.take(n as int) =~= incs@);
}

// ---------------------------------------------------------------------
// Weighted downtime
// ---------------------------------------------------------------------

/// Half-minutes of downtime credited per minute in a component status:
/// two for a major outage, one for a partial outage, none otherwise.
pub open spec fn weight_half(status: Seq<char>) -> int {
    if status == "major_outage"@ {
        2
    } else if status == "partial_outage"@ {
        1
    } else {
        0
    }
}

/// Weight of a component status, in half-minutes per minute.
pub fn status_weight(status: &str) -> (w: u128)
    ensures
        w as int == weight_half(status@),
{
    if text_eq(status, "major_outage") {
        2
    } else if text_eq(status, "partial_outage") {
        1
    } else {
        0
    }
}

/// Statuses from which Statuspage counts an incident as mitigated.
pub open spec fn mitigating(s: IncidentStatus) -> bool {
    s == IncidentStatus::Monitoring || s == IncidentStatus::Resolved || s == IncidentStatus::Postmortem
}

/// Earliest shown time of an update in a mitigating status.
pub open spec fn mitigation(us: Seq<IncidentUpdate>) -> Option<int>
    decreases us.len(),
{
    if us.len() == 0 {
        None
    } else {
        let m = mitigation(us.drop_last());
        let u = us.last();
        if mitigating(u.status) {
            match m {
                Some(x) => Some(spec_min(x, u.shown_at() as int)),
                None => Some(u.shown_at() as int),
            }
        } else {
            m
        }
    }
}

/// The earliest time the incident reached monitoring, resolved or
/// postmortem; `None` if it never did.
pub fn mitigation_timestamp(inc: &Incident) -> (r: Option<i128>)
    ensures
        match r {
            Some(t) => mitigation(inc.incident_updates@) == Some(t as int),
            None => mitigation(inc.incident_updates@) is None,
        },
{
    let us = &inc.incident_updates;
    let mut best: Option<i128> = None;
    let mut k: usize = 0;
    while k < us.len()
        invariant
            k <= us@.len(),
            match best {
                Some(t) => mitigation(us@.take(k as int)) == Some(t as int),
                None => mitigation(us@.take(k as int)) is None,
            },
        decreases us@.len() - k,
    {
        let u = &us[k];
        assert(us@.take(k + 1).drop_last() =~= us@.take(k as int));
        assert(us@.take(k + 1).last() == *u);
        if matches!(u.status, IncidentStatus::Monitoring | IncidentStatus::Resolved | IncidentStatus::Postmortem) {
            let t = u.shown_at_exec();
            best = match best {
                Some(b) => Some(min_instant(b, t)),
                None => Some(t),
            };
        }
        k = k + 1;
    }
    assert(us@.take(k as int) =~= us@);
    best
}

/// When downtime stops accruing at the latest: resolution (or `today`
/// if open), but never after `today`.
pub open spec fn incident_end(inc: Incident, today: int) -> int {
    spec_min(painted_end(inc, today), today)
}

/// Mitigation time, capped at the incident's end.
pub open spec fn mitigation_end(inc: Incident, today: int) -> int {
    let end = incident_end(inc, today);
    spec_min(
        match mitigation(inc.incident_updates@) {
            Some(m) => m,
            None => end,
        },
        end,
    )
}

/// The component transitions an update records: (shown time, component
/// code, new status).
pub open spec fn update_events(u: IncidentUpdate) -> Seq<(int, Seq<char>, Seq<char>)> {
    match u.affected_components {
        Some(v) => v@.map_values(
            |ac: crate::api::AffectedComponent| (u.shown_at() as int, ac.code@, ac.new_status@),
        ),
        None => Seq::empty(),
    }
}

pub open spec fn events_of(us: Seq<IncidentUpdate>) -> Seq<(int, Seq<char>, Seq<char>)>
    decreases us.len(),
{
    if us.len() == 0 {
        Seq::empty()
    } else {
        events_of(us.drop_last()) + update_events(us.last())
    }
}

pub open spec fn shown_keys(us: Seq<IncidentUpdate>) -> Seq<i128> {
    us.map_values(|u: IncidentUpdate| u.shown_at())
}

/// Updates in stable order of their shown time.
pub open spec fn sorted_updates(us: Seq<IncidentUpdate>) -> Seq<IncidentUpdate> {
    sort_by(identity_order(us.len()), key_le(shown_keys(us))).map_values(|k: usize| us[k as int])
}

/// All transitions of an incident, in order of shown time.
pub open spec fn incident_events(inc: Incident) -> Seq<(int, Seq<char>, Seq<char>)> {
    events_of(sorted_updates(inc.incident_updates@))
}

/// Status timeline of one component: each transition for it that changes
/// the status opens a span (start time, status).
pub open spec fn timeline(events: Seq<(int, Seq<char>, Seq<char>)>, code: Seq<char>) -> Seq<
    (int, Seq<char>),
>
    decreases events.len(),
{
    if events.len() == 0 {
        Seq::empty()
    } else {
        let t = timeline(events.drop_last(), code);
        let e = events.last();
        if e.1 == code && (t.len() == 0 || t.last().1 != e.2) {
            t.push((e.0, e.2))
        } else {
            t
        }
    }
}

/// Component codes in order of first appearance.
pub open spec fn distinct_codes(events: Seq<(int, Seq<char>, Seq<char>)>) -> Seq<Seq<char>>
    decreases events.len(),
{
    if events.len() == 0 {
        Seq::empty()
    } else {
        let d = distinct_codes(events.drop_last());
        if d.contains(events.last().1) {
            d
        } else {
            d.push(events.last().1)
        }
    }
}

/// Weighted half-minutes of span `i`: it ends at the next span or the
/// incident's end, is cut at mitigation, and is clipped to the window.
pub open spec fn span_half_minutes(
    spans: Seq<(int, Seq<char>)>,
    i: int,
    inc_end: int,
    mit: int,
    ws: int,
    today: int,
) -> int {
    let w = weight_half(spans[i].1);
    let span_end = if i + 1 < spans.len() {
        spans[i + 1].0
    } else {
        inc_end
    };
    let s = spec_max(spans[i].0, ws);
    let e = spec_min(spec_min(span_end, mit), today);
    if w == 0 || e <= s {
        0
    } else {
        w * whole_minutes(s, e)
    }
}

/// Sum of the first `n` spans.
pub open spec fn spans_total(
    spans: Seq<(int, Seq<char>)>,
    n: int,
    inc_end: int,
    mit: int,
    ws: int,
    today: int,
) -> int
    decreases n,
{
    if n <= 0 {
        0
    } else {
        spans_total(spans, n - 1, inc_end, mit, ws, today) + span_half_minutes(
            spans,
            n - 1,
            inc_end,
            mit,
            ws,
            today,
        )
    }
}

/// The row a component code's downtime is credited to: its own row, else
/// its group's.
pub open spec fn code_row(comps: Seq<Component>, ids: Seq<Seq<char>>, code: Seq<char>) -> Option<int> {
    if row_index(ids, code) is Some {
        row_index(ids, code)
    } else {
        match parent_of(comps, code) {
            Some(p) => row_index(ids, p),
            None => None,
        }
    }
}

/// Downtime credited to row `r` by the first `n` codes.
pub open spec fn codes_downtime(
    codes: Seq<Seq<char>>,
    n: int,
    events: Seq<(int, Seq<char>, Seq<char>)>,
    comps: Seq<Component>,
    ids: Seq<Seq<char>>,
    inc_end: int,
    mit: int,
    ws: int,
    today: int,
    r: int,
) -> int
    decreases n,
{
    if n <= 0 {
        0
    } else {
        codes_downtime(codes, n - 1, events, comps, ids, inc_end, mit, ws, today, r) + if code_row(
            comps,
            ids,
            codes[n - 1],
        ) == Some(r) {
            let spans = timeline(events, codes[n - 1]);
            spans_total(spans, spans.len() as int, inc_end, mit, ws, today)
        } else {
            0
        }
    }
}

/// Weighted half-minutes the outage spans of one incident credit to row
/// `r`: over each affected component code, the sum of its spans.
pub open spec fn spans_downtime(
    comps: Seq<Component>,
    ids: Seq<Seq<char>>,
    inc: Incident,
    ws: int,
    today: int,
    r: int,
) -> int {
    let events = incident_events(inc);
    let codes = distinct_codes(events);
    codes_downtime(
        codes,
        codes.len() as int,
        events,
        comps,
        ids,
        incident_end(inc, today),
        mitigation_end(inc, today),
        ws,
        today,
        r,
    )
}

/// Weighted half-minutes one incident counts against row `r`; incidents
/// of no impact or of maintenance count for none.
pub open spec fn incident_downtime(
    comps: Seq<Component>,
    ids: Seq<Seq<char>>,
    inc: Incident,
    ws: int,
    today: int,
    r: int,
) -> int {
    if inc.impact == Impact::Nil || inc.impact == Impact::Maintenance {
        0
    } else {
        spans_downtime(comps, ids, inc, ws, today, r)
    }
}

pub open spec fn total_downtime(
    comps: Seq<Component>,
    ids: Seq<Seq<char>>,
    incs: Seq<Incident>,
    ws: int,
    today: int,
    r: int,
) -> int
    decreases incs.len(),
{
    if incs.len() == 0 {
        0
    } else {
        total_downtime(comps, ids, incs.drop_last(), ws, today, r) + incident_downtime(
            comps,
            ids,
            incs.last(),
            ws,
            today,
            r,
        )
    }
}

/// Uptime in parts per million of the window for a weighted downtime in
/// half-minutes, rounded down and never below zero.
pub open spec fn uptime_ppm_of(down: int) -> int {
    if down >= WINDOW_HALF_MINUTES {
        0
    } else {
        (WINDOW_HALF_MINUTES - down) * 1_000_000 / (WINDOW_HALF_MINUTES as int)
    }
}

/// Weighted downtime of row `k` of the bars computed at `today`.
pub open spec fn row_downtime(comps: Seq<Component>, incs: Seq<Incident>, today: int, k: int) -> int {
    total_downtime(comps, row_ids(comps), incs, day_start(window_start_day(today)), today, k)
}

pub open spec fn event_views(ev: Seq<(i128, String, String)>) -> Seq<(int, Seq<char>, Seq<char>)> {
    ev.map_values(|e: (i128, String, String)| (e.0 as int, e.1@, e.2@))
}

pub open spec fn events_valid(ev: Seq<(i128, String, String)>) -> bool {
    forall|k: int| 0 <= k < ev.len() ==> valid_instant((#[trigger] ev[k]).0 as int)
}

/// The component transitions of an incident, in stable order of shown time.
fn collect_events(inc: &Incident) -> (ev: Vec<(i128, String, String)>)
    requires
        inc.times_valid(),
    ensures
        event_views(ev@) == incident_events(*inc),
        events_valid(ev@),
{
    let us = &inc.incident_updates;
    let n = us.len();
    let mut keys: Vec<i128> = Vec::new();
    let mut k: usize = 0;
    while k < n
        invariant
            n == us@.len(),
            k <= n,
            keys@ == shown_keys(us@.take(k as int)),
        decreases n - k,
    {
        keys.push(us[k].shown_at_exec());
        assert(us@.take(k + 1) =~= us@.take(k as int).push(us@[k as int]));
        assert(shown_keys(us@.take(k + 1)) =~= shown_keys(us@.take(k as int)).push(us@[k as int].shown_at()));
        k = k + 1;
    }
    assert(us@.take(n as int) =~= us@);
    let all = index_range(n);
    let order = stable_sort_indices(&all, &keys);
    let ghost sorted = sorted_updates(us@);
    assert(sorted =~= order@.map_values(|x: usize| us@[x as int]));
    let mut ev: Vec<(i128, String, String)> = Vec::new();
    let mut p: usize = 0;
    assert(sorted.take(0) =~= Seq::<IncidentUpdate>::empty());
    while p < order.len()
        invariant
            p <= order@.len(),
            order@.len() == n,
            n == us@.len(),
            forall|q: int| 0 <= q < order@.len() ==> (#[trigger] order@[q]) < n,
            sorted == order@.map_values(|x: usize| us@[x as int]),
            us@ == inc.incident_updates@,
            inc.times_valid(),
            event_views(ev@) == events_of(sorted.take(p as int)),
            events_valid(ev@),
        decreases order@.len() - p,
    {
        let u = &us[order[p]];
        assert(sorted[p as int] == *u);
        assert(sorted.take(p + 1).drop_last() =~= sorted.take(p as int));
        assert(sorted.take(p + 1).last() == *u);
        proof {
            let idx = order@[p as int] as int;
            assert(0 <= idx < inc.incident_updates@.len());
            assert(inc.times_valid());
            assert(inc.incident_updates@[idx].times_valid());
        }
        assert(u.times_valid());
        let ts = u.shown_at_exec();
        let ghost before = event_views(ev@);
        match &u.affected_components {
            Some(v) => {
                let mut a: usize = 0;
                while a < v.len()
                    invariant
                        a <= v@.len(),
                        valid_instant(ts as int),
                        ts == u.shown_at(),
                        u.affected_components == Some(*v),
                        event_views(ev@) == before + update_events(*u).take(a as int),
                        events_valid(ev@),
                    decreases v@.len() - a,
                {
                    let ac = &v[a];
                    let ghost prev = ev@;
                    ev.push((ts, ac.code.clone(), ac.new_status.clone()));
                    assert(update_events(*u).take(a + 1) =~= update_events(*u).take(a as int).push(
                        (ts as int, ac.code@, ac.new_status@),
                    ));
                    assert(event_views(ev@) =~= event_views(prev).push((ts as int, ac.code@, ac.new_status@)));
                    a = a + 1;
                }
                assert(update_events(*u).take(a as int) =~= update_events(*u));
            },
            None => {
                assert(event_views(ev@) =~= before + update_events(*u));
            },
        }
        p = p + 1;
    }
    assert(sorted.take(p as int) =~= sorted);
    ev
}

/// Component codes of the events, in order of first appearance.
fn distinct_event_codes(ev: &Vec<(i128, String, String)>) -> (codes: Vec<String>)
    ensures
        views(codes@) == distinct_codes(event_views(ev@)),
{
    let mut codes: Vec<String> = Vec::new();
    let mut k: usize = 0;
    while k < ev.len()
        invariant
            k <= ev@.len(),
            views(codes@) == distinct_codes(event_views(ev@).take(k as int)),
        decreases ev@.len() - k,
    {
        let code = &ev[k].1;
        assert(event_views(ev@).take(k + 1).drop_last() =~= event_views(ev@).take(k as int));
        assert(event_views(ev@).take(k + 1).last().1 == code@);
        let mut seen = false;
        let mut q: usize = 0;
        while q < codes.len()
            invariant
                q <= codes@.len(),
                seen == exists|z: int| 0 <= z < q && codes@[z]@ == code@,
            decreases codes@.len() - q,
        {
            if codes[q] == *code {
                seen = true;
            }
            q = q + 1;
        }
        proof {
            if seen {
                let z = choose|z: int| 0 <= z < q && codes@[z]@ == code@;
                assert(views(codes@)[z] == code@);
            } else {
                assert forall|z: int| 0 <= z < views(codes@).len() implies views(codes@)[z] != code@ by {
                    assert(views(codes@)[z] == codes@[z]@);
                }
            }
        }
        if !seen {
            let ghost prev = codes@;
            codes.push(code.clone());
            assert(views(codes@) =~= views(prev).push(code@));
        }
        k = k + 1;
    }
    assert(event_views(ev@).take(k as int) =~= event_views(ev@));
    codes
}

pub open spec fn span_views(sp: Seq<(i128, String)>) -> Seq<(int, Seq<char>)> {
    sp.map_values(|e: (i128, String)| (e.0 as int, e.1@))
}

/// The status timeline of one component code.
fn timeline_of(ev: &Vec<(i128, String, String)>, code: &String) -> (sp: Vec<(i128, String)>)
    requires
        events_valid(ev@),
    ensures
        span_views(sp@) == timeline(event_views(ev@), code@),
        forall|k: int| 0 <= k < sp@.len() ==> valid_instant((#[trigger] sp@[k]).0 as int),
{
    let mut sp: Vec<(i128, String)> = Vec::new();
    let mut k: usize = 0;
    while k < ev.len()
        invariant
            k <= ev@.len(),
            events_valid(ev@),
            span_views(sp@) == timeline(event_views(ev@).take(k as int), code@),
            forall|q: int| 0 <= q < sp@.len() ==> valid_instant((#[trigger] sp@[q]).0 as int),
        decreases ev@.len() - k,
    {
        let e = &ev[k];
        assert(event_views(ev@).take(k + 1).drop_last() =~= event_views(ev@).take(k as int));
        assert(event_views(ev@).take(k + 1).last() == (e.0 as int, e.1@, e.2@));
        assert(valid_instant(ev@[k as int].0 as int));
        if e.1 == *code {
            let differs = if sp.len() == 0 {
                true
            } else {
                let last = &sp[sp.len() - 1].1;
                assert(span_views(sp@).last().1 == last@);
                !(*last == e.2)
            };
            if differs {
                let ghost prev = sp@;
                sp.push((e.0, e.2.clone()));
                assert(span_views(sp@) =~= span_views(prev).push((e.0 as int, e.2@)));
            }
        }
        k = k + 1;
    }
    assert(event_views(ev@).take(k as int) =~= event_views(ev@));
    sp
}

/// `x`, or `u128::MAX` where it does not fit.
pub open spec fn saturated(x: int) -> int {
    spec_min(x, u128::MAX as int)
}

proof fn lemma_span_nonneg(spans: Seq<(int, Seq<char>)>, i: int, inc_end: int, mit: int, ws: int, today: int)
    ensures
        span_half_minutes(spans, i, inc_end, mit, ws, today) >= 0,
{
    let w = weight_half(spans[i].1);
    let span_end = if i + 1 < spans.len() {
        spans[i + 1].0
    } else {
        inc_end
    };
    let s = spec_max(spans[i].0, ws);
    let e = spec_min(spec_min(span_end, mit), today);
    if w != 0 && e > s {
        assert(whole_minutes(s, e) >= 0) by (nonlinear_arith)
            requires
                e > s,
                whole_minutes(s, e) == (e - s) / 60_000_000_000int,
        ;
        assert(w * whole_minutes(s, e) >= 0) by (nonlinear_arith)
            requires
                w >= 0,
                whole_minutes(s, e) >= 0,
        ;
    }
}

proof fn lemma_spans_nonneg(spans: Seq<(int, Seq<char>)>, n: int, inc_end: int, mit: int, ws: int, today: int)
    ensures
        spans_total(spans, n, inc_end, mit, ws, today) >= 0,
    decreases n,
{
    if n > 0 {
        lemma_spans_nonneg(spans, n - 1, inc_end, mit, ws, today);
        lemma_span_nonneg(spans, n - 1, inc_end, mit, ws, today);
    }
}

proof fn lemma_codes_nonneg(
    codes: Seq<Seq<char>>,
    n: int,
    events: Seq<(int, Seq<char>, Seq<char>)>,
    comps: Seq<Component>,
    ids: Seq<Seq<char>>,
    inc_end: int,
    mit: int,
    ws: int,
    today: int,
    r: int,
)
    ensures
        codes_downtime(codes, n, events, comps, ids, inc_end, mit, ws, today, r) >= 0,
    decreases n,
{
    if n > 0 {
        lemma_codes_nonneg(codes, n - 1, events, comps, ids, inc_end, mit, ws, today, r);
        let spans = timeline(events, codes[n - 1]);
        lemma_spans_nonneg(spans, spans.len() as int, inc_end, mit, ws, today);
    }
}

pub proof fn lemma_incident_downtime_nonneg(
    comps: Seq<Component>,
    ids: Seq<Seq<char>>,
    inc: Incident,
    ws: int,
    today: int,
    r: int,
)
    ensures
        spans_downtime(comps, ids, inc, ws, today, r) >= 0,
        incident_downtime(comps, ids, inc, ws, today, r) >= 0,
{
    let events = incident_events(inc);
    let codes = distinct_codes(events);
    lemma_codes_nonneg(
        codes,
        codes.len() as int,
        events,
        comps,
        ids,
        incident_end(inc, today),
        mitigation_end(inc, today),
        ws,
        today,
        r,
    );
}

/// Adds the weighted downtime of a timeline to row `r` (saturating at
/// `u128::MAX`).
fn add_spans(
    down: &mut Vec<u128>,
    r: usize,
    sp: &Vec<(i128, String)>,
    inc_end: i128,
    mit: i128,
    ws: i128,
    today: i128,
)
    requires
        r < old(down)@.len(),
        forall|k: int| 0 <= k < sp@.len() ==> valid_instant((#[trigger] sp@[k]).0 as int),
        valid_instant(inc_end as int),
        valid_instant(mit as int),
        valid_instant(today as int),
        near_instant(ws as int),
    ensures
        final(down)@.len() == old(down)@.len(),
        final(down)@[r as int] == saturated(
            old(down)@[r as int] + spans_total(span_views(sp@), sp@.len() as int, inc_end as int, mit as int, ws as int, today as int),
        ),
        forall|q: int| 0 <= q < old(down)@.len() && q != r ==> #[trigger] final(down)@[q] == old(down)@[q],
{
    let ghost spans = span_views(sp@);
    let ghost base = old(down)@[r as int] as int;
    let mut i: usize = 0;
    while i < sp.len()
        invariant
            i <= sp@.len(),
            r < down@.len(),
            down@.len() == old(down)@.len(),
            spans == span_views(sp@),
            base == old(down)@[r as int] as int,
            forall|k: int| 0 <= k < sp@.len() ==> valid_instant((#[trigger] sp@[k]).0 as int),
            valid_instant(inc_end as int),
            valid_instant(mit as int),
            valid_instant(today as int),
            near_instant(ws as int),
            down@[r as int] == saturated(base + spans_total(spans, i as int, inc_end as int, mit as int, ws as int, today as int)),
            forall|q: int| 0 <= q < old(down)@.len() && q != r ==> #[trigger] down@[q] == old(down)@[q],
        decreases sp@.len() - i,
    {
        let w = status_weight(sp[i].1.as_str());
        let span_end = if i + 1 < sp.len() {
            sp[i + 1].0
        } else {
            inc_end
        };
        assert(valid_instant(sp@[i as int].0 as int));
        assert(valid_instant(span_end as int)) by {
            if i + 1 < sp.len() {
                assert(valid_instant(sp@[i + 1].0 as int));
            }
        }
        let s = max_instant(sp[i].0, ws);
        let e = min_instant(min_instant(span_end, mit), today);
        let ghost tot = spans_total(spans, i as int, inc_end as int, mit as int, ws as int, today as int);
        proof {
            lemma_spans_nonneg(spans, i as int, inc_end as int, mit as int, ws as int, today as int);
            assert(spans[i as int] == (sp@[i as int].0 as int, sp@[i as int].1@));
            if i + 1 < sp.len() {
                assert(spans[i + 1] == (sp@[i + 1].0 as int, sp@[i + 1].1@));
            }
        }
        if w != 0 && e > s {
            let mins = minutes_between(s, e);
            let x: u128 = w * (mins as u128);
            let cur = down[r];
            let next = if cur > u128::MAX - x {
                u128::MAX
            } else {
                cur + x
            };
            down.set(r, next);
            assert(span_half_minutes(spans, i as int, inc_end as int, mit as int, ws as int, today as int) == x);
        } else {
            assert(span_half_minutes(spans, i as int, inc_end as int, mit as int, ws as int, today as int) == 0);
        }
        i = i + 1;
    }
}

fn find_code_row(comps: &Vec<Component>, ids: &Vec<String>, code: &String) -> (r: Option<usize>)
    ensures
        match r {
            Some(k) => code_row(comps@, views(ids@), code@) == Some(k as int) && k < ids@.len(),
            None => code_row(comps@, views(ids@), code@) is None,
        },
{
    match find_row(ids, code) {
        Some(k) => Some(k),
        None => match find_parent(comps, code) {
            Some(p) => find_row(ids, &p),
            None => None,
        },
    }
}

/// Credits the outage spans of one incident to the rows of the
/// components its updates mark as in outage. Each component's status
/// timeline is walked; a span ends at the next transition or the
/// incident's end, and is cut at mitigation (the first monitoring,
/// resolved or postmortem update) and clipped to the window. Sums
/// saturate at `u128::MAX`.
fn accumulate_component_downtime(
    inc: &Incident,
    window_start: i128,
    today: i128,
    comps: &Vec<Component>,
    ids: &Vec<String>,
    down: &mut Vec<u128>,
)
    requires
        inc.times_valid(),
        valid_instant(today as int),
        near_instant(window_start as int),
        old(down)@.len() == ids@.len(),
    ensures
        final(down)@.len() == ids@.len(),
        forall|q: int|
            0 <= q < ids@.len() ==> #[trigger] final(down)@[q] == saturated(
                old(down)@[q] + spans_downtime(comps@, views(ids@), *inc, window_start as int, today as int, q),
            ),
{
    let ghost vids = views(ids@);
    let resolved = match inc.resolved_at {
        Some(t) => t,
        None => today,
    };
    let inc_end = min_instant(resolved, today);
    let mit_raw = match mitigation_timestamp(inc) {
        Some(t) => t,
        None => inc_end,
    };
    proof {
        if mitigation(inc.incident_updates@) is Some {
            lemma_mitigation_valid(inc.incident_updates@);
        }
    }
    let mit = min_instant(mit_raw, inc_end);
    let ev = collect_events(inc);
    let codes = distinct_event_codes(&ev);
    let ghost events = event_views(ev@);
    let ghost start_down = old(down)@;
    let mut j: usize = 0;
    while j < codes.len()
        invariant
            j <= codes@.len(),
            down@.len() == ids@.len(),
            vids == views(ids@),
            events == event_views(ev@),
            events_valid(ev@),
            views(codes@) == distinct_codes(events),
            events == incident_events(*inc),
            start_down.len() == ids@.len(),
            inc_end as int == incident_end(*inc, today as int),
            mit as int == mitigation_end(*inc, today as int),
            valid_instant(inc_end as int),
            valid_instant(mit as int),
            valid_instant(today as int),
            near_instant(window_start as int),
            forall|q: int|
                0 <= q < ids@.len() ==> #[trigger] down@[q] == saturated(
                    start_down[q] + codes_downtime(
                        views(codes@),
                        j as int,
                        events,
                        comps@,
                        vids,
                        inc_end as int,
                        mit as int,
                        window_start as int,
                        today as int,
                        q,
                    ),
                ),
        decreases codes@.len() - j,
    {
        let code = &codes[j];
        assert(views(codes@)[j as int] == code@);
        match find_code_row(comps, ids, code) {
            Some(r) => {
                let sp = timeline_of(&ev, code);
                add_spans(down, r, &sp, inc_end, mit, window_start, today);
                proof {
                    let spans = timeline(events, code@);
                    lemma_spans_nonneg(spans, spans.len() as int, inc_end as int, mit as int, window_start as int, today as int);
                    lemma_codes_nonneg(views(codes@), j as int, events, comps@, vids, inc_end as int, mit as int, window_start as int, today as int, r as int);
                }
            },
            None => {},
        }
        j = j + 1;
    }
}

proof fn lemma_mitigation_valid(us: Seq<IncidentUpdate>)
    requires
        forall|k: int| 0 <= k < us.len() ==> (#[trigger] us[k]).times_valid(),
        mitigation(us) is Some,
    ensures
        valid_instant(mitigation(us)->0),
    decreases us.len(),
{
    let u = us.last();
    assert(us[us.len() - 1].times_valid());
    if mitigation(us.drop_last()) is Some {
        assert forall|k: int| 0 <= k < us.drop_last().len() implies (#[trigger] us.drop_last()[k]).times_valid() by {
            assert(us.drop_last()[k] == us[k]);
        }
        lemma_mitigation_valid(us.drop_last());
    }
}

proof fn lemma_total_nonneg(comps: Seq<Component>, ids: Seq<Seq<char>>, incs: Seq<Incident>, ws: int, today: int, r: int)
    ensures
        total_downtime(comps, ids, incs, ws, today, r) >= 0,
    decreases incs.len(),
{
    if incs.len() > 0 {
        lemma_total_nonneg(comps, ids, incs.drop_last(), ws, today, r);
        lemma_incident_downtime_nonneg(comps, ids, incs.last(), ws, today, r);
    }
}

/// Uptime in parts per million for a capped weighted downtime.
fn uptime_ppm(down: u128) -> (p: u32)
    requires
        down <= WINDOW_HALF_MINUTES,
    ensures
        p as int == uptime_ppm_of(down as int),
        p <= 1_000_000,
{
    if down >= WINDOW_HALF_MINUTES {
        0
    } else {
        let v = (WINDOW_HALF_MINUTES - down) * 1_000_000 / WINDOW_HALF_MINUTES;
        assert(v <= 1_000_000) by (nonlinear_arith)
            requires
                v == (259_200 - down) * 1_000_000 / 259_200int,
                0 <= down <= 259_200,
        ;
        v as u32
    }
}

/// What `compute` returns at `today`: one row per service in display
/// order, carrying the service's id and name, its painted days and its
/// uptime.
pub open spec fn uptime_rows(rows: Seq<UptimeRow>, comps: Seq<Component>, incs: Seq<Incident>, today: int) -> bool {
    &&& rows.len() == service_order(comps).len()
    &&& forall|k: int|
        0 <= k < rows.len() ==> {
            let c = comps[service_order(comps)[k] as int];
            &&& (#[trigger] rows[k]).group_id@ == c.id@
            &&& rows[k].group_name@ == c.name@
            &&& rows[k].days@.len() == WINDOW_DAYS
            &&& rows[k].uptime_ppm as int == uptime_ppm_of(row_downtime(comps, incs, today, k))
        }
    &&& forall|k: int, i: int|
        0 <= k < rows.len() && 0 <= i < WINDOW_DAYS ==> #[trigger] rows[k].days@[i] == day_status(
            comps,
            incs,
            today,
            k,
            i,
        )
}

/// Day statuses of fresh rows: unknown before each service existed.
fn initial_grid(comps: &Vec<Component>, order: &Vec<usize>, start: i64) -> (grid: Vec<Vec<DayStatus>>)
    requires
        forall|k: int| 0 <= k < order@.len() ==> (#[trigger] order@[k]) < comps@.len(),
        components_valid(comps@),
        -100_000_000 <= start <= 100_000_000,
    ensures
        grid_shape(grid@, order@.len() as int),
        forall|k: int, i: int|
            0 <= k < order@.len() && 0 <= i < WINDOW_DAYS ==> #[trigger] grid@[k]@[i] == initial_day(
                comps@[order@[k] as int],
                start as int,
                i,
            ),
{
    let mut grid: Vec<Vec<DayStatus>> = Vec::new();
    let mut k: usize = 0;
    while k < order.len()
        invariant
            k <= order@.len(),
            forall|q: int| 0 <= q < order@.len() ==> (#[trigger] order@[q]) < comps@.len(),
            components_valid(comps@),
            -100_000_000 <= start <= 100_000_000,
            grid_shape(grid@, k as int),
            forall|q: int, i: int|
                0 <= q < k && 0 <= i < WINDOW_DAYS ==> #[trigger] grid@[q]@[i] == initial_day(
                    comps@[order@[q] as int],
                    start as int,
                    i,
                ),
        decreases order@.len() - k,
    {
        let c = &comps[order[k]];
        assert(c.times_valid());
        let created = day_of_instant(c.created_at);
        let mut days: Vec<DayStatus> = Vec::new();
        let mut i: usize = 0;
        while i < 90
            invariant
                i <= 90,
                days@.len() == i,
                -100_000_000 <= start <= 100_000_000,
                created as int == day_of(c.created_at as int),
                forall|q: int| 0 <= q < i ==> #[trigger] days@[q] == initial_day(*c, start as int, q),
            decreases 90 - i,
        {
            if start + (i as i64) < created {
                days.push(DayStatus::Unknown);
            } else {
                days.push(DayStatus::Operational);
            }
            i = i + 1;
        }
        grid.push(days);
        k = k + 1;
    }
    grid
}

/// Computes one uptime row per service at `today` (the end of the current
/// UTC day): services are the groups and ungrouped components, groups
/// first then by position; each row's days cover the 90 days ending
/// today, unknown before the service existed and raised to the severity
/// of each incident that hits it; each row's uptime reflects the
/// weighted downtime the incidents' component timelines credit to it.
pub fn compute(components: &Vec<Component>, incidents: &Vec<Incident>, today: i128) -> (rows: Vec<UptimeRow>)
    requires
        components_valid(components@),
        incidents_valid(incidents@),
        valid_instant(today as int),
    ensures
        uptime_rows(rows@, components@, incidents@, today as int),
{
    let order = service_indices(components);
    let n = order.len();
    let mut ids: Vec<String> = Vec::new();
    let mut k: usize = 0;
    while k < n
        invariant
            n == order@.len(),
            order@ == service_order(components@),
            forall|q: int| 0 <= q < order@.len() ==> (#[trigger] order@[q]) < components@.len(),
            k <= n,
            views(ids@) == row_ids(components@).take(k as int),
        decreases n - k,
    {
        let ghost prev = ids@;
        ids.push(components[order[k]].id.clone());
        assert(views(ids@) =~= views(prev).push(components@[order@[k as int] as int].id@));
        assert(row_ids(components@).take(k + 1) =~= row_ids(components@).take(k as int).push(
            components@[order@[k as int] as int].id@,
        ));
        k = k + 1;
    }
    assert(row_ids(components@).take(n as int) =~= row_ids(components@));
    let ghost vids = views(ids@);
    let day = day_of_instant(today);
    let start = day - 89;
    let mut grid = initial_grid(components, &order, start);
    let ghost init = grid@;
    paint_incidents(&mut grid, components, &ids, incidents, today, start);
    let ws = start_of_day(start);
    assert(near_instant(ws as int)) by (nonlinear_arith)
        requires
            ws == start * 86_400_000_000_000int,
            start == today as int / 86_400_000_000_000int - 89,
            -8_334_601_315_200_000_000_000 <= today <= 8_334_601_315_200_000_000_000,
    ;
    let mut down: Vec<u128> = Vec::new();
    let mut q: usize = 0;
    while q < n
        invariant
            q <= n,
            down@.len() == q,
            forall|z: int| 0 <= z < q ==> #[trigger] down@[z] == 0,
        decreases n - q,
    {
        down.push(0);
        q = q + 1;
    }
    let mut m: usize = 0;
    while m < incidents.len()
        invariant
            m <= incidents@.len(),
            n == ids@.len(),
            down@.len() == n,
            vids == views(ids@),
            incidents_valid(incidents@),
            valid_instant(today as int),
            near_instant(ws as int),
            forall|z: int|
                0 <= z < n ==> #[trigger] down@[z] == saturated(
                    total_downtime(components@, vids, incidents@.take(m as int), ws as int, today as int, z),
                ),
        decreases incidents@.len() - m,
    {
        let inc = &incidents[m];
        assert(inc.times_valid());
        let ghost before = down@;
        if !matches!(inc.impact, Impact::Nil | Impact::Maintenance) {
            accumulate_component_downtime(inc, ws, today, components, &ids, &mut down);
        }
        assert forall|z: int| 0 <= z < n implies #[trigger] down@[z] == saturated(
            total_downtime(components@, vids, incidents@.take(m + 1), ws as int, today as int, z),
        ) by {
            assert(incidents@.take(m + 1).drop_last() =~= incidents@.take(m as int));
            assert(incidents@.take(m + 1).last() == *inc);
            lemma_total_nonneg(components@, vids, incidents@.take(m as int), ws as int, today as int, z);
            lemma_incident_downtime_nonneg(components@, vids, *inc, ws as int, today as int, z);
        }
        m = m + 1;
    }
    assert(incidents@.take(m as int) =~= incidents@);
    let mut rows: Vec<UptimeRow> = Vec::new();
    let mut k: usize = 0;
    while k < n
        invariant
            k <= n,
            n == order@.len(),
            n == ids@.len(),
            order@ == service_order(components@),
            forall|q: int| 0 <= q < order@.len() ==> (#[trigger] order@[q]) < components@.len(),
            vids == views(ids@),
            vids == row_ids(components@),
            down@.len() == n,
            grid_shape(grid@, n as int),
            start as int == window_start_day(today as int),
            ws as int == day_start(start as int),
            forall|z: int|
                0 <= z < n ==> #[trigger] down@[z] == saturated(
                    total_downtime(components@, vids, incidents@, ws as int, today as int, z),
                ),
            forall|z: int, i: int|
                0 <= z < n && 0 <= i < WINDOW_DAYS ==> #[trigger] grid@[z]@[i] == painted(
                    init[z]@[i],
                    components@,
                    vids,
                    incidents@,
                    today as int,
                    z,
                    start + i,
                ),
            forall|z: int, i: int|
                0 <= z < n && 0 <= i < WINDOW_DAYS ==> #[trigger] init[z]@[i] == initial_day(
                    components@[order@[z] as int],
                    start as int,
                    i,
                ),
            rows@.len() == k,
            forall|z: int|
                0 <= z < k ==> {
                    let c = components@[service_order(components@)[z] as int];
                    &&& (#[trigger] rows@[z]).group_id@ == c.id@
                    &&& rows@[z].group_name@ == c.name@
                    &&& rows@[z].days@.len() == WINDOW_DAYS
                    &&& rows@[z].uptime_ppm as int == uptime_ppm_of(
                        row_downtime(components@, incidents@, today as int, z),
                    )
                },
            forall|z: int, i: int|
                0 <= z < k && 0 <= i < WINDOW_DAYS ==> #[trigger] rows@[z].days@[i] == day_status(
                    components@,
                    incidents@,
                    today as int,
                    z,
                    i,
                ),
        decreases n - k,
    {
        let c = &components[order[k]];
        let d = down[k];
        let ppm = uptime_ppm(if d > WINDOW_HALF_MINUTES {
            WINDOW_HALF_MINUTES
        } else {
            d
        });
        proof {
            lemma_total_nonneg(components@, vids, incidents@, ws as int, today as int, k as int);
        }
        let mut days: Vec<DayStatus> = Vec::new();
        let mut i: usize = 0;
        while i < 90
            invariant
                i <= 90,
                k < n,
                grid_shape(grid@, n as int),
                days@.len() == i,
                forall|q: int| 0 <= q < i ==> #[trigger] days@[q] == grid@[k as int]@[q],
            decreases 90 - i,
        {
            days.push(grid[k][i]);
            i = i + 1;
        }
        assert(views(ids@)[k as int] == ids@[k as int]@);
        assert(row_ids(components@)[k as int] == components@[order@[k as int] as int].id@);
        assert(ids@[k as int]@ == c.id@);
        rows.push(UptimeRow { group_id: ids[k].clone(), group_name: c.name.clone(), days, uptime_ppm: ppm });
        k = k + 1;
    }
    rows
}

/// Calendar day shown at index `day_index` (oldest first) of the window
/// ending on `today`'s day.
pub fn date_for_day(today: i128, day_index: usize) -> (d: i64)
    requires
        valid_instant(today as int),
        day_index <= 100_000_000,
    ensures
        d as int == window_start_day(today as int) + day_index,
{
    day_of_instant(today) - 89 + (day_index as i64)
}

// ---------------------------------------------------------------------
// Laws of the bars
// ---------------------------------------------------------------------

/// Services come groups first, then by ascending position; every entry
/// is a service, and every service appears exactly once.
pub proof fn lemma_services_in_display_order(comps: Seq<Component>)
    ensures
        service_order(comps).len() == service_candidates(comps).len(),
        service_order(comps).to_multiset() =~= service_candidates(comps).to_multiset(),
        forall|k: int|
            0 <= k < service_order(comps).len() ==> #[trigger] service_order(comps)[k] < comps.len()
                && is_service(comps[service_order(comps)[k] as int]),
        forall|a: int, b: int|
            0 <= a < b < service_order(comps).len() ==> {
                let ca = comps[#[trigger] service_order(comps)[a] as int];
                let cb = comps[#[trigger] service_order(comps)[b] as int];
                &&& (ca.group || !cb.group)
                &&& (ca.group == cb.group ==> ca.position <= cb.position)
            },
{
    broadcast use vstd::seq_lib::group_to_multiset_ensures;

    let cands = service_candidates(comps);
    let le = key_le(service_keys(comps));
    let o = service_order(comps);
    let pred = |i: usize| is_service(comps[i as int]);
    lemma_sort_by_len(cands, le);
    lemma_sort_by_multiset(cands, le);
    lemma_key_le_total(service_keys(comps));
    lemma_sort_by_sorted(cands, le);
    assert forall|k: int| 0 <= k < o.len() implies #[trigger] o[k] < comps.len() && is_service(
        comps[o[k] as int],
    ) by {
        assert(o.contains(o[k]));
        assert(o.to_multiset().count(o[k]) > 0);
        assert(cands.contains(o[k]));
        let m = choose|m: int| 0 <= m < cands.len() && cands[m] == o[k];
        identity_order(comps.len()).lemma_filter_pred(pred, m);
        identity_order(comps.len()).lemma_filter_contains_rev(pred, o[k]);
    }
    assert forall|a: int, b: int| 0 <= a < b < o.len() implies {
        let ca = comps[#[trigger] o[a] as int];
        let cb = comps[#[trigger] o[b] as int];
        &&& (ca.group || !cb.group)
        &&& (ca.group == cb.group ==> ca.position <= cb.position)
    } by {
        assert(le(o[a], o[b]));
        assert(o[a] < comps.len() && o[b] < comps.len());
        assert(service_keys(comps)[o[a] as int] == service_key(comps[o[a] as int]));
        assert(service_keys(comps)[o[b] as int] == service_key(comps[o[b] as int]));
    }
}

proof fn lemma_painted_unknown(
    init: DayStatus,
    comps: Seq<Component>,
    ids: Seq<Seq<char>>,
    incs: Seq<Incident>,
    today: int,
    r: int,
    d: int,
)
    ensures
        (painted(init, comps, ids, incs, today, r, d) == DayStatus::Unknown) == (init == DayStatus::Unknown),
    decreases incs.len(),
{
    if incs.len() > 0 {
        lemma_painted_unknown(init, comps, ids, incs.drop_last(), today, r, d);
    }
}

/// A service's day reads unknown exactly when it lies before the day the
/// service was created; the creation day itself carries data.
pub proof fn lemma_unknown_exactly_before_creation(comps: Seq<Component>, incs: Seq<Incident>, today: int, k: int, i: int)
    requires
        0 <= k < service_order(comps).len(),
        0 <= i < WINDOW_DAYS,
    ensures
        (day_status(comps, incs, today, k, i) == DayStatus::Unknown) == (window_start_day(today) + i < day_of(
            comps[service_order(comps)[k] as int].created_at as int,
        )),
{
    let start = window_start_day(today);
    let c = comps[service_order(comps)[k] as int];
    lemma_painted_unknown(initial_day(c, start, i), comps, row_ids(comps), incs, today, k, start + i);
}

proof fn lemma_painted_rank(
    init: DayStatus,
    comps: Seq<Component>,
    ids: Seq<Seq<char>>,
    incs: Seq<Incident>,
    today: int,
    r: int,
    d: int,
)
    ensures
        rank(painted(init, comps, ids, incs, today, r, d)) >= rank(init),
        painted(init, comps, ids, incs, today, r, d) == init || exists|n: int|
            0 <= n < incs.len() && painted(init, comps, ids, incs, today, r, d) == severity(
                (#[trigger] incs[n]).impact,
            ) && hits(comps, ids, incs[n], r) && covers(incs[n], today, d),
    decreases incs.len(),
{
    if incs.len() > 0 {
        let t = incs.drop_last();
        lemma_painted_rank(init, comps, ids, t, today, r, d);
        let p = painted(init, comps, ids, t, today, r, d);
        if painted(init, comps, ids, incs, today, r, d) != p {
            assert(incs[incs.len() - 1] == incs.last());
        } else if p != init {
            let n = choose|n: int|
                0 <= n < t.len() && p == severity((#[trigger] t[n]).impact) && hits(comps, ids, t[n], r)
                    && covers(t[n], today, d);
            assert(t[n] == incs[n]);
        }
    }
}

/// Painting only ever raises a day's severity, and a raised day carries
/// the severity of an incident that hits the service and spans the day.
pub proof fn lemma_days_only_raised_by_spanning_incidents(
    comps: Seq<Component>,
    incs: Seq<Incident>,
    today: int,
    k: int,
    i: int,
)
    requires
        0 <= k < service_order(comps).len(),
        0 <= i < WINDOW_DAYS,
    ensures
        ({
            let start = window_start_day(today);
            let init = initial_day(comps[service_order(comps)[k] as int], start, i);
            let s = day_status(comps, incs, today, k, i);
            &&& rank(s) >= rank(init)
            &&& (s == init || exists|n: int|
                0 <= n < incs.len() && s == severity((#[trigger] incs[n]).impact) && hits(
                    comps,
                    row_ids(comps),
                    incs[n],
                    k,
                ) && covers(incs[n], today, start + i))
        }),
{
    let start = window_start_day(today);
    let c = comps[service_order(comps)[k] as int];
    lemma_painted_rank(initial_day(c, start, i), comps, row_ids(comps), incs, today, k, start + i);
}

proof fn lemma_painted_at_least(
    init: DayStatus,
    comps: Seq<Component>,
    ids: Seq<Seq<char>>,
    incs: Seq<Incident>,
    today: int,
    r: int,
    d: int,
    n: int,
)
    requires
        init != DayStatus::Unknown,
        0 <= n < incs.len(),
        incs[n].impact != Impact::Nil,
        hits(comps, ids, incs[n], r),
        covers(incs[n], today, d),
    ensures
        rank(painted(init, comps, ids, incs, today, r, d)) >= rank(severity(incs[n].impact)),
    decreases incs.len(),
{
    let t = incs.drop_last();
    lemma_painted_unknown(init, comps, ids, t, today, r, d);
    if n < incs.len() - 1 {
        assert(t[n] == incs[n]);
        lemma_painted_at_least(init, comps, ids, t, today, r, d, n);
    } else {
        assert(incs.last() == incs[n]);
    }
}

/// A known day of a service reads at least as severe as every incident
/// with an impact that hits the service and spans the day; together with
/// `lemma_days_only_raised_by_spanning_incidents`, each known day shows
/// the most severe of them (operational when there is none), whatever
/// order the incidents come in.
pub proof fn lemma_day_is_most_severe(comps: Seq<Component>, incs: Seq<Incident>, today: int, k: int, i: int, n: int)
    requires
        0 <= k < service_order(comps).len(),
        0 <= i < WINDOW_DAYS,
        day_status(comps, incs, today, k, i) != DayStatus::Unknown,
        0 <= n < incs.len(),
        incs[n].impact != Impact::Nil,
        hits(comps, row_ids(comps), incs[n], k),
        covers(incs[n], today, window_start_day(today) + i),
    ensures
        rank(day_status(comps, incs, today, k, i)) >= rank(severity(incs[n].impact)),
{
    let start = window_start_day(today);
    let init = initial_day(comps[service_order(comps)[k] as int], start, i);
    lemma_painted_unknown(init, comps, row_ids(comps), incs, today, k, start + i);
    lemma_painted_at_least(init, comps, row_ids(comps), incs, today, k, start + i, n);
}

/// Uptime lies between 0 and one million parts per million; it is the
/// full million exactly when no downtime is credited.
pub proof fn lemma_uptime_range(down: int)
    requires
        down >= 0,
    ensures
        0 <= uptime_ppm_of(down) <= 1_000_000,
        (uptime_ppm_of(down) == 1_000_000) == (down == 0),
{
    if down < WINDOW_HALF_MINUTES {
        assert(0 <= (WINDOW_HALF_MINUTES - down) * 1_000_000 / (WINDOW_HALF_MINUTES as int) <= 1_000_000)
            by (nonlinear_arith)
            requires
                0 <= down < 259_200,
        ;
        if down > 0 {
            assert((WINDOW_HALF_MINUTES - down) * 1_000_000 / (WINDOW_HALF_MINUTES as int) < 1_000_000)
                by (nonlinear_arith)
                requires
                    0 < down < 259_200,
            ;
        }
    }
}

// ---------------------------------------------------------------------
// Only outages weigh
// ---------------------------------------------------------------------

/// The update moves no component into a status that weighs.
pub open spec fn update_unweighted(u: IncidentUpdate) -> bool {
    match u.affected_components {
        Some(v) => forall|j: int| 0 <= j < v@.len() ==> weight_half(#[trigger] v@[j].new_status@) == 0,
        None => true,
    }
}

/// No update of the incident moves a component into a major or partial
/// outage.
pub open spec fn no_weighted_transition(inc: Incident) -> bool {
    forall|k: int| 0 <= k < inc.incident_updates@.len() ==> #[trigger] update_unweighted(inc.incident_updates@[k])
}

pub open spec fn events_unweighted(events: Seq<(int, Seq<char>, Seq<char>)>) -> bool {
    forall|j: int| 0 <= j < events.len() ==> weight_half(#[trigger] events[j].2) == 0
}

proof fn lemma_events_of_unweighted(us: Seq<IncidentUpdate>)
    requires
        forall|k: int| 0 <= k < us.len() ==> #[trigger] update_unweighted(us[k]),
    ensures
        events_unweighted(events_of(us)),
    decreases us.len(),
{
    if us.len() > 0 {
        let pre = us.drop_last();
        assert forall|k: int| 0 <= k < pre.len() implies #[trigger] update_unweighted(pre[k]) by {
            assert(pre[k] == us[k]);
        }
        lemma_events_of_unweighted(pre);
        let u = us.last();
        assert(update_unweighted(us[us.len() - 1]));
        let a = events_of(pre);
        let b = update_events(u);
        assert forall|j: int| 0 <= j < (a + b).len() implies weight_half(#[trigger] (a + b)[j].2) == 0 by {
            if j >= a.len() {
                match u.affected_components {
                    Some(v) => {
                        assert(b[j - a.len()].2 == v@[j - a.len()].new_status@);
                    },
                    None => {},
                }
            }
        }
    }
}

/// Each update in shown-time order is one of the incident's updates.
proof fn lemma_sorted_updates_members(us: Seq<IncidentUpdate>)
    ensures
        sorted_updates(us).len() == us.len(),
        forall|k: int|
            0 <= k < us.len() ==> exists|m: int| 0 <= m < us.len() && #[trigger] sorted_updates(us)[k] == us[m],
{
    broadcast use vstd::seq_lib::group_to_multiset_ensures;

    let n = us.len();
    let ident = identity_order(n);
    let order = sort_by(ident, key_le(shown_keys(us)));
    lemma_sort_by_len(ident, key_le(shown_keys(us)));
    lemma_sort_by_multiset(ident, key_le(shown_keys(us)));
    assert forall|k: int| 0 <= k < us.len() implies exists|m: int|
        0 <= m < us.len() && #[trigger] sorted_updates(us)[k] == us[m] by {
        let x = order[k];
        assert(order.contains(x));
        assert(order.to_multiset().count(x) > 0);
        assert(ident.contains(x));
        let i = choose|i: int| 0 <= i < ident.len() && ident[i] == x;
        assert(sorted_updates(us)[k] == us[x as int]);
        if i <= usize::MAX {
            assert(x as int == i);
        }
        assert((x as int) < us.len());
    }
}

proof fn lemma_timeline_unweighted(events: Seq<(int, Seq<char>, Seq<char>)>, code: Seq<char>)
    requires
        events_unweighted(events),
    ensures
        forall|i: int|
            0 <= i < timeline(events, code).len() ==> weight_half(#[trigger] timeline(events, code)[i].1) == 0,
    decreases events.len(),
{
    if events.len() > 0 {
        let pre = events.drop_last();
        assert forall|j: int| 0 <= j < pre.len() implies weight_half(#[trigger] pre[j].2) == 0 by {
            assert(pre[j] == events[j]);
        }
        lemma_timeline_unweighted(pre, code);
        let t = timeline(pre, code);
        let e = events.last();
        assert(weight_half(events[events.len() - 1].2) == 0);
        if e.1 == code && (t.len() == 0 || t.last().1 != e.2) {
            assert forall|i: int| 0 <= i < t.push((e.0, e.2)).len() implies weight_half(
                #[trigger] t.push((e.0, e.2))[i].1,
            ) == 0 by {
                if i < t.len() {
                    assert(t.push((e.0, e.2))[i] == t[i]);
                }
            }
        }
    }
}

proof fn lemma_spans_total_zero(
    spans: Seq<(int, Seq<char>)>,
    n: int,
    inc_end: int,
    mit: int,
    ws: int,
    today: int,
)
    requires
        0 <= n <= spans.len(),
        forall|i: int| 0 <= i < spans.len() ==> #[trigger] span_half_minutes(spans, i, inc_end, mit, ws, today) == 0,
    ensures
        spans_total(spans, n, inc_end, mit, ws, today) == 0,
    decreases n,
{
    if n > 0 {
        lemma_spans_total_zero(spans, n - 1, inc_end, mit, ws, today);
        assert(span_half_minutes(spans, n - 1, inc_end, mit, ws, today) == 0);
    }
}

/// Every span of every component's timeline credits nothing.
pub open spec fn spans_all_zero(
    events: Seq<(int, Seq<char>, Seq<char>)>,
    inc_end: int,
    mit: int,
    ws: int,
    today: int,
) -> bool {
    forall|c: Seq<char>, i: int|
        0 <= i < timeline(events, c).len() ==> #[trigger] span_half_minutes(
            timeline(events, c),
            i,
            inc_end,
            mit,
            ws,
            today,
        ) == 0
}

proof fn lemma_codes_downtime_zero(
    codes: Seq<Seq<char>>,
    n: int,
    events: Seq<(int, Seq<char>, Seq<char>)>,
    comps: Seq<Component>,
    ids: Seq<Seq<char>>,
    inc_end: int,
    mit: int,
    ws: int,
    today: int,
    r: int,
)
    requires
        0 <= n <= codes.len(),
        spans_all_zero(events, inc_end, mit, ws, today),
    ensures
        codes_downtime(codes, n, events, comps, ids, inc_end, mit, ws, today, r) == 0,
    decreases n,
{
    if n > 0 {
        lemma_codes_downtime_zero(codes, n - 1, events, comps, ids, inc_end, mit, ws, today, r);
        let spans = timeline(events, codes[n - 1]);
        assert forall|i: int| 0 <= i < spans.len() implies #[trigger] span_half_minutes(
            spans,
            i,
            inc_end,
            mit,
            ws,
            today,
        ) == 0 by {
            assert(span_half_minutes(timeline(events, codes[n - 1]), i, inc_end, mit, ws, today) == 0);
        }
        lemma_spans_total_zero(spans, spans.len() as int, inc_end, mit, ws, today);
    }
}

/// An incident whose updates move no component into a major or partial
/// outage credits no downtime to any row, whatever its impact: degraded
/// performance, maintenance and operational spans weigh nothing.
pub proof fn lemma_unweighted_incident_credits_nothing(
    comps: Seq<Component>,
    ids: Seq<Seq<char>>,
    inc: Incident,
    ws: int,
    today: int,
    r: int,
)
    requires
        no_weighted_transition(inc),
    ensures
        incident_downtime(comps, ids, inc, ws, today, r) == 0,
{
    if !(inc.impact == Impact::Nil || inc.impact == Impact::Maintenance) {
        let us = inc.incident_updates@;
        let sorted = sorted_updates(us);
        lemma_sorted_updates_members(us);
        assert forall|k: int| 0 <= k < sorted.len() implies #[trigger] update_unweighted(sorted[k]) by {
            let m = choose|m: int| 0 <= m < us.len() && sorted[k] == us[m];
            assert(update_unweighted(us[m]));
        }
        lemma_events_of_unweighted(sorted);
        let events = incident_events(inc);
        let codes = distinct_codes(events);
        let inc_end = incident_end(inc, today);
        let mit = mitigation_end(inc, today);
        assert forall|c: Seq<char>, i: int| 0 <= i < timeline(events, c).len() implies #[trigger] span_half_minutes(
            timeline(events, c),
            i,
            inc_end,
            mit,
            ws,
            today,
        ) == 0 by {
            lemma_timeline_unweighted(events, c);
            assert(weight_half(timeline(events, c)[i].1) == 0);
        }
        lemma_codes_downtime_zero(
            codes,
            codes.len() as int,
            events,
            comps,
            ids,
            incident_end(inc, today),
            mitigation_end(inc, today),
            ws,
            today,
            r,
        );
    }
}

/// Downtime stops at mitigation: an incident that reached monitoring,
/// resolved or postmortem (or ended) no later than the start of the
/// window credits no downtime within it.
pub proof fn lemma_mitigated_before_window_credits_nothing(
    comps: Seq<Component>,
    ids: Seq<Seq<char>>,
    inc: Incident,
    ws: int,
    today: int,
    r: int,
)
    requires
        mitigation_end(inc, today) <= ws,
    ensures
        incident_downtime(comps, ids, inc, ws, today, r) == 0,
{
    if !(inc.impact == Impact::Nil || inc.impact == Impact::Maintenance) {
        let events = incident_events(inc);
        let codes = distinct_codes(events);
        let inc_end = incident_end(inc, today);
        let mit = mitigation_end(inc, today);
        assert forall|c: Seq<char>, i: int| 0 <= i < timeline(events, c).len() implies #[trigger] span_half_minutes(
            timeline(events, c),
            i,
            inc_end,
            mit,
            ws,
            today,
        ) == 0 by {}
        lemma_codes_downtime_zero(codes, codes.len() as int, events, comps, ids, inc_end, mit, ws, today, r);
    }
}

/// A further incident never makes a day look better nor a service's
/// uptime higher: every day keeps at least its severity and every row
/// at least its downtime.
pub proof fn lemma_more_incidents_never_help(
    comps: Seq<Component>,
    incs: Seq<Incident>,
    inc: Incident,
    today: int,
    k: int,
    i: int,
)
    requires
        0 <= k < service_order(comps).len(),
        0 <= i < WINDOW_DAYS,
    ensures
        rank(day_status(comps, incs.push(inc), today, k, i)) >= rank(day_status(comps, incs, today, k, i)),
        row_downtime(comps, incs.push(inc), today, k) >= row_downtime(comps, incs, today, k),
        uptime_ppm_of(row_downtime(comps, incs.push(inc), today, k)) <= uptime_ppm_of(
            row_downtime(comps, incs, today, k),
        ),
{
    let more = incs.push(inc);
    assert(more.drop_last() =~= incs);
    let ws = day_start(window_start_day(today));
    lemma_incident_downtime_nonneg(comps, row_ids(comps), inc, ws, today, k);
    let a = row_downtime(comps, incs, today, k);
    let b = row_downtime(comps, more, today, k);
    lemma_total_nonneg(comps, row_ids(comps), incs, ws, today, k);
    assert(0 <= a <= b);
    if b < WINDOW_HALF_MINUTES {
        assert((WINDOW_HALF_MINUTES - b) * 1_000_000 / (WINDOW_HALF_MINUTES as int) <= (WINDOW_HALF_MINUTES - a)
            * 1_000_000 / (WINDOW_HALF_MINUTES as int)) by (nonlinear_arith)
            requires
                0 <= a <= b < 259_200,
        ;
    } else {
        lemma_uptime_range(a);
    }
}

/// When no incident moves a component into a major or partial outage,
/// every row keeps the full million parts per million of uptime.
pub proof fn lemma_unweighted_incidents_keep_full_uptime(comps: Seq<Component>, incs: Seq<Incident>, today: int, k: int)
    requires
        forall|i: int| 0 <= i < incs.len() ==> #[trigger] no_weighted_transition(incs[i]),
    ensures
        row_downtime(comps, incs, today, k) == 0,
        uptime_ppm_of(row_downtime(comps, incs, today, k)) == 1_000_000,
    decreases incs.len(),
{
    let ws = day_start(window_start_day(today));
    if incs.len() > 0 {
        let pre = incs.drop_last();
        assert forall|i: int| 0 <= i < pre.len() implies #[trigger] no_weighted_transition(pre[i]) by {
            assert(pre[i] == incs[i]);
        }
        lemma_unweighted_incidents_keep_full_uptime(comps, pre, today, k);
        assert(no_weighted_transition(incs[incs.len() - 1]));
        lemma_unweighted_incident_credits_nothing(comps, row_ids(comps), incs.last(), ws, today, k);
    }
    lemma_uptime_range(0);
}

// ---------------------------------------------------------------------
// Every day an incident spans is painted
// ---------------------------------------------------------------------

/// Component ids are unique.
pub open spec fn distinct_ids(comps: Seq<Component>) -> bool {
    forall|a: int, b: int| 0 <= a < b < comps.len() ==> (#[trigger] comps[a]).id@ != (#[trigger] comps[b]).id@
}

proof fn lemma_parent_none(comps: Seq<Component>, x: Seq<char>)
    requires
        forall|a: int| 0 <= a < comps.len() ==> (#[trigger] comps[a]).id@ != x || comps[a].group_id is None,
    ensures
        parent_of(comps, x) is None,
    decreases comps.len(),
{
    if comps.len() > 0 {
        let t = comps.drop_last();
        assert(comps.last() == comps[comps.len() - 1]);
        assert forall|a: int| 0 <= a < t.len() implies (#[trigger] t[a]).id@ != x || t[a].group_id is None by {
            assert(t[a] == comps[a]);
        }
        lemma_parent_none(t, x);
    }
}

proof fn lemma_parent_of_unique(comps: Seq<Component>, c: int)
    requires
        0 <= c < comps.len(),
        distinct_ids(comps),
    ensures
        parent_of(comps, comps[c].id@) == (if comps[c].group_id is Some {
            Some(comps[c].group_id->0@)
        } else {
            None::<Seq<char>>
        }),
    decreases comps.len(),
{
    let t = comps.drop_last();
    let n = comps.len() - 1;
    assert(comps.last() == comps[n]);
    if c == n {
        if comps[c].group_id is None {
            assert forall|a: int| 0 <= a < t.len() implies (#[trigger] t[a]).id@ != comps[c].id@
                || t[a].group_id is None by {
                assert(t[a] == comps[a]);
            }
            lemma_parent_none(t, comps[c].id@);
        }
    } else {
        assert(comps[n].id@ != comps[c].id@);
        assert(t[c] == comps[c]);
        assert forall|a: int, b: int| 0 <= a < b < t.len() implies (#[trigger] t[a]).id@ != (#[trigger] t[b]).id@ by {
            assert(t[a] == comps[a] && t[b] == comps[b]);
        }
        lemma_parent_of_unique(t, c);
    }
}

proof fn lemma_row_index_unique(ids: Seq<Seq<char>>, k: int)
    requires
        0 <= k < ids.len(),
        forall|a: int| 0 <= a < ids.len() && a != k ==> #[trigger] ids[a] != ids[k],
    ensures
        row_index(ids, ids[k]) == Some(k),
    decreases ids.len(),
{
    let n = ids.len() - 1;
    assert(ids.last() == ids[n]);
    if k < n {
        let t = ids.drop_last();
        assert(ids[n] != ids[k]);
        assert(t[k] == ids[k]);
        assert forall|a: int| 0 <= a < t.len() && a != k implies #[trigger] t[a] != t[k] by {
            assert(t[a] == ids[a]);
        }
        lemma_row_index_unique(t, k);
    }
}

proof fn lemma_filter_keeps_distinct<A>(s: Seq<A>, p: spec_fn(A) -> bool)
    requires
        s.no_duplicates(),
    ensures
        s.filter(p).no_duplicates(),
    decreases s.len(),
{
    if s.len() > 0 {
        let t = s.drop_last();
        let x = s.last();
        assert(t.push(x) == s);
        assert(t.no_duplicates()) by {
            assert forall|a: int, b: int| 0 <= a < t.len() && 0 <= b < t.len() && a != b implies t[a] != t[b] by {
                assert(t[a] == s[a] && t[b] == s[b]);
            }
        }
        lemma_filter_keeps_distinct(t, p);
        t.lemma_filter_push(x, p);
        if p(x) {
            if t.filter(p).contains(x) {
                t.lemma_filter_contains_rev(p, x);
                let a = choose|a: int| 0 <= a < t.len() && t[a] == x;
                assert(s[a] == x && s[s.len() - 1] == x);
            }
            let f = t.filter(p);
            assert forall|a: int, b: int|
                0 <= a < f.push(x).len() && 0 <= b < f.push(x).len() && a != b implies f.push(x)[a] != f.push(
                x,
            )[b] by {
                if a < f.len() && b < f.len() {
                } else if a < f.len() {
                    assert(f.contains(f[a]));
                } else {
                    assert(f.contains(f[b]));
                }
            }
        }
    }
}

/// No service is listed twice, and each row carries its own service's id.
proof fn lemma_row_ids_distinct(comps: Seq<Component>)
    requires
        comps.len() <= usize::MAX,
        distinct_ids(comps),
    ensures
        forall|a: int, b: int|
            0 <= a < row_ids(comps).len() && 0 <= b < row_ids(comps).len() && a != b ==> #[trigger] row_ids(
                comps,
            )[a] != #[trigger] row_ids(comps)[b],
        row_ids(comps).len() == service_order(comps).len(),
        forall|k: int|
            0 <= k < row_ids(comps).len() ==> #[trigger] row_ids(comps)[k] == comps[service_order(comps)[k] as int].id@,
{
    broadcast use vstd::seq_lib::group_to_multiset_ensures;

    let o = service_order(comps);
    let cands = service_candidates(comps);
    let ident = identity_order(comps.len());
    lemma_services_in_display_order(comps);
    assert(ident.no_duplicates()) by {
        assert forall|a: int, b: int| 0 <= a < ident.len() && 0 <= b < ident.len() && a != b implies ident[a]
            != ident[b] by {
            assert(ident[a] == a as usize && ident[b] == b as usize);
        }
    }
    lemma_filter_keeps_distinct(ident, |i: usize| is_service(comps[i as int]));
    cands.lemma_multiset_has_no_duplicates();
    assert forall|x: usize| o.to_multiset().contains(x) implies o.to_multiset().count(x) == 1 by {
        assert(cands.to_multiset().contains(x));
    }
    o.lemma_multiset_has_no_duplicates_conv();
    assert forall|a: int, b: int|
        0 <= a < row_ids(comps).len() && 0 <= b < row_ids(comps).len() && a != b implies #[trigger] row_ids(
            comps,
        )[a] != #[trigger] row_ids(comps)[b] by {
        assert(o[a] != o[b]);
        assert(o[a] < comps.len() && o[b] < comps.len());
        if o[a] < o[b] {
            assert(comps[o[a] as int].id@ != comps[o[b] as int].id@);
        } else {
            assert(comps[o[b] as int].id@ != comps[o[a] as int].id@);
        }
    }
}

/// An incident paints every calendar day it spans. When an incident with
/// an impact names a service, or a component grouped under it, every
/// known day of the service's row from the day the incident started to
/// the day it was resolved (or, while open, today) reads at least the
/// incident's severity: an outage for a major or critical incident, at
/// least degraded for a minor one, and at least maintenance for a
/// maintenance. Component ids are taken to be unique and services to be
/// top level.
pub proof fn lemma_incident_paints_every_day_it_spans(
    comps: Seq<Component>,
    incs: Seq<Incident>,
    today: int,
    k: int,
    i: int,
    n: int,
)
    requires
        comps.len() <= usize::MAX,
        distinct_ids(comps),
        0 <= k < service_order(comps).len(),
        comps[service_order(comps)[k] as int].group_id is None,
        0 <= i < WINDOW_DAYS,
        0 <= n < incs.len(),
        incs[n].impact != Impact::Nil,
        exists|j: int|
            0 <= j < incs[n].components@.len() && ((#[trigger] incs[n].components@[j]).id@ == comps[service_order(
                comps,
            )[k] as int].id@ || exists|c: int|
                0 <= c < comps.len() && (#[trigger] comps[c]).id@ == incs[n].components@[j].id@
                    && comps[c].group_id is Some && comps[c].group_id->0@ == comps[service_order(comps)[k] as int].id@),
        day_of(comps[service_order(comps)[k] as int].created_at as int) <= day_of(today) - 89 + i,
        day_of(incs[n].started_at as int) <= day_of(today) - 89 + i,
        day_of(today) - 89 + i <= day_of(
            match incs[n].resolved_at {
                Some(t) => t as int,
                None => today,
            },
        ),
    ensures
        incs[n].impact == Impact::Major || incs[n].impact == Impact::Critical ==> day_status(
            comps,
            incs,
            today,
            k,
            i,
        ) == DayStatus::Outage,
        incs[n].impact == Impact::Minor ==> day_status(comps, incs, today, k, i) == DayStatus::Degraded
            || day_status(comps, incs, today, k, i) == DayStatus::Outage,
        incs[n].impact == Impact::Maintenance ==> day_status(comps, incs, today, k, i) == DayStatus::Maintenance
            || day_status(comps, incs, today, k, i) == DayStatus::Degraded || day_status(comps, incs, today, k, i)
            == DayStatus::Outage,
{
    let o = service_order(comps);
    let svc = comps[o[k] as int];
    let inc = incs[n];
    let ids = row_ids(comps);
    lemma_services_in_display_order(comps);
    lemma_row_ids_distinct(comps);
    assert(ids[k] == svc.id@);
    lemma_row_index_unique(ids, k);
    let j = choose|j: int|
        0 <= j < inc.components@.len() && ((#[trigger] inc.components@[j]).id@ == svc.id@ || exists|c: int|
            0 <= c < comps.len() && (#[trigger] comps[c]).id@ == inc.components@[j].id@ && comps[c].group_id is Some
                && comps[c].group_id->0@ == svc.id@);
    let r = inc.components@[j].id@;
    if r == svc.id@ {
        lemma_parent_of_unique(comps, o[k] as int);
        assert(target_of(comps, r) == svc.id@);
    } else {
        let c = choose|c: int|
            0 <= c < comps.len() && (#[trigger] comps[c]).id@ == r && comps[c].group_id is Some
                && comps[c].group_id->0@ == svc.id@;
        lemma_parent_of_unique(comps, c);
        assert(target_of(comps, r) == svc.id@);
    }
    assert(row_index(ids, target_of(comps, inc.components@[j].id@)) == Some(k));
    assert(hits(comps, ids, inc, k));
    lemma_unknown_exactly_before_creation(comps, incs, today, k, i);
    assert(covers(inc, today, window_start_day(today) + i));
    lemma_day_is_most_severe(comps, incs, today, k, i, n);
}

proof fn lemma_parent_of_names(comps: Seq<Component>, x: Seq<char>)
    requires
        parent_of(comps, x) is Some,
    ensures
        exists|c: int|
            0 <= c < comps.len() && (#[trigger] comps[c]).id@ == x && comps[c].group_id is Some
                && comps[c].group_id->0@ == parent_of(comps, x)->0,
    decreases comps.len(),
{
    let n = comps.len() - 1;
    assert(comps.last() == comps[n]);
    if !(comps[n].id@ == x && comps[n].group_id is Some) {
        let t = comps.drop_last();
        lemma_parent_of_names(t, x);
        let c = choose|c: int|
            0 <= c < t.len() && (#[trigger] t[c]).id@ == x && t[c].group_id is Some && t[c].group_id->0@
                == parent_of(t, x)->0;
        assert(t[c] == comps[c]);
    }
}

proof fn lemma_row_index_names(ids: Seq<Seq<char>>, x: Seq<char>)
    requires
        row_index(ids, x) is Some,
    ensures
        0 <= row_index(ids, x)->0 < ids.len(),
        ids[row_index(ids, x)->0] == x,
    decreases ids.len(),
{
    if ids.last() != x {
        let t = ids.drop_last();
        lemma_row_index_names(t, x);
        assert(t[row_index(t, x)->0] == ids[row_index(t, x)->0]);
    }
}

/// A day reads worse than operational only because of an incident that
/// spans it: one that names the service (or a component grouped under
/// it), started on or before the day and was resolved (or, while open,
/// is today) on or after it, with the impact the day shows: major or
/// critical for an outage, minor for degraded, maintenance for
/// maintenance.
pub proof fn lemma_bad_day_has_a_spanning_incident(comps: Seq<Component>, incs: Seq<Incident>, today: int, k: int, i: int)
    requires
        0 <= k < service_order(comps).len(),
        0 <= i < WINDOW_DAYS,
        day_status(comps, incs, today, k, i) != DayStatus::Unknown,
        day_status(comps, incs, today, k, i) != DayStatus::Operational,
    ensures
        exists|n: int|
            0 <= n < incs.len() && day_of((#[trigger] incs[n]).started_at as int) <= day_of(today) - 89 + i
                && day_of(today) - 89 + i <= day_of(
                match incs[n].resolved_at {
                    Some(t) => t as int,
                    None => today,
                },
            ) && (exists|j: int|
                0 <= j < incs[n].components@.len() && ((#[trigger] incs[n].components@[j]).id@ == comps[service_order(
                    comps,
                )[k] as int].id@ || exists|c: int|
                    0 <= c < comps.len() && (#[trigger] comps[c]).id@ == incs[n].components@[j].id@
                        && comps[c].group_id is Some && comps[c].group_id->0@ == comps[service_order(
                        comps,
                    )[k] as int].id@)) && (day_status(comps, incs, today, k, i) == DayStatus::Outage ==> (
            incs[n].impact == Impact::Major || incs[n].impact == Impact::Critical)) && (day_status(
                comps,
                incs,
                today,
                k,
                i,
            ) == DayStatus::Degraded ==> incs[n].impact == Impact::Minor) && (day_status(comps, incs, today, k, i)
                == DayStatus::Maintenance ==> incs[n].impact == Impact::Maintenance),
{
    let o = service_order(comps);
    let svc = comps[o[k] as int];
    let ids = row_ids(comps);
    let st = day_status(comps, incs, today, k, i);
    lemma_services_in_display_order(comps);
    lemma_days_only_raised_by_spanning_incidents(comps, incs, today, k, i);
    let start = window_start_day(today);
    let init = initial_day(svc, start, i);
    assert(st != init);
    let n = choose|n: int|
        0 <= n < incs.len() && st == severity((#[trigger] incs[n]).impact) && hits(comps, ids, incs[n], k) && covers(
            incs[n],
            today,
            start + i,
        );
    let inc = incs[n];
    let j = choose|j: int|
        0 <= j < inc.components@.len() && row_index(ids, target_of(comps, (#[trigger] inc.components@[j]).id@))
            == Some(k);
    let r = inc.components@[j].id@;
    lemma_row_index_names(ids, target_of(comps, r));
    assert(ids[k] == svc.id@);
    if parent_of(comps, r) is Some {
        lemma_parent_of_names(comps, r);
        let c = choose|c: int|
            0 <= c < comps.len() && (#[trigger] comps[c]).id@ == r && comps[c].group_id is Some
                && comps[c].group_id->0@ == parent_of(comps, r)->0;
        assert(comps[c].id@ == inc.components@[j].id@);
    }
    assert(incs[n] == inc);
}

} // verus!
