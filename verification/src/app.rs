//! The application state machine: panes, selections, the detail modal,
//! the help and theme overlays, refresh results and toasts, and the
//! incident timeline shown for the selected service.

use vstd::prelude::*;

use crate::api::{Component, Incident, Summary, incidents_valid};
use crate::bars::{
    UptimeRow, WINDOW_DAYS, compute, uptime_rows, day_status, row_downtime, service_indices, service_order,
    uptime_ppm_of,
};
use crate::clock::{
    MAX_READING, checked_today_utc, day_of, day_of_instant, elapsed_millis, end_of_day, format_day,
    formatted_day, monotonic_start, utc_now, valid_instant,
};
use crate::sorting::{
    identity_order, index_range, key_le, lemma_key_le_total, lemma_sort_by_multiset, lemma_sort_by_sorted, sort_by,
    stable_sort_indices,
};
use crate::theme::{
    AppTheme, PREVIEW_DEBOUNCE_MS, commit_saves, committed, cycled, tick_saves, ticked, wrap_index,
};

verus! {

/// The two panes that take focus.
#[derive(Debug, Clone, Copy, PartialEq, Eq, Structural)]
pub enum Pane {
    Services,
    Events,
}

/// What the detail modal shows.
#[derive(Debug, Clone)]
pub enum ModalTarget {
    Empty,
    Incident(String),
    Day { row: usize, day: usize },
}

/// A key, as far as the application tells keys apart.
#[derive(Debug, Clone, Copy, PartialEq, Eq, Structural)]
pub enum Key {
    Char(char),
    Esc,
    Tab,
    BackTab,
    Up,
    Down,
    Left,
    Right,
    Enter,
    Other,
}

/// Modifier bits, as crossterm numbers them.
pub const SHIFT: u8 = 0b0000_0001;

pub const CONTROL: u8 = 0b0000_0010;

/// A key press with its modifier bits.
#[derive(Debug, Clone, Copy, PartialEq, Eq, Structural)]
pub struct KeyInput {
    pub code: Key,
    pub modifiers: u8,
}

/// What the event loop hands the application.
#[derive(Debug)]
pub enum AppEvent {
    Key(KeyInput),
    Tick,
    Resize,
    Loaded(Box<Summary>),
    LoadFailed(String),
}

/// How long a toast stays up, in milliseconds.
pub const TOAST_MS: u64 = 4000;

pub struct App {
    pub started_at: std::time::Instant,
    pub theme: AppTheme,
    /// Whether the detail modal is open.
    pub overlay_open: bool,
    pub focus: Pane,
    pub summary: Option<Summary>,
    pub bars: Vec<UptimeRow>,
    pub error: Option<String>,
    pub last_loaded_at: Option<i128>,
    /// Milliseconds after `started_at` of the last refresh attempt.
    pub last_attempt_at: Option<u64>,
    pub help_open: bool,
    pub theme_picker_open: bool,
    pub bars_day: usize,
    pub service_idx: usize,
    pub event_idx: usize,
    pub modal_target: ModalTarget,
    pub quit: bool,
    pub status_toast: Option<String>,
    /// Milliseconds after `started_at` when the toast expires.
    pub toast_until: Option<u64>,
    /// Name of the theme the picker last applied, for the caller to save
    /// as the preference (and take).
    pub theme_to_save: Option<String>,
}

/// Abstract view of the modal target.
pub enum TargetView {
    Empty,
    Incident(Seq<char>),
    Day { row: usize, day: usize },
}

pub open spec fn target_view(t: ModalTarget) -> TargetView {
    match t {
        ModalTarget::Empty => TargetView::Empty,
        ModalTarget::Incident(id) => TargetView::Incident(id@),
        ModalTarget::Day { row, day } => TargetView::Day { row, day },
    }
}

/// Abstract view of the application state (all but the start instant).
pub struct AppModel {
    pub theme: AppTheme,
    pub overlay_open: bool,
    pub focus: Pane,
    pub summary: Option<Summary>,
    pub bars: Seq<UptimeRow>,
    pub error: Option<Seq<char>>,
    pub last_loaded_at: Option<i128>,
    pub last_attempt_at: Option<u64>,
    pub help_open: bool,
    pub theme_picker_open: bool,
    pub bars_day: usize,
    pub service_idx: usize,
    pub event_idx: usize,
    pub modal_target: TargetView,
    pub quit: bool,
    pub status_toast: Option<Seq<char>>,
    pub toast_until: Option<u64>,
    pub theme_to_save: Option<Seq<char>>,
}

pub open spec fn opt_view(s: Option<String>) -> Option<Seq<char>> {
    match s {
        Some(v) => Some(v@),
        None => None,
    }
}

impl View for App {
    type V = AppModel;

    open spec fn view(&self) -> AppModel {
        AppModel {
            theme: self.theme,
            overlay_open: self.overlay_open,
            focus: self.focus,
            summary: self.summary,
            bars: self.bars@,
            error: opt_view(self.error),
            last_loaded_at: self.last_loaded_at,
            last_attempt_at: self.last_attempt_at,
            help_open: self.help_open,
            theme_picker_open: self.theme_picker_open,
            bars_day: self.bars_day,
            service_idx: self.service_idx,
            event_idx: self.event_idx,
            modal_target: target_view(self.modal_target),
            quit: self.quit,
            status_toast: opt_view(self.status_toast),
            toast_until: self.toast_until,
            theme_to_save: opt_view(self.theme_to_save),
        }
    }
}

/// A component grouped under the service with id `sid`.
pub open spec fn leaf_of(c: Component, sid: Seq<char>) -> bool {
    match c.group_id {
        Some(g) => g@ == sid,
        None => false,
    }
}

impl AppModel {
    /// The state the application keeps consistent: a well-formed theme,
    /// a loaded summary whose instants are in range, and a scrubbed day
    /// inside the window.
    pub open spec fn wf(self) -> bool {
        &&& self.theme.well_formed()
        &&& (self.summary matches Some(s) ==> s.times_valid())
        &&& self.bars_day < WINDOW_DAYS
    }

    /// Services of the loaded summary, in display order (none before the
    /// first load).
    pub open spec fn services(self) -> Seq<Component> {
        match self.summary {
            Some(s) => service_order(s.components@).map_values(|j: usize| s.components@[j as int]),
            None => Seq::empty(),
        }
    }

    pub open spec fn selected(self) -> Option<Component> {
        if self.service_idx < self.services().len() {
            Some(self.services()[self.service_idx as int])
        } else {
            None
        }
    }

    /// The incident concerns the selected service: it names the service
    /// or one of its grouped leaves. Every incident matches when nothing
    /// is selected.
    pub open spec fn matches_service(self, inc: Incident) -> bool {
        match (self.selected(), self.summary) {
            (Some(svc), Some(s)) => exists|j: int|
                0 <= j < inc.components@.len() && ((#[trigger] inc.components@[j]).id@ == svc.id@
                    || exists|c: int|
                    0 <= c < s.components@.len() && leaf_of(#[trigger] s.components@[c], svc.id@)
                        && s.components@[c].id@ == inc.components@[j].id@),
            _ => true,
        }
    }

    /// Indices of the incidents that started on day `d` and concern the
    /// selected service, most recent first (ties in input order).
    pub open spec fn day_incidents(self, d: int) -> Seq<usize> {
        let incs = self.summary->0.incidents@;
        sort_by(
            identity_order(incs.len()).filter(
                |i: usize| day_of(incs[i as int].started_at as int) == d && self.matches_service(incs[i as int]),
            ),
            key_le(incs.map_values(|inc: Incident| (-inc.started_at) as i128)),
        )
    }

    /// Incidents listed over the window ending on day `today_day`, in
    /// timeline order (indices into the summary's incidents).
    pub open spec fn flat(self, today_day: int) -> Seq<usize> {
        if self.summary is None {
            Seq::empty()
        } else {
            flat_indices(self, today_day, WINDOW_DAYS as int)
        }
    }

    pub open spec fn flat_len(self, today_day: int) -> int {
        self.flat(today_day).len() as int
    }
}

/// Incidents listed under the first `k` day headings (today first).
pub open spec fn flat_indices(m: AppModel, today_day: int, k: int) -> Seq<usize>
    decreases k,
{
    if k <= 0 {
        Seq::empty()
    } else {
        flat_indices(m, today_day, k - 1) + m.day_incidents(today_day - (k - 1))
    }
}

/// Heading of a day in the timeline: "Today · Apr 27", "Yesterday · Apr
/// 26", or "Sat Apr 25, 2026" further back.
pub open spec fn day_label_spec(d: int, today_day: int) -> Seq<char> {
    let short = match formatted_day(d as i32, "%b %-d"@) {
        Some(s) => s,
        None => Seq::empty(),
    };
    if today_day - d == 0 {
        "Today · "@ + short
    } else if today_day - d == 1 {
        "Yesterday · "@ + short
    } else {
        match formatted_day(d as i32, "%a %b %-d, %Y"@) {
            Some(s) => s,
            None => Seq::empty(),
        }
    }
}

/// Heading of day `d` when today is `today_day`.
pub fn day_label(d: i64, today_day: i64) -> (s: String)
    requires
        -200_000_000 <= d <= 200_000_000,
        -200_000_000 <= today_day <= 200_000_000,
    ensures
        s@ == day_label_spec(d as int, today_day as int),
{
    let delta = today_day - d;
    if delta == 0 || delta == 1 {
        let short = match format_day(d as i32, "%b %-d") {
            Some(s) => s,
            None => String::new(),
        };
        let head = if delta == 0 {
            String::from_str("Today · ")
        } else {
            String::from_str("Yesterday · ")
        };
        head.concat(short.as_str())
    } else {
        match format_day(d as i32, "%a %b %-d, %Y") {
            Some(s) => s,
            None => String::new(),
        }
    }
}

/// Euclidean wrap of `idx + dir` into `0..len`; zero for an empty list.
pub fn wrap(idx: usize, dir: i8, len: usize) -> (r: usize)
    ensures
        len == 0 ==> r == 0,
        len > 0 ==> r as int == wrap_index(idx as int, dir as int, len as int) && r < len,
{
    if len == 0 {
        return 0;
    }
    crate::theme::wrap_usize(idx, dir as isize, len)
}

/// No modifier, or Shift alone.
pub fn is_plain(m: u8) -> (b: bool)
    ensures
        b == (m == 0 || m == SHIFT),
{
    m == 0 || m == SHIFT
}

pub open spec fn leaf_ids(comps: Seq<Component>, sid: Seq<char>, id: Seq<char>) -> bool {
    leaf_ids_upto(comps, sid, comps.len() as int, id)
}

pub open spec fn leaf_ids_upto(comps: Seq<Component>, sid: Seq<char>, n: int, id: Seq<char>) -> bool {
    exists|c: int| 0 <= c < n && leaf_of(#[trigger] comps[c], sid) && comps[c].id@ == id
}

pub open spec fn listed(v: Seq<String>, x: Seq<char>) -> bool {
    exists|k: int| 0 <= k < v.len() && (#[trigger] v[k])@ == x
}

/// Ids of the components grouped under `sid`.
fn collect_leaf_ids(comps: &Vec<Component>, sid: &String) -> (r: Vec<String>)
    ensures
        forall|x: Seq<char>| #[trigger] listed(r@, x) <==> leaf_ids(comps@, sid@, x),
{
    let mut r: Vec<String> = Vec::new();
    let mut i: usize = 0;
    while i < comps.len()
        invariant
            i <= comps@.len(),
            forall|x: Seq<char>| #[trigger] listed(r@, x) <==> leaf_ids_upto(comps@, sid@, i as int, x),
        decreases comps@.len() - i,
    {
        let c = &comps[i];
        let is_leaf = match &c.group_id {
            Some(g) => *g == *sid,
            None => false,
        };
        let ghost prev = r@;
        if is_leaf {
            r.push(c.id.clone());
        }
        assert forall|x: Seq<char>| #[trigger] listed(r@, x) <==> leaf_ids_upto(comps@, sid@, i + 1, x) by {
            if leaf_ids_upto(comps@, sid@, i + 1, x) {
                let cc = choose|cc: int| 0 <= cc < i + 1 && leaf_of(#[trigger] comps@[cc], sid@) && comps@[cc].id@ == x;
                if cc == i {
                    assert(r@[r@.len() - 1]@ == x);
                } else {
                    assert(leaf_ids_upto(comps@, sid@, i as int, x));
                    assert(listed(prev, x));
                    let k = choose|k: int| 0 <= k < prev.len() && (#[trigger] prev[k])@ == x;
                    assert(r@[k] == prev[k]);
                }
            }
            if listed(r@, x) {
                let k = choose|k: int| 0 <= k < r@.len() && (#[trigger] r@[k])@ == x;
                if k < prev.len() {
                    assert(prev[k] == r@[k]);
                    assert(listed(prev, x));
                }
            }
        }
        i = i + 1;
    }
    r
}

fn contains_id(v: &Vec<String>, id: &String) -> (b: bool)
    ensures
        b == exists|k: int| 0 <= k < v@.len() && (#[trigger] v@[k])@ == id@,
{
    let mut k: usize = 0;
    while k < v.len()
        invariant
            k <= v@.len(),
            forall|q: int| 0 <= q < k ==> (#[trigger] v@[q])@ != id@,
        decreases v@.len() - k,
    {
        if v[k] == *id {
            return true;
        }
        k = k + 1;
    }
    false
}

/// The incident names the service `sid` or one of the listed leaves.
fn incident_concerns(inc: &Incident, sid: &String, leaves: &Vec<String>) -> (b: bool)
    ensures
        b == exists|j: int|
            0 <= j < inc.components@.len() && ((#[trigger] inc.components@[j]).id@ == sid@ || exists|k: int|
                0 <= k < leaves@.len() && (#[trigger] leaves@[k])@ == inc.components@[j].id@),
{
    let mut j: usize = 0;
    while j < inc.components.len()
        invariant
            j <= inc.components@.len(),
            forall|q: int|
                0 <= q < j ==> !((#[trigger] inc.components@[q]).id@ == sid@ || exists|k: int|
                    0 <= k < leaves@.len() && (#[trigger] leaves@[k])@ == inc.components@[q].id@),
        decreases inc.components@.len() - j,
    {
        let id = &inc.components[j].id;
        if *id == *sid || contains_id(leaves, id) {
            return true;
        }
        j = j + 1;
    }
    false
}

impl App {
    /// Services of the loaded summary, in display order.
    pub fn services(&self) -> (r: Vec<&Component>)
        ensures
            r@.len() == self@.services().len(),
            forall|k: int| 0 <= k < r@.len() ==> *r@[k] == #[trigger] self@.services()[k],
    {
        let mut r: Vec<&Component> = Vec::new();
        match &self.summary {
            None => r,
            Some(s) => {
                let order = service_indices(&s.components);
                let mut k: usize = 0;
                while k < order.len()
                    invariant
                        k <= order@.len(),
                        self.summary == Some(*s),
                        order@ == service_order(s.components@),
                        forall|q: int| 0 <= q < order@.len() ==> (#[trigger] order@[q]) < s.components@.len(),
                        r@.len() == k,
                        forall|q: int| 0 <= q < k ==> *r@[q] == #[trigger] self@.services()[q],
                    decreases order@.len() - k,
                {
                    r.push(&s.components[order[k]]);
                    k = k + 1;
                }
                r
            },
        }
    }

    /// The service under the cursor, if any.
    pub fn selected_service(&self) -> (r: Option<&Component>)
        ensures
            match r {
                Some(c) => self@.selected() == Some(*c),
                None => self@.selected() is None,
            },
    {
        let services = self.services();
        if self.service_idx < services.len() {
            Some(services[self.service_idx])
        } else {
            None
        }
    }

    /// Whether an incident belongs in the timeline for the selection.
    fn matches_service_exec(&self, inc: &Incident, leaves: &Vec<String>) -> (b: bool)
        requires
            match (self@.selected(), self.summary) {
                (Some(svc), Some(s)) => forall|x: Seq<char>| #[trigger] listed(leaves@, x) <==> leaf_ids(
                    s.components@,
                    svc.id@,
                    x,
                ),
                _ => true,
            },
        ensures
            b == self@.matches_service(*inc),
    {
        match (self.selected_service(), &self.summary) {
            (Some(svc), Some(s)) => {
                let b = incident_concerns(inc, &svc.id, leaves);
                proof {
                    if b {
                        let j = choose|j: int|
                            0 <= j < inc.components@.len() && ((#[trigger] inc.components@[j]).id@ == svc.id@
                                || exists|k: int|
                                0 <= k < leaves@.len() && (#[trigger] leaves@[k])@ == inc.components@[j].id@);
                        if inc.components@[j].id@ != svc.id@ {
                            assert(listed(leaves@, inc.components@[j].id@));
                            assert(leaf_ids(s.components@, svc.id@, inc.components@[j].id@));
                        }
                    } else {
                        assert forall|j: int| 0 <= j < inc.components@.len() implies !((#[trigger] inc.components@[j]).id@
                            == svc.id@ || exists|c: int|
                            0 <= c < s.components@.len() && leaf_of(#[trigger] s.components@[c], svc.id@)
                                && s.components@[c].id@ == inc.components@[j].id@) by {
                            if exists|c: int|
                                0 <= c < s.components@.len() && leaf_of(#[trigger] s.components@[c], svc.id@)
                                    && s.components@[c].id@ == inc.components@[j].id@ {
                                assert(leaf_ids(s.components@, svc.id@, inc.components@[j].id@));
                                assert(listed(leaves@, inc.components@[j].id@));
                            }
                        }
                    }
                }
                b
            },
            _ => true,
        }
    }
}

impl App {
    /// Leaf ids of the selected service (none without a selection).
    fn selection_leaves(&self) -> (r: Vec<String>)
        ensures
            match (self@.selected(), self.summary) {
                (Some(svc), Some(s)) => forall|x: Seq<char>| #[trigger] listed(r@, x) <==> leaf_ids(
                    s.components@,
                    svc.id@,
                    x,
                ),
                _ => true,
            },
    {
        match (self.selected_service(), &self.summary) {
            (Some(svc), Some(s)) => collect_leaf_ids(&s.components, &svc.id),
            _ => Vec::new(),
        }
    }

    /// The incident timeline at `today`: one heading per day of the
    /// window, today first, each with the day's incidents for the
    /// selected service, most recent first. Empty before the first load.
    pub fn timeline_at(&self, today: i128) -> (r: Vec<(String, Vec<&Incident>)>)
        requires
            self@.wf(),
            valid_instant(today as int),
        ensures
            self.summary is None ==> r@.len() == 0,
            self.summary is Some ==> r@.len() == WINDOW_DAYS,
            forall|k: int|
                0 <= k < r@.len() ==> {
                    let d = day_of(today as int) - k;
                    let idx = self@.day_incidents(d);
                    &&& (#[trigger] r@[k]).0@ == day_label_spec(d, day_of(today as int))
                    &&& r@[k].1@.len() == idx.len()
                    &&& forall|m: int|
                        0 <= m < idx.len() ==> *r@[k].1@[m] == self.summary->0.incidents@[#[trigger] idx[m] as int]
                },
    {
        let mut out: Vec<(String, Vec<&Incident>)> = Vec::new();
        let s = match &self.summary {
            Some(s) => s,
            None => return out,
        };
        let incs = &s.incidents;
        let leaves = self.selection_leaves();
        let td = day_of_instant(today);
        let mut keys: Vec<i128> = Vec::new();
        let mut i: usize = 0;
        while i < incs.len()
            invariant
                i <= incs@.len(),
                incidents_valid(incs@),
                keys@ == incs@.take(i as int).map_values(|inc: Incident| (-inc.started_at) as i128),
            decreases incs@.len() - i,
        {
            assert(incs@[i as int].times_valid());
            keys.push(-incs[i].started_at);
            assert(incs@.take(i + 1) =~= incs@.take(i as int).push(incs@[i as int]));
            assert(incs@.take(i + 1).map_values(|inc: Incident| (-inc.started_at) as i128) =~= incs@.take(
                i as int,
            ).map_values(|inc: Incident| (-inc.started_at) as i128).push((-incs@[i as int].started_at) as i128));
            i = i + 1;
        }
        assert(incs@.take(i as int) =~= incs@);
        let mut k: usize = 0;
        while k < 90
            invariant
                k <= 90,
                self@.wf(),
                self.summary == Some(*s),
                incs == &s.incidents,
                -100_000_000 <= td <= 100_000_000,
                td as int == day_of(today as int),
                keys@ == incs@.map_values(|inc: Incident| (-inc.started_at) as i128),
                match (self@.selected(), self.summary) {
                    (Some(svc), Some(s)) => forall|x: Seq<char>| #[trigger] listed(leaves@, x) <==> leaf_ids(
                        s.components@,
                        svc.id@,
                        x,
                    ),
                    _ => true,
                },
                out@.len() == k,
                forall|q: int|
                    0 <= q < k ==> {
                        let d = day_of(today as int) - q;
                        let idx = self@.day_incidents(d);
                        &&& (#[trigger] out@[q]).0@ == day_label_spec(d, day_of(today as int))
                        &&& out@[q].1@.len() == idx.len()
                        &&& forall|m: int|
                            0 <= m < idx.len() ==> *out@[q].1@[m] == self.summary->0.incidents@[#[trigger] idx[m] as int]
                    },
            decreases 90 - k,
        {
            let d = td - (k as i64);
            let ghost pred = |x: usize|
                day_of(incs@[x as int].started_at as int) == d && self@.matches_service(incs@[x as int]);
            let mut picked: Vec<usize> = Vec::new();
            let mut i: usize = 0;
            assert(identity_order(0).filter(pred) =~= Seq::<usize>::empty());
            while i < incs.len()
                invariant
                    i <= incs@.len(),
                    self@.wf(),
                    self.summary == Some(*s),
                    incs == &s.incidents,
                    pred == (|x: usize|
                        day_of(incs@[x as int].started_at as int) == d && self@.matches_service(incs@[x as int])),
                    match (self@.selected(), self.summary) {
                        (Some(svc), Some(s)) => forall|x: Seq<char>| #[trigger] listed(leaves@, x) <==> leaf_ids(
                            s.components@,
                            svc.id@,
                            x,
                        ),
                        _ => true,
                    },
                    picked@ == identity_order(i as nat).filter(pred),
                    forall|q: int| 0 <= q < picked@.len() ==> (#[trigger] picked@[q]) < incs@.len(),
                decreases incs@.len() - i,
            {
                let inc = &incs[i];
                assert(incs@[i as int].times_valid());
                proof {
                    assert(identity_order((i + 1) as nat) =~= identity_order(i as nat).push(i));
                    identity_order(i as nat).lemma_filter_push(i, pred);
                }
                if day_of_instant(inc.started_at) == d && self.matches_service_exec(inc, &leaves) {
                    picked.push(i);
                }
                i = i + 1;
            }
            assert(identity_order(i as nat) =~= identity_order(incs@.len()));
            let order = stable_sort_indices(&picked, &keys);
            let mut refs: Vec<&Incident> = Vec::new();
            let mut m: usize = 0;
            while m < order.len()
                invariant
                    m <= order@.len(),
                    forall|q: int| 0 <= q < order@.len() ==> (#[trigger] order@[q]) < incs@.len(),
                    refs@.len() == m,
                    forall|q: int| 0 <= q < m ==> *refs@[q] == incs@[#[trigger] order@[q] as int],
                decreases order@.len() - m,
            {
                refs.push(&incs[order[m]]);
                m = m + 1;
            }
            assert(order@ == self@.day_incidents(d as int));
            let label = day_label(d, td);
            out.push((label, refs));
            k = k + 1;
        }
        out
    }
}

// ---------------------------------------------------------------------
// Transitions
// ---------------------------------------------------------------------

pub open spec fn other_pane(p: Pane) -> Pane {
    match p {
        Pane::Services => Pane::Events,
        Pane::Events => Pane::Services,
    }
}

/// The state with focus on the other pane.
pub open spec fn focus_cycled(m: AppModel) -> AppModel {
    AppModel { focus: other_pane(m.focus), ..m }
}

pub open spec fn toasted(m: AppModel, msg: Seq<char>, now: u64) -> AppModel {
    AppModel { status_toast: Some(msg), toast_until: Some((now + TOAST_MS) as u64), ..m }
}

/// Up/down in the focused pane: wraps around the services (resetting the
/// incident cursor) or around the listed incidents; nothing to move over
/// leaves the state as it was.
pub open spec fn moved_selection(m: AppModel, dir: int, today_day: int) -> AppModel {
    match m.focus {
        Pane::Services => {
            let n = m.services().len();
            if n == 0 {
                m
            } else {
                AppModel {
                    service_idx: wrap_index(m.service_idx as int, dir, n as int) as usize,
                    event_idx: 0,
                    ..m
                }
            }
        },
        Pane::Events => {
            let n = m.flat_len(today_day);
            if n == 0 {
                m
            } else {
                AppModel { event_idx: wrap_index(m.event_idx as int, dir, n) as usize, ..m }
            }
        },
    }
}

/// Left/right scrubs the day on the services pane, clamped to the window.
pub open spec fn moved_horizontal(m: AppModel, dir: int) -> AppModel {
    match m.focus {
        Pane::Services => {
            let next = m.bars_day + dir;
            let clamped = if next < 0 {
                0
            } else if next > WINDOW_DAYS - 1 {
                WINDOW_DAYS - 1
            } else {
                next
            };
            AppModel { bars_day: clamped as usize, ..m }
        },
        Pane::Events => m,
    }
}

/// Enter opens the modal on the scrubbed day of the selected service, or
/// on the incident under the cursor (when there is one).
pub open spec fn opened_modal(m: AppModel, today_day: int) -> AppModel {
    match m.focus {
        Pane::Services => AppModel {
            modal_target: TargetView::Day { row: m.service_idx, day: m.bars_day },
            overlay_open: true,
            ..m
        },
        Pane::Events => if m.event_idx < m.flat_len(today_day) {
            AppModel {
                modal_target: TargetView::Incident(
                    m.summary->0.incidents@[m.flat(today_day)[m.event_idx as int] as int].id@,
                ),
                overlay_open: true,
                ..m
            }
        } else {
            m
        },
    }
}

pub open spec fn is_char(k: KeyInput, c: char) -> bool {
    k.code == Key::Char(c)
}

pub open spec fn plain(k: KeyInput) -> bool {
    k.modifiers == 0 || k.modifiers == SHIFT
}

pub open spec fn ctrl(k: KeyInput) -> bool {
    k.modifiers & CONTROL != 0
}

/// A save of `new`, if any, replaces the pending one.
pub open spec fn newer_save(prev: Option<Seq<char>>, new: Option<Seq<char>>) -> Option<Seq<char>> {
    match new {
        Some(n) => Some(n),
        None => prev,
    }
}

/// The state after a key press at `now` (milliseconds) on day `today_day`.
/// The help screen only closes (Esc, ?, q); the theme picker closes (Esc,
/// t, q, Enter), committing the cursor's theme, or moves its cursor
/// (up/k, down/j); otherwise the key table applies.
pub open spec fn after_key(m: AppModel, k: KeyInput, now: u64, today_day: int) -> AppModel {
    if m.help_open {
        if k.code == Key::Esc || is_char(k, '?') || is_char(k, 'q') {
            AppModel { help_open: false, ..m }
        } else {
            m
        }
    } else if m.theme_picker_open {
        if k.code == Key::Esc || is_char(k, 't') || is_char(k, 'q') || k.code == Key::Enter {
            AppModel {
                theme_picker_open: false,
                theme: committed(m.theme),
                theme_to_save: newer_save(m.theme_to_save, commit_saves(m.theme)),
                ..m
            }
        } else if k.code == Key::Up || is_char(k, 'k') {
            AppModel { theme: cycled(m.theme, -1, now), ..m }
        } else if k.code == Key::Down || is_char(k, 'j') {
            AppModel { theme: cycled(m.theme, 1, now), ..m }
        } else {
            m
        }
    } else if (is_char(k, 'c') || is_char(k, 'd')) && ctrl(k) {
        AppModel { quit: true, ..m }
    } else if is_char(k, 'q') && plain(k) {
        AppModel { quit: true, ..m }
    } else if k.code == Key::Esc {
        if m.overlay_open {
            AppModel { overlay_open: false, ..m }
        } else {
            AppModel { quit: true, ..m }
        }
    } else if k.code == Key::Tab || k.code == Key::BackTab {
        focus_cycled(m)
    } else if is_char(k, '?') {
        AppModel { help_open: true, ..m }
    } else if is_char(k, 't') && plain(k) {
        AppModel { theme_picker_open: true, ..m }
    } else if is_char(k, 'r') && plain(k) {
        toasted(m, "refreshing..."@, now)
    } else if k.code == Key::Up || (is_char(k, 'k') && plain(k)) {
        moved_selection(m, -1, today_day)
    } else if k.code == Key::Down || (is_char(k, 'j') && plain(k)) {
        moved_selection(m, 1, today_day)
    } else if k.code == Key::Left || (is_char(k, 'h') && plain(k)) {
        moved_horizontal(m, -1)
    } else if k.code == Key::Right || (is_char(k, 'l') && plain(k)) {
        moved_horizontal(m, 1)
    } else if k.code == Key::Enter {
        opened_modal(m, today_day)
    } else {
        m
    }
}

/// A tick commits the theme preview once its debounce window has
/// elapsed, and clears the toast once its time has come.
pub open spec fn after_tick(m: AppModel, now: u64) -> AppModel {
    let m1 = AppModel {
        theme: ticked(m.theme, now),
        theme_to_save: newer_save(m.theme_to_save, tick_saves(m.theme, now)),
        ..m
    };
    match m1.toast_until {
        Some(until) if now >= until => AppModel { status_toast: None, toast_until: None, ..m1 },
        _ => m1,
    }
}

/// Abstract view of an event.
pub enum EventView {
    Key(KeyInput),
    Tick,
    Resize,
    Loaded(Summary),
    LoadFailed(Seq<char>),
}

pub open spec fn event_view(e: AppEvent) -> EventView {
    match e {
        AppEvent::Key(k) => EventView::Key(k),
        AppEvent::Tick => EventView::Tick,
        AppEvent::Resize => EventView::Resize,
        AppEvent::Loaded(s) => EventView::Loaded(*s),
        AppEvent::LoadFailed(msg) => EventView::LoadFailed(msg@),
    }
}

/// `m1` is the state after event `e` handled at monotonic time `now`,
/// wall-clock instant `utc` and end-of-day instant `today`. A load
/// stores the summary, recomputes the bars, clears the error and stamps
/// both clocks; a failed load keeps the data, records the error and
/// toasts it.
pub open spec fn handled(m0: AppModel, m1: AppModel, e: EventView, now: u64, utc: i128, today: i128) -> bool {
    match e {
        EventView::Key(k) => m1 == after_key(m0, k, now, day_of(today as int)),
        EventView::Tick => m1 == after_tick(m0, now),
        EventView::Resize => m1 == m0,
        EventView::Loaded(s) => {
            &&& m1 == AppModel {
                summary: Some(s),
                bars: m1.bars,
                error: None,
                last_loaded_at: Some(utc),
                last_attempt_at: Some(now),
                ..m0
            }
            &&& uptime_rows(m1.bars, s.components@, s.incidents@, today as int)
        },
        EventView::LoadFailed(msg) => m1 == toasted(
            AppModel { last_attempt_at: Some(now), error: Some(msg), ..m0 },
            "refresh failed: "@ + msg,
            now,
        ),
    }
}

/// Keys and loads read the current day; other events do not.
pub open spec fn reads_day(e: EventView) -> bool {
    e is Key || e is Loaded
}

/// The readings an event can be handled with: keys and loads read the
/// day, which must then be in range.
pub open spec fn handleable(e: EventView, now: u64, today: i128) -> bool {
    &&& now as int + TOAST_MS <= u64::MAX
    &&& (reads_day(e) ==> valid_instant(today as int))
    &&& (e matches EventView::Loaded(s) ==> s.times_valid())
}

impl App {
    /// A fresh application: nothing loaded, services pane focused, the
    /// scrubbed day on today.
    pub fn new(theme: AppTheme) -> (app: App)
        ensures
            app@ == (AppModel {
                theme,
                overlay_open: false,
                focus: Pane::Services,
                summary: None,
                bars: Seq::empty(),
                error: None,
                last_loaded_at: None,
                last_attempt_at: None,
                help_open: false,
                theme_picker_open: false,
                bars_day: (WINDOW_DAYS - 1) as usize,
                service_idx: 0,
                event_idx: 0,
                modal_target: TargetView::Empty,
                quit: false,
                status_toast: None,
                toast_until: None,
                theme_to_save: None,
            }),
    {
        let app = App {
            started_at: monotonic_start(),
            theme,
            overlay_open: false,
            focus: Pane::Services,
            summary: None,
            bars: Vec::new(),
            error: None,
            last_loaded_at: None,
            last_attempt_at: None,
            help_open: false,
            theme_picker_open: false,
            bars_day: 89,
            service_idx: 0,
            event_idx: 0,
            modal_target: ModalTarget::Empty,
            quit: false,
            status_toast: None,
            toast_until: None,
            theme_to_save: None,
        };
        assert(app@.bars =~= Seq::<UptimeRow>::empty());
        app
    }

    /// Milliseconds since the application started.
    pub fn elapsed_ms(&self) -> u64 {
        elapsed_millis(&self.started_at)
    }

    /// Nothing loaded yet.
    pub fn is_loading(&self) -> (b: bool)
        ensures
            b == (self.summary is None),
    {
        self.summary.is_none()
    }

    /// Whether the detail modal is open.
    pub fn modal_open(&self) -> (b: bool)
        ensures
            b == self.overlay_open,
    {
        self.overlay_open
    }

    /// `r` is the timeline of the 90 days ending on day `td`: one group
    /// per day, newest first, labelled and holding that day's incidents.
    pub open spec fn timeline_shows(&self, r: Seq<(String, Vec<&Incident>)>, td: int) -> bool {
        &&& r.len() == WINDOW_DAYS
        &&& forall|k: int|
            0 <= k < r.len() ==> {
                let idx = self@.day_incidents(td - k);
                &&& (#[trigger] r[k]).0@ == day_label_spec(td - k, td)
                &&& r[k].1@.len() == idx.len()
                &&& forall|m: int|
                    0 <= m < idx.len() ==> *r[k].1@[m] == self.summary->0.incidents@[#[trigger] idx[m] as int]
            }
    }

    /// `r` lists the incidents of the timeline ending on day `td`, in
    /// listing order.
    pub open spec fn flat_shows(&self, r: Seq<&Incident>, td: int) -> bool {
        &&& r.len() == self@.flat_len(td)
        &&& forall|q: int|
            0 <= q < r.len() ==> *r[q] == self.summary->0.incidents@[#[trigger] self@.flat(td)[q] as int]
    }

    /// The timeline's incidents in listing order, at `today`.
    pub fn flat_incidents_at(&self, today: i128) -> (r: Vec<&Incident>)
        requires
            self@.wf(),
            valid_instant(today as int),
        ensures
            r@.len() == self@.flat_len(day_of(today as int)),
            forall|q: int|
                0 <= q < r@.len() ==> *r@[q] == self.summary->0.incidents@[#[trigger] self@.flat(
                    day_of(today as int),
                )[q] as int],
    {
        let groups = self.timeline_at(today);
        let ghost td = day_of(today as int);
        let mut r: Vec<&Incident> = Vec::new();
        if self.summary.is_none() {
            return r;
        }
        let mut k: usize = 0;
        while k < groups.len()
            invariant
                k <= groups@.len(),
                groups@.len() == WINDOW_DAYS,
                self.summary is Some,
                forall|q: int|
                    0 <= q < groups@.len() ==> {
                        let idx = self@.day_incidents(td - q);
                        &&& (#[trigger] groups@[q]).1@.len() == idx.len()
                        &&& forall|m: int|
                            0 <= m < idx.len() ==> *groups@[q].1@[m] == self.summary->0.incidents@[#[trigger] idx[m] as int]
                    },
                r@.len() == flat_indices(self@, td, k as int).len(),
                forall|q: int|
                    0 <= q < r@.len() ==> *r@[q] == self.summary->0.incidents@[#[trigger] flat_indices(
                        self@,
                        td,
                        k as int,
                    )[q] as int],
            decreases groups@.len() - k,
        {
            let list = &groups[k].1;
            let ghost before = r@;
            let ghost prefix = flat_indices(self@, td, k as int);
            let ghost idx = self@.day_incidents(td - k);
            assert(flat_indices(self@, td, k + 1) == prefix + idx);
            let mut m: usize = 0;
            while m < list.len()
                invariant
                    m <= list@.len(),
                    list@.len() == idx.len(),
                    self.summary is Some,
                    forall|z: int| 0 <= z < idx.len() ==> *list@[z] == self.summary->0.incidents@[#[trigger] idx[z] as int],
                    r@.len() == before.len() + m,
                    before.len() == prefix.len(),
                    forall|z: int| 0 <= z < before.len() ==> r@[z] == before[z],
                    forall|z: int|
                        0 <= z < before.len() ==> *before[z] == self.summary->0.incidents@[#[trigger] prefix[z] as int],
                    forall|z: int| 0 <= z < m ==> *r@[before.len() + z] == self.summary->0.incidents@[#[trigger] idx[z] as int],
                decreases list@.len() - m,
            {
                r.push(list[m]);
                m = m + 1;
            }
            assert forall|q: int| 0 <= q < r@.len() implies *r@[q] == self.summary->0.incidents@[#[trigger] flat_indices(
                self@,
                td,
                k + 1,
            )[q] as int] by {
                if q < before.len() {
                    assert(flat_indices(self@, td, k + 1)[q] == prefix[q]);
                } else {
                    assert(flat_indices(self@, td, k + 1)[q] == idx[q - before.len()]);
                }
            }
            k = k + 1;
        }
        r
    }

    /// The incident timeline for the current UTC day (empty when the clock
    /// reads outside the library's range).
    pub fn timeline(&self) -> (r: Vec<(String, Vec<&Incident>)>)
        requires
            self@.wf(),
        ensures
            self.summary is None ==> r@.len() == 0,
            r@.len() == 0 || exists|td: int| #[trigger] self.timeline_shows(r@, td),
    {
        match checked_today_utc() {
            Some(t) => {
                let r = self.timeline_at(t);
                assert(r@.len() == 0 || self.timeline_shows(r@, day_of(t as int)));
                r
            },
            None => Vec::new(),
        }
    }

    /// The timeline's incidents in listing order, for the current UTC day.
    pub fn flat_incidents(&self) -> (r: Vec<&Incident>)
        requires
            self@.wf(),
        ensures
            r@.len() == 0 || exists|td: int| #[trigger] self.flat_shows(r@, td),
    {
        match checked_today_utc() {
            Some(t) => {
                let r = self.flat_incidents_at(t);
                assert(r@.len() == 0 || self.flat_shows(r@, day_of(t as int)));
                r
            },
            None => Vec::new(),
        }
    }

    fn toast(&mut self, msg: String, now: u64)
        requires
            now as int + TOAST_MS <= u64::MAX,
        ensures
            final(self)@ == toasted(old(self)@, msg@, now),
            final(self).started_at == old(self).started_at,
    {
        self.status_toast = Some(msg);
        self.toast_until = Some(now + TOAST_MS);
    }

    /// Moves focus to the other pane (either direction: there are two).
    pub fn cycle_focus(&mut self, _dir: i8)
        ensures
            final(self)@ == focus_cycled(old(self)@),
            final(self).started_at == old(self).started_at,
    {
        self.focus = match self.focus {
            Pane::Services => Pane::Events,
            Pane::Events => Pane::Services,
        };
    }

    fn move_selection(&mut self, dir: i8, today: i128)
        requires
            old(self)@.wf(),
            valid_instant(today as int),
        ensures
            final(self)@ == moved_selection(old(self)@, dir as int, day_of(today as int)),
            final(self).started_at == old(self).started_at,
    {
        match self.focus {
            Pane::Services => {
                let n = self.services().len();
                if n == 0 {
                    return;
                }
                self.service_idx = wrap(self.service_idx, dir, n);
                self.event_idx = 0;
            },
            Pane::Events => {
                let n = self.flat_incidents_at(today).len();
                if n == 0 {
                    return;
                }
                self.event_idx = wrap(self.event_idx, dir, n);
            },
        }
    }

    fn move_horizontal(&mut self, dir: i8)
        requires
            old(self).bars_day < WINDOW_DAYS,
        ensures
            final(self)@ == moved_horizontal(old(self)@, dir as int),
            final(self).started_at == old(self).started_at,
    {
        if matches!(self.focus, Pane::Services) {
            let next = (self.bars_day as i64) + (dir as i64);
            let clamped: i64 = if next < 0 {
                0
            } else if next > 89 {
                89
            } else {
                next
            };
            self.bars_day = clamped as usize;
        }
    }

    /// Opens the modal on the current selection, at `today`.
    pub fn open_modal_for_selection_at(&mut self, today: i128)
        requires
            old(self)@.wf(),
            valid_instant(today as int),
        ensures
            final(self)@ == opened_modal(old(self)@, day_of(today as int)),
            final(self).started_at == old(self).started_at,
    {
        match self.focus {
            Pane::Services => {
                self.modal_target = ModalTarget::Day { row: self.service_idx, day: self.bars_day };
                self.overlay_open = true;
            },
            Pane::Events => {
                let flat = self.flat_incidents_at(today);
                if self.event_idx < flat.len() {
                    let id = flat[self.event_idx].id.clone();
                    self.modal_target = ModalTarget::Incident(id);
                    self.overlay_open = true;
                }
            },
        }
    }

    /// Opens the modal on the current selection: on the services pane, the
    /// day detail of the selected service and scrubbed day; on the events
    /// pane, the selected incident of the timeline for the current UTC day
    /// (nothing happens there when the clock reads outside the library's
    /// range).
    pub fn open_modal_for_selection(&mut self)
        requires
            old(self)@.wf(),
        ensures
            old(self).focus == Pane::Services ==> final(self)@ == (AppModel {
                modal_target: TargetView::Day { row: old(self).service_idx, day: old(self).bars_day },
                overlay_open: true,
                ..old(self)@
            }),
            old(self).focus == Pane::Events ==> (final(self)@ == old(self)@ || exists|today: i128|
                valid_instant(today as int) && (exists|t: int| today as int == end_of_day(t)) && final(self)@
                    == opened_modal(old(self)@, day_of(today as int))),
            final(self).started_at == old(self).started_at,
    {
        match self.focus {
            Pane::Services => {
                self.modal_target = ModalTarget::Day { row: self.service_idx, day: self.bars_day };
                self.overlay_open = true;
            },
            Pane::Events => match checked_today_utc() {
                Some(t) => self.open_modal_for_selection_at(t),
                None => {},
            },
        }
    }
}

impl App {
    fn handle_key(&mut self, k: KeyInput, now: u64, today: i128)
        requires
            old(self)@.wf(),
            valid_instant(today as int),
            now as int + TOAST_MS <= u64::MAX,
        ensures
            final(self)@ == after_key(old(self)@, k, now, day_of(today as int)),
            final(self).started_at == old(self).started_at,
    {
        if self.help_open {
            if matches!(k.code, Key::Esc | Key::Char('?') | Key::Char('q')) {
                self.help_open = false;
            }
            return;
        }
        if self.theme_picker_open {
            match k.code {
                Key::Esc | Key::Char('t') | Key::Char('q') | Key::Enter => {
                    self.theme_picker_open = false;
                    let saved = self.theme.commit_preview();
                    if saved.is_some() {
                        self.theme_to_save = saved;
                    }
                },
                Key::Up | Key::Char('k') => self.theme.cycle(-1, now),
                Key::Down | Key::Char('j') => self.theme.cycle(1, now),
                _ => {},
            }
            return;
        }
        let plain = is_plain(k.modifiers);
        let ctrl = k.modifiers & CONTROL != 0;
        match k.code {
            Key::Char('c') if ctrl => self.quit = true,
            Key::Char('d') if ctrl => self.quit = true,
            Key::Char('q') if plain => self.quit = true,
            Key::Esc => {
                if self.overlay_open {
                    self.overlay_open = false;
                } else {
                    self.quit = true;
                }
            },
            Key::Tab => self.cycle_focus(1),
            Key::BackTab => self.cycle_focus(-1),
            Key::Char('?') => self.help_open = true,
            Key::Char('t') if plain => self.theme_picker_open = true,
            Key::Char('r') if plain => self.toast(String::from_str("refreshing..."), now),
            Key::Up => self.move_selection(-1, today),
            Key::Char('k') if plain => self.move_selection(-1, today),
            Key::Down => self.move_selection(1, today),
            Key::Char('j') if plain => self.move_selection(1, today),
            Key::Left => self.move_horizontal(-1),
            Key::Char('h') if plain => self.move_horizontal(-1),
            Key::Right => self.move_horizontal(1),
            Key::Char('l') if plain => self.move_horizontal(1),
            Key::Enter => self.open_modal_for_selection_at(today),
            _ => {},
        }
    }

    /// Handles one event with the given clock readings: `now` in
    /// milliseconds since start, `utc` the wall-clock instant, `today`
    /// the end of the current UTC day.
    pub fn handle_at(&mut self, ev: AppEvent, now: u64, utc: i128, today: i128)
        requires
            old(self)@.wf(),
            handleable(event_view(ev), now, today),
        ensures
            handled(old(self)@, final(self)@, event_view(ev), now, utc, today),
            final(self)@.wf(),
            final(self).started_at == old(self).started_at,
    {
        match ev {
            AppEvent::Tick => {
                let saved = self.theme.tick(now);
                if saved.is_some() {
                    self.theme_to_save = saved;
                }
                match self.toast_until {
                    Some(until) => {
                        if now >= until {
                            self.status_toast = None;
                            self.toast_until = None;
                        }
                    },
                    None => {},
                }
            },
            AppEvent::Resize => {},
            AppEvent::Loaded(s) => {
                self.last_loaded_at = Some(utc);
                self.last_attempt_at = Some(now);
                self.error = None;
                self.bars = compute(&s.components, &s.incidents, today);
                self.summary = Some(*s);
            },
            AppEvent::LoadFailed(e) => {
                self.last_attempt_at = Some(now);
                let msg = String::from_str("refresh failed: ").concat(e.as_str());
                self.error = Some(e);
                self.toast(msg, now);
            },
            AppEvent::Key(k) => self.handle_key(k, now, today),
        }
    }

    /// Handles one event, reading the clocks. Nothing changes when a
    /// reading the event needs, or a loaded summary's instants, fall
    /// outside the library's range.
    pub fn handle(&mut self, ev: AppEvent)
        requires
            old(self)@.wf(),
        ensures
            final(self)@.wf(),
            final(self)@ == old(self)@ || exists|now: u64, utc: i128, today: i128|
                {
                    &&& handleable(event_view(ev), now, today)
                    &&& handled(old(self)@, final(self)@, event_view(ev), now, utc, today)
                    &&& -MAX_READING <= utc <= MAX_READING
                    &&& (reads_day(event_view(ev)) ==> exists|t: int| today as int == end_of_day(t))
                },
            final(self).started_at == old(self).started_at,
    {
        let now = self.elapsed_ms();
        if now > u64::MAX - TOAST_MS {
            return;
        }
        let utc = utc_now();
        let reads_day = match &ev {
            AppEvent::Key(_) | AppEvent::Loaded(_) => true,
            _ => false,
        };
        // Events that do not read the day are handled whatever the clock
        // says; they are given midnight of 1970-01-01, which they ignore.
        let today: i128 = if reads_day {
            match checked_today_utc() {
                Some(t) => t,
                None => return,
            }
        } else {
            0
        };
        let ok = match &ev {
            AppEvent::Loaded(s) => s.has_valid_times(),
            _ => true,
        };
        if !ok {
            return;
        }
        self.handle_at(ev, now, utc, today);
    }
}

// ---------------------------------------------------------------------
// Laws of the state machine
// ---------------------------------------------------------------------

pub open spec fn no_overlay(m: AppModel) -> bool {
    !m.help_open && !m.theme_picker_open
}

/// Tab twice brings focus back: the state is as before.
pub proof fn lemma_tab_twice(m: AppModel, k: KeyInput, now: u64, today_day: int)
    requires
        no_overlay(m),
        k.code == Key::Tab || k.code == Key::BackTab,
    ensures
        after_key(after_key(m, k, now, today_day), k, now, today_day) == m,
{
}

/// While the help screen is up, only Esc, ? and q do anything, and they
/// only close it.
pub proof fn lemma_help_swallows_keys(m: AppModel, k: KeyInput, now: u64, today_day: int)
    requires
        m.help_open,
    ensures
        after_key(m, k, now, today_day) == m || after_key(m, k, now, today_day) == (AppModel {
            help_open: false,
            ..m
        }),
{
}

/// Esc closes an open modal and does not quit; with no modal it quits.
pub proof fn lemma_esc_closes_modal_first(m: AppModel, k: KeyInput, now: u64, today_day: int)
    requires
        no_overlay(m),
        k.code == Key::Esc,
    ensures
        m.overlay_open ==> !after_key(m, k, now, today_day).overlay_open && after_key(m, k, now, today_day).quit == m.quit,
        !m.overlay_open ==> after_key(m, k, now, today_day).quit,
{
}

/// Moving the selection keeps it inside the list it moves over.
pub proof fn lemma_selection_in_range(m: AppModel, dir: int, today_day: int)
    ensures
        ({
            let m1 = moved_selection(m, dir, today_day);
            &&& (m.focus == Pane::Services && m.services().len() > 0 ==> m1.service_idx < m.services().len()
                && m1.event_idx == 0)
            &&& (m.focus == Pane::Events && m.flat_len(today_day) > 0 ==> m1.event_idx < m.flat_len(
                today_day,
            ))
        }),
{
}

/// Up then down (or down then up) on the services pane returns to the
/// same service.
pub proof fn lemma_up_down_round_trip(m: AppModel, today_day: int)
    requires
        m.focus == Pane::Services,
        m.service_idx < m.services().len(),
        m.services().len() <= usize::MAX,
    ensures
        moved_selection(moved_selection(m, -1, today_day), 1, today_day).service_idx == m.service_idx,
        moved_selection(moved_selection(m, 1, today_day), -1, today_day).service_idx == m.service_idx,
{
    let n = m.services().len() as int;
    crate::theme::lemma_wrap_inverse(m.service_idx as int, -1, n);
    crate::theme::lemma_wrap_inverse(m.service_idx as int, 1, n);
    let a = wrap_index(m.service_idx as int, -1, n);
    let b = wrap_index(m.service_idx as int, 1, n);
    assert(0 <= a < n && 0 <= b < n);
    let m1 = moved_selection(m, -1, today_day);
    let m2 = moved_selection(m, 1, today_day);
    assert(m1.service_idx == a);
    assert(m2.service_idx == b);
    assert(m1.services() == m.services());
    assert(m2.services() == m.services());
}

/// The scrubbed day never leaves the window.
pub proof fn lemma_scrub_stays_in_window(m: AppModel, dir: int)
    requires
        m.bars_day < WINDOW_DAYS,
        -1 <= dir <= 1,
    ensures
        moved_horizontal(m, dir).bars_day < WINDOW_DAYS,
{
}

/// A tick at or after the toast's deadline clears it; earlier ticks
/// leave it up.
pub proof fn lemma_toast_expires(m: AppModel, now: u64)
    requires
        m.toast_until is Some,
    ensures
        now >= m.toast_until->0 ==> after_tick(m, now).status_toast is None && after_tick(m, now).toast_until is None,
        now < m.toast_until->0 ==> after_tick(m, now).status_toast == m.status_toast && after_tick(
            m,
            now,
        ).toast_until == m.toast_until,
{
}

/// With nothing pending, a tick before the toast's deadline changes
/// nothing.
pub proof fn lemma_quiet_tick_changes_nothing(m: AppModel, now: u64)
    requires
        m.theme.pending_since is None,
        m.toast_until matches Some(until) ==> now < until,
    ensures
        after_tick(m, now) == m,
{
}

/// The picker's cursor converges: a tick once the debounce window has
/// elapsed applies the cursor's theme, ends the preview and saves the
/// theme when it changed.
pub proof fn lemma_preview_converges_on_tick(m: AppModel, now: u64)
    requires
        m.theme.pending_since matches Some(at) && now >= at && now - at >= PREVIEW_DEBOUNCE_MS,
    ensures
        after_tick(m, now).theme.applied == m.theme.cursor,
        after_tick(m, now).theme.cursor == m.theme.cursor,
        after_tick(m, now).theme.pending_since is None,
        m.theme.cursor != m.theme.applied ==> after_tick(m, now).theme_to_save == Some(
            m.theme.entries@[m.theme.cursor as int].display@,
        ),
{
}

/// Handling a tick event once the picker's quiet window has passed
/// applies the cursor's theme, and clears a toast whose time has come.
pub proof fn lemma_tick_event_commits_preview(m0: AppModel, m1: AppModel, now: u64, utc: i128, today: i128)
    requires
        handled(m0, m1, EventView::Tick, now, utc, today),
        m0.theme.pending_since matches Some(at) && now >= at && now - at >= PREVIEW_DEBOUNCE_MS,
    ensures
        m1.theme.applied == m0.theme.cursor,
        m1.theme.pending_since is None,
        m0.toast_until matches Some(until) && now >= until ==> m1.status_toast is None && m1.toast_until is None,
{
}

/// Before the debounce window has elapsed, a tick leaves the applied
/// theme alone.
pub proof fn lemma_preview_waits_for_debounce(m: AppModel, now: u64)
    requires
        m.theme.pending_since matches Some(at) && now >= at && now - at < PREVIEW_DEBOUNCE_MS,
    ensures
        after_tick(m, now).theme == m.theme,
        after_tick(m, now).theme_to_save == m.theme_to_save,
{
}

/// Closing the picker (Esc, t, q or Enter) applies the cursor's theme at
/// once, without waiting for the debounce window, and saves it when it
/// changed.
pub proof fn lemma_closing_picker_commits(m: AppModel, k: KeyInput, now: u64, today_day: int)
    requires
        !m.help_open,
        m.theme_picker_open,
        k.code == Key::Esc || is_char(k, 't') || is_char(k, 'q') || k.code == Key::Enter,
    ensures
        !after_key(m, k, now, today_day).theme_picker_open,
        after_key(m, k, now, today_day).theme == committed(m.theme),
        after_key(m, k, now, today_day).theme.applied == m.theme.cursor,
        after_key(m, k, now, today_day).quit == m.quit,
        m.theme.cursor != m.theme.applied ==> after_key(m, k, now, today_day).theme_to_save == Some(
            m.theme.entries@[m.theme.cursor as int].display@,
        ),
{
}

/// Moving the picker's cursor previews without applying: the applied
/// theme stays.
pub proof fn lemma_picker_moves_keep_applied(m: AppModel, k: KeyInput, now: u64, today_day: int)
    requires
        !m.help_open,
        m.theme_picker_open,
        k.code == Key::Up || k.code == Key::Down || is_char(k, 'k') || is_char(k, 'j'),
    ensures
        after_key(m, k, now, today_day).theme.applied == m.theme.applied,
        after_key(m, k, now, today_day).theme_picker_open,
{
}

/// Cycling focus moves it to the other pane; cycling twice restores the
/// state.
pub proof fn lemma_focus_cycles_back(m: AppModel)
    ensures
        focus_cycled(m).focus != m.focus,
        focus_cycled(focus_cycled(m)) == m,
{
}

/// A failed refresh keeps the data on screen.
pub proof fn lemma_failed_load_keeps_data(m0: AppModel, m1: AppModel, msg: Seq<char>, now: u64, utc: i128, today: i128)
    requires
        handled(m0, m1, EventView::LoadFailed(msg), now, utc, today),
    ensures
        m1.summary == m0.summary,
        m1.bars == m0.bars,
        m1.last_loaded_at == m0.last_loaded_at,
        m1.error == Some(msg),
{
}

/// After a load, the bars line up with the services pane: row `k` is the
/// uptime row of service `k`.
pub proof fn lemma_rows_match_services(m0: AppModel, m1: AppModel, s: Summary, now: u64, utc: i128, today: i128)
    requires
        handled(m0, m1, EventView::Loaded(s), now, utc, today),
    ensures
        m1.bars.len() == m1.services().len(),
        forall|k: int|
            0 <= k < m1.bars.len() ==> (#[trigger] m1.bars[k]).group_id@ == m1.services()[k].id@
                && m1.bars[k].group_name@ == m1.services()[k].name@,
{
}

/// Within a day, the timeline lists the incidents most recent first:
/// each listed index points into the summary's incidents, and an
/// incident listed before another started no earlier than it.
pub proof fn lemma_day_incidents_newest_first(m: AppModel, d: int)
    requires
        m.wf(),
        m.summary is Some,
    ensures
        forall|a: int|
            0 <= a < m.day_incidents(d).len() ==> (#[trigger] m.day_incidents(d)[a]) < m.summary->0.incidents@.len(),
        forall|a: int, b: int|
            0 <= a < b < m.day_incidents(d).len() ==> m.summary->0.incidents@[#[trigger] m.day_incidents(d)[a] as int].started_at
                >= m.summary->0.incidents@[#[trigger] m.day_incidents(d)[b] as int].started_at,
{
    broadcast use vstd::seq_lib::group_to_multiset_ensures;

    let incs = m.summary->0.incidents@;
    let pred = |i: usize| day_of(incs[i as int].started_at as int) == d && m.matches_service(incs[i as int]);
    let cands = identity_order(incs.len()).filter(pred);
    let keys = incs.map_values(|inc: Incident| (-inc.started_at) as i128);
    let le = key_le(keys);
    let o = m.day_incidents(d);
    assert(o == sort_by(cands, le));
    lemma_sort_by_multiset(cands, le);
    lemma_key_le_total(keys);
    lemma_sort_by_sorted(cands, le);
    assert forall|a: int| 0 <= a < o.len() implies (#[trigger] o[a]) < incs.len() by {
        assert(o.contains(o[a]));
        assert(o.to_multiset().count(o[a]) > 0);
        assert(cands.contains(o[a]));
        identity_order(incs.len()).lemma_filter_contains_rev(pred, o[a]);
    }
    assert forall|a: int, b: int| 0 <= a < b < o.len() implies incs[#[trigger] o[a] as int].started_at
        >= incs[#[trigger] o[b] as int].started_at by {
        assert(le(o[a], o[b]));
        assert(o[a] < incs.len() && o[b] < incs.len());
        assert(incs[o[a] as int].times_valid());
        assert(incs[o[b] as int].times_valid());
        assert(keys[o[a] as int] == (-incs[o[a] as int].started_at) as i128);
        assert(keys[o[b] as int] == (-incs[o[b] as int].started_at) as i128);
    }
}

/// The timeline's day groups list their incidents most recent first.
pub proof fn lemma_timeline_newest_first(app: &App, r: Seq<(String, Vec<&Incident>)>, td: int)
    requires
        app@.wf(),
        app.summary is Some,
        app.timeline_shows(r, td),
    ensures
        forall|k: int, a: int, b: int|
            0 <= k < r.len() && 0 <= a < b < r[k].1@.len() ==> (#[trigger] r[k].1@[a]).started_at
                >= (#[trigger] r[k].1@[b]).started_at,
{
    assert forall|k: int, a: int, b: int|
        0 <= k < r.len() && 0 <= a < b < r[k].1@.len() implies (#[trigger] r[k].1@[a]).started_at
            >= (#[trigger] r[k].1@[b]).started_at by {
        let idx = app@.day_incidents(td - k);
        lemma_day_incidents_newest_first(app@, td - k);
        assert(*r[k].1@[a] == app.summary->0.incidents@[idx[a] as int]);
        assert(*r[k].1@[b] == app.summary->0.incidents@[idx[b] as int]);
    }
}

/// A day's group of the timeline holds exactly the incidents that started
/// on that day and concern the selected service, each once.
pub proof fn lemma_day_incidents_started_that_day(m: AppModel, d: int)
    requires
        m.summary is Some,
    ensures
        forall|a: int|
            0 <= a < m.day_incidents(d).len() ==> {
                let j = #[trigger] m.day_incidents(d)[a];
                &&& j < m.summary->0.incidents@.len()
                &&& day_of(m.summary->0.incidents@[j as int].started_at as int) == d
                &&& m.matches_service(m.summary->0.incidents@[j as int])
            },
        forall|j: int|
            0 <= j < m.summary->0.incidents@.len() && m.summary->0.incidents@.len() <= usize::MAX && day_of(
                (#[trigger] m.summary->0.incidents@[j]).started_at as int,
            ) == d && m.matches_service(m.summary->0.incidents@[j]) ==> m.day_incidents(d).contains(j as usize),
{
    broadcast use vstd::seq_lib::group_to_multiset_ensures;

    let incs = m.summary->0.incidents@;
    let pred = |i: usize| day_of(incs[i as int].started_at as int) == d && m.matches_service(incs[i as int]);
    let ident = identity_order(incs.len());
    let cands = ident.filter(pred);
    let keys = incs.map_values(|inc: Incident| (-inc.started_at) as i128);
    let le = key_le(keys);
    let o = m.day_incidents(d);
    assert(o == sort_by(cands, le));
    lemma_sort_by_multiset(cands, le);
    assert forall|a: int| 0 <= a < o.len() implies {
        let j = #[trigger] o[a];
        &&& j < incs.len()
        &&& day_of(incs[j as int].started_at as int) == d
        &&& m.matches_service(incs[j as int])
    } by {
        assert(o.contains(o[a]));
        assert(o.to_multiset().count(o[a]) > 0);
        assert(cands.contains(o[a]));
        let q = choose|q: int| 0 <= q < cands.len() && cands[q] == o[a];
        ident.lemma_filter_pred(pred, q);
        ident.lemma_filter_contains_rev(pred, o[a]);
    }
    assert forall|j: int|
        0 <= j < incs.len() && incs.len() <= usize::MAX && day_of((#[trigger] incs[j]).started_at as int) == d
            && m.matches_service(incs[j]) implies o.contains(j as usize) by {
        assert(ident[j] == j as usize);
        ident.lemma_filter_contains(pred, j);
        assert(cands.to_multiset().count(j as usize) > 0);
        assert(o.to_multiset().count(j as usize) > 0);
    }
}

} // verus!
