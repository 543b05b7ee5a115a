//! The services pane: block sizes, status labels, and how the 90 days of
//! a service map onto the cells of a bar of any width.

use vstd::prelude::*;

use crate::api::ComponentStatus;
use crate::bars::{DayStatus, UptimeRow, WINDOW_DAYS, day_rank, rank};
use crate::text::{decimal, decimal_string, two_digit_string, two_digits};
use crate::theme::ColorRole;

verus! {

/// Lines per service: name and status, uptime bar, axis.
pub const ROW_HEIGHT: u16 = 3;

/// Blank lines between services.
pub const INTER_ROW_GAP: u16 = 1;

/// Marker before the focused service's name.
pub const FOCUS_PREFIX: &'static str = "▶ ";

/// Marker before other services' names.
pub const NO_PREFIX: &'static str = "  ";

/// Service rows reserved while the loading skeleton is shown.
pub const SKELETON_ROWS: u16 = 6;

pub open spec fn sat_u16(x: int) -> int {
    if x > u16::MAX {
        u16::MAX as int
    } else {
        x
    }
}

/// Natural height of the services block for `n` services: the border,
/// `n` rows, the gaps between them and two lines of headroom, saturating
/// at `u16::MAX`.
pub open spec fn block_height_spec(n: int) -> int {
    let n16 = n % 65536;
    let rows = sat_u16(n16 * ROW_HEIGHT);
    let gaps = sat_u16(if n16 == 0 {
        0
    } else {
        n16 - 1
    } * INTER_ROW_GAP);
    sat_u16(sat_u16(sat_u16(rows + gaps) + 2) + 2)
}

fn sat(x: u32) -> (r: u16)
    ensures
        r as int == sat_u16(x as int),
{
    if x > 65535 {
        65535
    } else {
        x as u16
    }
}

/// Height of the services block for `n_services` services.
pub fn block_height(n_services: usize) -> (h: u16)
    ensures
        h as int == block_height_spec(n_services as int),
{
    let n = (n_services % 65536) as u32;
    let rows = sat(n * 3);
    let gaps = sat(if n == 0 {
        0
    } else {
        n - 1
    });
    let a = sat(rows as u32 + gaps as u32);
    let b = sat(a as u32 + 2);
    sat(b as u32 + 2)
}

pub open spec fn service_status_label(s: ComponentStatus) -> Seq<char> {
    match s {
        ComponentStatus::Operational => "Operational"@,
        ComponentStatus::DegradedPerformance => "Degraded"@,
        ComponentStatus::PartialOutage => "Partial Outage"@,
        ComponentStatus::MajorOutage => "Major Outage"@,
        ComponentStatus::UnderMaintenance => "Maintenance"@,
    }
}

/// Status pill text of a service.
pub fn label(s: ComponentStatus) -> (r: &'static str)
    ensures
        r@ == service_status_label(s),
{
    match s {
        ComponentStatus::Operational => "Operational",
        ComponentStatus::DegradedPerformance => "Degraded",
        ComponentStatus::PartialOutage => "Partial Outage",
        ComponentStatus::MajorOutage => "Major Outage",
        ComponentStatus::UnderMaintenance => "Maintenance",
    }
}

pub open spec fn day_role(ds: DayStatus) -> ColorRole {
    match ds {
        DayStatus::Unknown => ColorRole::Dim,
        DayStatus::Operational => ColorRole::Success,
        DayStatus::Maintenance => ColorRole::Info,
        DayStatus::Degraded => ColorRole::Warning,
        DayStatus::Outage => ColorRole::Danger,
    }
}

/// Colour of a day cell.
pub fn day_color(ds: DayStatus) -> (c: ColorRole)
    ensures
        c == day_role(ds),
{
    match ds {
        DayStatus::Unknown => ColorRole::Dim,
        DayStatus::Operational => ColorRole::Success,
        DayStatus::Maintenance => ColorRole::Info,
        DayStatus::Degraded => ColorRole::Warning,
        DayStatus::Outage => ColorRole::Danger,
    }
}

/// Colour of an uptime figure: green from 99.9 %, yellow from 99 %, red
/// below.
pub open spec fn uptime_role(ppm: int) -> ColorRole {
    if ppm >= 999_000 {
        ColorRole::Success
    } else if ppm >= 990_000 {
        ColorRole::Warning
    } else {
        ColorRole::Danger
    }
}

pub fn uptime_color(ppm: u32) -> (c: ColorRole)
    ensures
        c == uptime_role(ppm as int),
{
    if ppm >= 999_000 {
        ColorRole::Success
    } else if ppm >= 990_000 {
        ColorRole::Warning
    } else {
        ColorRole::Danger
    }
}

/// An uptime figure in parts per million as a percentage with two
/// decimals, rounded half up: `99.95%` for 999,450 ppm.
pub open spec fn uptime_percent_spec(ppm: int) -> Seq<char> {
    let h = (ppm + 50) / 100;
    decimal((h / 100) as nat) + "."@ + two_digits(h % 100) + "%"@
}

/// The percentage text of an uptime figure.
pub fn uptime_percent_text(ppm: u32) -> (s: String)
    ensures
        s@ == uptime_percent_spec(ppm as int),
{
    let h: u32 = ((ppm as u64 + 50) / 100) as u32;
    let whole = decimal_string((h / 100) as u128);
    let frac = two_digit_string((h % 100) as i128);
    proof {
        reveal_strlit(".");
        reveal_strlit("%");
    }
    whole.concat(".").concat(frac.as_str()).concat("%")
}

/// How the axis under a bar is laid out: `None` when the three labels
/// and their spacing do not fit (they are then set side by side),
/// otherwise the dashes left and right of the centred uptime label.
pub open spec fn axis_dashes_spec(width: int, left_len: int, center_len: int, right_len: int) -> Option<(int, int)> {
    let needed = left_len + center_len + right_len + 4;
    if width < needed {
        None
    } else {
        let total = width - needed;
        Some((total / 2, total - total / 2))
    }
}

pub fn axis_dashes(width: usize, left_len: usize, center_len: usize, right_len: usize) -> (r: Option<(usize, usize)>)
    requires
        left_len + center_len + right_len + 4 <= usize::MAX,
    ensures
        match axis_dashes_spec(width as int, left_len as int, center_len as int, right_len as int) {
            Some((a, b)) => r == Some((a as usize, b as usize)),
            None => r is None,
        },
{
    let needed = left_len + center_len + right_len + 4;
    if width < needed {
        None
    } else {
        let total = width - needed;
        let left = total / 2;
        Some((left, total - left))
    }
}

// ---------------------------------------------------------------------
// Bar cells
// ---------------------------------------------------------------------

/// First day of the bucket that cell `c` of `width` covers.
pub open spec fn bucket_lo(c: int, width: int) -> int {
    c * WINDOW_DAYS / width
}

/// End (exclusive) of that bucket, within the window.
pub open spec fn bucket_hi(c: int, width: int) -> int {
    let h = (c + 1) * WINDOW_DAYS / width;
    if h < WINDOW_DAYS {
        h
    } else {
        WINDOW_DAYS as int
    }
}

/// Scan of days `lo..end` of a bucket: the most severe known day and the
/// first day at which it was reached; unknown (at `lo`) if every day is
/// unknown.
pub open spec fn bucket_scan(days: Seq<DayStatus>, lo: int, end: int) -> (int, DayStatus)
    decreases end - lo,
{
    if end <= lo {
        (lo, DayStatus::Unknown)
    } else {
        let prev = bucket_scan(days, lo, end - 1);
        let s = days[end - 1];
        if s == DayStatus::Unknown {
            prev
        } else if prev.1 == DayStatus::Unknown || rank(s) > rank(prev.1) {
            (end - 1, s)
        } else {
            prev
        }
    }
}

/// Cell `c` of a bar `width` cells wide: when the bar is at least as wide
/// as the window each cell shows one day (stretched); otherwise each cell
/// shows the worst known day of its bucket.
pub open spec fn cell_spec(days: Seq<DayStatus>, c: int, width: int) -> (int, DayStatus) {
    if width >= WINDOW_DAYS {
        let d = bucket_lo(c, width);
        (d, days[d])
    } else {
        bucket_scan(days, bucket_lo(c, width), bucket_hi(c, width))
    }
}

proof fn lemma_bucket_bounds(c: int, width: int)
    requires
        0 <= c < width,
    ensures
        0 <= bucket_lo(c, width) < WINDOW_DAYS,
        bucket_lo(c, width) <= bucket_hi(c, width) <= WINDOW_DAYS,
{
    assert(0 <= c * 90 / width < 90) by (nonlinear_arith)
        requires
            0 <= c < width,
    ;
    assert(c * 90 / width <= (c + 1) * 90 / width) by (nonlinear_arith)
        requires
            0 <= c < width,
    ;
}

/// The (day, status) shown by each of `width` cells of a row's bar.
pub fn cells_for_width(row: &UptimeRow, width: usize) -> (cells: Vec<(usize, DayStatus)>)
    requires
        row.days@.len() == WINDOW_DAYS,
        width * WINDOW_DAYS + WINDOW_DAYS <= usize::MAX,
    ensures
        cells@.len() == width,
        forall|c: int|
            0 <= c < width ==> (#[trigger] cells@[c]).0 as int == cell_spec(row.days@, c, width as int).0
                && cells@[c].1 == cell_spec(row.days@, c, width as int).1,
{
    let days = &row.days;
    let n: usize = 90;
    let mut out: Vec<(usize, DayStatus)> = Vec::new();
    if width == 0 {
        return out;
    }
    let mut c: usize = 0;
    while c < width
        invariant
            c <= width,
            n == 90,
            days@.len() == WINDOW_DAYS,
            width * WINDOW_DAYS + WINDOW_DAYS <= usize::MAX,
            out@.len() == c,
            forall|q: int|
                0 <= q < c ==> (#[trigger] out@[q]).0 as int == cell_spec(days@, q, width as int).0
                    && out@[q].1 == cell_spec(days@, q, width as int).1,
        decreases width - c,
    {
        proof {
            lemma_bucket_bounds(c as int, width as int);
            assert(c * 90 + 90 <= usize::MAX) by (nonlinear_arith)
                requires
                    c < width,
                    width * 90 + 90 <= usize::MAX,
            ;
        }
        let lo = c * n / width;
        if width >= n {
            out.push((lo, days[lo]));
        } else {
            let h = (c + 1) * n / width;
            let hi = if h < n {
                h
            } else {
                n
            };
            let mut worst = DayStatus::Unknown;
            let mut focus = lo;
            let mut d = lo;
            while d < hi
                invariant
                    lo <= d <= hi,
                    hi <= 90,
                    days@.len() == WINDOW_DAYS,
                    (focus as int, worst) == bucket_scan(days@, lo as int, d as int),
                decreases hi - d,
            {
                let s = days[d];
                if !matches!(s, DayStatus::Unknown) {
                    if matches!(worst, DayStatus::Unknown) || day_rank(s) > day_rank(worst) {
                        worst = s;
                        focus = d;
                    }
                }
                d = d + 1;
            }
            out.push((focus, worst));
        }
        c = c + 1;
    }
    out
}

/// When the bar is at least as wide as the window, every day of the
/// window is shown by some cell.
pub proof fn lemma_every_day_shown(width: int, day: int)
    requires
        width >= WINDOW_DAYS,
        0 <= day < WINDOW_DAYS,
    ensures
        exists|c: int| 0 <= c < width && #[trigger] bucket_lo(c, width) == day,
{
    let c = (day * width + 89) / 90;
    assert(0 <= c < width && c * 90 / width == day) by (nonlinear_arith)
        requires
            width >= 90,
            0 <= day < 90,
            c == (day * width + 89) / 90,
    {
        assert(c * 90 <= day * width + 89);
        assert(c * 90 > day * width - 1);
        assert(c * 90 >= day * width);
        assert(c * 90 < day * width + 90);
        assert(c * 90 < (day + 1) * width);
    }
    assert(bucket_lo(c, width) == day);
}

/// A bucket shows unknown exactly when every day in it is unknown, and
/// otherwise a known day at least as severe as every day in it.
pub proof fn lemma_bucket_worst(days: Seq<DayStatus>, lo: int, end: int)
    requires
        0 <= lo <= end <= days.len(),
    ensures
        ({
            let (f, w) = bucket_scan(days, lo, end);
            &&& (w == DayStatus::Unknown) == (forall|d: int| lo <= d < end ==> #[trigger] days[d] == DayStatus::Unknown)
            &&& forall|d: int| lo <= d < end ==> rank(#[trigger] days[d]) <= rank(w)
            &&& (w != DayStatus::Unknown ==> lo <= f < end && days[f] == w)
        }),
    decreases end - lo,
{
    if end > lo {
        lemma_bucket_worst(days, lo, end - 1);
    }
}

/// Each service status has a pill text of its own, naming the status:
/// distinct statuses never share a text.
pub proof fn lemma_status_labels_name_their_status()
    ensures
        service_status_label(ComponentStatus::Operational) == "Operational"@,
        service_status_label(ComponentStatus::DegradedPerformance) == "Degraded"@,
        service_status_label(ComponentStatus::PartialOutage) == "Partial Outage"@,
        service_status_label(ComponentStatus::MajorOutage) == "Major Outage"@,
        service_status_label(ComponentStatus::UnderMaintenance) == "Maintenance"@,
        forall|a: ComponentStatus, b: ComponentStatus|
            a != b ==> #[trigger] service_status_label(a) != #[trigger] service_status_label(b),
{
    reveal_strlit("Operational");
    reveal_strlit("Degraded");
    reveal_strlit("Partial Outage");
    reveal_strlit("Major Outage");
    reveal_strlit("Maintenance");
    assert("Operational"@[0] != "Maintenance"@[0]);
    assert forall|a: ComponentStatus, b: ComponentStatus| a != b implies #[trigger] service_status_label(a)
        != #[trigger] service_status_label(b) by {
        let la = service_status_label(a);
        let lb = service_status_label(b);
        if la == lb {
            assert(la.len() == lb.len());
            assert(la[0] == lb[0]);
        }
    }
}

} // verus!
