//! The compact uptime-bars layout: one bar per service coalescing days
//! into cells, the focused cell, and name truncation.

use vstd::prelude::*;

use crate::app::App;
use crate::bars::{DayStatus, WINDOW_DAYS, day_rank, rank};
use crate::text::{truncate_chars, truncated};

verus! {

/// Width of the name column.
pub const NAME_WIDTH: u16 = 18;

/// Width of the uptime column.
pub const PCT_WIDTH: u16 = 9;

/// Most severe status over days `lo..end` of a bucket, starting from
/// operational (an unknown day never wins).
pub open spec fn bucket_max(days: Seq<DayStatus>, lo: int, end: int) -> DayStatus
    decreases end - lo,
{
    if end <= lo {
        DayStatus::Operational
    } else {
        let prev = bucket_max(days, lo, end - 1);
        if end - 1 < days.len() && rank(days[end - 1]) > rank(prev) {
            days[end - 1]
        } else {
            prev
        }
    }
}

/// Cells of a bar `width` wide: the days themselves when the bar is at
/// least as wide as the window, otherwise one cell per bucket showing its
/// most severe day (operational for an all-unknown bucket).
pub open spec fn bar_cells_spec(days: Seq<DayStatus>, width: int) -> Seq<DayStatus> {
    if width == 0 {
        Seq::empty()
    } else if width >= WINDOW_DAYS {
        days
    } else {
        Seq::new(
            width as nat,
            |i: int|
                bucket_max(
                    days,
                    i * WINDOW_DAYS / width,
                    if (i + 1) * WINDOW_DAYS / width < WINDOW_DAYS {
                        (i + 1) * WINDOW_DAYS / width
                    } else {
                        WINDOW_DAYS as int
                    },
                ),
        )
    }
}

pub fn bar_cells(days: &Vec<DayStatus>, width: usize) -> (r: Vec<DayStatus>)
    ensures
        r@ == bar_cells_spec(days@, width as int),
{
    let n: usize = 90;
    if width == 0 {
        return Vec::new();
    }
    if width >= n {
        let mut out: Vec<DayStatus> = Vec::new();
        let mut k: usize = 0;
        while k < days.len()
            invariant
                k <= days@.len(),
                out@ == days@.take(k as int),
            decreases days@.len() - k,
        {
            out.push(days[k]);
            k = k + 1;
            assert(out@ =~= days@.take(k as int));
        }
        assert(days@.take(k as int) =~= days@);
        return out;
    }
    let mut out: Vec<DayStatus> = Vec::new();
    let mut i: usize = 0;
    while i < width
        invariant
            i <= width,
            width < 90,
            n == 90,
            out@.len() == i,
            forall|q: int| 0 <= q < i ==> #[trigger] out@[q] == bar_cells_spec(days@, width as int)[q],
        decreases width - i,
    {
        let lo = i * n / width;
        let h = (i + 1) * n / width;
        let hi = if h < n {
            h
        } else {
            n
        };
        let mut worst = DayStatus::Operational;
        let mut d = lo;
        assert(lo <= hi) by (nonlinear_arith)
            requires
                lo == i * 90 / width as int,
                h == (i + 1) * 90 / width as int,
                hi == if h < 90 { h } else { 90 },
                i < width,
                width > 0,
        ;
        while d < hi
            invariant
                lo <= d <= hi,
                hi <= 90,
                worst == bucket_max(days@, lo as int, d as int),
            decreases hi - d,
        {
            if d < days.len() {
                let s = days[d];
                if day_rank(s) > day_rank(worst) {
                    worst = s;
                }
            }
            d = d + 1;
        }
        out.push(worst);
        i = i + 1;
    }
    assert(out@ =~= bar_cells_spec(days@, width as int));
    out
}

/// Cell that holds the scrubbed day in a bar of `total_cells` cells.
pub open spec fn focused_cell_spec(bars_day: int, total_cells: int) -> int {
    if total_cells == 0 {
        0
    } else if total_cells >= WINDOW_DAYS {
        if bars_day < total_cells - 1 {
            bars_day
        } else {
            total_cells - 1
        }
    } else {
        bars_day * total_cells / (WINDOW_DAYS as int)
    }
}

pub fn focused_cell(app: &App, total_cells: usize) -> (c: usize)
    requires
        app.bars_day < WINDOW_DAYS,
    ensures
        c as int == focused_cell_spec(app.bars_day as int, total_cells as int),
{
    if total_cells == 0 {
        return 0;
    }
    if total_cells >= 90 {
        return if app.bars_day < total_cells - 1 {
            app.bars_day
        } else {
            total_cells - 1
        };
    }
    assert(app.bars_day * total_cells < 8100) by (nonlinear_arith)
        requires
            app.bars_day < 90,
            total_cells < 90,
    ;
    app.bars_day * total_cells / 90
}

/// A name cut to `max` characters, marking a cut with an ellipsis.
pub fn truncate(s: &str, max: usize) -> (r: String)
    ensures
        r@ == truncated(s@, max as nat),
{
    truncate_chars(s, max)
}

} // verus!
