use partly_claudy::bars::{DayStatus, UptimeRow, WINDOW_DAYS};
use partly_claudy::ui::services::{cells_for_width, uptime_percent_text};

fn row_with(days: Vec<DayStatus>) -> UptimeRow {
    UptimeRow { group_id: "g".into(), group_name: "g".into(), days, uptime_ppm: 1_000_000 }
}

#[test]
fn stretches_to_fill_when_width_exceeds_window() {
    let row = row_with(vec![DayStatus::Operational; WINDOW_DAYS as usize]);
    let cells = cells_for_width(&row, 90);
    assert_eq!(cells.len(), 90, "every char in bar_area gets a cell");
    let day_set: std::collections::BTreeSet<usize> = cells.iter().map(|(d, _)| *d).collect();
    assert_eq!(day_set.len(), WINDOW_DAYS as usize, "every day represented");
}

#[test]
fn coalesces_when_narrower_than_window() {
    let mut days = vec![DayStatus::Operational; WINDOW_DAYS as usize];
    days[15] = DayStatus::Outage;
    let cells = cells_for_width(&row_with(days), 10);
    assert_eq!(cells.len(), 10);
    assert!(cells.iter().any(|(_, ds)| matches!(ds, DayStatus::Outage)));
}

#[test]
fn coalesce_preserves_all_unknown_runs() {
    let mut days = vec![DayStatus::Operational; WINDOW_DAYS as usize];
    for d in days.iter_mut().take(10) {
        *d = DayStatus::Unknown;
    }
    let cells = cells_for_width(&row_with(days), 10);
    assert!(matches!(cells[0].1, DayStatus::Unknown));
}

#[test]
fn wide_bar_stretches_each_day_over_whole_cells() {
    let days: Vec<DayStatus> = (0..WINDOW_DAYS)
        .map(|d| if d % 2 == 0 { DayStatus::Operational } else { DayStatus::Degraded })
        .collect();
    let cells = cells_for_width(&row_with(days), 180);
    assert_eq!(cells.len(), 180);
    for (c, (day, status)) in cells.iter().enumerate() {
        assert_eq!(*day, c / 2);
        let expected = if (c / 2) % 2 == 0 { DayStatus::Operational } else { DayStatus::Degraded };
        assert_eq!(*status, expected);
    }
}

#[test]
fn narrow_bar_focuses_the_first_worst_day_of_each_bucket() {
    let mut days = vec![DayStatus::Operational; WINDOW_DAYS as usize];
    days[3] = DayStatus::Degraded;
    days[5] = DayStatus::Outage;
    days[7] = DayStatus::Outage;
    // Nine days per cell at width 10: cell 0 covers days 0..9.
    let cells = cells_for_width(&row_with(days), 10);
    assert_eq!(cells[0], (5, DayStatus::Outage));
    assert_eq!(cells[1], (9, DayStatus::Operational));
}

#[test]
fn zero_width_has_no_cells() {
    let cells = cells_for_width(&row_with(vec![DayStatus::Operational; WINDOW_DAYS as usize]), 0);
    assert!(cells.is_empty());
}

#[test]
fn uptime_percentages_have_two_decimals_rounded_half_up() {
    assert_eq!(uptime_percent_text(999_450), "99.95%");
    assert_eq!(uptime_percent_text(1_000_000), "100.00%");
    assert_eq!(uptime_percent_text(0), "0.00%");
    assert_eq!(uptime_percent_text(994), "0.10%");
    assert_eq!(uptime_percent_text(999_949), "99.99%");
    assert_eq!(uptime_percent_text(999_950), "100.00%");
}
