use partly_claudy::app::{App, Pane};
use partly_claudy::bars::{DayStatus, WINDOW_DAYS};
use partly_claudy::theme::{AppTheme, ColorRole};
use partly_claudy::ui::footer::{global_hints, hints};
use partly_claudy::text::{decimal_string, int_string, two_digit_string};
use partly_claudy::ui::drawer::DurationText;
use partly_claudy::ui::header::{relative, status_line, updated_text, Relative};
use partly_claudy::ui::layout::{centered, inset, inset_one, intersection, Area, BODY_MAX_WIDTH};
use partly_claudy::ui::scroll::scroll_markers;
use partly_claudy::ui::sections;
use partly_claudy::ui::services::{axis_dashes, block_height, label, uptime_color};
use partly_claudy::ui::skeleton::{incident_skeleton_blocks, layout_rows, service_row_blocks};
use partly_claudy::ui::timeline::{list_slots, name_budget_for, selected_slot, status_pill, truncate};
use partly_claudy::ui::uptime_bars::{bar_cells, focused_cell};
use partly_claudy::api::{ComponentStatus, IncidentStatus};

const SECOND: i128 = 1_000_000_000;

fn area(x: u16, y: u16, width: u16, height: u16) -> Area {
    Area { x, y, width, height }
}

#[test]
fn rectangles() {
    assert_eq!(inset(area(0, 0, 80, 24), 1), area(1, 1, 78, 22));
    assert_eq!(inset(area(0, 0, 1, 1), 1), area(1, 1, 0, 0));
    assert_eq!(inset_one(area(65535, 3, 1, 10)), area(65535, 4, 0, 8));
    assert_eq!(centered(area(0, 0, 160, 10), BODY_MAX_WIDTH), area(30, 0, 100, 10));
    assert_eq!(centered(area(5, 0, 90, 10), BODY_MAX_WIDTH), area(5, 0, 90, 10));
    assert_eq!(intersection(area(0, 0, 10, 10), area(5, 5, 10, 10)), area(5, 5, 5, 5));
    assert_eq!(intersection(area(0, 0, 2, 2), area(5, 5, 3, 3)), area(5, 5, 0, 0));
}

#[test]
fn skeleton_rows_stack_from_the_top() {
    let rows = layout_rows(area(2, 3, 40, 11), 6);
    assert_eq!(rows, vec![area(2, 3, 40, 3), area(2, 7, 40, 3), area(2, 11, 40, 3)]);
    assert!(layout_rows(area(0, 0, 40, 2), 6).is_empty());
    let blocks = service_row_blocks(area(0, 0, 60, 3));
    assert_eq!(blocks.len(), 6);
    assert_eq!(blocks[0], (area(0, 0, 20, 1), false));
    assert_eq!(blocks[1], (area(49, 0, 11, 1), false));
    assert_eq!(blocks[2], (area(0, 1, 60, 1), true));
    assert_eq!(blocks[4], (area(23, 2, 14, 1), false));
    assert_eq!(blocks[5], (area(55, 2, 5, 1), false));
}

#[test]
fn scroll_markers_show_hidden_items() {
    assert_eq!(scroll_markers(10, 5, 0, 5, 5), (false, false));
    assert_eq!(scroll_markers(10, 5, 2, 5, 10), (true, true));
    assert_eq!(scroll_markers(10, 5, 5, 5, 10), (true, false));
    assert_eq!(scroll_markers(0, 5, 5, 5, 10), (false, false));
}

#[test]
fn services_geometry() {
    assert_eq!(block_height(0), 4);
    assert_eq!(block_height(1), 7);
    assert_eq!(block_height(6), 27);
    assert_eq!(block_height(70_000), 17_859);
    assert_eq!(axis_dashes(40, 7, 14, 5), Some((5, 5)));
    assert_eq!(axis_dashes(41, 7, 14, 5), Some((5, 6)));
    assert_eq!(axis_dashes(29, 7, 14, 5), None);
    assert_eq!(uptime_color(1_000_000), ColorRole::Success);
    assert_eq!(uptime_color(999_000), ColorRole::Success);
    assert_eq!(uptime_color(998_999), ColorRole::Warning);
    assert_eq!(uptime_color(989_999), ColorRole::Danger);
    assert_eq!(label(ComponentStatus::DegradedPerformance), "Degraded");
    assert_eq!(label(ComponentStatus::UnderMaintenance), "Maintenance");
    assert_eq!(sections::label(ComponentStatus::PartialOutage), "partial outage");
}

#[test]
fn timeline_lines() {
    assert_eq!(name_budget_for(80), 50);
    assert_eq!(name_budget_for(20), 0);
    assert_eq!(truncate("abcdef", 0), "");
    assert_eq!(truncate("abcdef", 6), "abcdef");
    assert_eq!(truncate("abcdef", 4), "abc…");
    assert_eq!(status_pill(IncidentStatus::InProgress), "in progress");
    let slots = list_slots(&vec![2, 0, 1]);
    assert_eq!(slots, vec![None, Some(0), Some(1), None, None, None, Some(2)]);
    assert_eq!(selected_slot(&slots, 2), Some(6));
    assert_eq!(selected_slot(&slots, 3), None);
}

#[test]
fn uptime_bar_cells() {
    let mut days = vec![DayStatus::Operational; WINDOW_DAYS as usize];
    days[0] = DayStatus::Unknown;
    days[1] = DayStatus::Unknown;
    days[50] = DayStatus::Degraded;
    assert_eq!(bar_cells(&days, 90), days);
    let cells = bar_cells(&days, 9);
    assert_eq!(cells.len(), 9);
    assert_eq!(cells[0], DayStatus::Operational);
    assert_eq!(cells[5], DayStatus::Degraded);
    assert!(bar_cells(&days, 0).is_empty());
    let mut app = App::new(AppTheme::assemble(Vec::new(), Vec::new(), None, None));
    assert_eq!(focused_cell(&app, 120), 89);
    assert_eq!(focused_cell(&app, 45), 44);
    app.bars_day = 10;
    assert_eq!(focused_cell(&app, 9), 1);
    assert_eq!(focused_cell(&app, 0), 0);
}

#[test]
fn header_and_footer() {
    assert_eq!(relative(0, 4 * SECOND), Relative::JustNow);
    assert_eq!(relative(0, 45 * SECOND), Relative::Seconds(45));
    assert_eq!(relative(0, 125 * SECOND), Relative::Minutes(2));
    assert_eq!(relative(0, 7_300 * SECOND), Relative::Hours(2));
    assert_eq!(relative(10 * SECOND, 0), Relative::JustNow);
    let mut app = App::new(AppTheme::assemble(Vec::new(), Vec::new(), None, None));
    assert_eq!(status_line(&app), (ColorRole::Muted, "Loading…".to_string()));
    assert_eq!(hints(&app), vec![("↑/↓", "service"), ("←/→", "scrub day"), ("Enter", "detail"), ("Tab", "next pane")]);
    app.focus = Pane::Events;
    assert_eq!(hints(&app), vec![("↑/↓", "select"), ("Enter", "detail"), ("Tab", "next pane")]);
    assert_eq!(global_hints(), vec![("?", "help"), ("t", "theme"), ("q", "quit")]);
}

#[test]
fn ages_and_durations_read_as_text() {
    assert_eq!(Relative::JustNow.text(), "just now");
    assert_eq!(Relative::Seconds(12).text(), "12s ago");
    assert_eq!(Relative::Minutes(5).text(), "5m ago");
    assert_eq!(Relative::Hours(123).text(), "123h ago");
    assert_eq!(updated_text(Some(Relative::Minutes(3))), "page updated 3m ago");
    assert_eq!(updated_text(None), "page updated never");
    assert_eq!(DurationText::Minutes(42).text(), "42m");
    assert_eq!(DurationText::HoursMinutes(2, 5).text(), "2h 05m");
    assert_eq!(DurationText::HoursMinutes(10, 45).text(), "10h 45m");
    assert_eq!(DurationText::Minutes(-7).text(), "-7m");
}

#[test]
fn integers_in_decimal() {
    assert_eq!(decimal_string(0), "0");
    assert_eq!(decimal_string(1_234_567_890), "1234567890");
    assert_eq!(decimal_string(u128::MAX), u128::MAX.to_string());
    assert_eq!(int_string(-45), "-45");
    assert_eq!(int_string(i128::MIN), i128::MIN.to_string());
    assert_eq!(two_digit_string(7), "07");
    assert_eq!(two_digit_string(59), "59");
    assert_eq!(two_digit_string(-5), format!("{:02}", -5));
}

#[test]
fn incident_skeleton_groups_fill_the_pane() {
    let blocks = incident_skeleton_blocks(area(1, 1, 40, 20));
    assert_eq!(
        blocks,
        vec![
            (area(1, 1, 16, 1), Some((4, area(6, 2, 35, 3), 3))),
            (area(1, 6, 18, 1), Some((4, area(6, 7, 35, 1), 1))),
            (area(1, 9, 22, 1), Some((4, area(6, 10, 35, 4), 4))),
            (area(1, 15, 20, 1), Some((4, area(6, 16, 35, 2), 2))),
        ]
    );
}

#[test]
fn incident_skeleton_stops_where_the_pane_ends() {
    // Two lines left under the first heading: its text takes both.
    assert_eq!(incident_skeleton_blocks(area(0, 0, 40, 3)), vec![(area(0, 0, 16, 1), Some((3, area(5, 1, 35, 2), 2)))]);
    // No line left under the heading: the heading alone, then nothing.
    assert_eq!(incident_skeleton_blocks(area(0, 0, 40, 1)), vec![(area(0, 0, 16, 1), None)]);
    // Too narrow for the text column: headings only, one per line.
    assert_eq!(
        incident_skeleton_blocks(area(0, 0, 4, 10)),
        vec![
            (area(0, 0, 4, 1), None),
            (area(0, 1, 4, 1), None),
            (area(0, 2, 4, 1), None),
            (area(0, 3, 4, 1), None),
        ]
    );
    assert!(incident_skeleton_blocks(area(0, 0, 0, 10)).is_empty());
}
