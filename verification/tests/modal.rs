use partly_claudy::api::{
    Component, ComponentStatus, Impact, Incident, IncidentComponentRef, IncidentStatus, IncidentUpdate, Indicator, Page,
    Status, Summary,
};
use partly_claudy::app::{App, AppEvent, ModalTarget};
use partly_claudy::bars::DayStatus;
use partly_claudy::theme::{AppTheme, ColorRole};
use partly_claudy::ui::drawer::{drawer_width, duration_str, DurationText};
use partly_claudy::ui::timeline::{start_clock, status_color};
use partly_claudy::ui::modal::{
    affects_text, checked_desired_size, day_date_text, day_status_at, day_status_color, day_status_label, desired_size,
    incident_size, incidents_on_day, lookup_incident, modal_title, resolved_text, started_text, update_body_lines,
    update_time_text, updates_newest_first,
};

const SECOND: i128 = 1_000_000_000;
const MINUTE: i128 = 60 * SECOND;
const HOUR: i128 = 60 * MINUTE;
const DAY: i128 = 24 * HOUR;
const TODAY_DAY: i64 = 20_570;
const TODAY: i128 = TODAY_DAY as i128 * DAY + 86_399 * SECOND;

fn update(id: &str, at: i128, display: Option<i128>, body: &str) -> IncidentUpdate {
    IncidentUpdate {
        id: id.into(),
        status: IncidentStatus::Identified,
        body: body.into(),
        created_at: at,
        display_at: display,
        affected_components: None,
    }
}

fn incident(id: &str, started: i128, resolved: Option<i128>, updates: Vec<IncidentUpdate>) -> Incident {
    Incident {
        id: id.into(),
        name: format!("incident {id}"),
        status: IncidentStatus::Resolved,
        impact: Impact::Major,
        created_at: started,
        updated_at: started,
        monitoring_at: None,
        resolved_at: resolved,
        started_at: started,
        shortlink: None,
        incident_updates: updates,
        components: Vec::new(),
    }
}

fn app_with(incidents: Vec<Incident>, maintenances: Vec<Incident>) -> App {
    let mut app = App::new(AppTheme::assemble(Vec::new(), Vec::new(), None, None));
    let summary = Summary {
        page: Page { id: "p".into(), name: "n".into(), url: "u".into(), updated_at: TODAY },
        status: Status { indicator: Indicator::Nil, description: String::new() },
        components: vec![Component {
            id: "svc".into(),
            name: "Service".into(),
            status: ComponentStatus::Operational,
            created_at: TODAY - 400 * DAY,
            updated_at: TODAY,
            position: 1,
            description: None,
            group_id: None,
            group: false,
        }],
        incidents,
        scheduled_maintenances: maintenances,
    };
    app.handle_at(AppEvent::Loaded(Box::new(summary)), 1, TODAY, TODAY);
    app
}

#[test]
fn titles_follow_the_target() {
    let mut app = app_with(Vec::new(), Vec::new());
    assert_eq!(modal_title(&app), "Details");
    app.modal_target = ModalTarget::Incident("x".into());
    assert_eq!(modal_title(&app), "Incident detail");
    app.modal_target = ModalTarget::Day { row: 0, day: 3 };
    assert_eq!(modal_title(&app), "Day detail");
}

#[test]
fn lookup_searches_incidents_then_maintenances() {
    let app = app_with(
        vec![incident("a", TODAY - HOUR, None, Vec::new())],
        vec![incident("m", TODAY - HOUR, None, Vec::new())],
    );
    assert_eq!(lookup_incident(&app, &"m".to_string()).map(|i| i.id.as_str()), Some("m"));
    assert_eq!(lookup_incident(&app, &"a".to_string()).map(|i| i.id.as_str()), Some("a"));
    assert!(lookup_incident(&app, &"zz".to_string()).is_none());
}

#[test]
fn updates_are_listed_newest_first() {
    let t = TODAY - DAY;
    let inc = incident(
        "a",
        t,
        None,
        vec![
            update("u1", t, None, ""),
            update("u2", t + 3 * HOUR, Some(t + HOUR), ""),
            update("u3", t + 2 * HOUR, None, ""),
            update("u4", t + 5 * HOUR, Some(t + 2 * HOUR), ""),
        ],
    );
    let order = updates_newest_first(&inc);
    let ids: Vec<&str> = order.iter().map(|k| inc.incident_updates[*k].id.as_str()).collect();
    // u3 and u4 are both shown at t + 2h and keep their order.
    assert_eq!(ids, vec!["u3", "u4", "u2", "u1"]);
}

#[test]
fn incident_modal_height_counts_wrapped_update_lines() {
    let long = "x".repeat(100);
    let body = format!("first line\n{long}");
    let app = app_with(
        vec![incident("a", TODAY - HOUR, None, vec![update("u", TODAY - HOUR, None, &body)])],
        Vec::new(),
    );
    // Budget 96 - 4 = 92 columns: the long line wraps onto two rows.
    // Updates: heading 1 + (status 1 + body 1 + 2 + blank 1) = 6; plus 8.
    assert_eq!(incident_size(&app, &"a".to_string(), 96), (90, 14));
    // At the narrowest budget (40 columns) the long line takes three rows.
    assert_eq!(incident_size(&app, &"a".to_string(), 10), (90, 15));
    assert_eq!(incident_size(&app, &"missing".to_string(), 96), (60, 8));
}

#[test]
fn modal_size_is_clamped_to_the_viewport() {
    let mut app = app_with(vec![incident("a", TODAY - HOUR, None, Vec::new())], Vec::new());
    app.modal_target = ModalTarget::Empty;
    assert_eq!(desired_size(&app, 120, 40, TODAY, TODAY), (50, 6));
    app.modal_target = ModalTarget::Incident("a".into());
    // Empty updates still reserve two lines: 8 + 2 = 10, plus 2 of border.
    assert_eq!(desired_size(&app, 200, 60, TODAY, TODAY), (90, 12));
    assert_eq!(desired_size(&app, 60, 9, TODAY, TODAY), (56, 8));
    assert_eq!(checked_desired_size(&app, 30, 5, TODAY, TODAY), Some((30, 5)));
}

#[test]
fn day_modal_lists_incidents_spanning_the_day() {
    let yesterday_noon = TODAY - DAY - 12 * HOUR + SECOND;
    let app = app_with(
        vec![
            incident("long", yesterday_noon - 2 * DAY, Some(yesterday_noon), Vec::new()),
            incident("today", TODAY - HOUR, None, Vec::new()),
        ],
        vec![incident("maint", yesterday_noon, Some(yesterday_noon + HOUR), Vec::new())],
    );
    let on = incidents_on_day(&app, TODAY_DAY - 1, TODAY);
    let ids: Vec<&str> = on.iter().map(|i| i.id.as_str()).collect();
    assert_eq!(ids, vec!["long", "maint"]);
    let on = incidents_on_day(&app, TODAY_DAY, TODAY);
    assert_eq!(on.len(), 1);
    let mut app = app;
    app.modal_target = ModalTarget::Day { row: 0, day: 88 };
    // Six header lines plus the two incidents of yesterday, plus border.
    assert_eq!(desired_size(&app, 200, 60, TODAY, TODAY), (70, 10));
    app.modal_target = ModalTarget::Day { row: 5, day: 88 };
    assert_eq!(desired_size(&app, 200, 60, TODAY, TODAY), (60, 10));
}

#[test]
fn day_status_labels_and_lookup() {
    let app = app_with(Vec::new(), Vec::new());
    assert_eq!(day_status_at(&app, 0, 89), Some(DayStatus::Operational));
    assert_eq!(day_status_at(&app, 0, 500), Some(DayStatus::Unknown));
    assert_eq!(day_status_at(&app, 3, 0), None);
    assert_eq!(day_date_text(TODAY_DAY), Some("Mon Apr 27, 2026".to_string()));
    assert_eq!(day_date_text(0), Some("Thu Jan 1, 1970".to_string()));
    assert_eq!(day_date_text(i64::MAX), None);
    assert_eq!(day_status_label(DayStatus::Unknown), "no data");
    assert_eq!(day_status_label(DayStatus::Degraded), "degraded");
    assert_eq!(day_status_color(DayStatus::Outage), ColorRole::Danger);
    assert_eq!(day_status_color(DayStatus::Unknown), ColorRole::Dim);
}

#[test]
fn durations_read_in_minutes_then_hours() {
    assert_eq!(duration_str(0, 59 * MINUTE + 59 * SECOND), DurationText::Minutes(59));
    assert_eq!(duration_str(0, 125 * MINUTE), DurationText::HoursMinutes(2, 5));
    assert_eq!(duration_str(HOUR, 0), DurationText::Minutes(0));
}

#[test]
fn drawer_is_forty_percent_within_bounds() {
    assert_eq!(drawer_width(200), 64);
    assert_eq!(drawer_width(120), 48);
    assert_eq!(drawer_width(60), 40);
    assert_eq!(drawer_width(30), 28);
}

#[test]
fn incident_detail_lines() {
    // 2026-04-27 14:05:00 UTC
    let start: i128 = 1_777_298_700 * SECOND;
    let mut inc = incident("a", start, Some(start + 65 * MINUTE), vec![update("u", start + 30 * MINUTE, None, "one\ntwo\r\nthree")]);
    assert_eq!(started_text(&inc), "2026-04-27 14:05 UTC");
    assert_eq!(resolved_text(&inc), "2026-04-27 15:10 UTC (1h 05m)");
    assert_eq!(start_clock(&inc), "14:05");
    assert_eq!(update_time_text(&inc.incident_updates[0]), "Apr 27 14:35 ");
    assert_eq!(update_body_lines(&inc.incident_updates[0]), vec!["one", "two", "three"]);
    assert_eq!(affects_text(&inc), "—");
    inc.components = vec![
        IncidentComponentRef { id: "x".into(), name: "API".into() },
        IncidentComponentRef { id: "y".into(), name: "Console".into() },
    ];
    assert_eq!(affects_text(&inc), "API, Console");
    inc.resolved_at = None;
    assert_eq!(resolved_text(&inc), "ongoing");
    assert_eq!(status_color(IncidentStatus::Resolved, Impact::Critical), ColorRole::Success);
    assert_eq!(status_color(IncidentStatus::Investigating, Impact::Critical), ColorRole::Danger);
    assert_eq!(status_color(IncidentStatus::Monitoring, Impact::Nil), ColorRole::Muted);
}

#[test]
fn body_lines_split_at_newlines_and_crlf() {
    let u = update("u", TODAY, None, "first\r\nsecond\n\nthird\r");
    assert_eq!(update_body_lines(&u), vec!["first", "second", "", "third\r"]);
    let u = update("u", TODAY, None, "only\n");
    assert_eq!(update_body_lines(&u), vec!["only"]);
    assert!(update_body_lines(&update("u", TODAY, None, "")).is_empty());
}
