use partly_claudy::api::{
    Component, ComponentStatus, Impact, Incident, IncidentComponentRef, IncidentStatus, Indicator, Page, Status,
    Summary,
};
use partly_claudy::app::{day_label, is_plain, wrap, App, AppEvent, Key, KeyInput, ModalTarget, Pane, CONTROL, SHIFT};
use partly_claudy::bars::{DayStatus, WINDOW_DAYS};
use partly_claudy::theme::{AppTheme, ThemeEntry};

const SECOND: i128 = 1_000_000_000;
const HOUR: i128 = 3_600 * SECOND;
const DAY: i128 = 24 * HOUR;
/// Day number of 2026-04-27.
const TODAY_DAY: i64 = 20_570;
/// 2026-04-27 23:59:59 UTC.
const TODAY: i128 = TODAY_DAY as i128 * DAY + 86_399 * SECOND;

fn key(c: Key) -> AppEvent {
    AppEvent::Key(KeyInput { code: c, modifiers: 0 })
}

fn component(id: &str, name: &str, pos: u32) -> Component {
    Component {
        id: id.into(),
        name: name.into(),
        status: ComponentStatus::Operational,
        created_at: TODAY - 365 * DAY,
        updated_at: TODAY - DAY,
        position: pos,
        description: None,
        group_id: None,
        group: false,
    }
}

fn incident(id: &str, on: &str, started: i128) -> Incident {
    Incident {
        id: id.into(),
        name: format!("incident {id}"),
        status: IncidentStatus::Resolved,
        impact: Impact::Minor,
        created_at: started,
        updated_at: started + HOUR,
        monitoring_at: None,
        resolved_at: Some(started + HOUR),
        started_at: started,
        shortlink: None,
        incident_updates: Vec::new(),
        components: vec![IncidentComponentRef { id: on.into(), name: on.into() }],
    }
}

fn summary() -> Summary {
    Summary {
        page: Page { id: "p".into(), name: "page".into(), url: "u".into(), updated_at: TODAY - HOUR },
        status: Status { indicator: Indicator::Nil, description: "All Systems Operational".into() },
        components: vec![component("a", "Alpha", 2), component("b", "Beta", 1)],
        incidents: vec![
            incident("i1", "a", TODAY - 3 * HOUR),
            incident("i2", "a", TODAY - DAY - 3 * HOUR),
            incident("i3", "b", TODAY - 2 * HOUR),
        ],
        scheduled_maintenances: Vec::new(),
    }
}

fn fresh() -> App {
    App::new(AppTheme::assemble(Vec::new(), Vec::new(), None, None))
}

fn loaded() -> App {
    let mut app = fresh();
    app.handle_at(AppEvent::Loaded(Box::new(summary())), 10, TODAY - HOUR, TODAY);
    app
}

#[test]
fn new_app_starts_on_services_and_today() {
    let app = fresh();
    assert_eq!(app.focus, Pane::Services);
    assert_eq!(app.bars_day, WINDOW_DAYS as usize - 1);
    assert!(app.is_loading());
    assert!(!app.modal_open());
}

#[test]
fn loading_stores_summary_and_bars() {
    let app = loaded();
    assert!(!app.is_loading());
    assert_eq!(app.bars.len(), 2);
    assert_eq!(app.bars[0].group_name, "Beta");
    for (row, svc) in app.bars.iter().zip(app.services()) {
        assert_eq!(row.group_id, svc.id);
        assert_eq!(row.group_name, svc.name);
    }
    assert_eq!(app.bars[1].days[WINDOW_DAYS as usize - 1], DayStatus::Degraded);
    assert_eq!(app.last_loaded_at, Some(TODAY - HOUR));
    assert_eq!(app.last_attempt_at, Some(10));
    assert_eq!(app.error, None);
}

#[test]
fn failed_load_keeps_data_and_toasts() {
    let mut app = loaded();
    app.handle_at(AppEvent::LoadFailed("boom".into()), 50, TODAY, TODAY);
    assert!(app.summary.is_some());
    assert_eq!(app.bars.len(), 2);
    assert_eq!(app.error.as_deref(), Some("boom"));
    assert_eq!(app.status_toast.as_deref(), Some("refresh failed: boom"));
    assert_eq!(app.toast_until, Some(50 + 4000));
    app.handle_at(AppEvent::Tick, 4049, TODAY, TODAY);
    assert!(app.status_toast.is_some());
    app.handle_at(AppEvent::Tick, 4050, TODAY, TODAY);
    assert!(app.status_toast.is_none());
    assert!(app.toast_until.is_none());
}

#[test]
fn services_in_display_order_and_selection() {
    let app = loaded();
    let names: Vec<&str> = app.services().iter().map(|c| c.name.as_str()).collect();
    assert_eq!(names, vec!["Beta", "Alpha"]);
    assert_eq!(app.selected_service().map(|c| c.id.as_str()), Some("b"));
}

#[test]
fn tab_twice_returns_focus() {
    let mut app = loaded();
    app.handle_at(key(Key::Tab), 1, TODAY, TODAY);
    assert_eq!(app.focus, Pane::Events);
    app.handle_at(key(Key::BackTab), 2, TODAY, TODAY);
    assert_eq!(app.focus, Pane::Services);
}

#[test]
fn up_and_down_wrap_over_services() {
    let mut app = loaded();
    app.handle_at(key(Key::Up), 1, TODAY, TODAY);
    assert_eq!(app.service_idx, 1);
    app.handle_at(key(Key::Down), 2, TODAY, TODAY);
    assert_eq!(app.service_idx, 0);
    app.handle_at(key(Key::Char('j')), 3, TODAY, TODAY);
    assert_eq!(app.service_idx, 1);
}

#[test]
fn scrubbing_stays_inside_the_window() {
    let mut app = loaded();
    app.handle_at(key(Key::Right), 1, TODAY, TODAY);
    assert_eq!(app.bars_day, WINDOW_DAYS as usize - 1);
    app.handle_at(key(Key::Left), 2, TODAY, TODAY);
    assert_eq!(app.bars_day, WINDOW_DAYS as usize - 2);
    for k in 0..200u64 {
        app.handle_at(key(Key::Char('h')), 3 + k, TODAY, TODAY);
    }
    assert_eq!(app.bars_day, 0);
}

#[test]
fn help_swallows_keys_until_closed() {
    let mut app = loaded();
    app.handle_at(key(Key::Char('?')), 1, TODAY, TODAY);
    assert!(app.help_open);
    app.handle_at(key(Key::Tab), 2, TODAY, TODAY);
    assert_eq!(app.focus, Pane::Services);
    assert!(app.help_open);
    app.handle_at(key(Key::Char('q')), 3, TODAY, TODAY);
    assert!(!app.help_open);
    assert!(!app.quit);
}

#[test]
fn esc_closes_modal_before_quitting() {
    let mut app = loaded();
    app.handle_at(key(Key::Enter), 1, TODAY, TODAY);
    assert!(app.modal_open());
    match &app.modal_target {
        ModalTarget::Day { row, day } => assert_eq!((*row, *day), (0, WINDOW_DAYS as usize - 1)),
        other => panic!("unexpected target {other:?}"),
    }
    app.handle_at(key(Key::Esc), 2, TODAY, TODAY);
    assert!(!app.modal_open());
    assert!(!app.quit);
    app.handle_at(key(Key::Esc), 3, TODAY, TODAY);
    assert!(app.quit);
}

#[test]
fn ctrl_c_quits_but_shifted_q_counts_as_plain() {
    let mut app = loaded();
    app.handle_at(AppEvent::Key(KeyInput { code: Key::Char('q'), modifiers: CONTROL }), 1, TODAY, TODAY);
    assert!(!app.quit);
    app.handle_at(AppEvent::Key(KeyInput { code: Key::Char('c'), modifiers: CONTROL }), 2, TODAY, TODAY);
    assert!(app.quit);
    let mut app = loaded();
    app.handle_at(AppEvent::Key(KeyInput { code: Key::Char('q'), modifiers: SHIFT }), 1, TODAY, TODAY);
    assert!(app.quit);
}

#[test]
fn refresh_key_toasts() {
    let mut app = loaded();
    app.handle_at(key(Key::Char('r')), 7, TODAY, TODAY);
    assert_eq!(app.status_toast.as_deref(), Some("refreshing..."));
    assert_eq!(app.toast_until, Some(4007));
}

#[test]
fn timeline_lists_the_selected_service_newest_day_first() {
    let app = loaded();
    // Beta (id "b") is selected: only i3, today.
    let groups = app.timeline_at(TODAY);
    assert_eq!(groups.len(), WINDOW_DAYS as usize);
    assert_eq!(groups[0].0, "Today · Apr 27");
    assert_eq!(groups[1].0, "Yesterday · Apr 26");
    assert_eq!(groups[2].0, "Sat Apr 25, 2026");
    assert_eq!(groups[0].1.iter().map(|i| i.id.as_str()).collect::<Vec<_>>(), vec!["i3"]);
    assert!(groups[1].1.is_empty());
    let flat = app.flat_incidents_at(TODAY);
    assert_eq!(flat.len(), 1);
}

#[test]
fn opening_an_incident_from_the_events_pane() {
    let mut app = loaded();
    app.handle_at(key(Key::Down), 1, TODAY, TODAY); // select Alpha
    app.handle_at(key(Key::Tab), 2, TODAY, TODAY);
    app.handle_at(key(Key::Down), 3, TODAY, TODAY); // second of Alpha's incidents
    assert_eq!(app.event_idx, 1);
    app.handle_at(key(Key::Enter), 4, TODAY, TODAY);
    match &app.modal_target {
        ModalTarget::Incident(id) => assert_eq!(id, "i2"),
        other => panic!("unexpected target {other:?}"),
    }
    assert!(app.modal_open());
}

#[test]
fn wrap_and_plain_modifiers() {
    assert_eq!(wrap(0, -1, 3), 2);
    assert_eq!(wrap(2, 1, 3), 0);
    assert_eq!(wrap(1, 1, 3), 2);
    assert_eq!(wrap(5, 1, 0), 0);
    assert!(is_plain(0));
    assert!(is_plain(SHIFT));
    assert!(!is_plain(CONTROL));
    assert!(!is_plain(SHIFT | CONTROL));
}

#[test]
fn day_labels_name_today_and_yesterday() {
    assert_eq!(day_label(0, 0), "Today · Jan 1");
    assert_eq!(day_label(0, 1), "Yesterday · Jan 1");
    assert_eq!(day_label(0, 5), "Thu Jan 1, 1970");
    assert_eq!(day_label(TODAY_DAY - 2, TODAY_DAY), "Sat Apr 25, 2026");
}

#[test]
fn opening_the_day_detail_needs_no_clock() {
    let mut app = loaded();
    app.bars_day = 12;
    app.open_modal_for_selection();
    assert!(app.modal_open());
    match &app.modal_target {
        ModalTarget::Day { row, day } => assert_eq!((*row, *day), (0, 12)),
        other => panic!("unexpected target {other:?}"),
    }
}

fn themed() -> App {
    let id = opaline::builtins::builtin_names()[0].0;
    let entry = |name: &str| ThemeEntry {
        display: name.into(),
        theme: opaline::builtins::load_by_name(id).expect("builtin theme"),
    };
    let mut app = App::new(AppTheme::assemble(Vec::new(), vec![entry("a"), entry("b"), entry("c")], None, None));
    app.handle_at(AppEvent::Loaded(Box::new(summary())), 10, TODAY - HOUR, TODAY);
    app
}

#[test]
fn closing_the_picker_applies_the_cursor_at_once() {
    let mut app = themed();
    app.handle_at(key(Key::Char('t')), 20, TODAY, TODAY);
    assert!(app.theme_picker_open);
    app.handle_at(key(Key::Down), 30, TODAY, TODAY);
    assert_eq!((app.theme.applied, app.theme.cursor), (0, 1));
    app.handle_at(key(Key::Enter), 40, TODAY, TODAY);
    assert!(!app.theme_picker_open);
    assert_eq!(app.theme.applied, 1);
    assert_eq!(app.theme.name(), "b");
    assert_eq!(app.theme.pending_since, None);
    assert_eq!(app.theme_to_save.take().as_deref(), Some("b"));
    // Opening and closing with nothing moved saves nothing and does not quit.
    app.handle_at(key(Key::Char('t')), 50, TODAY, TODAY);
    app.handle_at(key(Key::Esc), 60, TODAY, TODAY);
    assert_eq!(app.theme_to_save, None);
    assert_eq!(app.theme.applied, 1);
    assert!(!app.quit);
}

#[test]
fn the_picker_preview_applies_on_a_tick_after_the_quiet_window() {
    let mut app = themed();
    app.handle_at(key(Key::Char('t')), 20, TODAY, TODAY);
    app.handle_at(key(Key::Up), 100, TODAY, TODAY);
    assert_eq!((app.theme.applied, app.theme.cursor), (0, 2));
    app.handle_at(AppEvent::Tick, 219, 0, 0);
    assert_eq!(app.theme.applied, 0);
    assert_eq!(app.theme_to_save, None);
    app.handle_at(AppEvent::Tick, 220, 0, 0);
    assert_eq!(app.theme.applied, 2);
    assert_eq!(app.theme.pending_since, None);
    assert!(app.theme_picker_open);
    assert_eq!(app.theme_to_save.as_deref(), Some("c"));
}

#[test]
fn cycling_focus_twice_restores_it() {
    let mut app = loaded();
    app.cycle_focus(1);
    assert_eq!(app.focus, Pane::Events);
    app.cycle_focus(-1);
    assert_eq!(app.focus, Pane::Services);
}
