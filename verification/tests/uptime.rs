use partly_claudy::api::{
    AffectedComponent, Component, ComponentStatus, Impact, Incident, IncidentComponentRef, IncidentStatus,
    IncidentUpdate,
};
use partly_claudy::bars::{compute, today_utc, DayStatus, UptimeRow, WINDOW_DAYS};
use partly_claudy::clock::utc_now;

const SECOND: i128 = 1_000_000_000;
const HOUR: i128 = 3_600 * SECOND;
const DAY: i128 = 24 * HOUR;

fn component(id: &str, name: &str, group: bool, group_id: Option<&str>, pos: u32) -> Component {
    let now = utc_now();
    Component {
        id: id.into(),
        name: name.into(),
        status: ComponentStatus::Operational,
        created_at: now - 365 * DAY,
        updated_at: now,
        position: pos,
        description: None,
        group_id: group_id.map(|s| s.into()),
        group,
    }
}

fn update(ts: i128, code: &str, old: &str, new: &str) -> IncidentUpdate {
    IncidentUpdate {
        id: format!("u-{}", ts / SECOND),
        status: IncidentStatus::Identified,
        body: String::new(),
        created_at: ts,
        display_at: Some(ts),
        affected_components: Some(vec![AffectedComponent {
            code: code.into(),
            name: code.into(),
            old_status: old.into(),
            new_status: new.into(),
        }]),
    }
}

fn svc_ref() -> Vec<IncidentComponentRef> {
    vec![IncidentComponentRef { id: "svc".into(), name: "svc".into() }]
}

fn resolved_incident(
    impact: Impact,
    start: i128,
    end: i128,
    monitoring_at: Option<i128>,
    updates: Vec<IncidentUpdate>,
) -> Incident {
    Incident {
        id: "i".into(),
        name: "n".into(),
        status: IncidentStatus::Resolved,
        impact,
        created_at: start,
        updated_at: end,
        monitoring_at,
        resolved_at: Some(end),
        started_at: start,
        shortlink: None,
        incident_updates: updates,
        components: svc_ref(),
    }
}

/// Uptime of a row in percent, from its parts-per-million figure.
fn pct(row: &UptimeRow) -> f64 {
    row.uptime_ppm as f64 / 10_000.0
}

#[test]
fn standalone_components_become_rows() {
    let components = vec![
        component("a", "chat.ai", false, None, 1),
        component("b", "Chat API", false, None, 2),
        component("c", "Chat Code", false, None, 3),
    ];
    let rows = compute(&components, &vec![], today_utc());
    assert_eq!(rows.len(), 3, "every standalone is a row");
    assert_eq!(
        rows.iter().map(|r| r.group_name.as_str()).collect::<Vec<_>>(),
        vec!["chat.ai", "Chat API", "Chat Code"],
    );
}

#[test]
fn days_before_component_creation_render_as_unknown() {
    let now = today_utc();
    let mut c = component("new", "Chat Cowork", false, None, 1);
    c.created_at = now - 5 * DAY;
    let rows = compute(&vec![c], &vec![], now);
    assert_eq!(rows.len(), 1);
    let unknowns = rows[0].days.iter().filter(|d| matches!(d, DayStatus::Unknown)).count();
    assert_eq!(
        unknowns,
        (WINDOW_DAYS - 6) as usize,
        "every day before created_at is Unknown (created_at day itself is data)",
    );
}

#[test]
fn major_outage_status_credits_full_duration() {
    let now = today_utc();
    let comp = component("svc", "svc", false, None, 1);
    let outage_start = now - 2 * HOUR;
    let recovery = now - HOUR;
    let inc = resolved_incident(
        Impact::Major,
        outage_start,
        recovery,
        None,
        vec![
            update(outage_start, "svc", "operational", "major_outage"),
            update(recovery, "svc", "major_outage", "operational"),
        ],
    );
    let rows = compute(&vec![comp], &vec![inc], now);
    let pct = pct(&rows[0]);
    assert!((99.94..100.0).contains(&pct), "expected ~99.95%, got {pct}");
}

#[test]
fn partial_outage_status_credits_half_duration() {
    let now = today_utc();
    let comp = component("svc", "svc", false, None, 1);
    let outage_start = now - 2 * HOUR;
    let recovery = now;
    let inc = resolved_incident(
        Impact::Major,
        outage_start,
        recovery,
        None,
        vec![
            update(outage_start, "svc", "operational", "partial_outage"),
            update(recovery, "svc", "partial_outage", "operational"),
        ],
    );
    let rows = compute(&vec![comp], &vec![inc], now);
    let pct = pct(&rows[0]);
    assert!((99.94..100.0).contains(&pct), "expected ~99.95%, got {pct}");
}

#[test]
fn downtime_stops_at_mitigation_status() {
    let now = today_utc();
    let comp = component("svc", "svc", false, None, 1);
    let outage_start = now - 2 * HOUR;
    let monitoring_ts = now - HOUR;
    let resolved_ts = now;
    let inc = resolved_incident(
        Impact::Major,
        outage_start,
        resolved_ts,
        Some(monitoring_ts),
        vec![
            IncidentUpdate {
                id: "u1".into(),
                status: IncidentStatus::Investigating,
                body: String::new(),
                created_at: outage_start,
                display_at: Some(outage_start),
                affected_components: Some(vec![AffectedComponent {
                    code: "svc".into(),
                    name: "svc".into(),
                    old_status: "operational".into(),
                    new_status: "partial_outage".into(),
                }]),
            },
            IncidentUpdate {
                id: "u2".into(),
                status: IncidentStatus::Monitoring,
                body: String::new(),
                created_at: monitoring_ts,
                display_at: Some(monitoring_ts),
                affected_components: None,
            },
            IncidentUpdate {
                id: "u3".into(),
                status: IncidentStatus::Resolved,
                body: String::new(),
                created_at: resolved_ts,
                display_at: Some(resolved_ts),
                affected_components: None,
            },
        ],
    );
    let rows = compute(&vec![comp], &vec![inc], now);
    let pct = pct(&rows[0]);
    assert!((99.97..100.0).contains(&pct), "expected ~99.977%, got {pct}");
}

#[test]
fn degraded_status_does_not_credit_downtime() {
    let now = today_utc();
    let comp = component("svc", "svc", false, None, 1);
    let inc = resolved_incident(
        Impact::Minor,
        now - 5 * HOUR,
        now - 4 * HOUR,
        None,
        vec![
            update(now - 5 * HOUR, "svc", "operational", "degraded_performance"),
            update(now - 4 * HOUR, "svc", "degraded_performance", "operational"),
        ],
    );
    let rows = compute(&vec![comp], &vec![inc], now);
    assert_eq!(pct(&rows[0]), 100.0);
}

#[test]
fn groups_precede_standalones_then_sort_by_position() {
    let components = vec![
        component("standalone", "anthropic.com", false, None, 3),
        component("g1", "Anthropic API", true, None, 2),
        component("leaf", "api Messages", false, Some("g1"), 1),
        component("g0", "Chat.ai", true, None, 1),
    ];
    let rows = compute(&components, &vec![], today_utc());
    assert_eq!(
        rows.iter().map(|r| r.group_name.as_str()).collect::<Vec<_>>(),
        vec!["Chat.ai", "Anthropic API", "anthropic.com"],
        "groups (pos 1, 2) before standalone (pos 3); leaf is excluded",
    );
}

// ---------------------------------------------------------------------
// Exact figures
// ---------------------------------------------------------------------

#[test]
fn one_hour_of_major_outage_is_exact_in_ppm() {
    // 60 minutes at full weight out of 129 600 window minutes:
    // 1 - 60/129600 = 0.99953703..., floored to parts per million.
    let now = today_utc();
    let comp = component("svc", "svc", false, None, 1);
    let inc = resolved_incident(
        Impact::Major,
        now - 2 * HOUR,
        now - HOUR,
        None,
        vec![
            update(now - 2 * HOUR, "svc", "operational", "major_outage"),
            update(now - HOUR, "svc", "major_outage", "operational"),
        ],
    );
    let rows = compute(&vec![comp], &vec![inc], now);
    assert_eq!(rows[0].uptime_ppm, 999_537);
}

#[test]
fn no_incidents_means_full_uptime_and_operational_days() {
    let now = today_utc();
    let rows = compute(&vec![component("svc", "svc", false, None, 1)], &vec![], now);
    assert_eq!(rows[0].uptime_ppm, 1_000_000);
    assert_eq!(rows[0].days.len(), WINDOW_DAYS as usize);
    assert!(rows[0].days.iter().all(|d| *d == DayStatus::Operational));
}

#[test]
fn incident_on_a_service_marks_its_day() {
    let now = today_utc();
    let comp = component("svc", "svc", false, None, 1);
    let inc = resolved_incident(
        Impact::Major,
        now - 2 * HOUR,
        now - HOUR,
        None,
        vec![update(now - 2 * HOUR, "svc", "operational", "major_outage")],
    );
    let rows = compute(&vec![comp], &vec![inc], now);
    let last = rows[0].days[WINDOW_DAYS as usize - 1];
    assert_eq!(last, DayStatus::Outage);
    assert_eq!(rows[0].days[WINDOW_DAYS as usize - 2], DayStatus::Operational);
}

#[test]
fn maintenance_marks_day_as_maintenance() {
    let now = today_utc();
    let comp = component("svc", "svc", false, None, 1);
    let inc = resolved_incident(Impact::Maintenance, now - 2 * HOUR, now - HOUR, None, vec![]);
    let rows = compute(&vec![comp], &vec![inc], now);
    assert_eq!(rows[0].days[WINDOW_DAYS as usize - 1], DayStatus::Maintenance);
    assert_eq!(rows[0].uptime_ppm, 1_000_000);
}

#[test]
fn leaf_incident_is_credited_to_its_group() {
    let now = today_utc();
    let components = vec![
        component("g", "Group", true, None, 1),
        component("leaf", "Leaf", false, Some("g"), 1),
    ];
    let mut inc = resolved_incident(
        Impact::Minor,
        now - 3 * HOUR,
        now - HOUR,
        None,
        vec![
            update(now - 3 * HOUR, "leaf", "operational", "partial_outage"),
            update(now - HOUR, "leaf", "partial_outage", "operational"),
        ],
    );
    inc.components = vec![IncidentComponentRef { id: "leaf".into(), name: "Leaf".into() }];
    let rows = compute(&components, &vec![inc], now);
    assert_eq!(rows.len(), 1);
    assert_eq!(rows[0].group_id, "g");
    assert_eq!(rows[0].days[WINDOW_DAYS as usize - 1], DayStatus::Degraded);
    // 120 minutes at half weight: 60 effective minutes.
    assert_eq!(rows[0].uptime_ppm, 999_537);
}

#[test]
fn incident_mitigated_before_the_window_credits_nothing() {
    let now = today_utc();
    let comp = component("svc", "svc", false, None, 1);
    let start = now - 120 * DAY;
    let mitigated = now - 100 * DAY;
    let mut mitigation = update(mitigated, "svc", "major_outage", "major_outage");
    mitigation.status = IncidentStatus::Monitoring;
    mitigation.affected_components = None;
    // Open (never resolved), still reading major outage: only the
    // mitigation update stops the downtime, long before the window.
    let inc = Incident {
        id: "old".into(),
        name: "old".into(),
        status: IncidentStatus::Monitoring,
        impact: Impact::Critical,
        created_at: start,
        updated_at: mitigated,
        monitoring_at: Some(mitigated),
        resolved_at: None,
        started_at: start,
        shortlink: None,
        incident_updates: vec![update(start, "svc", "operational", "major_outage"), mitigation],
        components: Vec::new(),
    };
    let rows = compute(&vec![comp], &vec![inc], now);
    assert_eq!(rows[0].uptime_ppm, 1_000_000);
}

#[test]
fn another_incident_never_improves_a_row() {
    let now = today_utc();
    let comp = component("svc", "svc", false, None, 1);
    let first = resolved_incident(
        Impact::Minor,
        now - 3 * DAY,
        now - 3 * DAY + HOUR,
        None,
        vec![update(now - 3 * DAY, "svc", "operational", "partial_outage")],
    );
    let second = resolved_incident(
        Impact::Critical,
        now - 3 * DAY,
        now - 3 * DAY + 2 * HOUR,
        None,
        vec![update(now - 3 * DAY, "svc", "operational", "major_outage")],
    );
    let one = compute(&vec![comp.clone()], &vec![first.clone()], now);
    let two = compute(&vec![comp], &vec![first, second], now);
    assert!(two[0].uptime_ppm <= one[0].uptime_ppm);
    assert_eq!(one[0].days[WINDOW_DAYS as usize - 4], DayStatus::Degraded);
    assert_eq!(two[0].days[WINDOW_DAYS as usize - 4], DayStatus::Outage);
    // 60 minutes at half weight, then 120 more at full weight.
    assert_eq!(one[0].uptime_ppm, 999_768);
    assert_eq!(two[0].uptime_ppm, 998_842);
}

#[test]
fn a_day_shows_its_most_severe_incident_in_any_order() {
    let now = today_utc();
    let comp = component("svc", "svc", false, None, 1);
    let mut minor = resolved_incident(Impact::Minor, now - 2 * HOUR, now - HOUR, None, vec![]);
    minor.id = "minor".into();
    let mut maint = resolved_incident(Impact::Maintenance, now - 2 * HOUR, now - HOUR, None, vec![]);
    maint.id = "maint".into();
    let mut critical = resolved_incident(Impact::Critical, now - 2 * HOUR, now - HOUR, None, vec![]);
    critical.id = "critical".into();
    let last = WINDOW_DAYS as usize - 1;
    let a = compute(&vec![comp.clone()], &vec![minor.clone(), critical.clone(), maint.clone()], now);
    let b = compute(&vec![comp.clone()], &vec![critical.clone(), maint.clone(), minor.clone()], now);
    assert_eq!(a[0].days[last], DayStatus::Outage);
    assert_eq!(b[0].days[last], DayStatus::Outage);
    let c = compute(&vec![comp], &vec![maint, minor], now);
    assert_eq!(c[0].days[last], DayStatus::Degraded);
}

#[test]
fn outage_spans_of_maintenance_and_no_impact_incidents_do_not_count() {
    let now = today_utc();
    let outage_start = now - 2 * HOUR;
    let recovery = now - HOUR;
    let spans = || {
        vec![
            update(outage_start, "svc", "operational", "major_outage"),
            update(recovery, "svc", "major_outage", "operational"),
        ]
    };
    for impact in [Impact::Maintenance, Impact::Nil] {
        let inc = resolved_incident(impact, outage_start, recovery, None, spans());
        let rows = compute(&vec![component("svc", "svc", false, None, 1)], &vec![inc], now);
        assert_eq!(rows[0].uptime_ppm, 1_000_000);
    }
}

#[test]
fn an_outage_over_the_whole_window_leaves_only_its_last_second() {
    let now = today_utc();
    let start = now - 200 * DAY;
    let inc = resolved_incident(
        Impact::Critical,
        start,
        now,
        None,
        vec![update(start, "svc", "operational", "major_outage")],
    );
    let rows = compute(&vec![component("svc", "svc", false, None, 1)], &vec![inc], now);
    // The window runs from midnight 89 days back to 23:59:59 today: one
    // second short of 90 days, so 129,599 whole minutes of outage, or
    // 259,198 of 259,200 half-minutes: 7 parts per million stay up.
    assert_eq!(rows[0].uptime_ppm, 7);
}

#[test]
fn the_wall_clock_reads_after_1970() {
    assert!(utc_now() > 1_600_000_000 * 1_000_000_000);
}
