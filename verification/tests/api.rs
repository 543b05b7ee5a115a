use partly_claudy::api::{
    cutoff_day, history_codes_to_fetch, history_urls, incident_detail_url, incidents_url, merge_detail_incidents,
    month_overlaps, summary_url, ComponentStatus, HistoryIncident, HistoryMonth, HistoryResponse, Impact, Incident,
    IncidentStatus, Indicator,
};
use partly_claudy::clock::MAX_INSTANT;

const SECOND: i128 = 1_000_000_000;
const DAY: i128 = 86_400 * SECOND;
/// 2026-04-27 23:59:59 UTC.
const TODAY: i128 = 20_570 * DAY + 86_399 * SECOND;

fn month(name: &str, year: i32, codes: &[&str]) -> HistoryMonth {
    HistoryMonth {
        name: name.into(),
        year,
        incidents: codes.iter().map(|c| HistoryIncident { code: (*c).into() }).collect(),
    }
}

fn incident(id: &str) -> Incident {
    Incident {
        id: id.into(),
        name: id.into(),
        status: IncidentStatus::Resolved,
        impact: Impact::Minor,
        created_at: TODAY,
        updated_at: TODAY,
        monitoring_at: None,
        resolved_at: Some(TODAY),
        started_at: TODAY,
        shortlink: None,
        incident_updates: Vec::new(),
        components: Vec::new(),
    }
}

#[test]
fn endpoint_urls() {
    let base = String::from("https://status.example.com");
    assert_eq!(summary_url(&base), "https://status.example.com/api/v2/summary.json");
    assert_eq!(incidents_url(&base), "https://status.example.com/api/v2/incidents.json");
    assert_eq!(
        incident_detail_url(&base, &"abc123".to_string()),
        "https://status.example.com/api/v2/incidents/abc123.json"
    );
    assert_eq!(
        history_urls(&base),
        vec![
            "https://status.example.com/history.json?page=1".to_string(),
            "https://status.example.com/history.json?page=2".to_string(),
        ]
    );
}

#[test]
fn cutoff_is_ninety_days_back() {
    assert_eq!(cutoff_day(TODAY), 20_480);
    assert_eq!(cutoff_day(0), -90);
}

#[test]
fn months_overlapping_the_window() {
    let cutoff = 20_480; // 2026-01-27
    assert!(month_overlaps(&month("January", 2026, &[]), cutoff));
    assert!(!month_overlaps(&month("December", 2025, &[]), cutoff));
    assert!(month_overlaps(&month("February", 2026, &[]), cutoff));
    // The last day of January 2026 is day 20 484.
    assert!(month_overlaps(&month("January", 2026, &[]), 20_484));
    assert!(!month_overlaps(&month("January", 2026, &[]), 20_485));
    // February 2024 has 29 days: its last day is 19 782.
    assert!(month_overlaps(&month("February", 2024, &[]), 19_782));
    assert!(!month_overlaps(&month("February", 2024, &[]), 19_783));
    // Unknown month names are kept.
    assert!(month_overlaps(&month("Smarch", 1999, &[]), cutoff));
}

#[test]
fn history_codes_skip_old_months_and_known_incidents() {
    let history = vec![
        HistoryResponse { months: vec![month("April", 2026, &["a1", "a2"]), month("March", 2026, &["m1"])] },
        HistoryResponse { months: vec![month("December", 2025, &["d1"]), month("January", 2026, &["j1", "a1"])] },
    ];
    let recent = vec![incident("a2")];
    let codes = history_codes_to_fetch(&history, 20_480, &recent);
    assert_eq!(codes, vec!["a1".to_string(), "m1".to_string(), "j1".to_string(), "a1".to_string()]);
}

#[test]
fn details_are_appended_after_recent() {
    let all = merge_detail_incidents(vec![incident("r1"), incident("r2")], vec![incident("d1")]);
    let ids: Vec<&str> = all.iter().map(|i| i.id.as_str()).collect();
    assert_eq!(ids, vec!["r1", "r2", "d1"]);
}

#[test]
fn labels_and_predicates() {
    assert!(ComponentStatus::Operational.is_operational());
    assert!(!ComponentStatus::MajorOutage.is_operational());
    assert!(IncidentStatus::Postmortem.is_resolved());
    assert!(IncidentStatus::Completed.is_resolved());
    assert!(!IncidentStatus::Monitoring.is_resolved());
    assert_eq!(IncidentStatus::InProgress.label(), "IN PROGRESS");
    assert_eq!(Impact::Nil.label(), "none");
    assert_eq!(Impact::Critical.label(), "critical");
    assert_eq!(Indicator::Nil.label(), "operational");
    assert_eq!(Indicator::Maintenance.label(), "maintenance");
}

#[test]
fn instants_outside_the_range_are_refused() {
    let mut inc = incident("x");
    assert!(inc.has_valid_times());
    inc.started_at = MAX_INSTANT + 1;
    assert!(!inc.has_valid_times());
}

#[test]
fn month_lengths_follow_the_gregorian_calendar() {
    // 1900 is not a leap year: February ends on the 28th (day -25,509).
    assert!(month_overlaps(&month("February", 1900, &[]), -25_509));
    assert!(!month_overlaps(&month("February", 1900, &[]), -25_508));
    // 2000 is: February ends on the 29th (day 11,016).
    assert!(month_overlaps(&month("February", 2000, &[]), 11_016));
    assert!(!month_overlaps(&month("February", 2000, &[]), 11_017));
    // Years outside chrono's range have no days.
    assert!(!month_overlaps(&month("June", 300_000, &[]), 0));
}
