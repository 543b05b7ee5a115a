use partly_claudy::api::{Impact, Incident, IncidentStatus, Indicator, Page, Status, Summary};
use partly_claudy::clock::utc_now;
use partly_claudy::theme::ColorRole;
use partly_claudy::ui::banner::{
    active_max_impact, alert_color, alert_title, lines_for, plural, rows, Alert, BannerLine,
};

fn incident(name: &str, impact: Impact, status: IncidentStatus) -> Incident {
    let now = utc_now();
    Incident {
        id: name.to_string(),
        name: name.to_string(),
        status,
        impact,
        created_at: now,
        updated_at: now,
        monitoring_at: None,
        resolved_at: None,
        started_at: now,
        shortlink: None,
        incident_updates: Vec::new(),
        components: Vec::new(),
    }
}

fn summary(incidents: Vec<Incident>, scheduled_maintenances: Vec<Incident>) -> Summary {
    Summary {
        page: Page { id: "p".into(), name: "n".into(), url: "u".into(), updated_at: utc_now() },
        status: Status { indicator: Indicator::Nil, description: String::new() },
        components: Vec::new(),
        incidents,
        scheduled_maintenances,
    }
}

fn item_name(line: &BannerLine) -> Option<&str> {
    match line {
        BannerLine::Item { name, .. } => Some(name.as_str()),
        BannerLine::More { .. } => None,
    }
}

#[test]
fn empty_when_nothing_active() {
    let out = rows(&vec![], 3, |_| ColorRole::Text, "active incident");
    assert!(out.is_empty());
}

#[test]
fn caps_with_overflow_summary() {
    let a = incident("a", Impact::Major, IncidentStatus::Investigating);
    let b = incident("b", Impact::Minor, IncidentStatus::Identified);
    let c = incident("c", Impact::Critical, IncidentStatus::Investigating);
    let d = incident("d", Impact::Minor, IncidentStatus::Identified);
    let incs = vec![&a, &b, &c, &d];
    let out = rows(&incs, 2, |_| ColorRole::Text, "active incident");
    assert_eq!(out.len(), 3, "2 rows + 1 overflow summary");
}

// A summary with one active minor incident and one scheduled maintenance.
#[test]
fn renders_fixture() {
    let s = summary(
        vec![incident(
            "Elevated error rate on api.anthropic.com",
            Impact::Minor,
            IncidentStatus::Investigating,
        )],
        vec![incident("Database failover drill", Impact::Maintenance, IncidentStatus::Scheduled)],
    );
    let lines = lines_for(&s);
    let dump: String = lines
        .iter()
        .map(|l| match l {
            BannerLine::Item { name, impact, .. } => format!("▸ {}  {}\n", name, impact.label()),
            BannerLine::More { extra, label, plural } => format!("  +{} more {}{}\n", extra, label, plural),
        })
        .collect();
    println!("--- banner ---\n{dump}--- end ---");
    assert!(dump.contains("Elevated error rate on api.anthropic.com"));
    assert!(dump.contains("minor"));
    assert!(dump.contains("Database failover drill"));
    assert_eq!(lines.len(), 2, "1 active incident + 1 scheduled maintenance");
}

#[test]
fn alert_picks_highest_active_impact() {
    let s = summary(
        vec![
            incident("minor", Impact::Minor, IncidentStatus::Investigating),
            incident("major", Impact::Major, IncidentStatus::Identified),
        ],
        Vec::new(),
    );
    let max = active_max_impact(&s);
    assert_eq!(max, Some(Impact::Major));
    assert_eq!(alert_color(max), ColorRole::Danger);
    assert_eq!(alert_title(true), "Service Disruption");
}

#[test]
fn alert_falls_back_to_info_for_maintenance_only() {
    let max = None;
    assert_eq!(alert_color(max), ColorRole::Info);
    assert_eq!(alert_title(false), "Scheduled Maintenance");
}

#[test]
fn resolved_incidents_do_not_count_as_active() {
    let s = summary(
        vec![
            incident("old", Impact::Critical, IncidentStatus::Resolved),
            incident("new", Impact::Minor, IncidentStatus::Monitoring),
        ],
        Vec::new(),
    );
    assert_eq!(active_max_impact(&s), Some(Impact::Minor));
    let lines = lines_for(&s);
    assert_eq!(lines.len(), 1);
    assert_eq!(item_name(&lines[0]), Some("new"));
}

#[test]
fn overflow_line_counts_the_rest_and_pluralises() {
    let incs: Vec<Incident> =
        (0..5).map(|k| incident(&format!("i{k}"), Impact::Minor, IncidentStatus::Investigating)).collect();
    let refs: Vec<&Incident> = incs.iter().collect();
    let out = rows(&refs, 3, |_| ColorRole::Warning, "active incident");
    assert_eq!(out.len(), 4);
    match &out[3] {
        BannerLine::More { extra, label, plural } => {
            assert_eq!(*extra, 2);
            assert_eq!(*label, "active incident");
            assert_eq!(*plural, "s");
        }
        _ => panic!("expected an overflow line"),
    }
    assert_eq!(plural(1), "");
    assert_eq!(plural(0), "s");
}

#[test]
fn maintenance_lines_are_blue_and_incident_lines_follow_impact() {
    let s = summary(
        vec![incident("down", Impact::Critical, IncidentStatus::Investigating)],
        vec![
            incident("m1", Impact::Maintenance, IncidentStatus::Scheduled),
            incident("m2", Impact::Maintenance, IncidentStatus::Scheduled),
        ],
    );
    let lines = lines_for(&s);
    assert_eq!(lines.len(), 3);
    match &lines[0] {
        BannerLine::Item { color, .. } => assert_eq!(*color, ColorRole::Danger),
        _ => panic!("expected an item"),
    }
    match &lines[1] {
        BannerLine::Item { name, color, .. } => {
            assert_eq!(name, "m1");
            assert_eq!(*color, ColorRole::Info);
        }
        _ => panic!("expected an item"),
    }
    match &lines[2] {
        BannerLine::More { extra, label, plural } => {
            assert_eq!((*extra, *label, *plural), (1, "scheduled maintenance", ""));
        }
        _ => panic!("expected an overflow line"),
    }
    let alert = Alert { lines, border_color: ColorRole::Danger, title: "Service Disruption" };
    assert_eq!(alert.block_height(), 5);
}

#[test]
fn overflow_line_text() {
    let line = BannerLine::More { extra: 12, label: "active incident", plural: "s" };
    assert_eq!(line.summary_text(), Some("  +12 more active incidents".to_string()));
    let item = BannerLine::Item { name: "x".into(), impact: Impact::Minor, color: ColorRole::Warning };
    assert_eq!(item.summary_text(), None);
}
