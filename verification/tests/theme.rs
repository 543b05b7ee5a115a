use partly_claudy::api::{ComponentStatus, Impact, Indicator};
use partly_claudy::theme::{color_token, AppTheme, ColorRole, ThemeEntry, FALLBACK_RGB, PREVIEW_DEBOUNCE_MS};

fn builtin(id: &str) -> opaline::Theme {
    opaline::builtins::load_by_name(id).expect("builtin theme")
}

fn named(display: &str, id: &str) -> ThemeEntry {
    ThemeEntry { display: display.into(), theme: builtin(id) }
}

fn first_builtin_id() -> &'static str {
    opaline::builtins::builtin_names()[0].0
}

fn names(t: &AppTheme) -> Vec<&str> {
    t.entries.iter().map(|e| e.display.as_str()).collect()
}

#[test]
fn tail_is_sorted_case_insensitively_and_deduplicated() {
    let id = first_builtin_id();
    let t = AppTheme::assemble(
        vec![named("Zed Pinned", id)],
        vec![named("beta", id), named("Alpha", id), named("Beta", id), named("alpha", id), named("Alpha", id)],
        None,
        None,
    );
    // Stable sort by lower-cased name keeps "Alpha" before "alpha"; only
    // equal neighbours are dropped.
    assert_eq!(names(&t), vec!["Zed Pinned", "Alpha", "alpha", "Alpha", "beta", "Beta"]);
    assert_eq!(t.applied, 0);
    assert_eq!(t.cursor, 0);
}

#[test]
fn adjacent_duplicates_collapse() {
    let id = first_builtin_id();
    let t = AppTheme::assemble(Vec::new(), vec![named("b", id), named("a", id), named("a", id)], None, None);
    assert_eq!(names(&t), vec!["a", "b"]);
}

#[test]
fn preference_then_default_then_first() {
    let id = first_builtin_id();
    let list = || vec![named("One", id), named("Two", id), named("Three", id)];
    let t = AppTheme::assemble(Vec::new(), list(), Some("Two".into()), Some("Three".into()));
    assert_eq!(t.name(), "Two");
    let t = AppTheme::assemble(Vec::new(), list(), Some("Missing".into()), Some("Three".into()));
    assert_eq!(t.name(), "Three");
    let t = AppTheme::assemble(Vec::new(), list(), None, Some("Missing".into()));
    assert_eq!(t.applied, 0);
    assert_eq!(t.name(), "One");
}

#[test]
fn cycling_moves_only_the_cursor_until_the_quiet_window_ends() {
    let id = first_builtin_id();
    let mut t = AppTheme::assemble(Vec::new(), vec![named("a", id), named("b", id), named("c", id)], None, None);
    t.cycle(-1, 1_000);
    assert_eq!((t.applied, t.cursor, t.pending_since), (0, 2, Some(1_000)));
    assert_eq!(t.tick(1_000 + PREVIEW_DEBOUNCE_MS - 1), None);
    assert_eq!(t.applied, 0);
    assert_eq!(t.tick(1_000 + PREVIEW_DEBOUNCE_MS), Some("c".to_string()));
    assert_eq!((t.applied, t.cursor, t.pending_since), (2, 2, None));
    assert_eq!(t.tick(5_000), None);
    t.cycle(1, 6_000);
    assert_eq!(t.cursor, 0);
    assert_eq!(t.commit_preview(), Some("a".to_string()));
    assert_eq!(t.commit_preview(), None);
    assert_eq!(t.applied, 0);
}

#[test]
fn cycling_an_empty_list_does_nothing() {
    let mut t = AppTheme::assemble(Vec::new(), Vec::new(), None, None);
    t.cycle(1, 5);
    assert_eq!((t.applied, t.cursor, t.pending_since), (0, 0, None));
}

#[test]
fn colours_come_from_the_applied_theme() {
    let id = first_builtin_id();
    let theme = builtin(id);
    let t = AppTheme::assemble(Vec::new(), vec![named("x", id)], None, None);
    let expect = |token: &str| -> (u8, u8, u8) { theme.color(token).into() };
    assert_eq!(t.bg(), expect("bg.base"));
    assert_eq!(t.panel_bg(), expect("bg.panel"));
    assert_eq!(t.text(), expect("text.primary"));
    assert_eq!(t.muted(), expect("text.muted"));
    assert_eq!(t.accent(), expect("accent.primary"));
    assert_eq!(t.success(), expect("success"));
    assert_eq!(t.warning(), expect("warning"));
    assert_eq!(t.danger(), expect("error"));
    assert_eq!(t.info(), expect("info"));
    let dim_token = if theme.has_token("text.dim") { "text.dim" } else { "text.muted" };
    assert_eq!(t.dim(), expect(dim_token));
    assert_eq!(t.focused_border().fg, t.accent());
    assert!(t.focused_border().bold);
    assert_eq!(t.unfocused_border().fg, t.muted());
    assert!(!t.unfocused_border().bold);
    assert_eq!(expect("no.such.token"), FALLBACK_RGB);
}

#[test]
fn colour_roles_and_tokens() {
    assert_eq!(color_token(ColorRole::Danger, true), "error");
    assert_eq!(color_token(ColorRole::Dim, true), "text.dim");
    assert_eq!(color_token(ColorRole::Dim, false), "text.muted");
    let t = AppTheme::assemble(Vec::new(), Vec::new(), None, None);
    assert_eq!(t.indicator_color(Indicator::Nil), ColorRole::Success);
    assert_eq!(t.indicator_color(Indicator::Critical), ColorRole::Danger);
    assert_eq!(t.component_color(ComponentStatus::PartialOutage), ColorRole::Warning);
    assert_eq!(t.component_color(ComponentStatus::UnderMaintenance), ColorRole::Info);
    assert_eq!(t.impact_color(Impact::Nil), ColorRole::Muted);
    assert_eq!(t.impact_color(Impact::Major), ColorRole::Danger);
}

#[test]
fn cycling_back_and_forth_returns_to_the_same_cursor() {
    let id = first_builtin_id();
    let mut t = AppTheme::assemble(Vec::new(), vec![named("a", id), named("b", id), named("c", id)], None, None);
    for delta in [-1isize, 1, 2, -4] {
        let before = t.cursor;
        t.cycle(delta, 10);
        t.cycle(-delta, 20);
        assert_eq!(t.cursor, before);
        assert_eq!(t.applied, 0);
    }
}
