use partly_claudy::settings::{preference_from_settings, settings_with_theme};
use partly_claudy::theme::{entries_from_texts, AppTheme};

#[test]
fn the_preference_is_the_top_level_theme_string() {
    assert_eq!(preference_from_settings(None), None);
    assert_eq!(preference_from_settings(Some("theme = \"Nord\"\n".into())).as_deref(), Some("Nord"));
    assert_eq!(preference_from_settings(Some("other = 1\n".into())), None);
    assert_eq!(preference_from_settings(Some("theme = 3\n".into())), None);
    assert_eq!(preference_from_settings(Some("[ui]\ntheme = \"Nord\"\n".into())), None);
    assert_eq!(preference_from_settings(Some("theme = \"unterminated".into())), None);
}

#[test]
fn a_saved_preference_reads_back_and_keeps_other_entries() {
    let text = settings_with_theme(Some("refresh = 30\ntheme = \"Old\"\n".into()), &"Névé Dark".to_string())
        .expect("table writes out");
    assert_eq!(preference_from_settings(Some(text.clone())).as_deref(), Some("Névé Dark"));
    assert!(text.contains("refresh = 30"));
    assert!(!text.contains("Old"));
}

#[test]
fn saving_into_no_file_or_an_unreadable_one_starts_a_new_table() {
    for old in [None, Some("not toml [".to_string())] {
        let text = settings_with_theme(old, &"a \"quoted\" name".to_string()).expect("table writes out");
        assert_eq!(preference_from_settings(Some(text)).as_deref(), Some("a \"quoted\" name"));
    }
}

#[test]
fn builtin_themes_are_listed_and_the_preference_applied() {
    let t = AppTheme::load(None, Vec::new());
    assert!(t.entries.len() > 1);
    assert_eq!(t.applied, 0);
    assert_eq!(t.cursor, 0);
    let second = t.entries[1].display.clone();
    let settings = settings_with_theme(None, &second).expect("table writes out");
    let t = AppTheme::load(Some(settings), Vec::new());
    assert_eq!(t.entries[t.applied].display, second);
    let missing = settings_with_theme(None, &"No Such Theme".to_string()).expect("table writes out");
    assert_eq!(AppTheme::load(Some(missing), Vec::new()).applied, 0);
}

#[test]
fn unreadable_theme_files_are_skipped() {
    assert!(entries_from_texts(&vec!["not a theme".to_string(), String::new()]).is_empty());
}
