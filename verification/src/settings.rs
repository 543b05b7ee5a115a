//! The settings file: a TOML table whose `theme` entry names the theme
//! to apply at start. Reading the preference out of the file's text, and
//! writing it back into that text, go through the `toml` crate.

use vstd::prelude::*;

use crate::theme::opt_view;

verus! {

/// Name for what the `toml` crate reads as the string entry `key` at the
/// top level of `text`: `None` when the text is not a TOML table, has no
/// such entry, or holds something other than a string there.
pub uninterp spec fn toml_top_string(text: Seq<char>, key: Seq<char>) -> Option<Seq<char>>;

/// Name for the text the `toml` crate writes for the table read from
/// `old` (an empty table when there is no text or it is not a TOML
/// table) with `key` set to the string `value`; `None` when the table
/// cannot be written out as TOML.
pub uninterp spec fn toml_with_string(old: Option<Seq<char>>, key: Seq<char>, value: Seq<char>) -> Option<
    Seq<char>,
>;

/// Parses `text` as a `toml::Table` (`str::parse`) and takes the string
/// at `key` (`Table::get`, then the `Value::String` variant). The result
/// is named by `toml_top_string`.
#[verifier::external_body]
fn toml_string_entry(text: &str, key: &str) -> (r: Option<String>)
    ensures
        opt_view(r) == toml_top_string(text@, key@),
{
    match text.parse::<toml::Table>() {
        Ok(table) => match table.get(key) {
            Some(toml::Value::String(s)) => Some(s.clone()),
            _ => None,
        },
        Err(_) => None,
    }
}

/// Parses `old` as a `toml::Table` (an empty `Table::default()` when
/// absent or not parsable), sets `key` to `Value::String(value)` with
/// `Table::insert`, and writes the table with `toml::to_string`. The
/// result is named by `toml_with_string`. When the writing succeeds, the
/// text it gives is TOML that reads back, at the top level, the string
/// just set: the parser reads what the serializer writes.
#[verifier::external_body]
fn toml_set_string(old: Option<&str>, key: &str, value: &str) -> (r: Option<String>)
    ensures
        opt_view(r) == toml_with_string(
            match old {
                Some(s) => Some(s@),
                None => None,
            },
            key@,
            value@,
        ),
        r matches Some(t) ==> toml_top_string(t@, key@) == Some(value@),
{
    let mut table: toml::Table = match old {
        Some(s) => match s.parse::<toml::Table>() {
            Ok(t) => t,
            Err(_) => toml::Table::default(),
        },
        None => toml::Table::default(),
    };
    table.insert(key.to_string(), toml::Value::String(value.to_string()));
    toml::to_string(&table).ok()
}

/// The theme preference a settings file holds: its top-level `theme`
/// string, if there is a file.
pub open spec fn settings_preference(text: Option<Seq<char>>) -> Option<Seq<char>> {
    match text {
        Some(t) => toml_top_string(t, "theme"@),
        None => None,
    }
}

/// The saved theme preference, from the settings file's text (`None`
/// when there is no file).
pub fn preference_from_settings(text: Option<String>) -> (r: Option<String>)
    ensures
        opt_view(r) == settings_preference(opt_view(text)),
{
    match text {
        Some(t) => toml_string_entry(t.as_str(), "theme"),
        None => None,
    }
}

/// The settings file's text with the theme preference set to `name`,
/// keeping the file's other entries (`old` is its current text, if any);
/// `None` when the table cannot be written out. Read back, the text
/// gives `name` as the preference.
pub fn settings_with_theme(old: Option<String>, name: &String) -> (r: Option<String>)
    ensures
        opt_view(r) == toml_with_string(opt_view(old), "theme"@, name@),
        r matches Some(t) ==> settings_preference(Some(t@)) == Some(name@),
{
    match &old {
        Some(s) => toml_set_string(Some(s.as_str()), "theme", name.as_str()),
        None => toml_set_string(None, "theme", name.as_str()),
    }
}

} // verus!
