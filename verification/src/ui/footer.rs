//! Key hints along the bottom line.

use vstd::prelude::*;

use crate::app::{App, Pane};

verus! {

pub open spec fn pane_hints(p: Pane) -> Seq<(Seq<char>, Seq<char>)> {
    match p {
        Pane::Services => seq![
            ("↑/↓"@, "service"@),
            ("←/→"@, "scrub day"@),
            ("Enter"@, "detail"@),
            ("Tab"@, "next pane"@),
        ],
        Pane::Events => seq![("↑/↓"@, "select"@), ("Enter"@, "detail"@), ("Tab"@, "next pane"@)],
    }
}

pub open spec fn pair_views(v: Seq<(&'static str, &'static str)>) -> Seq<(Seq<char>, Seq<char>)> {
    v.map_values(|p: (&'static str, &'static str)| (p.0@, p.1@))
}

/// Hints for the focused pane, as (key, action) pairs.
pub fn hints(app: &App) -> (r: Vec<(&'static str, &'static str)>)
    ensures
        pair_views(r@) == pane_hints(app.focus),
{
    let mut r: Vec<(&'static str, &'static str)> = Vec::new();
    match app.focus {
        Pane::Services => {
            r.push(("↑/↓", "service"));
            r.push(("←/→", "scrub day"));
            r.push(("Enter", "detail"));
            r.push(("Tab", "next pane"));
        },
        Pane::Events => {
            r.push(("↑/↓", "select"));
            r.push(("Enter", "detail"));
            r.push(("Tab", "next pane"));
        },
    }
    assert(pair_views(r@) =~= pane_hints(app.focus));
    r
}

/// Global hints shown on the right when no toast is up.
pub fn global_hints() -> (r: Vec<(&'static str, &'static str)>)
    ensures
        pair_views(r@) == seq![("?"@, "help"@), ("t"@, "theme"@), ("q"@, "quit"@)],
{
    let mut r: Vec<(&'static str, &'static str)> = Vec::new();
    r.push(("?", "help"));
    r.push(("t", "theme"));
    r.push(("q", "quit"));
    assert(pair_views(r@) =~= seq![("?"@, "help"@), ("t"@, "theme"@), ("q"@, "quit"@)]);
    r
}

} // verus!
