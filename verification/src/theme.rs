//! Theme selection: the ordered list of themes, the applied theme, the
//! picker cursor with its preview debounce, and the colour role each
//! status is drawn in.

use vstd::prelude::*;

use crate::api::{ComponentStatus, Impact, Indicator};
use crate::settings::{preference_from_settings, settings_preference};
use crate::sorting::{insert_by, lemma_insert_at, lemma_sort_by_sorted, sort_by, sorted_by, total_preorder};
use crate::text::{
    lemma_seq_lt_asymmetric, lemma_seq_lt_total, lemma_seq_lt_transitive, seq_lt, text_eq, text_lt,
};

verus! {

/// Makes `opaline::Theme` known to the verifier as an opaque type; the
/// colours it defines are named by `theme_colors`.
#[verifier::external_type_specification]
#[verifier::external_body]
pub struct ExTheme(opaline::Theme);

/// Quiet window, in milliseconds, before the picker cursor commits.
pub const PREVIEW_DEBOUNCE_MS: u64 = 120;

/// A loadable theme and the name it is listed under.
pub struct ThemeEntry {
    pub display: String,
    pub theme: opaline::Theme,
}

/// The theme list, the applied theme and the picker cursor.
pub struct AppTheme {
    pub entries: Vec<ThemeEntry>,
    /// Currently active theme.
    pub applied: usize,
    /// Picker highlight; differs from `applied` while a preview is pending.
    pub cursor: usize,
    /// When the cursor last moved (milliseconds on the caller's clock),
    /// while a preview is pending.
    pub pending_since: Option<u64>,
}

/// `(idx + delta)` wrapped into `0..n` (Euclidean remainder).
pub open spec fn wrap_index(idx: int, delta: int, n: int) -> int {
    (idx + delta) % n
}

/// The theme after moving the cursor by `delta` at `now_ms`.
pub open spec fn cycled(t: AppTheme, delta: int, now_ms: u64) -> AppTheme {
    if t.entries@.len() == 0 {
        t
    } else {
        AppTheme {
            cursor: wrap_index(t.cursor as int, delta, t.entries@.len() as int) as usize,
            pending_since: Some(now_ms),
            ..t
        }
    }
}

/// The theme after applying the cursor and ending the preview.
pub open spec fn committed(t: AppTheme) -> AppTheme {
    AppTheme { applied: t.cursor, pending_since: None, ..t }
}

/// The theme after a tick at `now_ms`: committed once the debounce
/// window has elapsed since the cursor moved, else unchanged.
pub open spec fn ticked(t: AppTheme, now_ms: u64) -> AppTheme {
    match t.pending_since {
        Some(at) if now_ms >= at && now_ms - at >= PREVIEW_DEBOUNCE_MS => committed(t),
        _ => t,
    }
}

/// Whether a tick at `now_ms` commits the preview: one is pending and
/// the debounce window has elapsed since the cursor moved.
pub open spec fn tick_commits(t: AppTheme, now_ms: u64) -> bool {
    match t.pending_since {
        Some(at) => now_ms >= at && now_ms - at >= PREVIEW_DEBOUNCE_MS,
        None => false,
    }
}

/// The name a commit of `t` saves as the preference: that of the
/// cursor's theme, when it is not the applied one.
pub open spec fn commit_saves(t: AppTheme) -> Option<Seq<char>> {
    if t.cursor != t.applied {
        Some(t.entries@[t.cursor as int].display@)
    } else {
        None
    }
}

/// The name a tick at `now_ms` saves as the preference.
pub open spec fn tick_saves(t: AppTheme, now_ms: u64) -> Option<Seq<char>> {
    if tick_commits(t, now_ms) {
        commit_saves(t)
    } else {
        None
    }
}

impl AppTheme {
    /// Indices point into the list (both zero when it is empty).
    pub open spec fn well_formed(self) -> bool {
        if self.entries@.len() == 0 {
            self.applied == 0 && self.cursor == 0
        } else {
            self.applied < self.entries@.len() && self.cursor < self.entries@.len()
        }
    }

    /// The applied theme.
    pub fn theme(&self) -> (t: &opaline::Theme)
        requires
            self.applied < self.entries@.len(),
        ensures
            *t == self.entries@[self.applied as int].theme,
    {
        &self.entries[self.applied].theme
    }

    /// Name of the applied theme.
    pub fn name(&self) -> (s: &String)
        requires
            self.applied < self.entries@.len(),
        ensures
            s@ == self.entries@[self.applied as int].display@,
    {
        &self.entries[self.applied].display
    }

    /// Moves the picker cursor by `delta`, wrapping around the list, and
    /// arms the preview debounce at `now_ms`; the applied theme stays.
    /// Does nothing on an empty list.
    pub fn cycle(&mut self, delta: isize, now_ms: u64)
        requires
            old(self).well_formed(),
        ensures
            *final(self) == cycled(*old(self), delta as int, now_ms),
            final(self).well_formed(),
            final(self).entries == old(self).entries,
            final(self).applied == old(self).applied,
            old(self).entries@.len() == 0 ==> *final(self) == *old(self),
            old(self).entries@.len() > 0 ==> {
                &&& final(self).cursor as int == wrap_index(
                    old(self).cursor as int,
                    delta as int,
                    old(self).entries@.len() as int,
                )
                &&& final(self).pending_since == Some(now_ms)
            },
    {
        let n = self.entries.len();
        if n == 0 {
            return;
        }
        self.cursor = wrap_usize(self.cursor, delta, n);
        self.pending_since = Some(now_ms);
    }

    /// Applies the cursor now and ends the preview. Returns the name to
    /// persist as the preference when the applied theme changed.
    pub fn commit_preview(&mut self) -> (saved: Option<String>)
        requires
            old(self).well_formed(),
        ensures
            *final(self) == committed(*old(self)),
            final(self).well_formed(),
            final(self).entries == old(self).entries,
            final(self).applied == old(self).cursor,
            final(self).cursor == old(self).cursor,
            final(self).pending_since is None,
            match saved {
                Some(name) => old(self).cursor != old(self).applied && name@ == old(
                    self,
                ).entries@[old(self).cursor as int].display@,
                None => old(self).cursor == old(self).applied,
            },
    {
        let mut saved: Option<String> = None;
        if self.cursor != self.applied {
            self.applied = self.cursor;
            saved = Some(self.name().clone());
        }
        self.pending_since = None;
        saved
    }

    /// Commits the preview once the debounce window has elapsed at
    /// `now_ms`; otherwise changes nothing. Returns what `commit_preview`
    /// returns, or `None`.
    pub fn tick(&mut self, now_ms: u64) -> (saved: Option<String>)
        requires
            old(self).well_formed(),
        ensures
            *final(self) == ticked(*old(self), now_ms),
            final(self).well_formed(),
            final(self).entries == old(self).entries,
            final(self).cursor == old(self).cursor,
            match old(self).pending_since {
                Some(at) if now_ms >= at && now_ms - at >= PREVIEW_DEBOUNCE_MS => {
                    &&& final(self).applied == old(self).cursor
                    &&& final(self).pending_since is None
                    &&& (saved is Some <==> old(self).cursor != old(self).applied)
                    &&& (saved matches Some(name) ==> name@ == old(self).entries@[old(
                        self,
                    ).cursor as int].display@)
                },
                _ => *final(self) == *old(self) && saved is None,
            },
    {
        match self.pending_since {
            Some(at) => {
                if now_ms >= at && now_ms - at >= PREVIEW_DEBOUNCE_MS {
                    return self.commit_preview();
                }
                None
            },
            None => None,
        }
    }
}

/// `idx + delta` wrapped into `0..n`.
pub fn wrap_usize(idx: usize, delta: isize, n: usize) -> (r: usize)
    requires
        n > 0,
    ensures
        r as int == wrap_index(idx as int, delta as int, n as int),
        r < n,
{
    let ni = n as i128;
    let t = (idx as i128) + (delta as i128);
    let q = t.checked_rem_euclid(ni).unwrap();
    assert(0 <= q < n);
    q as usize
}

/// Moving by `delta` and then by `-delta` returns to the start.
pub proof fn lemma_wrap_inverse(idx: int, delta: int, n: int)
    requires
        n > 0,
        0 <= idx < n,
    ensures
        wrap_index(wrap_index(idx, delta, n), -delta, n) == idx,
{
    let a = (idx + delta) % n;
    assert((a - delta) % n == idx) by (nonlinear_arith)
        requires
            a == (idx + delta) % n,
            n > 0,
            0 <= idx < n,
    {
        vstd::arithmetic::div_mod::lemma_fundamental_div_mod(idx + delta, n);
        let q = (idx + delta) / n;
        assert(a - delta == idx - q * n);
        vstd::arithmetic::div_mod::lemma_mod_multiples_vanish(-q, idx, n);
        vstd::arithmetic::div_mod::lemma_small_mod(idx as nat, n as nat);
    }
}

/// Cycling the picker forward then back leaves the cursor where it was
/// and the applied theme untouched.
pub proof fn lemma_cycle_round_trip(t: AppTheme, delta: int, now1: u64, now2: u64)
    requires
        t.well_formed(),
        t.entries@.len() <= usize::MAX,
    ensures
        cycled(cycled(t, delta, now1), -delta, now2).cursor == t.cursor,
        cycled(cycled(t, delta, now1), -delta, now2).applied == t.applied,
        cycled(cycled(t, delta, now1), -delta, now2).entries == t.entries,
{
    if t.entries@.len() > 0 {
        lemma_wrap_inverse(t.cursor as int, delta, t.entries@.len() as int);
        let n = t.entries@.len() as int;
        let a = wrap_index(t.cursor as int, delta, n);
        assert(0 <= a < n);
    }
}

/// Committing twice is committing once.
pub proof fn lemma_commit_idempotent(t: AppTheme)
    ensures
        committed(committed(t)) == committed(t),
{
}

/// A second tick at the same moment changes nothing.
pub proof fn lemma_tick_idempotent(t: AppTheme, now_ms: u64)
    ensures
        ticked(ticked(t, now_ms), now_ms) == ticked(t, now_ms),
{
}

/// Moving the picker cursor leaves the applied theme untouched until the
/// quiet window has elapsed: a tick inside it changes nothing applied,
/// and a tick at or after its end applies the cursor.
pub proof fn lemma_preview_waits_for_quiet_window(t: AppTheme, delta: int, moved_at: u64, now_ms: u64)
    requires
        t.well_formed(),
        t.entries@.len() > 0,
        moved_at <= now_ms,
    ensures
        now_ms - moved_at < PREVIEW_DEBOUNCE_MS ==> ticked(cycled(t, delta, moved_at), now_ms).applied == t.applied,
        now_ms - moved_at >= PREVIEW_DEBOUNCE_MS ==> ticked(cycled(t, delta, moved_at), now_ms).applied == cycled(
            t,
            delta,
            moved_at,
        ).cursor,
{
}

// ---------------------------------------------------------------------
// Assembling the theme list
// ---------------------------------------------------------------------

/// Name for what `str::to_lowercase` gives.
pub uninterp spec fn lowercase_of(s: Seq<char>) -> Seq<char>;

/// Calls `str::to_lowercase`; the result is named by `lowercase_of`.
#[verifier::external_body]
fn to_lowercase(s: &str) -> (r: String)
    ensures
        r@ == lowercase_of(s@),
{
    s.to_lowercase()
}

/// Order of listed themes: by lower-cased name.
pub open spec fn name_le() -> spec_fn(ThemeEntry, ThemeEntry) -> bool {
    |a: ThemeEntry, b: ThemeEntry| !seq_lt(lowercase_of(b.display@), lowercase_of(a.display@))
}

/// Drops each entry whose name equals the entry just before it.
pub open spec fn dedup_names(s: Seq<ThemeEntry>) -> Seq<ThemeEntry>
    decreases s.len(),
{
    if s.len() == 0 {
        s
    } else {
        let t = dedup_names(s.drop_last());
        if s.len() >= 2 && s[s.len() - 2].display@ == s.last().display@ {
            t
        } else {
            t.push(s.last())
        }
    }
}

/// First entry listed under `name`.
pub open spec fn position_of(s: Seq<ThemeEntry>, name: Seq<char>) -> Option<int>
    decreases s.len(),
{
    if s.len() == 0 {
        None
    } else {
        match position_of(s.drop_last(), name) {
            Some(i) => Some(i),
            None => if s.last().display@ == name {
                Some(s.len() - 1)
            } else {
                None
            },
        }
    }
}

/// Applied index of a fresh list: the saved preference if listed, else
/// the default theme if listed, else the first.
pub open spec fn initial_applied(
    s: Seq<ThemeEntry>,
    preference: Option<Seq<char>>,
    default_name: Option<Seq<char>>,
) -> int {
    match preference {
        Some(p) if position_of(s, p) is Some => position_of(s, p)->0,
        _ => match default_name {
            Some(d) if position_of(s, d) is Some => position_of(s, d)->0,
            _ => 0,
        },
    }
}

pub open spec fn opt_view(o: Option<String>) -> Option<Seq<char>> {
    match o {
        Some(p) => Some(p@),
        None => None,
    }
}

/// Listing order by lower-cased name is a total preorder.
proof fn lemma_name_le_total()
    ensures
        total_preorder(name_le()),
{
    let le = name_le();
    assert forall|a: ThemeEntry, b: ThemeEntry| #[trigger] le(a, b) || le(b, a) by {
        lemma_seq_lt_asymmetric(lowercase_of(a.display@), lowercase_of(b.display@));
    }
    assert forall|a: ThemeEntry, b: ThemeEntry, c: ThemeEntry| #[trigger] le(a, b) && #[trigger] le(b, c) implies le(
        a,
        c,
    ) by {
        let (x, y, z) = (lowercase_of(a.display@), lowercase_of(b.display@), lowercase_of(c.display@));
        if seq_lt(z, x) {
            lemma_seq_lt_total(x, y);
            if seq_lt(x, y) {
                lemma_seq_lt_transitive(z, x, y);
            }
        }
    }
}

/// Every entry kept by `dedup_names` is an entry of the input, and the
/// last kept entry carries the input's last name.
proof fn lemma_dedup_members(s: Seq<ThemeEntry>)
    ensures
        forall|k: int|
            0 <= k < dedup_names(s).len() ==> exists|j: int| 0 <= j < s.len() && #[trigger] dedup_names(s)[k] == s[j],
        s.len() > 0 ==> dedup_names(s).len() > 0 && dedup_names(s).last().display@ == s.last().display@,
        dedup_names(s).len() <= s.len(),
    decreases s.len(),
{
    if s.len() > 0 {
        let t = s.drop_last();
        lemma_dedup_members(t);
        let d = dedup_names(t);
        assert forall|k: int| 0 <= k < dedup_names(s).len() implies exists|j: int|
            0 <= j < s.len() && #[trigger] dedup_names(s)[k] == s[j] by {
            if k < d.len() {
                let j = choose|j: int| 0 <= j < t.len() && d[k] == t[j];
                assert(dedup_names(s)[k] == s[j]);
            } else {
                assert(dedup_names(s)[k] == s[s.len() - 1]);
            }
        }
    }
}

proof fn lemma_dedup_sorted_distinct(s: Seq<ThemeEntry>, le: spec_fn(ThemeEntry, ThemeEntry) -> bool)
    requires
        sorted_by(s, le),
    ensures
        sorted_by(dedup_names(s), le),
        forall|k: int|
            0 <= k < dedup_names(s).len() - 1 ==> (#[trigger] dedup_names(s)[k]).display@ != dedup_names(s)[k
                + 1].display@,
    decreases s.len(),
{
    if s.len() > 0 {
        let t = s.drop_last();
        assert(sorted_by(t, le)) by {
            assert forall|i: int, j: int| 0 <= i < j < t.len() implies le(#[trigger] t[i], #[trigger] t[j]) by {
                assert(t[i] == s[i] && t[j] == s[j]);
            }
        }
        lemma_dedup_sorted_distinct(t, le);
        lemma_dedup_members(t);
        let d = dedup_names(t);
        let x = s.last();
        if !(s.len() >= 2 && s[s.len() - 2].display@ == x.display@) {
            let r = d.push(x);
            assert forall|i: int, j: int| 0 <= i < j < r.len() implies le(#[trigger] r[i], #[trigger] r[j]) by {
                if j == d.len() {
                    let m = choose|m: int| 0 <= m < t.len() && d[i] == t[m];
                    assert(le(s[m], s[s.len() - 1]));
                } else {
                    assert(r[i] == d[i] && r[j] == d[j]);
                }
            }
            assert forall|k: int| 0 <= k < r.len() - 1 implies (#[trigger] r[k]).display@ != r[k + 1].display@ by {
                if k == d.len() - 1 {
                    assert(d.last().display@ == t.last().display@);
                    assert(t.last() == s[s.len() - 2]);
                } else {
                    assert(r[k] == d[k] && r[k + 1] == d[k + 1]);
                }
            }
        }
    }
}

/// The themes listed after the embedded ones come in order of their
/// lower-cased names, and no two neighbours carry the same name.
pub proof fn lemma_listed_themes_sorted_and_distinct(tail: Seq<ThemeEntry>)
    ensures
        sorted_by(dedup_names(sort_by(tail, name_le())), name_le()),
        forall|k: int|
            0 <= k < dedup_names(sort_by(tail, name_le())).len() - 1 ==> (#[trigger] dedup_names(
                sort_by(tail, name_le()),
            )[k]).display@ != dedup_names(sort_by(tail, name_le()))[k + 1].display@,
{
    lemma_name_le_total();
    lemma_sort_by_sorted(tail, name_le());
    lemma_dedup_sorted_distinct(sort_by(tail, name_le()), name_le());
}

fn find_name(s: &Vec<ThemeEntry>, name: &str) -> (r: Option<usize>)
    ensures
        match r {
            Some(i) => position_of(s@, name@) == Some(i as int) && i < s@.len(),
            None => position_of(s@, name@) is None,
        },
{
    let mut i: usize = 0;
    while i < s.len()
        invariant
            i <= s@.len(),
            position_of(s@.take(i as int), name@) is None,
        decreases s@.len() - i,
    {
        assert(s@.take(i + 1).drop_last() =~= s@.take(i as int));
        if text_eq(s[i].display.as_str(), name) {
            assert(position_of(s@.take(i + 1), name@) == Some(i as int));
            proof {
                lemma_position_prefix(s@, name@, i as int + 1);
            }
            return Some(i);
        }
        i = i + 1;
    }
    assert(s@.take(i as int) =~= s@);
    None
}

proof fn lemma_position_prefix(s: Seq<ThemeEntry>, name: Seq<char>, k: int)
    requires
        0 <= k <= s.len(),
        position_of(s.take(k), name) is Some,
    ensures
        position_of(s, name) == position_of(s.take(k), name),
    decreases s.len() - k,
{
    if k < s.len() {
        assert(s.take(k + 1).drop_last() =~= s.take(k));
        lemma_position_prefix(s, name, k + 1);
    } else {
        assert(s.take(k) =~= s);
    }
}

impl AppTheme {
    /// Builds the theme list: the embedded themes first, in their order,
    /// then the other themes stably sorted by lower-cased name with
    /// repeated names dropped. The preference, else the default theme
    /// (the one first launch opens with), else the first, is applied and
    /// under the cursor.
    pub fn assemble(
        embedded: Vec<ThemeEntry>,
        tail: Vec<ThemeEntry>,
        preference: Option<String>,
        default_name: Option<String>,
    ) -> (t: AppTheme)
        ensures
            t.entries@ == embedded@ + dedup_names(sort_by(tail@, name_le())),
            t.applied as int == initial_applied(t.entries@, opt_view(preference), opt_view(default_name)),
            t.cursor == t.applied,
            t.pending_since is None,
            t.well_formed(),
    {
        let sorted = sort_tail(tail);
        let kept = dedup_entries(sorted);
        let mut entries = embedded;
        let mut kept = kept;
        entries.append(&mut kept);
        let pref_pos = match &preference {
            Some(p) => find_name(&entries, p.as_str()),
            None => None,
        };
        let applied = match pref_pos {
            Some(i) => i,
            None => match &default_name {
                Some(d) => match find_name(&entries, d.as_str()) {
                    Some(i) => i,
                    None => 0,
                },
                None => 0,
            },
        };
        AppTheme { entries, applied, cursor: applied, pending_since: None }
    }

    /// Loads the theme list: opaline's builtin themes and the user's own
    /// theme files (`user_theme_texts`, their contents in path order),
    /// stably sorted by lower-cased name with repeated names dropped; the
    /// theme the settings file (`settings`, its text if there is one)
    /// names is applied, else the first. Which themes opaline builds, and
    /// under which names, is opaline's.
    pub fn load(settings: Option<String>, user_theme_texts: Vec<String>) -> (t: AppTheme)
        ensures
            exists|tail: Seq<ThemeEntry>| t.entries@ == #[trigger] dedup_names(sort_by(tail, name_le())),
            t.applied as int == initial_applied(t.entries@, settings_preference(opt_view(settings)), None),
            t.cursor == t.applied,
            t.pending_since is None,
            t.well_formed(),
    {
        let mut tail = builtin_entries();
        let mut user = entries_from_texts(&user_theme_texts);
        tail.append(&mut user);
        let ghost all = tail@;
        let preference = preference_from_settings(settings);
        let t = AppTheme::assemble(Vec::new(), tail, preference, None);
        assert(Seq::<ThemeEntry>::empty() + dedup_names(sort_by(all, name_le())) =~= dedup_names(
            sort_by(all, name_le()),
        ));
        t
    }
}

/// Calls `opaline::builtins::builtin_names` and keeps each builtin's id.
/// The list is opaline's; nothing is claimed of it.
#[verifier::external_body]
fn builtin_theme_ids() -> (r: Vec<String>) {
    opaline::builtins::builtin_names().iter().map(|(id, _)| id.to_string()).collect()
}

/// Calls `opaline::builtins::load_by_name`: the builtin theme with that
/// id, or `None` for an id it does not know. The themes are opaline's;
/// nothing is claimed of them.
#[verifier::external_body]
fn builtin_theme(id: &str) -> (r: Option<opaline::Theme>) {
    opaline::builtins::load_by_name(id)
}

/// Calls `opaline::load_from_str` on the text of a theme file: the theme,
/// or `None` when opaline refuses the text. Nothing is claimed of which
/// texts it accepts.
#[verifier::external_body]
fn theme_from_text(text: &str) -> (r: Option<opaline::Theme>) {
    opaline::load_from_str(text, None).ok()
}

/// The name a theme is listed under: its `meta.name`. Nothing is claimed
/// of it.
#[verifier::external_body]
fn theme_display_name(theme: &opaline::Theme) -> (r: String) {
    theme.meta.name.clone()
}

impl ThemeEntry {
    /// A theme listed under its own name.
    pub fn from_theme(theme: opaline::Theme) -> (e: ThemeEntry)
        ensures
            e.theme == theme,
    {
        let display = theme_display_name(&theme);
        ThemeEntry { display, theme }
    }
}

/// Entries for opaline's builtin themes, in opaline's order, skipping any
/// id it cannot load.
pub fn builtin_entries() -> (r: Vec<ThemeEntry>) {
    let ids = builtin_theme_ids();
    let mut r: Vec<ThemeEntry> = Vec::new();
    let mut k: usize = 0;
    while k < ids.len()
        invariant
            k <= ids@.len(),
            r@.len() <= k,
        decreases ids@.len() - k,
    {
        match builtin_theme(ids[k].as_str()) {
            Some(theme) => r.push(ThemeEntry::from_theme(theme)),
            None => {},
        }
        k = k + 1;
    }
    r
}

/// Entries for the theme files with the given texts, in order, skipping
/// those opaline refuses: at most one per text.
pub fn entries_from_texts(texts: &Vec<String>) -> (r: Vec<ThemeEntry>)
    ensures
        r@.len() <= texts@.len(),
{
    let mut r: Vec<ThemeEntry> = Vec::new();
    let mut k: usize = 0;
    while k < texts.len()
        invariant
            k <= texts@.len(),
            r@.len() <= k,
        decreases texts@.len() - k,
    {
        match theme_from_text(texts[k].as_str()) {
            Some(theme) => r.push(ThemeEntry::from_theme(theme)),
            None => {},
        }
        k = k + 1;
    }
    r
}

fn sort_tail(tail: Vec<ThemeEntry>) -> (r: Vec<ThemeEntry>)
    ensures
        r@ == sort_by(tail@, name_le()),
{
    let ghost input = tail@;
    let mut rest = tail;
    let mut out: Vec<ThemeEntry> = Vec::new();
    let mut keys: Vec<String> = Vec::new();
    let mut i: usize = 0;
    assert(input.len() == rest.len());
    assert(input.take(0) =~= Seq::<ThemeEntry>::empty());
    while rest.len() > 0
        invariant
            i + rest@.len() == input.len(),
            input.len() <= usize::MAX,
            rest@ == input.skip(i as int),
            out@ == sort_by(input.take(i as int), name_le()),
            keys@.len() == out@.len(),
            forall|k: int| 0 <= k < keys@.len() ==> (#[trigger] keys@[k])@ == lowercase_of(out@[k].display@),
        decreases rest@.len(),
    {
        let x = rest.remove(0);
        assert(x == input[i as int]);
        let kx = to_lowercase(x.display.as_str());
        let mut j = out.len();
        while j > 0 && text_lt(kx.as_str(), keys[j - 1].as_str())
            invariant
                j <= out@.len(),
                keys@.len() == out@.len(),
                kx@ == lowercase_of(x.display@),
                forall|k: int| 0 <= k < keys@.len() ==> (#[trigger] keys@[k])@ == lowercase_of(out@[k].display@),
                forall|k: int| j <= k < out@.len() ==> !(name_le())(#[trigger] out@[k], x),
            decreases j,
        {
            j = j - 1;
        }
        proof {
            if j > 0 {
                assert(keys@[j - 1]@ == lowercase_of(out@[j - 1].display@));
            }
            lemma_insert_at(out@, x, name_le(), j as int);
            assert(input.take(i + 1).drop_last() =~= input.take(i as int));
            assert(input.take(i + 1).last() == x);
        }
        let ghost prev = out@;
        let ghost prev_keys = keys@;
        out.insert(j, x);
        keys.insert(j, kx);
        assert(out@ =~= prev.take(j as int) + seq![x] + prev.skip(j as int));
        assert forall|k: int| 0 <= k < keys@.len() implies (#[trigger] keys@[k])@ == lowercase_of(out@[k].display@) by {
            if k < j {
                assert(keys@[k] == prev_keys[k] && out@[k] == prev[k]);
            } else if k > j {
                assert(keys@[k] == prev_keys[k - 1] && out@[k] == prev[k - 1]);
            }
        }
        i = i + 1;
        assert(rest@ =~= input.skip(i as int));
    }
    assert(input.take(i as int) =~= input);
    out
}

fn dedup_entries(s: Vec<ThemeEntry>) -> (r: Vec<ThemeEntry>)
    ensures
        r@ == dedup_names(s@),
{
    let ghost input = s@;
    let mut rest = s;
    let mut out: Vec<ThemeEntry> = Vec::new();
    let mut last_name: Option<String> = None;
    let mut i: usize = 0;
    assert(input.len() == rest.len());
    assert(input.take(0) =~= Seq::<ThemeEntry>::empty());
    while rest.len() > 0
        invariant
            i + rest@.len() == input.len(),
            input.len() <= usize::MAX,
            rest@ == input.skip(i as int),
            out@ == dedup_names(input.take(i as int)),
            match last_name {
                Some(n) => i > 0 && n@ == input[i - 1].display@,
                None => i == 0,
            },
        decreases rest@.len(),
    {
        let x = rest.remove(0);
        assert(x == input[i as int]);
        assert(input.take(i + 1).drop_last() =~= input.take(i as int));
        assert(input.take(i + 1).last() == x);
        let repeat = match &last_name {
            Some(n) => *n == x.display,
            None => false,
        };
        if i > 0 {
            assert(input.take(i + 1)[i - 1] == input[i - 1]);
        }
        let name = x.display.clone();
        if !repeat {
            out.push(x);
        }
        last_name = Some(name);
        i = i + 1;
        assert(rest@ =~= input.skip(i as int));
    }
    assert(input.take(i as int) =~= input);
    out
}

// ---------------------------------------------------------------------
// Colour roles
// ---------------------------------------------------------------------

/// Semantic colours a theme provides.
#[derive(Debug, Clone, Copy, PartialEq, Eq, Structural)]
pub enum ColorRole {
    Bg,
    PanelBg,
    Text,
    Muted,
    Dim,
    Accent,
    Success,
    Warning,
    Danger,
    Info,
}

pub open spec fn token_of(role: ColorRole, has_dim: bool) -> Seq<char> {
    match role {
        ColorRole::Bg => "bg.base"@,
        ColorRole::PanelBg => "bg.panel"@,
        ColorRole::Text => "text.primary"@,
        ColorRole::Muted => "text.muted"@,
        ColorRole::Dim => if has_dim {
            "text.dim"@
        } else {
            "text.muted"@
        },
        ColorRole::Accent => "accent.primary"@,
        ColorRole::Success => "success"@,
        ColorRole::Warning => "warning"@,
        ColorRole::Danger => "error"@,
        ColorRole::Info => "info"@,
    }
}

/// Theme token a role is looked up under; dim falls back to muted when
/// the theme has no `text.dim` token.
pub fn color_token(role: ColorRole, has_dim: bool) -> (t: &'static str)
    ensures
        t@ == token_of(role, has_dim),
{
    match role {
        ColorRole::Bg => "bg.base",
        ColorRole::PanelBg => "bg.panel",
        ColorRole::Text => "text.primary",
        ColorRole::Muted => "text.muted",
        ColorRole::Dim => if has_dim {
            "text.dim"
        } else {
            "text.muted"
        },
        ColorRole::Accent => "accent.primary",
        ColorRole::Success => "success",
        ColorRole::Warning => "warning",
        ColorRole::Danger => "error",
        ColorRole::Info => "info",
    }
}

pub open spec fn indicator_role(i: Indicator) -> ColorRole {
    match i {
        Indicator::Nil => ColorRole::Success,
        Indicator::Minor => ColorRole::Warning,
        Indicator::Major => ColorRole::Danger,
        Indicator::Critical => ColorRole::Danger,
        Indicator::Maintenance => ColorRole::Info,
    }
}

pub open spec fn component_role(s: ComponentStatus) -> ColorRole {
    match s {
        ComponentStatus::Operational => ColorRole::Success,
        ComponentStatus::DegradedPerformance => ColorRole::Warning,
        ComponentStatus::PartialOutage => ColorRole::Warning,
        ComponentStatus::MajorOutage => ColorRole::Danger,
        ComponentStatus::UnderMaintenance => ColorRole::Info,
    }
}

pub open spec fn impact_role(i: Impact) -> ColorRole {
    match i {
        Impact::Nil => ColorRole::Muted,
        Impact::Minor => ColorRole::Warning,
        Impact::Major => ColorRole::Danger,
        Impact::Critical => ColorRole::Danger,
        Impact::Maintenance => ColorRole::Info,
    }
}

impl AppTheme {
    /// Colour of the page indicator.
    pub fn indicator_color(&self, indicator: Indicator) -> (c: ColorRole)
        ensures
            c == indicator_role(indicator),
    {
        match indicator {
            Indicator::Nil => ColorRole::Success,
            Indicator::Minor => ColorRole::Warning,
            Indicator::Major | Indicator::Critical => ColorRole::Danger,
            Indicator::Maintenance => ColorRole::Info,
        }
    }

    /// Colour of a component status.
    pub fn component_color(&self, status: ComponentStatus) -> (c: ColorRole)
        ensures
            c == component_role(status),
    {
        match status {
            ComponentStatus::Operational => ColorRole::Success,
            ComponentStatus::DegradedPerformance | ComponentStatus::PartialOutage => ColorRole::Warning,
            ComponentStatus::MajorOutage => ColorRole::Danger,
            ComponentStatus::UnderMaintenance => ColorRole::Info,
        }
    }

    /// Colour of an incident impact.
    pub fn impact_color(&self, impact: Impact) -> (c: ColorRole)
        ensures
            c == impact_role(impact),
    {
        match impact {
            Impact::Nil => ColorRole::Muted,
            Impact::Minor => ColorRole::Warning,
            Impact::Major | Impact::Critical => ColorRole::Danger,
            Impact::Maintenance => ColorRole::Info,
        }
    }
}

// ---------------------------------------------------------------------
// Resolving roles against the applied theme
// ---------------------------------------------------------------------

/// An RGB colour.
pub type Rgb = (u8, u8, u8);

/// Grey that a theme gives for a name it does not define.
pub const FALLBACK_RGB: Rgb = (128, 128, 128);

/// Name for the colours a theme defines by name: its semantic tokens,
/// and its palette entries for the names that are not tokens.
pub uninterp spec fn theme_colors(t: opaline::Theme) -> Map<Seq<char>, (u8, u8, u8)>;

/// Calls `Theme::color` and converts the `OpalineColor` to its RGB
/// triple. The source looks the name up among the tokens, then the
/// palette, and gives the fallback grey when neither has it.
#[verifier::external_body]
fn theme_color(t: &opaline::Theme, token: &str) -> (c: (u8, u8, u8))
    ensures
        c == (if theme_colors(*t).dom().contains(token@) {
            theme_colors(*t)[token@]
        } else {
            FALLBACK_RGB
        }),
{
    t.color(token).into()
}

/// Calls `Theme::has_token`, which is true when the name is a token or
/// a palette entry.
#[verifier::external_body]
fn theme_has_token(t: &opaline::Theme, token: &str) -> (b: bool)
    ensures
        b == theme_colors(*t).dom().contains(token@),
{
    t.has_token(token)
}

/// The colour a role takes in a theme with these named colours.
pub open spec fn role_rgb(colors: Map<Seq<char>, (u8, u8, u8)>, role: ColorRole) -> Rgb {
    let tok = token_of(role, colors.dom().contains("text.dim"@));
    if colors.dom().contains(tok) {
        colors[tok]
    } else {
        FALLBACK_RGB
    }
}

/// Foreground of a pane border, and whether it is bold.
#[derive(Debug, Clone, Copy, PartialEq, Eq)]
pub struct BorderStyle {
    pub fg: Rgb,
    pub bold: bool,
}

impl AppTheme {
    /// Named colours of the applied theme.
    pub open spec fn applied_colors(self) -> Map<Seq<char>, (u8, u8, u8)> {
        theme_colors(self.entries@[self.applied as int].theme)
    }

    /// The colour of `role` in the applied theme.
    pub fn color(&self, role: ColorRole) -> (c: Rgb)
        requires
            self.applied < self.entries@.len(),
        ensures
            c == role_rgb(self.applied_colors(), role),
    {
        let t = self.theme();
        let has_dim = theme_has_token(t, "text.dim");
        theme_color(t, color_token(role, has_dim))
    }

    pub fn bg(&self) -> (c: Rgb)
        requires
            self.applied < self.entries@.len(),
        ensures
            c == role_rgb(self.applied_colors(), ColorRole::Bg),
    {
        self.color(ColorRole::Bg)
    }

    pub fn panel_bg(&self) -> (c: Rgb)
        requires
            self.applied < self.entries@.len(),
        ensures
            c == role_rgb(self.applied_colors(), ColorRole::PanelBg),
    {
        self.color(ColorRole::PanelBg)
    }

    pub fn text(&self) -> (c: Rgb)
        requires
            self.applied < self.entries@.len(),
        ensures
            c == role_rgb(self.applied_colors(), ColorRole::Text),
    {
        self.color(ColorRole::Text)
    }

    pub fn muted(&self) -> (c: Rgb)
        requires
            self.applied < self.entries@.len(),
        ensures
            c == role_rgb(self.applied_colors(), ColorRole::Muted),
    {
        self.color(ColorRole::Muted)
    }

    /// `text.dim` where the theme defines it, else `text.muted`.
    pub fn dim(&self) -> (c: Rgb)
        requires
            self.applied < self.entries@.len(),
        ensures
            c == role_rgb(self.applied_colors(), ColorRole::Dim),
    {
        self.color(ColorRole::Dim)
    }

    pub fn accent(&self) -> (c: Rgb)
        requires
            self.applied < self.entries@.len(),
        ensures
            c == role_rgb(self.applied_colors(), ColorRole::Accent),
    {
        self.color(ColorRole::Accent)
    }

    pub fn success(&self) -> (c: Rgb)
        requires
            self.applied < self.entries@.len(),
        ensures
            c == role_rgb(self.applied_colors(), ColorRole::Success),
    {
        self.color(ColorRole::Success)
    }

    pub fn warning(&self) -> (c: Rgb)
        requires
            self.applied < self.entries@.len(),
        ensures
            c == role_rgb(self.applied_colors(), ColorRole::Warning),
    {
        self.color(ColorRole::Warning)
    }

    /// The theme's `error` colour.
    pub fn danger(&self) -> (c: Rgb)
        requires
            self.applied < self.entries@.len(),
        ensures
            c == role_rgb(self.applied_colors(), ColorRole::Danger),
    {
        self.color(ColorRole::Danger)
    }

    pub fn info(&self) -> (c: Rgb)
        requires
            self.applied < self.entries@.len(),
        ensures
            c == role_rgb(self.applied_colors(), ColorRole::Info),
    {
        self.color(ColorRole::Info)
    }

    /// Border of the focused pane: the accent colour, bold.
    pub fn focused_border(&self) -> (b: BorderStyle)
        requires
            self.applied < self.entries@.len(),
        ensures
            b == (BorderStyle { fg: role_rgb(self.applied_colors(), ColorRole::Accent), bold: true }),
    {
        BorderStyle { fg: self.accent(), bold: true }
    }

    /// Border of an unfocused pane: the muted colour.
    pub fn unfocused_border(&self) -> (b: BorderStyle)
        requires
            self.applied < self.entries@.len(),
        ensures
            b == (BorderStyle { fg: role_rgb(self.applied_colors(), ColorRole::Muted), bold: false }),
    {
        BorderStyle { fg: self.muted(), bold: false }
    }
}

} // verus!
