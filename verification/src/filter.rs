//! Sorting and filtering the package table.
//!
//! Kept separate from the UI so that the ordering rules — which are the whole
//! point of the tool — stand on their own.
use vstd::prelude::*;
use vstd::view::View as Viewed;

use crate::format::days_since;
use crate::model;
use crate::model::{Entry, InstallReason};
use crate::sort;
use crate::sort::sorted_positions;
use crate::text;
use crate::text::{at_most, contains, to_lower};

verus! {

/// A column the table can be ordered by.
#[derive(Clone, Copy, Debug, PartialEq, Eq, Structural)]
pub enum SortKey {
    /// Package name, alphabetically.
    Name,
    /// Installed size of the package's own files.
    Size,
    /// Size freed by removing it, dependencies included.
    Reclaimable,
    /// When the package was last read.
    LastUsed,
    /// When the package was installed.
    Installed,
    /// How many packages depend on it.
    RequiredBy,
}

impl SortKey {
    /// The heading of a column.
    pub open spec fn label_text(self) -> Seq<char> {
        match self {
            SortKey::Name => "name"@,
            SortKey::Size => "size"@,
            SortKey::Reclaimable => "frees"@,
            SortKey::LastUsed => "last used"@,
            SortKey::Installed => "installed"@,
            SortKey::RequiredBy => "needed by"@,
        }
    }

    /// The key behind a key.
    pub open spec fn following(self) -> SortKey {
        match self {
            SortKey::Size => SortKey::Reclaimable,
            SortKey::Reclaimable => SortKey::LastUsed,
            SortKey::LastUsed => SortKey::Installed,
            SortKey::Installed => SortKey::Name,
            SortKey::Name => SortKey::RequiredBy,
            SortKey::RequiredBy => SortKey::Size,
        }
    }

    /// Whether a key reads most naturally largest-first.
    pub open spec fn naturally_descending(self) -> bool {
        self is Size || self is Reclaimable || self is RequiredBy
    }

    /// Column heading.
    pub fn label(self) -> (r: &'static str)
        ensures
            r@ == self.label_text(),
    {
        match self {
            SortKey::Name => "name",
            SortKey::Size => "size",
            SortKey::Reclaimable => "frees",
            SortKey::LastUsed => "last used",
            SortKey::Installed => "installed",
            SortKey::RequiredBy => "needed by",
        }
    }

    /// The next key in the cycle, for a single keystroke to walk them all.
    pub fn next(self) -> (r: SortKey)
        ensures
            r == self.following(),
    {
        match self {
            SortKey::Size => SortKey::Reclaimable,
            SortKey::Reclaimable => SortKey::LastUsed,
            SortKey::LastUsed => SortKey::Installed,
            SortKey::Installed => SortKey::Name,
            SortKey::Name => SortKey::RequiredBy,
            SortKey::RequiredBy => SortKey::Size,
        }
    }

    /// Whether the key reads most naturally largest-first.
    pub fn defaults_descending(self) -> (r: bool)
        ensures
            r == self.naturally_descending(),
    {
        match self {
            SortKey::Size => true,
            SortKey::Reclaimable => true,
            SortKey::RequiredBy => true,
            SortKey::Name => false,
            SortKey::LastUsed => false,
            SortKey::Installed => false,
        }
    }
}

/// The key after `n` steps of the cycle.
pub open spec fn key_after(key: SortKey, n: nat) -> SortKey
    decreases n,
{
    if n == 0 {
        key
    } else {
        key_after(key, (n - 1) as nat).following()
    }
}

/// The cycle walks all six keys: every key is reached from every other in
/// fewer than six steps, and after six steps the cycle is back where it began.
pub proof fn sort_keys_cycle(from: SortKey, to: SortKey)
    ensures
        key_after(from, 6) == from,
        exists|n: nat| n < 6 && #[trigger] key_after(from, n) == to,
{
    reveal_with_fuel(key_after, 7);
    assert(key_after(from, 0) == to || key_after(from, 1) == to || key_after(from, 2) == to
        || key_after(from, 3) == to || key_after(from, 4) == to || key_after(from, 5) == to);
}

/// A predicate narrowing the package list.
///
/// Toggles compose with AND: turning on `Orphans` and `Foreign` shows AUR
/// packages that nothing needs, which is the highest-value list on the system.
#[derive(Clone, Copy, Debug, PartialEq, Eq, Structural)]
pub enum Toggle {
    /// Installed as a dependency, and nothing requires it.
    Orphans,
    /// Not in any sync repository: AUR or locally built.
    Foreign,
    /// Explicitly installed by the user.
    Explicit,
    /// No file has been read since installation.
    NeverUsed,
    /// Not read within the staleness window.
    Stale,
}

impl Toggle {
    /// The label of a filter.
    pub open spec fn label_text(self) -> Seq<char> {
        match self {
            Toggle::Orphans => "orphans"@,
            Toggle::Foreign => "aur"@,
            Toggle::Explicit => "explicit"@,
            Toggle::NeverUsed => "never-used"@,
            Toggle::Stale => "stale"@,
        }
    }

    /// The key of a filter.
    pub open spec fn key_char(self) -> char {
        match self {
            Toggle::Orphans => 'o',
            Toggle::Foreign => 'a',
            Toggle::Explicit => 'e',
            Toggle::NeverUsed => 'n',
            Toggle::Stale => 'u',
        }
    }

    /// Label shown in the filter bar.
    pub fn label(self) -> (r: &'static str)
        ensures
            r@ == self.label_text(),
    {
        match self {
            Toggle::Orphans => "orphans",
            Toggle::Foreign => "aur",
            Toggle::Explicit => "explicit",
            Toggle::NeverUsed => "never-used",
            Toggle::Stale => "stale",
        }
    }

    /// The key that toggles it.
    pub fn key(self) -> (r: char)
        ensures
            r == self.key_char(),
    {
        match self {
            Toggle::Orphans => 'o',
            Toggle::Foreign => 'a',
            Toggle::Explicit => 'e',
            Toggle::NeverUsed => 'n',
            Toggle::Stale => 'u',
        }
    }
}

/// Every toggle, in display order.
pub const TOGGLES: [Toggle; 5] = [
    Toggle::Orphans,
    Toggle::Foreign,
    Toggle::Explicit,
    Toggle::NeverUsed,
    Toggle::Stale,
];

/// The complete filter and sort state of the table.
#[derive(Clone, Debug, PartialEq, Eq)]
pub struct View {
    /// Substring the package name must contain. When `match_descriptions` is
    /// on, a hit in the description counts too.
    pub query: String,
    /// Whether the query is also matched against package descriptions.
    ///
    /// Off by default: searching `lib` should find the packages *called*
    /// `lib…`, not the several hundred whose description happens to contain
    /// the word.
    pub match_descriptions: bool,
    /// Active toggles.
    pub toggles: Vec<Toggle>,
    /// Column to order by.
    pub sort: SortKey,
    /// Whether the order is reversed from the column's natural direction.
    pub descending: bool,
    /// Days without a read before a package counts as stale.
    pub stale_days: i64,
    /// Hide packages that cannot be removed without an override.
    pub hide_protected: bool,
}

/// The view of a [`View`].
#[verifier::ext_equal]
pub struct ViewModel {
    /// See [`View::query`].
    pub query: Seq<char>,
    /// See [`View::match_descriptions`].
    pub match_descriptions: bool,
    /// See [`View::toggles`].
    pub toggles: Seq<Toggle>,
    /// See [`View::sort`].
    pub sort: SortKey,
    /// See [`View::descending`].
    pub descending: bool,
    /// See [`View::stale_days`].
    pub stale_days: i64,
    /// See [`View::hide_protected`].
    pub hide_protected: bool,
}

impl Viewed for View {
    type V = ViewModel;

    open spec fn view(&self) -> ViewModel {
        ViewModel {
            query: self.query@,
            match_descriptions: self.match_descriptions,
            toggles: self.toggles@,
            sort: self.sort,
            descending: self.descending,
            stale_days: self.stale_days,
            hide_protected: self.hide_protected,
        }
    }
}

/// A list of toggles with one of them turned over: taken out where it is in,
/// added at the end where it is not.
pub open spec fn turned(toggles: Seq<Toggle>, toggle: Toggle) -> Seq<Toggle> {
    if toggles.contains(toggle) {
        toggles.remove(toggles.index_of_first(toggle).unwrap())
    } else {
        toggles.push(toggle)
    }
}

impl ViewModel {
    /// The view with a toggle turned over.
    pub open spec fn with_toggle(self, toggle: Toggle) -> ViewModel {
        ViewModel { toggles: turned(self.toggles, toggle), ..self }
    }

    /// The view sorted by `key`: in its natural direction, or the other way
    /// round where that is the key already.
    pub open spec fn sorted_by(self, key: SortKey) -> ViewModel {
        if self.sort == key {
            ViewModel { descending: !self.descending, ..self }
        } else {
            ViewModel { sort: key, descending: key.naturally_descending(), ..self }
        }
    }

    /// The view with every filter off.
    pub open spec fn cleared(self) -> ViewModel {
        ViewModel {
            query: Seq::empty(),
            toggles: Seq::empty(),
            hide_protected: false,
            ..self
        }
    }

    /// Whether the view is showing everything.
    pub open spec fn shows_all(self) -> bool {
        self.query.len() == 0 && self.toggles.len() == 0 && !self.hide_protected
    }
}

impl Default for View {
    fn default() -> (r: View)
        ensures
            r@ == (ViewModel {
                query: Seq::empty(),
                match_descriptions: false,
                toggles: Seq::empty(),
                sort: SortKey::Size,
                descending: true,
                stale_days: 180,
                hide_protected: false,
            }),
    {
        View {
            query: String::new(),
            match_descriptions: false,
            toggles: Vec::new(),
            sort: SortKey::Size,
            descending: true,
            stale_days: 180,
            hide_protected: false,
        }
    }
}

impl View {
    /// Where a toggle first stands in the list of active ones.
    fn place_of(&self, toggle: Toggle) -> (r: Option<usize>)
        ensures
            match r {
                Some(i) => self.toggles@.contains(toggle) && self.toggles@.index_of_first(toggle)
                    == Some(i as int) && i < self.toggles.len(),
                None => !self.toggles@.contains(toggle),
            },
    {
        let mut i: usize = 0;
        while i < self.toggles.len()
            invariant
                i <= self.toggles.len(),
                forall|j: int| 0 <= j < i ==> self.toggles@[j] != toggle,
            decreases self.toggles.len() - i,
        {
            if self.toggles[i] == toggle {
                proof {
                    assert(self.toggles@[i as int] == toggle);
                    self.toggles@.index_of_first_ensures(toggle);
                }
                return Some(i);
            }
            i += 1;
        }
        None
    }

    /// Turn a toggle on or off.
    pub fn toggle(&mut self, toggle: Toggle) -> (r: bool)
        ensures
            r,
            final(self)@ == old(self)@.with_toggle(toggle),
    {
        match self.place_of(toggle) {
            Some(i) => {
                self.toggles.remove(i);
            },
            None => {
                self.toggles.push(toggle);
            },
        }
        true
    }

    /// Whether a toggle is on.
    pub fn is_active(&self, toggle: Toggle) -> (r: bool)
        ensures
            r == self@.toggles.contains(toggle),
    {
        self.place_of(toggle).is_some()
    }

    /// Switch to `key`, or flip the direction if it is already the sort key.
    pub fn sort_by(&mut self, key: SortKey) -> (r: bool)
        ensures
            r,
            final(self)@ == old(self)@.sorted_by(key),
    {
        if self.sort == key {
            self.descending = !self.descending;
        } else {
            self.sort = key;
            self.descending = key.defaults_descending();
        }
        true
    }

    /// Widen or narrow the search to package descriptions.
    pub fn toggle_descriptions(&mut self) -> (r: bool)
        ensures
            r == !old(self)@.match_descriptions,
            final(self)@ == (ViewModel { match_descriptions: r, ..old(self)@ }),
    {
        self.match_descriptions = !self.match_descriptions;
        self.match_descriptions
    }

    /// What the search field is currently matching against.
    pub fn search_scope(&self) -> (r: &'static str)
        ensures
            r@ == (if self@.match_descriptions {
                "name+description"@
            } else {
                "name"@
            }),
    {
        if self.match_descriptions {
            "name+description"
        } else {
            "name"
        }
    }

    /// Whether the view is showing everything.
    pub fn is_unfiltered(&self) -> (r: bool)
        ensures
            r == self@.shows_all(),
    {
        self.query.as_str().is_empty() && self.toggles.len() == 0 && !self.hide_protected
    }
}

// ---------------------------------------------------------------------------
// Filtering
// ---------------------------------------------------------------------------

/// Whether an entry passes a single toggle.
pub open spec fn passes_toggle(
    entry: model::EntryView,
    toggle: Toggle,
    stale_days: i64,
    now: i64,
) -> bool {
    match toggle {
        Toggle::Orphans => entry.package.reason == InstallReason::Dependency
            && entry.facts.required_by.len() == 0,
        Toggle::Foreign => entry.facts.origin is Foreign,
        Toggle::Explicit => entry.package.reason == InstallReason::Explicit,
        Toggle::NeverUsed => entry.facts.usage is NeverSinceInstall,
        Toggle::Stale => match entry.facts.usage.timestamp() {
            Some(timestamp) => crate::format::elapsed_days(now, timestamp) >= stale_days,
            None => false,
        },
    }
}

/// Whether an entry passes the search: the lower-case query occurs in its
/// lower-case name or, where that is asked for, in its lower-case description.
pub open spec fn passes_search(
    view: ViewModel,
    needle: Seq<char>,
    name: Seq<char>,
    description: Seq<char>,
) -> bool {
    ||| view.query.len() == 0
    ||| text::occurs(name, needle)
    ||| view.match_descriptions && text::occurs(description, needle)
}

/// Whether an entry passes everything but the search.
pub open spec fn passes_filters(entry: model::EntryView, view: ViewModel, now: i64) -> bool {
    &&& !(view.hide_protected && entry.facts.protected)
    &&& forall|i: int|
        0 <= i < view.toggles.len() ==> passes_toggle(
            entry,
            #[trigger] view.toggles[i],
            view.stale_days,
            now,
        )
}

/// Whether an entry is shown.
pub open spec fn is_shown(entry: model::EntryView, view: ViewModel, now: i64) -> bool {
    &&& passes_filters(entry, view, now)
    &&& passes_search(
        view,
        text::lowercase(view.query),
        text::lowercase(entry.package.name),
        text::lowercase(entry.package.description),
    )
}

/// Whether one entry passes a single toggle.
fn passes(entry: &Entry, toggle: Toggle, stale_days: i64, now: i64) -> (r: bool)
    ensures
        r == passes_toggle(entry@, toggle, stale_days, now),
{
    match toggle {
        Toggle::Orphans => entry.package.reason == InstallReason::Dependency
            && entry.facts.is_orphan(),
        Toggle::Foreign => entry.facts.origin.is_foreign(),
        Toggle::Explicit => entry.package.reason == InstallReason::Explicit,
        Toggle::NeverUsed => entry.facts.usage.is_unused(),
        Toggle::Stale => match entry.facts.usage.timestamp() {
            Some(timestamp) => days_since(now, timestamp) >= stale_days,
            None => false,
        },
    }
}

/// Whether an entry passes the search, given the lower-case query, name and
/// description.
pub fn search_hits(view: &View, needle: &str, name: &str, description: &str) -> (r: bool)
    ensures
        r == passes_search(view@, needle@, name@, description@),
{
    view.query.as_str().is_empty() || contains(name, needle) || (view.match_descriptions && contains(
        description,
        needle,
    ))
}

/// Whether an entry passes the toggles and the protection filter.
pub fn filters_pass(entry: &Entry, view: &View, now: i64) -> (r: bool)
    ensures
        r == passes_filters(entry@, view@, now),
{
    if view.hide_protected && entry.facts.protected {
        return false;
    }
    let mut i: usize = 0;
    while i < view.toggles.len()
        invariant
            i <= view.toggles.len(),
            forall|j: int|
                0 <= j < i ==> passes_toggle(
                    entry@,
                    #[trigger] view.toggles@[j],
                    view.stale_days,
                    now,
                ),
        decreases view.toggles.len() - i,
    {
        if !passes(entry, view.toggles[i], view.stale_days, now) {
            assert(!passes_toggle(entry@, view@.toggles[i as int], view.stale_days, now));
            return false;
        }
        i += 1;
    }
    true
}

/// Whether one entry passes the view's filters.
pub fn matches(entry: &Entry, view: &View, now: i64) -> (r: bool)
    ensures
        r == is_shown(entry@, view@, now),
{
    if !filters_pass(entry, view, now) {
        return false;
    }
    if view.query.as_str().is_empty() {
        return true;
    }
    let needle = to_lower(view.query.as_str());
    let name = to_lower(entry.package.name.as_str());
    let description = to_lower(entry.package.description.as_str());
    search_hits(view, needle.as_str(), name.as_str(), description.as_str())
}

/// Case does not matter to a search: queries that are the same in lower case
/// show the same entries.
pub proof fn case_does_not_matter(
    entry: model::EntryView,
    view: ViewModel,
    query: Seq<char>,
    now: i64,
)
    requires
        text::lowercase(query) == text::lowercase(view.query),
        (query.len() == 0) == (view.query.len() == 0),
    ensures
        is_shown(entry, ViewModel { query, ..view }, now) == is_shown(entry, view, now),
{
    let other = ViewModel { query, ..view };
    if passes_filters(entry, view, now) {
        assert forall|i: int| 0 <= i < other.toggles.len() implies passes_toggle(
            entry,
            #[trigger] other.toggles[i],
            other.stale_days,
            now,
        ) by {
            assert(view.toggles[i] == other.toggles[i]);
        }
    }
    if passes_filters(entry, other, now) {
        assert forall|i: int| 0 <= i < view.toggles.len() implies passes_toggle(
            entry,
            #[trigger] view.toggles[i],
            view.stale_days,
            now,
        ) by {
            assert(other.toggles[i] == view.toggles[i]);
        }
    }
}

/// Descriptions count only when that is asked for.
pub proof fn descriptions_count_only_when_asked_for(
    entry: model::EntryView,
    description: Seq<char>,
    view: ViewModel,
    now: i64,
)
    requires
        !view.match_descriptions,
    ensures
        is_shown(
            model::EntryView {
                package: model::PackageView { description, ..entry.package },
                ..entry
            },
            view,
            now,
        ) == is_shown(entry, view, now),
{
    let other = model::EntryView {
        package: model::PackageView { description, ..entry.package },
        ..entry
    };
    assert forall|i: int| 0 <= i < view.toggles.len() implies passes_toggle(
        other,
        #[trigger] view.toggles[i],
        view.stale_days,
        now,
    ) == passes_toggle(entry, view.toggles[i], view.stale_days, now) by {
    }
    assert(passes_filters(other, view, now) == passes_filters(entry, view, now));
}

// ---------------------------------------------------------------------------
// Sorting
// ---------------------------------------------------------------------------

/// The timestamp of last use, the distant past where there is none.
pub open spec fn last_use(entry: model::EntryView) -> i64 {
    match entry.facts.usage.timestamp() {
        Some(at) => at,
        None => i64::MIN,
    }
}

/// The timestamp of installation, the distant past where there is none.
pub open spec fn install_time(entry: model::EntryView) -> i64 {
    match entry.package.install_date {
        Some(at) => at,
        None => i64::MIN,
    }
}

/// Whether `a` is at most `b` by a column alone.
pub open spec fn key_le(a: model::EntryView, b: model::EntryView, key: SortKey) -> bool {
    match key {
        SortKey::Name => text::text_le(a.package.name, b.package.name),
        SortKey::Size => a.package.size <= b.package.size,
        SortKey::Reclaimable => a.facts.reclaimable <= b.facts.reclaimable,
        SortKey::LastUsed => last_use(a) <= last_use(b),
        SortKey::Installed => install_time(a) <= install_time(b),
        SortKey::RequiredBy => a.facts.required_by.len() <= b.facts.required_by.len(),
    }
}

/// Whether `a` does not come behind `b` in the table: by the column in its
/// direction, and by name where the column does not decide.
pub open spec fn row_le(a: model::EntryView, b: model::EntryView, view: ViewModel) -> bool {
    let (first, second) = if view.descending {
        (b, a)
    } else {
        (a, b)
    };
    &&& key_le(first, second, view.sort)
    &&& key_le(second, first, view.sort) ==> text::text_le(a.package.name, b.package.name)
}

/// Whether `r` is the order of the table: the positions of the entries that
/// are shown, each once, in the order of the rows, and in database order where
/// even the names are the same.
pub open spec fn is_order(
    entries: Seq<model::EntryView>,
    view: ViewModel,
    now: i64,
    r: Seq<usize>,
) -> bool {
    &&& r.no_duplicates()
    &&& forall|i: usize| #[trigger]
        r.contains(i) <==> i < entries.len() && is_shown(entries[i as int], view, now)
    &&& sort::is_ascending(r, row_order(entries, view))
}

/// The order of the rows, as a relation between positions.
pub open spec fn row_order(entries: Seq<model::EntryView>, view: ViewModel) -> spec_fn(
    int,
    int,
) -> bool {
    |a: int, b: int| row_le(entries[a], entries[b], view)
}

/// The order of the table.
pub open spec fn ordering(entries: Seq<model::EntryView>, view: ViewModel, now: i64) -> Seq<usize> {
    choose|r: Seq<usize>| is_order(entries, view, now, r)
}

proof fn lemma_key_order(a: model::EntryView, b: model::EntryView, c: model::EntryView, key: SortKey)
    ensures
        key_le(a, b, key) || key_le(b, a, key),
        key_le(a, b, key) && key_le(b, c, key) ==> key_le(a, c, key),
{
    text::text_order_is_total();
}

proof fn lemma_row_order(a: model::EntryView, b: model::EntryView, c: model::EntryView, view: ViewModel)
    ensures
        row_le(a, b, view) || row_le(b, a, view),
        row_le(a, b, view) && row_le(b, c, view) ==> row_le(a, c, view),
{
    text::text_order_is_total();
    lemma_key_order(a, b, c, view.sort);
    lemma_key_order(b, c, a, view.sort);
    lemma_key_order(c, a, b, view.sort);
    lemma_key_order(c, b, a, view.sort);
    lemma_key_order(b, a, c, view.sort);
    lemma_key_order(a, c, b, view.sort);
}

/// There is only one order of the table.
pub proof fn order_is_unique(
    entries: Seq<model::EntryView>,
    view: ViewModel,
    now: i64,
    p: Seq<usize>,
    q: Seq<usize>,
)
    requires
        is_order(entries, view, now, p),
        is_order(entries, view, now, q),
    ensures
        p == q,
{
    assert forall|x: usize| p.contains(x) <==> q.contains(x) by {}
    sort::ascending_lists_agree(p, q, row_order(entries, view));
}

/// Whether `a` is at most `b` by a column alone.
fn key_at_most(a: &Entry, b: &Entry, key: SortKey) -> (r: bool)
    ensures
        r == key_le(a@, b@, key),
{
    match key {
        SortKey::Name => at_most(a.package.name.as_str(), b.package.name.as_str()),
        SortKey::Size => a.package.size <= b.package.size,
        SortKey::Reclaimable => a.facts.reclaimable <= b.facts.reclaimable,
        SortKey::LastUsed => sort_timestamp(a) <= sort_timestamp(b),
        SortKey::Installed => install_timestamp(a) <= install_timestamp(b),
        SortKey::RequiredBy => a.facts.required_by.len() <= b.facts.required_by.len(),
    }
}

/// Timestamp used when ordering by last use.
fn sort_timestamp(entry: &Entry) -> (r: i64)
    ensures
        r == last_use(entry@),
{
    match entry.facts.usage.timestamp() {
        Some(at) => at,
        None => i64::MIN,
    }
}

/// Timestamp used when ordering by installation.
fn install_timestamp(entry: &Entry) -> (r: i64)
    ensures
        r == install_time(entry@),
{
    match entry.package.install_date {
        Some(at) => at,
        None => i64::MIN,
    }
}

/// Whether one row does not come behind another.
fn row_at_most(a: &Entry, b: &Entry, view: &View) -> (r: bool)
    ensures
        r == row_le(a@, b@, view@),
{
    let (first, second) = if view.descending {
        (b, a)
    } else {
        (a, b)
    };
    key_at_most(first, second, view.sort) && (!key_at_most(second, first, view.sort) || at_most(
        a.package.name.as_str(),
        b.package.name.as_str(),
    ))
}

/// Order the indices of `entries` according to `view`.
///
/// Package name breaks every tie, so the order is total and the table never
/// reshuffles between redraws. Entries with no last-use timestamp sort as
/// oldest: they are the ones most worth looking at.
pub fn order(entries: &[Entry], view: &View, now: i64) -> (r: Vec<usize>)
    ensures
        is_order(model::entry_views(entries@), view@, now, r@),
        r@ == ordering(model::entry_views(entries@), view@, now),
{
    let ghost all = model::entry_views(entries@);
    let mut visible: Vec<usize> = Vec::new();
    let mut i: usize = 0;
    while i < entries.len()
        invariant
            i <= entries.len(),
            all == model::entry_views(entries@),
            forall|k: int| 0 <= k < visible.len() ==> #[trigger] visible@[k] < i,
            forall|a: int, b: int|
                0 <= a < b < visible.len() ==> #[trigger] visible@[a] < #[trigger] visible@[b],
            forall|k: usize| #[trigger]
                visible@.contains(k) <==> k < i && is_shown(all[k as int], view@, now),
        decreases entries.len() - i,
    {
        let ghost before = visible@;
        if matches(&entries[i], view, now) {
            visible.push(i);
        }
        proof {
            crate::sets::lemma_push_contains(before, i);
            assert forall|k: usize| #[trigger] visible@.contains(k) <==> k < i + 1 && is_shown(
                all[k as int],
                view@,
                now,
            ) by {
                assert(before.contains(k) <==> k < i && is_shown(all[k as int], view@, now));
            }
        }
        i += 1;
    }
    let ghost rows = row_order(all, view@);
    let ghost le = |a: int, b: int| rows(visible@[a] as int, visible@[b] as int);
    let n: usize = visible.len();
    proof {
        assert(sort::is_preorder(le, n as nat)) by {
            assert forall|a: int, b: int| 0 <= a < n && 0 <= b < n implies #[trigger] le(a, b)
                || #[trigger] le(b, a) by {
                lemma_row_order(
                    all[visible@[a] as int],
                    all[visible@[b] as int],
                    all[visible@[a] as int],
                    view@,
                );
            }
            assert forall|a: int, b: int, c: int|
                0 <= a < n && 0 <= b < n && 0 <= c < n && #[trigger] le(a, b) && #[trigger] le(
                    b,
                    c,
                ) implies le(a, c) by {
                lemma_row_order(
                    all[visible@[a] as int],
                    all[visible@[b] as int],
                    all[visible@[c] as int],
                    view@,
                );
            }
        }
    }
    let at_or_before = |a: usize, b: usize| -> (r: bool)
        requires
            a < n,
            b < n,
            n == visible.len(),
            forall|k: int| 0 <= k < visible.len() ==> #[trigger] visible@[k] < entries.len(),
        ensures
            r == row_le(entries@[visible@[a as int] as int]@, entries@[visible@[b as int] as int]@, view@),
        { row_at_most(&entries[visible[a]], &entries[visible[b]], view) };
    let places = sorted_positions(n, at_or_before, Ghost(le));
    let mut out: Vec<usize> = Vec::new();
    let mut k: usize = 0;
    while k < n
        invariant
            k <= n,
            n == visible.len(),
            sort::is_listing(places@, n as nat),
            out.len() == k,
            forall|j: int| 0 <= j < k ==> #[trigger] out@[j] == visible@[places@[j] as int],
        decreases n - k,
    {
        out.push(visible[places[k]]);
        k += 1;
    }
    proof {
        assert forall|x: usize| #[trigger] out@.contains(x) <==> visible@.contains(x) by {
            if out@.contains(x) {
                let j = choose|j: int| 0 <= j < out@.len() && out@[j] == x;
                assert(visible@[places@[j] as int] == x);
            }
            if visible@.contains(x) {
                let m = choose|m: int| 0 <= m < visible@.len() && visible@[m] == x;
                sort::lemma_listing_covers(places@, n as nat, m as usize);
                let j = choose|j: int| 0 <= j < places@.len() && places@[j] == m as usize;
                assert(out@[j] == x);
            }
        }
        assert forall|a: int, b: int| 0 <= a < b < out@.len() implies ({
            &&& rows(#[trigger] out@[a] as int, #[trigger] out@[b] as int)
            &&& rows(out@[b] as int, out@[a] as int) ==> out@[a] < out@[b]
        }) by {
            assert(le(places@[a] as int, places@[b] as int));
            if rows(out@[b] as int, out@[a] as int) {
                assert(le(places@[b] as int, places@[a] as int));
                assert(visible@[places@[a] as int] < visible@[places@[b] as int]);
            }
        }
        assert(out@.no_duplicates()) by {
            assert forall|a: int, b: int| 0 <= a < b < out@.len() implies out@[a] != out@[b] by {
                assert(places@[a] != places@[b]);
                if places@[a] < places@[b] {
                    assert(visible@[places@[a] as int] < visible@[places@[b] as int]);
                } else {
                    assert(visible@[places@[b] as int] < visible@[places@[a] as int]);
                }
            }
        }
        assert(is_order(all, view@, now, out@));
        order_is_unique(all, view@, now, out@, ordering(all, view@, now));
    }
    out
}

// ---------------------------------------------------------------------------
// Laws
// ---------------------------------------------------------------------------

/// Filtering only ever removes rows: what a view shows, the same view without
/// filters shows too.
pub proof fn filters_never_add_rows(
    entries: Seq<model::EntryView>,
    filtered: ViewModel,
    unfiltered: ViewModel,
    now: i64,
    some: Seq<usize>,
    all: Seq<usize>,
)
    requires
        entries.len() <= usize::MAX,
        unfiltered.shows_all(),
        is_order(entries, filtered, now, some),
        is_order(entries, unfiltered, now, all),
    ensures
        forall|i: usize| #[trigger] some.contains(i) ==> all.contains(i),
        some.len() <= all.len(),
        all.len() == entries.len(),
{
    assert forall|i: usize| #[trigger] some.contains(i) implies all.contains(i) by {}
    some.unique_seq_to_set();
    all.unique_seq_to_set();
    assert(some.to_set().subset_of(all.to_set()));
    vstd::set_lib::lemma_len_subset(some.to_set(), all.to_set());
    lemma_all_positions(all, entries.len());
}

/// A list of everything below `n`, each once, has `n` elements.
proof fn lemma_all_positions(all: Seq<usize>, n: nat)
    requires
        n <= usize::MAX,
        all.no_duplicates(),
        forall|i: usize| #[trigger] all.contains(i) <==> i < n,
    ensures
        all.len() == n,
{
    let ints = all.map_values(|x: usize| x as int);
    let range = vstd::set_lib::set_int_range(0, n as int);
    vstd::set_lib::lemma_int_range(0, n as int);
    assert(ints.no_duplicates());
    ints.unique_seq_to_set();
    assert forall|x: int| ints.to_set().contains(x) <==> range.contains(x) by {
        if ints.to_set().contains(x) {
            let k = choose|k: int| 0 <= k < ints.len() && ints[k] == x;
            assert(all.contains(all[k]));
        }
        if range.contains(x) {
            assert(all.contains(x as usize));
            let k = choose|k: int| 0 <= k < all.len() && all[k] == x as usize;
            assert(ints[k] == x);
        }
    }
    assert(ints.to_set() =~= range);
}

/// Turning a toggle over changes whether it is on, and no other toggle.
pub proof fn toggling_turns_one_over(view: ViewModel, toggle: Toggle, other: Toggle)
    requires
        view.toggles.no_duplicates(),
    ensures
        view.with_toggle(toggle).toggles.no_duplicates(),
        view.with_toggle(toggle).toggles.contains(other) == (if other == toggle {
            !view.toggles.contains(other)
        } else {
            view.toggles.contains(other)
        }),
{
    let t = view.toggles;
    let after = turned(t, toggle);
    if t.contains(toggle) {
        t.index_of_first_ensures(toggle);
        let at = t.index_of_first(toggle).unwrap();
        assert(after.no_duplicates());
        if after.contains(other) {
            let k = choose|k: int| 0 <= k < after.len() && after[k] == other;
            let m = if k < at {
                k
            } else {
                k + 1
            };
            assert(t[m] == other);
        }
        if t.contains(other) && other != toggle {
            let m = choose|m: int| 0 <= m < t.len() && t[m] == other;
            let k = if m < at {
                m
            } else {
                m - 1
            };
            assert(after[k] == other);
        }
    } else {
        crate::sets::lemma_push_contains(t, toggle);
    }
}

/// What is shown depends on which toggles are on, neither on their order nor
/// on how the table is sorted.
proof fn lemma_shown_by_members(entry: model::EntryView, a: ViewModel, b: ViewModel, now: i64)
    requires
        b == (ViewModel { toggles: b.toggles, sort: b.sort, descending: b.descending, ..a }),
        forall|t: Toggle| a.toggles.contains(t) <==> b.toggles.contains(t),
    ensures
        is_shown(entry, a, now) == is_shown(entry, b, now),
{
    if passes_filters(entry, a, now) {
        assert forall|i: int| 0 <= i < b.toggles.len() implies passes_toggle(
            entry,
            #[trigger] b.toggles[i],
            b.stale_days,
            now,
        ) by {
            assert(b.toggles.contains(b.toggles[i]));
            let k = choose|k: int| 0 <= k < a.toggles.len() && a.toggles[k] == b.toggles[i];
            assert(passes_toggle(entry, a.toggles[k], a.stale_days, now));
        }
    }
    if passes_filters(entry, b, now) {
        assert forall|i: int| 0 <= i < a.toggles.len() implies passes_toggle(
            entry,
            #[trigger] a.toggles[i],
            a.stale_days,
            now,
        ) by {
            assert(a.toggles.contains(a.toggles[i]));
            let k = choose|k: int| 0 <= k < b.toggles.len() && b.toggles[k] == a.toggles[i];
            assert(passes_toggle(entry, b.toggles[k], b.stale_days, now));
        }
    }
}

/// Turning a toggle over twice shows what was shown before.
pub proof fn toggling_twice_changes_nothing(
    entry: model::EntryView,
    view: ViewModel,
    toggle: Toggle,
    now: i64,
)
    requires
        view.toggles.no_duplicates(),
    ensures
        is_shown(entry, view.with_toggle(toggle).with_toggle(toggle), now) == is_shown(
            entry,
            view,
            now,
        ),
{
    let once = view.with_toggle(toggle);
    let twice = once.with_toggle(toggle);
    assert forall|t: Toggle| view.toggles.contains(t) <==> twice.toggles.contains(t) by {
        toggling_turns_one_over(view, toggle, t);
        toggling_turns_one_over(once, toggle, t);
    }
    lemma_shown_by_members(entry, view, twice, now);
}

/// Toggles compose with AND: with one more toggle on, an entry is shown where
/// it was shown before and passes the new one.
pub proof fn toggles_compose(entry: model::EntryView, view: ViewModel, toggle: Toggle, now: i64)
    requires
        !view.toggles.contains(toggle),
    ensures
        is_shown(entry, view.with_toggle(toggle), now) == (is_shown(entry, view, now)
            && passes_toggle(entry, toggle, view.stale_days, now)),
{
    let more = view.with_toggle(toggle);
    let n = view.toggles.len() as int;
    assert(more.toggles[n] == toggle);
    if passes_filters(entry, more, now) {
        assert(passes_toggle(entry, more.toggles[n], more.stale_days, now));
        assert forall|i: int| 0 <= i < n implies passes_toggle(
            entry,
            #[trigger] view.toggles[i],
            view.stale_days,
            now,
        ) by {
            assert(more.toggles[i] == view.toggles[i]);
        }
    }
    if passes_filters(entry, view, now) && passes_toggle(entry, toggle, view.stale_days, now) {
        assert forall|i: int| 0 <= i < more.toggles.len() implies passes_toggle(
            entry,
            #[trigger] more.toggles[i],
            more.stale_days,
            now,
        ) by {
            if i < n {
                assert(more.toggles[i] == view.toggles[i]);
            }
        }
    }
}

/// Reversing the direction reverses the table by its column: the rows at
/// mirrored places are equal by the sort key. The names that break a tie are
/// not reversed with it.
pub proof fn reversing_mirrors_the_column(
    entries: Seq<model::EntryView>,
    forward: ViewModel,
    backward: ViewModel,
    now: i64,
    p: Seq<usize>,
    q: Seq<usize>,
    k: int,
)
    requires
        backward == (ViewModel { descending: !forward.descending, ..forward }),
        is_order(entries, forward, now, p),
        is_order(entries, backward, now, q),
        0 <= k < p.len(),
    ensures
        p.len() == q.len(),
        key_le(entries[p[k] as int], entries[q[q.len() - 1 - k] as int], forward.sort),
        key_le(entries[q[q.len() - 1 - k] as int], entries[p[k] as int], forward.sort),
{
    assert forall|i: usize| p.contains(i) <==> q.contains(i) by {
        lemma_shown_by_members(entries[i as int], forward, backward, now);
    }
    p.unique_seq_to_set();
    q.unique_seq_to_set();
    assert(p.to_set() =~= q.to_set());
    let (up, down) = if forward.descending {
        (q, p)
    } else {
        (p, q)
    };
    let key = forward.sort;
    let n = p.len() as int;
    let j = if forward.descending {
        n - 1 - k
    } else {
        k
    };
    // `up` ascends by the column and `down` descends.
    assert forall|a: int, b: int| 0 <= a < b < n implies key_le(
        entries[#[trigger] up[a] as int],
        entries[#[trigger] up[b] as int],
        key,
    ) by {
        if forward.descending {
            assert(row_order(entries, backward)(q[a] as int, q[b] as int));
        } else {
            assert(row_order(entries, forward)(p[a] as int, p[b] as int));
        }
    }
    assert forall|a: int, b: int| 0 <= a < b < n implies key_le(
        entries[#[trigger] down[b] as int],
        entries[#[trigger] down[a] as int],
        key,
    ) by {
        if forward.descending {
            assert(row_order(entries, forward)(p[a] as int, p[b] as int));
        } else {
            assert(row_order(entries, backward)(q[a] as int, q[b] as int));
        }
    }
    lemma_mirrored(entries, key, up, down, j);
}

/// A list that ascends by a column and one of the same rows that descends have
/// equal keys at mirrored places.
proof fn lemma_mirrored(
    entries: Seq<model::EntryView>,
    key: SortKey,
    up: Seq<usize>,
    down: Seq<usize>,
    j: int,
)
    requires
        up.no_duplicates(),
        down.no_duplicates(),
        up.len() == down.len(),
        forall|x: usize| up.contains(x) <==> down.contains(x),
        0 <= j < up.len(),
        forall|a: int, b: int|
            0 <= a < b < up.len() ==> key_le(
                entries[#[trigger] up[a] as int],
                entries[#[trigger] up[b] as int],
                key,
            ),
        forall|a: int, b: int|
            0 <= a < b < up.len() ==> key_le(
                entries[#[trigger] down[b] as int],
                entries[#[trigger] down[a] as int],
                key,
            ),
    ensures
        key_le(entries[up[j] as int], entries[down[down.len() - 1 - j] as int], key),
        key_le(entries[down[down.len() - 1 - j] as int], entries[up[j] as int], key),
{
    // Were the first `j + 1` rows of `up` all below row `m` of `down`, they
    // would stand behind it, where there is room for `j` only.
    lemma_too_many(entries, key, up, down, j, up.len() - 1 - j);
    // Were the rows of `up` from place `j` on all above it, they would stand
    // before it: one too many again.
    lemma_too_many_above(entries, key, up, down, j, up.len() - 1 - j);
}

/// No row of a descending list is above its mirror in an ascending one.
proof fn lemma_too_many(
    entries: Seq<model::EntryView>,
    key: SortKey,
    up: Seq<usize>,
    down: Seq<usize>,
    j: int,
    m: int,
)
    requires
        up.no_duplicates(),
        down.no_duplicates(),
        up.len() == down.len(),
        forall|x: usize| up.contains(x) <==> down.contains(x),
        0 <= j < up.len(),
        m == up.len() - 1 - j,
        forall|a: int, b: int|
            0 <= a < b < up.len() ==> key_le(
                entries[#[trigger] up[a] as int],
                entries[#[trigger] up[b] as int],
                key,
            ),
        forall|a: int, b: int|
            0 <= a < b < up.len() ==> key_le(
                entries[#[trigger] down[b] as int],
                entries[#[trigger] down[a] as int],
                key,
            ),
    ensures
        key_le(entries[down[m] as int], entries[up[j] as int], key),
{
    let low = up.take(j + 1);
    let tail = down.skip(m + 1);
    if !key_le(entries[down[m] as int], entries[up[j] as int], key) {
        low.unique_seq_to_set();
        tail.unique_seq_to_set();
        assert(low.to_set().subset_of(tail.to_set())) by {
            assert forall|r: usize| low.to_set().contains(r) implies tail.to_set().contains(r) by {
                let a = choose|a: int| 0 <= a < low.len() && low[a] == r;
                assert(up[a] == r);
                assert(down.contains(r));
                let b = choose|b: int| 0 <= b < down.len() && down[b] == r;
                if b <= m && !key_le(entries[down[m] as int], entries[up[j] as int], key) {
                    // Then the row is at least `down[m]`, but it is at most `up[j]`.
                    let e = entries[r as int];
                    lemma_key_order(entries[down[m] as int], e, entries[up[j] as int], key);
                    lemma_key_order(e, e, e, key);
                    if a < j {
                        assert(key_le(entries[up[a] as int], entries[up[j] as int], key));
                    }
                    if b < m {
                        assert(key_le(entries[down[m] as int], entries[down[b] as int], key));
                    }
                }
                assert(tail[b - m - 1] == r);
            }
        }
        vstd::set_lib::lemma_len_subset(low.to_set(), tail.to_set());
    }
}

/// No row of a descending list is below its mirror in an ascending one.
proof fn lemma_too_many_above(
    entries: Seq<model::EntryView>,
    key: SortKey,
    up: Seq<usize>,
    down: Seq<usize>,
    j: int,
    m: int,
)
    requires
        up.no_duplicates(),
        down.no_duplicates(),
        up.len() == down.len(),
        forall|x: usize| up.contains(x) <==> down.contains(x),
        0 <= j < up.len(),
        m == up.len() - 1 - j,
        forall|a: int, b: int|
            0 <= a < b < up.len() ==> key_le(
                entries[#[trigger] up[a] as int],
                entries[#[trigger] up[b] as int],
                key,
            ),
        forall|a: int, b: int|
            0 <= a < b < up.len() ==> key_le(
                entries[#[trigger] down[b] as int],
                entries[#[trigger] down[a] as int],
                key,
            ),
    ensures
        key_le(entries[up[j] as int], entries[down[m] as int], key),
{
    let high = up.skip(j);
    let head = down.take(m);
    if !key_le(entries[up[j] as int], entries[down[m] as int], key) {
        high.unique_seq_to_set();
        head.unique_seq_to_set();
        assert(high.to_set().subset_of(head.to_set())) by {
            assert forall|r: usize| high.to_set().contains(r) implies head.to_set().contains(r) by {
                let a = choose|a: int| 0 <= a < high.len() && high[a] == r;
                assert(up[a + j] == r);
                assert(down.contains(r));
                let b = choose|b: int| 0 <= b < down.len() && down[b] == r;
                if b >= m {
                    let e = entries[r as int];
                    lemma_key_order(entries[up[j] as int], e, entries[down[m] as int], key);
                    lemma_key_order(e, e, e, key);
                    if a > 0 {
                        assert(key_le(entries[up[j] as int], entries[up[a + j] as int], key));
                    }
                    if b > m {
                        assert(key_le(entries[down[b] as int], entries[down[m] as int], key));
                    }
                }
                assert(head[b] == r);
            }
        }
        vstd::set_lib::lemma_len_subset(high.to_set(), head.to_set());
    }
}

} // verus!
