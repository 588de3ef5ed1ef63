//! Which packages the table shows, and in what order.
use vstd::prelude::*;

use crate::filter;
use crate::filter::{SortKey, Toggle, ViewModel};
use crate::model;
use crate::model::{EntryView, InstallReason, UsageView};
use crate::text;

verus! {

/// When an entry was last used, as far as that is known.
pub open spec fn seen_at(entry: EntryView) -> Option<i64> {
    match entry.facts.usage {
        UsageView::Used { at, witness: _ } => Some(at),
        UsageView::UsedFromHome { at, witness: _ } => Some(at),
        UsageView::NeverSinceInstall { at } => Some(at),
        UsageView::NoWitness => None,
        UsageView::AtimeDisabled => None,
        UsageView::NotProbed => None,
    }
}

/// Whether a time is no later than another, where an unknown one is earliest.
pub open spec fn no_later(a: Option<i64>, b: Option<i64>) -> bool {
    match (a, b) {
        (Some(x), Some(y)) => x <= y,
        (None, _) => true,
        (Some(x), None) => x == i64::MIN,
    }
}

proof fn lemma_rows(
    entries: Seq<EntryView>,
    view: ViewModel,
    now: i64,
    r: Seq<usize>,
    i: int,
    j: int,
)
    requires
        filter::is_order(entries, view, now, r),
        0 <= i < j < r.len(),
    ensures
        filter::row_le(entries[r[i] as int], entries[r[j] as int], view),
        r[i] < entries.len(),
        r[j] < entries.len(),
{
    assert(r.contains(r[i]) && r.contains(r[j]));
    assert(filter::row_order(entries, view)(r[i] as int, r[j] as int));
}

/// Sorted by what removing them frees, the package that frees more comes first,
/// or last where the order runs upwards.
pub proof fn rows_go_by_what_they_free(
    entries: Seq<EntryView>,
    view: ViewModel,
    now: i64,
    r: Seq<usize>,
    i: int,
    j: int,
)
    requires
        filter::is_order(entries, view, now, r),
        view.sort == SortKey::Reclaimable,
        0 <= i < j < r.len(),
    ensures
        view.descending ==> entries[r[i] as int].facts.reclaimable
            >= entries[r[j] as int].facts.reclaimable,
        !view.descending ==> entries[r[i] as int].facts.reclaimable
            <= entries[r[j] as int].facts.reclaimable,
{
    lemma_rows(entries, view, now, r, i, j);
}

/// Sorted by size, the larger package comes first, or last where the order
/// runs upwards.
pub proof fn rows_go_by_size(
    entries: Seq<EntryView>,
    view: ViewModel,
    now: i64,
    r: Seq<usize>,
    i: int,
    j: int,
)
    requires
        filter::is_order(entries, view, now, r),
        view.sort == SortKey::Size,
        0 <= i < j < r.len(),
    ensures
        view.descending ==> entries[r[i] as int].package.size >= entries[r[j] as int].package.size,
        !view.descending ==> entries[r[i] as int].package.size <= entries[r[j] as int].package.size,
{
    lemma_rows(entries, view, now, r, i, j);
}

/// Sorted by name, names ascend, or descend where the order runs downwards.
pub proof fn rows_go_by_name(
    entries: Seq<EntryView>,
    view: ViewModel,
    now: i64,
    r: Seq<usize>,
    i: int,
    j: int,
)
    requires
        filter::is_order(entries, view, now, r),
        view.sort == SortKey::Name,
        0 <= i < j < r.len(),
    ensures
        view.descending ==> text::text_le(
            entries[r[j] as int].package.name,
            entries[r[i] as int].package.name,
        ),
        !view.descending ==> text::text_le(
            entries[r[i] as int].package.name,
            entries[r[j] as int].package.name,
        ),
{
    lemma_rows(entries, view, now, r, i, j);
}

/// Sorted by last use, the package used longer ago comes first, and one of
/// which nothing is known before all others, or the other way round where the
/// order runs downwards.
pub proof fn rows_go_by_last_use(
    entries: Seq<EntryView>,
    view: ViewModel,
    now: i64,
    r: Seq<usize>,
    i: int,
    j: int,
)
    requires
        filter::is_order(entries, view, now, r),
        view.sort == SortKey::LastUsed,
        0 <= i < j < r.len(),
    ensures
        view.descending ==> no_later(seen_at(entries[r[j] as int]), seen_at(entries[r[i] as int])),
        !view.descending ==> no_later(seen_at(entries[r[i] as int]), seen_at(entries[r[j] as int])),
{
    lemma_rows(entries, view, now, r, i, j);
}

/// Sorted by installation, the package installed earlier comes first, and one
/// without a date before all others, or the other way round where the order
/// runs downwards.
pub proof fn rows_go_by_installation(
    entries: Seq<EntryView>,
    view: ViewModel,
    now: i64,
    r: Seq<usize>,
    i: int,
    j: int,
)
    requires
        filter::is_order(entries, view, now, r),
        view.sort == SortKey::Installed,
        0 <= i < j < r.len(),
    ensures
        view.descending ==> no_later(
            entries[r[j] as int].package.install_date,
            entries[r[i] as int].package.install_date,
        ),
        !view.descending ==> no_later(
            entries[r[i] as int].package.install_date,
            entries[r[j] as int].package.install_date,
        ),
{
    lemma_rows(entries, view, now, r, i, j);
}

/// Sorted by how many packages need it, the one that more need comes first, or
/// last where the order runs upwards.
pub proof fn rows_go_by_their_dependants(
    entries: Seq<EntryView>,
    view: ViewModel,
    now: i64,
    r: Seq<usize>,
    i: int,
    j: int,
)
    requires
        filter::is_order(entries, view, now, r),
        view.sort == SortKey::RequiredBy,
        0 <= i < j < r.len(),
    ensures
        view.descending ==> entries[r[i] as int].facts.required_by.len()
            >= entries[r[j] as int].facts.required_by.len(),
        !view.descending ==> entries[r[i] as int].facts.required_by.len()
            <= entries[r[j] as int].facts.required_by.len(),
{
    lemma_rows(entries, view, now, r, i, j);
}

/// Rows that agree in the column stand by name, whichever way the order runs.
pub proof fn names_break_ties(
    entries: Seq<EntryView>,
    view: ViewModel,
    now: i64,
    r: Seq<usize>,
    i: int,
    j: int,
)
    requires
        filter::is_order(entries, view, now, r),
        0 <= i < j < r.len(),
        ({
            let (a, b) = (entries[r[i] as int], entries[r[j] as int]);
            match view.sort {
                SortKey::Name => a.package.name == b.package.name,
                SortKey::Size => a.package.size == b.package.size,
                SortKey::Reclaimable => a.facts.reclaimable == b.facts.reclaimable,
                SortKey::LastUsed => seen_at(a) == seen_at(b),
                SortKey::Installed => a.package.install_date == b.package.install_date,
                SortKey::RequiredBy => a.facts.required_by.len() == b.facts.required_by.len(),
            }
        }),
    ensures
        text::text_le(entries[r[i] as int].package.name, entries[r[j] as int].package.name),
{
    text::text_order_is_total();
    lemma_rows(entries, view, now, r, i, j);
}

/// Whether an entry belongs to what a filter is for.
pub open spec fn fits(entry: EntryView, toggle: Toggle, stale_days: i64, now: i64) -> bool {
    match toggle {
        // Installed as a dependency, and nothing requires it.
        Toggle::Orphans => entry.package.reason == InstallReason::Dependency
            && entry.facts.required_by == Seq::<Seq<char>>::empty(),
        // In no repository.
        Toggle::Foreign => entry.facts.origin == model::OriginView::Foreign,
        Toggle::Explicit => entry.package.reason == InstallReason::Explicit,
        // Nothing was read since the installation.
        Toggle::NeverUsed => exists|at: i64|
            entry.facts.usage == (UsageView::NeverSinceInstall { at }),
        // The last read is that many whole days ago, or more.
        Toggle::Stale => match seen_at(entry) {
            Some(at) => if now < at {
                stale_days <= 0
            } else {
                now - at >= stale_days * 86_400
            },
            None => false,
        },
    }
}

proof fn lemma_fits(entry: EntryView, toggle: Toggle, stale_days: i64, now: i64)
    ensures
        filter::passes_toggle(entry, toggle, stale_days, now) == fits(
            entry,
            toggle,
            stale_days,
            now,
        ),
{
    match toggle {
        Toggle::Orphans => {
            if entry.facts.required_by.len() == 0 {
                assert(entry.facts.required_by =~= Seq::<Seq<char>>::empty());
            }
        },
        Toggle::NeverUsed => {
            if let UsageView::NeverSinceInstall { at } = entry.facts.usage {
                assert(entry.facts.usage == (UsageView::NeverSinceInstall { at }));
            }
        },
        Toggle::Stale => {
            if let Some(at) = seen_at(entry) {
                let elapsed = now - at;
                if elapsed >= 0 {
                    assert((elapsed / 86_400 >= stale_days) == (elapsed >= stale_days * 86_400));
                }
            }
        },
        _ => {},
    }
}

/// Without a search, the table lists a package exactly where it fits every
/// filter that is on, and is not protected where protected ones are hidden.
pub proof fn rows_fit_every_filter(
    entries: Seq<EntryView>,
    view: ViewModel,
    now: i64,
    r: Seq<usize>,
    i: usize,
)
    requires
        filter::is_order(entries, view, now, r),
        view.query.len() == 0,
        i < entries.len(),
    ensures
        r.contains(i) <==> {
            &&& !(view.hide_protected && entries[i as int].facts.protected)
            &&& forall|toggle: Toggle| #[trigger]
                view.toggles.contains(toggle) ==> fits(
                    entries[i as int],
                    toggle,
                    view.stale_days,
                    now,
                )
        },
{
    let entry = entries[i as int];
    assert forall|toggle: Toggle| #[trigger] filter::passes_toggle(
        entry,
        toggle,
        view.stale_days,
        now,
    ) == fits(entry, toggle, view.stale_days, now) by {
        lemma_fits(entry, toggle, view.stale_days, now);
    }
    if forall|toggle: Toggle| #[trigger]
        view.toggles.contains(toggle) ==> fits(entry, toggle, view.stale_days, now) {
        assert forall|k: int| 0 <= k < view.toggles.len() implies filter::passes_toggle(
            entry,
            #[trigger] view.toggles[k],
            view.stale_days,
            now,
        ) by {
            assert(view.toggles.contains(view.toggles[k]));
        }
    }
    if r.contains(i) {
        assert forall|toggle: Toggle| #[trigger] view.toggles.contains(toggle) implies fits(
            entry,
            toggle,
            view.stale_days,
            now,
        ) by {
            let k = choose|k: int| 0 <= k < view.toggles.len() && view.toggles[k] == toggle;
            assert(filter::passes_toggle(entry, view.toggles[k], view.stale_days, now));
        }
    }
}

/// Whether a text holds another one somewhere, whatever the case of their
/// letters.
pub open spec fn mentions(s: Seq<char>, part: Seq<char>) -> bool {
    exists|before: Seq<char>, after: Seq<char>|
        text::lowercase(s) == #[trigger] (before + text::lowercase(part) + after)
}

proof fn lemma_mentions(s: Seq<char>, part: Seq<char>)
    ensures
        mentions(s, part) == text::occurs(text::lowercase(s), text::lowercase(part)),
{
    let whole = text::lowercase(s);
    let piece = text::lowercase(part);
    if text::occurs(whole, piece) {
        let i = choose|i: int| #[trigger] text::occurs_at(whole, piece, i);
        let before = whole.take(i);
        let after = whole.skip(i + piece.len());
        assert(whole =~= before + piece + after);
    }
    if mentions(s, part) {
        let (before, after) = choose|before: Seq<char>, after: Seq<char>|
            whole == #[trigger] (before + piece + after);
        let i = before.len() as int;
        assert(whole.subrange(i, i + piece.len()) =~= piece);
        assert(text::occurs_at(whole, piece, i));
    }
}

/// A search narrows the table to the packages whose name mentions the query,
/// and to those whose description does where descriptions are searched too. It
/// neither adds a row that the filters leave out nor drops another one.
pub proof fn a_search_goes_by_name(entry: EntryView, view: ViewModel, now: i64)
    requires
        view.query.len() > 0,
    ensures
        filter::is_shown(entry, view, now) <==> {
            &&& filter::is_shown(entry, ViewModel { query: Seq::empty(), ..view }, now)
            &&& mentions(entry.package.name, view.query) || (view.match_descriptions && mentions(
                entry.package.description,
                view.query,
            ))
        },
{
    lemma_mentions(entry.package.name, view.query);
    lemma_mentions(entry.package.description, view.query);
    let open = ViewModel { query: Seq::empty(), ..view };
    if filter::passes_filters(entry, open, now) {
        assert forall|k: int| 0 <= k < view.toggles.len() implies filter::passes_toggle(
            entry,
            #[trigger] view.toggles[k],
            view.stale_days,
            now,
        ) by {
            assert(open.toggles[k] == view.toggles[k]);
        }
    }
    if filter::passes_filters(entry, view, now) {
        assert forall|k: int| 0 <= k < open.toggles.len() implies filter::passes_toggle(
            entry,
            #[trigger] open.toggles[k],
            open.stale_days,
            now,
        ) by {
            assert(open.toggles[k] == view.toggles[k]);
        }
    }
}

/// The table lists each package that is shown once, and nothing else.
pub proof fn rows_are_the_packages_shown(
    entries: Seq<EntryView>,
    view: ViewModel,
    now: i64,
    r: Seq<usize>,
    i: usize,
)
    requires
        filter::is_order(entries, view, now, r),
    ensures
        r.contains(i) <==> i < entries.len() && filter::is_shown(entries[i as int], view, now),
        r.no_duplicates(),
{
}

/// Choosing another column turns the order the way that reads best: downwards
/// for sizes and counts, upwards for names and dates. Choosing the same column
/// again turns it round. The filters and the search stay as they are.
pub proof fn columns_start_the_natural_way(view: ViewModel, key: SortKey)
    ensures
        ({
            let sorted = view.sorted_by(key);
            &&& sorted.sort == key
            &&& view.sort == key ==> sorted.descending == !view.descending
            &&& view.sort != key ==> (sorted.descending <==> key == SortKey::Size || key
                == SortKey::Reclaimable || key == SortKey::RequiredBy)
            &&& sorted.query == view.query
            &&& sorted.toggles == view.toggles
            &&& sorted.match_descriptions == view.match_descriptions
            &&& sorted.stale_days == view.stale_days
            &&& sorted.hide_protected == view.hide_protected
        }),
{
}

/// Turning a filter on or off changes nothing else of the view.
pub proof fn filters_change_nothing_else(view: ViewModel, toggle: Toggle)
    ensures
        ({
            let turned = view.with_toggle(toggle);
            &&& turned.query == view.query
            &&& turned.sort == view.sort
            &&& turned.descending == view.descending
            &&& turned.match_descriptions == view.match_descriptions
            &&& turned.stale_days == view.stale_days
            &&& turned.hide_protected == view.hide_protected
            &&& !view.toggles.contains(toggle) ==> turned.toggles == view.toggles.push(toggle)
        }),
{
}

} // verus!
