//! What calls give back.
use vstd::prelude::*;

use crate::capability;
use crate::capability::{NewestWalk, SuffixWalk};
use crate::cli;
use crate::filter;
use crate::filter::SortKey;
use crate::janitor::Command;
use crate::model::{AtimeSupport, Facts, Origin, UsageEvidence, UsageView};
use crate::plan::Plan;
use crate::session;
use crate::text;
use crate::ui;
use crate::web;
use crate::web::{Canned, Route};

verus! {

/// A page has a row at least, and leaves three rows of the table to its frame
/// where that is possible.
pub proof fn pages_have_a_row(height: u16, rows: usize)
    requires
        call_ensures(ui::page_rows, (height,), rows),
    ensures
        rows >= 1,
        height > 4 ==> rows + 3 == height,
        height <= 4 ==> rows == 1,
{
}

/// A package is an orphan where nothing needs it, and an optional one where
/// something would like it all the same.
pub proof fn orphans_are_needed_by_nothing(facts: &Facts, orphan: bool, optional: bool)
    requires
        call_ensures(Facts::is_orphan, (facts,), orphan),
        call_ensures(Facts::is_optional_orphan, (facts,), optional),
    ensures
        orphan <==> facts@.required_by.len() == 0,
        optional ==> orphan,
        optional <==> orphan && facts@.optional_for.len() > 0,
{
}

/// A dry run asks pacman to print what it would do with the packages that were
/// marked, and needs no root for that.
pub proof fn dry_runs_only_print(plan: &Plan, full: Command, dry: Command)
    requires
        call_ensures(Plan::command, (plan,), full),
        call_ensures(Plan::dry_run_command, (plan,), dry),
    ensures
        dry@.program == full@.program,
        dry@.args.len() == full@.args.len() + 1,
        dry@.args[0] == full@.args[0],
        dry@.args[1] == "--print"@,
        forall|i: int| 1 <= i < full@.args.len() ==> #[trigger] full@.args[i] == dry@.args[i + 1],
        full@.needs_root,
        !dry@.needs_root,
{
}

/// Everything that a plan removes is what was marked and what goes along.
pub proof fn plans_remove_both_lists(plan: &Plan, all: Vec<String>, name: Seq<char>)
    requires
        call_ensures(Plan::all_removed, (plan,), all),
    ensures
        text::texts(all@).len() == plan@.selected.len() + plan@.cascade.len(),
        text::texts(all@).contains(name) <==> plan@.selected.contains(name)
            || plan@.cascade.contains(name),
{
    let a = plan@.selected;
    let b = plan@.cascade;
    let both = a + b;
    if a.contains(name) {
        let i = choose|i: int| 0 <= i < a.len() && a[i] == name;
        assert(both[i] == name);
    }
    if b.contains(name) {
        let i = choose|i: int| 0 <= i < b.len() && b[i] == name;
        assert(both[a.len() + i] == name);
    }
    if both.contains(name) {
        let i = choose|i: int| 0 <= i < both.len() && both[i] == name;
        if i >= a.len() {
            assert(b[i - a.len()] == name);
        }
    }
}

/// Access times mean something unless they are frozen, and a package was not
/// used where none of its files was read since it was installed.
pub proof fn frozen_times_mean_nothing(
    support: AtimeSupport,
    meaningful: bool,
    usage: &UsageEvidence,
    unused: bool,
    origin: &Origin,
    foreign: bool,
)
    requires
        call_ensures(AtimeSupport::is_meaningful, (support,), meaningful),
        call_ensures(UsageEvidence::is_unused, (usage,), unused),
        call_ensures(Origin::is_foreign, (origin,), foreign),
    ensures
        support == AtimeSupport::Disabled ==> !meaningful,
        support == AtimeSupport::Relatime || support == AtimeSupport::Strict || support
            == AtimeSupport::Unknown ==> meaningful,
        usage@ matches UsageView::NeverSinceInstall { .. } ==> unused,
        usage@ is Used || usage@ is UsedFromHome || usage@ is NoWitness || usage@ is AtimeDisabled
            || usage@ is NotProbed ==> !unused,
        foreign <==> *origin is Foreign,
{
}

/// The table starts with the largest packages on top, shows all of them, and
/// calls stale what the options say, by default half a year.
pub proof fn tables_start_with_the_largest(
    options: &cli::Options,
    given: filter::View,
    usual: filter::View,
)
    requires
        call_ensures(session::view_for, (options,), given),
        call_ensures(<filter::View as Default>::default, (), usual),
    ensures
        given@.shows_all(),
        usual@.shows_all(),
        given@.sort == SortKey::Size && given@.descending,
        usual@.sort == SortKey::Size && usual@.descending,
        !given@.match_descriptions && !usual@.match_descriptions,
        given@.stale_days == options@.stale_days,
        usual@.stale_days == 180,
{
}

/// Every page but the inventory is ready made, with the status and the type
/// that belong to it.
pub proof fn pages_are_ready_made(route: Route, canned: Option<Canned>)
    requires
        call_ensures(web::canned, (route,), canned),
    ensures
        route == Route::Inventory <==> canned is None,
        canned matches Some(page) ==> {
            &&& route == Route::NotFound ==> page.status@ == "404 Not Found"@
            &&& route == Route::BadRequest ==> page.status@ == "400 Bad Request"@
            &&& route == Route::Forbidden ==> page.status@ == "403 Forbidden"@
            &&& route == Route::Index || route == Route::Style || route == Route::Script
                ==> page.status@ == "200 OK"@
            &&& route == Route::Index ==> page.content_type@ == "text/html; charset=utf-8"@
            &&& route == Route::Style ==> page.content_type@ == "text/css; charset=utf-8"@
            &&& route == Route::Script ==> page.content_type@ == "text/javascript; charset=utf-8"@
            &&& route == Route::NotFound || route == Route::BadRequest || route == Route::Forbidden
                ==> page.content_type@ == "text/plain; charset=utf-8"@
        },
{
}

/// Moments before the epoch, and those too far off to be counted, are taken as
/// the epoch.
pub proof fn moments_are_counted_in_seconds(elapsed: Option<u64>, at: i64)
    requires
        call_ensures(capability::timestamp, (elapsed,), at),
    ensures
        at >= 0,
        elapsed matches Some(seconds) ==> seconds <= i64::MAX ==> at == seconds,
        elapsed is None ==> at == 0,
{
}

/// A walk for the latest modification begins with that of the directory
/// itself, and a walk for endings with nothing.
pub proof fn walks_begin_at_their_root(
    root: &str,
    mtime: Option<i64>,
    budget: usize,
    newest: NewestWalk,
    suffixes: &Vec<String>,
    files: SuffixWalk,
)
    requires
        call_ensures(NewestWalk::new, (root, mtime, budget), newest),
        call_ensures(SuffixWalk::new, (suffixes, budget), files),
    ensures
        newest@.visited == 0 && files@.visited == 0,
        newest@.budget == budget && files@.budget == budget,
        mtime is None ==> newest@.best is None,
        mtime matches Some(at) ==> newest@.best == Some((at, root@)),
        files@.found.len() == 0,
        files@.suffixes == text::texts(suffixes@),
{
}

} // verus!
