//! What the operations at the centre hold to, call by call.
use std::collections::BTreeSet;
use vstd::prelude::*;

use crate::filter;
use crate::filter::SortKey;
use crate::graph;
use crate::graph::Graph;
use crate::janitor;
use crate::janitor::{CachePlan, CachedArchive};
use crate::laws::cache;
use crate::laws::dependencies;
use crate::laws::evidence;
use crate::laws::removal;
use crate::laws::table;
use crate::model;
use crate::model::{Entry, InstallReason};
use crate::text;
use crate::textmap;
use crate::textmap::TextMap;
use crate::usage;

verus! {

/// What a cascade gives back holds what was asked for, and an unprotected
/// dependency of its members exactly where nothing outside needs it, whoever
/// lists it as optional.
pub proof fn cascades_take_what_nothing_else_needs(
    graph: &Graph<'_>,
    seed: &BTreeSet<usize>,
    gone: BTreeSet<usize>,
    c: usize,
    p: usize,
)
    requires
        call_ensures(Graph::cascade, (graph, seed), gone),
        gone@.contains(p),
        graph::needs(graph.view_packages(), p, c),
        c < graph.view_packages().len(),
        graph.view_packages()[c as int].reason == InstallReason::Dependency,
        !graph::is_guarded(graph.view_packages(), c),
        !seed@.contains(c),
    ensures
        seed@.subset_of(gone@),
        gone@.contains(c) <==> forall|q: usize| #[trigger]
            graph::needs(graph.view_packages(), q, c) ==> gone@.contains(q),
{
    let ps = graph.view_packages();
    graph::removal_contains_its_seed(ps, seed@);
    if gone@.contains(c) {
        removal::what_goes_along_is_needed_by_nothing_left(ps, seed@, c);
    }
    if forall|q: usize| #[trigger] graph::needs(ps, q, c) ==> gone@.contains(q) {
        removal::removals_leave_no_leftover(ps, seed@, c, p);
    }
}

/// A cascade gives back no more than follows: nothing explicit, nothing
/// protected, and nothing outside a complete removal.
pub proof fn cascades_take_no_more(
    graph: &Graph<'_>,
    seed: &BTreeSet<usize>,
    gone: BTreeSet<usize>,
    complete: Set<usize>,
    c: usize,
)
    requires
        call_ensures(Graph::cascade, (graph, seed), gone),
        seed@.subset_of(complete),
        removal::leaves_no_leftover(graph.view_packages(), complete),
        gone@.contains(c),
    ensures
        complete.contains(c),
        !seed@.contains(c) ==> graph.view_packages()[c as int].reason == InstallReason::Dependency
            && !graph::is_guarded(graph.view_packages(), c),
{
    let ps = graph.view_packages();
    removal::removals_take_no_more_than_follows(ps, seed@, complete);
    if !seed@.contains(c) {
        removal::what_goes_along_is_needed_by_nothing_left(ps, seed@, c);
    }
}

/// Optional dependencies keep nothing: two graphs whose packages differ in them
/// alone lose the same packages.
pub proof fn cascades_ignore_optional_dependencies(
    with: &Graph<'_>,
    without: &Graph<'_>,
    seed: &BTreeSet<usize>,
    first: BTreeSet<usize>,
    second: BTreeSet<usize>,
)
    requires
        call_ensures(Graph::cascade, (with, seed), first),
        call_ensures(Graph::cascade, (without, seed), second),
        with.view_packages().len() == without.view_packages().len(),
        forall|k: int|
            #![trigger with.view_packages()[k]]
            #![trigger without.view_packages()[k]]
            0 <= k < with.view_packages().len() ==> with.view_packages()[k] == (model::PackageView {
                optdepends: with.view_packages()[k].optdepends,
                ..without.view_packages()[k]
            }),
    ensures
        first@ == second@,
{
    removal::optional_dependencies_keep_nothing(
        with.view_packages(),
        without.view_packages(),
        seed@,
    );
}

/// A package that provides a name, with a version or without, is required by
/// every package that depends on the name, where no package bears it.
pub proof fn providers_are_required(
    graph: &Graph<'_>,
    j: usize,
    names: Vec<String>,
    i: usize,
    name: Seq<char>,
    version: Seq<char>,
    constraint: Seq<char>,
)
    requires
        call_ensures(Graph::required_by, (graph, j), names),
        graph.view_packages().len() <= usize::MAX,
        i < graph.view_packages().len(),
        j < graph.view_packages().len(),
        i != j,
        dependencies::is_name(name),
        dependencies::is_behind(version),
        dependencies::is_behind(constraint),
        graph.view_packages()[j as int].provides.contains(name + version),
        graph.view_packages()[i as int].depends.contains(name + constraint),
        forall|k: int|
            0 <= k < graph.view_packages().len() ==> (#[trigger] graph.view_packages()[k]).name
                != name,
    ensures
        text::texts(names@).contains(graph.view_packages()[i as int].name),
{
    dependencies::providers_are_no_orphans(
        graph.view_packages(),
        i,
        j,
        name,
        version,
        constraint,
    );
}

/// The tier of a path goes by where it lies: nothing for what is read without
/// being used, then executables, libraries, data and the rest.
pub proof fn tiers_go_by_the_place(path: &str, tier: Option<usize>)
    requires
        call_ensures(usage::witness_tier, (path,), tier),
    ensures
        tier is None <==> evidence::says_nothing(path@),
        tier == Some(0usize) <==> !evidence::says_nothing(path@) && evidence::runs(path@),
        tier == Some(1usize) <==> !evidence::says_nothing(path@) && !evidence::runs(path@)
            && evidence::is_linked(path@),
        tier == Some(2usize) <==> !evidence::says_nothing(path@) && !evidence::runs(path@)
            && !evidence::is_linked(path@) && evidence::is_read(path@),
        tier matches Some(n) ==> n <= 3,
{
    evidence::executables_come_first(path@);
    evidence::weaker_evidence_comes_behind(path@);
    evidence::noise_is_no_evidence(path@);
}

/// An archive that a plan for the cache calls superseded is older than the
/// versions that are kept in its place, whatever their version strings say.
pub proof fn superseded_archives_are_older(
    archives: &[CachedArchive],
    installed: &TextMap<String>,
    keep: usize,
    plan: CachePlan,
    i: int,
)
    requires
        call_ensures(janitor::plan_cache, (archives, installed, keep), plan),
        archives@.len() <= usize::MAX,
        cache::lie_apart(janitor::archive_views(archives@)),
        0 <= i < archives@.len(),
        plan@.superseded.contains(archives@[i]@.path),
    ensures
        installed@.contains_key(archives@[i]@.name),
        installed@[archives@[i]@.name]@ != archives@[i]@.version,
        exists|kept: Seq<Seq<char>>|
            {
                &&& kept.len() == keep
                &&& #[trigger] kept.no_duplicates()
                &&& !kept.contains(archives@[i]@.version)
                &&& !kept.contains(installed@[archives@[i]@.name]@)
                &&& forall|v: Seq<char>| #[trigger]
                    kept.contains(v) ==> cache::is_on_disk_since(
                        janitor::archive_views(archives@),
                        archives@[i]@.name,
                        v,
                        archives@[i]@.mtime,
                    )
            },
{
    let all = janitor::archive_views(archives@);
    let have = textmap::text_values(installed@);
    assert(all[i] == archives@[i]@);
    cache::the_newest_versions_are_kept(all, have, keep, i);
}

/// The rows that a view gives back follow its column, and hold each package that
/// is shown once.
pub proof fn rows_follow_their_column(
    entries: &[Entry],
    view: &filter::View,
    now: i64,
    rows: Vec<usize>,
    i: int,
    j: int,
)
    requires
        call_ensures(filter::order, (entries, view, now), rows),
        0 <= i < j < rows@.len(),
    ensures
        rows@[i] != rows@[j],
        rows@[i] < entries@.len() && rows@[j] < entries@.len(),
        ({
            let above = entries@[rows@[i] as int]@;
            let below = entries@[rows@[j] as int]@;
            let (less, more) = if view@.descending {
                (below, above)
            } else {
                (above, below)
            };
            &&& view@.sort == SortKey::Name ==> text::text_le(less.package.name, more.package.name)
            &&& view@.sort == SortKey::Size ==> less.package.size <= more.package.size
            &&& view@.sort == SortKey::Reclaimable ==> less.facts.reclaimable
                <= more.facts.reclaimable
            &&& view@.sort == SortKey::LastUsed ==> table::no_later(
                table::seen_at(less),
                table::seen_at(more),
            )
            &&& view@.sort == SortKey::Installed ==> table::no_later(
                less.package.install_date,
                more.package.install_date,
            )
            &&& view@.sort == SortKey::RequiredBy ==> less.facts.required_by.len()
                <= more.facts.required_by.len()
        }),
{
    let all = model::entry_views(entries@);
    let v = view@;
    let r = rows@;
    assert(r.contains(r[i]) && r.contains(r[j]));
    match v.sort {
        SortKey::Name => table::rows_go_by_name(all, v, now, r, i, j),
        SortKey::Size => table::rows_go_by_size(all, v, now, r, i, j),
        SortKey::Reclaimable => table::rows_go_by_what_they_free(all, v, now, r, i, j),
        SortKey::LastUsed => table::rows_go_by_last_use(all, v, now, r, i, j),
        SortKey::Installed => table::rows_go_by_installation(all, v, now, r, i, j),
        SortKey::RequiredBy => table::rows_go_by_their_dependants(all, v, now, r, i, j),
    }
}

} // verus!
