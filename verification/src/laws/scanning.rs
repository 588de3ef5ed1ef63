//! What a scan makes of the system.
use vstd::prelude::*;

use crate::capability;
use crate::graph;
use crate::laws::dependencies;
use crate::model;
use crate::model::{InstallReason, Origin, OriginView, PackageView, UsageView};
use crate::number;
use crate::path;
use crate::scan;
use crate::scan::{ConfReading, RecordView, SyncListing};
use crate::sets;
use crate::sort;
use crate::split;
use crate::text;
use crate::usage;

verus! {

/// The package that a line of the listing is about.
pub open spec fn lists(line: Seq<char>, name: Seq<char>) -> bool {
    split::words(line).len() >= 2 && split::words(line)[1] == name
}

proof fn lemma_listed(lines: Seq<Seq<char>>, name: Seq<char>, k: int)
    requires
        0 <= k < lines.len(),
        lists(lines[k], name),
        forall|i: int| k < i < lines.len() ==> !lists(#[trigger] lines[i], name),
    ensures
        scan::repository_in(lines, name) == Some(split::words(lines[k])[0]),
    decreases lines.len(),
{
    if k < lines.len() - 1 {
        assert(!lists(lines[lines.len() - 1], name));
        let rest = lines.drop_last();
        assert(rest[k] == lines[k]);
        assert forall|i: int| k < i < rest.len() implies !lists(#[trigger] rest[i], name) by {
            assert(rest[i] == lines[i]);
        }
        lemma_listed(rest, name, k);
    }
}

proof fn lemma_unlisted(lines: Seq<Seq<char>>, name: Seq<char>)
    requires
        forall|i: int| 0 <= i < lines.len() ==> !lists(#[trigger] lines[i], name),
    ensures
        scan::repository_in(lines, name) is None,
    decreases lines.len(),
{
    if lines.len() > 0 {
        assert(!lists(lines[lines.len() - 1], name));
        let rest = lines.drop_last();
        assert forall|i: int| 0 <= i < rest.len() implies !lists(#[trigger] rest[i], name) by {
            assert(rest[i] == lines[i]);
        }
        lemma_unlisted(rest, name);
    }
}

/// A package belongs to the repository that the listing names in front of it,
/// and to none where the listing does not name it.
pub proof fn the_listing_decides_the_origin(sync: SyncListing, name: Seq<char>, k: int)
    ensures
        sync matches SyncListing::Ran(output) ==> output.code == Some(0i32) ==> {
            let lines = split::lines(output.stdout@);
            &&& 0 <= k < lines.len() && lists(lines[k], name) && (forall|i: int|
                k < i < lines.len() ==> !lists(#[trigger] lines[i], name)) ==> sync.origin(name)
                == OriginView::Repository(split::words(lines[k])[0])
            &&& (forall|i: int| 0 <= i < lines.len() ==> !lists(#[trigger] lines[i], name))
                ==> sync.origin(name) == OriginView::Foreign
        },
{
    if let SyncListing::Ran(output) = sync {
        let lines = split::lines(output.stdout@);
        if 0 <= k < lines.len() && lists(lines[k], name) && (forall|i: int|
            k < i < lines.len() ==> !lists(#[trigger] lines[i], name)) {
            lemma_listed(lines, name, k);
        }
        if forall|i: int| 0 <= i < lines.len() ==> !lists(#[trigger] lines[i], name) {
            lemma_unlisted(lines, name);
        }
    }
}

/// Without a listing nothing is said of where packages come from, and a warning
/// says why.
pub proof fn without_a_listing_origins_are_unknown(sync: SyncListing, name: Seq<char>)
    ensures
        sync is NoPacman || sync is Failed ==> sync.origin(name) == OriginView::Unknown
            && sync.complaint() is Some,
        sync matches SyncListing::Ran(output) ==> output.code != Some(0i32) ==> sync.origin(name)
            == OriginView::Unknown && sync.complaint() is Some,
        sync matches SyncListing::Ran(output) ==> output.code == Some(0i32) ==> sync.complaint()
            is None,
{
}

/// The complaint about a listing that failed quotes the first line of what was
/// said, or says that nothing was.
pub proof fn complaints_quote_the_first_line(sync: SyncListing)
    ensures
        sync matches SyncListing::Ran(output) ==> output.code != Some(0i32) ==> {
            let said = split::lines(text::trim(output.stderr@));
            &&& said.len() == 0 ==> sync.complaint() == Some("pacman -Sl failed: "@ + "no detail"@)
            &&& said.len() > 0 ==> sync.complaint() == Some("pacman -Sl failed: "@ + said[0])
        },
        sync matches SyncListing::Failed(error) ==> sync.complaint() == Some(
            "could not run pacman -Sl: "@ + error@,
        ),
{
}

/// Every directory of the database with a readable description is a package,
/// and nothing else is. A description that says too little is warned of.
pub proof fn packages_are_the_described_directories(
    records: Seq<RecordView>,
    package: PackageView,
    k: int,
)
    ensures
        scan::packages_read(records).contains(package) <==> exists|i: int|
            #![trigger records[i]]
            0 <= i < records.len() && records[i].entry.is_dir && (records[i].desc matches Some(desc)
                && crate::localdb::described(desc, records[i].entry.path) == Some(package)),
        0 <= k < records.len() && records[k].entry.is_dir && (records[k].desc matches Some(desc)
            && crate::localdb::described(desc, records[k].entry.path) is None)
            ==> scan::records_skipped(records).contains(
            "skipped unreadable database entry "@ + records[k].entry.name,
        ),
    decreases records.len(),
{
    if records.len() > 0 {
        let front = records.drop_last();
        let last = records.last();
        packages_are_the_described_directories(front, package, k);
        let before = scan::packages_read(front);
        let all = scan::packages_read(records);
        if before.contains(package) {
            let i = choose|i: int|
                #![trigger front[i]]
                0 <= i < front.len() && front[i].entry.is_dir && (front[i].desc matches Some(desc)
                    && crate::localdb::described(desc, front[i].entry.path) == Some(package));
            assert(records[i] == front[i]);
            let n = choose|n: int| 0 <= n < before.len() && before[n] == package;
            assert(all[n] == package);
        }
        if last.package() == Some(package) {
            assert(all[all.len() - 1] == package);
            assert(records[records.len() - 1] == last);
        }
        if all.contains(package) && !before.contains(package) {
            let n = choose|n: int| 0 <= n < all.len() && all[n] == package;
            if n < before.len() {
                assert(before[n] == package);
            }
            assert(last.package() == Some(package));
        }
        if exists|i: int|
            #![trigger records[i]]
            0 <= i < records.len() && records[i].entry.is_dir && (records[i].desc matches Some(desc)
                && crate::localdb::described(desc, records[i].entry.path) == Some(package)) {
            let i = choose|i: int|
                #![trigger records[i]]
                0 <= i < records.len() && records[i].entry.is_dir && (records[i].desc matches Some(desc)
                    && crate::localdb::described(desc, records[i].entry.path) == Some(package));
            if i < front.len() {
                assert(front[i] == records[i]);
                assert(before.contains(package));
                assert(all.contains(package));
            } else {
                assert(last.package() == Some(package));
                assert(all[all.len() - 1] == package);
            }
        }
        if 0 <= k < records.len() && records[k].entry.is_dir && (records[k].desc matches Some(desc)
            && crate::localdb::described(desc, records[k].entry.path) is None) {
            let said = "skipped unreadable database entry "@ + records[k].entry.name;
            let skipped = scan::records_skipped(records);
            let earlier = scan::records_skipped(front);
            if k < front.len() {
                assert(front[k] == records[k]);
                let n = choose|n: int| 0 <= n < earlier.len() && earlier[n] == said;
                assert(skipped[n] == said);
            } else {
                assert(records[k] == last);
                assert(skipped[skipped.len() - 1] == said);
            }
        }
    }
}

/// Packages are listed by name, all of them and nothing else.
pub proof fn packages_are_listed_by_name(ps: Seq<PackageView>, package: PackageView)
    requires
        ps.len() <= usize::MAX,
    ensures
        scan::sorted_packages(ps).len() == ps.len(),
        scan::sorted_packages(ps).contains(package) <==> ps.contains(package),
        forall|i: int, j: int|
            0 <= i < j < ps.len() ==> text::text_le(
                (#[trigger] scan::sorted_packages(ps)[i]).name,
                (#[trigger] scan::sorted_packages(ps)[j]).name,
            ),
{
    let names = scan::names_of(ps);
    let le = sort::text_position_order(names);
    text::text_order_is_total();
    assert(sort::is_preorder(le, ps.len()));
    sort::stable_order_exists(le, ps.len());
    let p = sort::text_positions(names);
    let sorted = scan::sorted_packages(ps);
    assert forall|i: int, j: int| 0 <= i < j < ps.len() implies text::text_le(
        (#[trigger] sorted[i]).name,
        (#[trigger] sorted[j]).name,
    ) by {
        assert(le(p[i] as int, p[j] as int));
        assert(names[p[i] as int] == sorted[i].name);
        assert(names[p[j] as int] == sorted[j].name);
    }
    if sorted.contains(package) {
        let i = choose|i: int| 0 <= i < sorted.len() && sorted[i] == package;
        assert(ps[p[i] as int] == package);
    }
    if ps.contains(package) {
        let i = choose|i: int| 0 <= i < ps.len() && ps[i] == package;
        sort::lemma_listing_covers(p, ps.len(), i as usize);
        let k = choose|k: int| 0 <= k < p.len() && p[k] == i;
        assert(sorted[k] == package);
    }
}

/// What is said of a package: who needs it, who would like it, what would go
/// with it and whether it is protected.
pub proof fn facts_are_about_the_package(
    ps: Seq<PackageView>,
    origins: Map<Seq<char>, Origin>,
    usage: UsageView,
    i: usize,
    name: Seq<char>,
)
    requires
        ps.len() <= usize::MAX,
        i < ps.len(),
    ensures
        ({
            let facts = scan::facts_about(ps, origins, usage, i);
            let gone = graph::removal(ps, set![i]);
            &&& facts.required_by.contains(name) <==> exists|j: usize|
                #![trigger ps[j as int]]
                j < ps.len() && graph::needs(ps, j, i) && ps[j as int].name == name
            &&& facts.optional_for.contains(name) <==> exists|j: usize|
                #![trigger ps[j as int]]
                j < ps.len() && graph::wants(ps, j, i) && ps[j as int].name == name
            &&& facts.frees.contains(name) <==> exists|j: usize|
                #![trigger ps[j as int]]
                j < ps.len() && j != i && gone.contains(j) && ps[j as int].name == name
            &&& facts.protected <==> graph::is_guarded(ps, i)
            &&& facts.usage == usage
            &&& facts.reclaimable == number::saturated(graph::size_of(ps, gone))
            &&& !origins.contains_key(ps[i as int].name) ==> facts.origin == OriginView::Unknown
            &&& origins.contains_key(ps[i as int].name) ==> facts.origin
                == origins[ps[i as int].name]@
        }),
{
    let gone = graph::removal(ps, set![i]);
    lemma_lists(ps, graph::requirers(ps, i), |j: usize| graph::needs(ps, j, i), name);
    lemma_lists(ps, graph::wanters(ps, i), |j: usize| graph::wants(ps, j, i), name);
    lemma_lists(ps, gone.remove(i), |j: usize| j != i && gone.contains(j), name);
    let freed = |j: usize| j != i && gone.contains(j);
    let needing = |j: usize| graph::needs(ps, j, i);
    let wanting = |j: usize| graph::wants(ps, j, i);
    assert(forall|j: usize| freed(j) == (j != i && gone.contains(j)));
    assert(forall|j: usize| needing(j) == graph::needs(ps, j, i));
    assert(forall|j: usize| wanting(j) == graph::wants(ps, j, i));
}

proof fn lemma_lists(
    ps: Seq<PackageView>,
    s: Set<usize>,
    holds: spec_fn(usize) -> bool,
    name: Seq<char>,
)
    requires
        ps.len() <= usize::MAX,
        forall|j: usize| #[trigger] s.contains(j) == holds(j),
    ensures
        graph::sorted_names(ps, s).contains(name) <==> exists|j: usize|
            #![trigger ps[j as int]]
            j < ps.len() && holds(j) && ps[j as int].name == name,
{
    dependencies::lists_name_their_members(ps, s, name);
    if exists|j: usize| s.contains(j) && j < ps.len() && #[trigger] ps[j as int].name == name {
        let j = choose|j: usize| s.contains(j) && j < ps.len() && #[trigger] ps[j as int].name == name;
        assert(holds(j) && ps[j as int].name == name);
    }
    if exists|j: usize|
        #![trigger ps[j as int]]
        j < ps.len() && holds(j) && ps[j as int].name == name {
        let j = choose|j: usize|
            #![trigger ps[j as int]]
            j < ps.len() && holds(j) && ps[j as int].name == name;
        assert(s.contains(j) && ps[j as int].name == name);
    }
}

proof fn lemma_largest(ps: Seq<PackageView>)
    requires
        ps.len() <= usize::MAX,
    ensures
        sort::is_listing(scan::largest_first(ps), ps.len()),
        forall|i: int, j: int|
            0 <= i < j < ps.len() ==> ps[#[trigger] scan::largest_first(ps)[i] as int].size
                >= ps[#[trigger] scan::largest_first(ps)[j] as int].size,
{
    let le = scan::size_order(ps);
    assert(sort::is_preorder(le, ps.len()));
    sort::stable_order_exists(le, ps.len());
    let p = scan::largest_first(ps);
    assert forall|i: int, j: int| 0 <= i < j < ps.len() implies ps[#[trigger] p[i] as int].size
        >= ps[#[trigger] p[j] as int].size by {
        assert(le(p[i] as int, p[j] as int));
    }
}

/// Where only some packages are probed, one that is not comes from a
/// repository, is no orphan, and is no larger than as many others as are to be
/// probed, all of which are.
pub proof fn what_is_not_probed_is_small(
    ps: Seq<PackageView>,
    origins: Map<Seq<char>, Origin>,
    top: usize,
    i: usize,
)
    requires
        ps.len() <= usize::MAX,
        i < ps.len(),
        !scan::probe_positions(ps, origins, top).contains(i),
    ensures
        top > 0,
        !(origins.contains_key(ps[i as int].name) && origins[ps[i as int].name] is Foreign),
        ps[i as int].reason == InstallReason::Dependency ==> exists|j: usize|
            #[trigger] graph::needs(ps, j, i),
        exists|larger: Seq<usize>|
            {
                &&& #[trigger] larger.no_duplicates()
                &&& larger.len() == top
                &&& forall|k: int|
                    0 <= k < larger.len() ==> (#[trigger] larger[k]) < ps.len()
                        && ps[larger[k] as int].size >= ps[i as int].size
                        && scan::probe_positions(ps, origins, top).contains(larger[k])
            },
{
    scan::what_is_worth_probing_is_probed(ps, origins, top, i);
    if ps[i as int].reason == InstallReason::Dependency {
        let names = graph::sorted_names(ps, graph::requirers(ps, i));
        assert(names.len() > 0);
        assert(names.contains(names[0]));
        dependencies::lists_name_their_members(ps, graph::requirers(ps, i), names[0]);
        let j = choose|j: usize|
            graph::requirers(ps, i).contains(j) && j < ps.len() && #[trigger] ps[j as int].name
                == names[0];
        assert(graph::needs(ps, j, i));
    }
    lemma_largest(ps);
    let p = scan::largest_first(ps);
    sort::lemma_listing_covers(p, ps.len(), i);
    let at = choose|k: int| 0 <= k < p.len() && p[k] == i;
    let larger = scan::first_of(p, top as nat);
    assert(!larger.contains(i));
    if top > p.len() {
        assert(larger[at] == i);
    } else {
        assert(larger == p.take(top as int));
        if at < top {
            assert(larger[at] == i);
        }
        assert forall|k: int| 0 <= k < larger.len() implies (#[trigger] larger[k]) < ps.len()
            && ps[larger[k] as int].size >= ps[i as int].size && scan::probe_positions(
            ps,
            origins,
            top,
        ).contains(larger[k]) by {
            assert(larger[k] == p[k]);
            assert(ps[p[k] as int].size >= ps[p[at] as int].size);
            assert(larger.contains(larger[k]));
            scan::what_is_worth_probing_is_probed(ps, origins, top, larger[k]);
        }
        assert(larger.no_duplicates());
    }
}

/// Where only some packages are probed, one that is probed and neither foreign
/// nor an orphan has fewer larger ones than are to be probed.
pub proof fn what_is_probed_is_worth_it(
    ps: Seq<PackageView>,
    origins: Map<Seq<char>, Origin>,
    top: usize,
    i: usize,
    larger: Seq<usize>,
)
    requires
        ps.len() <= usize::MAX,
        i < ps.len(),
        top > 0,
        scan::probe_positions(ps, origins, top).contains(i),
        !(origins.contains_key(ps[i as int].name) && origins[ps[i as int].name] is Foreign),
        ps[i as int].reason == InstallReason::Dependency ==> exists|j: usize|
            j < ps.len() && #[trigger] graph::needs(ps, j, i),
        larger.no_duplicates(),
        forall|k: int|
            0 <= k < larger.len() ==> (#[trigger] larger[k]) < ps.len() && ps[larger[k] as int].size
                > ps[i as int].size,
    ensures
        larger.len() < top,
{
    let candidates = scan::probe_candidates(ps, origins, top);
    sets::lemma_below(candidates, ps.len());
    assert(candidates.contains(i));
    if ps[i as int].reason == InstallReason::Dependency {
        let j = choose|j: usize| j < ps.len() && #[trigger] graph::needs(ps, j, i);
        dependencies::lists_name_their_members(ps, graph::requirers(ps, i), ps[j as int].name);
        assert(graph::requirers(ps, i).contains(j) && ps[j as int].name == ps[j as int].name);
        assert(graph::sorted_names(ps, graph::requirers(ps, i)).contains(ps[j as int].name));
    }
    lemma_largest(ps);
    let p = scan::largest_first(ps);
    let first = scan::first_of(p, top as nat);
    assert(first.contains(i));
    let at = choose|k: int| 0 <= k < first.len() && first[k] == i;
    assert(p[at] == i);
    let ahead = p.take(at);
    assert forall|x: usize| larger.contains(x) implies #[trigger] ahead.contains(x) by {
        sort::lemma_listing_covers(p, ps.len(), x);
        let k = choose|k: int| 0 <= k < p.len() && p[k] == x;
        if k > at {
            assert(ps[p[at] as int].size >= ps[p[k] as int].size);
        }
        assert(ahead[k] == x);
    }
    assert(ahead.no_duplicates());
    ahead.unique_seq_to_set();
    larger.unique_seq_to_set();
    assert(larger.to_set().subset_of(ahead.to_set()));
    vstd::set_lib::lemma_len_subset(larger.to_set(), ahead.to_set());
}

/// The evidence for a package is what its probe found. One that was not probed
/// has none.
pub proof fn verdicts_are_those_of_the_probes(
    probed: Seq<usize>,
    usages: Seq<UsageView>,
    position: int,
    k: int,
)
    ensures
        0 <= k < probed.len() && k < usages.len() && probed[k] == position && (forall|i: int|
            k < i < probed.len() ==> #[trigger] probed[i] != position) ==> scan::verdict_on(
            probed,
            usages,
            position,
        ) == usages[k],
        (forall|i: int| 0 <= i < probed.len() ==> #[trigger] probed[i] != position)
            ==> scan::verdict_on(probed, usages, position) == UsageView::NotProbed,
{
    let n = if probed.len() < usages.len() {
        probed.len()
    } else {
        usages.len()
    };
    if 0 <= k < n && probed[k] == position && (forall|i: int|
        k < i < probed.len() ==> #[trigger] probed[i] != position) {
        lemma_place(probed, n, position, k);
    }
    if forall|i: int| 0 <= i < probed.len() ==> #[trigger] probed[i] != position {
        lemma_no_place(probed, n, position);
    }
}

proof fn lemma_place(probed: Seq<usize>, n: nat, position: int, k: int)
    requires
        0 <= k < n <= probed.len(),
        probed[k] == position,
        forall|i: int| k < i < n ==> #[trigger] probed[i] != position,
    ensures
        scan::place_in(probed, n, position) == Some(k as nat),
    decreases n,
{
    if k < n - 1 {
        assert(probed[n - 1] != position);
        lemma_place(probed, (n - 1) as nat, position, k);
    }
}

proof fn lemma_no_place(probed: Seq<usize>, n: nat, position: int)
    requires
        n <= probed.len(),
        forall|i: int| 0 <= i < n ==> #[trigger] probed[i] != position,
    ensures
        scan::place_in(probed, n, position) is None,
    decreases n,
{
    if n > 0 {
        assert(probed[n - 1] != position);
        lemma_no_place(probed, (n - 1) as nat, position);
    }
}

/// The latest write is one of those that were found, and none of them is later.
pub proof fn the_latest_write_is_the_last(walks: Seq<Option<(i64, Seq<char>)>>)
    ensures
        scan::latest_write(walks) is None <==> forall|i: int|
            0 <= i < walks.len() ==> #[trigger] walks[i] is None,
        scan::latest_write(walks) matches Some(found) ==> walks.contains(Some((found.1, found.0)))
            && forall|i: int|
            0 <= i < walks.len() ==> (#[trigger] walks[i] matches Some(seen) ==> seen.0 <= found.1),
    decreases walks.len(),
{
    if walks.len() > 0 {
        let front = walks.drop_last();
        the_latest_write_is_the_last(front);
        assert(forall|i: int| 0 <= i < front.len() ==> #[trigger] walks[i] == front[i]);
        assert(walks[walks.len() - 1] == walks.last());
        if let Some(found) = scan::latest_write(walks) {
            if walks.last() != Some((found.1, found.0)) {
                let i = choose|i: int| 0 <= i < front.len() && front[i] == Some((found.1, found.0));
                assert(walks[i] == Some((found.1, found.0)));
            }
        }
    }
}

/// State is looked for under the names of directories: under the name of each
/// directory, and in the home itself under that of a hidden one without its
/// dot.
pub proof fn state_is_filed_by_directory(
    entries: Seq<capability::EntryView>,
    name: Seq<char>,
    at: Seq<char>,
)
    ensures
        scan::state_pairs(entries).contains((name, at)) <==> exists|i: int|
            #![trigger entries[i]]
            0 <= i < entries.len() && entries[i].is_dir && entries[i].name == name
                && entries[i].path == at,
        scan::dotted_pairs(entries).contains((name, at)) <==> exists|i: int|
            #![trigger entries[i]]
            0 <= i < entries.len() && entries[i].is_dir && entries[i].name == seq!['.'] + name
                && entries[i].path == at && name.len() > 0 && name != "config"@ && name
                != "cache"@ && name != "local"@,
    decreases entries.len(),
{
    reveal_strlit(".");
    if entries.len() > 0 {
        let front = entries.drop_last();
        let entry = entries.last();
        state_is_filed_by_directory(front, name, at);
        assert(forall|i: int| 0 <= i < front.len() ==> #[trigger] front[i] == entries[i]);
        assert(forall|i: int| 0 <= i < front.len() ==> front[i] == #[trigger] entries[i]);
        assert(entries[entries.len() - 1] == entry);
        let dotted = scan::dotted_name(entry.name);
        if entry.name == seq!['.'] + name {
            assert(entry.name.skip(1) =~= name);
            assert(entry.name.take(1) =~= "."@);
        }
        if let Some(rest) = dotted {
            assert(entry.name =~= seq!['.'] + rest) by {
                assert(entry.name.take(1)[0] == '.');
            }
        }
        lemma_pushed(scan::state_pairs(front), (entry.name, entry.path), (name, at));
        if let Some(rest) = dotted {
            lemma_pushed(scan::dotted_pairs(front), (rest, entry.path), (name, at));
        }
    }
}

proof fn lemma_pushed<A>(s: Seq<A>, x: A, y: A)
    ensures
        s.push(x).contains(y) <==> s.contains(y) || x == y,
{
    if s.contains(y) {
        let i = choose|i: int| 0 <= i < s.len() && s[i] == y;
        assert(s.push(x)[i] == y);
    }
    if x == y {
        assert(s.push(x)[s.len() as int] == y);
    }
    if s.push(x).contains(y) {
        let i = choose|i: int| 0 <= i < s.push(x).len() && s.push(x)[i] == y;
        if i < s.len() {
            assert(s[i] == y);
        }
    }
}

/// What is filed under a name is found under it, and nothing else.
pub proof fn what_is_filed_is_found(pairs: Seq<scan::Filed>, name: Seq<char>, at: Seq<char>)
    ensures
        scan::filed_under(pairs, name).contains(at) <==> pairs.contains((name, at)),
    decreases pairs.len(),
{
    if pairs.len() > 0 {
        let front = pairs.drop_last();
        what_is_filed_is_found(front, name, at);
        lemma_pushed(front, pairs.last(), (name, at));
        assert(front.push(pairs.last()) =~= pairs);
        lemma_pushed(scan::filed_under(front, name), pairs.last().1, at);
    }
}

/// What a line means stands in front of its comment.
proof fn lemma_meant(line: Seq<char>, meant: Seq<char>, comment: Seq<char>)
    requires
        !meant.contains('#'),
        line == meant || line == meant + seq!['#'] + comment,
    ensures
        split::split_on(line, '#')[0] == meant,
{
    let p = text::just('#');
    let n = meant.len() as int;
    assert forall|j: int| 0 <= j < n implies !p(#[trigger] line[j]) by {
        assert(line[j] == meant[j]);
        assert(meant.contains(meant[j]));
    }
    split::lemma_split_first(line, p, n);
    assert(line.take(n) =~= meant);
}

/// Sections are opened by their headings, whatever comment stands behind, and
/// only `[options]` counts.
pub proof fn only_the_options_count(
    before: Seq<Seq<char>>,
    line: Seq<char>,
    meant: Seq<char>,
    comment: Seq<char>,
    root: Seq<char>,
)
    requires
        !meant.contains('#'),
        line == meant || line == meant + seq!['#'] + comment,
    ensures
        ({
            let was = scan::conf_reading(before, root);
            let is = scan::conf_reading(before.push(line), root);
            &&& text::trim(meant) == "[options]"@ ==> is == (ConfReading { in_options: true, ..was })
            &&& text::trim(meant).len() > 0 && text::trim(meant)[0] == '[' && text::trim(meant)
                != "[options]"@ ==> is == (ConfReading { in_options: false, ..was })
            &&& text::trim(meant).len() == 0 ==> is == was
            &&& !was.in_options && text::trim(meant) != "[options]"@ ==> is == was
        }),
        scan::conf_reading(Seq::empty(), root) == (ConfReading {
            in_options: false,
            db_path: None,
            cache_dirs: Seq::empty(),
        }),
{
    reveal_strlit("[");
    reveal_strlit("[options]");
    lemma_meant(line, meant, comment);
    assert(before.push(line).drop_last() =~= before);
    let said = text::trim(meant);
    if said.len() > 0 && said[0] == '[' {
        assert(said.take(1) =~= "["@);
    }
    if text::starts(said, "["@) {
        assert(said.take(1)[0] == '[');
    }
}

/// Among the options, the path of the database and the directories of the cache
/// are taken over, below the root, the last path and all directories.
pub proof fn options_set_the_paths(
    before: Seq<Seq<char>>,
    key: Seq<char>,
    value: Seq<char>,
    root: Seq<char>,
)
    requires
        scan::conf_reading(before, root).in_options,
        !(key + seq!['='] + value).contains('#'),
        !key.contains('='),
        text::trim(key + seq!['='] + value) == key + seq!['='] + value,
        key.len() > 0,
        key[0] != '[',
    ensures
        ({
            let was = scan::conf_reading(before, root);
            let is = scan::conf_reading(before.push(key + seq!['='] + value), root);
            let said = text::trim(value);
            &&& text::trim(key) == "DBPath"@ && said.len() > 0 ==> is == (ConfReading {
                db_path: Some(scan::reanchored(said, root)),
                ..was
            })
            &&& text::trim(key) == "CacheDir"@ && said.len() > 0 ==> {
                &&& is == (ConfReading { cache_dirs: is.cache_dirs, ..was })
                &&& is.cache_dirs.len() == was.cache_dirs.len() + split::words(said).len()
                &&& forall|i: int|
                    0 <= i < was.cache_dirs.len() ==> #[trigger] is.cache_dirs[i] == was.cache_dirs[i]
                &&& forall|i: int|
                    0 <= i < split::words(said).len() ==> is.cache_dirs[was.cache_dirs.len() + i]
                        == scan::reanchored(#[trigger] split::words(said)[i], root)
            }
            &&& said.len() == 0 ==> is == was
            &&& text::trim(key) != "DBPath"@ && text::trim(key) != "CacheDir"@ ==> is == was
        }),
{
    reveal_strlit("[");
    reveal_strlit("DBPath");
    reveal_strlit("CacheDir");
    assert("DBPath"@.len() == 6 && "CacheDir"@.len() == 8);
    let line = key + seq!['='] + value;
    lemma_meant(line, line, Seq::empty());
    assert(before.push(line).drop_last() =~= before);
    assert(line[0] == key[0]);
    assert(line.take(1)[0] != "["@[0]);
    let n = key.len() as int;
    assert(line[n] == '=');
    line.index_of_first_ensures('=');
    let i = line.index_of_first('=').unwrap();
    if i < n {
        assert(line[i] == key[i]);
        assert(key.contains(key[i]));
    }
    assert(line.take(n) =~= key);
    assert(line.skip(n + 1) =~= value);
}

/// A configured path lies below the root, whatever slash it begins with.
pub proof fn configured_paths_lie_below_the_root(rest: Seq<char>, root: Seq<char>)
    requires
        rest.len() == 0 || rest[0] != '/',
    ensures
        root.len() > 0 && root.last() == '/' ==> scan::reanchored(seq!['/'] + rest, root) == root
            + rest,
        root.len() > 0 && root.last() != '/' ==> scan::reanchored(seq!['/'] + rest, root) == root
            + seq!['/'] + rest,
        scan::reanchored(rest, root) == scan::reanchored(seq!['/'] + rest, root),
{
    let value = seq!['/'] + rest;
    let p = text::just('/');
    assert(value.drop_first() =~= rest);
    assert(text::trim_start_where(rest, p) == rest);
    assert(text::trim_start_where(value, p) == rest);
}

/// Without a configuration the usual paths hold, below the root.
pub proof fn the_usual_paths_hold(root: Seq<char>, home: Option<Seq<char>>)
    ensures
        ({
            let config = scan::config_under(root, home, None);
            &&& config.root == root
            &&& root.len() > 0 && root.last() == '/' ==> {
                &&& config.db_path == root + "var/lib/pacman"@
                &&& config.cache_dirs == seq![root + "var/cache/pacman/pkg"@]
            }
            &&& root.len() > 0 && root.last() != '/' ==> {
                &&& config.db_path == root + seq!['/'] + "var/lib/pacman"@
                &&& config.cache_dirs == seq![root + seq!['/'] + "var/cache/pacman/pkg"@]
            }
            &&& config.probe_top == 0
            &&& config.witness_budget == 24
            &&& config.probe_usage
            &&& config.measure_directories
            &&& config.walk_budget == 400_000
            &&& config.home_budget == 400
        }),
        scan::config_under("/"@, home, None).home == home,
{
    reveal_strlit("var/lib/pacman");
    reveal_strlit("var/cache/pacman/pkg");
    reveal_strlit("/");
    let none = Seq::<char>::empty();
    let slash = "/"@;
    assert(none.push('/') + none =~= slash);
    split::lemma_split_append(none, '/', none, text::just('/'));
    assert(split::split_on(slash, '/') =~= seq![none, none]);
    reveal_with_fuel(path::components_of, 3);
    assert(path::components(slash) =~= seq!["0"@]);
    assert("var/lib/pacman"@[0] == 'v');
    assert("var/cache/pacman/pkg"@[0] == 'v');
}

/// A configuration changes the path of the database and the cache and nothing
/// else, and each only where it names one.
pub proof fn configurations_change_paths_only(
    root: Seq<char>,
    home: Option<Seq<char>>,
    conf: Seq<char>,
)
    ensures
        ({
            let reading = scan::conf_reading(split::lines(conf), root);
            let usual = scan::config_under(root, home, None);
            let config = scan::config_under(root, home, Some(conf));
            &&& config == (scan::ConfigView {
                db_path: config.db_path,
                cache_dirs: config.cache_dirs,
                ..usual
            })
            &&& reading.db_path is None ==> config.db_path == usual.db_path
            &&& reading.db_path matches Some(at) ==> config.db_path == at
            &&& reading.cache_dirs.len() == 0 ==> config.cache_dirs == usual.cache_dirs
            &&& reading.cache_dirs.len() > 0 ==> config.cache_dirs == reading.cache_dirs
        }),
{
}

/// An inventory has one entry for each package, in their order, with what is
/// known of it, and counts the probes.
pub proof fn inventories_hold_every_package(
    config: scan::ConfigView,
    survey: scan::Survey,
    usages: Seq<UsageView>,
    m: crate::targets::MeasurementsView,
    now: i64,
    i: int,
)
    requires
        usages.len() <= usize::MAX,
    ensures
        ({
            let ps = model::package_views(survey.packages@);
            let inventory = scan::inventory_of(config, survey, usages, m, now);
            &&& inventory.entries.len() == ps.len()
            &&& 0 <= i < ps.len() && i <= usize::MAX ==> inventory.entries[i].package == ps[i]
                && inventory.entries[i].facts == scan::facts_about(
                ps,
                survey.origins@,
                scan::verdict_on(survey.probe_list@, usages, i),
                i as usize,
            )
            &&& inventory.scanned_at == now
            &&& inventory.probed == usages.len()
            &&& inventory.atime_support == survey.atime_support
        }),
{
}

/// What was warned of stays warned of, in its order, and frozen access times
/// add a warning that counts what was dated all the same.
pub proof fn warnings_are_kept(
    config: scan::ConfigView,
    survey: scan::Survey,
    usages: Seq<UsageView>,
    m: crate::targets::MeasurementsView,
    now: i64,
)
    ensures
        ({
            let said = text::texts(survey.warnings@);
            let warnings = scan::inventory_of(config, survey, usages, m, now).warnings;
            &&& warnings.len() >= said.len()
            &&& forall|i: int| 0 <= i < said.len() ==> #[trigger] warnings[i] == said[i]
            &&& survey.atime_support == model::AtimeSupport::Disabled ==> warnings.len() > said.len()
                && warnings[said.len() as int] == scan::frozen_text(usages)
        }),
{
}

/// A survey reads what the mount below `/usr` says of access times, lists the
/// packages by name, and warns of every entry that it had to pass over and of a
/// listing that it could not have.
pub proof fn surveys_look_below_usr(
    survey: scan::Survey,
    config: scan::ConfigView,
    records: Seq<RecordView>,
    sync: SyncListing,
    mounts: Option<Seq<char>>,
    states: Seq<capability::EntryView>,
    dotted: Seq<capability::EntryView>,
    name: Seq<char>,
)
    requires
        scan::is_survey(survey, config, records, sync, mounts, states, dotted),
    ensures
        !config.probe_usage || mounts is None ==> survey.atime_support
            == model::AtimeSupport::Unknown,
        config.probe_usage ==> (mounts matches Some(text) ==> survey.atime_support
            == usage::mount_support(
            split::lines(text),
            path::join_path(config.root, "usr"@),
        )),
        model::package_views(survey.packages@) == scan::sorted_packages(
            scan::packages_read(records),
        ),
        survey.origins@.contains_key(name) ==> survey.origins@[name]@ == sync.origin(name),
        sync.complaint() is None ==> text::texts(survey.warnings@) == scan::records_skipped(
            records,
        ),
        sync.complaint() matches Some(said) ==> text::texts(survey.warnings@)
            == scan::records_skipped(records).push(said),
        config.home is None ==> !survey.index@.contains_key(name),
{
    if config.home is None {
        assert(scan::filed_under(Seq::empty(), name).len() == 0);
    }
}

/// What is looked for under a name is looked for in lower case.
pub proof fn state_is_found_in_lower_case(pairs: Seq<scan::Filed>, name: Seq<char>, at: Seq<char>)
    ensures
        pairs.contains((name, at)) ==> scan::lowered(pairs).contains((text::lowercase(name), at)),
        scan::lowered(pairs).len() == pairs.len(),
{
    if pairs.contains((name, at)) {
        let i = choose|i: int| 0 <= i < pairs.len() && pairs[i] == (name, at);
        assert(scan::lowered(pairs)[i] == (text::lowercase(name), at));
    }
}

/// The directories for a package are those that are filed under one of its
/// names.
pub proof fn directories_are_those_filed(
    names: Seq<Seq<char>>,
    index: Map<Seq<char>, Vec<String>>,
    name: Seq<char>,
)
    ensures
        scan::directories_for(Seq::empty(), index).len() == 0,
        index.contains_key(name) ==> scan::directories_for(names.push(name), index)
            == scan::directories_for(names, index) + text::texts(index[name]@),
        !index.contains_key(name) ==> scan::directories_for(names.push(name), index)
            == scan::directories_for(names, index),
{
    assert(names.push(name).drop_last() =~= names);
    let before = scan::directories_for(names, index);
    assert(before + Seq::<Seq<char>>::empty() =~= before);
}

/// What was dated is counted one by one.
pub proof fn dated_packages_are_counted(usages: Seq<UsageView>, usage: UsageView)
    ensures
        scan::used_count(Seq::empty()) == 0,
        scan::used_count(usages.push(usage)) == scan::used_count(usages) + (match usage {
            UsageView::Used { .. } => 1int,
            UsageView::UsedFromHome { .. } => 1int,
            _ => 0int,
        }),
{
    assert(usages.push(usage).drop_last() =~= usages);
}

/// Each witness that was read stands with the time at which it was, in order.
pub proof fn read_witnesses_are_seen(
    witnesses: Seq<Seq<char>>,
    atimes: Seq<Option<i64>>,
    atime: Option<i64>,
)
    requires
        atimes.len() < witnesses.len(),
    ensures
        scan::seen_witnesses(witnesses, Seq::empty()).len() == 0,
        atime is None ==> scan::seen_witnesses(witnesses, atimes.push(atime))
            == scan::seen_witnesses(witnesses, atimes),
        atime matches Some(at) ==> scan::seen_witnesses(witnesses, atimes.push(atime))
            == scan::seen_witnesses(witnesses, atimes).push((witnesses[atimes.len() as int], at)),
{
    assert(atimes.push(atime).drop_last() =~= atimes);
}

} // verus!
