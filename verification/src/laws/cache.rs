//! Which cached archives are worth keeping.
use vstd::prelude::*;

use crate::janitor;
use crate::janitor::ArchiveView;
use crate::number;
use crate::path;
use crate::sets;
use crate::sort;

verus! {

/// Whether no two archives lie at the same path.
pub open spec fn lie_apart(archives: Seq<ArchiveView>) -> bool {
    forall|i: int, j: int|
        0 <= i < archives.len() && 0 <= j < archives.len() && (#[trigger] archives[i]).path == (
        #[trigger] archives[j]).path ==> i == j
}

/// Where the archive at `i` stands among those that are listed newest first.
proof fn lemma_place(archives: Seq<ArchiveView>, i: int) -> (k: int)
    requires
        archives.len() <= usize::MAX,
        0 <= i < archives.len(),
    ensures
        0 <= k < archives.len(),
        janitor::newest_first(archives)[k] == i,
{
    let p = janitor::newest_first(archives);
    janitor::lemma_newest_first(archives);
    sort::lemma_listing_covers(p, archives.len(), i as usize);
    choose|k: int| 0 <= k < p.len() && p[k] == i as usize
}

proof fn lemma_superseded_contains(
    archives: Seq<ArchiveView>,
    installed: Map<Seq<char>, Seq<char>>,
    keep: usize,
    p: Seq<usize>,
    n: nat,
    at: usize,
)
    ensures
        janitor::superseded_among(archives, installed, keep, p, n).contains(at) <==> exists|k: int|
            0 <= k < n && #[trigger] p[k] == at && janitor::is_superseded(
                archives,
                installed,
                keep,
                p,
                k,
            ),
    decreases n,
{
    if n > 0 {
        let m = (n - 1) as nat;
        lemma_superseded_contains(archives, installed, keep, p, m, at);
        let before = janitor::superseded_among(archives, installed, keep, p, m);
        sets::lemma_push_contains(before, p[n - 1]);
        if exists|k: int|
            0 <= k < n && #[trigger] p[k] == at && janitor::is_superseded(
                archives,
                installed,
                keep,
                p,
                k,
            ) {
            let k = choose|k: int|
                0 <= k < n && #[trigger] p[k] == at && janitor::is_superseded(
                    archives,
                    installed,
                    keep,
                    p,
                    k,
                );
            if k < m {
                assert(before.contains(at));
            }
        }
        if before.contains(at) {
            let k = choose|k: int|
                0 <= k < m && #[trigger] p[k] == at && janitor::is_superseded(
                    archives,
                    installed,
                    keep,
                    p,
                    k,
                );
            assert(p[k] == at);
        }
        if janitor::is_superseded(archives, installed, keep, p, n - 1) && p[n - 1] == at {
            assert(p[n - 1] == at);
        }
    }
}

proof fn lemma_uninstalled_contains(
    archives: Seq<ArchiveView>,
    installed: Map<Seq<char>, Seq<char>>,
    p: Seq<usize>,
    n: nat,
    at: usize,
)
    ensures
        janitor::uninstalled_among(archives, installed, p, n).contains(at) <==> exists|k: int|
            0 <= k < n && #[trigger] p[k] == at && !installed.contains_key(
                archives[at as int].name,
            ),
    decreases n,
{
    if n > 0 {
        let m = (n - 1) as nat;
        lemma_uninstalled_contains(archives, installed, p, m, at);
        let before = janitor::uninstalled_among(archives, installed, p, m);
        sets::lemma_push_contains(before, p[n - 1]);
        if exists|k: int|
            0 <= k < n && #[trigger] p[k] == at && !installed.contains_key(
                archives[at as int].name,
            ) {
            let k = choose|k: int|
                0 <= k < n && #[trigger] p[k] == at && !installed.contains_key(
                    archives[at as int].name,
                );
            if k < m {
                assert(before.contains(at));
            }
        }
        if before.contains(at) {
            let k = choose|k: int|
                0 <= k < m && #[trigger] p[k] == at && !installed.contains_key(
                    archives[at as int].name,
                );
            assert(p[k] == at);
        }
        if p[n - 1] == at {
            assert(p[n - 1] == at);
        }
    }
}

/// What a plan lists, in terms of the places of the archives.
proof fn lemma_listed(
    archives: Seq<ArchiveView>,
    installed: Map<Seq<char>, Seq<char>>,
    keep: usize,
    at: Seq<char>,
)
    requires
        archives.len() <= usize::MAX,
    ensures
        janitor::cache_plan_of(archives, installed, keep).superseded.contains(at) <==> exists|k: int|
            0 <= k < archives.len() && #[trigger] janitor::is_superseded(
                archives,
                installed,
                keep,
                janitor::newest_first(archives),
                k,
            ) && archives[janitor::newest_first(archives)[k] as int].path == at,
        janitor::cache_plan_of(archives, installed, keep).uninstalled.contains(at) <==> exists|
            i: int,
        |
            0 <= i < archives.len() && (#[trigger] archives[i]).path == at
                && !installed.contains_key(archives[i].name),
{
    let p = janitor::newest_first(archives);
    let n = archives.len();
    janitor::lemma_newest_first(archives);
    janitor::lemma_places(archives, installed, keep, p, n);
    let old = janitor::superseded_among(archives, installed, keep, p, n);
    let lost = janitor::uninstalled_among(archives, installed, p, n);
    janitor::lemma_paths_kept(janitor::paths_at(archives, old), at);
    janitor::lemma_paths_kept(janitor::paths_at(archives, lost), at);
    if janitor::paths_at(archives, old).contains(at) {
        let m = choose|m: int| 0 <= m < old.len() && janitor::paths_at(archives, old)[m] == at;
        lemma_superseded_contains(archives, installed, keep, p, n, old[m]);
        assert(old.contains(old[m]));
    }
    if exists|k: int|
        0 <= k < n && #[trigger] janitor::is_superseded(archives, installed, keep, p, k)
            && archives[p[k] as int].path == at {
        let k = choose|k: int|
            0 <= k < n && #[trigger] janitor::is_superseded(archives, installed, keep, p, k)
                && archives[p[k] as int].path == at;
        lemma_superseded_contains(archives, installed, keep, p, n, p[k]);
        let m = choose|m: int| 0 <= m < old.len() && old[m] == p[k];
        assert(janitor::paths_at(archives, old)[m] == at);
    }
    if janitor::paths_at(archives, lost).contains(at) {
        let m = choose|m: int| 0 <= m < lost.len() && janitor::paths_at(archives, lost)[m] == at;
        lemma_uninstalled_contains(archives, installed, p, n, lost[m]);
        assert(lost.contains(lost[m]));
        assert(archives[lost[m] as int].path == at);
    }
    if exists|i: int|
        0 <= i < n && (#[trigger] archives[i]).path == at && !installed.contains_key(
            archives[i].name,
        ) {
        let i = choose|i: int|
            0 <= i < n && (#[trigger] archives[i]).path == at && !installed.contains_key(
                archives[i].name,
            );
        let k = lemma_place(archives, i);
        assert(p[k] == i as usize);
        lemma_uninstalled_contains(archives, installed, p, n, i as usize);
        let m = choose|m: int| 0 <= m < lost.len() && lost[m] == i as usize;
        assert(janitor::paths_at(archives, lost)[m] == at);
    }
}

/// The archives listed as those of removed packages are those of packages that
/// are not installed.
pub proof fn removed_packages_leave_all_their_archives(
    archives: Seq<ArchiveView>,
    installed: Map<Seq<char>, Seq<char>>,
    keep: usize,
    at: Seq<char>,
)
    requires
        archives.len() <= usize::MAX,
    ensures
        janitor::cache_plan_of(archives, installed, keep).uninstalled.contains(at) <==> exists|
            i: int,
        |
            0 <= i < archives.len() && (#[trigger] archives[i]).path == at
                && !installed.contains_key(archives[i].name),
{
    lemma_listed(archives, installed, keep, at);
}

proof fn lemma_kept_source(
    archives: Seq<ArchiveView>,
    installed: Map<Seq<char>, Seq<char>>,
    keep: usize,
    p: Seq<usize>,
    name: Seq<char>,
    k: nat,
    version: Seq<char>,
)
    requires
        janitor::kept_versions(archives, installed, keep, p, name, k).contains(version),
    ensures
        exists|m: int|
            0 <= m < k && archives[#[trigger] p[m] as int].name == name
                && archives[p[m] as int].version == version,
    decreases k,
{
    let m = (k - 1) as nat;
    let before = janitor::kept_versions(archives, installed, keep, p, name, m);
    sets::lemma_push_contains(before, archives[p[k - 1] as int].version);
    if before.contains(version) {
        lemma_kept_source(archives, installed, keep, p, name, m, version);
        let x = choose|x: int|
            0 <= x < m && archives[#[trigger] p[x] as int].name == name
                && archives[p[x] as int].version == version;
        assert(archives[p[x] as int].name == name);
    } else {
        assert(archives[p[k - 1] as int].name == name);
    }
}

/// Whether an archive of a version of a package is at least as recent as a time.
pub open spec fn is_on_disk_since(
    archives: Seq<ArchiveView>,
    name: Seq<char>,
    version: Seq<char>,
    since: i64,
) -> bool {
    exists|j: int|
        0 <= j < archives.len() && (#[trigger] archives[j]).name == name && archives[j].version
            == version && archives[j].mtime >= since
}

/// What is superseded is an old version of an installed package, and newer ones
/// are kept in its place: as many other versions as are to be kept, all
/// different, none of them installed, each with an archive at least as recent,
/// and none of them listed.
pub proof fn the_newest_versions_are_kept(
    archives: Seq<ArchiveView>,
    installed: Map<Seq<char>, Seq<char>>,
    keep: usize,
    i: int,
)
    requires
        archives.len() <= usize::MAX,
        lie_apart(archives),
        0 <= i < archives.len(),
        janitor::cache_plan_of(archives, installed, keep).superseded.contains(archives[i].path),
    ensures
        installed.contains_key(archives[i].name),
        installed[archives[i].name] != archives[i].version,
        exists|kept: Seq<Seq<char>>|
            {
                &&& kept.len() == keep
                &&& #[trigger] kept.no_duplicates()
                &&& !kept.contains(archives[i].version)
                &&& !kept.contains(installed[archives[i].name])
                &&& forall|v: Seq<char>| #[trigger]
                    kept.contains(v) ==> is_on_disk_since(
                        archives,
                        archives[i].name,
                        v,
                        archives[i].mtime,
                    )
                &&& forall|j: int|
                    0 <= j < archives.len() && (#[trigger] archives[j]).name == archives[i].name
                        && kept.contains(archives[j].version) ==> !janitor::cache_plan_of(
                        archives,
                        installed,
                        keep,
                    ).superseded.contains(archives[j].path)
            },
{
    let p = janitor::newest_first(archives);
    let n = archives.len();
    let name = archives[i].name;
    janitor::lemma_newest_first(archives);
    lemma_listed(archives, installed, keep, archives[i].path);
    let k = choose|k: int|
        0 <= k < n && #[trigger] janitor::is_superseded(archives, installed, keep, p, k)
            && archives[p[k] as int].path == archives[i].path;
    assert(p[k] == i);
    janitor::keep_counts_versions(archives, installed, keep, k);
    let kept = janitor::kept_versions(archives, installed, keep, p, name, n);
    // They were all kept before the place of the archive came up.
    let before = janitor::kept_versions(archives, installed, keep, p, name, k as nat);
    let after = janitor::kept_versions(archives, installed, keep, p, name, (k + 1) as nat);
    janitor::lemma_kept_stay(archives, installed, keep, p, name, k as nat, n);
    janitor::lemma_kept_stay(archives, installed, keep, p, name, (k + 1) as nat, n);
    sets::lemma_push_contains(before, archives[i].version);
    if before.len() < keep {
        assert(!before.contains(archives[i].version));
        assert(after == before.push(archives[i].version));
        assert(after.contains(archives[i].version));
        assert(kept.contains(archives[i].version));
    }
    assert(before == kept);
    assert forall|v: Seq<char>| #[trigger] kept.contains(v) implies is_on_disk_since(
        archives,
        name,
        v,
        archives[i].mtime,
    ) by {
        lemma_kept_source(archives, installed, keep, p, name, k as nat, v);
        let m = choose|m: int|
            0 <= m < k && archives[#[trigger] p[m] as int].name == name
                && archives[p[m] as int].version == v;
        assert(janitor::newer_order(archives)(p[m] as int, p[k] as int));
        assert(archives[p[m] as int].mtime >= archives[i].mtime);
    }
    assert forall|j: int|
        0 <= j < n && (#[trigger] archives[j]).name == name && kept.contains(
            archives[j].version,
        ) implies !janitor::cache_plan_of(archives, installed, keep).superseded.contains(
        archives[j].path,
    ) by {
        lemma_listed(archives, installed, keep, archives[j].path);
        if janitor::cache_plan_of(archives, installed, keep).superseded.contains(
            archives[j].path,
        ) {
            let m = choose|m: int|
                0 <= m < n && #[trigger] janitor::is_superseded(archives, installed, keep, p, m)
                    && archives[p[m] as int].path == archives[j].path;
            assert(p[m] == j);
        }
    }
    assert(kept.no_duplicates());
}

proof fn lemma_enough(newer: Seq<Seq<char>>, kept: Seq<Seq<char>>)
    requires
        newer.no_duplicates(),
        kept.no_duplicates(),
        forall|v: Seq<char>| #[trigger] newer.contains(v) ==> kept.contains(v),
    ensures
        newer.len() <= kept.len(),
{
    newer.unique_seq_to_set();
    kept.unique_seq_to_set();
    assert(newer.to_set().subset_of(kept.to_set()));
    vstd::set_lib::lemma_len_subset(newer.to_set(), kept.to_set());
}

/// The versions of a package among the first so many places are kept as long as
/// there is room for more.
proof fn lemma_early_are_kept(
    archives: Seq<ArchiveView>,
    installed: Map<Seq<char>, Seq<char>>,
    keep: usize,
    p: Seq<usize>,
    name: Seq<char>,
    k: nat,
    m: int,
)
    requires
        0 <= m < k <= p.len(),
        installed.contains_key(name),
        archives[p[m] as int].name == name,
        archives[p[m] as int].version != installed[name],
        janitor::kept_versions(archives, installed, keep, p, name, k).len() < keep,
    ensures
        janitor::kept_versions(archives, installed, keep, p, name, k).contains(
            archives[p[m] as int].version,
        ),
{
    let before = janitor::kept_versions(archives, installed, keep, p, name, m as nat);
    let after = janitor::kept_versions(archives, installed, keep, p, name, (m + 1) as nat);
    janitor::lemma_kept_stay(archives, installed, keep, p, name, m as nat, k);
    janitor::lemma_kept_stay(archives, installed, keep, p, name, (m + 1) as nat, k);
    sets::lemma_push_contains(before, archives[p[m] as int].version);
    assert(before.len() < keep);
    assert(after.contains(archives[p[m] as int].version));
}

/// Where a version that was kept came up first.
proof fn lemma_kept_first(
    archives: Seq<ArchiveView>,
    installed: Map<Seq<char>, Seq<char>>,
    keep: usize,
    p: Seq<usize>,
    name: Seq<char>,
    k: nat,
    version: Seq<char>,
) -> (m: int)
    requires
        janitor::kept_versions(archives, installed, keep, p, name, k).contains(version),
    ensures
        0 <= m < k,
        archives[p[m] as int].name == name,
        archives[p[m] as int].version == version,
        janitor::kept_versions(archives, installed, keep, p, name, m as nat).len() < keep,
        !janitor::kept_versions(archives, installed, keep, p, name, m as nat).contains(version),
    decreases k,
{
    let before = janitor::kept_versions(archives, installed, keep, p, name, (k - 1) as nat);
    sets::lemma_push_contains(before, archives[p[k - 1] as int].version);
    if before.contains(version) {
        lemma_kept_first(archives, installed, keep, p, name, (k - 1) as nat, version)
    } else {
        k - 1
    }
}

/// An old version is superseded once there are enough newer ones: where as many
/// other versions as are to be kept each have an archive more recent than every
/// archive of this version, and none is installed, this version is listed.
pub proof fn enough_newer_versions_supersede(
    archives: Seq<ArchiveView>,
    installed: Map<Seq<char>, Seq<char>>,
    keep: usize,
    i: int,
    newer: Seq<Seq<char>>,
)
    requires
        archives.len() <= usize::MAX,
        0 <= i < archives.len(),
        installed.contains_key(archives[i].name),
        installed[archives[i].name] != archives[i].version,
        newer.len() >= keep,
        newer.no_duplicates(),
        !newer.contains(installed[archives[i].name]),
        forall|v: Seq<char>| #[trigger]
            newer.contains(v) ==> exists|j: int|
                0 <= j < archives.len() && (#[trigger] archives[j]).name == archives[i].name
                    && archives[j].version == v && forall|x: int|
                    0 <= x < archives.len() && (#[trigger] archives[x]).name == archives[i].name
                        && archives[x].version == archives[i].version ==> archives[j].mtime
                        > archives[x].mtime,
    ensures
        janitor::cache_plan_of(archives, installed, keep).superseded.contains(archives[i].path),
{
    let p = janitor::newest_first(archives);
    let n = archives.len();
    let name = archives[i].name;
    let version = archives[i].version;
    janitor::lemma_newest_first(archives);
    lemma_listed(archives, installed, keep, archives[i].path);
    let k = lemma_place(archives, i);
    if !janitor::is_superseded(archives, installed, keep, p, k) {
        let m = lemma_kept_first(archives, installed, keep, p, name, n, version);
        let before = janitor::kept_versions(archives, installed, keep, p, name, m as nat);
        janitor::lemma_kept_versions(archives, installed, keep, p, name, m as nat);
        assert forall|v: Seq<char>| #[trigger] newer.contains(v) implies before.contains(v) by {
            let j = choose|j: int|
                0 <= j < archives.len() && (#[trigger] archives[j]).name == name
                    && archives[j].version == v && forall|x: int|
                    0 <= x < archives.len() && (#[trigger] archives[x]).name == name
                        && archives[x].version == version ==> archives[j].mtime
                        > archives[x].mtime;
            let at = lemma_place(archives, j);
            let here = archives[p[m] as int];
            assert(archives[j].mtime > here.mtime);
            if m < at {
                assert(janitor::newer_order(archives)(p[m] as int, p[at] as int));
            }
            assert(at != m);
            assert(at < m);
            assert(v != installed[name]);
            lemma_early_are_kept(archives, installed, keep, p, name, m as nat, at);
        }
        lemma_enough(newer, before);
    }
}

/// The bytes of the archives that pass a test.
pub open spec fn bytes_of(
    archives: Seq<ArchiveView>,
    which: spec_fn(int) -> bool,
    n: nat,
) -> nat
    decreases n,
{
    if n == 0 {
        0
    } else {
        bytes_of(archives, which, (n - 1) as nat) + (if which(n - 1) {
            archives[n - 1].bytes as nat
        } else {
            0
        })
    }
}

proof fn lemma_bytes_same(
    archives: Seq<ArchiveView>,
    a: spec_fn(int) -> bool,
    b: spec_fn(int) -> bool,
    n: nat,
)
    requires
        forall|i: int| 0 <= i < n ==> #[trigger] a(i) == b(i),
    ensures
        bytes_of(archives, a, n) == bytes_of(archives, b, n),
    decreases n,
{
    if n > 0 {
        lemma_bytes_same(archives, a, b, (n - 1) as nat);
        assert(a(n - 1) == b(n - 1));
    }
}

proof fn lemma_bytes_add(
    archives: Seq<ArchiveView>,
    a: spec_fn(int) -> bool,
    b: spec_fn(int) -> bool,
    at: int,
    n: nat,
)
    requires
        !a(at),
        b(at),
        forall|i: int| i != at ==> #[trigger] a(i) == b(i),
        0 <= at,
    ensures
        bytes_of(archives, b, n) == bytes_of(archives, a, n) + (if at < n {
            archives[at].bytes as nat
        } else {
            0
        }),
    decreases n,
{
    if n > 0 {
        lemma_bytes_add(archives, a, b, at, (n - 1) as nat);
        if n - 1 != at {
            assert(a(n - 1) == b(n - 1));
        }
    }
}

proof fn lemma_bytes_at(archives: Seq<ArchiveView>, v: Seq<usize>)
    requires
        v.no_duplicates(),
        forall|k: int| 0 <= k < v.len() ==> #[trigger] v[k] < archives.len(),
        archives.len() <= usize::MAX,
    ensures
        janitor::bytes_at(archives, v) == bytes_of(
            archives,
            |i: int| v.contains(i as usize) && 0 <= i < archives.len(),
            archives.len(),
        ),
    decreases v.len(),
{
    let n = archives.len();
    let all = |i: int| v.contains(i as usize) && 0 <= i < n;
    if v.len() == 0 {
        lemma_bytes_none(archives, all, n);
    } else {
        let front = v.drop_last();
        let last = v.last();
        assert(front.push(last) =~= v);
        assert forall|k: int| 0 <= k < front.len() implies #[trigger] front[k] < n by {
            assert(front[k] == v[k]);
        }
        assert forall|a: int, b: int| 0 <= a < front.len() && 0 <= b < front.len() && a
            != b implies front[a] != front[b] by {
            assert(v[a] != v[b]);
        }
        lemma_bytes_at(archives, front);
        sets::lemma_push_contains(front, last);
        let some = |i: int| front.contains(i as usize) && 0 <= i < n;
        assert(v[v.len() - 1] < n);
        assert(!front.contains(last)) by {
            if front.contains(last) {
                let k = choose|k: int| 0 <= k < front.len() && front[k] == last;
                assert(v[k] == v[v.len() - 1]);
            }
        }
        assert(!some(last as int));
        assert(all(last as int));
        assert forall|i: int| i != last implies #[trigger] some(i) == all(i) by {
            if 0 <= i < n {
                assert((i as usize) as int == i);
                assert(v.contains(i as usize) == (front.contains(i as usize) || i as usize == last));
            }
        }
        lemma_bytes_add(archives, some, all, last as int, n);
    }
}

proof fn lemma_bytes_none(archives: Seq<ArchiveView>, which: spec_fn(int) -> bool, n: nat)
    requires
        forall|i: int| 0 <= i < n ==> !#[trigger] which(i),
    ensures
        bytes_of(archives, which, n) == 0,
    decreases n,
{
    if n > 0 {
        lemma_bytes_none(archives, which, (n - 1) as nat);
        assert(!which(n - 1));
    }
}

proof fn lemma_no_duplicates(
    archives: Seq<ArchiveView>,
    installed: Map<Seq<char>, Seq<char>>,
    keep: usize,
    p: Seq<usize>,
    n: nat,
)
    requires
        n <= p.len(),
        p.no_duplicates(),
    ensures
        janitor::superseded_among(archives, installed, keep, p, n).no_duplicates(),
        janitor::uninstalled_among(archives, installed, p, n).no_duplicates(),
    decreases n,
{
    if n > 0 {
        let m = (n - 1) as nat;
        lemma_no_duplicates(archives, installed, keep, p, m);
        let at = p[n - 1];
        lemma_superseded_contains(archives, installed, keep, p, m, at);
        lemma_uninstalled_contains(archives, installed, p, m, at);
    }
}

proof fn lemma_listed_at(
    archives: Seq<ArchiveView>,
    installed: Map<Seq<char>, Seq<char>>,
    keep: usize,
    i: int,
)
    requires
        archives.len() <= usize::MAX,
        lie_apart(archives),
        0 <= i < archives.len(),
    ensures
        ({
            let plan = janitor::cache_plan_of(archives, installed, keep);
            let p = janitor::newest_first(archives);
            let n = archives.len();
            &&& janitor::superseded_among(archives, installed, keep, p, n).contains(i as usize)
                == plan.superseded.contains(archives[i].path)
            &&& janitor::uninstalled_among(archives, installed, p, n).contains(i as usize)
                == plan.uninstalled.contains(archives[i].path)
        }),
{
    let plan = janitor::cache_plan_of(archives, installed, keep);
    let p = janitor::newest_first(archives);
    let n = archives.len();
    janitor::lemma_newest_first(archives);
    lemma_listed(archives, installed, keep, archives[i].path);
    lemma_superseded_contains(archives, installed, keep, p, n, i as usize);
    lemma_uninstalled_contains(archives, installed, p, n, i as usize);
    let k = lemma_place(archives, i);
    assert(p[k] == i as usize);
    if plan.superseded.contains(archives[i].path) {
        let m = choose|m: int|
            0 <= m < n && #[trigger] janitor::is_superseded(archives, installed, keep, p, m)
                && archives[p[m] as int].path == archives[i].path;
        assert(p[m] == i as usize);
    }
    if janitor::superseded_among(archives, installed, keep, p, n).contains(i as usize) {
        let m = choose|m: int|
            0 <= m < n && #[trigger] p[m] == i as usize && janitor::is_superseded(
                archives,
                installed,
                keep,
                p,
                m,
            );
        assert(janitor::is_superseded(archives, installed, keep, p, m));
    }
}

/// The bytes that a plan promises are those of the archives that it lists, as
/// far as numbers go.
pub proof fn plans_promise_what_they_list(
    archives: Seq<ArchiveView>,
    installed: Map<Seq<char>, Seq<char>>,
    keep: usize,
)
    requires
        archives.len() <= usize::MAX,
        lie_apart(archives),
    ensures
        ({
            let plan = janitor::cache_plan_of(archives, installed, keep);
            &&& plan.superseded_bytes == number::saturated(
                bytes_of(
                    archives,
                    |i: int| plan.superseded.contains(archives[i].path),
                    archives.len(),
                ),
            )
            &&& plan.uninstalled_bytes == number::saturated(
                bytes_of(
                    archives,
                    |i: int| plan.uninstalled.contains(archives[i].path),
                    archives.len(),
                ),
            )
        }),
{
    let plan = janitor::cache_plan_of(archives, installed, keep);
    let p = janitor::newest_first(archives);
    let n = archives.len();
    janitor::lemma_newest_first(archives);
    janitor::lemma_places(archives, installed, keep, p, n);
    lemma_no_duplicates(archives, installed, keep, p, n);
    let old = janitor::superseded_among(archives, installed, keep, p, n);
    let lost = janitor::uninstalled_among(archives, installed, p, n);
    lemma_bytes_at(archives, old);
    lemma_bytes_at(archives, lost);
    let in_old = |i: int| old.contains(i as usize) && 0 <= i < n;
    let in_lost = |i: int| lost.contains(i as usize) && 0 <= i < n;
    let listed_old = |i: int| plan.superseded.contains(archives[i].path);
    let listed_lost = |i: int| plan.uninstalled.contains(archives[i].path);
    assert forall|i: int| 0 <= i < n implies #[trigger] in_old(i) == listed_old(i) by {
        lemma_listed_at(archives, installed, keep, i);
    }
    assert forall|i: int| 0 <= i < n implies #[trigger] in_lost(i) == listed_lost(i) by {
        lemma_listed_at(archives, installed, keep, i);
    }
    lemma_bytes_same(archives, in_old, listed_old, n);
    lemma_bytes_same(archives, in_lost, listed_lost, n);
}

} // verus!
