//! What goes with a removal, and what it frees.
use vstd::prelude::*;

use crate::graph;
use crate::laws::dependencies;
use crate::model;
use crate::model::InstallReason;
use crate::number;
use crate::plan;
use crate::sets;
use crate::text;

verus! {

/// Whether a set of packages is complete as a removal: every unprotected
/// package that was installed as a dependency, that a member needs, and that
/// nothing outside the set needs, belongs to it.
pub open spec fn leaves_no_leftover(ps: Seq<model::PackageView>, gone: Set<usize>) -> bool {
    forall|c: usize, p: usize|
        c < ps.len() && gone.contains(p) && #[trigger] graph::needs(ps, p, c)
            && ps[c as int].reason == InstallReason::Dependency && !graph::is_guarded(ps, c) && (
        forall|q: usize| #[trigger] graph::needs(ps, q, c) ==> gone.contains(q)) ==> gone.contains(c)
}

/// A removal is complete: a dependency goes once every package that requires it
/// goes. That another package lists it as optional does not keep it.
pub proof fn removals_leave_no_leftover(ps: Seq<model::PackageView>, seed: Set<usize>, c: usize, p: usize)
    requires
        c < ps.len(),
        ps[c as int].reason == InstallReason::Dependency,
        !graph::is_guarded(ps, c),
        graph::removal(ps, seed).contains(p),
        graph::needs(ps, p, c),
        forall|q: usize| #[trigger] graph::needs(ps, q, c) ==> graph::removal(ps, seed).contains(q),
    ensures
        graph::removal(ps, seed).contains(c),
{
    graph::removal_is_settled(ps, seed);
    assert(graph::follows(ps, graph::removal(ps, seed), c));
}

/// A removal takes no more than it has to: it lies inside every complete set
/// that holds what was asked for.
pub proof fn removals_take_no_more_than_follows(
    ps: Seq<model::PackageView>,
    seed: Set<usize>,
    gone: Set<usize>,
)
    requires
        seed.subset_of(gone),
        leaves_no_leftover(ps, gone),
    ensures
        graph::removal(ps, seed).subset_of(gone),
{
    assert forall|c: usize| #[trigger] graph::follows(ps, gone, c) implies gone.contains(c) by {
        let p = choose|p: usize| gone.contains(p) && #[trigger] graph::needs(ps, p, c);
        assert(gone.contains(p) && graph::needs(ps, p, c));
    }
    assert(graph::settles(ps, seed, gone));
}

/// Everything that goes without having been asked for is an unprotected
/// dependency of something that goes, and nothing that stays needs it.
pub proof fn what_goes_along_is_needed_by_nothing_left(
    ps: Seq<model::PackageView>,
    seed: Set<usize>,
    c: usize,
)
    requires
        graph::removal(ps, seed).contains(c),
        !seed.contains(c),
    ensures
        c < ps.len(),
        ps[c as int].reason == InstallReason::Dependency,
        !graph::is_guarded(ps, c),
        exists|p: usize| graph::removal(ps, seed).contains(p) && #[trigger] graph::needs(ps, p, c),
        forall|q: usize| #[trigger] graph::needs(ps, q, c) ==> graph::removal(ps, seed).contains(q),
{
    graph::removal_sweeps_only_what_follows(ps, seed, c);
}

/// Whether two packages agree in everything that decides what goes with a
/// removal.
pub open spec fn same_standing(p: model::PackageView, q: model::PackageView) -> bool {
    dependencies::same_ties(p, q) && p.reason == q.reason && p.groups == q.groups
}

/// Optional dependencies, versions, sizes, dates and descriptions decide
/// nothing: two package sets that differ in these alone protect the same
/// packages and lose the same ones, and strand the same ones.
pub proof fn optional_dependencies_keep_nothing(
    ps: Seq<model::PackageView>,
    qs: Seq<model::PackageView>,
    seed: Set<usize>,
)
    requires
        ps.len() == qs.len(),
        forall|k: int| 0 <= k < ps.len() ==> same_standing(#[trigger] ps[k], qs[k]),
    ensures
        forall|i: usize| #[trigger] graph::is_guarded(ps, i) == graph::is_guarded(qs, i),
        graph::removal(ps, seed) == graph::removal(qs, seed),
        graph::dependants_of(ps, seed) == graph::dependants_of(qs, seed),
        forall|i: usize| #[trigger] graph::stranded(ps, seed, i) == graph::stranded(qs, seed, i),
{
    assert forall|k: int| 0 <= k < ps.len() implies dependencies::same_ties(
        #[trigger] ps[k],
        qs[k],
    ) by {
        assert(same_standing(ps[k], qs[k]));
    }
    assert forall|i: usize, j: usize|
        #![trigger graph::needs(ps, i, j)]
        #![trigger graph::needs(qs, i, j)]
        graph::needs(ps, i, j) == graph::needs(qs, i, j) by {
        dependencies::nothing_else_makes_a_need(ps, qs, i, j);
    }
    assert forall|i: usize|
        #![trigger graph::is_root(ps, i)]
        #![trigger graph::is_root(qs, i)]
        graph::is_root(ps, i) == graph::is_root(qs, i) by {
        if i < ps.len() {
            assert(same_standing(ps[i as int], qs[i as int]));
            dependencies::lemma_same_position(ps, qs, ps[i as int].name);
        }
    }
    assert forall|s: Set<usize>|
        #![trigger graph::guards(ps, s)]
        #![trigger graph::guards(qs, s)]
        graph::guards(ps, s) == graph::guards(qs, s) by {}
    assert forall|i: usize| #[trigger] graph::is_guarded(ps, i) == graph::is_guarded(qs, i) by {
        if graph::is_guarded(ps, i) {
            assert forall|s: Set<usize>| #[trigger] graph::guards(qs, s) implies s.contains(i) by {
                assert(graph::guards(ps, s));
            }
        }
        if graph::is_guarded(qs, i) {
            assert forall|s: Set<usize>| #[trigger] graph::guards(ps, s) implies s.contains(i) by {
                assert(graph::guards(qs, s));
            }
        }
    }
    assert forall|i: usize|
        #![trigger graph::is_guarded(ps, i)]
        #![trigger graph::is_guarded(qs, i)]
        graph::is_guarded(ps, i) == graph::is_guarded(qs, i) by {}
    assert forall|gone: Set<usize>, c: usize|
        #![trigger graph::follows(ps, gone, c)]
        #![trigger graph::follows(qs, gone, c)]
        graph::follows(ps, gone, c) == graph::follows(qs, gone, c) by {
        if c < ps.len() {
            assert(same_standing(ps[c as int], qs[c as int]));
        }
        if graph::follows(ps, gone, c) {
            let p = choose|p: usize| gone.contains(p) && #[trigger] graph::needs(ps, p, c);
            assert(graph::needs(qs, p, c));
        }
        if graph::follows(qs, gone, c) {
            let p = choose|p: usize| gone.contains(p) && #[trigger] graph::needs(qs, p, c);
            assert(graph::needs(ps, p, c));
        }
    }
    assert forall|gone: Set<usize>|
        #![trigger graph::settles(ps, seed, gone)]
        #![trigger graph::settles(qs, seed, gone)]
        graph::settles(ps, seed, gone) == graph::settles(qs, seed, gone) by {}
    assert(graph::removal(ps, seed) =~= graph::removal(qs, seed));
    assert forall|s: Set<usize>|
        #![trigger graph::collects(ps, seed, s)]
        #![trigger graph::collects(qs, seed, s)]
        graph::collects(ps, seed, s) == graph::collects(qs, seed, s) by {}
    assert(graph::dependants_of(ps, seed) =~= graph::dependants_of(qs, seed));
    assert forall|i: usize| #[trigger] graph::stranded(ps, seed, i) == graph::stranded(
        qs,
        seed,
        i,
    ) by {
        if graph::stranded(ps, seed, i) {
            let p = choose|p: usize| seed.contains(p) && #[trigger] graph::needs(ps, i, p);
            assert(graph::needs(qs, i, p));
        }
        if graph::stranded(qs, seed, i) {
            let p = choose|p: usize| seed.contains(p) && #[trigger] graph::needs(qs, i, p);
            assert(graph::needs(ps, i, p));
        }
    }
}

proof fn lemma_sizes_insert(ps: Seq<model::PackageView>, s: Set<usize>, i: usize, n: nat)
    requires
        !s.contains(i),
        n <= usize::MAX,
    ensures
        graph::sizes_at(ps, sets::below(s.insert(i), n)) == graph::sizes_at(ps, sets::below(s, n))
            + (if i < n {
            ps[i as int].size as nat
        } else {
            0
        }),
    decreases n,
{
    if n > 0 {
        let m = (n - 1) as nat;
        let k = m as usize;
        lemma_sizes_insert(ps, s, i, m);
        if s.contains(k) {
            assert(sets::below(s, n).drop_last() =~= sets::below(s, m));
        }
        if s.insert(i).contains(k) {
            assert(sets::below(s.insert(i), n).drop_last() =~= sets::below(s.insert(i), m));
        }
    }
}

proof fn lemma_sizes_empty(ps: Seq<model::PackageView>, n: nat)
    ensures
        graph::sizes_at(ps, sets::below(Set::empty(), n)) == 0,
    decreases n,
{
    if n > 0 {
        lemma_sizes_empty(ps, (n - 1) as nat);
    }
}

/// The space that a set of packages takes up is the sum of their sizes: no
/// package takes up none, and each one adds what it takes up itself.
pub proof fn space_adds_up(ps: Seq<model::PackageView>, s: Set<usize>, i: usize)
    requires
        ps.len() <= usize::MAX,
    ensures
        graph::size_of(ps, Set::empty()) == 0,
        i < ps.len() && !s.contains(i) ==> graph::size_of(ps, s.insert(i)) == graph::size_of(ps, s)
            + ps[i as int].size,
        i >= ps.len() ==> graph::size_of(ps, s.insert(i)) == graph::size_of(ps, s),
{
    lemma_sizes_empty(ps, ps.len());
    if !s.contains(i) {
        lemma_sizes_insert(ps, s, i, ps.len());
    } else {
        assert(s.insert(i) =~= s);
    }
}

/// The last thing that needs a dependency frees both: removing a package frees
/// at least its own size and that of every dependency that nothing else needs.
pub proof fn the_last_user_frees_both(ps: Seq<model::PackageView>, i: usize, c: usize)
    requires
        ps.len() <= usize::MAX,
        i < ps.len(),
        c < ps.len(),
        ps[c as int].reason == InstallReason::Dependency,
        !graph::is_guarded(ps, c),
        graph::needs(ps, i, c),
        forall|q: usize| #[trigger] graph::needs(ps, q, c) ==> q == i,
    ensures
        graph::removal(ps, set![i]).contains(c),
        graph::size_of(ps, graph::removal(ps, set![i])) >= ps[i as int].size + ps[c as int].size,
        graph::sorted_names(ps, graph::removal(ps, set![i]).remove(i)).contains(ps[c as int].name),
{
    let r = graph::removal(ps, set![i]);
    graph::removal_contains_its_seed(ps, set![i]);
    assert(set![i].contains(i));
    assert(r.contains(i));
    removals_leave_no_leftover(ps, set![i], c, i);
    let rest = r.remove(i).remove(c);
    space_adds_up(ps, rest, c);
    space_adds_up(ps, rest.insert(c), i);
    assert(rest.insert(c) =~= r.remove(i));
    assert(rest.insert(c).insert(i) =~= r);
    dependencies::lists_name_their_members(ps, r.remove(i), ps[c as int].name);
    assert(r.remove(i).contains(c) && ps[c as int].name == ps[c as int].name);
}

/// The last package called by the name of the base system, a kernel, a
/// bootloader or a recovery tool is protected, and so is every member of the
/// group `base`.
pub proof fn the_base_system_is_protected(ps: Seq<model::PackageView>, i: usize)
    requires
        ps.len() <= usize::MAX,
        i < ps.len(),
        ps[i as int].groups.contains("base"@) || (({
            let name = ps[i as int].name;
            ||| name == "base"@
            ||| name == "linux"@
            ||| name == "linux-lts"@
            ||| name == "linux-zen"@
            ||| name == "linux-hardened"@
            ||| name == "linux-firmware"@
            ||| name == "mkinitcpio"@
            ||| name == "dracut"@
            ||| name == "grub"@
            ||| name == "systemd-boot"@
            ||| name == "refind"@
            ||| name == "efibootmgr"@
            ||| name == "sudo"@
            ||| name == "pacman"@
        }) && forall|j: int| i < j < ps.len() ==> (#[trigger] ps[j]).name != ps[i as int].name),
    ensures
        graph::is_guarded(ps, i),
{
    if !ps[i as int].groups.contains("base"@) {
        dependencies::lemma_position(ps, i as int);
    }
    graph::protection_is_closed(ps);
    assert(graph::is_root(ps, i));
}

/// What a protected package needs is protected too, and nothing else is: every
/// set that holds the base system and whatever its members need holds every
/// protected package.
pub proof fn nothing_else_is_protected(ps: Seq<model::PackageView>, s: Set<usize>, i: usize)
    requires
        graph::is_guarded(ps, i),
        forall|k: usize|
            k < ps.len() && (ps[k as int].groups.contains("base"@) || ({
                let name = (#[trigger] ps[k as int]).name;
                ||| name == "base"@
                ||| name == "linux"@
                ||| name == "linux-lts"@
                ||| name == "linux-zen"@
                ||| name == "linux-hardened"@
                ||| name == "linux-firmware"@
                ||| name == "mkinitcpio"@
                ||| name == "dracut"@
                ||| name == "grub"@
                ||| name == "systemd-boot"@
                ||| name == "refind"@
                ||| name == "efibootmgr"@
                ||| name == "sudo"@
                ||| name == "pacman"@
            })) ==> s.contains(k),
        forall|k: usize, j: usize|
            s.contains(k) && #[trigger] graph::needs(ps, k, j) ==> s.contains(j),
    ensures
        s.contains(i),
{
    assert forall|k: usize| graph::is_root(ps, k) implies s.contains(k) by {
        let p = ps[k as int];
    }
    assert(graph::guards(ps, s));
}

/// What protected packages need is never swept up with a removal.
pub proof fn what_the_base_system_needs_stays(
    ps: Seq<model::PackageView>,
    seed: Set<usize>,
    i: usize,
    j: usize,
)
    requires
        graph::is_guarded(ps, i),
        graph::needs(ps, i, j),
        !seed.contains(j),
    ensures
        graph::is_guarded(ps, j),
        !graph::removal(ps, seed).contains(j),
{
    graph::protection_is_closed(ps);
    if graph::removal(ps, seed).contains(j) {
        what_goes_along_is_needed_by_nothing_left(ps, seed, j);
    }
}

/// A removal is said to break exactly the packages that stay and need something
/// that goes.
pub proof fn breakage_is_what_loses_a_dependency(
    ps: Seq<model::PackageView>,
    gone: Set<usize>,
    listed: Seq<Seq<char>>,
    name: Seq<char>,
)
    requires
        graph::is_broken_list(ps, gone, listed),
    ensures
        listed.contains(name) <==> exists|i: usize, p: usize|
            !gone.contains(i) && gone.contains(p) && #[trigger] graph::needs(ps, i, p)
                && ps[i as int].name == name,
{
    if listed.contains(name) {
        let q = choose|q: usize| #[trigger]
            graph::stranded(ps, gone, q) && ps[q as int].name == name;
        let p = choose|p: usize| gone.contains(p) && #[trigger] graph::needs(ps, q, p);
        assert(graph::needs(ps, q, p));
    }
    if exists|i: usize, p: usize|
        !gone.contains(i) && gone.contains(p) && #[trigger] graph::needs(ps, i, p)
            && ps[i as int].name == name {
        let (i, p) = choose|i: usize, p: usize|
            !gone.contains(i) && gone.contains(p) && #[trigger] graph::needs(ps, i, p)
                && ps[i as int].name == name;
        assert(graph::stranded(ps, gone, i));
    }
}

/// Whoever needs part of a selection or one of its dependants is a dependant,
/// unless it is selected, and nobody else is.
pub proof fn dependants_are_those_that_depend(
    ps: Seq<model::PackageView>,
    seed: Set<usize>,
    i: usize,
    j: usize,
    s: Set<usize>,
)
    ensures
        !seed.contains(j) && graph::needs(ps, j, i) && (seed.contains(i) || graph::dependants_of(
            ps,
            seed,
        ).contains(i)) ==> graph::dependants_of(ps, seed).contains(j),
        graph::dependants_of(ps, seed).contains(j) ==> !seed.contains(j),
        (forall|a: usize, b: usize|
            (seed.contains(a) || s.contains(a)) && #[trigger] graph::needs(ps, b, a)
                && !seed.contains(b) ==> s.contains(b)) ==> graph::dependants_of(
            ps,
            seed,
        ).subset_of(s),
{
    graph::dependants_are_closed(ps, seed);
    if forall|a: usize, b: usize|
        (seed.contains(a) || s.contains(a)) && #[trigger] graph::needs(ps, b, a) && !seed.contains(
            b,
        ) ==> s.contains(b) {
        assert(graph::collects(ps, seed, s));
    }
}

} // verus!
