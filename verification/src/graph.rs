//! Dependency analysis over the installed package set.
//!
//! Two questions matter for deciding what is safe to delete:
//!
//! 1. *Who still needs this?* — a package installed as a dependency that
//!    nothing depends on any more is an orphan, and orphans are the safest
//!    thing on the system to remove.
//! 2. *What does removing it actually free?* — pacman's `-Rns` also takes
//!    dependencies that nothing else keeps alive, so a 40 MiB package can
//!    easily reclaim 400 MiB. Sorting by installed size alone hides that,
//!    which is why this module simulates the cascade instead.
//!
//! Pure: it operates on already-parsed [`Package`] values.
use std::collections::BTreeSet;

use vstd::prelude::*;

use crate::localdb;
use crate::localdb::dependency_name;
use crate::model;
use crate::model::{InstallReason, Package};
use crate::number;
use crate::sets;
use crate::sets::members;
use crate::sort;
use crate::sort::sorted_texts;
use crate::text;
use crate::text::{list_contains, same};
use crate::textmap::TextMap;

verus! {

// ---------------------------------------------------------------------------
// What the dependencies of a package set are
// ---------------------------------------------------------------------------

/// The position of the package called `name`: the last one of that name.
pub open spec fn position_in(ps: Seq<model::PackageView>, name: Seq<char>) -> Option<usize>
    decreases ps.len(),
{
    if ps.len() == 0 {
        None
    } else if ps.last().name == name {
        Some((ps.len() - 1) as usize)
    } else {
        position_in(ps.drop_last(), name)
    }
}

/// Whether a package provides the virtual name `name`.
pub open spec fn provides(p: model::PackageView, name: Seq<char>) -> bool {
    exists|k: int| 0 <= k < p.provides.len() && localdb::name_in(#[trigger] p.provides[k]) == name
}

/// Whether the package at `t` satisfies the dependency `wanted`.
///
/// A real package with the name wins outright. Otherwise every provider of
/// the virtual name does: without a comparison of `provides` versions this
/// over-approximates, which is the safe direction — it can only make a
/// package look more needed than it is.
pub open spec fn satisfies(ps: Seq<model::PackageView>, wanted: Seq<char>, t: usize) -> bool {
    let name = localdb::name_in(wanted);
    &&& name.len() > 0
    &&& t < ps.len()
    &&& match position_in(ps, name) {
        Some(p) => t == p,
        None => provides(ps[t as int], name),
    }
}

/// Whether some dependency in a list is satisfied by the package at `t`.
pub open spec fn any_satisfied(
    ps: Seq<model::PackageView>,
    wanted: Seq<Seq<char>>,
    t: usize,
) -> bool {
    exists|k: int| 0 <= k < wanted.len() && satisfies(ps, #[trigger] wanted[k], t)
}

/// Whether the package at `i` hard-depends on another one, at `j`.
pub open spec fn needs(ps: Seq<model::PackageView>, i: usize, j: usize) -> bool {
    i < ps.len() && i != j && any_satisfied(ps, ps[i as int].depends, j)
}

/// Whether the package at `i` optionally depends on another one, at `j`.
pub open spec fn wants(ps: Seq<model::PackageView>, i: usize, j: usize) -> bool {
    i < ps.len() && i != j && any_satisfied(ps, ps[i as int].optdepends, j)
}

/// The packages that hard-depend on the one at `j`.
pub open spec fn requirers(ps: Seq<model::PackageView>, j: usize) -> Set<usize> {
    Set::new(|i: usize| needs(ps, i, j))
}

/// The packages that optionally depend on the one at `j`.
pub open spec fn wanters(ps: Seq<model::PackageView>, j: usize) -> Set<usize> {
    Set::new(|i: usize| wants(ps, i, j))
}

/// Packages that must never be removed casually, beyond the `base` closure.
///
/// The `base` meta-package pulls in glibc, bash, coreutils, pacman and
/// systemd, so the closure covers most of the system. These names cover what
/// `base` does not: the kernel, the bootloader and the tools needed to recover
/// a system after a bad removal.
pub open spec fn critical(name: Seq<char>) -> bool {
    ||| name == "base"@
    ||| name == "linux"@
    ||| name == "linux-lts"@
    ||| name == "linux-zen"@
    ||| name == "linux-hardened"@
    ||| name == "linux-firmware"@
    ||| name == "mkinitcpio"@
    ||| name == "dracut"@
    ||| name == "grub"@
    ||| name == "systemd-boot"@
    ||| name == "refind"@
    ||| name == "efibootmgr"@
    ||| name == "sudo"@
    ||| name == "pacman"@
}

/// Whether the package at `i` is protected in its own right.
pub open spec fn is_root(ps: Seq<model::PackageView>, i: usize) -> bool {
    &&& i < ps.len()
    &&& ({
        ||| critical(ps[i as int].name) && position_in(ps, ps[i as int].name) == Some(i)
        ||| ps[i as int].groups.contains("base"@)
    })
}

/// Whether `s` holds the protected packages and everything its members need.
pub open spec fn guards(ps: Seq<model::PackageView>, s: Set<usize>) -> bool {
    &&& forall|i: usize| is_root(ps, i) ==> s.contains(i)
    &&& forall|i: usize, j: usize|
        s.contains(i) && #[trigger] needs(ps, i, j) ==> #[trigger] s.contains(j)
}

/// Whether the package at `i` is protected: one of the critical packages, or
/// something that they need, directly or not.
pub open spec fn is_guarded(ps: Seq<model::PackageView>, i: usize) -> bool {
    forall|s: Set<usize>| #[trigger] guards(ps, s) ==> s.contains(i)
}

/// Whether the package at `c` goes once those in `gone` are removed: it was
/// installed as a dependency of one of them, is not protected, and nothing
/// left needs it.
pub open spec fn follows(ps: Seq<model::PackageView>, gone: Set<usize>, c: usize) -> bool {
    &&& c < ps.len()
    &&& ps[c as int].reason == InstallReason::Dependency
    &&& !is_guarded(ps, c)
    &&& exists|p: usize| gone.contains(p) && #[trigger] needs(ps, p, c)
    &&& forall|q: usize| #[trigger] needs(ps, q, c) ==> gone.contains(q)
}

/// Whether `gone` holds `seed` and everything that follows from removing it.
pub open spec fn settles(ps: Seq<model::PackageView>, seed: Set<usize>, gone: Set<usize>) -> bool {
    &&& seed.subset_of(gone)
    &&& forall|c: usize| #[trigger] follows(ps, gone, c) ==> gone.contains(c)
}

/// Everything that `pacman -Rns` over `seed` removes: the least set that holds
/// `seed` and everything that follows.
pub open spec fn removal(ps: Seq<model::PackageView>, seed: Set<usize>) -> Set<usize> {
    Set::new(|c: usize| forall|gone: Set<usize>| #[trigger] settles(ps, seed, gone) ==> gone.contains(c))
}

/// Whether `s` holds everything outside `seed` that needs something in `seed`
/// or in `s`.
pub open spec fn collects(ps: Seq<model::PackageView>, seed: Set<usize>, s: Set<usize>) -> bool {
    forall|i: usize, j: usize|
        (seed.contains(i) || s.contains(i)) && #[trigger] needs(ps, j, i) && !seed.contains(j)
            ==> s.contains(j)
}

/// Everything outside `seed` that depends on it, directly or not.
pub open spec fn dependants_of(ps: Seq<model::PackageView>, seed: Set<usize>) -> Set<usize> {
    Set::new(|x: usize| forall|s: Set<usize>| #[trigger] collects(ps, seed, s) ==> s.contains(x))
}

/// Whether the package at `i` would be stranded by removing `seed`: it stays,
/// and needs something that goes.
pub open spec fn stranded(ps: Seq<model::PackageView>, seed: Set<usize>, i: usize) -> bool {
    !seed.contains(i) && exists|p: usize| seed.contains(p) && #[trigger] needs(ps, i, p)
}

/// The names of the packages at the given positions.
pub open spec fn names_at(ps: Seq<model::PackageView>, v: Seq<usize>) -> Seq<Seq<char>> {
    Seq::new(v.len(), |k: int| ps[v[k] as int].name)
}

/// The names of the packages in a set, sorted.
pub open spec fn sorted_names(ps: Seq<model::PackageView>, s: Set<usize>) -> Seq<Seq<char>> {
    sort::sort_texts(names_at(ps, sets::below(s, ps.len())))
}

/// The installed sizes of the packages at the given positions, added up.
pub open spec fn sizes_at(ps: Seq<model::PackageView>, v: Seq<usize>) -> nat
    decreases v.len(),
{
    if v.len() == 0 {
        0
    } else {
        sizes_at(ps, v.drop_last()) + ps[v.last() as int].size as nat
    }
}

/// The installed sizes of the packages in a set, added up.
pub open spec fn size_of(ps: Seq<model::PackageView>, s: Set<usize>) -> nat {
    sizes_at(ps, sets::below(s, ps.len()))
}

// ---------------------------------------------------------------------------
// Laws
// ---------------------------------------------------------------------------

proof fn lemma_follows_monotone(
    ps: Seq<model::PackageView>,
    a: Set<usize>,
    b: Set<usize>,
    c: usize,
)
    requires
        a.subset_of(b),
        follows(ps, a, c),
    ensures
        follows(ps, b, c),
{
    let p = choose|p: usize| a.contains(p) && #[trigger] needs(ps, p, c);
    assert(b.contains(p) && needs(ps, p, c));
}

/// A removal settles: it holds its seed, and nothing more follows from it.
pub proof fn removal_is_settled(ps: Seq<model::PackageView>, seed: Set<usize>)
    ensures
        settles(ps, seed, removal(ps, seed)),
{
    let r = removal(ps, seed);
    assert forall|c: usize| #[trigger] follows(ps, r, c) implies r.contains(c) by {
        assert forall|gone: Set<usize>| #[trigger] settles(ps, seed, gone) implies gone.contains(
            c,
        ) by {
            assert(r.subset_of(gone));
            lemma_follows_monotone(ps, r, gone, c);
        }
    }
}

/// A removal contains what was asked for.
pub proof fn removal_contains_its_seed(ps: Seq<model::PackageView>, seed: Set<usize>)
    ensures
        seed.subset_of(removal(ps, seed)),
{
    removal_is_settled(ps, seed);
}

/// Whatever a removal takes beyond its seed was installed as a dependency, is
/// not protected, and is needed by nothing that stays.
///
/// So explicit and protected packages are never swept up, and no dependant of
/// something swept up is stranded.
pub proof fn removal_sweeps_only_what_follows(ps: Seq<model::PackageView>, seed: Set<usize>, c: usize)
    requires
        removal(ps, seed).contains(c),
        !seed.contains(c),
    ensures
        follows(ps, removal(ps, seed), c),
        c < ps.len(),
        ps[c as int].reason == InstallReason::Dependency,
        !is_guarded(ps, c),
        forall|q: usize| #[trigger] needs(ps, q, c) ==> removal(ps, seed).contains(q),
{
    let r = removal(ps, seed);
    removal_is_settled(ps, seed);
    if !follows(ps, r, c) {
        let smaller = r.remove(c);
        assert forall|d: usize| #[trigger] follows(ps, smaller, d) implies smaller.contains(d) by {
            lemma_follows_monotone(ps, smaller, r, d);
        }
        assert(settles(ps, seed, smaller));
        assert(smaller.contains(c));
    }
}

/// Selecting more never removes less.
pub proof fn removal_grows(ps: Seq<model::PackageView>, a: Set<usize>, b: Set<usize>)
    requires
        a.subset_of(b),
    ensures
        removal(ps, a).subset_of(removal(ps, b)),
{
    assert forall|c: usize| removal(ps, a).contains(c) implies removal(ps, b).contains(c) by {
        assert forall|gone: Set<usize>| #[trigger] settles(ps, b, gone) implies gone.contains(
            c,
        ) by {
            assert(settles(ps, a, gone));
        }
    }
}

/// Removing again what a removal leaves changes nothing.
pub proof fn removal_is_idempotent(ps: Seq<model::PackageView>, seed: Set<usize>)
    ensures
        removal(ps, removal(ps, seed)) == removal(ps, seed),
{
    let r = removal(ps, seed);
    removal_is_settled(ps, seed);
    removal_is_settled(ps, r);
    assert(settles(ps, r, r));
    assert(removal(ps, r).subset_of(r));
    assert(removal(ps, r) =~= r);
}

proof fn lemma_sizes_grow(ps: Seq<model::PackageView>, a: Set<usize>, b: Set<usize>, n: nat)
    requires
        a.subset_of(b),
    ensures
        sizes_at(ps, sets::below(a, n)) <= sizes_at(ps, sets::below(b, n)),
    decreases n,
{
    if n > 0 {
        let m = (n - 1) as nat;
        lemma_sizes_grow(ps, a, b, m);
        let k = m as usize;
        if a.contains(k) {
            assert(sets::below(a, n).drop_last() =~= sets::below(a, m));
        }
        if b.contains(k) {
            assert(sets::below(b, n).drop_last() =~= sets::below(b, m));
        }
    }
}

/// Adding to a selection never lowers the space that removing it frees.
pub proof fn reclaimable_grows(ps: Seq<model::PackageView>, a: Set<usize>, b: Set<usize>)
    requires
        a.subset_of(b),
    ensures
        number::saturated(size_of(ps, removal(ps, a))) <= number::saturated(
            size_of(ps, removal(ps, b)),
        ),
{
    removal_grows(ps, a, b);
    lemma_sizes_grow(ps, removal(ps, a), removal(ps, b), ps.len());
}

proof fn lemma_size_counted(ps: Seq<model::PackageView>, set: Set<usize>, i: usize, n: nat)
    requires
        set.contains(i),
        i < n <= ps.len(),
        n <= usize::MAX,
    ensures
        sizes_at(ps, sets::below(set, n)) >= ps[i as int].size,
    decreases n,
{
    let m = (n - 1) as nat;
    if set.contains(m as usize) {
        assert(sets::below(set, n).drop_last() =~= sets::below(set, m));
    }
    if i < m {
        lemma_size_counted(ps, set, i, m);
    }
}

/// Removing a package frees at least what the package itself takes up.
pub proof fn packages_free_at_least_themselves(ps: Seq<model::PackageView>, i: usize)
    requires
        i < ps.len(),
        ps.len() <= usize::MAX,
    ensures
        number::saturated(size_of(ps, removal(ps, set![i]))) >= ps[i as int].size,
{
    removal_contains_its_seed(ps, set![i]);
    assert(set![i].contains(i));
    lemma_size_counted(ps, removal(ps, set![i]), i, ps.len());
}

/// The dependants of a seed lie outside it, and include every package that
/// needs the seed or another dependant.
pub proof fn dependants_are_closed(ps: Seq<model::PackageView>, seed: Set<usize>)
    ensures
        dependants_of(ps, seed).disjoint(seed),
        collects(ps, seed, dependants_of(ps, seed)),
        forall|x: usize| #[trigger] dependants_of(ps, seed).contains(x) ==> x < ps.len(),
{
    let d = dependants_of(ps, seed);
    let outside = Set::new(|x: usize| !seed.contains(x));
    assert(collects(ps, seed, outside));
    assert forall|x: usize| d.contains(x) implies !seed.contains(x) by {
        assert(outside.contains(x));
    }
    let inside = Set::new(|x: usize| x < ps.len());
    assert(collects(ps, seed, inside));
    assert forall|i: usize, j: usize|
        (seed.contains(i) || d.contains(i)) && #[trigger] needs(ps, j, i) && !seed.contains(
            j,
        ) implies d.contains(j) by {
        assert forall|s: Set<usize>| #[trigger] collects(ps, seed, s) implies s.contains(j) by {
            if d.contains(i) {
                assert(s.contains(i));
            }
        }
    }
}

/// A selection widened by its dependants strands nothing: removing it breaks
/// no installed package.
pub proof fn widening_strands_nothing(ps: Seq<model::PackageView>, seed: Set<usize>, i: usize)
    ensures
        !stranded(ps, removal(ps, seed.union(dependants_of(ps, seed))), i),
{
    let d = dependants_of(ps, seed);
    let wide = seed.union(d);
    let r = removal(ps, wide);
    dependants_are_closed(ps, seed);
    removal_is_settled(ps, wide);
    if stranded(ps, r, i) {
        let p = choose|p: usize| r.contains(p) && #[trigger] needs(ps, i, p);
        if wide.contains(p) {
            assert(seed.contains(i) || d.contains(i));
            assert(wide.contains(i));
        } else {
            removal_sweeps_only_what_follows(ps, wide, p);
        }
    }
}

/// The critical packages are protected, and so is everything that a protected
/// package needs.
pub proof fn protection_is_closed(ps: Seq<model::PackageView>)
    ensures
        forall|i: usize| is_root(ps, i) ==> is_guarded(ps, i),
        forall|i: usize, j: usize|
            is_guarded(ps, i) && #[trigger] needs(ps, i, j) ==> is_guarded(ps, j),
{
    assert forall|i: usize, j: usize| is_guarded(ps, i) && #[trigger] needs(ps, i, j) implies is_guarded(
        ps,
        j,
    ) by {
        assert forall|s: Set<usize>| #[trigger] guards(ps, s) implies s.contains(j) by {
            assert(s.contains(i));
        }
    }
}

/// Only installed packages are protected.
pub proof fn protection_is_installed(ps: Seq<model::PackageView>, i: usize)
    requires
        is_guarded(ps, i),
    ensures
        i < ps.len(),
{
    let s = Set::new(|k: usize| k < ps.len());
    assert(guards(ps, s));
}

// ---------------------------------------------------------------------------
// The graph
// ---------------------------------------------------------------------------

/// A resolved view of the installed package set.
pub struct Graph<'a> {
    packages: &'a [Package],
    /// Package name to position.
    index: TextMap<usize>,
    /// Hard dependency edges, as positions.
    depends: Vec<Vec<usize>>,
    /// Reverse hard dependency edges, ascending.
    required_by: Vec<Vec<usize>>,
    /// Reverse optional dependency edges, ascending.
    optional_for: Vec<Vec<usize>>,
    /// Packages that must not be removed without an explicit override.
    protected: Vec<bool>,
}

/// Whether a map gives the position of every package by its name.
spec fn indexes(m: Map<Seq<char>, usize>, ps: Seq<model::PackageView>) -> bool {
    forall|name: Seq<char>| #[trigger] m.contains_key(name) == (position_in(ps, name) is Some) && (
    m.contains_key(name) ==> m[name] == position_in(ps, name).unwrap())
}

/// Whether a map gives the providers of every virtual name, as far as the
/// first `n` packages provide it.
spec fn offers(m: Map<Seq<char>, Vec<usize>>, ps: Seq<model::PackageView>, n: int) -> bool {
    forall|name: Seq<char>, t: usize|
        name.len() > 0 && position_in(ps, name) is None ==> (#[trigger] offered(m, name, t) == (t < n
            && provides(ps[t as int], name)))
}

/// Whether a map lists `t` under `name`.
spec fn offered(m: Map<Seq<char>, Vec<usize>>, name: Seq<char>, t: usize) -> bool {
    m.contains_key(name) && m[name]@.contains(t)
}

proof fn lemma_position_bound(ps: Seq<model::PackageView>, name: Seq<char>)
    requires
        ps.len() <= usize::MAX,
    ensures
        match position_in(ps, name) {
            Some(p) => p < ps.len() && ps[p as int].name == name,
            None => forall|i: int| 0 <= i < ps.len() ==> (#[trigger] ps[i]).name != name,
        },
    decreases ps.len(),
{
    if ps.len() > 0 && ps.last().name != name {
        lemma_position_bound(ps.drop_last(), name);
        if position_in(ps, name) is None {
            assert forall|i: int| 0 <= i < ps.len() implies (#[trigger] ps[i]).name != name by {
                if i < ps.len() - 1 {
                    assert(ps.drop_last()[i].name != name);
                }
            }
        }
    }
}

impl<'a> Graph<'a> {
    /// The packages that the graph is about.
    pub closed spec fn view_packages(&self) -> Seq<model::PackageView> {
        model::package_views(self.packages@)
    }

    /// That the edges are those of the packages.
    #[verifier::type_invariant]
    spec fn well_formed(self) -> bool {
        let ps = model::package_views(self.packages@);
        let n = ps.len();
        &&& n <= usize::MAX
        &&& indexes(self.index@, ps)
        &&& self.depends.len() == n
        &&& self.required_by.len() == n
        &&& self.optional_for.len() == n
        &&& self.protected.len() == n
        &&& forall|i: usize, j: usize|
            i < n ==> (#[trigger] self.depends@[i as int]@.contains(j) == needs(ps, i, j))
        &&& forall|j: usize|
            j < n ==> #[trigger] self.required_by@[j as int]@ == sets::below(requirers(ps, j), n)
        &&& forall|j: usize|
            j < n ==> #[trigger] self.optional_for@[j as int]@ == sets::below(wanters(ps, j), n)
        &&& forall|i: usize| i < n ==> #[trigger] self.protected@[i as int] == is_guarded(ps, i)
    }

    /// Build the graph, resolving `provides` so that a dependency satisfied by
    /// a virtual name still produces an edge.
    pub fn build(packages: &'a [Package]) -> (r: Graph<'a>)
        ensures
            r.view_packages() == model::package_views(packages@),
    {
        let ghost ps = model::package_views(packages@);
        let n: usize = packages.len();
        let index = index_of(packages);
        let providers = provider_index(packages, &index);
        let mut depends: Vec<Vec<usize>> = Vec::new();
        let mut required_by = empty_lists(n);
        let mut optional_for = empty_lists(n);
        let mut i: usize = 0;
        proof {
            assert forall|j: usize| j < n implies #[trigger] required_by@[j as int]@ == sets::below(
                requirers(ps, j),
                0,
            ) by {}
            assert forall|j: usize| j < n implies #[trigger] optional_for@[j as int]@
                == sets::below(wanters(ps, j), 0) by {}
        }
        while i < n
            invariant
                i <= n,
                n == packages.len(),
                ps == model::package_views(packages@),
                indexes(index@, ps),
                offers(providers@, ps, n as int),
                depends.len() == i,
                required_by.len() == n,
                optional_for.len() == n,
                forall|k: usize, j: usize|
                    k < i ==> (#[trigger] depends@[k as int]@.contains(j) == needs(ps, k, j)),
                forall|j: usize|
                    j < n ==> #[trigger] required_by@[j as int]@ == sets::below(
                        requirers(ps, j),
                        i as nat,
                    ),
                forall|j: usize|
                    j < n ==> #[trigger] optional_for@[j as int]@ == sets::below(
                        wanters(ps, j),
                        i as nat,
                    ),
            decreases n - i,
        {
            let hard = targets_of(&packages[i].depends, i, packages, &index, &providers);
            let soft = targets_of(&packages[i].optdepends, i, packages, &index, &providers);
            proof {
                assert(ps[i as int].depends == text::texts(packages@[i as int].depends@));
                assert(ps[i as int].optdepends == text::texts(packages@[i as int].optdepends@));
            }
            let ghost before_r = required_by@;
            let ghost before_o = optional_for@;
            push_to(&mut required_by, &hard, i);
            push_to(&mut optional_for, &soft, i);
            proof {
                assert forall|j: usize| j < n implies #[trigger] required_by@[j as int]@
                    == sets::below(requirers(ps, j), (i + 1) as nat) by {
                    assert(before_r[j as int]@ == sets::below(requirers(ps, j), i as nat));
                    assert(hard@.contains(j) == needs(ps, i, j));
                }
                assert forall|j: usize| j < n implies #[trigger] optional_for@[j as int]@
                    == sets::below(wanters(ps, j), (i + 1) as nat) by {
                    assert(before_o[j as int]@ == sets::below(wanters(ps, j), i as nat));
                    assert(soft@.contains(j) == wants(ps, i, j));
                }
            }
            depends.push(hard);
            i += 1;
        }
        let protected = protected_set(packages, &index, &depends);
        Graph { packages, index, depends, required_by, optional_for, protected }
    }

    /// Position of a package by name.
    pub fn position(&self, name: &str) -> (r: Option<usize>)
        ensures
            r == position_in(self.view_packages(), name@),
    {
        proof {
            use_type_invariant(self);
        }
        match self.index.get(name) {
            Some(position) => Some(*position),
            None => None,
        }
    }

    /// Names of installed packages that hard-depend on `position`.
    pub fn required_by(&self, position: usize) -> (r: Vec<String>)
        ensures
            text::texts(r@) == sorted_names(
                self.view_packages(),
                requirers(self.view_packages(), position),
            ),
    {
        proof {
            use_type_invariant(self);
        }
        let ghost ps = self.view_packages();
        if position < self.required_by.len() {
            proof {
                sets::lemma_below(requirers(ps, position), ps.len());
            }
            self.names(&self.required_by[position])
        } else {
            proof {
                assert forall|i: usize| !requirers(ps, position).contains(i) by {}
                sets::lemma_below(requirers(ps, position), ps.len());
                let listed = sets::below(requirers(ps, position), ps.len());
                if listed.len() > 0 {
                    assert(requirers(ps, position).contains(listed[0]));
                }
                assert(listed =~= Seq::empty());
            }
            let none: Vec<usize> = Vec::new();
            self.names(&none)
        }
    }

    /// Names of installed packages listing `position` as an optional dependency.
    pub fn optional_for(&self, position: usize) -> (r: Vec<String>)
        ensures
            text::texts(r@) == sorted_names(
                self.view_packages(),
                wanters(self.view_packages(), position),
            ),
    {
        proof {
            use_type_invariant(self);
        }
        let ghost ps = self.view_packages();
        if position < self.optional_for.len() {
            proof {
                sets::lemma_below(wanters(ps, position), ps.len());
            }
            self.names(&self.optional_for[position])
        } else {
            proof {
                assert forall|i: usize| !wanters(ps, position).contains(i) by {}
                sets::lemma_below(wanters(ps, position), ps.len());
                let listed = sets::below(wanters(ps, position), ps.len());
                if listed.len() > 0 {
                    assert(wanters(ps, position).contains(listed[0]));
                }
                assert(listed =~= Seq::empty());
            }
            let none: Vec<usize> = Vec::new();
            self.names(&none)
        }
    }

    /// Whether the package needs an explicit override before removal.
    pub fn is_protected(&self, position: usize) -> (r: bool)
        ensures
            r == is_guarded(self.view_packages(), position),
    {
        proof {
            use_type_invariant(self);
        }
        if position < self.protected.len() {
            self.protected[position]
        } else {
            proof {
                if is_guarded(self.view_packages(), position) {
                    protection_is_installed(self.view_packages(), position);
                }
            }
            false
        }
    }

    /// The names at the given positions, sorted.
    fn names(&self, positions: &Vec<usize>) -> (r: Vec<String>)
        requires
            forall|k: int| 0 <= k < positions.len() ==> #[trigger] positions@[k]
                < self.view_packages().len(),
        ensures
            text::texts(r@) == sort::sort_texts(names_at(self.view_packages(), positions@)),
    {
        let ghost ps = self.view_packages();
        let mut out: Vec<String> = Vec::new();
        let mut k: usize = 0;
        while k < positions.len()
            invariant
                k <= positions.len(),
                ps == self.view_packages(),
                ps.len() == self.packages.len(),
                forall|m: int| 0 <= m < positions.len() ==> #[trigger] positions@[m] < ps.len(),
                text::texts(out@) == names_at(ps, positions@).take(k as int),
            decreases positions.len() - k,
        {
            let ghost before = out@;
            let at: usize = positions[k];
            out.push(self.packages[at].name.clone());
            proof {
                assert(text::texts(out@) =~= text::texts(before).push(ps[at as int].name));
                assert(names_at(ps, positions@).take(k + 1) =~= names_at(ps, positions@).take(
                    k as int,
                ).push(ps[at as int].name));
            }
            k += 1;
        }
        assert(names_at(ps, positions@).take(positions@.len() as int) =~= names_at(ps, positions@));
        sorted_texts(&out)
    }

    /// Names for a set of positions, sorted.
    pub fn names_of(&self, positions: &BTreeSet<usize>) -> (r: Vec<String>)
        ensures
            text::texts(r@) == sorted_names(self.view_packages(), positions@),
    {
        let listed = members(positions, self.packages.len());
        proof {
            use_type_invariant(self);
            sets::lemma_below(positions@, self.packages.len() as nat);
        }
        self.names(&listed)
    }

    /// Installed size of a set of packages.
    pub fn total_size(&self, positions: &BTreeSet<usize>) -> (r: u64)
        ensures
            r == number::saturated(size_of(self.view_packages(), positions@)),
    {
        let ghost ps = self.view_packages();
        let listed = members(positions, self.packages.len());
        proof {
            sets::lemma_below(positions@, self.packages.len() as nat);
        }
        let mut sum: u64 = 0;
        let mut k: usize = 0;
        assert(listed@.take(0) =~= Seq::empty());
        while k < listed.len()
            invariant
                k <= listed.len(),
                ps == self.view_packages(),
                ps.len() == self.packages.len(),
                forall|m: int| 0 <= m < listed.len() ==> #[trigger] listed@[m] < ps.len(),
                sum == number::saturated(sizes_at(ps, listed@.take(k as int))),
            decreases listed.len() - k,
        {
            assert(listed@.take(k + 1).drop_last() =~= listed@.take(k as int));
            let at: usize = listed[k];
            sum = sum.saturating_add(self.packages[at].size);
            k += 1;
        }
        assert(listed@.take(listed@.len() as int) =~= listed@);
        sum
    }
}

impl<'a> Graph<'a> {
    /// Simulate `pacman -Rns` over `seed` and return every package that goes.
    ///
    /// A dependency joins the removal set once every package that requires it
    /// is itself being removed. Explicitly installed packages are never swept
    /// up, matching pacman's behaviour, and neither are protected ones.
    pub fn cascade(&self, seed: &BTreeSet<usize>) -> (r: BTreeSet<usize>)
        ensures
            r@ == removal(self.view_packages(), seed@),
    {
        proof {
            use_type_invariant(self);
        }
        let ghost ps = self.view_packages();
        let n: usize = self.packages.len();
        let mut removed: BTreeSet<usize> = seed.clone();
        let mut work: Vec<usize> = Vec::new();
        let starts = members(seed, n);
        let mut i: usize = 0;
        proof {
            sets::lemma_below(seed@, n as nat);
        }
        while i < starts.len()
            invariant
                i <= starts.len(),
                ps == self.view_packages(),
                n == ps.len(),
                self.depends.len() == n,
                starts@ == sets::below(seed@, n as nat),
                forall|k: int| 0 <= k < starts.len() ==> #[trigger] starts@[k] < n && seed@.contains(
                    starts@[k],
                ),
                forall|a: usize, b: usize|
                    a < n ==> (#[trigger] self.depends@[a as int]@.contains(b) == needs(ps, a, b)),
                forall|c: usize| #[trigger] work@.contains(c) ==> exists|p: usize|
                    seed@.contains(p) && #[trigger] needs(ps, p, c),
                forall|k: int, c: usize|
                    0 <= k < i && #[trigger] needs(ps, starts@[k], c) ==> work@.contains(c),
            decreases starts.len() - i,
        {
            let at: usize = starts[i];
            let mut children = copy_positions(&self.depends[at]);
            let ghost before = work@;
            let ghost added = children@;
            work.append(&mut children);
            proof {
                sets::lemma_append_contains(before, added);
                assert forall|c: usize| #[trigger] work@.contains(c) implies exists|p: usize|
                    seed@.contains(p) && #[trigger] needs(ps, p, c) by {
                    if added.contains(c) {
                        assert(needs(ps, at, c));
                    } else {
                        assert(before.contains(c));
                    }
                }
                assert forall|k: int, c: usize|
                    0 <= k < i + 1 && #[trigger] needs(ps, starts@[k], c) implies work@.contains(
                    c,
                ) by {
                    if k == i {
                        assert(added.contains(c));
                    } else {
                        assert(before.contains(c));
                    }
                }
            }
            i += 1;
        }
        proof {
            assert forall|c: usize|
                #[trigger] follows(ps, removed@, c) && !removed@.contains(c) implies work@.contains(
                c,
            ) by {
                let p = choose|p: usize| removed@.contains(p) && #[trigger] needs(ps, p, c);
                assert(starts@.contains(p));
                let k = choose|k: int| 0 <= k < starts@.len() && starts@[k] == p;
                assert(needs(ps, starts@[k], c));
            }
            removal_is_settled(ps, seed@);
            sets::lemma_below_len(removed@, n as nat);
        }
        while work.len() > 0
            invariant
                ps == self.view_packages(),
                n == ps.len(),
                self.packages.len() == n,
                self.depends.len() == n,
                self.required_by.len() == n,
                forall|a: usize, b: usize|
                    a < n ==> (#[trigger] self.depends@[a as int]@.contains(b) == needs(ps, a, b)),
                forall|j: usize|
                    j < n ==> #[trigger] self.required_by@[j as int]@ == sets::below(
                        requirers(ps, j),
                        n as nat,
                    ),
                settles(ps, seed@, removal(ps, seed@)),
                seed@.subset_of(removed@),
                removed@.subset_of(removal(ps, seed@)),
                forall|c: usize| #[trigger] work@.contains(c) ==> exists|p: usize|
                    removed@.contains(p) && #[trigger] needs(ps, p, c),
                forall|c: usize|
                    #[trigger] follows(ps, removed@, c) && !removed@.contains(c) ==> work@.contains(
                        c,
                    ),
            decreases n - sets::count_below(removed@, n as nat), work.len(),
        {
            let ghost before_work = work@;
            let candidate: usize = work.pop().unwrap();
            proof {
                assert(before_work =~= work@.push(candidate));
                sets::lemma_push_contains(work@, candidate);
                assert(before_work.contains(candidate));
                sets::lemma_below_len(removed@, n as nat);
            }
            let ghost p = choose|p: usize| removed@.contains(p) && #[trigger] needs(ps, p, candidate);
            assert(candidate < n) by {
                assert(needs(ps, p, candidate));
            }
            proof {
                assert forall|c: usize| #[trigger] work@.contains(c) implies exists|p: usize|
                    removed@.contains(p) && #[trigger] needs(ps, p, c) by {
                    assert(before_work.contains(c));
                }
            }
            if removed.contains(&candidate) {
                continue ;
            }
            if self.packages[candidate].reason == InstallReason::Explicit || self.is_protected(
                candidate,
            ) {
                assert(!follows(ps, removed@, candidate)) by {
                    assert(ps[candidate as int].reason == self.packages@[candidate as int].reason);
                }
                continue ;
            }
            if !self.all_gone(candidate, &removed) {
                continue ;
            }
            let ghost before = removed@;
            assert(follows(ps, before, candidate)) by {
                assert(removed@.contains(p) && needs(ps, p, candidate));
                assert(ps[candidate as int].reason == self.packages@[candidate as int].reason);
            }
            removed.insert(candidate);
            let mut children = copy_positions(&self.depends[candidate]);
            let ghost added = children@;
            let ghost popped = work@;
            work.append(&mut children);
            proof {
                lemma_follows_monotone(ps, before, removal(ps, seed@), candidate);
                sets::lemma_below_insert(before, n as nat, candidate);
                sets::lemma_below_len(removed@, n as nat);
                sets::lemma_append_contains(popped, added);
                assert forall|c: usize| #[trigger] work@.contains(c) implies exists|p: usize|
                    removed@.contains(p) && #[trigger] needs(ps, p, c) by {
                    if added.contains(c) {
                        assert(removed@.contains(candidate) && needs(ps, candidate, c));
                    } else {
                        assert(popped.contains(c));
                        let q = choose|q: usize| before.contains(q) && #[trigger] needs(ps, q, c);
                        assert(removed@.contains(q) && needs(ps, q, c));
                    }
                }
                assert forall|d: usize|
                    #[trigger] follows(ps, removed@, d) && !removed@.contains(d) implies work@.contains(
                    d,
                ) by {
                    if needs(ps, candidate, d) {
                        assert(added.contains(d));
                    } else {
                        let q = choose|q: usize| removed@.contains(q) && #[trigger] needs(ps, q, d);
                        assert(before.contains(q) && needs(ps, q, d));
                        assert(follows(ps, before, d));
                        assert(before_work.contains(d));
                        assert(popped.contains(d));
                    }
                }
            }
        }
        proof {
            assert(settles(ps, seed@, removed@));
            assert(removed@ =~= removal(ps, seed@));
        }
        removed
    }

    /// Whether every package that needs the one at `candidate` is in `gone`.
    fn all_gone(&self, candidate: usize, gone: &BTreeSet<usize>) -> (r: bool)
        requires
            candidate < self.view_packages().len(),
        ensures
            r == forall|q: usize| #[trigger] needs(self.view_packages(), q, candidate)
                ==> gone@.contains(q),
    {
        proof {
            use_type_invariant(self);
        }
        let ghost ps = self.view_packages();
        let requiring = &self.required_by[candidate];
        proof {
            sets::lemma_below(requirers(ps, candidate), ps.len());
        }
        let mut i: usize = 0;
        while i < requiring.len()
            invariant
                i <= requiring.len(),
                ps == self.view_packages(),
                forall|k: int|
                    0 <= k < requiring.len() ==> needs(ps, #[trigger] requiring@[k], candidate),
                forall|k: int| 0 <= k < i ==> gone@.contains(#[trigger] requiring@[k]),
            decreases requiring.len() - i,
        {
            if !gone.contains(&requiring[i]) {
                assert(needs(ps, requiring@[i as int], candidate));
                return false;
            }
            i += 1;
        }
        proof {
            assert forall|q: usize| #[trigger] needs(ps, q, candidate) implies gone@.contains(q) by {
                assert(requirers(ps, candidate).contains(q));
                assert(requiring@.contains(q));
                let k = choose|k: int| 0 <= k < requiring@.len() && requiring@[k] == q;
                assert(gone@.contains(requiring@[k]));
            }
        }
        true
    }

    /// Total installed bytes freed by removing `seed`, cascade included.
    pub fn reclaimable(&self, seed: &BTreeSet<usize>) -> (r: u64)
        ensures
            r == number::saturated(
                size_of(self.view_packages(), removal(self.view_packages(), seed@)),
            ),
    {
        self.total_size(&self.cascade(seed))
    }

    /// Names swept up by removing `position`, excluding `position` itself.
    pub fn dragged_along(&self, position: usize) -> (r: Vec<String>)
        ensures
            text::texts(r@) == sorted_names(
                self.view_packages(),
                removal(self.view_packages(), set![position]).remove(position),
            ),
    {
        let mut seed: BTreeSet<usize> = BTreeSet::new();
        seed.insert(position);
        assert(seed@ =~= set![position]);
        let mut gone = self.cascade(&seed);
        gone.remove(&position);
        self.names_of(&gone)
    }

    /// Packages outside `seed` that hard-depend on something inside it.
    ///
    /// A non-empty result means the removal would break installed software,
    /// and pacman will refuse it without `--cascade`.
    pub fn broken_by(&self, seed: &BTreeSet<usize>) -> (r: Vec<String>)
        ensures
            is_broken_list(self.view_packages(), seed@, text::texts(r@)),
            text::texts(r@) == broken_names(self.view_packages(), seed@),
    {
        proof {
            use_type_invariant(self);
        }
        let ghost ps = self.view_packages();
        let n: usize = self.packages.len();
        let starts = members(seed, n);
        proof {
            sets::lemma_below(seed@, n as nat);
        }
        let mut names: Vec<String> = Vec::new();
        let mut i: usize = 0;
        while i < starts.len()
            invariant
                i <= starts.len(),
                ps == self.view_packages(),
                n == ps.len(),
                self.packages.len() == n,
                self.required_by.len() == n,
                starts@ == sets::below(seed@, n as nat),
                forall|k: int| 0 <= k < starts.len() ==> #[trigger] starts@[k] < n && seed@.contains(
                    starts@[k],
                ),
                forall|j: usize|
                    j < n ==> #[trigger] self.required_by@[j as int]@ == sets::below(
                        requirers(ps, j),
                        n as nat,
                    ),
                forall|name: Seq<char>| #[trigger]
                    text::texts(names@).contains(name) ==> exists|q: usize| #[trigger]
                        stranded(ps, seed@, q) && ps[q as int].name == name,
                forall|k: int, q: usize|
                    0 <= k < i && !seed@.contains(q) && #[trigger] needs(ps, q, starts@[k])
                        ==> text::texts(names@).contains(ps[q as int].name),
            decreases starts.len() - i,
        {
            let at: usize = starts[i];
            let requiring = &self.required_by[at];
            proof {
                sets::lemma_below(requirers(ps, at), n as nat);
            }
            let mut j: usize = 0;
            while j < requiring.len()
                invariant
                    i < starts.len(),
                    at == starts@[i as int],
                    seed@.contains(at),
                    j <= requiring.len(),
                    ps == self.view_packages(),
                    n == ps.len(),
                    self.packages.len() == n,
                    forall|k: int|
                        0 <= k < requiring.len() ==> #[trigger] requiring@[k] < n && needs(
                            ps,
                            requiring@[k],
                            at,
                        ),
                    forall|name: Seq<char>| #[trigger]
                        text::texts(names@).contains(name) ==> exists|q: usize| #[trigger]
                            stranded(ps, seed@, q) && ps[q as int].name == name,
                    forall|k: int, q: usize|
                        0 <= k < i && !seed@.contains(q) && #[trigger] needs(ps, q, starts@[k])
                            ==> text::texts(names@).contains(ps[q as int].name),
                    forall|k: int|
                        0 <= k < j && !seed@.contains(#[trigger] requiring@[k])
                            ==> text::texts(names@).contains(ps[requiring@[k] as int].name),
                decreases requiring.len() - j,
            {
                let requirer: usize = requiring[j];
                if !seed.contains(&requirer) {
                    let ghost before = names@;
                    names.push(self.packages[requirer].name.clone());
                    proof {
                        assert(text::texts(names@) =~= text::texts(before).push(
                            ps[requirer as int].name,
                        ));
                        sets::lemma_push_contains(text::texts(before), ps[requirer as int].name);
                        assert(seed@.contains(at) && needs(ps, requirer, at));
                        assert(stranded(ps, seed@, requirer));
                        assert forall|name: Seq<char>| #[trigger]
                            text::texts(names@).contains(name) implies exists|q: usize| #[trigger]
                            stranded(ps, seed@, q) && ps[q as int].name == name by {
                            if name == ps[requirer as int].name {
                                assert(stranded(ps, seed@, requirer));
                            } else {
                                assert(text::texts(before).contains(name));
                            }
                        }
                    }
                }
                j += 1;
            }
            proof {
                assert forall|k: int, q: usize|
                    0 <= k < i + 1 && !seed@.contains(q) && #[trigger] needs(
                        ps,
                        q,
                        starts@[k],
                    ) implies text::texts(names@).contains(ps[q as int].name) by {
                    if k == i {
                        assert(requirers(ps, at).contains(q));
                        assert(requiring@.contains(q));
                        let m = choose|m: int| 0 <= m < requiring@.len() && requiring@[m] == q;
                        assert(!seed@.contains(requiring@[m]));
                    }
                }
            }
            i += 1;
        }
        proof {
            assert forall|q: usize| #[trigger] stranded(ps, seed@, q) implies text::texts(
                names@,
            ).contains(ps[q as int].name) by {
                let p = choose|p: usize| seed@.contains(p) && #[trigger] needs(ps, q, p);
                assert(starts@.contains(p));
                let k = choose|k: int| 0 <= k < starts@.len() && starts@[k] == p;
                assert(needs(ps, q, starts@[k]));
            }
        }
        let r = sort::sorted_unique(&names);
        proof {
            assert(is_broken_list(ps, seed@, text::texts(r@)));
            let other = broken_names(ps, seed@);
            sort::ascending_texts_agree(text::texts(r@), other);
        }
        r
    }

    /// Everything that would have to go with `seed` for the removal to be
    /// consistent: the transitive closure of "depends on something in here".
    ///
    /// This is the answer to *"what else do I have to mark?"*. It is the
    /// closure rather than the direct dependants because marking the direct
    /// ones usually strands their own dependants in turn, and walking that one
    /// layer at a time is a poor way to spend a user's afternoon.
    pub fn dependants(&self, seed: &BTreeSet<usize>) -> (r: BTreeSet<usize>)
        ensures
            r@ == dependants_of(self.view_packages(), seed@),
    {
        proof {
            use_type_invariant(self);
        }
        let ghost ps = self.view_packages();
        let ghost goal = dependants_of(ps, seed@);
        let n: usize = self.packages.len();
        let mut reached: BTreeSet<usize> = BTreeSet::new();
        let mut work: Vec<usize> = members(seed, n);
        proof {
            sets::lemma_below(seed@, n as nat);
            dependants_are_closed(ps, seed@);
            sets::lemma_below_len(reached@, n as nat);
            assert forall|i: usize, j: usize|
                (seed@.contains(i) || reached@.contains(i)) && #[trigger] needs(ps, j, i)
                    && !seed@.contains(j) implies reached@.contains(j) || work@.contains(i) by {
                assert(work@.contains(i));
            }
        }
        while work.len() > 0
            invariant
                ps == self.view_packages(),
                goal == dependants_of(ps, seed@),
                n == ps.len(),
                self.required_by.len() == n,
                forall|j: usize|
                    j < n ==> #[trigger] self.required_by@[j as int]@ == sets::below(
                        requirers(ps, j),
                        n as nat,
                    ),
                collects(ps, seed@, goal),
                reached@.subset_of(goal),
                forall|x: usize| #[trigger] goal.contains(x) ==> x < n && !seed@.contains(x),
                forall|x: usize| #[trigger]
                    work@.contains(x) ==> x < n && (seed@.contains(x) || reached@.contains(x)),
                forall|i: usize, j: usize|
                    (seed@.contains(i) || reached@.contains(i)) && #[trigger] needs(ps, j, i)
                        && !seed@.contains(j) ==> reached@.contains(j) || work@.contains(i),
            decreases n - sets::count_below(reached@, n as nat), work.len(),
        {
            let ghost before_work = work@;
            let ghost before_reached = reached@;
            let position: usize = work.pop().unwrap();
            let ghost popped = work@;
            proof {
                assert(before_work =~= popped.push(position));
                sets::lemma_push_contains(popped, position);
                assert(before_work.contains(position));
                sets::lemma_below(requirers(ps, position), n as nat);
                sets::lemma_below_len(reached@, n as nat);
                assert forall|x: usize| #[trigger] work@.contains(x) implies x < n && (
                seed@.contains(x) || reached@.contains(x)) by {
                    assert(before_work.contains(x));
                }
                assert forall|i: usize, j: usize|
                    i != position && (seed@.contains(i) || reached@.contains(i)) && #[trigger] needs(
                        ps,
                        j,
                        i,
                    ) && !seed@.contains(j) implies reached@.contains(j) || work@.contains(i) by {
                    assert(reached@.contains(j) || before_work.contains(i));
                }
            }
            let requiring = &self.required_by[position];
            let mut k: usize = 0;
            while k < requiring.len()
                invariant
                    k <= requiring.len(),
                    position < n,
                    seed@.contains(position) || reached@.contains(position),
                    forall|m: int|
                        0 <= m < requiring.len() ==> #[trigger] requiring@[m] < n && needs(
                            ps,
                            requiring@[m],
                            position,
                        ),
                    n == ps.len(),
                    collects(ps, seed@, goal),
                    before_reached.subset_of(reached@),
                    reached@.subset_of(goal),
                    forall|x: usize| #[trigger] goal.contains(x) ==> x < n && !seed@.contains(x),
                    forall|x: usize| #[trigger]
                        work@.contains(x) ==> x < n && (seed@.contains(x) || reached@.contains(x)),
                    forall|i: usize, j: usize|
                        i != position && (seed@.contains(i) || reached@.contains(i))
                            && #[trigger] needs(ps, j, i) && !seed@.contains(j)
                            ==> reached@.contains(j) || work@.contains(i),
                    forall|m: int|
                        0 <= m < k && !seed@.contains(#[trigger] requiring@[m]) ==> reached@.contains(
                            requiring@[m],
                        ),
                    sets::count_below(reached@, n as nat) <= n,
                    sets::count_below(reached@, n as nat) > sets::count_below(
                        before_reached,
                        n as nat,
                    ) || (reached@ == before_reached && work@ == popped),
                    sets::count_below(reached@, n as nat) >= sets::count_below(
                        before_reached,
                        n as nat,
                    ),
                decreases requiring.len() - k,
            {
                let requirer: usize = requiring[k];
                if !seed.contains(&requirer) {
                    let ghost was = reached@;
                    let ghost waiting = work@;
                    if !reached.contains(&requirer) {
                        reached.insert(requirer);
                        work.push(requirer);
                        proof {
                            assert(needs(ps, requirer, position));
                            assert(goal.contains(requirer));
                            sets::lemma_push_contains(waiting, requirer);
                            sets::lemma_below_insert(was, n as nat, requirer);
                            sets::lemma_below_len(reached@, n as nat);
                            assert forall|x: usize| #[trigger] work@.contains(x) implies x < n && (
                            seed@.contains(x) || reached@.contains(x)) by {
                                if x != requirer {
                                    assert(waiting.contains(x));
                                }
                            }
                            assert forall|i: usize, j: usize|
                                i != position && (seed@.contains(i) || reached@.contains(i))
                                    && #[trigger] needs(ps, j, i) && !seed@.contains(
                                    j,
                                ) implies reached@.contains(j) || work@.contains(i) by {
                                if i == requirer {
                                    assert(work@.contains(i));
                                } else {
                                    assert(was.contains(j) || waiting.contains(i));
                                }
                            }
                        }
                    }
                }
                k += 1;
            }
            proof {
                assert forall|i: usize, j: usize|
                    (seed@.contains(i) || reached@.contains(i)) && #[trigger] needs(ps, j, i)
                        && !seed@.contains(j) implies reached@.contains(j) || work@.contains(i) by {
                    if i == position {
                        assert(requirers(ps, position).contains(j));
                        assert(requiring@.contains(j));
                        let m = choose|m: int| 0 <= m < requiring@.len() && requiring@[m] == j;
                        assert(!seed@.contains(requiring@[m]));
                    }
                }
            }
        }
        proof {
            assert(collects(ps, seed@, reached@));
            assert(reached@ =~= goal);
        }
        reached
    }
}

/// Whether a list names exactly the packages that removing `seed` strands,
/// each name once and in order.
pub open spec fn is_broken_list(
    ps: Seq<model::PackageView>,
    seed: Set<usize>,
    names: Seq<Seq<char>>,
) -> bool {
    &&& sort::strictly_ascending(names)
    &&& forall|name: Seq<char>| #[trigger]
        names.contains(name) <==> exists|q: usize| #[trigger]
            stranded(ps, seed, q) && ps[q as int].name == name
}

/// The names of the packages that removing `seed` strands, each once and in
/// order.
pub open spec fn broken_names(ps: Seq<model::PackageView>, seed: Set<usize>) -> Seq<Seq<char>> {
    choose|names: Seq<Seq<char>>| is_broken_list(ps, seed, names)
}

/// Where nothing is stranded, nothing is listed.
pub proof fn nothing_stranded_nothing_listed(ps: Seq<model::PackageView>, seed: Set<usize>)
    requires
        forall|i: usize| !#[trigger] stranded(ps, seed, i),
    ensures
        broken_names(ps, seed) == Seq::<Seq<char>>::empty(),
{
    let none = Seq::<Seq<char>>::empty();
    assert(is_broken_list(ps, seed, none));
    let listed = broken_names(ps, seed);
    assert(is_broken_list(ps, seed, listed));
    if listed.len() > 0 {
        assert(listed.contains(listed[0]));
    }
    assert(listed =~= none);
}

/// The position of every package by its name.
fn index_of(packages: &[Package]) -> (r: TextMap<usize>)
    ensures
        indexes(r@, model::package_views(packages@)),
{
    let ghost ps = model::package_views(packages@);
    let mut index: TextMap<usize> = TextMap::new();
    let mut i: usize = 0;
    assert(ps.take(0) =~= Seq::empty());
    while i < packages.len()
        invariant
            i <= packages.len(),
            ps == model::package_views(packages@),
            indexes(index@, ps.take(i as int)),
        decreases packages.len() - i,
    {
        let ghost before = index@;
        index.insert(packages[i].name.as_str(), i);
        proof {
            let next = ps.take(i + 1);
            assert(next.drop_last() =~= ps.take(i as int));
            assert(next.last() == packages@[i as int]@);
            assert forall|name: Seq<char>| #[trigger] index@.contains_key(name) == (position_in(
                next,
                name,
            ) is Some) && (index@.contains_key(name) ==> index@[name] == position_in(
                next,
                name,
            ).unwrap()) by {
                assert(before.contains_key(name) == (position_in(ps.take(i as int), name) is Some));
            }
        }
        i += 1;
    }
    assert(ps.take(ps.len() as int) =~= ps);
    index
}

/// `n` empty lists.
fn empty_lists(n: usize) -> (r: Vec<Vec<usize>>)
    ensures
        r.len() == n,
        forall|i: int| 0 <= i < n ==> #[trigger] r@[i]@ == Seq::<usize>::empty(),
{
    let mut out: Vec<Vec<usize>> = Vec::new();
    while out.len() < n
        invariant
            out.len() <= n,
            forall|i: int| 0 <= i < out.len() ==> #[trigger] out@[i]@ == Seq::<usize>::empty(),
        decreases n - out.len(),
    {
        out.push(Vec::new());
    }
    out
}

/// A copy of a list of positions.
pub fn copy_positions(v: &Vec<usize>) -> (r: Vec<usize>)
    ensures
        r@ == v@,
{
    let mut out: Vec<usize> = Vec::new();
    let mut i: usize = 0;
    while i < v.len()
        invariant
            i <= v.len(),
            out@ == v@.take(i as int),
        decreases v.len() - i,
    {
        out.push(v[i]);
        i += 1;
    }
    out
}

/// Whether a list of positions holds `x`.
fn holds(v: &Vec<usize>, x: usize) -> (r: bool)
    ensures
        r == v@.contains(x),
{
    let mut i: usize = 0;
    while i < v.len()
        invariant
            i <= v.len(),
            forall|j: int| 0 <= j < i ==> v@[j] != x,
        decreases v.len() - i,
    {
        if v[i] == x {
            assert(v@[i as int] == x);
            return true;
        }
        i += 1;
    }
    false
}

/// Appends `value` to the lists at `slots`.
fn push_to(lists: &mut Vec<Vec<usize>>, slots: &Vec<usize>, value: usize)
    requires
        slots@.no_duplicates(),
        forall|k: int| 0 <= k < slots.len() ==> #[trigger] slots@[k] < old(lists).len(),
    ensures
        final(lists).len() == old(lists).len(),
        forall|j: usize|
            j < final(lists).len() ==> #[trigger] final(lists)@[j as int]@ == (if slots@.contains(j) {
                old(lists)@[j as int]@.push(value)
            } else {
                old(lists)@[j as int]@
            }),
{
    let ghost before = lists@;
    let mut k: usize = 0;
    while k < slots.len()
        invariant
            k <= slots.len(),
            slots@.no_duplicates(),
            lists.len() == before.len(),
            forall|m: int| 0 <= m < slots.len() ==> #[trigger] slots@[m] < before.len(),
            forall|j: usize|
                j < before.len() ==> #[trigger] lists@[j as int]@ == (if slots@.take(
                    k as int,
                ).contains(j) {
                    before[j as int]@.push(value)
                } else {
                    before[j as int]@
                }),
        decreases slots.len() - k,
    {
        let slot: usize = slots[k];
        let mut list = copy_positions(&lists[slot]);
        proof {
            assert(!slots@.take(k as int).contains(slot)) by {
                let seen = slots@.take(k as int);
                if seen.contains(slot) {
                    let m = choose|m: int| 0 <= m < seen.len() && seen[m] == slot;
                    assert(slots@[m] == slots@[k as int]);
                }
            }
        }
        let ghost current = lists@;
        list.push(value);
        lists.set(slot, list);
        proof {
            assert(slots@.take(k + 1) =~= slots@.take(k as int).push(slot));
            sets::lemma_push_contains(slots@.take(k as int), slot);
            assert forall|j: usize| j < before.len() implies #[trigger] lists@[j as int]@ == (
            if slots@.take(k + 1).contains(j) {
                before[j as int]@.push(value)
            } else {
                before[j as int]@
            }) by {
                if j == slot {
                    assert(current[slot as int]@ == before[slot as int]@);
                } else {
                    assert(lists@[j as int] == current[j as int]);
                }
            }
        }
        k += 1;
    }
    assert(slots@.take(slots@.len() as int) =~= slots@);
}

/// Map every virtual name to the packages offering it.
fn provider_index(packages: &[Package], index: &TextMap<usize>) -> (r: TextMap<Vec<usize>>)
    requires
        indexes(index@, model::package_views(packages@)),
    ensures
        offers(r@, model::package_views(packages@), packages.len() as int),
{
    let ghost ps = model::package_views(packages@);
    let mut providers: TextMap<Vec<usize>> = TextMap::new();
    let mut i: usize = 0;
    while i < packages.len()
        invariant
            i <= packages.len(),
            ps == model::package_views(packages@),
            indexes(index@, ps),
            offers(providers@, ps, i as int),
        decreases packages.len() - i,
    {
        let offers_here = &packages[i].provides;
        let ghost specs = ps[i as int].provides;
        let mut k: usize = 0;
        while k < offers_here.len()
            invariant
                k <= offers_here.len(),
                i < packages.len(),
                ps == model::package_views(packages@),
                indexes(index@, ps),
                specs == ps[i as int].provides,
                specs == text::texts(offers_here@),
                forall|name: Seq<char>, t: usize|
                    name.len() > 0 && position_in(ps, name) is None ==> (#[trigger] offered(
                        providers@,
                        name,
                        t,
                    ) == ((t < i && provides(ps[t as int], name)) || (t == i && exists|m: int|
                        0 <= m < k && localdb::name_in(#[trigger] specs[m]) == name))),
            decreases offers_here.len() - k,
        {
            let name = dependency_name(offers_here[k].as_str());
            let ghost before = providers@;
            assert(localdb::name_in(specs[k as int]) == name@);
            if !name.is_empty() && !index.contains_key(name) {
                let mut list = match providers.get(name) {
                    Some(list) => copy_positions(list),
                    None => Vec::new(),
                };
                let ghost old_list = list@;
                list.push(i);
                let ghost new_list = list@;
                providers.insert(name, list);
                proof {
                    assert forall|other: Seq<char>, t: usize|
                        other.len() > 0 && position_in(ps, other) is None implies (
                    #[trigger] offered(providers@, other, t) == ((t < i && provides(
                        ps[t as int],
                        other,
                    )) || (t == i && exists|m: int|
                        0 <= m < k + 1 && localdb::name_in(#[trigger] specs[m]) == other))) by {
                        assert(offered(before, other, t) == ((t < i && provides(
                            ps[t as int],
                            other,
                        )) || (t == i && exists|m: int|
                            0 <= m < k && localdb::name_in(#[trigger] specs[m]) == other)));
                        sets::lemma_push_contains(old_list, i);
                        if other != name@ {
                            if t == i && exists|m: int|
                                0 <= m < k + 1 && localdb::name_in(#[trigger] specs[m]) == other {
                                let m = choose|m: int|
                                    0 <= m < k + 1 && localdb::name_in(#[trigger] specs[m])
                                        == other;
                                assert(m < k);
                            }
                        }
                    }
                }
            } else {
                proof {
                    assert forall|other: Seq<char>, t: usize|
                        other.len() > 0 && position_in(ps, other) is None implies (
                    #[trigger] offered(providers@, other, t) == ((t < i && provides(
                        ps[t as int],
                        other,
                    )) || (t == i && exists|m: int|
                        0 <= m < k + 1 && localdb::name_in(#[trigger] specs[m]) == other))) by {
                        assert(index@.contains_key(name@) == (position_in(ps, name@) is Some));
                        if exists|m: int|
                            0 <= m < k + 1 && localdb::name_in(#[trigger] specs[m]) == other {
                            let m = choose|m: int|
                                0 <= m < k + 1 && localdb::name_in(#[trigger] specs[m]) == other;
                            assert(m < k);
                        }
                    }
                }
            }
            k += 1;
        }
        proof {
            assert forall|name: Seq<char>, t: usize|
                name.len() > 0 && position_in(ps, name) is None implies (#[trigger] offered(
                providers@,
                name,
                t,
            ) == (t < i + 1 && provides(ps[t as int], name))) by {
                if t == i {
                    assert(provides(ps[t as int], name) == (exists|m: int|
                        0 <= m < specs.len() && localdb::name_in(#[trigger] specs[m]) == name));
                }
            }
        }
        i += 1;
    }
    providers
}

/// Resolve a dependency specification to the installed packages satisfying it.
fn resolve(
    spec: &str,
    packages: &[Package],
    index: &TextMap<usize>,
    providers: &TextMap<Vec<usize>>,
) -> (r: Vec<usize>)
    requires
        indexes(index@, model::package_views(packages@)),
        offers(providers@, model::package_views(packages@), packages.len() as int),
    ensures
        forall|t: usize| #[trigger]
            r@.contains(t) == satisfies(model::package_views(packages@), spec@, t),
{
    let ghost ps = model::package_views(packages@);
    let name = dependency_name(spec);
    if name.is_empty() {
        return Vec::new();
    }
    proof {
        assert(index@.contains_key(name@) == (position_in(ps, name@) is Some));
        lemma_position_bound(ps, name@);
    }
    match index.get(name) {
        Some(position) => {
            let mut out: Vec<usize> = Vec::new();
            out.push(*position);
            proof {
                assert(out@[0] == *position);
            }
            out
        },
        None => match providers.get(name) {
            Some(list) => {
                let out = copy_positions(list);
                proof {
                    assert forall|t: usize| #[trigger] out@.contains(t) == satisfies(ps, spec@, t) by {
                        assert(offered(providers@, name@, t) == (t < packages.len() && provides(
                            ps[t as int],
                            name@,
                        )));
                    }
                }
                out
            },
            None => {
                proof {
                    assert forall|t: usize| !satisfies(ps, spec@, t) by {
                        assert(!offered(providers@, name@, t));
                    }
                }
                Vec::new()
            },
        },
    }
}

/// The other packages that satisfy some dependency in a list, each once.
fn targets_of(
    specs: &Vec<String>,
    own: usize,
    packages: &[Package],
    index: &TextMap<usize>,
    providers: &TextMap<Vec<usize>>,
) -> (r: Vec<usize>)
    requires
        indexes(index@, model::package_views(packages@)),
        offers(providers@, model::package_views(packages@), packages.len() as int),
    ensures
        r@.no_duplicates(),
        forall|t: usize| #[trigger]
            r@.contains(t) == (t != own && any_satisfied(
                model::package_views(packages@),
                text::texts(specs@),
                t,
            )),
        forall|k: int| 0 <= k < r.len() ==> #[trigger] r@[k] < packages.len(),
{
    let ghost ps = model::package_views(packages@);
    let ghost wanted = text::texts(specs@);
    let mut out: Vec<usize> = Vec::new();
    let mut i: usize = 0;
    while i < specs.len()
        invariant
            i <= specs.len(),
            ps == model::package_views(packages@),
            wanted == text::texts(specs@),
            indexes(index@, ps),
            offers(providers@, ps, packages.len() as int),
            out@.no_duplicates(),
            forall|t: usize| #[trigger]
                out@.contains(t) == (t != own && exists|k: int|
                    0 <= k < i && satisfies(ps, #[trigger] wanted[k], t)),
        decreases specs.len() - i,
    {
        let found = resolve(specs[i].as_str(), packages, index, providers);
        assert(wanted[i as int] == specs@[i as int]@);
        let mut j: usize = 0;
        while j < found.len()
            invariant
                i < specs.len(),
                j <= found.len(),
                ps == model::package_views(packages@),
                wanted == text::texts(specs@),
                out@.no_duplicates(),
                forall|t: usize| #[trigger] found@.contains(t) == satisfies(ps, wanted[i as int], t),
                forall|t: usize| #[trigger]
                    out@.contains(t) == (t != own && ((exists|k: int|
                        0 <= k < i && satisfies(ps, #[trigger] wanted[k], t)) || found@.take(
                        j as int,
                    ).contains(t))),
            decreases found.len() - j,
        {
            let target: usize = found[j];
            let ghost before = out@;
            let ghost seen = found@.take(j as int);
            let ghost next = found@.take(j + 1);
            proof {
                assert(next =~= seen.push(target));
                sets::lemma_push_contains(seen, target);
            }
            if target != own && !holds(&out, target) {
                out.push(target);
                proof {
                    sets::lemma_push_contains(before, target);
                }
            }
            j += 1;
        }
        proof {
            assert(found@.take(found@.len() as int) =~= found@);
            assert forall|t: usize| #[trigger] out@.contains(t) == (t != own && exists|k: int|
                0 <= k < i + 1 && satisfies(ps, #[trigger] wanted[k], t)) by {
                assert(found@.contains(t) == satisfies(ps, wanted[i as int], t));
            }
        }
        i += 1;
    }
    proof {
        assert forall|t: usize| #[trigger] out@.contains(t) == (t != own && any_satisfied(
            ps,
            wanted,
            t,
        )) by {}
        assert forall|k: int| 0 <= k < out.len() implies #[trigger] out@[k] < packages.len() by {
            let t = out@[k];
            assert(out@.contains(t));
            let m = choose|m: int| 0 <= m < wanted.len() && satisfies(ps, #[trigger] wanted[m], t);
            assert(satisfies(ps, wanted[m], t));
        }
    }
    out
}

/// Whether a name is one of the critical packages.
fn is_critical(name: &str) -> (r: bool)
    ensures
        r == critical(name@),
{
    same(name, "base") || same(name, "linux") || same(name, "linux-lts") || same(name, "linux-zen")
        || same(name, "linux-hardened") || same(name, "linux-firmware") || same(name, "mkinitcpio")
        || same(name, "dracut") || same(name, "grub") || same(name, "systemd-boot") || same(
        name,
        "refind",
    ) || same(name, "efibootmgr") || same(name, "sudo") || same(name, "pacman")
}

/// The flags of a list that are not set.
spec fn unset(flags: Seq<bool>) -> nat
    decreases flags.len(),
{
    if flags.len() == 0 {
        0
    } else {
        unset(flags.drop_last()) + if flags.last() {
            0nat
        } else {
            1nat
        }
    }
}

proof fn lemma_unset_drops(flags: Seq<bool>, i: int)
    requires
        0 <= i < flags.len(),
        !flags[i],
    ensures
        unset(flags.update(i, true)) + 1 == unset(flags),
    decreases flags.len(),
{
    let after = flags.update(i, true);
    if i == flags.len() - 1 {
        assert(after.drop_last() =~= flags.drop_last());
    } else {
        lemma_unset_drops(flags.drop_last(), i);
        assert(after.drop_last() =~= flags.drop_last().update(i, true));
    }
}

/// Mark the critical packages and everything they transitively depend on.
fn protected_set(packages: &[Package], index: &TextMap<usize>, depends: &Vec<Vec<usize>>) -> (r: Vec<
    bool,
>)
    requires
        indexes(index@, model::package_views(packages@)),
        depends.len() == packages.len(),
        forall|i: usize, j: usize|
            i < packages.len() ==> (#[trigger] depends@[i as int]@.contains(j) == needs(
                model::package_views(packages@),
                i,
                j,
            )),
    ensures
        r.len() == packages.len(),
        forall|i: usize|
            i < packages.len() ==> #[trigger] r@[i as int] == is_guarded(
                model::package_views(packages@),
                i,
            ),
{
    let ghost ps = model::package_views(packages@);
    let n: usize = packages.len();
    let mut marked: Vec<bool> = Vec::new();
    let mut work: Vec<usize> = Vec::new();
    let mut i: usize = 0;
    while i < n
        invariant
            i <= n,
            n == packages.len(),
            ps == model::package_views(packages@),
            indexes(index@, ps),
            marked.len() == i,
            forall|k: int| 0 <= k < i ==> !#[trigger] marked@[k],
            forall|k: usize| #[trigger] work@.contains(k) == (k < i && is_root(ps, k)),
        decreases n - i,
    {
        marked.push(false);
        let package = &packages[i];
        let named = match index.get(package.name.as_str()) {
            Some(position) => *position == i && is_critical(package.name.as_str()),
            None => false,
        };
        proof {
            assert(index@.contains_key(package.name@) == (position_in(ps, package.name@) is Some));
        }
        let root = named || list_contains(&package.groups, "base");
        assert(root == is_root(ps, i));
        let ghost before = work@;
        if root {
            work.push(i);
        }
        proof {
            sets::lemma_push_contains(before, i);
            assert forall|k: usize| #[trigger] work@.contains(k) == (k < i + 1 && is_root(ps, k)) by {
                assert(before.contains(k) == (k < i && is_root(ps, k)));
            }
        }
        i += 1;
    }
    proof {
        assert forall|k: usize| #[trigger] work@.contains(k) implies is_guarded(ps, k) by {
            assert(is_root(ps, k));
        }
    }
    // A package is accounted for once it is marked or waits to be.
    while work.len() > 0
        invariant
            n == packages.len(),
            ps == model::package_views(packages@),
            depends.len() == n,
            marked.len() == n,
            forall|a: usize, b: usize|
                a < n ==> (#[trigger] depends@[a as int]@.contains(b) == needs(ps, a, b)),
            forall|k: usize| #[trigger] work@.contains(k) ==> k < n && is_guarded(ps, k),
            forall|k: usize| k < n && #[trigger] marked@[k as int] ==> is_guarded(ps, k),
            forall|k: usize| is_root(ps, k) ==> marked@[k as int] || work@.contains(k),
            forall|a: usize, b: usize|
                a < n && marked@[a as int] && #[trigger] needs(ps, a, b) ==> b < n && (
                marked@[b as int] || work@.contains(b)),
        decreases unset(marked@), work.len(),
    {
        let ghost before_work = work@;
        let ghost before_marked = marked@;
        let position: usize = work.pop().unwrap();
        proof {
            assert(before_work =~= work@.push(position));
            sets::lemma_push_contains(work@, position);
            assert(before_work.contains(position));
            assert forall|k: usize| #[trigger] work@.contains(k) implies k < n && is_guarded(
                ps,
                k,
            ) by {
                assert(before_work.contains(k));
            }
        }
        if !marked[position] {
            marked.set(position, true);
            let ghost popped = work@;
            let children = &depends[position];
            let mut copied = copy_positions(children);
            work.append(&mut copied);
            proof {
                lemma_unset_drops(before_marked, position as int);
                let added = depends@[position as int]@;
                assert(work@ == popped + added);
                sets::lemma_append_contains(popped, added);
                protection_is_closed(ps);
                assert forall|k: usize| #[trigger] work@.contains(k) implies k < n && is_guarded(
                    ps,
                    k,
                ) by {
                    if added.contains(k) {
                        assert(needs(ps, position, k));
                        protection_is_installed(ps, k);
                    }
                }
                assert forall|a: usize, b: usize|
                    a < n && marked@[a as int] && #[trigger] needs(ps, a, b) implies b < n && (
                marked@[b as int] || work@.contains(b)) by {
                    if a == position {
                        assert(added.contains(b));
                        protection_is_installed(ps, b);
                    } else {
                        assert(before_marked[a as int]);
                    }
                }
            }
        }
    }
    proof {
        let s = Set::new(|k: usize| k < n && marked@[k as int]);
        assert(guards(ps, s));
        assert forall|k: usize| k < n implies #[trigger] marked@[k as int] == is_guarded(ps, k) by {
            if is_guarded(ps, k) {
                assert(s.contains(k));
            }
        }
    }
    marked
}

} // verus!
