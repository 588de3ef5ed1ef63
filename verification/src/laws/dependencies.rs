//! Who needs whom.
use vstd::prelude::*;

use crate::graph;
use crate::localdb;
use crate::model;
use crate::sets;
use crate::sort;
use crate::text;

verus! {

/// Whether a text is made of the characters that package names are made of.
pub open spec fn is_name(s: Seq<char>) -> bool {
    &&& s.len() > 0
    &&& forall|i: int|
        0 <= i < s.len() ==> {
            ||| 'a' <= #[trigger] s[i] <= 'z'
            ||| 'A' <= s[i] <= 'Z'
            ||| '0' <= s[i] <= '9'
            ||| s[i] == '@'
            ||| s[i] == '.'
            ||| s[i] == '_'
            ||| s[i] == '+'
            ||| s[i] == '-'
        }
}

/// Whether a text may stand behind a name: a constraint such as `>=1.2`, a
/// reason such as `: for plugins`, or nothing.
pub open spec fn is_behind(rest: Seq<char>) -> bool {
    rest.len() == 0 || rest[0] == '<' || rest[0] == '>' || rest[0] == '=' || rest[0] == ':'
}

/// A dependency names what stands in front of its constraint, whatever the
/// constraint or the reason behind it says.
pub proof fn names_stand_in_front(name: Seq<char>, rest: Seq<char>)
    requires
        is_name(name),
        is_behind(rest),
    ensures
        localdb::name_in(name + rest) == name,
{
    assert forall|i: int| 0 <= i < name.len() implies #[trigger] name[i] != ':'
        && !localdb::constraint_marks()(name[i]) by {}
    assert(!text::is_white(name[0]));
    assert(!text::is_white(name.last()));
    assert(text::trim_start_where(name, text::whites()) == name);
    assert(text::trim(name) == name);
    localdb::constraints_are_stripped(name, rest);
}

/// The position of the last package of a name is that of the name.
pub proof fn lemma_position(ps: Seq<model::PackageView>, i: int)
    requires
        0 <= i < ps.len() <= usize::MAX,
        forall|j: int| i < j < ps.len() ==> (#[trigger] ps[j]).name != ps[i].name,
    ensures
        graph::position_in(ps, ps[i].name) == Some(i as usize),
    decreases ps.len(),
{
    if i < ps.len() - 1 {
        assert(ps.last() == ps[ps.len() - 1]);
        let front = ps.drop_last();
        assert forall|j: int| i < j < front.len() implies (#[trigger] front[j]).name
            != front[i].name by {
            assert(front[j] == ps[j]);
        }
        lemma_position(front, i);
    }
}

/// A name that no package has is that of none.
proof fn lemma_no_position(ps: Seq<model::PackageView>, name: Seq<char>)
    requires
        forall|j: int| 0 <= j < ps.len() ==> (#[trigger] ps[j]).name != name,
    ensures
        graph::position_in(ps, name) is None,
    decreases ps.len(),
{
    if ps.len() > 0 {
        assert(ps.last() == ps[ps.len() - 1]);
        assert forall|j: int| 0 <= j < ps.drop_last().len() implies (
        #[trigger] ps.drop_last()[j]).name != name by {
            assert(ps.drop_last()[j] == ps[j]);
        }
        lemma_no_position(ps.drop_last(), name);
    }
}

/// What the position of a name says.
proof fn lemma_found(ps: Seq<model::PackageView>, name: Seq<char>)
    requires
        ps.len() <= usize::MAX,
    ensures
        match graph::position_in(ps, name) {
            Some(p) => p < ps.len() && ps[p as int].name == name,
            None => forall|i: int| 0 <= i < ps.len() ==> (#[trigger] ps[i]).name != name,
        },
    decreases ps.len(),
{
    if ps.len() > 0 && ps.last().name != name {
        lemma_found(ps.drop_last(), name);
        if graph::position_in(ps, name) is None {
            assert forall|i: int| 0 <= i < ps.len() implies (#[trigger] ps[i]).name != name by {
                if i < ps.len() - 1 {
                    assert(ps.drop_last()[i].name != name);
                }
            }
        }
    }
}

/// A package that is called by the name in a dependency is needed by the
/// package that has the dependency, under any constraint.
pub proof fn names_are_needed(
    ps: Seq<model::PackageView>,
    i: usize,
    j: usize,
    rest: Seq<char>,
)
    requires
        ps.len() <= usize::MAX,
        i < ps.len(),
        j < ps.len(),
        i != j,
        is_name(ps[j as int].name),
        is_behind(rest),
        forall|k: int| j < k < ps.len() ==> (#[trigger] ps[k]).name != ps[j as int].name,
    ensures
        ps[i as int].depends.contains(ps[j as int].name + rest) ==> graph::needs(ps, i, j),
        ps[i as int].optdepends.contains(ps[j as int].name + rest) ==> graph::wants(ps, i, j),
{
    let wanted = ps[j as int].name + rest;
    names_stand_in_front(ps[j as int].name, rest);
    lemma_position(ps, j as int);
    assert(graph::satisfies(ps, wanted, j));
    if ps[i as int].depends.contains(wanted) {
        let k = choose|k: int|
            0 <= k < ps[i as int].depends.len() && ps[i as int].depends[k] == wanted;
        assert(graph::satisfies(ps, ps[i as int].depends[k], j));
    }
    if ps[i as int].optdepends.contains(wanted) {
        let k = choose|k: int|
            0 <= k < ps[i as int].optdepends.len() && ps[i as int].optdepends[k] == wanted;
        assert(graph::satisfies(ps, ps[i as int].optdepends[k], j));
    }
}

/// A package that provides a name, with a version behind it or without, is
/// needed by the package that depends on the name, under any constraint, where
/// no package is called by the name itself.
pub proof fn provided_names_are_needed(
    ps: Seq<model::PackageView>,
    i: usize,
    j: usize,
    name: Seq<char>,
    version: Seq<char>,
    constraint: Seq<char>,
)
    requires
        i < ps.len(),
        j < ps.len(),
        i != j,
        is_name(name),
        is_behind(version),
        is_behind(constraint),
        ps[j as int].provides.contains(name + version),
        forall|k: int| 0 <= k < ps.len() ==> (#[trigger] ps[k]).name != name,
    ensures
        graph::satisfies(ps, name + constraint, j),
        ps[i as int].depends.contains(name + constraint) ==> graph::needs(ps, i, j),
        ps[i as int].optdepends.contains(name + constraint) ==> graph::wants(ps, i, j),
{
    names_stand_in_front(name, version);
    names_stand_in_front(name, constraint);
    lemma_no_position(ps, name);
    let offers = ps[j as int].provides;
    let m = choose|m: int| 0 <= m < offers.len() && offers[m] == name + version;
    assert(localdb::name_in(offers[m]) == name);
    let wanted = name + constraint;
    assert(graph::satisfies(ps, wanted, j));
    if ps[i as int].depends.contains(wanted) {
        let k = choose|k: int|
            0 <= k < ps[i as int].depends.len() && ps[i as int].depends[k] == wanted;
        assert(graph::satisfies(ps, ps[i as int].depends[k], j));
    }
    if ps[i as int].optdepends.contains(wanted) {
        let k = choose|k: int|
            0 <= k < ps[i as int].optdepends.len() && ps[i as int].optdepends[k] == wanted;
        assert(graph::satisfies(ps, ps[i as int].optdepends[k], j));
    }
}

/// Whether a package has a name or provides it. A name that is provided counts
/// only where no package is called by it.
pub open spec fn answers(ps: Seq<model::PackageView>, j: usize, name: Seq<char>) -> bool {
    &&& name.len() > 0
    &&& ps[j as int].name == name || ((exists|m: int|
        0 <= m < ps[j as int].provides.len() && localdb::name_in(
            #[trigger] ps[j as int].provides[m],
        ) == name) && forall|p: int| 0 <= p < ps.len() ==> (#[trigger] ps[p]).name != name)
}

/// Nothing is needed without a reason: behind every need stands a dependency
/// that the one package lists, and a name that the other has or provides.
pub proof fn needs_have_a_reason(ps: Seq<model::PackageView>, i: usize, j: usize)
    requires
        ps.len() <= usize::MAX,
        graph::needs(ps, i, j),
    ensures
        i < ps.len(),
        j < ps.len(),
        i != j,
        exists|k: int|
            0 <= k < ps[i as int].depends.len() && answers(
                ps,
                j,
                localdb::name_in(#[trigger] ps[i as int].depends[k]),
            ),
{
    let depends = ps[i as int].depends;
    let k = choose|k: int| 0 <= k < depends.len() && graph::satisfies(ps, #[trigger] depends[k], j);
    let name = localdb::name_in(depends[k]);
    lemma_found(ps, name);
    if graph::position_in(ps, name) is None {
        let offers = ps[j as int].provides;
        let m = choose|m: int|
            0 <= m < offers.len() && localdb::name_in(#[trigger] offers[m]) == name;
        assert(localdb::name_in(ps[j as int].provides[m]) == name);
    }
    assert(localdb::name_in(ps[i as int].depends[k]) == name);
}

/// A package is no dependant of its own, and nothing depends on what is not
/// installed.
pub proof fn needs_join_two_packages(ps: Seq<model::PackageView>, i: usize, j: usize)
    ensures
        graph::needs(ps, i, j) ==> i != j && i < ps.len() && j < ps.len(),
        graph::wants(ps, i, j) ==> i != j && i < ps.len() && j < ps.len(),
{
}

/// Whether two packages agree in everything that dependencies are made of: the
/// name, what it depends on and what it provides.
pub open spec fn same_ties(p: model::PackageView, q: model::PackageView) -> bool {
    p.name == q.name && p.depends == q.depends && p.provides == q.provides
}

/// Packages of the same ties stand at the same positions.
pub proof fn lemma_same_position(
    ps: Seq<model::PackageView>,
    qs: Seq<model::PackageView>,
    name: Seq<char>,
)
    requires
        ps.len() == qs.len(),
        forall|i: int| 0 <= i < ps.len() ==> same_ties(#[trigger] ps[i], qs[i]),
    ensures
        graph::position_in(ps, name) == graph::position_in(qs, name),
    decreases ps.len(),
{
    if ps.len() > 0 {
        assert(same_ties(ps[ps.len() - 1], qs[ps.len() - 1]));
        assert forall|i: int| 0 <= i < ps.drop_last().len() implies same_ties(
            #[trigger] ps.drop_last()[i],
            qs.drop_last()[i],
        ) by {
            assert(same_ties(ps[i], qs[i]));
        }
        lemma_same_position(ps.drop_last(), qs.drop_last(), name);
    }
}

/// Only names, dependencies and provided names decide who needs whom: optional
/// dependencies, sizes, dates and descriptions do not.
pub proof fn nothing_else_makes_a_need(
    ps: Seq<model::PackageView>,
    qs: Seq<model::PackageView>,
    i: usize,
    j: usize,
)
    requires
        ps.len() == qs.len(),
        forall|k: int| 0 <= k < ps.len() ==> same_ties(#[trigger] ps[k], qs[k]),
    ensures
        graph::needs(ps, i, j) == graph::needs(qs, i, j),
{
    if i < ps.len() && j < ps.len() {
        assert(same_ties(ps[i as int], qs[i as int]));
        assert(same_ties(ps[j as int], qs[j as int]));
        let depends = ps[i as int].depends;
        assert forall|k: int| 0 <= k < depends.len() implies graph::satisfies(
            ps,
            #[trigger] depends[k],
            j,
        ) == graph::satisfies(qs, depends[k], j) by {
            lemma_same_position(ps, qs, localdb::name_in(depends[k]));
        }
    }
}

/// The names that the graph lists for a set of packages are those of its
/// members, in order.
pub proof fn lists_name_their_members(ps: Seq<model::PackageView>, s: Set<usize>, name: Seq<char>)
    requires
        ps.len() <= usize::MAX,
    ensures
        graph::sorted_names(ps, s).contains(name) <==> exists|i: usize|
            s.contains(i) && i < ps.len() && #[trigger] ps[i as int].name == name,
        forall|a: int, b: int|
            0 <= a < b < graph::sorted_names(ps, s).len() ==> text::text_le(
                #[trigger] graph::sorted_names(ps, s)[a],
                #[trigger] graph::sorted_names(ps, s)[b],
            ),
{
    let at = sets::below(s, ps.len());
    let names = graph::names_at(ps, at);
    sets::lemma_below(s, ps.len());
    sort::sorting_keeps_texts(names);
    text::text_order_is_total();
    names.lemma_sort_by_ensures(sort::text_order());
    if names.contains(name) {
        let k = choose|k: int| 0 <= k < names.len() && names[k] == name;
        assert(s.contains(at[k]) && at[k] < ps.len() && ps[at[k] as int].name == name);
    }
    if exists|i: usize| s.contains(i) && i < ps.len() && #[trigger] ps[i as int].name == name {
        let i = choose|i: usize|
            s.contains(i) && i < ps.len() && #[trigger] ps[i as int].name == name;
        assert(at.contains(i));
        let k = choose|k: int| 0 <= k < at.len() && at[k] == i;
        assert(names[k] == name);
    }
    let sorted = graph::sorted_names(ps, s);
    assert forall|a: int, b: int| 0 <= a < b < sorted.len() implies text::text_le(
        #[trigger] sorted[a],
        #[trigger] sorted[b],
    ) by {
        assert(sort::text_order()(sorted[a], sorted[b]));
    }
}

/// A package lists as the ones that need it exactly those whose dependencies
/// it satisfies, so one that provides what another depends on is no orphan.
pub proof fn providers_are_no_orphans(
    ps: Seq<model::PackageView>,
    i: usize,
    j: usize,
    name: Seq<char>,
    version: Seq<char>,
    constraint: Seq<char>,
)
    requires
        ps.len() <= usize::MAX,
        i < ps.len(),
        j < ps.len(),
        i != j,
        is_name(name),
        is_behind(version),
        is_behind(constraint),
        ps[j as int].provides.contains(name + version),
        ps[i as int].depends.contains(name + constraint),
        forall|k: int| 0 <= k < ps.len() ==> (#[trigger] ps[k]).name != name,
    ensures
        graph::requirers(ps, j).contains(i),
        graph::sorted_names(ps, graph::requirers(ps, j)).contains(ps[i as int].name),
{
    provided_names_are_needed(ps, i, j, name, version, constraint);
    lists_name_their_members(ps, graph::requirers(ps, j), ps[i as int].name);
    assert(graph::requirers(ps, j).contains(i));
}

/// Those that need a package and those that only list it as optional are kept
/// apart, and nobody else is listed.
pub proof fn requirers_are_those_that_need(ps: Seq<model::PackageView>, i: usize, j: usize)
    ensures
        graph::requirers(ps, j).contains(i) == graph::needs(ps, i, j),
        graph::wanters(ps, j).contains(i) == graph::wants(ps, i, j),
{
}

} // verus!
