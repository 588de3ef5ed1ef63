//! What is proposed, shown and run.
use vstd::prelude::*;

use crate::graph;
use crate::janitor;
use crate::janitor::{CommandView, ReclaimView, TargetView};
use crate::laws::dependencies;
use crate::laws::removal;
use crate::model::PackageView;
use crate::number;
use crate::plan;
use crate::plan::{PlanView, StepView};
use crate::sets;
use crate::session;
use crate::split;
use crate::text;

verus! {

/// A plan names what was selected, what goes along, and what is protected among
/// the selection, each by the names of the packages.
pub proof fn plans_name_what_they_remove(ps: Seq<PackageView>, selection: Set<usize>, name: Seq<char>)
    requires
        ps.len() <= usize::MAX,
    ensures
        plan::plan_of(ps, selection).selected.contains(name) <==> exists|i: usize|
            selection.contains(i) && i < ps.len() && #[trigger] ps[i as int].name == name,
        plan::plan_of(ps, selection).cascade.contains(name) <==> exists|i: usize|
            graph::removal(ps, selection).contains(i) && !selection.contains(i) && i < ps.len()
                && #[trigger] ps[i as int].name == name,
        plan::plan_of(ps, selection).protected.contains(name) <==> exists|i: usize|
            selection.contains(i) && graph::is_guarded(ps, i) && i < ps.len()
                && #[trigger] ps[i as int].name == name,
{
    let gone = graph::removal(ps, selection);
    dependencies::lists_name_their_members(ps, selection, name);
    dependencies::lists_name_their_members(ps, gone.difference(selection), name);
    dependencies::lists_name_their_members(ps, plan::guarded_in(ps, selection), name);
    if exists|i: usize|
        gone.contains(i) && !selection.contains(i) && i < ps.len() && #[trigger] ps[i as int].name
            == name {
        let i = choose|i: usize|
            gone.contains(i) && !selection.contains(i) && i < ps.len()
                && #[trigger] ps[i as int].name == name;
        assert(gone.difference(selection).contains(i) && ps[i as int].name == name);
    }
    if exists|i: usize|
        gone.difference(selection).contains(i) && i < ps.len() && #[trigger] ps[i as int].name
            == name {
        let i = choose|i: usize|
            gone.difference(selection).contains(i) && i < ps.len() && #[trigger] ps[i as int].name
                == name;
        assert(gone.contains(i) && !selection.contains(i) && ps[i as int].name == name);
    }
    if exists|i: usize|
        selection.contains(i) && graph::is_guarded(ps, i) && i < ps.len()
            && #[trigger] ps[i as int].name == name {
        let i = choose|i: usize|
            selection.contains(i) && graph::is_guarded(ps, i) && i < ps.len()
                && #[trigger] ps[i as int].name == name;
        assert(plan::guarded_in(ps, selection).contains(i) && ps[i as int].name == name);
    }
    if exists|i: usize|
        plan::guarded_in(ps, selection).contains(i) && i < ps.len() && #[trigger] ps[i as int].name
            == name {
        let i = choose|i: usize|
            plan::guarded_in(ps, selection).contains(i) && i < ps.len()
                && #[trigger] ps[i as int].name == name;
        assert(selection.contains(i) && graph::is_guarded(ps, i) && ps[i as int].name == name);
    }
}

/// A plan promises the space of everything that goes, what goes along included.
pub proof fn plans_promise_the_whole_removal(ps: Seq<PackageView>, selection: Set<usize>, i: usize)
    requires
        ps.len() <= usize::MAX,
    ensures
        plan::plan_of(ps, selection).bytes == number::saturated(
            graph::size_of(ps, graph::removal(ps, selection)),
        ),
        graph::removal(ps, selection).contains(i) && i < ps.len() ==> plan::plan_of(
            ps,
            selection,
        ).bytes >= ps[i as int].size,
{
    let gone = graph::removal(ps, selection);
    if gone.contains(i) && i < ps.len() {
        removal::space_adds_up(ps, gone.remove(i), i);
        assert(gone.remove(i).insert(i) =~= gone);
    }
}

/// A plan that strands a package cannot be run, nor can one that removes
/// nothing; every other plan can.
pub proof fn plans_that_strand_a_package_do_not_run(
    ps: Seq<PackageView>,
    selection: Set<usize>,
    listed: Seq<Seq<char>>,
)
    requires
        graph::is_broken_list(ps, graph::removal(ps, selection), listed),
    ensures
        ({
            let gone = graph::removal(ps, selection);
            let p = PlanView { broken: listed, ..plan::plan_of(ps, selection) };
            p.is_executable() <==> p.selected.len() > 0 && forall|i: usize, j: usize|
                !gone.contains(i) && gone.contains(j) ==> !#[trigger] graph::needs(ps, i, j)
        }),
{
    let gone = graph::removal(ps, selection);
    if listed.len() > 0 {
        assert(listed.contains(listed[0]));
        removal::breakage_is_what_loses_a_dependency(ps, gone, listed, listed[0]);
    } else {
        assert forall|i: usize, j: usize| !gone.contains(i) && gone.contains(
            j,
        ) implies !#[trigger] graph::needs(ps, i, j) by {
            if graph::needs(ps, i, j) {
                removal::breakage_is_what_loses_a_dependency(ps, gone, listed, ps[i as int].name);
            }
        }
    }
}

/// Packages are removed by pacman as root, with their unneeded dependencies and
/// their configuration, and only those that were selected are named.
pub proof fn packages_are_removed_by_pacman(p: PlanView)
    ensures
        p.command().program == "pacman"@,
        p.command().needs_root,
        p.command().args.len() == p.selected.len() + 1,
        p.command().args[0] == "-Rns"@,
        forall|i: int| 0 <= i < p.selected.len() ==> #[trigger] p.command().args[i + 1] == p.selected[i],
{
}

/// A widening is what depends on the selection: its positions are those of the
/// packages that need part of it, directly or not, and it is offered only where
/// there are any and none is protected.
pub proof fn widenings_are_the_dependants(ps: Seq<PackageView>, selection: Set<usize>, i: usize)
    requires
        ps.len() <= usize::MAX,
    ensures
        plan::widening_of(ps, selection).positions.contains(i) <==> graph::dependants_of(
            ps,
            selection,
        ).contains(i),
        plan::widening_of(ps, selection).is_offerable() ==> (graph::dependants_of(
            ps,
            selection,
        ).contains(i) ==> !graph::is_guarded(ps, i)),
        graph::dependants_of(ps, selection).contains(i) && (forall|j: usize| #[trigger]
            graph::dependants_of(ps, selection).contains(j) ==> !graph::is_guarded(ps, j))
            ==> plan::widening_of(ps, selection).is_offerable(),
        (forall|j: usize| !(#[trigger] graph::dependants_of(ps, selection).contains(j)))
            ==> plan::widening_of(ps, selection).positions.len() == 0 && plan::widening_of(
            ps,
            selection,
        ).names.len() == 0 && plan::widening_of(ps, selection).protected.len() == 0
            && plan::widening_of(ps, selection).bytes == 0,
        graph::dependants_of(ps, selection).contains(i) ==> plan::widening_of(ps, selection).bytes
            == number::saturated(
            graph::size_of(
                ps,
                graph::removal(ps, selection.union(graph::dependants_of(ps, selection))),
            ),
        ),
{
    let dependants = graph::dependants_of(ps, selection);
    graph::dependants_are_closed(ps, selection);
    sets::lemma_below(dependants, ps.len());
    let guarded = plan::guarded_in(ps, dependants);
    let names = graph::sorted_names(ps, guarded);
    let positions = sets::below(dependants, ps.len());
    if positions.len() > 0 {
        assert(positions.contains(positions[0]));
    }
    if dependants.contains(i) {
        assert(sets::below(dependants, ps.len()).contains(i));
        if graph::is_guarded(ps, i) {
            dependencies::lists_name_their_members(ps, guarded, ps[i as int].name);
            assert(guarded.contains(i) && ps[i as int].name == ps[i as int].name);
            assert(names.contains(ps[i as int].name));
        }
        if names.len() > 0 {
            assert(names.contains(names[0]));
            dependencies::lists_name_their_members(ps, guarded, names[0]);
            let j = choose|j: usize|
                guarded.contains(j) && j < ps.len() && #[trigger] ps[j as int].name == names[0];
            assert(dependants.contains(j));
        }
    }
}

/// A command is shown as it runs: its program and its arguments with spaces
/// between them, behind `sudo` where it needs root.
pub proof fn commands_are_shown_as_they_run(command: CommandView, argument: Seq<char>)
    ensures
        command.args.len() == 0 && !command.needs_root ==> command.shell() == command.program,
        !command.needs_root ==> (CommandView { needs_root: true, ..command }).shell() == "sudo"@
            + " "@ + command.shell(),
        (CommandView { args: command.args.push(argument), ..command }).shell() == command.shell()
            + " "@ + argument,
{
    let words = seq![command.program] + command.args;
    if command.args.len() == 0 {
        assert(words =~= seq![command.program]);
    }
    let longer = CommandView { args: command.args.push(argument), ..command };
    let more = seq![longer.program] + longer.args;
    assert(more =~= words.push(argument));
    assert(more.drop_last() =~= words);
    let sudo = seq!["sudo"@] + words;
    assert((seq!["sudo"@] + more).drop_last() =~= sudo);
    assert(seq!["sudo"@] + more =~= sudo.push(argument));
    lemma_join_front("sudo"@, words, " "@);
}

proof fn lemma_join_front(first: Seq<char>, rest: Seq<Seq<char>>, sep: Seq<char>)
    requires
        rest.len() > 0,
    ensures
        split::join(seq![first] + rest, sep) == first + sep + split::join(rest, sep),
    decreases rest.len(),
{
    let all = seq![first] + rest;
    assert(all.drop_last() =~= seq![first] + rest.drop_last());
    assert(all.last() == rest.last());
    if rest.len() == 1 {
        assert(all.drop_last() =~= seq![first]);
        assert(split::join(seq![first], sep) == first);
        assert(split::join(rest, sep) == rest[0]);
        assert(split::join(all, sep) =~= first + sep + rest[0]);
    } else {
        lemma_join_front(first, rest.drop_last(), sep);
        assert(split::join(all, sep) =~= first + sep + split::join(rest, sep));
    }
}

/// What a shell makes of a word: inside single quotes every character stands
/// for itself up to the next quote, and outside them a backslash takes the
/// meaning off the character behind it.
pub open spec fn read_by_shell(s: Seq<char>, quoted: bool) -> Seq<char>
    decreases s.len(),
{
    if s.len() == 0 {
        Seq::empty()
    } else if s[0] == '\'' {
        read_by_shell(s.skip(1), !quoted)
    } else if !quoted && s[0] == '\\' && s.len() > 1 {
        seq![s[1]] + read_by_shell(s.skip(2), quoted)
    } else {
        seq![s[0]] + read_by_shell(s.skip(1), quoted)
    }
}

proof fn lemma_read_escaped(s: Seq<char>, tail: Seq<char>)
    ensures
        read_by_shell(plan::escaped(s) + tail, true) == s + read_by_shell(tail, true),
    decreases s.len(),
{
    reveal_strlit("'\\''");
    let mark = "'\\''"@;
    if s.len() == 0 {
        assert(plan::escaped(s) + tail =~= tail);
        assert(s + read_by_shell(tail, true) =~= read_by_shell(tail, true));
    } else {
        let front = s.drop_last();
        let c = s.last();
        if c == '\'' {
            let more = mark + tail;
            lemma_read_escaped(front, more);
            assert(plan::escaped(s) + tail =~= plan::escaped(front) + more);
            assert(more.skip(1)[0] == '\\' && more.skip(1)[1] == '\'');
            assert(more.skip(1).skip(2)[0] == '\'');
            assert(more.skip(1).skip(2).skip(1) =~= tail);
            assert(read_by_shell(more.skip(1).skip(2), false) == read_by_shell(tail, true));
            assert(read_by_shell(more.skip(1), false) == seq!['\''] + read_by_shell(tail, true));
            assert(read_by_shell(more, true) == seq!['\''] + read_by_shell(tail, true));
            assert(front + (seq!['\''] + read_by_shell(tail, true)) =~= s + read_by_shell(tail, true));
        } else {
            let more = seq![c] + tail;
            lemma_read_escaped(front, more);
            assert(plan::escaped(s) + tail =~= plan::escaped(front) + more);
            assert(more.skip(1) =~= tail);
            assert(read_by_shell(more, true) == seq![c] + read_by_shell(tail, true));
            assert(front + (seq![c] + read_by_shell(tail, true)) =~= s + read_by_shell(tail, true));
        }
    }
}

/// A shell that reads a quoted path reads the path, whatever it holds.
pub proof fn quoted_paths_are_read_back(s: Seq<char>)
    ensures
        read_by_shell(plan::quoted(s), false) == s,
{
    if forall|i: int| 0 <= i < s.len() ==> plan::is_plain(#[trigger] s[i]) {
        lemma_read_plain(s);
    } else {
        let inside = plan::escaped(s) + seq!['\''];
        let all = seq!['\''] + plan::escaped(s) + seq!['\''];
        assert(all.skip(1) =~= inside);
        lemma_read_escaped(s, seq!['\'']);
        let mark = seq!['\''];
        assert(mark.skip(1) =~= Seq::<char>::empty());
        assert(read_by_shell(mark.skip(1), false) =~= Seq::<char>::empty());
        assert(read_by_shell(mark, true) =~= Seq::<char>::empty());
        assert(s + Seq::<char>::empty() =~= s);
    }
}

proof fn lemma_read_plain(s: Seq<char>)
    requires
        forall|i: int| 0 <= i < s.len() ==> plan::is_plain(#[trigger] s[i]),
    ensures
        read_by_shell(s, false) == s,
    decreases s.len(),
{
    if s.len() > 0 {
        assert(plan::is_plain(s[0]));
        let rest = s.skip(1);
        assert forall|i: int| 0 <= i < rest.len() implies plan::is_plain(#[trigger] rest[i]) by {
            assert(rest[i] == s[i + 1]);
        }
        lemma_read_plain(rest);
        assert(seq![s[0]] + rest =~= s);
    }
}

/// A path is shown without quotes only where a shell leaves each of its
/// characters alone.
pub proof fn only_harmless_paths_go_unquoted(s: Seq<char>, i: int)
    requires
        plan::quoted(s) == s,
        0 <= i < s.len(),
    ensures
        s[i] != ' ' && s[i] != '\t' && s[i] != '\n' && s[i] != '\'' && s[i] != '"' && s[i] != '\\',
        s[i] != '$' && s[i] != '`' && s[i] != '*' && s[i] != '?' && s[i] != '[' && s[i] != ']',
        s[i] != ';' && s[i] != '&' && s[i] != '|' && s[i] != '<' && s[i] != '>' && s[i] != '(',
        s[i] != ')' && s[i] != '{' && s[i] != '}' && s[i] != '~' && s[i] != '!' && s[i] != '#',
{
    if !(forall|k: int| 0 <= k < s.len() ==> plan::is_plain(#[trigger] s[k])) {
        lemma_escaped_len(s);
        assert(plan::quoted(s).len() == plan::escaped(s).len() + 2);
    } else {
        assert(plan::is_plain(s[i]));
    }
}

proof fn lemma_escaped_len(s: Seq<char>)
    ensures
        plan::escaped(s).len() >= s.len(),
    decreases s.len(),
{
    reveal_strlit("'\\''");
    if s.len() > 0 {
        lemma_escaped_len(s.drop_last());
    }
}

/// Deleting is shown as `rm -rf` with every path behind it, quoted, and with
/// `sudo` in front where root is required.
pub proof fn deletions_are_shown_with_every_path(paths: Seq<Seq<char>>, path: Seq<char>)
    ensures
        (StepView::Delete { paths: seq![path], needs_root: false }).shell() == "rm -rf "@
            + plan::quoted(path),
        (StepView::Delete { paths, needs_root: true }).shell() == "sudo "@ + (StepView::Delete {
            paths,
            needs_root: false,
        }).shell(),
        paths.len() > 0 ==> (StepView::Delete { paths: paths.push(path), needs_root: false }).shell()
            == (StepView::Delete { paths, needs_root: false }).shell() + " "@ + plan::quoted(path),
{
    reveal_strlit("");
    let one = Seq::new(1, |i: int| plan::quoted(seq![path][i]));
    assert(Seq::new(seq![path].len(), |i: int| plan::quoted(seq![path][i])) =~= seq![
        plan::quoted(path),
    ]);
    assert(""@ + "rm -rf "@ + plan::quoted(path) =~= "rm -rf "@ + plan::quoted(path));
    let few = Seq::new(paths.len(), |i: int| plan::quoted(paths[i]));
    let more = paths.push(path);
    let many = Seq::new(more.len(), |i: int| plan::quoted(more[i]));
    assert(many =~= few.push(plan::quoted(path)));
    assert(many.drop_last() =~= few);
    assert("sudo "@ + "rm -rf "@ + split::join(few, " "@) =~= "sudo "@ + (""@ + "rm -rf "@
        + split::join(few, " "@)));
    if paths.len() > 0 {
        assert(""@ + "rm -rf "@ + split::join(many, " "@) =~= (""@ + "rm -rf "@ + split::join(
            few,
            " "@,
        )) + " "@ + plan::quoted(path));
    }
}

/// A target is reclaimed as it says: by its command, or by deleting its paths.
/// A hint or an advice runs nothing.
pub proof fn targets_are_reclaimed_as_they_say(target: TargetView)
    ensures
        match target.reclaim {
            ReclaimView::Run { command } => plan::step_of(target) == Some(StepView::Run { command }),
            ReclaimView::Paths { paths, needs_root } => plan::step_of(target) == Some(
                StepView::Delete { paths, needs_root },
            ),
            ReclaimView::Handoff { hint: _ } => plan::step_of(target) is None,
            ReclaimView::Advice { text: _ } => plan::step_of(target) is None,
        },
{
}

/// Root is asked for through `sudo`, only where it is needed and not there
/// already, and the program and its arguments stay as they were.
pub proof fn root_comes_through_sudo(command: CommandView, paths: Seq<Seq<char>>, uid: u32)
    ensures
        session::performance_of(StepView::Run { command }, uid) == (if command.needs_root && uid
            != 0 {
            session::PerformanceView::Run {
                program: "sudo"@,
                args: seq![command.program] + command.args,
            }
        } else {
            session::PerformanceView::Run { program: command.program, args: command.args }
        }),
        uid != 0 ==> session::performance_of(StepView::Delete { paths, needs_root: true }, uid) == (
        session::PerformanceView::Run { program: "sudo"@, args: seq!["rm"@, "-rf"@] + paths }),
        session::performance_of(StepView::Delete { paths, needs_root: false }, uid) == (
        session::PerformanceView::Remove { paths }),
        session::performance_of(StepView::Delete { paths, needs_root: true }, 0) == (
        session::PerformanceView::Remove { paths }),
{
}

} // verus!
