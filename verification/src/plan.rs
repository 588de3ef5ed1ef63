//! Turning a selection into the exact commands that will run.
//!
//! Nothing here executes anything. A [`Plan`] is a proposal the user reviews,
//! and it deliberately carries the bad news — what breaks, what gets dragged
//! along, what is protected — next to the number of bytes it promises.
use std::collections::BTreeSet;

use vstd::prelude::*;

use crate::graph;
use crate::graph::Graph;
use crate::janitor;
use crate::janitor::{Command, Reclaim, Target};
use crate::model;
use crate::model::{Entry, Inventory, Package};
use crate::number;
use crate::sets;
use crate::sets::members;
use crate::sort;
use crate::split;
use crate::split::joined;
use crate::text;
use crate::text::{chars_of, copy_texts};

verus! {

/// A proposed package removal.
#[derive(Clone, Debug, PartialEq, Eq)]
pub struct Plan {
    /// Packages the user picked, sorted.
    pub selected: Vec<String>,
    /// Packages pacman will additionally remove as unneeded dependencies.
    pub cascade: Vec<String>,
    /// Installed packages that depend on the selection and were not picked.
    ///
    /// Non-empty means pacman will refuse the transaction, which is the right
    /// outcome: it is a mistake, not something to work around.
    pub broken: Vec<String>,
    /// Selected packages that carry the protected flag.
    pub protected: Vec<String>,
    /// Total bytes the transaction frees, cascade included.
    pub bytes: u64,
}

/// The view of a [`Plan`].
#[verifier::ext_equal]
pub struct PlanView {
    /// See [`Plan::selected`].
    pub selected: Seq<Seq<char>>,
    /// See [`Plan::cascade`].
    pub cascade: Seq<Seq<char>>,
    /// See [`Plan::broken`].
    pub broken: Seq<Seq<char>>,
    /// See [`Plan::protected`].
    pub protected: Seq<Seq<char>>,
    /// See [`Plan::bytes`].
    pub bytes: u64,
}

impl View for Plan {
    type V = PlanView;

    open spec fn view(&self) -> PlanView {
        PlanView {
            selected: text::texts(self.selected@),
            cascade: text::texts(self.cascade@),
            broken: text::texts(self.broken@),
            protected: text::texts(self.protected@),
            bytes: self.bytes,
        }
    }
}

impl PlanView {
    /// Whether the plan can be executed as it stands.
    pub open spec fn is_executable(self) -> bool {
        self.selected.len() > 0 && self.broken.len() == 0
    }

    /// The command that carries the plan out.
    pub open spec fn command(self) -> janitor::CommandView {
        janitor::CommandView {
            program: "pacman"@,
            args: seq!["-Rns"@] + self.selected,
            needs_root: true,
        }
    }
}

/// The packages in a set that are protected.
pub open spec fn guarded_in(ps: Seq<model::PackageView>, s: Set<usize>) -> Set<usize> {
    Set::new(|i: usize| s.contains(i) && graph::is_guarded(ps, i))
}

/// What removing a selection would do.
pub open spec fn plan_of(ps: Seq<model::PackageView>, selection: Set<usize>) -> PlanView {
    let removed = graph::removal(ps, selection);
    PlanView {
        selected: graph::sorted_names(ps, selection),
        cascade: graph::sorted_names(ps, removed.difference(selection)),
        broken: graph::broken_names(ps, removed),
        protected: graph::sorted_names(ps, guarded_in(ps, selection)),
        bytes: number::saturated(graph::size_of(ps, removed)),
    }
}

impl Plan {
    /// Whether the plan can be executed as it stands.
    pub fn is_executable(&self) -> (r: bool)
        ensures
            r == self@.is_executable(),
    {
        self.selected.len() > 0 && self.broken.len() == 0
    }

    /// Every package the transaction removes.
    pub fn all_removed(&self) -> (r: Vec<String>)
        ensures
            text::texts(r@) == self@.selected + self@.cascade,
    {
        let mut names = copy_texts(&self.selected);
        let mut more = copy_texts(&self.cascade);
        names.append(&mut more);
        assert(text::texts(names@) =~= self@.selected + self@.cascade);
        names
    }

    /// The command pacman would run.
    pub fn command(&self) -> (r: Command)
        ensures
            r@ == self@.command(),
    {
        let mut args: Vec<String> = Vec::new();
        args.push("-Rns".to_owned());
        let mut names = copy_texts(&self.selected);
        args.append(&mut names);
        let r = Command { program: "pacman".to_owned(), args, needs_root: true };
        assert(r@.args =~= self@.command().args);
        r
    }

    /// The same transaction, but only printing what it would do.
    pub fn dry_run_command(&self) -> (r: Command)
        ensures
            r@ == (janitor::CommandView {
                program: "pacman"@,
                args: seq!["-Rns"@, "--print"@] + self@.selected,
                needs_root: false,
            }),
    {
        let mut args: Vec<String> = Vec::new();
        args.push("-Rns".to_owned());
        args.push("--print".to_owned());
        let mut names = copy_texts(&self.selected);
        args.append(&mut names);
        // `--print` changes nothing, so it does not need root and can be run
        // without a password prompt.
        let r = Command { program: "pacman".to_owned(), args, needs_root: false };
        assert(r@.args =~= seq!["-Rns"@, "--print"@] + self@.selected);
        r
    }
}

/// The packages of a list of entries.
fn packages_in(entries: &Vec<Entry>) -> (r: Vec<Package>)
    ensures
        model::package_views(r@) == model::packages_of(model::entry_views(entries@)),
{
    let ghost ps = model::packages_of(model::entry_views(entries@));
    let mut out: Vec<Package> = Vec::new();
    let mut i: usize = 0;
    while i < entries.len()
        invariant
            i <= entries.len(),
            ps == model::packages_of(model::entry_views(entries@)),
            out.len() == i,
            forall|k: int| 0 <= k < i ==> #[trigger] out@[k]@ == ps[k],
        decreases entries.len() - i,
    {
        out.push(entries[i].package.clone());
        i += 1;
    }
    assert(model::package_views(out@) =~= ps);
    out
}

/// The members of a set below `n` that pass a test of the graph.
fn guarded_members(graph: &Graph<'_>, s: &BTreeSet<usize>, n: usize) -> (r: BTreeSet<usize>)
    requires
        n == graph.view_packages().len(),
    ensures
        r@ == guarded_in(graph.view_packages(), s@),
{
    let ghost ps = graph.view_packages();
    let listed = members(s, n);
    proof {
        sets::lemma_below(s@, n as nat);
    }
    let mut out: BTreeSet<usize> = BTreeSet::new();
    let mut i: usize = 0;
    while i < listed.len()
        invariant
            i <= listed.len(),
            ps == graph.view_packages(),
            forall|x: usize| #[trigger]
                out@.contains(x) <==> listed@.take(i as int).contains(x) && graph::is_guarded(ps, x),
        decreases listed.len() - i,
    {
        let at: usize = listed[i];
        proof {
            assert(listed@.take(i + 1) =~= listed@.take(i as int).push(at));
            sets::lemma_push_contains(listed@.take(i as int), at);
        }
        if graph.is_protected(at) {
            out.insert(at);
        }
        i += 1;
    }
    proof {
        assert(listed@.take(listed@.len() as int) =~= listed@);
        assert forall|x: usize| out@.contains(x) <==> guarded_in(ps, s@).contains(x) by {
            assert(listed@.contains(x) <==> s@.contains(x) && x < n);
            if graph::is_guarded(ps, x) {
                graph::protection_is_installed(ps, x);
            }
        }
        assert(out@ =~= guarded_in(ps, s@));
    }
    out
}

/// The members of `a` below `n` that are not in `b`.
fn without(a: &BTreeSet<usize>, b: &BTreeSet<usize>, n: usize) -> (r: BTreeSet<usize>)
    ensures
        forall|x: usize| #[trigger] r@.contains(x) <==> x < n && a@.contains(x) && !b@.contains(x),
{
    let listed = members(a, n);
    proof {
        sets::lemma_below(a@, n as nat);
    }
    let mut out: BTreeSet<usize> = BTreeSet::new();
    let mut i: usize = 0;
    while i < listed.len()
        invariant
            i <= listed.len(),
            forall|x: usize| #[trigger]
                out@.contains(x) <==> listed@.take(i as int).contains(x) && !b@.contains(x),
        decreases listed.len() - i,
    {
        let at: usize = listed[i];
        proof {
            assert(listed@.take(i + 1) =~= listed@.take(i as int).push(at));
            sets::lemma_push_contains(listed@.take(i as int), at);
        }
        if !b.contains(&at) {
            out.insert(at);
        }
        i += 1;
    }
    assert(listed@.take(listed@.len() as int) =~= listed@);
    out
}

/// Work out what removing `selection` would really do.
pub fn build(inventory: &Inventory, selection: &BTreeSet<usize>) -> (r: Plan)
    ensures
        r@ == plan_of(
            model::packages_of(model::entry_views(inventory.entries@)),
            selection@,
        ),
{
    let packages = packages_in(&inventory.entries);
    let ghost ps = model::package_views(packages@);
    let n: usize = packages.len();
    let graph = Graph::build(packages.as_slice());
    let removed = graph.cascade(selection);
    let extra = without(&removed, selection, n);
    proof {
        sets::lemma_below_same(extra@, removed@.difference(selection@), n as nat);
    }
    let selected = graph.names_of(selection);
    let cascade = graph.names_of(&extra);
    let broken = graph.broken_by(&removed);
    let protected = graph.names_of(&guarded_members(&graph, selection, n));
    let bytes: u64 = graph.total_size(&removed);
    Plan { selected, cascade, broken, protected, bytes }
}

/// What it would take to make a breaking selection consistent.
///
/// When a selection strands installed packages, the fix is almost always to
/// remove those too. Working that out one layer at a time is tedious, so this
/// computes the whole closure at once — along with the reason not to offer it,
/// when the closure reaches the base system.
#[derive(Clone, Debug, PartialEq, Eq)]
pub struct Widening {
    /// Positions to add to the selection.
    pub positions: Vec<usize>,
    /// Their names, sorted.
    pub names: Vec<String>,
    /// Bytes the widened selection would free, cascade included.
    pub bytes: u64,
    /// Names among them that the base system depends on.
    ///
    /// Non-empty means the removal has reached something that should not be
    /// swept up by accepting a prompt, and the offer is withheld.
    pub protected: Vec<String>,
}

/// The view of a [`Widening`].
#[verifier::ext_equal]
pub struct WideningView {
    /// See [`Widening::positions`].
    pub positions: Seq<usize>,
    /// See [`Widening::names`].
    pub names: Seq<Seq<char>>,
    /// See [`Widening::bytes`].
    pub bytes: u64,
    /// See [`Widening::protected`].
    pub protected: Seq<Seq<char>>,
}

impl View for Widening {
    type V = WideningView;

    open spec fn view(&self) -> WideningView {
        WideningView {
            positions: self.positions@,
            names: text::texts(self.names@),
            bytes: self.bytes,
            protected: text::texts(self.protected@),
        }
    }
}

impl WideningView {
    /// A widening by nothing.
    pub open spec fn nothing() -> WideningView {
        WideningView {
            positions: Seq::empty(),
            names: Seq::empty(),
            bytes: 0,
            protected: Seq::empty(),
        }
    }

    /// Whether a widening can be offered.
    pub open spec fn is_offerable(self) -> bool {
        self.positions.len() > 0 && self.protected.len() == 0
    }
}

/// Everything that would have to be marked alongside a selection.
pub open spec fn widening_of(ps: Seq<model::PackageView>, selection: Set<usize>) -> WideningView {
    let dependants = graph::dependants_of(ps, selection);
    let positions = sets::below(dependants, ps.len());
    if positions.len() == 0 {
        WideningView::nothing()
    } else {
        WideningView {
            positions,
            names: graph::sorted_names(ps, dependants),
            bytes: number::saturated(
                graph::size_of(ps, graph::removal(ps, selection.union(dependants))),
            ),
            protected: graph::sorted_names(ps, guarded_in(ps, dependants)),
        }
    }
}

impl Default for Widening {
    fn default() -> (r: Widening)
        ensures
            r@ == WideningView::nothing(),
    {
        let r = Widening {
            positions: Vec::new(),
            names: Vec::new(),
            bytes: 0,
            protected: Vec::new(),
        };
        assert(r@ =~= WideningView::nothing());
        r
    }
}

impl Widening {
    /// Whether widening is possible and safe enough to offer.
    pub fn is_offerable(&self) -> (r: bool)
        ensures
            r == self@.is_offerable(),
    {
        self.positions.len() > 0 && self.protected.len() == 0
    }
}

/// Adds every listed position to a set.
pub fn extend(s: &mut BTreeSet<usize>, v: &Vec<usize>)
    ensures
        final(s)@ == old(s)@.union(v@.to_set()),
{
    let mut i: usize = 0;
    while i < v.len()
        invariant
            i <= v.len(),
            forall|x: usize| #[trigger]
                s@.contains(x) <==> old(s)@.contains(x) || v@.take(i as int).contains(x),
        decreases v.len() - i,
    {
        let at: usize = v[i];
        proof {
            assert(v@.take(i + 1) =~= v@.take(i as int).push(at));
            sets::lemma_push_contains(v@.take(i as int), at);
        }
        s.insert(at);
        i += 1;
    }
    assert(v@.take(v@.len() as int) =~= v@);
    assert(s@ =~= old(s)@.union(v@.to_set()));
}

/// Work out everything that would have to be marked alongside `selection`.
pub fn widen(inventory: &Inventory, selection: &BTreeSet<usize>) -> (r: Widening)
    ensures
        r@ == widening_of(
            model::packages_of(model::entry_views(inventory.entries@)),
            selection@,
        ),
{
    let packages = packages_in(&inventory.entries);
    let ghost ps = model::package_views(packages@);
    let n: usize = packages.len();
    let graph = Graph::build(packages.as_slice());
    let dependants = graph.dependants(selection);
    let positions = members(&dependants, n);
    if positions.len() == 0 {
        return Widening::default();
    }
    let mut widened = selection.clone();
    extend(&mut widened, &positions);
    proof {
        sets::lemma_below(dependants@, n as nat);
        graph::dependants_are_closed(ps, selection@);
        assert forall|x: usize| positions@.to_set().contains(x) <==> dependants@.contains(x) by {
            assert(positions@.contains(x) <==> dependants@.contains(x) && x < n);
            if dependants@.contains(x) {
                assert(x < n);
            }
        }
        assert(widened@ =~= selection@.union(dependants@));
    }
    Widening {
        names: graph.names_of(&dependants),
        bytes: graph.reclaimable(&widened),
        protected: graph.names_of(&guarded_members(&graph, &dependants, n)),
        positions,
    }
}

/// Accepting a widening makes a plan executable: once everything that depends
/// on a selection is marked too, nothing is stranded, and the plan can run.
pub proof fn widening_makes_executable(
    ps: Seq<model::PackageView>,
    selection: Set<usize>,
    member: usize,
)
    requires
        ps.len() <= usize::MAX,
        selection.contains(member),
        member < ps.len(),
    ensures
        plan_of(
            ps,
            selection.union(widening_of(ps, selection).positions.to_set()),
        ).is_executable(),
{
    let d = graph::dependants_of(ps, selection);
    let positions = sets::below(d, ps.len());
    graph::dependants_are_closed(ps, selection);
    sets::lemma_below(d, ps.len());
    let listed = widening_of(ps, selection).positions;
    assert(listed =~= positions);
    assert forall|x: usize| positions.to_set().contains(x) <==> d.contains(x) by {
        assert(positions.contains(x) <==> d.contains(x) && x < ps.len());
        if d.contains(x) {
            assert(x < ps.len());
        }
    }
    let wide = selection.union(positions.to_set());
    assert(wide =~= selection.union(d));
    assert forall|i: usize| !#[trigger] graph::stranded(ps, graph::removal(ps, wide), i) by {
        graph::widening_strands_nothing(ps, selection, i);
    }
    graph::nothing_stranded_nothing_listed(ps, graph::removal(ps, wide));
    sets::lemma_below(wide, ps.len());
    assert(wide.contains(member));
    assert(sets::below(wide, ps.len()).contains(member));
    sort::sorting_keeps_texts(graph::names_at(ps, sets::below(wide, ps.len())));
}

/// Adding to a selection never lowers the space that its plan promises.
pub proof fn plans_grow(ps: Seq<model::PackageView>, a: Set<usize>, b: Set<usize>)
    requires
        a.subset_of(b),
    ensures
        plan_of(ps, a).bytes <= plan_of(ps, b).bytes,
{
    graph::reclaimable_grows(ps, a, b);
}

// ---------------------------------------------------------------------------
// Steps
// ---------------------------------------------------------------------------

/// A single step the user has asked to run, ready for execution.
#[derive(Clone, Debug, PartialEq, Eq)]
pub enum Step {
    /// Run a command with the terminal attached.
    Run {
        /// The command.
        command: Command,
    },
    /// Delete these paths.
    Delete {
        /// Absolute paths.
        paths: Vec<String>,
        /// Whether root is required.
        needs_root: bool,
    },
}

/// The view of a [`Step`].
#[verifier::ext_equal]
pub enum StepView {
    /// See [`Step::Run`].
    Run {
        /// The command.
        command: janitor::CommandView,
    },
    /// See [`Step::Delete`].
    Delete {
        /// Absolute paths.
        paths: Seq<Seq<char>>,
        /// Whether root is required.
        needs_root: bool,
    },
}

impl View for Step {
    type V = StepView;

    open spec fn view(&self) -> StepView {
        match *self {
            Step::Run { command } => StepView::Run { command: command@ },
            Step::Delete { paths, needs_root } => StepView::Delete {
                paths: text::texts(paths@),
                needs_root,
            },
        }
    }
}

/// The views of a list of steps.
pub open spec fn step_views(steps: Seq<Step>) -> Seq<StepView> {
    Seq::new(steps.len(), |i: int| steps[i]@)
}

/// Whether a character needs no quoting in a shell line.
pub open spec fn is_plain(c: char) -> bool {
    ||| 'a' <= c <= 'z'
    ||| 'A' <= c <= 'Z'
    ||| '0' <= c <= '9'
    ||| c == '.'
    ||| c == '_'
    ||| c == '-'
    ||| c == '/'
    ||| c == '@'
    ||| c == '+'
    ||| c == ':'
    ||| c == '='
}

/// `s` with every single quote closed, escaped and opened again.
pub open spec fn escaped(s: Seq<char>) -> Seq<char>
    decreases s.len(),
{
    if s.len() == 0 {
        Seq::empty()
    } else if s.last() == '\'' {
        escaped(s.drop_last()) + "'\\''"@
    } else {
        escaped(s.drop_last()).push(s.last())
    }
}

/// A value as it stands in a shell line: as it is where every character is
/// plain, between single quotes where one is not.
pub open spec fn quoted(s: Seq<char>) -> Seq<char> {
    if forall|i: int| 0 <= i < s.len() ==> is_plain(#[trigger] s[i]) {
        s
    } else {
        seq!['\''] + escaped(s) + seq!['\'']
    }
}

impl StepView {
    /// The step as a shell line.
    pub open spec fn shell(self) -> Seq<char> {
        match self {
            StepView::Run { command } => command.shell(),
            StepView::Delete { paths, needs_root } => (if needs_root {
                "sudo "@
            } else {
                ""@
            }) + "rm -rf "@ + split::join(
                Seq::new(paths.len(), |i: int| quoted(paths[i])),
                " "@,
            ),
        }
    }
}

/// Quote a path for display in a shell line.
///
/// Only used for the copy-pasteable preview; execution never goes through a
/// shell, so this cannot become an injection path.
pub fn quote(value: &str) -> (r: String)
    ensures
        r@ == quoted(value@),
{
    let v = chars_of(value);
    let mut plain = true;
    let mut out = String::new();
    out.push('\'');
    let mut i: usize = 0;
    proof {
        assert(value@.take(0) =~= Seq::empty());
        assert(out@ =~= seq!['\''] + escaped(value@.take(0)));
    }
    while i < v.len()
        invariant
            i <= v.len(),
            v@ == value@,
            plain == forall|j: int| 0 <= j < i ==> is_plain(#[trigger] value@[j]),
            out@ == seq!['\''] + escaped(value@.take(i as int)),
        decreases v.len() - i,
    {
        let c = v[i];
        proof {
            assert(value@.take(i + 1).drop_last() =~= value@.take(i as int));
            assert(value@.take(i + 1).last() == c);
            assert(value@[i as int] == c);
        }
        if c == '\'' {
            out.append("'\\''");
        } else {
            out.push(c);
        }
        assert(out@ =~= seq!['\''] + escaped(value@.take(i + 1)));
        plain = plain && (('a' <= c && c <= 'z') || ('A' <= c && c <= 'Z') || ('0' <= c && c <= '9')
            || c == '.' || c == '_' || c == '-' || c == '/' || c == '@' || c == '+' || c == ':' || c
            == '=');
        i += 1;
    }
    assert(value@.take(value@.len() as int) =~= value@);
    if plain {
        return value.to_owned();
    }
    out.push('\'');
    assert(out@ =~= seq!['\''] + escaped(value@) + seq!['\'']);
    out
}

impl Step {
    /// Render the step as a shell line the user could paste.
    pub fn to_shell(&self) -> (r: String)
        ensures
            r@ == self@.shell(),
    {
        match self {
            Step::Run { command } => command.to_shell(),
            Step::Delete { paths, needs_root } => {
                let ghost all = text::texts(paths@);
                let mut rendered: Vec<String> = Vec::new();
                let mut i: usize = 0;
                while i < paths.len()
                    invariant
                        i <= paths.len(),
                        all == text::texts(paths@),
                        rendered.len() == i,
                        forall|k: int| 0 <= k < i ==> #[trigger] rendered@[k]@ == quoted(all[k]),
                    decreases paths.len() - i,
                {
                    rendered.push(quote(paths[i].as_str()));
                    i += 1;
                }
                proof {
                    assert(text::texts(rendered@) =~= Seq::new(
                        all.len(),
                        |i: int| quoted(all[i]),
                    ));
                }
                let prefix = if *needs_root {
                    "sudo "
                } else {
                    ""
                };
                let mut out = prefix.to_owned();
                out.append("rm -rf ");
                out.append(joined(&rendered, " ").as_str());
                out
            },
        }
    }
}

/// The step that reclaims a target, where there is one that can be run.
pub open spec fn step_of(target: janitor::TargetView) -> Option<StepView> {
    match target.reclaim {
        janitor::ReclaimView::Run { command } => Some(StepView::Run { command }),
        janitor::ReclaimView::Paths { paths, needs_root } => Some(
            StepView::Delete { paths, needs_root },
        ),
        janitor::ReclaimView::Handoff { .. } => None,
        janitor::ReclaimView::Advice { .. } => None,
    }
}

/// The step a janitor target needs, if it has one that can be run.
pub fn step_for(target: &Target) -> (r: Option<Step>)
    ensures
        match r {
            Some(step) => step_of(target@) == Some(step@),
            None => step_of(target@) is None,
        },
{
    match &target.reclaim {
        Reclaim::Run { command } => Some(Step::Run { command: command.clone() }),
        Reclaim::Paths { paths, needs_root } => Some(
            Step::Delete { paths: copy_texts(paths), needs_root: *needs_root },
        ),
        Reclaim::Handoff { hint: _ } => None,
        Reclaim::Advice { text: _ } => None,
    }
}

} // verus!
