//! What the interface does with each intent.
use vstd::prelude::*;

use crate::app;
use crate::app::{ActionView, AppModel, Intent, OverlayView, Tab};
use crate::filter;
use crate::filter::{SortKey, Toggle, ViewModel};
use crate::janitor;
use crate::janitor::{CommandView, ReclaimView, Safety, TargetView};
use crate::model;
use crate::number;
use crate::plan;
use crate::plan::{PlanView, StepView};
use crate::split;

verus! {

/// Where a step of some rows ends that starts on a row: on the first or the
/// last row where it would leave them.
pub open spec fn landing(from: usize, delta: int, rows: nat) -> int {
    if from + delta < 0 {
        0
    } else if from + delta >= rows {
        rows - 1
    } else {
        from + delta
    }
}

/// How far each intent that moves the cursor moves it.
pub open spec fn stride(m: AppModel, intent: Intent) -> Option<int> {
    match intent {
        Intent::Up => Some(-1),
        Intent::Down => Some(1),
        Intent::PageUp => Some(-(m.page as int)),
        Intent::PageDown => Some(m.page as int),
        _ => None,
    }
}

/// The cursor moves by a row or by a page and stops at either end. Only the
/// cursor of the tab that is shown moves, and nothing else changes.
pub proof fn the_cursor_moves_within_its_rows(m: AppModel, intent: Intent, from: usize)
    requires
        m.overlay is Closed,
        stride(m, intent) is Some,
        m.page <= i64::MAX,
        m.order.len() <= i64::MAX,
        m.inventory.targets.len() <= i64::MAX,
        m.order.len() <= usize::MAX,
        m.inventory.targets.len() <= usize::MAX,
    ensures
        m.tab == Tab::Packages && m.row == Some(from) && from < m.order.len() ==> {
            let to = landing(from, stride(m, intent).unwrap(), m.order.len());
            &&& m.step(intent).0 == (AppModel { row: Some(to as usize), ..m })
            &&& m.step(intent).1 == (if to == from {
                ActionView::Idle
            } else {
                ActionView::Redraw
            })
        },
        m.tab == Tab::Janitor && m.target_row == Some(from) && from < m.inventory.targets.len() ==> {
            let to = landing(from, stride(m, intent).unwrap(), m.inventory.targets.len());
            &&& m.step(intent).0 == (AppModel { target_row: Some(to as usize), ..m })
            &&& m.step(intent).1 == (if to == from {
                ActionView::Idle
            } else {
                ActionView::Redraw
            })
        },
        m.tab == Tab::Packages && m.order.len() == 0 ==> m.step(intent) == (m, ActionView::Idle),
        m.tab == Tab::Janitor && m.inventory.targets.len() == 0 ==> m.step(intent) == (
            m,
            ActionView::Idle,
        ),
{
}

/// The cursor jumps to the first and to the last row.
pub proof fn the_cursor_jumps_to_the_ends(m: AppModel)
    requires
        m.overlay is Closed,
    ensures
        m.tab == Tab::Packages && 0 < m.order.len() <= usize::MAX ==> {
            &&& m.step(Intent::First) == (AppModel { row: Some(0), ..m }, ActionView::Redraw)
            &&& m.step(Intent::Last) == (
                AppModel { row: Some((m.order.len() - 1) as usize), ..m },
                ActionView::Redraw,
            )
        },
        m.tab == Tab::Janitor && 0 < m.inventory.targets.len() <= usize::MAX ==> {
            &&& m.step(Intent::First) == (AppModel { target_row: Some(0), ..m }, ActionView::Redraw)
            &&& m.step(Intent::Last) == (
                AppModel { target_row: Some((m.inventory.targets.len() - 1) as usize), ..m },
                ActionView::Redraw,
            )
        },
{
}

/// Leaving, asking for help, scanning again and changing tabs do that and
/// nothing else.
pub proof fn plain_intents_do_one_thing(m: AppModel)
    requires
        m.overlay is Closed,
    ensures
        m.step(Intent::Quit) == (m, ActionView::Quit),
        m.step(Intent::Rescan) == (m, ActionView::Rescan),
        m.step(Intent::Help) == (AppModel { overlay: OverlayView::Help, ..m }, ActionView::Redraw),
        m.tab == Tab::Packages ==> m.step(Intent::NextTab) == (
            AppModel { tab: Tab::Janitor, ..m },
            ActionView::Redraw,
        ),
        m.tab == Tab::Janitor ==> m.step(Intent::NextTab) == (
            AppModel { tab: Tab::Packages, ..m },
            ActionView::Redraw,
        ),
        m.step(Intent::PrevTab) == m.step(Intent::NextTab),
{
}

/// Over a dialogue, only accepting and leaving count. Leaving closes it and
/// neither quits nor runs anything.
pub proof fn dialogues_take_few_answers(m: AppModel, intent: Intent)
    requires
        !(m.overlay is Closed),
        intent != Intent::Accept,
    ensures
        intent == Intent::Quit || intent == Intent::Cancel || intent == Intent::Help ==> {
            let (after, action) = m.step(intent);
            &&& action == ActionView::Redraw
            &&& after == (AppModel { overlay: OverlayView::Closed, status: after.status, ..m })
            &&& m.overlay is Confirm ==> after.status == "cancelled"@
            &&& m.overlay is Offer ==> after.status == "left the selection as it was"@
            &&& m.overlay is Help || m.overlay is Notice ==> after.status == m.status
        },
        intent != Intent::Quit && intent != Intent::Cancel && intent != Intent::Help ==> m.step(
            intent,
        ) == (m, ActionView::Idle),
{
}

/// Accepting runs what the dialogue showed, or on a dry run nothing, and closes
/// it. What was shown is summed up one line for each step.
pub proof fn accepting_runs_the_steps(m: AppModel)
    ensures
        m.overlay matches OverlayView::Confirm { steps, .. } ==> {
            let (after, action) = m.step(Intent::Accept);
            &&& after == (AppModel { overlay: OverlayView::Closed, status: after.status, ..m })
            &&& m.dry_run ==> action == (ActionView::Run {
                steps: Seq::empty(),
                summary: app::steps_text(steps),
            })
            &&& !m.dry_run ==> after.status == m.status && action == (ActionView::Run {
                steps,
                summary: app::steps_text(steps),
            })
        },
        m.overlay matches OverlayView::Offer { add, .. } ==> {
            let after = m.step(Intent::Accept).0;
            &&& forall|i: usize| #[trigger]
                after.selection.contains(i) <==> m.selection.contains(i) || add.contains(i)
            &&& after.inventory == m.inventory
            &&& after.view == m.view
            &&& after.order == m.order
            &&& after.tab == m.tab
        },
        m.overlay is Help || m.overlay is Notice ==> m.step(Intent::Accept) == (
            AppModel { overlay: OverlayView::Closed, ..m },
            ActionView::Redraw,
        ),
{
}

/// Steps are shown one on each line, in their order.
pub proof fn steps_are_shown_line_by_line(steps: Seq<StepView>, step: StepView)
    ensures
        app::steps_text(seq![step]) == step.shell(),
        steps.len() > 0 ==> app::steps_text(steps.push(step)) == app::steps_text(steps) + "\n"@
            + step.shell(),
{
    let one = seq![step];
    assert(Seq::new(one.len(), |i: int| one[i].shell()) =~= seq![step.shell()]);
    let few = Seq::new(steps.len(), |i: int| steps[i].shell());
    let more = steps.push(step);
    let many = Seq::new(more.len(), |i: int| more[i].shell());
    assert(many =~= few.push(step.shell()));
    assert(many.drop_last() =~= few);
}

/// Marking turns over the package under the cursor and no other. One that the
/// base system depends on is marked only by force.
pub proof fn marking_turns_over_one_package(m: AppModel, row: usize, force: bool, i: usize)
    requires
        m.overlay is Closed,
        m.tab == Tab::Packages,
        m.row == Some(row),
        row < m.order.len(),
        m.order[row as int] < m.inventory.entries.len(),
    ensures
        ({
            let intent = if force {
                Intent::ForceSelect
            } else {
                Intent::ToggleSelect
            };
            let position = m.order[row as int];
            let entry = m.inventory.entries[position as int];
            let (after, action) = m.step(intent);
            &&& action == ActionView::Redraw
            &&& i != position ==> (after.selection.contains(i) <==> m.selection.contains(i))
            &&& m.selection.contains(position) ==> !after.selection.contains(position)
            &&& !m.selection.contains(position) ==> (after.selection.contains(position) <==> force
                || !entry.facts.protected)
            &&& after == (AppModel { selection: after.selection, status: after.status, ..m })
        }),
{
}

/// Without a row under the cursor nothing is marked.
pub proof fn nothing_is_marked_without_a_row(m: AppModel, force: bool)
    requires
        m.overlay is Closed,
        m.tab == Tab::Packages,
        m.row matches Some(row) ==> row >= m.order.len() || m.order[row as int]
            >= m.inventory.entries.len(),
    ensures
        m.step(Intent::ToggleSelect) == (m, ActionView::Idle),
        m.step(Intent::ForceSelect) == (m, ActionView::Idle),
{
}

/// Without a target under the cursor nothing is shown or reclaimed.
pub proof fn nothing_is_reclaimed_without_a_target(m: AppModel)
    requires
        m.overlay is Closed,
        m.tab == Tab::Janitor,
        m.target_row matches Some(row) ==> row >= m.inventory.targets.len(),
    ensures
        m.step(Intent::Review) == (m, ActionView::Idle),
        m.step(Intent::Accept) == (m, ActionView::Idle),
        m.step(Intent::ToggleSelect) == (m, ActionView::Idle),
        m.step(Intent::ForceSelect) == (m, ActionView::Idle),
{
}

/// Dropping the selection drops all of it and nothing else.
pub proof fn the_selection_can_be_dropped(m: AppModel, i: usize)
    requires
        m.overlay is Closed,
    ensures
        ({
            let (after, action) = m.step(Intent::ClearSelection);
            &&& action == ActionView::Redraw
            &&& !after.selection.contains(i)
            &&& after == (AppModel { selection: after.selection, status: after.status, ..m })
        }),
{
}

/// Whether a state differs from another in no more than what is shown: the
/// view, the rows, the cursors, the message and whether text is typed.
pub open spec fn shows_only(m: AppModel, after: AppModel) -> bool {
    after == (AppModel {
        view: after.view,
        order: after.order,
        row: after.row,
        target_row: after.target_row,
        searching: after.searching,
        status: after.status,
        ..m
    })
}

/// Whether the rows of a state are those of its view.
pub open spec fn rows_follow_view(m: AppModel) -> bool {
    m.order == filter::ordering(m.inventory.entries, m.view, m.inventory.scanned_at)
}

/// Searching edits the query character by character: it can be taken back,
/// kept or dropped, and the rows follow.
pub proof fn searching_edits_the_query(m: AppModel, c: char)
    requires
        m.overlay is Closed,
    ensures
        ({
            let after = m.step(Intent::StartSearch).0;
            after == (AppModel { searching: true, status: after.status, ..m })
        }),
        ({
            let after = m.step(Intent::SearchInput(c)).0;
            &&& shows_only(m, after)
            &&& rows_follow_view(after)
            &&& after.view == (ViewModel { query: m.view.query.push(c), ..m.view })
            &&& after.searching == m.searching
        }),
        ({
            let after = m.step(Intent::SearchInput(c)).0.step(Intent::SearchBackspace).0;
            &&& after.view == m.view
            &&& rows_follow_view(after)
            &&& after.searching == m.searching
            &&& after.selection == m.selection
        }),
        m.view.query.len() == 0 ==> m.step(Intent::SearchBackspace).0.view == m.view,
        m.step(Intent::SearchCommit).0 == (AppModel { searching: false, ..m }),
        ({
            let after = m.step(Intent::SearchCancel).0;
            &&& shows_only(m, after)
            &&& rows_follow_view(after)
            &&& !after.searching
            &&& after.view == (ViewModel { query: Seq::empty(), ..m.view })
        }),
{
    assert(m.view.query.push(c).drop_last() =~= m.view.query);
    let q = m.view.query;
    if q.len() == 0 {
        assert(q =~= Seq::empty());
    }
}

/// Each intent that changes the view changes one thing in it, and the rows
/// follow.
pub proof fn views_change_one_thing_at_a_time(m: AppModel, toggle: Toggle, key: SortKey)
    requires
        m.overlay is Closed,
    ensures
        ({
            let after = m.step(Intent::Filter(toggle)).0;
            &&& shows_only(m, after)
            &&& rows_follow_view(after)
            &&& after.searching == m.searching
            &&& after.view == (ViewModel { toggles: after.view.toggles, ..m.view })
            &&& !m.view.toggles.contains(toggle) ==> after.view.toggles == m.view.toggles.push(
                toggle,
            )
        }),
        ({
            let after = m.step(Intent::ToggleProtected).0;
            &&& shows_only(m, after)
            &&& rows_follow_view(after)
            &&& after.searching == m.searching
            &&& after.view == (ViewModel { hide_protected: !m.view.hide_protected, ..m.view })
        }),
        ({
            let after = m.step(Intent::ToggleDescriptions).0;
            &&& shows_only(m, after)
            &&& rows_follow_view(after)
            &&& after.searching == m.searching
            &&& after.view == (ViewModel {
                match_descriptions: !m.view.match_descriptions,
                ..m.view
            })
        }),
        ({
            let after = m.step(Intent::ReverseSort).0;
            &&& shows_only(m, after)
            &&& rows_follow_view(after)
            &&& after.searching == m.searching
            &&& after.view == (ViewModel { descending: !m.view.descending, ..m.view })
        }),
        ({
            let after = m.step(Intent::SortBy(key)).0;
            &&& shows_only(m, after)
            &&& rows_follow_view(after)
            &&& after.searching == m.searching
            &&& after.view == (ViewModel { sort: key, descending: after.view.descending, ..m.view })
            &&& m.view.sort == key ==> after.view.descending == !m.view.descending
            &&& m.view.sort != key ==> (after.view.descending <==> key == SortKey::Size || key
                == SortKey::Reclaimable || key == SortKey::RequiredBy)
        }),
{
}

/// The columns follow one another: from size over what a removal frees, the
/// last use, the installation and the name to the dependants, and round again.
pub proof fn sorting_goes_from_column_to_column(m: AppModel)
    requires
        m.overlay is Closed,
    ensures
        m.view.sort == SortKey::Size ==> m.step(Intent::CycleSort) == m.step(
            Intent::SortBy(SortKey::Reclaimable),
        ),
        m.view.sort == SortKey::Reclaimable ==> m.step(Intent::CycleSort) == m.step(
            Intent::SortBy(SortKey::LastUsed),
        ),
        m.view.sort == SortKey::LastUsed ==> m.step(Intent::CycleSort) == m.step(
            Intent::SortBy(SortKey::Installed),
        ),
        m.view.sort == SortKey::Installed ==> m.step(Intent::CycleSort) == m.step(
            Intent::SortBy(SortKey::Name),
        ),
        m.view.sort == SortKey::Name ==> m.step(Intent::CycleSort) == m.step(
            Intent::SortBy(SortKey::RequiredBy),
        ),
        m.view.sort == SortKey::RequiredBy ==> m.step(Intent::CycleSort) == m.step(
            Intent::SortBy(SortKey::Size),
        ),
{
}

/// Leaving the table drops the query and every filter, and keeps the columns
/// as they were; where nothing is filtered it does nothing.
pub proof fn leaving_drops_the_filters(m: AppModel)
    requires
        m.overlay is Closed,
    ensures
        m.view.query.len() == 0 && m.view.toggles.len() == 0 && !m.view.hide_protected ==> m.step(
            Intent::Cancel,
        ) == (m, ActionView::Idle),
        m.view.query.len() > 0 || m.view.toggles.len() > 0 || m.view.hide_protected ==> {
            let (after, action) = m.step(Intent::Cancel);
            &&& action == ActionView::Redraw
            &&& shows_only(m, after)
            &&& rows_follow_view(after)
            &&& after.view == (ViewModel {
                query: Seq::empty(),
                toggles: Seq::empty(),
                hide_protected: false,
                ..m.view
            })
        },
{
}

/// Intents other than marking, clearing and accepting an offer leave the
/// selection as it is.
pub proof fn few_intents_change_the_selection(m: AppModel, intent: Intent)
    requires
        intent != Intent::ToggleSelect,
        intent != Intent::ForceSelect,
        intent != Intent::ClearSelection,
        !(intent == Intent::Accept && m.overlay is Offer),
    ensures
        m.step(intent).0.selection == m.selection,
{
}

/// No intent changes what was scanned, or whether anything may run.
pub proof fn the_inventory_stays_as_scanned(m: AppModel, intent: Intent)
    ensures
        m.step(intent).0.inventory == m.inventory,
        m.step(intent).0.dry_run == m.dry_run,
        m.step(intent).0.page == m.page,
{
    if m.overlay is Closed {
        lemma_table_keeps(m, intent);
    } else {
        lemma_dialogue_keeps(m, intent);
    }
}

#[verifier::spinoff_prover]
proof fn lemma_table_keeps(m: AppModel, intent: Intent)
    ensures
        m.table_step(intent).0.inventory == m.inventory,
        m.table_step(intent).0.dry_run == m.dry_run,
        m.table_step(intent).0.page == m.page,
{
}

#[verifier::spinoff_prover]
proof fn lemma_dialogue_keeps(m: AppModel, intent: Intent)
    ensures
        m.modal_step(intent).0.inventory == m.inventory,
        m.modal_step(intent).0.dry_run == m.dry_run,
        m.modal_step(intent).0.page == m.page,
{
}

/// A target is shown before it is reclaimed, with the step that would run.
/// Only what calls for care is shown as dangerous, and what runs nothing is
/// explained.
pub proof fn targets_are_shown_before_they_go(m: AppModel, row: usize, intent: Intent)
    requires
        m.overlay is Closed,
        m.tab == Tab::Janitor,
        m.target_row == Some(row),
        row < m.inventory.targets.len(),
        intent == Intent::Review || intent == Intent::Accept || intent == Intent::ToggleSelect
            || intent == Intent::ForceSelect,
    ensures
        ({
            let target = m.inventory.targets[row as int];
            let (after, action) = m.step(intent);
            &&& action == ActionView::Redraw
            &&& after == (AppModel { overlay: after.overlay, ..m })
            &&& match target.reclaim {
                ReclaimView::Run { command } => after.overlay matches OverlayView::Confirm {
                    title,
                    lines,
                    steps,
                    danger,
                } && title == target.title && steps == seq![StepView::Run { command }] && (danger
                    <==> target.safety == Safety::Careful) && lines[0] == target.detail
                    && lines.contains("Runs: "@ + command.shell()) && lines.contains(
                    "Frees "@ + size_text(target) + "."@,
                ),
                ReclaimView::Paths { paths, needs_root } => after.overlay matches OverlayView::Confirm {
                    title,
                    lines,
                    steps,
                    danger,
                } && title == target.title && steps == seq![
                    StepView::Delete { paths, needs_root },
                ] && (danger <==> target.safety == Safety::Careful) && lines[0] == target.detail
                    && lines.contains(
                    "Runs: "@ + (StepView::Delete { paths, needs_root }).shell(),
                ) && lines.contains("Frees "@ + size_text(target) + "."@) && lines.contains(
                    "Deletes "@ + number::decimal(paths.len()) + " path(s), starting with:"@,
                ) && (forall|i: int|
                    0 <= i < paths.len() && i < 6 ==> lines.contains("  "@ + #[trigger] paths[i])),
                ReclaimView::Handoff { hint } => after.overlay == (OverlayView::Notice {
                    title: target.title,
                    lines: seq![
                        target.detail,
                        Seq::empty(),
                        "Handled on the "@ + hint + "."@,
                    ],
                }),
                ReclaimView::Advice { text } => after.overlay == (OverlayView::Notice {
                    title: target.title,
                    lines: seq![target.detail, Seq::empty(), text],
                }),
            }
        }),
{
    let target = m.inventory.targets[row as int];
    match target.reclaim {
        ReclaimView::Run { command } => {
            let step = StepView::Run { command };
            let lines = app::target_lines(target, step);
            assert(lines[2] == "Frees "@ + size_text(target) + "."@);
            assert(lines[4] == "Runs: "@ + command.shell());
        },
        ReclaimView::Paths { paths, needs_root } => {
            let step = StepView::Delete { paths, needs_root };
            let lines = app::target_lines(target, step);
            assert(lines[2] == "Frees "@ + size_text(target) + "."@);
            let listed = app::deletion_lines(paths);
            let n = listed.len() as int;
            assert(lines[3 + n + 1] == "Runs: "@ + step.shell());
            assert(lines[4] == listed[1]);
            assert forall|i: int| 0 <= i < paths.len() && i < 6 implies lines.contains(
                "  "@ + #[trigger] paths[i],
            ) by {
                assert(listed[2 + i] == "  "@ + paths[i]);
                assert(lines[3 + (2 + i)] == listed[2 + i]);
            }
        },
        _ => {},
    }
}

/// The size of a target as text.
pub open spec fn size_text(target: TargetView) -> Seq<char> {
    match target.bytes {
        Some(bytes) => crate::format::bytes_text(bytes),
        None => "an unknown amount"@,
    }
}

/// Before packages are removed, the dialogue names those that were marked,
/// those that go along, what is protected among them, what it frees and what
/// runs.
pub proof fn removals_are_shown_in_full(m: AppModel)
    requires
        m.overlay is Closed,
        m.tab == Tab::Packages,
        m.plan().selected.len() > 0,
        m.plan().broken.len() == 0,
    ensures
        ({
            let p = m.plan();
            m.step(Intent::Review).0.overlay matches OverlayView::Confirm { lines, steps, danger, .. }
                && lines.contains("  "@ + split::join(p.selected, " "@)) && (p.cascade.len() > 0
                ==> lines.contains("  "@ + split::join(p.cascade, " "@))) && (p.protected.len() > 0
                ==> danger && lines.contains(
                "WARNING: "@ + split::join(p.protected, ", "@) + " is part of the base system."@,
            )) && lines.contains("Frees "@ + crate::format::bytes_text(p.bytes) + "."@)
                && lines.contains("Runs: "@ + p.command().shell())
        }),
        m.step(Intent::Accept) == m.step(Intent::Review),
{
    let p = m.plan();
    let lines = app::removal_lines(p);
    let n = lines.len();
    assert(lines[1] == "  "@ + split::join(p.selected, " "@));
    assert(lines[n - 2] == "Runs: "@ + p.command().shell());
    assert(lines[n - 4] == "Frees "@ + crate::format::bytes_text(p.bytes) + "."@);
    if p.cascade.len() > 0 {
        assert(lines[4] == "  "@ + split::join(p.cascade, " "@));
    }
    if p.protected.len() > 0 {
        assert(lines[n - 6] == "WARNING: "@ + split::join(p.protected, ", "@)
            + " is part of the base system."@);
    }
}

/// Where a removal would strand packages, the dialogue names them, and offers to
/// mark them along where nothing of the base system is among what follows. It
/// names a dozen at the most then, and four that stand in the way otherwise.
pub proof fn stranded_packages_are_named(m: AppModel)
    requires
        m.overlay is Closed,
        m.tab == Tab::Packages,
        m.plan().selected.len() > 0,
        m.plan().broken.len() > 0,
    ensures
        ({
            let p = m.plan();
            let widening = plan::widening_of(m.inventory.packages(), m.selection);
            let after = m.step(Intent::Review).0;
            &&& after.selection == m.selection
            &&& widening.positions.len() > 0 && widening.protected.len() == 0 ==> (
            after.overlay matches OverlayView::Offer { lines, add, .. } && add
                == widening.positions && lines[0] == number::decimal(widening.names.len())
                + " package(s) still need what you marked:"@ && (widening.names.len() <= 12
                ==> lines[1] == "  "@ + split::join(widening.names, " "@)) && (widening.names.len()
                > 12 ==> lines[1] == "  "@ + (split::join(widening.names.take(12), " "@)
                + " … and "@ + number::decimal((widening.names.len() - 12) as nat) + " more"@))
                && lines[5] == "That brings the total to "@ + crate::format::bytes_text(
                widening.bytes,
            ) + ", up from "@ + crate::format::bytes_text(p.bytes) + "."@)
            &&& widening.positions.len() == 0 || widening.protected.len() > 0 ==> (
            after.overlay matches OverlayView::Notice { lines, .. } && lines[0]
                == "These packages still need what you marked: "@ + split::join(p.broken, ", "@)
                && (widening.protected.len() > 0 && widening.protected.len() <= 4 ==> lines[2]
                == "Removing them in turn would reach "@ + number::decimal(widening.protected.len())
                + " package(s) the base system depends on, including "@ + split::join(
                widening.protected,
                " "@,
            ) + "."@) && (widening.protected.len() > 4 ==> lines[2]
                == "Removing them in turn would reach "@ + number::decimal(widening.protected.len())
                + " package(s) the base system depends on, including "@ + (split::join(
                widening.protected.take(4),
                " "@,
            ) + " … and "@ + number::decimal((widening.protected.len() - 4) as nat) + " more"@)
                + "."@))
        }),
{
}

/// The tabs are called after what they show.
pub proof fn tabs_have_their_titles(tab: Tab)
    ensures
        tab == Tab::Packages ==> tab.title_text() == "Packages"@,
        tab == Tab::Janitor ==> tab.title_text() == "Reclaim"@,
{
}

/// A list of names that is too long is cut and says how many are left out.
pub proof fn long_lists_are_cut(names: Seq<Seq<char>>, limit: nat)
    ensures
        names.len() <= limit ==> app::shortened(names, limit) == split::join(names, " "@),
        names.len() > limit ==> app::shortened(names, limit) == split::join(
            names.take(limit as int),
            " "@,
        ) + " … and "@ + number::decimal((names.len() - limit) as nat) + " more"@,
{
}

/// The sizes of the rows add up row by row.
pub proof fn shown_sizes_add_up(entries: Seq<model::EntryView>, order: Seq<usize>, position: usize)
    ensures
        app::sizes_shown(entries, Seq::empty()) == 0,
        position < entries.len() ==> app::sizes_shown(entries, order.push(position))
            == app::sizes_shown(entries, order) + entries[position as int].package.size,
{
    assert(order.push(position).drop_last() =~= order);
}

} // verus!
