//! The interactive state machine.
//!
//! No effects: [`App::handle`] takes an [`Intent`] and returns an [`Action`]
//! describing what the outer loop should do about it. Running commands and
//! re-scanning happen outside, so every state transition is a function of the
//! state and the intent, and [`AppModel::step`] is that function.
use std::collections::BTreeSet;

use vstd::prelude::*;

use crate::filter;
use crate::filter::{SortKey, Toggle};
use crate::janitor;
use crate::janitor::{Reclaim, Safety, Target};
use crate::model;
use crate::model::{Entry, Inventory};
use crate::number;
use crate::number::count;
use crate::plan;
use crate::plan::{Plan, Step};
use crate::split;
use crate::split::joined;
use crate::text;
use crate::text::{add_text, concat2, concat3, first_texts};

verus! {

/// Which tab is showing.
#[derive(Clone, Copy, Debug, PartialEq, Eq, Structural)]
pub enum Tab {
    /// The package table.
    Packages,
    /// Reclaimable space outside the package set.
    Janitor,
}

impl Tab {
    /// The tab that is not this one.
    pub open spec fn opposite(self) -> Tab {
        match self {
            Tab::Packages => Tab::Janitor,
            Tab::Janitor => Tab::Packages,
        }
    }

    /// The title of a tab.
    pub open spec fn title_text(self) -> Seq<char> {
        match self {
            Tab::Packages => "Packages"@,
            Tab::Janitor => "Reclaim"@,
        }
    }

    /// Tab title.
    pub fn title(self) -> (r: &'static str)
        ensures
            r@ == self.title_text(),
    {
        match self {
            Tab::Packages => "Packages",
            Tab::Janitor => "Reclaim",
        }
    }

    /// The other tab.
    pub fn other(self) -> (r: Tab)
        ensures
            r == self.opposite(),
    {
        match self {
            Tab::Packages => Tab::Janitor,
            Tab::Janitor => Tab::Packages,
        }
    }
}

/// Something the user asked for.
#[derive(Clone, Copy, Debug, PartialEq, Eq, Structural)]
pub enum Intent {
    /// Leave the program.
    Quit,
    /// Move to the next tab.
    NextTab,
    /// Move to the previous tab.
    PrevTab,
    /// Move the cursor up one row.
    Up,
    /// Move the cursor down one row.
    Down,
    /// Move the cursor up one screen.
    PageUp,
    /// Move the cursor down one screen.
    PageDown,
    /// Move to the first row.
    First,
    /// Move to the last row.
    Last,
    /// Select or deselect the row under the cursor.
    ToggleSelect,
    /// Select the row even though it is protected.
    ForceSelect,
    /// Deselect everything.
    ClearSelection,
    /// Focus the search field.
    StartSearch,
    /// Add a character to the search field.
    SearchInput(char),
    /// Delete the last character of the search field.
    SearchBackspace,
    /// Leave the search field, keeping the query.
    SearchCommit,
    /// Leave the search field, discarding the query.
    SearchCancel,
    /// Turn a filter on or off.
    Filter(Toggle),
    /// Show or hide protected packages.
    ToggleProtected,
    /// Widen or narrow the search to package descriptions.
    ToggleDescriptions,
    /// Move to the next sort column.
    CycleSort,
    /// Reverse the current sort.
    ReverseSort,
    /// Sort by a specific column.
    SortBy(SortKey),
    /// Review what the current selection would do.
    Review,
    /// Confirm the pending action.
    Accept,
    /// Dismiss an overlay, or clear every filter.
    Cancel,
    /// Show the key bindings.
    Help,
    /// Re-read the system.
    Rescan,
}

/// What the outer loop should do after a state transition.
#[derive(Clone, Debug, PartialEq, Eq)]
pub enum Action {
    /// Nothing changed; no redraw needed.
    Idle,
    /// Redraw the interface.
    Redraw,
    /// Leave the program.
    Quit,
    /// Leave the alternate screen, run these steps, then come back.
    Run {
        /// Steps in the order they should run.
        steps: Vec<Step>,
        /// What to tell the user before running them.
        summary: String,
    },
    /// Re-read the system and rebuild the state.
    Rescan,
}

/// The view of an [`Action`].
#[verifier::ext_equal]
pub enum ActionView {
    /// See [`Action::Idle`].
    Idle,
    /// See [`Action::Redraw`].
    Redraw,
    /// See [`Action::Quit`].
    Quit,
    /// See [`Action::Run`].
    Run {
        /// Steps in the order they should run.
        steps: Seq<plan::StepView>,
        /// What to tell the user before running them.
        summary: Seq<char>,
    },
    /// See [`Action::Rescan`].
    Rescan,
}

impl View for Action {
    type V = ActionView;

    open spec fn view(&self) -> ActionView {
        match *self {
            Action::Idle => ActionView::Idle,
            Action::Redraw => ActionView::Redraw,
            Action::Quit => ActionView::Quit,
            Action::Run { steps, summary } => ActionView::Run {
                steps: plan::step_views(steps@),
                summary: summary@,
            },
            Action::Rescan => ActionView::Rescan,
        }
    }
}

/// A modal shown over the main interface.
#[derive(Clone, Debug, PartialEq, Eq)]
pub enum Overlay {
    /// No modal.
    Closed,
    /// The key bindings.
    Help,
    /// A confirmation prompt.
    Confirm {
        /// Modal title.
        title: String,
        /// Body lines.
        lines: Vec<String>,
        /// Exactly what will run.
        steps: Vec<Step>,
        /// Whether to draw the modal as a warning.
        danger: bool,
    },
    /// Something the user should read, with nothing to confirm.
    Notice {
        /// Modal title.
        title: String,
        /// Body lines.
        lines: Vec<String>,
    },
    /// A proposal to widen the selection, which the user can accept.
    Offer {
        /// Modal title.
        title: String,
        /// Body lines.
        lines: Vec<String>,
        /// Positions to add to the selection on acceptance.
        add: Vec<usize>,
    },
}

/// The view of an [`Overlay`].
#[verifier::ext_equal]
pub enum OverlayView {
    /// See [`Overlay::Closed`].
    Closed,
    /// See [`Overlay::Help`].
    Help,
    /// See [`Overlay::Confirm`].
    Confirm {
        /// Modal title.
        title: Seq<char>,
        /// Body lines.
        lines: Seq<Seq<char>>,
        /// Exactly what will run.
        steps: Seq<plan::StepView>,
        /// Whether to draw the modal as a warning.
        danger: bool,
    },
    /// See [`Overlay::Notice`].
    Notice {
        /// Modal title.
        title: Seq<char>,
        /// Body lines.
        lines: Seq<Seq<char>>,
    },
    /// See [`Overlay::Offer`].
    Offer {
        /// Modal title.
        title: Seq<char>,
        /// Body lines.
        lines: Seq<Seq<char>>,
        /// Positions to add to the selection on acceptance.
        add: Seq<usize>,
    },
}

impl View for Overlay {
    type V = OverlayView;

    open spec fn view(&self) -> OverlayView {
        match *self {
            Overlay::Closed => OverlayView::Closed,
            Overlay::Help => OverlayView::Help,
            Overlay::Confirm { title, lines, steps, danger } => OverlayView::Confirm {
                title: title@,
                lines: text::texts(lines@),
                steps: plan::step_views(steps@),
                danger,
            },
            Overlay::Notice { title, lines } => OverlayView::Notice {
                title: title@,
                lines: text::texts(lines@),
            },
            Overlay::Offer { title, lines, add } => OverlayView::Offer {
                title: title@,
                lines: text::texts(lines@),
                add: add@,
            },
        }
    }
}

/// The cursor of a table: the row it is on, if the table has one.
#[derive(Clone, Copy, Debug, PartialEq, Eq, Structural)]
pub struct Cursor {
    /// The row.
    pub row: Option<usize>,
}

impl Cursor {
    /// A cursor on no row.
    pub fn new() -> (r: Cursor)
        ensures
            r.row is None,
    {
        Cursor { row: None }
    }

    /// The row under the cursor.
    pub fn selected(&self) -> (r: Option<usize>)
        ensures
            r == self.row,
    {
        self.row
    }

    /// Put the cursor on a row, or on none.
    pub fn select(&mut self, row: Option<usize>)
        ensures
            final(self).row == row,
    {
        self.row = row;
    }
}

/// The complete interface state.
pub struct App {
    /// The scan this interface is showing.
    pub inventory: Inventory,
    /// Filter and sort state.
    pub view: filter::View,
    /// Which tab is showing.
    pub tab: Tab,
    /// Positions of the visible packages, in display order.
    pub order: Vec<usize>,
    /// Cursor of the packages tab.
    pub table: Cursor,
    /// Cursor of the reclaim tab.
    pub targets_table: Cursor,
    /// Packages marked for removal, as positions into the inventory.
    pub selection: BTreeSet<usize>,
    /// Whether the search field has focus.
    pub searching: bool,
    /// The modal currently showing.
    pub overlay: Overlay,
    /// One-line message under the table.
    pub status: String,
    /// Whether execution is suppressed.
    pub dry_run: bool,
    /// Rows the table can show, used for paging.
    pub page: usize,
}

/// The view of an [`App`].
#[verifier::ext_equal]
pub struct AppModel {
    /// See [`App::inventory`].
    pub inventory: model::InventoryView,
    /// See [`App::view`].
    pub view: filter::ViewModel,
    /// See [`App::tab`].
    pub tab: Tab,
    /// See [`App::order`].
    pub order: Seq<usize>,
    /// See [`App::table`].
    pub row: Option<usize>,
    /// See [`App::targets_table`].
    pub target_row: Option<usize>,
    /// See [`App::selection`].
    pub selection: Set<usize>,
    /// See [`App::searching`].
    pub searching: bool,
    /// See [`App::overlay`].
    pub overlay: OverlayView,
    /// See [`App::status`].
    pub status: Seq<char>,
    /// See [`App::dry_run`].
    pub dry_run: bool,
    /// See [`App::page`].
    pub page: usize,
}

impl View for App {
    type V = AppModel;

    open spec fn view(&self) -> AppModel {
        AppModel {
            inventory: self.inventory@,
            view: self.view@,
            tab: self.tab,
            order: self.order@,
            row: self.table.row,
            target_row: self.targets_table.row,
            selection: self.selection@,
            searching: self.searching,
            overlay: self.overlay@,
            status: self.status@,
            dry_run: self.dry_run,
            page: self.page,
        }
    }
}

// ---------------------------------------------------------------------------
// What the interface says
// ---------------------------------------------------------------------------

/// Names in one line, a long list cut down to `limit` of them.
pub open spec fn shortened(names: Seq<Seq<char>>, limit: nat) -> Seq<char> {
    if names.len() <= limit {
        split::join(names, " "@)
    } else {
        split::join(names.take(limit as int), " "@) + " … and "@ + number::decimal(
            (names.len() - limit) as nat,
        ) + " more"@
    }
}

/// Join names for a modal, trimming a long list to `limit` entries.
pub fn preview(names: &Vec<String>, limit: usize) -> (r: String)
    ensures
        r@ == shortened(text::texts(names@), limit as nat),
{
    if names.len() <= limit {
        return joined(names, " ");
    }
    let shown = first_texts(names, limit);
    let mut out = joined(&shown, " ");
    out.append(" … and ");
    out.append(count(names.len() - limit).as_str());
    out.append(" more");
    out
}

/// The message shown when a scan finishes.
pub open spec fn opening_text(inventory: model::InventoryView) -> Seq<char> {
    let summary = number::decimal(inventory.entries.len()) + " packages, "@
        + crate::format::bytes_text(number::saturated(model::size_sum(inventory.entries)))
        + " installed, "@ + number::decimal(inventory.probed as nat) + " probed for last use"@;
    if inventory.atime_support != model::AtimeSupport::Disabled {
        summary
    } else {
        summary + " — "@ + inventory.atime_support.caveat_text()
    }
}

/// The installed sizes of the packages at the given positions, added up.
pub open spec fn sizes_shown(entries: Seq<model::EntryView>, order: Seq<usize>) -> nat
    decreases order.len(),
{
    if order.len() == 0 {
        0
    } else {
        sizes_shown(entries, order.drop_last()) + if order.last() < entries.len() {
            entries[order.last() as int].package.size as nat
        } else {
            0nat
        }
    }
}

/// The labels of a list of toggles.
pub open spec fn toggle_labels(toggles: Seq<Toggle>) -> Seq<Seq<char>> {
    Seq::new(toggles.len(), |i: int| toggles[i].label_text())
}

/// A line naming the active filters and what they leave.
pub open spec fn filters_text(
    entries: Seq<model::EntryView>,
    order: Seq<usize>,
    toggles: Seq<Toggle>,
) -> Seq<char> {
    if toggles.len() == 0 {
        number::decimal(order.len()) + " packages"@
    } else {
        number::decimal(order.len()) + " packages match "@ + split::join(
            toggle_labels(toggles),
            " + "@,
        ) + " — "@ + crate::format::bytes_text(number::saturated(sizes_shown(entries, order)))
            + " installed"@
    }
}

/// The steps as shell lines, one below the other.
pub open spec fn steps_text(steps: Seq<plan::StepView>) -> Seq<char> {
    split::join(Seq::new(steps.len(), |i: int| steps[i].shell()), "\n"@)
}

/// A one-line description of what is about to run.
fn describe(steps: &Vec<Step>) -> (r: String)
    ensures
        r@ == steps_text(plan::step_views(steps@)),
{
    let ghost all = plan::step_views(steps@);
    let ghost shells = Seq::new(all.len(), |i: int| all[i].shell());
    let mut rendered: Vec<String> = Vec::new();
    let mut i: usize = 0;
    while i < steps.len()
        invariant
            i <= steps.len(),
            all == plan::step_views(steps@),
            shells == Seq::new(all.len(), |i: int| all[i].shell()),
            text::texts(rendered@) == shells.take(i as int),
        decreases steps.len() - i,
    {
        add_text(&mut rendered, steps[i].to_shell());
        i += 1;
    }
    assert(shells.take(shells.len() as int) =~= shells);
    joined(&rendered, "\n")
}

/// What the confirmation of a removal says.
pub open spec fn removal_lines(plan: plan::PlanView) -> Seq<Seq<char>> {
    seq![
        "Remove "@ + number::decimal(plan.selected.len()) + " package(s):"@,
        "  "@ + split::join(plan.selected, " "@),
    ] + (if plan.cascade.len() == 0 {
        Seq::empty()
    } else {
        seq![
            Seq::empty(),
            "pacman will also take "@ + number::decimal(plan.cascade.len())
                + " dependency package(s) nothing else needs:"@,
            "  "@ + split::join(plan.cascade, " "@),
        ]
    }) + (if plan.protected.len() == 0 {
        Seq::empty()
    } else {
        seq![
            Seq::empty(),
            "WARNING: "@ + split::join(plan.protected, ", "@) + " is part of the base system."@,
        ]
    }) + seq![
        Seq::empty(),
        "Frees "@ + crate::format::bytes_text(plan.bytes) + "."@,
        Seq::empty(),
        "Runs: "@ + plan.command().shell(),
        "pacman will ask for its own confirmation before it removes anything."@,
    ]
}

/// The confirmation of a removal.
pub open spec fn removal_modal(plan: plan::PlanView) -> OverlayView {
    OverlayView::Confirm {
        title: "Review removal"@,
        lines: removal_lines(plan),
        steps: seq![plan::StepView::Run { command: plan.command() }],
        danger: plan.protected.len() > 0,
    }
}

/// What is said of a removal that would break something, where marking the
/// rest is not offered.
pub open spec fn refusal_lines(plan: plan::PlanView, widening: plan::WideningView) -> Seq<
    Seq<char>,
> {
    seq!["These packages still need what you marked: "@ + split::join(plan.broken, ", "@)] + (
    if widening.protected.len() == 0 {
        seq![
            Seq::empty(),
            "Unmark whatever they depend on. pacman would refuse this transaction as it stands."@,
        ]
    } else {
        seq![
            Seq::empty(),
            "Removing them in turn would reach "@ + number::decimal(widening.protected.len())
                + " package(s) the base system depends on, including "@ + shortened(
                widening.protected,
                4,
            ) + "."@,
            Seq::empty(),
            "pacpurge will not offer to mark those for you. Unmark whatever they depend on instead, or mark them one at a time with P if you really mean it."@,
        ]
    })
}

/// What an offer to mark the dependants too says.
pub open spec fn offer_lines(plan: plan::PlanView, widening: plan::WideningView) -> Seq<Seq<char>> {
    seq![
        number::decimal(widening.names.len()) + " package(s) still need what you marked:"@,
        "  "@ + shortened(widening.names, 12),
        Seq::empty(),
        "pacman would refuse the removal while they are installed. Marking them too makes it consistent."@,
        Seq::empty(),
        "That brings the total to "@ + crate::format::bytes_text(widening.bytes) + ", up from "@
            + crate::format::bytes_text(plan.bytes) + "."@,
    ]
}

/// The answer to a selection that would break installed software: an offer to
/// mark what depends on it too, unless that reaches the base system.
pub open spec fn breakage_modal(plan: plan::PlanView, widening: plan::WideningView) -> OverlayView {
    if widening.is_offerable() {
        OverlayView::Offer {
            title: "Mark what depends on this too?"@,
            lines: offer_lines(plan, widening),
            add: widening.positions,
        }
    } else {
        OverlayView::Notice {
            title: "That would break installed software"@,
            lines: refusal_lines(plan, widening),
        }
    }
}

/// What is deleted, the first six paths of it.
pub open spec fn deletion_lines(paths: Seq<Seq<char>>) -> Seq<Seq<char>> {
    let shown = if paths.len() <= 6 {
        paths
    } else {
        paths.take(6)
    };
    seq![
        Seq::empty(),
        "Deletes "@ + number::decimal(paths.len()) + " path(s), starting with:"@,
    ] + Seq::new(shown.len(), |i: int| "  "@ + shown[i]) + (if paths.len() > 6 {
        seq!["  … and "@ + number::decimal((paths.len() - 6) as nat) + " more"@]
    } else {
        Seq::empty()
    })
}

/// What the confirmation for a reclaim target says.
pub open spec fn target_lines(target: janitor::TargetView, step: plan::StepView) -> Seq<Seq<char>> {
    seq![
        target.detail,
        Seq::empty(),
        "Frees "@ + (match target.bytes {
            Some(bytes) => crate::format::bytes_text(bytes),
            None => "an unknown amount"@,
        }) + "."@,
    ] + (match target.reclaim {
        janitor::ReclaimView::Paths { paths, .. } => deletion_lines(paths),
        _ => Seq::empty(),
    }) + seq![Seq::empty(), "Runs: "@ + step.shell()]
}

/// What to do about a target that has no step to run.
pub open spec fn advice_text(reclaim: janitor::ReclaimView) -> Seq<char> {
    match reclaim {
        janitor::ReclaimView::Handoff { hint } => "Handled on the "@ + hint + "."@,
        janitor::ReclaimView::Advice { text } => text,
        _ => Seq::empty(),
    }
}

/// The modal for a reclaim target.
pub open spec fn target_modal(target: janitor::TargetView) -> OverlayView {
    match plan::step_of(target) {
        Some(step) => OverlayView::Confirm {
            title: target.title,
            lines: target_lines(target, step),
            steps: seq![step],
            danger: target.safety == Safety::Careful,
        },
        None => OverlayView::Notice {
            title: target.title,
            lines: seq![target.detail, Seq::empty(), advice_text(target.reclaim)],
        },
    }
}

// ---------------------------------------------------------------------------
// The transitions
// ---------------------------------------------------------------------------

/// How an intent is treated while a modal has focus.
#[derive(Clone, Copy, Debug, PartialEq, Eq, Structural)]
pub enum ModalIntent {
    /// Say yes to whatever the modal is asking.
    Accept,
    /// Close the modal without acting on it.
    Dismiss,
    /// Swallowed, so a stray key cannot reach the table underneath.
    Ignore,
}

/// What an intent means to a modal.
pub open spec fn meaning(intent: Intent) -> ModalIntent {
    match intent {
        Intent::Accept => ModalIntent::Accept,
        Intent::Quit | Intent::Cancel | Intent::Help => ModalIntent::Dismiss,
        _ => ModalIntent::Ignore,
    }
}

/// Classify an intent for a modal.
///
/// One exhaustive match rather than one per overlay: a new [`Intent`] variant
/// then forces a decision in a single place instead of four.
pub fn modal_intent(intent: Intent) -> (r: ModalIntent)
    ensures
        r == meaning(intent),
{
    match intent {
        Intent::Accept => ModalIntent::Accept,
        // `?` closes whatever is open, the same as Esc.
        Intent::Quit | Intent::Cancel | Intent::Help => ModalIntent::Dismiss,
        Intent::NextTab
        | Intent::PrevTab
        | Intent::Up
        | Intent::Down
        | Intent::PageUp
        | Intent::PageDown
        | Intent::First
        | Intent::Last
        | Intent::ToggleSelect
        | Intent::ForceSelect
        | Intent::ClearSelection
        | Intent::StartSearch
        | Intent::SearchInput(_)
        | Intent::SearchBackspace
        | Intent::SearchCommit
        | Intent::SearchCancel
        | Intent::Filter(_)
        | Intent::ToggleProtected
        | Intent::ToggleDescriptions
        | Intent::CycleSort
        | Intent::ReverseSort
        | Intent::SortBy(_)
        | Intent::Review
        | Intent::Rescan => ModalIntent::Ignore,
    }
}

/// A cursor kept inside a table: the nearest row that there is.
pub open spec fn clamped(row: Option<usize>, rows: nat) -> Option<usize> {
    if rows == 0 {
        None
    } else {
        let at = match row {
            Some(at) => at,
            None => 0,
        };
        Some(if at < rows {
            at
        } else {
            (rows - 1) as usize
        })
    }
}

/// A number of rows as a signed number, `fallback` where it is too large for
/// one.
pub open spec fn signed_or(n: int, fallback: int) -> int {
    if n <= i64::MAX {
        n
    } else {
        fallback
    }
}

/// The nearest integer between zero and `last`.
pub open spec fn within(n: int, last: int) -> int {
    if n < 0 {
        0
    } else if n > last {
        last
    } else {
        n
    }
}

impl AppModel {
    /// The state with another status line.
    pub open spec fn saying(self, status: Seq<char>) -> AppModel {
        AppModel { status, ..self }
    }

    /// The state with another modal.
    pub open spec fn showing(self, overlay: OverlayView) -> AppModel {
        AppModel { overlay, ..self }
    }

    /// The state with another view.
    pub open spec fn viewing(self, view: filter::ViewModel) -> AppModel {
        AppModel { view, ..self }
    }

    /// The state with the table in line with the inventory and the view, and
    /// both cursors inside their tables.
    pub open spec fn refreshed(self) -> AppModel {
        let order = filter::ordering(
            self.inventory.entries,
            self.view,
            self.inventory.scanned_at,
        );
        AppModel {
            order,
            row: clamped(self.row, order.len()),
            target_row: clamped(self.target_row, self.inventory.targets.len()),
            ..self
        }
    }

    /// Rows in the table currently showing.
    pub open spec fn rows(self) -> nat {
        match self.tab {
            Tab::Packages => self.order.len(),
            Tab::Janitor => self.inventory.targets.len(),
        }
    }

    /// The cursor of the table currently showing.
    pub open spec fn cursor(self) -> Option<usize> {
        match self.tab {
            Tab::Packages => self.row,
            Tab::Janitor => self.target_row,
        }
    }

    /// The state with the cursor of the table currently showing on `row`.
    pub open spec fn at_row(self, row: usize) -> AppModel {
        match self.tab {
            Tab::Packages => AppModel { row: Some(row), ..self },
            Tab::Janitor => AppModel { target_row: Some(row), ..self },
        }
    }

    /// The position of the package under the cursor.
    pub open spec fn current_position(self) -> Option<usize> {
        match self.row {
            Some(row) => if row < self.order.len() && self.order[row as int]
                < self.inventory.entries.len() {
                Some(self.order[row as int])
            } else {
                None
            },
            None => None,
        }
    }

    /// The reclaim target under the cursor.
    pub open spec fn current_target(self) -> Option<janitor::TargetView> {
        match self.target_row {
            Some(row) => if row < self.inventory.targets.len() {
                Some(self.inventory.targets[row as int])
            } else {
                None
            },
            None => None,
        }
    }

    /// What removing the selection would do.
    pub open spec fn plan(self) -> plan::PlanView {
        plan::plan_of(self.inventory.packages(), self.selection)
    }

    /// The cursor moved by `delta` rows, as far as the table goes.
    pub open spec fn moved(self, delta: int) -> (AppModel, ActionView) {
        let here = signed_or(
            match self.cursor() {
                Some(row) => row as int,
                None => 0,
            },
            0,
        );
        let there = within(here + delta, signed_or(self.rows() - 1, 0)) as usize;
        if self.rows() == 0 || self.cursor() == Some(there) {
            (self, ActionView::Idle)
        } else {
            (self.at_row(there), ActionView::Redraw)
        }
    }

    /// The cursor on a given row, or on the last one where there are fewer.
    pub open spec fn jumped(self, row: int) -> (AppModel, ActionView) {
        if self.rows() == 0 {
            (self, ActionView::Idle)
        } else {
            (self.at_row(within(row, self.rows() - 1) as usize), ActionView::Redraw)
        }
    }

    /// The package under the cursor marked where it was not, and unmarked
    /// where it was. A protected one is marked only with `force`. On the
    /// reclaim tab, where nothing can be marked, the target is reviewed.
    pub open spec fn marked(self, force: bool) -> (AppModel, ActionView) {
        match self.tab {
            Tab::Packages => match self.current_position() {
                Some(position) => {
                    let entry = self.inventory.entries[position as int];
                    let name = entry.package.name;
                    if self.selection.contains(position) {
                        let after = AppModel { selection: self.selection.remove(position), ..self };
                        (after.saying(name + " unmarked"@), ActionView::Redraw)
                    } else if entry.facts.protected && !force {
                        (
                            self.saying(
                                name
                                    + " is part of the base system. Press P to mark it anyway."@,
                            ),
                            ActionView::Redraw,
                        )
                    } else {
                        let after = AppModel { selection: self.selection.insert(position), ..self };
                        (
                            after.saying(
                                name + " marked — "@ + crate::format::bytes_text(after.plan().bytes)
                                    + " would be freed in total"@,
                            ),
                            ActionView::Redraw,
                        )
                    }
                },
                None => (self, ActionView::Idle),
            },
            Tab::Janitor => self.target_reviewed(),
        }
    }

    /// The marked packages up for review: nothing to review, an answer to a
    /// selection that would break something, or a confirmation.
    pub open spec fn packages_reviewed(self) -> (AppModel, ActionView) {
        let plan = self.plan();
        (
            if plan.selected.len() == 0 {
                self.saying("nothing is marked — press space to mark a package"@)
            } else if plan.broken.len() > 0 {
                self.showing(
                    breakage_modal(
                        plan,
                        plan::widening_of(self.inventory.packages(), self.selection),
                    ),
                )
            } else {
                self.showing(removal_modal(plan))
            },
            ActionView::Redraw,
        )
    }

    /// The reclaim target under the cursor up for review.
    pub open spec fn target_reviewed(self) -> (AppModel, ActionView) {
        match self.current_target() {
            Some(target) => (self.showing(target_modal(target)), ActionView::Redraw),
            None => (self, ActionView::Idle),
        }
    }

    /// Whatever the current tab is showing up for review.
    pub open spec fn reviewed(self) -> (AppModel, ActionView) {
        match self.tab {
            Tab::Packages => self.packages_reviewed(),
            Tab::Janitor => self.target_reviewed(),
        }
    }

    /// The state after an intent while a modal is open. What the modal does
    /// not take for an answer changes nothing at all.
    pub open spec fn modal_step(self, intent: Intent) -> (AppModel, ActionView) {
        let closed = self.showing(OverlayView::Closed);
        match meaning(intent) {
            ModalIntent::Ignore => (self, ActionView::Idle),
            ModalIntent::Dismiss => (
                match self.overlay {
                    OverlayView::Confirm { .. } => closed.saying("cancelled"@),
                    OverlayView::Offer { .. } => closed.saying("left the selection as it was"@),
                    _ => closed,
                },
                ActionView::Redraw,
            ),
            ModalIntent::Accept => match self.overlay {
                OverlayView::Confirm { steps, .. } => if self.dry_run {
                    (
                        closed.saying(
                            "dry run: nothing was executed. The commands are printed above."@,
                        ),
                        ActionView::Run { steps: Seq::empty(), summary: steps_text(steps) },
                    )
                } else {
                    (closed, ActionView::Run { steps, summary: steps_text(steps) })
                },
                OverlayView::Offer { add, .. } => {
                    let widened = AppModel {
                        selection: self.selection.union(add.to_set()),
                        ..closed
                    };
                    widened.saying(
                        "marked "@ + number::decimal(add.len()) + " more package(s)"@,
                    ).packages_reviewed()
                },
                _ => (closed, ActionView::Redraw),
            },
        }
    }

    /// The state after an intent while no modal is open, and what is to be
    /// done about it.
    pub open spec fn table_step(self, intent: Intent) -> (AppModel, ActionView) {
        match intent {
            Intent::Quit => (self, ActionView::Quit),
            Intent::Help => (self.showing(OverlayView::Help), ActionView::Redraw),
            Intent::Rescan => (self, ActionView::Rescan),
            Intent::NextTab | Intent::PrevTab => (
                AppModel { tab: self.tab.opposite(), ..self },
                ActionView::Redraw,
            ),
            Intent::Up => self.moved(-1),
            Intent::Down => self.moved(1),
            Intent::PageUp => self.moved(-signed_or(self.page as int, 20)),
            Intent::PageDown => self.moved(signed_or(self.page as int, 20)),
            Intent::First => self.jumped(0),
            Intent::Last => self.jumped(self.rows() - 1),
            Intent::ToggleSelect => self.marked(false),
            Intent::ForceSelect => self.marked(true),
            Intent::ClearSelection => (
                (AppModel { selection: Set::empty(), ..self }).saying("selection cleared"@),
                ActionView::Redraw,
            ),
            Intent::StartSearch => (
                (AppModel { searching: true, ..self }).saying(
                    "type to filter by name; Enter to keep it, Esc to drop it"@,
                ),
                ActionView::Redraw,
            ),
            Intent::SearchInput(character) => (
                self.viewing(
                    filter::ViewModel { query: self.view.query.push(character), ..self.view },
                ).refreshed(),
                ActionView::Redraw,
            ),
            Intent::SearchBackspace => (
                self.viewing(
                    filter::ViewModel {
                        query: if self.view.query.len() == 0 {
                            self.view.query
                        } else {
                            self.view.query.drop_last()
                        },
                        ..self.view
                    },
                ).refreshed(),
                ActionView::Redraw,
            ),
            Intent::SearchCommit => (AppModel { searching: false, ..self }, ActionView::Redraw),
            Intent::SearchCancel => (
                (AppModel { searching: false, ..self }).viewing(
                    filter::ViewModel { query: Seq::empty(), ..self.view },
                ).refreshed(),
                ActionView::Redraw,
            ),
            Intent::Cancel => if self.view.shows_all() {
                (self, ActionView::Idle)
            } else {
                (
                    self.viewing(self.view.cleared()).refreshed().saying("filters cleared"@),
                    ActionView::Redraw,
                )
            },
            Intent::Filter(toggle) => {
                let after = self.viewing(self.view.with_toggle(toggle)).refreshed();
                (
                    after.saying(
                        filters_text(after.inventory.entries, after.order, after.view.toggles),
                    ),
                    ActionView::Redraw,
                )
            },
            Intent::ToggleProtected => {
                let hide = !self.view.hide_protected;
                (
                    self.viewing(
                        filter::ViewModel { hide_protected: hide, ..self.view },
                    ).refreshed().saying(
                        if hide {
                            "hiding packages that the base system depends on"@
                        } else {
                            "showing every package"@
                        },
                    ),
                    ActionView::Redraw,
                )
            },
            Intent::ToggleDescriptions => {
                let widened = !self.view.match_descriptions;
                (
                    self.viewing(
                        filter::ViewModel { match_descriptions: widened, ..self.view },
                    ).refreshed().saying(
                        if widened {
                            "searching names and descriptions"@
                        } else {
                            "searching names only"@
                        },
                    ),
                    ActionView::Redraw,
                )
            },
            Intent::CycleSort => self.sorted(self.view.sort.following()),
            Intent::ReverseSort => (
                self.viewing(
                    filter::ViewModel { descending: !self.view.descending, ..self.view },
                ).refreshed(),
                ActionView::Redraw,
            ),
            Intent::SortBy(key) => self.sorted(key),
            Intent::Review | Intent::Accept => self.reviewed(),
        }
    }

    /// The table sorted by a column.
    pub open spec fn sorted(self, key: SortKey) -> (AppModel, ActionView) {
        (
            self.viewing(self.view.sorted_by(key)).refreshed().saying(
                "sorted by "@ + key.label_text(),
            ),
            ActionView::Redraw,
        )
    }

    /// The state after an intent, and what is to be done about it. A modal
    /// owns the keyboard while it is open.
    pub open spec fn step(self, intent: Intent) -> (AppModel, ActionView) {
        if self.overlay is Closed {
            self.table_step(intent)
        } else {
            self.modal_step(intent)
        }
    }

    /// Whether the table is in line with the inventory and the view, and the
    /// cursors are on rows that there are.
    pub open spec fn is_settled(self) -> bool {
        self.refreshed() == self
    }
}

/// A number of rows as a signed number, `fallback` where it is too large for
/// one.
fn to_signed(n: usize, fallback: i64) -> (r: i64)
    ensures
        r == signed_or(n as int, fallback as int),
{
    let wide: u64 = n as u64;
    if wide <= i64::MAX as u64 {
        wide as i64
    } else {
        fallback
    }
}

/// A cursor kept inside a table.
fn clamp(row: Option<usize>, rows: usize) -> (r: Option<usize>)
    ensures
        r == clamped(row, rows as nat),
{
    if rows == 0 {
        return None;
    }
    let at: usize = match row {
        Some(at) => at,
        None => 0,
    };
    if at < rows {
        Some(at)
    } else {
        Some(rows - 1)
    }
}

/// The labels of a list of toggles.
fn labels(toggles: &Vec<Toggle>) -> (r: Vec<String>)
    ensures
        text::texts(r@) == toggle_labels(toggles@),
{
    let mut out: Vec<String> = Vec::new();
    let mut i: usize = 0;
    while i < toggles.len()
        invariant
            i <= toggles.len(),
            text::texts(out@) == toggle_labels(toggles@).take(i as int),
        decreases toggles.len() - i,
    {
        add_text(&mut out, toggles[i].label().to_owned());
        i += 1;
    }
    assert(toggle_labels(toggles@).take(toggles@.len() as int) =~= toggle_labels(toggles@));
    out
}

/// What the confirmation of a removal says.
fn lines_for_removal(plan: &Plan) -> (r: Vec<String>)
    ensures
        text::texts(r@) == removal_lines(plan@),
{
    let mut lines: Vec<String> = Vec::new();
    add_text(
        &mut lines,
        concat3("Remove ", count(plan.selected.len()).as_str(), " package(s):"),
    );
    add_text(&mut lines, concat2("  ", joined(&plan.selected, " ").as_str()));
    let ghost head = text::texts(lines@);
    let ghost mut swept = Seq::<Seq<char>>::empty();
    let ghost mut warned = Seq::<Seq<char>>::empty();
    if plan.cascade.len() > 0 {
        add_text(&mut lines, String::new());
        add_text(
            &mut lines,
            concat3(
                "pacman will also take ",
                count(plan.cascade.len()).as_str(),
                " dependency package(s) nothing else needs:",
            ),
        );
        add_text(&mut lines, concat2("  ", joined(&plan.cascade, " ").as_str()));
        proof {
            swept = text::texts(lines@).skip(head.len() as int);
        }
    }
    assert(text::texts(lines@) =~= head + swept);
    if plan.protected.len() > 0 {
        add_text(&mut lines, String::new());
        add_text(
            &mut lines,
            concat3("WARNING: ", joined(&plan.protected, ", ").as_str(), " is part of the base system."),
        );
        proof {
            warned = text::texts(lines@).skip((head + swept).len() as int);
        }
    }
    assert(text::texts(lines@) =~= head + swept + warned);
    add_text(&mut lines, String::new());
    add_text(&mut lines, concat3("Frees ", crate::format::bytes(plan.bytes).as_str(), "."));
    add_text(&mut lines, String::new());
    add_text(&mut lines, concat2("Runs: ", plan.command().to_shell().as_str()));
    add_text(
        &mut lines,
        "pacman will ask for its own confirmation before it removes anything.".to_owned(),
    );
    assert(text::texts(lines@) =~= removal_lines(plan@));
    lines
}

/// What is said of a removal that would break something, where marking the
/// rest is not offered.
fn lines_for_refusal(plan: &Plan, widening: &plan::Widening) -> (r: Vec<String>)
    ensures
        text::texts(r@) == refusal_lines(plan@, widening@),
{
    let mut lines: Vec<String> = Vec::new();
    add_text(
        &mut lines,
        concat2(
            "These packages still need what you marked: ",
            joined(&plan.broken, ", ").as_str(),
        ),
    );
    add_text(&mut lines, String::new());
    if widening.protected.len() == 0 {
        add_text(
            &mut lines,
            "Unmark whatever they depend on. pacman would refuse this transaction as it stands.".to_owned(),
        );
    } else {
        let mut reached = concat2(
            "Removing them in turn would reach ",
            count(widening.protected.len()).as_str(),
        );
        reached.append(" package(s) the base system depends on, including ");
        reached.append(preview(&widening.protected, 4).as_str());
        reached.append(".");
        add_text(&mut lines, reached);
        add_text(&mut lines, String::new());
        add_text(
            &mut lines,
            "pacpurge will not offer to mark those for you. Unmark whatever they depend on instead, or mark them one at a time with P if you really mean it.".to_owned(),
        );
    }
    assert(text::texts(lines@) =~= refusal_lines(plan@, widening@));
    lines
}

/// What an offer to mark the dependants too says.
fn lines_for_offer(plan: &Plan, widening: &plan::Widening) -> (r: Vec<String>)
    ensures
        text::texts(r@) == offer_lines(plan@, widening@),
{
    let mut lines: Vec<String> = Vec::new();
    add_text(
        &mut lines,
        concat2(
            count(widening.names.len()).as_str(),
            " package(s) still need what you marked:",
        ),
    );
    add_text(&mut lines, concat2("  ", preview(&widening.names, 12).as_str()));
    add_text(&mut lines, String::new());
    add_text(
        &mut lines,
        "pacman would refuse the removal while they are installed. Marking them too makes it consistent.".to_owned(),
    );
    add_text(&mut lines, String::new());
    let mut total = concat3(
        "That brings the total to ",
        crate::format::bytes(widening.bytes).as_str(),
        ", up from ",
    );
    total.append(crate::format::bytes(plan.bytes).as_str());
    total.append(".");
    add_text(&mut lines, total);
    assert(text::texts(lines@) =~= offer_lines(plan@, widening@));
    lines
}

/// What is deleted, the first six paths of it.
fn lines_for_deletion(paths: &Vec<String>) -> (r: Vec<String>)
    ensures
        text::texts(r@) == deletion_lines(text::texts(paths@)),
{
    let ghost all = text::texts(paths@);
    let mut lines: Vec<String> = Vec::new();
    add_text(&mut lines, String::new());
    add_text(
        &mut lines,
        concat3("Deletes ", count(paths.len()).as_str(), " path(s), starting with:"),
    );
    let ghost head = text::texts(lines@);
    let shown = first_texts(paths, 6);
    let ghost named = text::texts(shown@);
    let ghost listed = Seq::new(named.len(), |i: int| "  "@ + named[i]);
    let mut i: usize = 0;
    assert(head + listed.take(0) =~= head);
    while i < shown.len()
        invariant
            i <= shown.len(),
            named == text::texts(shown@),
            listed == Seq::new(named.len(), |i: int| "  "@ + named[i]),
            text::texts(lines@) == head + listed.take(i as int),
        decreases shown.len() - i,
    {
        add_text(&mut lines, concat2("  ", shown[i].as_str()));
        assert(head + listed.take(i + 1) =~= (head + listed.take(i as int)).push(listed[i as int]));
        i += 1;
    }
    assert(listed.take(listed.len() as int) =~= listed);
    if paths.len() > 6 {
        add_text(&mut lines, concat3("  … and ", count(paths.len() - 6).as_str(), " more"));
    }
    assert(text::texts(lines@) =~= deletion_lines(all));
    lines
}

/// The modal for a reclaim target.
fn modal_for_target(target: &Target) -> (r: Overlay)
    ensures
        r@ == target_modal(target@),
{
    let title = target.title.clone();
    let detail = target.detail.clone();
    let step = match plan::step_for(target) {
        Some(step) => step,
        None => {
            let advice = match &target.reclaim {
                Reclaim::Handoff { hint } => concat3("Handled on the ", hint.as_str(), "."),
                Reclaim::Advice { text } => text.clone(),
                Reclaim::Run { command: _ } => String::new(),
                Reclaim::Paths { paths: _, needs_root: _ } => String::new(),
            };
            let mut lines: Vec<String> = Vec::new();
            add_text(&mut lines, detail);
            add_text(&mut lines, String::new());
            add_text(&mut lines, advice);
            assert(text::texts(lines@) =~= seq![
                target@.detail,
                Seq::empty(),
                advice_text(target@.reclaim),
            ]);
            return Overlay::Notice { title, lines };
        },
    };
    let size = match target.bytes {
        Some(bytes) => crate::format::bytes(bytes),
        None => "an unknown amount".to_owned(),
    };
    let mut lines: Vec<String> = Vec::new();
    add_text(&mut lines, detail);
    add_text(&mut lines, String::new());
    add_text(&mut lines, concat3("Frees ", size.as_str(), "."));
    let ghost head = text::texts(lines@);
    let ghost mut deleted = Seq::<Seq<char>>::empty();
    if let Reclaim::Paths { paths, needs_root: _ } = &target.reclaim {
        let mut more = lines_for_deletion(paths);
        proof {
            deleted = text::texts(more@);
        }
        lines.append(&mut more);
    }
    assert(text::texts(lines@) =~= head + deleted);
    add_text(&mut lines, String::new());
    add_text(&mut lines, concat2("Runs: ", step.to_shell().as_str()));
    assert(text::texts(lines@) =~= target_lines(target@, step@));
    let mut steps: Vec<Step> = Vec::new();
    steps.push(step);
    assert(plan::step_views(steps@) =~= seq![step@]);
    Overlay::Confirm { title, lines, steps, danger: target.safety == Safety::Careful }
}

impl App {
    /// Build the interface state around a scan.
    pub fn new(inventory: Inventory, view: filter::View, dry_run: bool) -> (r: App)
        ensures
            r@ == (AppModel {
                inventory: inventory@,
                view: view@,
                tab: Tab::Packages,
                order: Seq::empty(),
                row: None,
                target_row: None,
                selection: Set::empty(),
                searching: false,
                overlay: OverlayView::Closed,
                status: opening_text(inventory@),
                dry_run,
                page: 20,
            }).refreshed(),
    {
        let mut app = App {
            order: Vec::new(),
            inventory,
            view,
            tab: Tab::Packages,
            table: Cursor::new(),
            targets_table: Cursor::new(),
            selection: BTreeSet::new(),
            searching: false,
            overlay: Overlay::Closed,
            status: String::new(),
            dry_run,
            page: 20,
        };
        app.refresh();
        app.status = app.opening_status();
        app
    }

    /// Replace the scan, keeping filters and cursor position where possible.
    pub fn adopt(&mut self, inventory: Inventory) -> (r: bool)
        ensures
            r,
            final(self)@ == (AppModel {
                inventory: inventory@,
                selection: Set::empty(),
                ..old(self)@
            }).refreshed().saying(opening_text(inventory@)),
    {
        self.inventory = inventory;
        self.selection = BTreeSet::new();
        self.refresh();
        self.status = self.opening_status();
        true
    }

    /// Recompute the visible order and clamp the cursor into it.
    pub fn refresh(&mut self) -> (r: bool)
        ensures
            r,
            final(self)@ == old(self)@.refreshed(),
    {
        self.order =
        filter::order(
            self.inventory.entries.as_slice(),
            &self.view,
            self.inventory.scanned_at,
        );
        self.table.select(clamp(self.table.selected(), self.order.len()));
        self.targets_table.select(
            clamp(self.targets_table.selected(), self.inventory.targets.len()),
        );
        true
    }

    /// The message shown when a scan finishes.
    fn opening_status(&self) -> (r: String)
        ensures
            r@ == opening_text(self.inventory@),
    {
        let mut summary = concat2(count(self.inventory.entries.len()).as_str(), " packages, ");
        summary.append(crate::format::bytes(self.inventory.total_size()).as_str());
        summary.append(" installed, ");
        summary.append(count(self.inventory.probed).as_str());
        summary.append(" probed for last use");
        if !self.inventory.atime_support.is_meaningful() {
            summary.append(" — ");
            summary.append(self.inventory.atime_support.caveat());
        }
        summary
    }

    /// The position of the package under the cursor.
    fn current_position(&self) -> (r: Option<usize>)
        ensures
            r == self@.current_position(),
    {
        match self.table.selected() {
            Some(row) => if row < self.order.len() && self.order[row]
                < self.inventory.entries.len() {
                Some(self.order[row])
            } else {
                None
            },
            None => None,
        }
    }

    /// The entry under the cursor on the packages tab.
    pub fn current_entry(&self) -> (r: Option<&Entry>)
        ensures
            match r {
                Some(entry) => self@.current_position() is Some && *entry
                    == self.inventory.entries[self@.current_position().unwrap() as int],
                None => self@.current_position() is None,
            },
    {
        match self.current_position() {
            Some(position) => Some(&self.inventory.entries[position]),
            None => None,
        }
    }

    /// The target under the cursor on the reclaim tab.
    pub fn current_target(&self) -> (r: Option<&Target>)
        ensures
            match r {
                Some(target) => self@.current_target() == Some(target@),
                None => self@.current_target() is None,
            },
    {
        match self.targets_table.selected() {
            Some(row) => if row < self.inventory.targets.len() {
                Some(&self.inventory.targets[row])
            } else {
                None
            },
            None => None,
        }
    }

    /// Bytes the current selection would free, cascade included.
    pub fn selection_bytes(&self) -> (r: u64)
        ensures
            r == self@.plan().bytes,
    {
        self.plan().bytes
    }

    /// The removal plan for the current selection.
    pub fn plan(&self) -> (r: Plan)
        ensures
            r@ == self@.plan(),
    {
        plan::build(&self.inventory, &self.selection)
    }

    /// Apply an intent.
    pub fn handle(&mut self, intent: Intent) -> (r: Action)
        ensures
            (final(self)@, r@) == old(self)@.step(intent),
    {
        // A modal owns the keyboard while it is open, so nothing leaks
        // through to the table underneath.
        let closed = match &self.overlay {
            Overlay::Closed => true,
            _ => false,
        };
        if !closed {
            return self.handle_modal(intent);
        }
        match intent {
            Intent::Quit => Action::Quit,
            Intent::Help => {
                self.overlay = Overlay::Help;
                Action::Redraw
            },
            Intent::Rescan => Action::Rescan,
            Intent::NextTab | Intent::PrevTab => {
                self.tab = self.tab.other();
                Action::Redraw
            },
            Intent::Up => self.move_cursor(-1),
            Intent::Down => self.move_cursor(1),
            Intent::PageUp => {
                let page: i64 = to_signed(self.page, 20);
                self.move_cursor(-page)
            },
            Intent::PageDown => {
                let page: i64 = to_signed(self.page, 20);
                self.move_cursor(page)
            },
            Intent::First => self.jump(0),
            Intent::Last => {
                let rows: usize = self.row_count();
                self.jump(if rows == 0 {
                    0
                } else {
                    rows - 1
                })
            },
            Intent::ToggleSelect => self.toggle_selection(false),
            Intent::ForceSelect => self.toggle_selection(true),
            Intent::ClearSelection => {
                self.selection = BTreeSet::new();
                self.status = "selection cleared".to_owned();
                Action::Redraw
            },
            Intent::StartSearch => {
                self.searching = true;
                self.status =
                "type to filter by name; Enter to keep it, Esc to drop it".to_owned();
                Action::Redraw
            },
            Intent::SearchInput(character) => {
                self.view.query.push(character);
                self.refresh();
                Action::Redraw
            },
            Intent::SearchBackspace => {
                self.view.query.pop();
                self.refresh();
                Action::Redraw
            },
            Intent::SearchCommit => {
                self.searching = false;
                Action::Redraw
            },
            Intent::SearchCancel => {
                self.searching = false;
                self.view.query.clear();
                self.refresh();
                Action::Redraw
            },
            Intent::Cancel => {
                if self.view.is_unfiltered() {
                    return Action::Idle;
                }
                self.view.query.clear();
                self.view.toggles.clear();
                self.view.hide_protected = false;
                self.refresh();
                self.status = "filters cleared".to_owned();
                Action::Redraw
            },
            Intent::Filter(toggle) => {
                self.view.toggle(toggle);
                self.refresh();
                self.status = self.describe_filters();
                Action::Redraw
            },
            Intent::ToggleProtected => {
                self.view.hide_protected = !self.view.hide_protected;
                self.refresh();
                self.status =
                if self.view.hide_protected {
                    "hiding packages that the base system depends on".to_owned()
                } else {
                    "showing every package".to_owned()
                };
                Action::Redraw
            },
            Intent::ToggleDescriptions => {
                let widened = self.view.toggle_descriptions();
                self.refresh();
                self.status =
                if widened {
                    "searching names and descriptions".to_owned()
                } else {
                    "searching names only".to_owned()
                };
                Action::Redraw
            },
            Intent::CycleSort => {
                let next = self.view.sort.next();
                self.sort_table(next)
            },
            Intent::ReverseSort => {
                self.view.descending = !self.view.descending;
                self.refresh();
                Action::Redraw
            },
            Intent::SortBy(key) => self.sort_table(key),
            Intent::Review => self.review(),
            Intent::Accept => self.review(),
        }
    }

    /// Sort the table by a column.
    fn sort_table(&mut self, key: SortKey) -> (r: Action)
        ensures
            (final(self)@, r@) == old(self)@.sorted(key),
    {
        self.view.sort_by(key);
        self.refresh();
        self.status = concat2("sorted by ", self.view.sort.label());
        Action::Redraw
    }

    /// Apply an intent to whichever modal is open.
    ///
    /// The overlay is taken out and re-installed on [`ModalIntent::Ignore`],
    /// which keeps each arm free to consume the modal's contents.
    fn handle_modal(&mut self, intent: Intent) -> (r: Action)
        requires
            !(old(self).overlay is Closed),
        ensures
            (final(self)@, r@) == old(self)@.modal_step(intent),
    {
        let answer = modal_intent(intent);
        if answer == ModalIntent::Ignore {
            return Action::Idle;
        }
        let mut overlay = Overlay::Closed;
        std::mem::swap(&mut self.overlay, &mut overlay);
        let accepted = answer == ModalIntent::Accept;
        match overlay {
            Overlay::Closed => Action::Idle,
            Overlay::Help => Action::Redraw,
            Overlay::Notice { title: _, lines: _ } => Action::Redraw,
            Overlay::Confirm { title: _, lines: _, steps, danger: _ } => {
                if !accepted {
                    self.status = "cancelled".to_owned();
                    return Action::Redraw;
                }
                let summary = describe(&steps);
                if self.dry_run {
                    self.status =
                    "dry run: nothing was executed. The commands are printed above.".to_owned();
                    let none: Vec<Step> = Vec::new();
                    assert(plan::step_views(none@) =~= Seq::empty());
                    return Action::Run { steps: none, summary };
                }
                Action::Run { steps, summary }
            },
            Overlay::Offer { title: _, lines: _, add } => {
                if !accepted {
                    self.status = "left the selection as it was".to_owned();
                    return Action::Redraw;
                }
                plan::extend(&mut self.selection, &add);
                self.status = concat3("marked ", count(add.len()).as_str(), " more package(s)");
                // Straight back to the review, which is now consistent.
                self.review_packages()
            },
        }
    }

    /// Rows in the table currently showing.
    fn row_count(&self) -> (r: usize)
        ensures
            r == self@.rows(),
    {
        match self.tab {
            Tab::Packages => self.order.len(),
            Tab::Janitor => self.inventory.targets.len(),
        }
    }

    /// The cursor of the table currently showing.
    fn cursor(&self) -> (r: Option<usize>)
        ensures
            r == self@.cursor(),
    {
        match self.tab {
            Tab::Packages => self.table.selected(),
            Tab::Janitor => self.targets_table.selected(),
        }
    }

    /// Put the cursor of the table currently showing on a row.
    fn set_cursor(&mut self, row: usize)
        ensures
            final(self)@ == old(self)@.at_row(row),
    {
        match self.tab {
            Tab::Packages => self.table.select(Some(row)),
            Tab::Janitor => self.targets_table.select(Some(row)),
        }
    }

    /// Move the cursor by `delta` rows, clamped to the table.
    fn move_cursor(&mut self, delta: i64) -> (r: Action)
        ensures
            (final(self)@, r@) == old(self)@.moved(delta as int),
    {
        let rows: usize = self.row_count();
        if rows == 0 {
            return Action::Idle;
        }
        let here: usize = match self.cursor() {
            Some(row) => row,
            None => 0,
        };
        let current: i64 = to_signed(here, 0);
        let last: i64 = to_signed(rows - 1, 0);
        let target: i64 = match current.checked_add(delta) {
            Some(target) => target,
            None => if delta < 0 {
                i64::MIN
            } else {
                i64::MAX
            },
        };
        let clamped: i64 = if target < 0 {
            0
        } else if target > last {
            last
        } else {
            target
        };
        let next: usize = clamped as usize;
        match self.cursor() {
            Some(row) => {
                if row == next {
                    return Action::Idle;
                }
            },
            None => {},
        }
        self.set_cursor(next);
        Action::Redraw
    }

    /// Move the cursor to an absolute row.
    fn jump(&mut self, row: usize) -> (r: Action)
        ensures
            (final(self)@, r@) == old(self)@.jumped(row as int),
    {
        let rows: usize = self.row_count();
        if rows == 0 {
            return Action::Idle;
        }
        self.set_cursor(if row < rows {
            row
        } else {
            rows - 1
        });
        Action::Redraw
    }

    /// Mark or unmark the row under the cursor.
    fn toggle_selection(&mut self, force: bool) -> (r: Action)
        ensures
            (final(self)@, r@) == old(self)@.marked(force),
    {
        match self.tab {
            Tab::Packages => {
                let position: usize = match self.current_position() {
                    Some(position) => position,
                    None => {
                        return Action::Idle;
                    },
                };
                let name = self.inventory.entries[position].package.name.clone();
                if self.selection.contains(&position) {
                    self.selection.remove(&position);
                    self.status = concat2(name.as_str(), " unmarked");
                    return Action::Redraw;
                }
                if self.inventory.entries[position].facts.protected && !force {
                    self.status =
                    concat2(
                        name.as_str(),
                        " is part of the base system. Press P to mark it anyway.",
                    );
                    return Action::Redraw;
                }
                self.selection.insert(position);
                let bytes: u64 = self.selection_bytes();
                let mut status = concat3(
                    name.as_str(),
                    " marked — ",
                    crate::format::bytes(bytes).as_str(),
                );
                status.append(" would be freed in total");
                self.status = status;
                Action::Redraw
            },
            Tab::Janitor => self.review(),
        }
    }

    /// Build the confirmation modal for whatever the current tab is showing.
    fn review(&mut self) -> (r: Action)
        ensures
            (final(self)@, r@) == old(self)@.reviewed(),
    {
        match self.tab {
            Tab::Packages => self.review_packages(),
            Tab::Janitor => self.review_target(),
        }
    }

    /// Confirmation modal for the marked packages.
    fn review_packages(&mut self) -> (r: Action)
        ensures
            (final(self)@, r@) == old(self)@.packages_reviewed(),
    {
        let plan = self.plan();
        if plan.selected.len() == 0 {
            self.status = "nothing is marked — press space to mark a package".to_owned();
            return Action::Redraw;
        }
        if plan.broken.len() > 0 {
            return self.offer_to_widen(&plan);
        }
        let mut steps: Vec<Step> = Vec::new();
        steps.push(Step::Run { command: plan.command() });
        assert(plan::step_views(steps@) =~= seq![
            plan::StepView::Run { command: plan@.command() },
        ]);
        self.overlay =
        Overlay::Confirm {
            title: "Review removal".to_owned(),
            lines: lines_for_removal(&plan),
            steps,
            danger: plan.protected.len() > 0,
        };
        Action::Redraw
    }

    /// Propose marking everything that depends on the current selection.
    ///
    /// pacman would refuse the transaction as it stands, and the fix is nearly
    /// always to remove the dependants too. Rather than leave the user to
    /// discover the closure one refusal at a time, the whole set is offered at
    /// once — unless it reaches the base system, in which case accepting a
    /// prompt is far too casual a way to uninstall half the machine.
    fn offer_to_widen(&mut self, plan: &Plan) -> (r: Action)
        ensures
            final(self)@ == old(self)@.showing(
                breakage_modal(
                    plan@,
                    plan::widening_of(old(self)@.inventory.packages(), old(self)@.selection),
                ),
            ),
            r is Redraw,
    {
        let widening = plan::widen(&self.inventory, &self.selection);
        if widening.is_offerable() {
            let lines = lines_for_offer(plan, &widening);
            self.overlay =
            Overlay::Offer {
                title: "Mark what depends on this too?".to_owned(),
                lines,
                add: widening.positions,
            };
        } else {
            self.overlay =
            Overlay::Notice {
                title: "That would break installed software".to_owned(),
                lines: lines_for_refusal(plan, &widening),
            };
        }
        Action::Redraw
    }

    /// Confirmation modal for the reclaim target under the cursor.
    fn review_target(&mut self) -> (r: Action)
        ensures
            (final(self)@, r@) == old(self)@.target_reviewed(),
    {
        let overlay = match self.current_target() {
            Some(target) => modal_for_target(target),
            None => {
                return Action::Idle;
            },
        };
        self.overlay = overlay;
        Action::Redraw
    }

    /// A status line naming the active filters.
    fn describe_filters(&self) -> (r: String)
        ensures
            r@ == filters_text(self@.inventory.entries, self@.order, self@.view.toggles),
    {
        if self.view.toggles.len() == 0 {
            return concat2(count(self.order.len()).as_str(), " packages");
        }
        let ghost entries = self@.inventory.entries;
        let mut bytes: u64 = 0;
        let mut i: usize = 0;
        assert(self.order@.take(0) =~= Seq::empty());
        while i < self.order.len()
            invariant
                i <= self.order.len(),
                entries == self@.inventory.entries,
                bytes == number::saturated(sizes_shown(entries, self.order@.take(i as int))),
            decreases self.order.len() - i,
        {
            assert(self.order@.take(i + 1).drop_last() =~= self.order@.take(i as int));
            let position: usize = self.order[i];
            if position < self.inventory.entries.len() {
                bytes = bytes.saturating_add(self.inventory.entries[position].package.size);
            }
            i += 1;
        }
        assert(self.order@.take(self.order@.len() as int) =~= self.order@);
        let mut out = concat2(count(self.order.len()).as_str(), " packages match ");
        out.append(joined(&labels(&self.view.toggles), " + ").as_str());
        out.append(" — ");
        out.append(crate::format::bytes(bytes).as_str());
        out.append(" installed");
        out
    }
}

// ---------------------------------------------------------------------------
// Laws
// ---------------------------------------------------------------------------

/// Tabs alternate: moving on twice is back where it began.
pub proof fn tabs_alternate(tab: Tab)
    ensures
        tab.opposite() != tab,
        tab.opposite().opposite() == tab,
{
}

/// Keys do not leak through a modal: what it does not take for an answer
/// changes nothing, and no answer touches the table underneath.
pub proof fn keys_do_not_leak(m: AppModel, intent: Intent)
    requires
        !(m.overlay is Closed),
    ensures
        meaning(intent) == ModalIntent::Ignore ==> m.step(intent) == (m, ActionView::Idle),
        m.step(intent).0 == (AppModel {
            selection: m.step(intent).0.selection,
            overlay: m.step(intent).0.overlay,
            status: m.step(intent).0.status,
            ..m
        }),
{
}

/// Closing a modal without saying yes leaves the selection as it was and the
/// table showing.
pub proof fn dismissing_changes_no_selection(m: AppModel, intent: Intent)
    requires
        !(m.overlay is Closed),
        meaning(intent) == ModalIntent::Dismiss,
    ensures
        m.step(intent).0.selection == m.selection,
        m.step(intent).0.overlay is Closed,
{
}

// Without a modal nothing runs, whatever the intent is about.
proof fn lemma_moving_runs_nothing(m: AppModel, intent: Intent)
    requires
        intent is Quit
            || intent is Help
            || intent is Rescan
            || intent is NextTab
            || intent is PrevTab
            || intent is Up
            || intent is Down
            || intent is PageUp
            || intent is PageDown
            || intent is First
            || intent is Last,
    ensures
        !(m.table_step(intent).1 is Run),
        m.table_step(intent).0.dry_run == m.dry_run,
{
}

proof fn lemma_searching_runs_nothing(m: AppModel, intent: Intent)
    requires
        intent is StartSearch
            || intent is SearchInput
            || intent is SearchBackspace
            || intent is SearchCommit
            || intent is SearchCancel
            || intent is Cancel,
    ensures
        !(m.table_step(intent).1 is Run),
        m.table_step(intent).0.dry_run == m.dry_run,
{
}

proof fn lemma_viewing_runs_nothing(m: AppModel, intent: Intent)
    requires
        intent is Filter
            || intent is ToggleProtected
            || intent is ToggleDescriptions
            || intent is CycleSort
            || intent is ReverseSort
            || intent is SortBy,
    ensures
        !(m.table_step(intent).1 is Run),
        m.table_step(intent).0.dry_run == m.dry_run,
{
}

proof fn lemma_marking_runs_nothing(m: AppModel, intent: Intent)
    requires
        intent is ToggleSelect
            || intent is ForceSelect
            || intent is ClearSelection
            || intent is Review
            || intent is Accept,
    ensures
        !(m.table_step(intent).1 is Run),
        m.table_step(intent).0.dry_run == m.dry_run,
{
}

/// Nothing runs but what a confirmation showed, and only when it is accepted.
/// In a dry run nothing runs at all; the same lines are shown.
pub proof fn only_the_confirmed_runs(m: AppModel, intent: Intent)
    ensures
        m.step(intent).1 matches ActionView::Run { steps, summary } ==> {
            &&& intent == Intent::Accept
            &&& m.overlay matches OverlayView::Confirm { steps: shown, .. }
            &&& summary == steps_text(shown)
            &&& steps == if m.dry_run {
                Seq::empty()
            } else {
                shown
            }
        },
        m.step(intent).0.dry_run == m.dry_run,
{
    if m.overlay is Closed {
        match intent {
            Intent::StartSearch | Intent::SearchInput(_) | Intent::SearchBackspace | Intent::SearchCommit | Intent::SearchCancel | Intent::Cancel => {
                lemma_searching_runs_nothing(m, intent);
            },
            Intent::Filter(_) | Intent::ToggleProtected | Intent::ToggleDescriptions | Intent::CycleSort | Intent::ReverseSort | Intent::SortBy(_) => {
                lemma_viewing_runs_nothing(m, intent);
            },
            Intent::ToggleSelect | Intent::ForceSelect | Intent::ClearSelection | Intent::Review | Intent::Accept => {
                lemma_marking_runs_nothing(m, intent);
            },
            _ => {
                lemma_moving_runs_nothing(m, intent);
            },
        }
    }
}

/// Accepting a confirmation runs exactly the steps that it showed, or none of
/// them in a dry run. Either way their shell lines are what is reported, and
/// the selection and the view stay as they were.
pub proof fn accepting_runs_what_was_shown(m: AppModel, intent: Intent)
    requires
        m.overlay is Confirm,
        meaning(intent) == ModalIntent::Accept,
    ensures
        m.overlay matches OverlayView::Confirm { steps, .. } && m.step(intent).1 == (
        ActionView::Run {
            steps: if m.dry_run {
                Seq::empty()
            } else {
                steps
            },
            summary: steps_text(steps),
        }),
        m.step(intent).0.selection == m.selection,
        m.step(intent).0.view == m.view,
        m.step(intent).0.overlay is Closed,
{
}

/// A review shows what it finds: that nothing is marked; or, where the removal
/// would strand packages, an offer to mark them too, or a refusal where that
/// would reach the base system; or else the removal, to be confirmed. It marks
/// and unmarks nothing.
pub proof fn reviews_show_what_they_find(m: AppModel)
    requires
        m.overlay is Closed,
        m.tab == Tab::Packages,
    ensures
        ({
            let plan = m.plan();
            let widening = plan::widening_of(m.inventory.packages(), m.selection);
            let (after, action) = m.step(Intent::Review);
            &&& action is Redraw
            &&& after.selection == m.selection
            &&& plan.selected.len() == 0 ==> after.overlay is Closed && after.status
                == "nothing is marked — press space to mark a package"@
            &&& plan.selected.len() > 0 && plan.broken.len() > 0 && widening.is_offerable() ==> (
            after.overlay matches OverlayView::Offer { add, .. } && add == widening.positions)
            &&& plan.selected.len() > 0 && plan.broken.len() > 0 && !widening.is_offerable()
                ==> after.overlay is Notice
            &&& plan.selected.len() > 0 && plan.broken.len() == 0 ==> (
            after.overlay matches OverlayView::Confirm { steps, danger, .. } && steps == seq![
                plan::StepView::Run { command: plan.command() },
            ] && danger == (plan.protected.len() > 0))
        }),
{
}

/// A protected package is marked only by force, or as part of an offer that
/// was accepted.
pub proof fn protected_packages_need_force(m: AppModel, intent: Intent, position: usize)
    requires
        position < m.inventory.entries.len(),
        m.inventory.entries[position as int].facts.protected,
        !m.selection.contains(position),
        m.step(intent).0.selection.contains(position),
    ensures
        intent == Intent::ForceSelect || (intent == Intent::Accept && m.overlay is Offer),
{
}

/// Marking a package and marking it again leaves the selection as it was.
pub proof fn marking_twice_changes_nothing(m: AppModel, force: bool)
    requires
        m.overlay is Closed,
        m.tab == Tab::Packages,
        m.current_position() matches Some(position) ==> force
            || !m.inventory.entries[position as int].facts.protected,
    ensures
        ({
            let intent = if force {
                Intent::ForceSelect
            } else {
                Intent::ToggleSelect
            };
            m.step(intent).0.step(intent).0.selection == m.selection
        }),
{
    if let Some(position) = m.current_position() {
        assert(m.selection.insert(position).remove(position) =~= m.selection
            || m.selection.contains(position));
        assert(m.selection.remove(position).insert(position) =~= m.selection
            || !m.selection.contains(position));
    }
}

/// Refreshing settles a state.
pub proof fn refreshing_settles(m: AppModel)
    ensures
        m.refreshed().is_settled(),
{
}

/// In a settled state the cursor is on a row wherever the table has one.
pub proof fn the_cursor_is_on_a_row(m: AppModel)
    requires
        m.is_settled(),
    ensures
        m.rows() == 0 ==> m.cursor() is None,
        m.rows() > 0 ==> m.cursor() is Some && m.cursor().unwrap() < m.rows(),
{
    assert(m.row == m.refreshed().row);
    assert(m.target_row == m.refreshed().target_row);
    assert(m.order == m.refreshed().order);
}

/// What keeps a state settled: the same table, and cursors inside it.
proof fn lemma_settled(m: AppModel, after: AppModel)
    requires
        m.is_settled(),
        after.inventory == m.inventory,
        after.view == m.view,
        after.order == m.order,
        after.row == m.row || (after.row is Some && after.row.unwrap() < m.order.len()),
        after.target_row == m.target_row || (after.target_row is Some && after.target_row.unwrap()
            < m.inventory.targets.len()),
    ensures
        after.is_settled(),
{
    assert(m.row == m.refreshed().row);
    assert(m.target_row == m.refreshed().target_row);
    assert(m.order == m.refreshed().order);
    assert(after.refreshed() =~= after);
}

/// A state whose table was just refreshed is settled, whatever it says.
proof fn lemma_refreshed(m: AppModel, status: Seq<char>)
    ensures
        m.refreshed().is_settled(),
        m.refreshed().saying(status).is_settled(),
{
    assert(m.refreshed().refreshed() =~= m.refreshed());
    assert(m.refreshed().saying(status).refreshed() =~= m.refreshed().saying(status));
}

/// Moving the cursor keeps a state settled.
proof fn lemma_cursor_settled(m: AppModel, delta: int, row: int)
    requires
        m.is_settled(),
        m.order.len() <= usize::MAX,
        m.inventory.targets.len() <= usize::MAX,
    ensures
        m.moved(delta).0.is_settled(),
        m.jumped(row).0.is_settled(),
{
    lemma_settled(m, m.moved(delta).0);
    lemma_settled(m, m.jumped(row).0);
}

/// Marking and reviewing keep a state settled.
proof fn lemma_review_settled(m: AppModel, force: bool)
    requires
        m.is_settled(),
    ensures
        m.marked(force).0.is_settled(),
        m.reviewed().0.is_settled(),
{
    lemma_settled(m, m.packages_reviewed().0);
    lemma_settled(m, m.target_reviewed().0);
    lemma_settled(m, m.marked(force).0);
}

/// Changing the view settles a state anew.
proof fn lemma_view_settled(m: AppModel, intent: Intent)
    requires
        m.is_settled(),
        intent is SearchInput || intent is SearchBackspace || intent is SearchCancel
            || intent is Cancel || intent is Filter || intent is ToggleProtected
            || intent is ToggleDescriptions || intent is CycleSort || intent is ReverseSort
            || intent is SortBy,
    ensures
        m.table_step(intent).0.is_settled(),
{
    let after = m.table_step(intent).0;
    let before = AppModel { view: after.view, searching: after.searching, ..m };
    lemma_refreshed(before, after.status);
    assert(after == m || after =~= before.refreshed().saying(after.status));
}

/// Every intent keeps a state settled: the table stays in line with the
/// filters, and the cursor stays inside it.
pub proof fn every_intent_keeps_a_state_settled(m: AppModel, intent: Intent)
    requires
        m.is_settled(),
        m.order.len() <= usize::MAX,
        m.inventory.targets.len() <= usize::MAX,
    ensures
        m.step(intent).0.is_settled(),
{
    let after = m.step(intent).0;
    if !(m.overlay is Closed) {
        keys_do_not_leak(m, intent);
        lemma_settled(m, after);
    } else {
        match intent {
            Intent::SearchInput(_)
            | Intent::SearchBackspace
            | Intent::SearchCancel
            | Intent::Cancel
            | Intent::Filter(_)
            | Intent::ToggleProtected
            | Intent::ToggleDescriptions
            | Intent::CycleSort
            | Intent::ReverseSort
            | Intent::SortBy(_) => lemma_view_settled(m, intent),
            Intent::Up => lemma_cursor_settled(m, -1, 0),
            Intent::Down => lemma_cursor_settled(m, 1, 0),
            Intent::PageUp => lemma_cursor_settled(m, -signed_or(m.page as int, 20), 0),
            Intent::PageDown => lemma_cursor_settled(m, signed_or(m.page as int, 20), 0),
            Intent::First => lemma_cursor_settled(m, 0, 0),
            Intent::Last => lemma_cursor_settled(m, 0, m.rows() - 1),
            Intent::ToggleSelect | Intent::Review | Intent::Accept => lemma_review_settled(m, false),
            Intent::ForceSelect => lemma_review_settled(m, true),
            _ => lemma_settled(m, after),
        }
    }
}

/// Escape clears every filter at once.
pub proof fn escape_clears_every_filter(m: AppModel)
    requires
        m.overlay is Closed,
    ensures
        m.step(Intent::Cancel).0.view.shows_all(),
{
}

/// An offer never names a package that the base system depends on.
pub proof fn offers_spare_the_base_system(m: AppModel, position: usize)
    requires
        m.inventory.entries.len() <= usize::MAX,
        m.packages_reviewed().0.overlay matches OverlayView::Offer { add, .. } && add.contains(
            position,
        ),
        m.overlay is Closed,
    ensures
        !crate::graph::is_guarded(m.inventory.packages(), position),
{
    let ps = m.inventory.packages();
    let w = plan::widening_of(ps, m.selection);
    let d = crate::graph::dependants_of(ps, m.selection);
    let guarded = plan::guarded_in(ps, d);
    assert(w.positions.contains(position));
    crate::sets::lemma_below(d, ps.len());
    if crate::graph::is_guarded(ps, position) {
        crate::sets::lemma_below(guarded, ps.len());
        assert(crate::sets::below(d, ps.len()).contains(position));
        assert(guarded.contains(position));
        assert(crate::sets::below(guarded, ps.len()).contains(position));
        crate::sort::sorting_keeps_texts(
            crate::graph::names_at(ps, crate::sets::below(guarded, ps.len())),
        );
    }
}

/// Packages leave through pacman alone: what a review of marked packages asks
/// to confirm is one `pacman -Rns` of exactly the packages that were marked.
pub proof fn packages_leave_through_pacman(m: AppModel)
    requires
        m.overlay is Closed,
        m.tab == Tab::Packages,
        m.step(Intent::Review).0.overlay is Confirm,
    ensures
        m.step(Intent::Review).0.overlay matches OverlayView::Confirm { steps, .. } && steps
            == seq![
            plan::StepView::Run {
                command: janitor::CommandView {
                    program: "pacman"@,
                    args: seq!["-Rns"@] + m.plan().selected,
                    needs_root: true,
                },
            },
        ],
{
}

/// Accepting an offer leads straight to a confirmation: with everything that
/// depends on the selection marked too, nothing is left to break.
pub proof fn accepted_offers_can_run(m: AppModel)
    requires
        m.inventory.entries.len() <= usize::MAX,
        m.overlay is Closed,
        m.tab == Tab::Packages,
        m.step(Intent::Review).0.overlay is Offer,
    ensures
        m.step(Intent::Review).0.step(Intent::Accept).0.overlay is Confirm,
        m.step(Intent::Review).0.step(Intent::Accept).0.plan().is_executable(),
{
    let ps = m.inventory.packages();
    let listed = crate::sets::below(m.selection, ps.len());
    crate::sort::sorting_keeps_texts(crate::graph::names_at(ps, listed));
    assert(m.plan().selected.len() > 0);
    crate::sets::lemma_below(m.selection, ps.len());
    assert(listed.contains(listed[0]));
    plan::widening_makes_executable(ps, m.selection, listed[0]);
}

} // verus!
