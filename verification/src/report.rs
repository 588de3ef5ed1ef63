//! Non-interactive output: the headline numbers and the plain-text tables.
//!
//! These modes exist so the analysis is scriptable without driving a terminal.
use vstd::prelude::*;

use crate::filter;
use crate::janitor;
use crate::janitor::{known_total, Reclaim, Target};
use crate::model;
use crate::model::{AtimeSupport, Entry, InstallReason, Inventory, UsageEvidence};
use crate::number;
use crate::number::{count, padded_end, padded_start};
use crate::plan;
use crate::scan;
use crate::split;
use crate::split::unlined;
use crate::tally::Tally;
use crate::text;
use crate::text::{add_text, concat2, concat3, copy_texts};

verus! {

/// Headline numbers for the JSON document.
#[derive(Clone, Copy, Debug, PartialEq, Eq, Structural)]
pub struct Summary {
    /// Number of installed packages.
    pub packages: usize,
    /// Their combined installed size in bytes.
    pub installed_bytes: u64,
    /// Orphaned dependencies.
    pub orphans: usize,
    /// Bytes held by orphaned dependencies.
    pub orphan_bytes: u64,
    /// Packages not in any sync repository.
    pub foreign: usize,
    /// Packages with no read since installation.
    pub never_used: usize,
    /// Bytes held by those packages.
    pub never_used_bytes: u64,
    /// Bytes reclaimable from non-package targets.
    pub target_bytes: u64,
}

/// The complete JSON document.
#[derive(Debug)]
pub struct Document<'a> {
    /// Headline numbers.
    pub summary: Summary,
    /// The full scan.
    pub inventory: &'a Inventory,
}

/// Packages installed as a dependency that nothing requires.
pub open spec fn orphans() -> spec_fn(model::EntryView) -> bool {
    |entry: model::EntryView|
        entry.package.reason == InstallReason::Dependency && entry.facts.required_by.len() == 0
}

/// Packages that are in no sync repository.
pub open spec fn foreign() -> spec_fn(model::EntryView) -> bool {
    |entry: model::EntryView| entry.facts.origin is Foreign
}

/// Packages that were never used.
pub open spec fn never_used() -> spec_fn(model::EntryView) -> bool {
    |entry: model::EntryView| entry.facts.usage is NeverSinceInstall
}

/// Packages that were used.
pub open spec fn used() -> spec_fn(model::EntryView) -> bool {
    |entry: model::EntryView| entry.facts.usage.is_used()
}

/// The headline numbers of an inventory.
pub open spec fn summary_of(inventory: model::InventoryView) -> Summary {
    let entries = inventory.entries;
    Summary {
        packages: entries.len() as usize,
        installed_bytes: number::saturated(model::size_sum(entries)),
        orphans: entries.filter(orphans()).len() as usize,
        orphan_bytes: number::saturated(model::size_sum(entries.filter(orphans()))),
        foreign: entries.filter(foreign()).len() as usize,
        never_used: entries.filter(never_used()).len() as usize,
        never_used_bytes: number::saturated(model::size_sum(entries.filter(never_used()))),
        target_bytes: number::saturated(janitor::known_sum(inventory.targets)),
    }
}

/// Compute the headline numbers.
pub fn summarise(inventory: &Inventory) -> (r: Summary)
    ensures
        r == summary_of(inventory@),
{
    let ghost all = inventory@.entries;
    let mut orphaned = Tally::new();
    let mut strange = Tally::new();
    let mut unused = Tally::new();
    let mut i: usize = 0;
    proof {
        assert(all.take(0) =~= Seq::empty());
        assert(orphaned.is_of(Seq::empty(), orphans()));
        assert(strange.is_of(Seq::empty(), foreign()));
        assert(unused.is_of(Seq::empty(), never_used()));
    }
    while i < inventory.entries.len()
        invariant
            i <= inventory.entries.len(),
            all == inventory@.entries,
            orphaned.is_of(all.take(i as int), orphans()),
            strange.is_of(all.take(i as int), foreign()),
            unused.is_of(all.take(i as int), never_used()),
        decreases inventory.entries.len() - i,
    {
        let ghost seen = all.take(i as int);
        assert(all.take(i + 1) =~= seen.push(all[i as int]));
        let entry = &inventory.entries[i];
        orphaned.add(
            entry,
            entry.package.reason == InstallReason::Dependency && entry.facts.is_orphan(),
            Ghost(seen),
            Ghost(orphans()),
        );
        strange.add(entry, entry.facts.origin.is_foreign(), Ghost(seen), Ghost(foreign()));
        unused.add(entry, entry.facts.usage.is_unused(), Ghost(seen), Ghost(never_used()));
        i += 1;
    }
    assert(all.take(all.len() as int) =~= all);
    Summary {
        packages: inventory.entries.len(),
        installed_bytes: inventory.total_size(),
        orphans: orphaned.items,
        orphan_bytes: orphaned.bytes,
        foreign: strange.items,
        never_used: unused.items,
        never_used_bytes: unused.bytes,
        target_bytes: known_total(&inventory.targets),
    }
}

// ---------------------------------------------------------------------------
// The package table
// ---------------------------------------------------------------------------

/// The last-used cell for a verdict.
pub open spec fn usage_text(usage: model::UsageView, now: i64) -> Seq<char> {
    match usage {
        model::UsageView::Used { at, .. } => crate::format::age_text(now, Some(at)),
        model::UsageView::UsedFromHome { at, .. } => "~"@ + crate::format::age_text(now, Some(at)),
        model::UsageView::NeverSinceInstall { .. } => "never"@,
        model::UsageView::NoWitness => "n/a"@,
        model::UsageView::AtimeDisabled => "off"@,
        model::UsageView::NotProbed => "-"@,
    }
}

/// The last-used cell for one entry.
pub fn usage_cell(usage: &UsageEvidence, now: i64) -> (r: String)
    ensures
        r@ == usage_text(usage@, now),
{
    match usage {
        UsageEvidence::Used { at, witness: _ } => crate::format::age(now, Some(*at)),
        UsageEvidence::UsedFromHome { at, witness: _ } => concat2(
            "~",
            crate::format::age(now, Some(*at)).as_str(),
        ),
        UsageEvidence::NeverSinceInstall { at: _ } => "never".to_owned(),
        UsageEvidence::NoWitness => "n/a".to_owned(),
        UsageEvidence::AtimeDisabled => "off".to_owned(),
        UsageEvidence::NotProbed => "-".to_owned(),
    }
}

/// One line of the package table: the name on the left, four columns of
/// figures on the right of theirs, and two labels.
pub open spec fn table_line(
    name: Seq<char>,
    size: Seq<char>,
    frees: Seq<char>,
    last_used: Seq<char>,
    installed: Seq<char>,
    reason: Seq<char>,
    origin: Seq<char>,
) -> Seq<char> {
    number::pad_end(name, 32, ' ') + " "@ + number::pad_start(size, 10, ' ') + " "@
        + number::pad_start(frees, 10, ' ') + " "@ + number::pad_start(last_used, 10, ' ') + " "@
        + number::pad_start(installed, 10, ' ') + " "@ + number::pad_end(reason, 9, ' ') + " "@
        + origin
}

/// One line of the package table.
fn line_of(
    name: &str,
    size: &str,
    frees: &str,
    last_used: &str,
    installed: &str,
    reason: &str,
    origin: &str,
) -> (r: String)
    ensures
        r@ == table_line(name@, size@, frees@, last_used@, installed@, reason@, origin@),
{
    let mut out = padded_end(name, 32, ' ');
    out.append(" ");
    out.append(padded_start(size, 10, ' ').as_str());
    out.append(" ");
    out.append(padded_start(frees, 10, ' ').as_str());
    out.append(" ");
    out.append(padded_start(last_used, 10, ' ').as_str());
    out.append(" ");
    out.append(padded_start(installed, 10, ' ').as_str());
    out.append(" ");
    out.append(padded_end(reason, 9, ' ').as_str());
    out.append(" ");
    out.append(origin);
    out
}

/// The label of an install reason.
pub open spec fn reason_text(reason: InstallReason) -> Seq<char> {
    match reason {
        InstallReason::Explicit => "explicit"@,
        InstallReason::Dependency => "dep"@,
    }
}

/// The line of an entry.
pub open spec fn entry_line(entry: model::EntryView, now: i64) -> Seq<char> {
    table_line(
        crate::format::truncated(entry.package.name, 32),
        crate::format::bytes_text(entry.package.size),
        crate::format::bytes_text(entry.facts.reclaimable),
        usage_text(entry.facts.usage, now),
        crate::format::age_text(now, entry.package.install_date),
        reason_text(entry.package.reason),
        entry.facts.origin.label(),
    )
}

/// The heading of the package table.
pub open spec fn heading() -> Seq<char> {
    table_line(
        "PACKAGE"@,
        "SIZE"@,
        "FREES"@,
        "LAST USED"@,
        "INSTALLED"@,
        "REASON"@,
        "ORIGIN"@,
    )
}

/// The lines of the entries at the given positions.
pub open spec fn entry_lines(
    entries: Seq<model::EntryView>,
    positions: Seq<usize>,
    now: i64,
) -> Seq<Seq<char>> {
    Seq::new(positions.len(), |i: int| entry_line(entries[positions[i] as int], now))
}

/// The lines of the package table: the heading, at most `limit` entries in the
/// order of the view, how many that is of how many, and what keeps the
/// last-used column from meaning anything, if something does.
pub open spec fn list_lines(
    inventory: model::InventoryView,
    view: filter::ViewModel,
    limit: usize,
) -> Seq<Seq<char>> {
    let order = filter::ordering(inventory.entries, view, inventory.scanned_at);
    let shown = scan::first_of(order, limit as nat);
    seq![heading()] + entry_lines(inventory.entries, shown, inventory.scanned_at) + seq![
        Seq::empty(),
        number::decimal(shown.len()) + " of "@ + number::decimal(order.len())
            + " packages shown; "@ + crate::format::bytes_text(
            number::saturated(model::size_sum(inventory.entries)),
        ) + " installed in total"@,
    ] + (if inventory.atime_support == AtimeSupport::Disabled {
        seq!["note: "@ + inventory.atime_support.caveat_text()]
    } else {
        Seq::empty()
    })
}

/// Render the package table as plain text.
pub fn list(inventory: &Inventory, view: &filter::View, limit: usize) -> (r: String)
    ensures
        r@ == split::unlines(list_lines(inventory@, view@, limit)),
{
    let now: i64 = inventory.scanned_at;
    let order = filter::order(inventory.entries.as_slice(), view, now);
    let ghost all = inventory@.entries;
    let ghost shown = scan::first_of(order@, limit as nat);
    let ghost rows = entry_lines(all, shown, now);
    let mut lines: Vec<String> = Vec::new();
    add_text(
        &mut lines,
        line_of("PACKAGE", "SIZE", "FREES", "LAST USED", "INSTALLED", "REASON", "ORIGIN"),
    );
    let mut i: usize = 0;
    assert(text::texts(lines@) =~= seq![heading()] + rows.take(0));
    while i < order.len() && i < limit
        invariant
            i <= order.len(),
            i <= limit,
            now == inventory.scanned_at,
            all == inventory@.entries,
            filter::is_order(all, view@, now, order@),
            shown == scan::first_of(order@, limit as nat),
            rows == entry_lines(all, shown, now),
            text::texts(lines@) == seq![heading()] + rows.take(i as int),
        decreases order.len() - i,
    {
        let position: usize = order[i];
        assert(order@.contains(position));
        assert(shown[i as int] == position);
        let entry = &inventory.entries[position];
        add_text(
            &mut lines,
            line_of(
                crate::format::truncate(entry.package.name.as_str(), 32).as_str(),
                crate::format::bytes(entry.package.size).as_str(),
                crate::format::bytes(entry.facts.reclaimable).as_str(),
                usage_cell(&entry.facts.usage, now).as_str(),
                crate::format::age(now, entry.package.install_date).as_str(),
                entry.package.reason.label(),
                entry.facts.origin.label(),
            ),
        );
        assert(seq![heading()] + rows.take(i + 1) =~= (seq![heading()] + rows.take(i as int)).push(
            rows[i as int],
        ));
        i += 1;
    }
    assert(rows.take(i as int) =~= rows);
    add_text(&mut lines, String::new());
    let mut footer = concat3(count(i).as_str(), " of ", count(order.len()).as_str());
    footer.append(" packages shown; ");
    footer.append(crate::format::bytes(inventory.total_size()).as_str());
    footer.append(" installed in total");
    add_text(&mut lines, footer);
    if !inventory.atime_support.is_meaningful() {
        add_text(&mut lines, concat2("note: ", inventory.atime_support.caveat()));
    }
    assert(text::texts(lines@) =~= list_lines(inventory@, view@, limit));
    unlined(&lines)
}

// ---------------------------------------------------------------------------
// The cleanup targets
// ---------------------------------------------------------------------------

/// What to do about a target, in a line.
pub open spec fn action_text(reclaim: janitor::ReclaimView) -> Seq<char> {
    match reclaim {
        janitor::ReclaimView::Run { command } => "run: "@ + command.shell(),
        janitor::ReclaimView::Paths { paths, needs_root } => "run: "@ + crate::format::truncated(
            (plan::StepView::Delete { paths, needs_root }).shell(),
            100,
        ),
        janitor::ReclaimView::Handoff { hint } => "see: "@ + hint,
        janitor::ReclaimView::Advice { text } => "hint: "@ + text,
    }
}

/// The lines of a target: its size, care and title, where it is, and what to
/// do about it.
pub open spec fn target_lines(target: janitor::TargetView) -> Seq<Seq<char>> {
    seq![
        number::pad_start(
            match target.bytes {
                Some(bytes) => crate::format::bytes_text(bytes),
                None => "unknown"@,
            },
            10,
            ' ',
        ) + "  "@ + number::pad_end(target.safety.label_text(), 8, ' ') + " "@ + target.title,
        "            "@ + target.location,
        "            "@ + action_text(target.reclaim),
        Seq::empty(),
    ]
}

/// The lines of all targets.
pub open spec fn targets_lines(targets: Seq<janitor::TargetView>) -> Seq<Seq<char>>
    decreases targets.len(),
{
    if targets.len() == 0 {
        Seq::empty()
    } else {
        targets_lines(targets.drop_last()) + target_lines(targets.last())
    }
}

/// Texts with another in front of each.
pub open spec fn prefixed(prefix: Seq<char>, list: Seq<Seq<char>>) -> Seq<Seq<char>> {
    Seq::new(list.len(), |i: int| prefix + list[i])
}

/// The lines of the cleanup report: the targets, their total, and the
/// warnings.
pub open spec fn clean_lines(inventory: model::InventoryView) -> Seq<Seq<char>> {
    targets_lines(inventory.targets) + seq![
        crate::format::bytes_text(number::saturated(janitor::known_sum(inventory.targets)))
            + " reclaimable across "@ + number::decimal(inventory.targets.len()) + " targets"@,
    ] + prefixed("warning: "@, inventory.warnings)
}

/// What to do about a target, in a line.
fn action(reclaim: &Reclaim) -> (r: String)
    ensures
        r@ == action_text(reclaim@),
{
    match reclaim {
        Reclaim::Run { command } => concat2("run: ", command.to_shell().as_str()),
        Reclaim::Paths { paths, needs_root } => {
            let step = plan::Step::Delete { paths: copy_texts(paths), needs_root: *needs_root };
            let rendered = step.to_shell();
            concat2("run: ", crate::format::truncate(rendered.as_str(), 100).as_str())
        },
        Reclaim::Handoff { hint } => concat2("see: ", hint.as_str()),
        Reclaim::Advice { text } => concat2("hint: ", text.as_str()),
    }
}

/// Adds the lines of a target.
fn add_target_lines(lines: &mut Vec<String>, target: &Target)
    ensures
        text::texts(final(lines)@) == text::texts(old(lines)@) + target_lines(target@),
{
    let size = match target.bytes {
        Some(bytes) => crate::format::bytes(bytes),
        None => "unknown".to_owned(),
    };
    let mut head = concat2(padded_start(size.as_str(), 10, ' ').as_str(), "  ");
    head.append(padded_end(target.safety.label(), 8, ' ').as_str());
    head.append(" ");
    head.append(target.title.as_str());
    add_text(lines, head);
    add_text(lines, concat2("            ", target.location.as_str()));
    add_text(lines, concat2("            ", action(&target.reclaim).as_str()));
    add_text(lines, String::new());
    assert(text::texts(lines@) =~= text::texts(old(lines)@) + target_lines(target@));
}

/// Adds texts with another in front of each.
fn add_prefixed(lines: &mut Vec<String>, prefix: &str, list: &Vec<String>)
    ensures
        text::texts(final(lines)@) == text::texts(old(lines)@) + prefixed(
            prefix@,
            text::texts(list@),
        ),
{
    let ghost before = text::texts(lines@);
    let ghost added = prefixed(prefix@, text::texts(list@));
    let mut i: usize = 0;
    assert(before + added.take(0) =~= before);
    while i < list.len()
        invariant
            i <= list.len(),
            added == prefixed(prefix@, text::texts(list@)),
            text::texts(lines@) == before + added.take(i as int),
        decreases list.len() - i,
    {
        add_text(lines, concat2(prefix, list[i].as_str()));
        assert(before + added.take(i + 1) =~= (before + added.take(i as int)).push(
            added[i as int],
        ));
        i += 1;
    }
    assert(added.take(added.len() as int) =~= added);
}

/// Render the cleanup targets as plain text.
pub fn clean(inventory: &Inventory) -> (r: String)
    ensures
        r@ == split::unlines(clean_lines(inventory@)),
{
    let ghost all = inventory@.targets;
    let mut lines: Vec<String> = Vec::new();
    let mut i: usize = 0;
    proof {
        assert(all.take(0) =~= Seq::empty());
        assert(text::texts(lines@) =~= Seq::empty());
    }
    while i < inventory.targets.len()
        invariant
            i <= inventory.targets.len(),
            all == inventory@.targets,
            text::texts(lines@) == targets_lines(all.take(i as int)),
        decreases inventory.targets.len() - i,
    {
        assert(all.take(i + 1).drop_last() =~= all.take(i as int));
        add_target_lines(&mut lines, &inventory.targets[i]);
        i += 1;
    }
    assert(all.take(all.len() as int) =~= all);
    let mut total = concat3(
        crate::format::bytes(known_total(&inventory.targets)).as_str(),
        " reclaimable across ",
        count(inventory.targets.len()).as_str(),
    );
    total.append(" targets");
    add_text(&mut lines, total);
    add_prefixed(&mut lines, "warning: ", &inventory.warnings);
    assert(text::texts(lines@) =~= clean_lines(inventory@));
    unlined(&lines)
}

// ---------------------------------------------------------------------------
// The last-use diagnosis
// ---------------------------------------------------------------------------

/// The name of a mode.
pub open spec fn support_name(support: AtimeSupport) -> Seq<char> {
    match support {
        AtimeSupport::Relatime => "Relatime"@,
        AtimeSupport::Strict => "Strict"@,
        AtimeSupport::Disabled => "Disabled"@,
        AtimeSupport::Unknown => "Unknown"@,
    }
}

/// The kinds of verdict, in the alphabetical order of their labels.
pub open spec fn kind_of(usage: model::UsageView) -> int {
    match usage {
        model::UsageView::Used { .. } => 0,
        model::UsageView::UsedFromHome { .. } => 1,
        model::UsageView::AtimeDisabled => 2,
        model::UsageView::NotProbed => 3,
        model::UsageView::NeverSinceInstall { .. } => 4,
        model::UsageView::NoWitness => 5,
    }
}

/// What is said of the verdicts of a kind.
pub open spec fn kind_label(kind: int) -> Seq<char> {
    if kind == 0 {
        "dated from a file's access time"@
    } else if kind == 1 {
        "dated from home-directory state"@
    } else if kind == 2 {
        "no evidence available (access times frozen)"@
    } else if kind == 3 {
        "not probed (raise --top)"@
    } else if kind == 4 {
        "not read since it was installed"@
    } else {
        "ships nothing worth checking"@
    }
}

/// Entries with a verdict of a kind.
pub open spec fn judged(kind: int) -> spec_fn(model::EntryView) -> bool {
    |entry: model::EntryView| kind_of(entry.facts.usage) == kind
}

/// The line for the verdicts of a kind, where there are any.
pub open spec fn kind_lines(entries: Seq<model::EntryView>, kind: int) -> Seq<Seq<char>> {
    let found = entries.filter(judged(kind));
    if found.len() == 0 {
        Seq::empty()
    } else {
        seq![
            "  "@ + number::pad_start(number::decimal(found.len()), 6, ' ') + "  "@
                + number::pad_start(
                crate::format::bytes_text(number::saturated(model::size_sum(found))),
                10,
                ' ',
            ) + "  "@ + kind_label(kind),
        ]
    }
}

/// The lines for the first `k` kinds.
pub open spec fn kinds_lines(entries: Seq<model::EntryView>, k: nat) -> Seq<Seq<char>>
    decreases k,
{
    if k == 0 {
        Seq::empty()
    } else {
        kinds_lines(entries, (k - 1) as nat) + kind_lines(entries, k - 1)
    }
}

/// Where a date came from, and what shows it.
pub open spec fn source_of(usage: model::UsageView) -> (Seq<char>, Seq<char>) {
    match usage {
        model::UsageView::Used { witness, .. } => ("access time"@, "/"@ + witness),
        model::UsageView::UsedFromHome { witness, .. } => ("home state"@, witness),
        _ => (Seq::empty(), Seq::empty()),
    }
}

/// An example of what was found.
pub open spec fn example_line(entry: model::EntryView, now: i64) -> Seq<char> {
    "  "@ + number::pad_end(crate::format::truncated(entry.package.name, 24), 24, ' ') + " "@
        + number::pad_start(
        crate::format::age_text(now, entry.facts.usage.timestamp()),
        8,
        ' ',
    ) + "  "@ + number::pad_end(source_of(entry.facts.usage).0, 12, ' ') + " "@ + source_of(
        entry.facts.usage,
    ).1
}

/// Examples of what was found, at most five, where there are any.
pub open spec fn example_lines(entries: Seq<model::EntryView>, now: i64) -> Seq<Seq<char>> {
    let dated = entries.filter(used());
    let shown = scan::first_of(dated, 5);
    if dated.len() == 0 {
        Seq::empty()
    } else {
        seq![Seq::empty(), "  EXAMPLES OF WHAT IT FOUND"@] + Seq::new(
            shown.len(),
            |i: int| example_line(shown[i], now),
        )
    }
}

/// Why there is little to show where access times are frozen.
pub open spec fn frozen_explanation() -> Seq<char> {
    "\n  WHY THE COLUMN IS MOSTLY EMPTY\n               The filesystem holding /usr is mounted noatime, which stops the kernel recording\n               when a file was read. Package files therefore carry the timestamp of the last\n               upgrade and nothing else, so pacpurge will not pretend that is a last-use date.\n\n               Packages that write state under your home directory are still dated, because\n               modification times are unaffected. To date the rest, drop `noatime` from the root\n               filesystem's options in /etc/fstab (relatime is the default and costs one write\n               per file per day), then remount:\n\n                   sudo mount -o remount,relatime /\n"@
}

/// Each warning, with a blank line in front of it.
pub open spec fn spaced_warnings(warnings: Seq<Seq<char>>) -> Seq<Seq<char>>
    decreases warnings.len(),
{
    if warnings.len() == 0 {
        Seq::empty()
    } else {
        spaced_warnings(warnings.drop_last()) + seq![
            Seq::empty(),
            "  warning: "@ + warnings.last(),
        ]
    }
}

/// The lines of the diagnosis before the explanation.
pub open spec fn diagnosis_lines(inventory: model::InventoryView) -> Seq<Seq<char>> {
    seq![
        "LAST-USE DIAGNOSIS"@,
        Seq::empty(),
        "  access times     "@ + support_name(inventory.atime_support),
        "                   "@ + inventory.atime_support.caveat_text(),
        "  packages         "@ + number::decimal(inventory.entries.len()),
        "  probed           "@ + number::decimal(inventory.probed as nat),
        Seq::empty(),
        "  WHERE EACH VERDICT CAME FROM"@,
    ] + kinds_lines(inventory.entries, 6) + example_lines(
        inventory.entries,
        inventory.scanned_at,
    )
}

/// The diagnosis.
pub open spec fn diagnosis_text(inventory: model::InventoryView) -> Seq<char> {
    split::unlines(diagnosis_lines(inventory)) + (if inventory.atime_support
        == AtimeSupport::Disabled {
        frozen_explanation()
    } else {
        Seq::empty()
    }) + split::unlines(spaced_warnings(inventory.warnings))
}

/// The name of a mode.
fn mode_name(support: AtimeSupport) -> (r: &'static str)
    ensures
        r@ == support_name(support),
{
    match support {
        AtimeSupport::Relatime => "Relatime",
        AtimeSupport::Strict => "Strict",
        AtimeSupport::Disabled => "Disabled",
        AtimeSupport::Unknown => "Unknown",
    }
}

/// What is said of the verdicts of a kind.
fn label_of(kind: usize) -> (r: &'static str)
    ensures
        r@ == kind_label(kind as int),
{
    if kind == 0 {
        "dated from a file's access time"
    } else if kind == 1 {
        "dated from home-directory state"
    } else if kind == 2 {
        "no evidence available (access times frozen)"
    } else if kind == 3 {
        "not probed (raise --top)"
    } else if kind == 4 {
        "not read since it was installed"
    } else {
        "ships nothing worth checking"
    }
}

/// The kind of a verdict.
fn kind_number(usage: &UsageEvidence) -> (r: usize)
    ensures
        r == kind_of(usage@),
{
    match usage {
        UsageEvidence::Used { at: _, witness: _ } => 0,
        UsageEvidence::UsedFromHome { at: _, witness: _ } => 1,
        UsageEvidence::AtimeDisabled => 2,
        UsageEvidence::NotProbed => 3,
        UsageEvidence::NeverSinceInstall { at: _ } => 4,
        UsageEvidence::NoWitness => 5,
    }
}

/// Adds the line for the verdicts of a kind, where there are any.
fn add_kind_lines(lines: &mut Vec<String>, entries: &Vec<Entry>, kind: usize)
    ensures
        text::texts(final(lines)@) == text::texts(old(lines)@) + kind_lines(
            model::entry_views(entries@),
            kind as int,
        ),
{
    let ghost all = model::entry_views(entries@);
    let ghost which = judged(kind as int);
    let mut tally = Tally::new();
    let mut i: usize = 0;
    proof {
        assert(all.take(0) =~= Seq::empty());
        assert(tally.is_of(Seq::empty(), which));
    }
    while i < entries.len()
        invariant
            i <= entries.len(),
            all == model::entry_views(entries@),
            which == judged(kind as int),
            tally.is_of(all.take(i as int), which),
        decreases entries.len() - i,
    {
        let ghost seen = all.take(i as int);
        assert(all.take(i + 1) =~= seen.push(all[i as int]));
        let entry = &entries[i];
        tally.add(entry, kind_number(&entry.facts.usage) == kind, Ghost(seen), Ghost(which));
        i += 1;
    }
    assert(all.take(all.len() as int) =~= all);
    if tally.items > 0 {
        let mut line = concat3("  ", padded_start(count(tally.items).as_str(), 6, ' ').as_str(), "  ");
        line.append(padded_start(crate::format::bytes(tally.bytes).as_str(), 10, ' ').as_str());
        line.append("  ");
        line.append(label_of(kind));
        add_text(lines, line);
    }
    assert(text::texts(lines@) =~= text::texts(old(lines)@) + kind_lines(all, kind as int));
}

/// An example of what was found.
fn example(entry: &Entry, now: i64) -> (r: String)
    ensures
        r@ == example_line(entry@, now),
{
    let (source, witness) = match &entry.facts.usage {
        UsageEvidence::Used { at: _, witness } => ("access time", concat2("/", witness.as_str())),
        UsageEvidence::UsedFromHome { at: _, witness } => ("home state", witness.clone()),
        UsageEvidence::NeverSinceInstall { at: _ } => ("", String::new()),
        UsageEvidence::NoWitness => ("", String::new()),
        UsageEvidence::AtimeDisabled => ("", String::new()),
        UsageEvidence::NotProbed => ("", String::new()),
    };
    proof {
        reveal_strlit("");
        assert(""@ =~= Seq::empty());
    }
    let mut line = concat3(
        "  ",
        padded_end(
            crate::format::truncate(entry.package.name.as_str(), 24).as_str(),
            24,
            ' ',
        ).as_str(),
        " ",
    );
    line.append(
        padded_start(
            crate::format::age(now, entry.facts.usage.timestamp()).as_str(),
            8,
            ' ',
        ).as_str(),
    );
    line.append("  ");
    line.append(padded_end(source, 12, ' ').as_str());
    line.append(" ");
    line.append(witness.as_str());
    line
}

/// The entries at the given positions.
pub open spec fn entries_at(entries: Seq<model::EntryView>, positions: Seq<usize>) -> Seq<
    model::EntryView,
> {
    Seq::new(positions.len(), |i: int| entries[positions[i] as int])
}

/// Adds examples of what was found.
fn add_examples(lines: &mut Vec<String>, entries: &Vec<Entry>, now: i64)
    ensures
        text::texts(final(lines)@) == text::texts(old(lines)@) + example_lines(
            model::entry_views(entries@),
            now,
        ),
{
    let ghost all = model::entry_views(entries@);
    let ghost which = used();
    let ghost before = text::texts(lines@);
    let mut positions: Vec<usize> = Vec::new();
    let mut i: usize = 0;
    proof {
        reveal(Seq::filter);
        assert(entries_at(all, positions@) =~= all.take(0).filter(which));
    }
    while i < entries.len()
        invariant
            i <= entries.len(),
            all == model::entry_views(entries@),
            which == used(),
            forall|k: int| 0 <= k < positions.len() ==> #[trigger] positions@[k] < entries.len(),
            entries_at(all, positions@) == all.take(i as int).filter(which),
        decreases entries.len() - i,
    {
        let ghost at = positions@;
        proof {
            assert(all.take(i + 1) =~= all.take(i as int).push(all[i as int]));
            split::lemma_filter_push(all.take(i as int), all[i as int], which);
        }
        if entries[i].facts.usage.is_used() {
            positions.push(i);
            assert(entries_at(all, positions@) =~= entries_at(all, at).push(all[i as int]));
        }
        i += 1;
    }
    assert(all.take(all.len() as int) =~= all);
    let ghost dated = all.filter(which);
    let ghost shown = scan::first_of(dated, 5);
    let ghost told = Seq::new(shown.len(), |i: int| example_line(shown[i], now));
    assert(entries_at(all, positions@).len() == positions.len());
    if positions.len() == 0 {
        assert(text::texts(lines@) =~= before + example_lines(all, now));
        return ;
    }
    add_text(lines, String::new());
    add_text(lines, "  EXAMPLES OF WHAT IT FOUND".to_owned());
    let ghost head = text::texts(lines@);
    let mut k: usize = 0;
    assert(head + told.take(0) =~= head);
    while k < positions.len() && k < 5
        invariant
            k <= positions.len(),
            k <= 5,
            all == model::entry_views(entries@),
            dated == entries_at(all, positions@),
            forall|k: int| 0 <= k < positions.len() ==> #[trigger] positions@[k] < entries.len(),
            shown == scan::first_of(dated, 5),
            told == Seq::new(shown.len(), |i: int| example_line(shown[i], now)),
            text::texts(lines@) == head + told.take(k as int),
        decreases positions.len() - k,
    {
        assert(shown[k as int] == all[positions@[k as int] as int]);
        add_text(lines, example(&entries[positions[k]], now));
        assert(head + told.take(k + 1) =~= (head + told.take(k as int)).push(told[k as int]));
        k += 1;
    }
    assert(told.take(k as int) =~= told);
    assert(text::texts(lines@) =~= before + example_lines(all, now));
}

/// Explain what the last-use probe was able to see.
///
/// Exists because "the column is empty" has several possible causes that look
/// identical from the outside: a `noatime` mount, a package that ships nothing
/// worth stat-ing, or a probe that was bounded away. Guessing between them
/// from a screenshot is no way to debug a tool.
pub fn diagnose(inventory: &Inventory) -> (r: String)
    ensures
        r@ == diagnosis_text(inventory@),
{
    let ghost all = inventory@.entries;
    let mut lines: Vec<String> = Vec::new();
    add_text(&mut lines, "LAST-USE DIAGNOSIS".to_owned());
    add_text(&mut lines, String::new());
    add_text(&mut lines, concat2("  access times     ", mode_name(inventory.atime_support)));
    add_text(&mut lines, concat2("                   ", inventory.atime_support.caveat()));
    add_text(
        &mut lines,
        concat2("  packages         ", count(inventory.entries.len()).as_str()),
    );
    add_text(&mut lines, concat2("  probed           ", count(inventory.probed).as_str()));
    add_text(&mut lines, String::new());
    add_text(&mut lines, "  WHERE EACH VERDICT CAME FROM".to_owned());
    let ghost head = text::texts(lines@);
    let mut kind: usize = 0;
    assert(head + kinds_lines(all, 0) =~= head);
    while kind < 6
        invariant
            kind <= 6,
            all == inventory@.entries,
            text::texts(lines@) == head + kinds_lines(all, kind as nat),
        decreases 6 - kind,
    {
        add_kind_lines(&mut lines, &inventory.entries, kind);
        assert(text::texts(lines@) =~= head + kinds_lines(all, (kind + 1) as nat));
        kind += 1;
    }
    add_examples(&mut lines, &inventory.entries, inventory.scanned_at);
    assert(text::texts(lines@) =~= diagnosis_lines(inventory@));
    let mut out = unlined(&lines);
    if !inventory.atime_support.is_meaningful() {
        out.append(
            "\n  WHY THE COLUMN IS MOSTLY EMPTY\n               The filesystem holding /usr is mounted noatime, which stops the kernel recording\n               when a file was read. Package files therefore carry the timestamp of the last\n               upgrade and nothing else, so pacpurge will not pretend that is a last-use date.\n\n               Packages that write state under your home directory are still dated, because\n               modification times are unaffected. To date the rest, drop `noatime` from the root\n               filesystem's options in /etc/fstab (relatime is the default and costs one write\n               per file per day), then remount:\n\n                   sudo mount -o remount,relatime /\n",
        );
    }
    let ghost warned = inventory@.warnings;
    let mut warnings: Vec<String> = Vec::new();
    let mut i: usize = 0;
    proof {
        assert(warned.take(0) =~= Seq::empty());
        assert(text::texts(warnings@) =~= Seq::empty());
    }
    while i < inventory.warnings.len()
        invariant
            i <= inventory.warnings.len(),
            warned == inventory@.warnings,
            text::texts(warnings@) == spaced_warnings(warned.take(i as int)),
        decreases inventory.warnings.len() - i,
    {
        assert(warned.take(i + 1).drop_last() =~= warned.take(i as int));
        let ghost before = text::texts(warnings@);
        add_text(&mut warnings, String::new());
        add_text(&mut warnings, concat2("  warning: ", inventory.warnings[i].as_str()));
        assert(text::texts(warnings@) =~= spaced_warnings(warned.take(i + 1)));
        i += 1;
    }
    assert(warned.take(warned.len() as int) =~= warned);
    out.append(unlined(&warnings).as_str());
    assert(out@ =~= diagnosis_text(inventory@));
    out
}

/// Every package has a verdict of exactly one kind, so the lines of the
/// diagnosis account for all of them.
pub proof fn verdicts_account_for_every_package(entries: Seq<model::EntryView>)
    ensures
        entries.filter(judged(0)).len() + entries.filter(judged(1)).len() + entries.filter(
            judged(2),
        ).len() + entries.filter(judged(3)).len() + entries.filter(judged(4)).len()
            + entries.filter(judged(5)).len() == entries.len(),
    decreases entries.len(),
{
    reveal(Seq::filter);
    if entries.len() > 0 {
        verdicts_account_for_every_package(entries.drop_last());
    }
}

} // verus!
