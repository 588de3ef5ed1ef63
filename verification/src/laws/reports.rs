//! What the reports say.
use vstd::prelude::*;

use crate::filter;
use crate::janitor;
use crate::janitor::{ReclaimView, Safety, TargetView};
use crate::model;
use crate::model::{AtimeSupport, EntryView, InstallReason, InventoryView, OriginView, UsageView};
use crate::number;
use crate::plan::StepView;
use crate::report;
use crate::scan;
use crate::split;

verus! {

/// A figure and one more, as far as it can be held.
pub open spec fn more(bytes: u64, size: u64) -> u64 {
    if bytes + size > u64::MAX {
        u64::MAX
    } else {
        (bytes + size) as u64
    }
}

/// A summary counts package by package: every package and its size, and those
/// that nothing needs, that come from no repository, or that were never used.
pub proof fn summaries_count_package_by_package(inventory: InventoryView, entry: EntryView)
    requires
        inventory.entries.len() < usize::MAX,
    ensures
        ({
            let was = report::summary_of(inventory);
            let is = report::summary_of(
                InventoryView { entries: inventory.entries.push(entry), ..inventory },
            );
            let size = entry.package.size;
            let orphan = entry.package.reason == InstallReason::Dependency
                && entry.facts.required_by.len() == 0;
            let unused = entry.facts.usage is NeverSinceInstall;
            &&& is.packages == was.packages + 1
            &&& is.installed_bytes == more(was.installed_bytes, size)
            &&& is.orphans == was.orphans + (if orphan {
                1int
            } else {
                0int
            })
            &&& is.orphan_bytes == (if orphan {
                more(was.orphan_bytes, size)
            } else {
                was.orphan_bytes
            })
            &&& is.foreign == was.foreign + (if entry.facts.origin == OriginView::Foreign {
                1int
            } else {
                0int
            })
            &&& is.never_used == was.never_used + (if unused {
                1int
            } else {
                0int
            })
            &&& is.never_used_bytes == (if unused {
                more(was.never_used_bytes, size)
            } else {
                was.never_used_bytes
            })
            &&& is.target_bytes == was.target_bytes
        }),
{
    let entries = inventory.entries;
    assert(entries.push(entry).drop_last() =~= entries);
    lemma_counted(entries, entry, report::orphans());
    lemma_counted(entries, entry, report::foreign());
    lemma_counted(entries, entry, report::never_used());
}

proof fn lemma_counted(
    entries: Seq<EntryView>,
    entry: EntryView,
    which: spec_fn(EntryView) -> bool,
)
    ensures
        entries.filter(which).len() <= entries.len(),
        entries.push(entry).filter(which).len() == entries.filter(which).len() + (if which(entry) {
            1int
        } else {
            0int
        }),
        model::size_sum(entries.push(entry).filter(which)) == model::size_sum(
            entries.filter(which),
        ) + (if which(entry) {
            entry.package.size as int
        } else {
            0int
        }),
{
    split::lemma_filter_push(entries, entry, which);
    split::lemma_filter_len(entries, which);
    let found = entries.filter(which);
    assert(found.push(entry).drop_last() =~= found);
}

/// A summary of nothing counts nothing, and adds up what the targets free.
pub proof fn empty_summaries_count_nothing(inventory: InventoryView, target: TargetView)
    requires
        inventory.entries.len() == 0,
    ensures
        ({
            let summary = report::summary_of(inventory);
            &&& summary.packages == 0 && summary.installed_bytes == 0
            &&& summary.orphans == 0 && summary.orphan_bytes == 0
            &&& summary.foreign == 0
            &&& summary.never_used == 0 && summary.never_used_bytes == 0
        }),
        ({
            let was = report::summary_of(inventory);
            let is = report::summary_of(
                InventoryView { targets: inventory.targets.push(target), ..inventory },
            );
            is.target_bytes == more(
                was.target_bytes,
                match target.bytes {
                    Some(bytes) => bytes,
                    None => 0,
                },
            )
        }),
{
    reveal(Seq::filter);
    assert(inventory.targets.push(target).drop_last() =~= inventory.targets);
}

/// The last use is told apart: seen, seen in the home, never, not to be seen,
/// switched off, or not looked for.
pub proof fn last_uses_are_told_apart(now: i64, at: i64, witness: Seq<char>)
    ensures
        report::usage_text(UsageView::Used { at, witness }, now) == crate::format::age_text(
            now,
            Some(at),
        ),
        report::usage_text(UsageView::UsedFromHome { at, witness }, now) == "~"@
            + crate::format::age_text(now, Some(at)),
        report::usage_text(UsageView::NeverSinceInstall { at }, now) == "never"@,
        report::usage_text(UsageView::NoWitness, now) == "n/a"@,
        report::usage_text(UsageView::AtimeDisabled, now) == "off"@,
        report::usage_text(UsageView::NotProbed, now) == "-"@,
{
}

/// Whether a text stands in a line from a column on.
pub open spec fn begins_at(line: Seq<char>, s: Seq<char>, column: int) -> bool {
    column + s.len() <= line.len() && line.subrange(column, column + s.len()) == s
}

/// Whether a text stands in a line up to a column.
pub open spec fn stops_at(line: Seq<char>, s: Seq<char>, column: int) -> bool {
    0 <= column - s.len() && column <= line.len() && line.subrange(column - s.len(), column) == s
}

/// The columns of the table line up: the name and the reason on the left of
/// theirs, the figures on the right, and the origin at the end.
pub proof fn columns_line_up(
    name: Seq<char>,
    size: Seq<char>,
    frees: Seq<char>,
    last_used: Seq<char>,
    installed: Seq<char>,
    reason: Seq<char>,
    origin: Seq<char>,
)
    requires
        name.len() <= 32,
        size.len() <= 10,
        frees.len() <= 10,
        last_used.len() <= 10,
        installed.len() <= 10,
        reason.len() <= 9,
    ensures
        ({
            let line = report::table_line(name, size, frees, last_used, installed, reason, origin);
            &&& begins_at(line, name, 0)
            &&& stops_at(line, size, 43)
            &&& stops_at(line, frees, 54)
            &&& stops_at(line, last_used, 65)
            &&& stops_at(line, installed, 76)
            &&& begins_at(line, reason, 77)
            &&& begins_at(line, origin, 87)
            &&& line.len() == 87 + origin.len()
        }),
{
    reveal_strlit(" ");
    let line = report::table_line(name, size, frees, last_used, installed, reason, origin);
    let a = number::pad_end(name, 32, ' ');
    let b = number::pad_start(size, 10, ' ');
    let c = number::pad_start(frees, 10, ' ');
    let d = number::pad_start(last_used, 10, ' ');
    let e = number::pad_start(installed, 10, ' ');
    let f = number::pad_end(reason, 9, ' ');
    assert(line.subrange(0, name.len() as int) =~= name);
    assert(line.subrange(33, 43) =~= b);
    assert(line.subrange(43 - size.len(), 43) =~= size);
    assert(line.subrange(54 - frees.len(), 54) =~= frees);
    assert(line.subrange(65 - last_used.len(), 65) =~= last_used);
    assert(line.subrange(76 - installed.len(), 76) =~= installed);
    assert(line.subrange(77, 77 + reason.len() as int) =~= reason);
    assert(line.subrange(87, 87 + origin.len() as int) =~= origin);
}

/// A row of the table shows what is known of its package, each in its column.
pub proof fn rows_show_what_is_known(entry: EntryView, now: i64)
    ensures
        ({
            let name = crate::format::truncated(entry.package.name, 32);
            let size = crate::format::bytes_text(entry.package.size);
            let frees = crate::format::bytes_text(entry.facts.reclaimable);
            let last_used = report::usage_text(entry.facts.usage, now);
            let installed = crate::format::age_text(now, entry.package.install_date);
            let line = report::entry_line(entry, now);
            size.len() <= 10 && frees.len() <= 10 && last_used.len() <= 10 && installed.len() <= 10
                ==> {
                &&& begins_at(line, name, 0)
                &&& stops_at(line, size, 43)
                &&& stops_at(line, frees, 54)
                &&& stops_at(line, last_used, 65)
                &&& stops_at(line, installed, 76)
                &&& entry.package.reason == InstallReason::Explicit ==> begins_at(
                    line,
                    "explicit"@,
                    77,
                )
                &&& entry.package.reason == InstallReason::Dependency ==> begins_at(
                    line,
                    "dep"@,
                    77,
                )
                &&& entry.facts.origin matches OriginView::Repository(repository) ==> begins_at(
                    line,
                    repository,
                    87,
                )
                &&& entry.facts.origin is Foreign ==> begins_at(line, "aur/local"@, 87)
                &&& entry.facts.origin is Unknown ==> begins_at(line, "?"@, 87)
            }
        }),
{
    reveal_strlit("explicit");
    reveal_strlit("dep");
    let name = crate::format::truncated(entry.package.name, 32);
    let size = crate::format::bytes_text(entry.package.size);
    let frees = crate::format::bytes_text(entry.facts.reclaimable);
    let last_used = report::usage_text(entry.facts.usage, now);
    let installed = crate::format::age_text(now, entry.package.install_date);
    crate::format::truncation_respects_its_width(entry.package.name, 32);
    if size.len() <= 10 && frees.len() <= 10 && last_used.len() <= 10 && installed.len() <= 10 {
        columns_line_up(
            name,
            size,
            frees,
            last_used,
            installed,
            report::reason_text(entry.package.reason),
            entry.facts.origin.label(),
        );
    }
}

/// A list shows the first rows of the view, up to its limit, in their order
/// behind the heading, and says how many there are.
pub proof fn lists_show_the_first_rows(
    inventory: InventoryView,
    view: filter::ViewModel,
    limit: usize,
    i: int,
)
    ensures
        ({
            let order = filter::ordering(inventory.entries, view, inventory.scanned_at);
            let lines = report::list_lines(inventory, view, limit);
            let shown = if order.len() < limit {
                order.len() as int
            } else {
                limit as int
            };
            &&& 0 <= i < shown ==> lines[i + 1] == report::entry_line(
                inventory.entries[order[i] as int],
                inventory.scanned_at,
            )
            &&& lines.len() == shown + 3 + (if inventory.atime_support == AtimeSupport::Disabled {
                1int
            } else {
                0int
            })
            &&& lines[shown + 2] == number::decimal(shown as nat) + " of "@ + number::decimal(
                order.len(),
            ) + " packages shown; "@ + crate::format::bytes_text(
                number::saturated(model::size_sum(inventory.entries)),
            ) + " installed in total"@
            &&& lines[0] == report::table_line(
                "PACKAGE"@,
                "SIZE"@,
                "FREES"@,
                "LAST USED"@,
                "INSTALLED"@,
                "REASON"@,
                "ORIGIN"@,
            )
        }),
{
}

/// The size of all packages is the sum of their sizes.
pub proof fn installed_sizes_add_up(entries: Seq<EntryView>, entry: EntryView)
    ensures
        model::size_sum(Seq::empty()) == 0,
        model::size_sum(entries.push(entry)) == model::size_sum(entries) + entry.package.size,
{
    assert(entries.push(entry).drop_last() =~= entries);
}

/// Each target is told with its size, its safety, its place and what reclaims
/// it.
pub proof fn targets_are_told_with_their_action(target: TargetView)
    ensures
        ({
            let lines = report::target_lines(target);
            let size = match target.bytes {
                Some(bytes) => crate::format::bytes_text(bytes),
                None => "unknown"@,
            };
            &&& lines.len() == 4
            &&& size.len() <= 10 ==> stops_at(lines[0], size, 10)
            &&& size.len() <= 10 && target.safety == Safety::Safe ==> begins_at(
                lines[0],
                "safe"@,
                12,
            )
            &&& size.len() <= 10 && target.safety == Safety::Review ==> begins_at(
                lines[0],
                "review"@,
                12,
            )
            &&& size.len() <= 10 && target.safety == Safety::Careful ==> begins_at(
                lines[0],
                "careful"@,
                12,
            )
            &&& size.len() <= 10 ==> begins_at(lines[0], target.title, 21)
            &&& begins_at(lines[1], target.location, 12)
            &&& match target.reclaim {
                ReclaimView::Run { command } => lines[2] == "            "@ + ("run: "@
                    + command.shell()),
                ReclaimView::Paths { paths, needs_root } => lines[2] == "            "@ + ("run: "@
                    + crate::format::truncated(
                    (StepView::Delete { paths, needs_root }).shell(),
                    100,
                )),
                ReclaimView::Handoff { hint } => lines[2] == "            "@ + ("see: "@ + hint),
                ReclaimView::Advice { text } => lines[2] == "            "@ + ("hint: "@ + text),
            }
        }),
{
    reveal_strlit("safe");
    reveal_strlit("review");
    reveal_strlit("careful");
    reveal_strlit("  ");
    reveal_strlit(" ");
    reveal_strlit("            ");
    let lines = report::target_lines(target);
    let size = match target.bytes {
        Some(bytes) => crate::format::bytes_text(bytes),
        None => "unknown"@,
    };
    let label = target.safety.label_text();
    assert(lines[1].subrange(12, 12 + target.location.len() as int) =~= target.location);
    if size.len() <= 10 {
        assert(lines[0].subrange(10 - size.len(), 10) =~= size);
        assert(lines[0].subrange(12, 12 + label.len() as int) =~= label);
        assert(lines[0].subrange(21, 21 + target.title.len() as int) =~= target.title);
    }
}

/// The report on what can be reclaimed tells every target in its order, four
/// lines each, then the sum, then every warning.
pub proof fn clean_reports_tell_every_target(inventory: InventoryView, i: int, k: int)
    ensures
        ({
            let lines = report::clean_lines(inventory);
            let n = inventory.targets.len() as int;
            &&& lines.len() == 4 * n + 1 + inventory.warnings.len()
            &&& 0 <= i < n && 0 <= k < 4 ==> lines[4 * i + k] == report::target_lines(
                inventory.targets[i],
            )[k]
            &&& lines[4 * n] == crate::format::bytes_text(
                number::saturated(janitor::known_sum(inventory.targets)),
            ) + " reclaimable across "@ + number::decimal(inventory.targets.len()) + " targets"@
            &&& 0 <= i < inventory.warnings.len() ==> lines[4 * n + 1 + i] == "warning: "@
                + inventory.warnings[i]
        }),
{
    lemma_told(inventory.targets, i, k);
}

proof fn lemma_told(ts: Seq<TargetView>, i: int, k: int)
    ensures
        report::targets_lines(ts).len() == 4 * ts.len(),
        0 <= i < ts.len() && 0 <= k < 4 ==> report::targets_lines(ts)[4 * i + k]
            == report::target_lines(ts[i])[k],
    decreases ts.len(),
{
    if ts.len() > 0 {
        lemma_told(ts.drop_last(), i, k);
        assert(report::target_lines(ts.last()).len() == 4);
    }
}

/// Each verdict has its label in the diagnosis.
pub proof fn verdicts_have_their_labels(usage: UsageView)
    ensures
        report::kind_label(report::kind_of(usage)) == (match usage {
            UsageView::Used { .. } => "dated from a file's access time"@,
            UsageView::UsedFromHome { .. } => "dated from home-directory state"@,
            UsageView::AtimeDisabled => "no evidence available (access times frozen)"@,
            UsageView::NotProbed => "not probed (raise --top)"@,
            UsageView::NeverSinceInstall { .. } => "not read since it was installed"@,
            UsageView::NoWitness => "ships nothing worth checking"@,
        }),
        0 <= report::kind_of(usage) < 6,
{
}

/// The diagnosis counts each package under its verdict, with its size, and a
/// verdict that no package has gets no line.
pub proof fn diagnoses_count_by_verdict(entries: Seq<EntryView>, entry: EntryView, kind: int)
    ensures
        ({
            let was = entries.filter(report::judged(kind));
            let is = entries.push(entry).filter(report::judged(kind));
            let one = report::kind_of(entry.facts.usage) == kind;
            &&& is.len() == was.len() + (if one {
                1int
            } else {
                0int
            })
            &&& model::size_sum(is) == model::size_sum(was) + (if one {
                entry.package.size as int
            } else {
                0int
            })
            &&& report::kind_lines(entries, kind).len() == (if was.len() > 0 {
                1int
            } else {
                0int
            })
            &&& was.len() > 0 ==> report::kind_lines(entries, kind)[0] == "  "@ + number::pad_start(
                number::decimal(was.len()),
                6,
                ' ',
            ) + "  "@ + number::pad_start(
                crate::format::bytes_text(number::saturated(model::size_sum(was))),
                10,
                ' ',
            ) + "  "@ + report::kind_label(kind)
        }),
{
    lemma_counted(entries, entry, report::judged(kind));
}

/// The diagnosis gives the first packages that were dated as examples, five at
/// the most, with the file or the state that dates them.
pub proof fn examples_are_dated_packages(entries: Seq<EntryView>, now: i64, entry: EntryView)
    ensures
        report::example_lines(entries, now).len() <= 7,
        (forall|i: int|
            0 <= i < entries.len() ==> !((#[trigger] entries[i]).facts.usage is Used)
                && !(entries[i].facts.usage is UsedFromHome)) ==> report::example_lines(
            entries,
            now,
        ).len() == 0,
        entry.facts.usage matches UsageView::Used { witness, .. } ==> report::source_of(
            entry.facts.usage,
        ) == ("access time"@, "/"@ + witness),
        entry.facts.usage matches UsageView::UsedFromHome { witness, .. } ==> report::source_of(
            entry.facts.usage,
        ) == ("home state"@, witness),
{
    let dated = entries.filter(report::used());
    if dated.len() > 0 {
        assert(dated.contains(dated[0]));
        split::lemma_filter_contains(entries, report::used(), dated[0]);
        let i = choose|i: int| 0 <= i < entries.len() && entries[i] == dated[0];
        assert(report::used()(entries[i]));
    }
}

/// Every warning is told at the end of the diagnosis, in its order, with an
/// empty line before it.
pub proof fn diagnoses_tell_every_warning(warnings: Seq<Seq<char>>, warning: Seq<char>)
    ensures
        report::spaced_warnings(Seq::empty()).len() == 0,
        report::spaced_warnings(warnings.push(warning)) == report::spaced_warnings(warnings) + seq![
            Seq::empty(),
            "  warning: "@ + warning,
        ],
{
    assert(warnings.push(warning).drop_last() =~= warnings);
}

/// The diagnosis opens with what the mount says, and explains itself only where
/// access times are frozen.
pub proof fn diagnoses_open_with_the_mount(inventory: InventoryView)
    ensures
        ({
            let lines = report::diagnosis_lines(inventory);
            &&& lines[4] == "  packages         "@ + number::decimal(inventory.entries.len())
            &&& lines[5] == "  probed           "@ + number::decimal(inventory.probed as nat)
            &&& inventory.atime_support == AtimeSupport::Disabled ==> lines[2]
                == "  access times     "@ + "Disabled"@
            &&& inventory.atime_support == AtimeSupport::Relatime ==> lines[2]
                == "  access times     "@ + "Relatime"@
            &&& inventory.atime_support == AtimeSupport::Strict ==> lines[2]
                == "  access times     "@ + "Strict"@
            &&& inventory.atime_support == AtimeSupport::Unknown ==> lines[2]
                == "  access times     "@ + "Unknown"@
            &&& inventory.atime_support != AtimeSupport::Disabled ==> report::diagnosis_text(
                inventory,
            ) == split::unlines(lines) + split::unlines(
                report::spaced_warnings(inventory.warnings),
            )
        }),
{
    let lines = split::unlines(report::diagnosis_lines(inventory));
    assert(lines + Seq::<char>::empty() =~= lines);
}

} // verus!
