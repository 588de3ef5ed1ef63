//! What is on the screen.
use vstd::prelude::*;

use crate::app::{AppModel, OverlayView};
use crate::filter::{SortKey, Toggle, ViewModel};
use crate::janitor::{ReclaimView, Safety, TargetView};
use crate::model;
use crate::model::{AtimeSupport, EntryView, FactsView, InstallReason, OriginView, UsageView};
use crate::number;
use crate::plan::StepView;
use crate::split;
use crate::ui;
use crate::ui::{Area, Screen, SpanView, Style};

verus! {

/// A span as it is written.
pub open spec fn written(text: Seq<char>, style: Style) -> SpanView {
    SpanView { text, style }
}

/// A row shows whether its package is marked, and before that nothing else; a
/// protected one is dimmed, and a foreign one stands out.
pub proof fn rows_show_marks_and_names(
    entry: EntryView,
    marked: bool,
    now: i64,
    atime_known: bool,
)
    ensures
        ({
            let row = ui::row_views(entry, marked, now, atime_known);
            &&& row.len() == 8
            &&& marked ==> row[0] == written("●"@, Style::Warn)
            &&& !marked && entry.facts.protected ==> row[0] == written("·"@, Style::Muted)
            &&& !marked && !entry.facts.protected ==> row[0] == written(" "@, Style::Plain)
            &&& row[1].text == entry.package.name
            &&& entry.facts.protected ==> row[1].style == Style::Muted
            &&& !entry.facts.protected && entry.facts.origin is Foreign ==> row[1].style
                == Style::Foreign
            &&& !entry.facts.protected && !(entry.facts.origin is Foreign) ==> row[1].style
                == Style::Plain
            &&& entry.facts.origin is Foreign ==> row[6] == written("aur/local"@, Style::Foreign)
            &&& entry.facts.origin is Unknown ==> row[6] == written("?"@, Style::Muted)
            &&& entry.facts.origin matches OriginView::Repository(name) ==> row[6] == written(
                name,
                Style::Muted,
            )
        }),
{
}

/// A row shows its figures at the right of their columns, and lets what frees
/// more than its own size stand out.
pub proof fn rows_show_their_figures(
    entry: EntryView,
    marked: bool,
    now: i64,
    atime_known: bool,
)
    ensures
        ({
            let row = ui::row_views(entry, marked, now, atime_known);
            &&& row[2].text == number::pad_start(
                crate::format::bytes_text(entry.package.size),
                10,
                ' ',
            )
            &&& row[3].text == number::pad_start(
                crate::format::bytes_text(entry.facts.reclaimable),
                10,
                ' ',
            )
            &&& row[3].style == Style::Best <==> entry.facts.reclaimable > entry.package.size
            &&& row[5].text == number::pad_start(
                crate::format::age_text(now, entry.package.install_date),
                8,
                ' ',
            )
            &&& entry.facts.required_by.len() == 0 ==> row[7].text == number::pad_start(
                "orphan"@,
                9,
                ' ',
            )
            &&& entry.facts.required_by.len() > 0 ==> row[7].text == number::pad_start(
                number::decimal(entry.facts.required_by.len()),
                9,
                ' ',
            )
        }),
{
}

/// A row shows the last use as far as it is known, warns of what was not used
/// for half a year and more so of what never was, and says nothing where access
/// times say nothing.
pub proof fn rows_show_the_last_use(
    entry: EntryView,
    marked: bool,
    now: i64,
    atime_known: bool,
)
    ensures
        ({
            let cell = ui::row_views(entry, marked, now, atime_known)[4];
            &&& !atime_known ==> cell == written(number::pad_start("—"@, 10, ' '), Style::Muted)
            &&& atime_known ==> match entry.facts.usage {
                UsageView::Used { at, .. } => {
                    &&& cell.text == number::pad_start(
                        crate::format::age_text(now, Some(at)),
                        10,
                        ' ',
                    )
                    &&& at <= now && now - at >= 15_552_000 ==> cell.style == Style::Warn
                    &&& at > now || now - at < 15_552_000 ==> cell.style == Style::Muted
                },
                UsageView::UsedFromHome { at, .. } => {
                    &&& cell.text == number::pad_start(
                        "~"@ + crate::format::age_text(now, Some(at)),
                        10,
                        ' ',
                    )
                    &&& at <= now && now - at >= 15_552_000 ==> cell.style == Style::Warn
                    &&& at > now || now - at < 15_552_000 ==> cell.style == Style::Muted
                },
                UsageView::NeverSinceInstall { .. } => cell == written(
                    number::pad_start("never"@, 10, ' '),
                    Style::Peril,
                ),
                UsageView::NoWitness => cell == written(
                    number::pad_start("n/a"@, 10, ' '),
                    Style::Muted,
                ),
                UsageView::AtimeDisabled => cell == written(
                    number::pad_start("off"@, 10, ' '),
                    Style::Muted,
                ),
                UsageView::NotProbed => cell == written(
                    number::pad_start("·"@, 10, ' '),
                    Style::Muted,
                ),
            }
        }),
{
}

/// The table has a row for each position of the view, in their order.
pub proof fn the_table_follows_the_view(m: AppModel, i: int)
    requires
        forall|k: int|
            0 <= k < m.order.len() ==> (#[trigger] m.order[k]) < m.inventory.entries.len(),
    ensures
        ui::table_views(m).len() == m.order.len(),
        0 <= i < m.order.len() ==> ui::table_views(m)[i] == ui::row_views(
            m.inventory.entries[m.order[i] as int],
            m.selection.contains(m.order[i]),
            m.inventory.scanned_at,
            m.inventory.atime_support != AtimeSupport::Disabled,
        ),
    decreases m.order.len(),
{
    if m.order.len() > 0 {
        let front = AppModel { order: m.order.drop_last(), ..m };
        assert forall|k: int| 0 <= k < front.order.len() implies (#[trigger] front.order[k])
            < front.inventory.entries.len() by {
            assert(front.order[k] == m.order[k]);
        }
        the_table_follows_the_view(front, i);
        assert(m.order[m.order.len() - 1] == m.order.last());
    }
}

/// The heading of the column that the table is sorted by stands out, and no
/// other does.
pub proof fn the_sorted_column_stands_out(sort: SortKey)
    ensures
        ({
            let headings = ui::package_heading_views(sort);
            &&& headings.len() == 8
            &&& headings[1].text == "package"@
            &&& headings[2].text == "size"@ && (headings[2].style == Style::Sorted <==> sort
                == SortKey::Size)
            &&& headings[3].text == "frees"@ && (headings[3].style == Style::Sorted <==> sort
                == SortKey::Reclaimable)
            &&& headings[4].text == "last used"@ && (headings[4].style == Style::Sorted <==> sort
                == SortKey::LastUsed)
            &&& headings[5].text == "added"@ && (headings[5].style == Style::Sorted <==> sort
                == SortKey::Installed)
            &&& headings[6].text == "origin"@ && headings[6].style != Style::Sorted
            &&& headings[7].text == "needed by"@ && (headings[7].style == Style::Sorted <==> sort
                == SortKey::RequiredBy)
        }),
{
}

/// Whether the lines hold a field with a value.
pub open spec fn shows_field(lines: Seq<Seq<SpanView>>, label: Seq<char>, value: Seq<char>) -> bool {
    lines.contains(
        seq![
            written(number::pad_end(label, 18, ' '), Style::Muted),
            written(value, Style::Plain),
        ],
    )
}

/// The details of a package name it and give its sizes, its date, its reason
/// and its origin.
pub proof fn details_describe_the_package(entry: EntryView)
    ensures
        ({
            let lines = ui::package_detail_views(Some(entry));
            &&& lines[0] == seq![written(entry.package.name, Style::Heading)]
            &&& lines[1] == seq![written(entry.package.version, Style::Muted)]
            &&& lines[3] == seq![written(entry.package.description, Style::Plain)]
            &&& shows_field(
                lines,
                "installed size"@,
                crate::format::bytes_text(entry.package.size),
            )
            &&& shows_field(
                lines,
                "frees if removed"@,
                crate::format::bytes_text(entry.facts.reclaimable),
            )
            &&& shows_field(
                lines,
                "installed on"@,
                crate::format::date_text(entry.package.install_date),
            )
            &&& entry.package.reason == InstallReason::Explicit ==> shows_field(
                lines,
                "reason"@,
                "explicit"@,
            )
            &&& entry.package.reason == InstallReason::Dependency ==> shows_field(
                lines,
                "reason"@,
                "dep"@,
            )
            &&& entry.facts.origin is Foreign ==> shows_field(lines, "origin"@, "aur/local"@)
            &&& entry.facts.usage matches UsageView::Used { at, .. } ==> shows_field(
                lines,
                "last read"@,
                crate::format::date_text(Some(at)),
            )
            &&& entry.facts.usage matches UsageView::UsedFromHome { at, .. } ==> shows_field(
                lines,
                "last written"@,
                crate::format::date_text(Some(at)),
            )
            &&& entry.facts.usage is NoWitness ==> shows_field(
                lines,
                "last read"@,
                "no file worth checking"@,
            )
            &&& entry.facts.usage is AtimeDisabled ==> shows_field(
                lines,
                "last read"@,
                "access times are off"@,
            )
            &&& entry.facts.usage is NotProbed ==> shows_field(
                lines,
                "last read"@,
                "not probed — raise --top"@,
            )
        }),
{
    let lines = ui::package_detail_views(Some(entry));
    let identity = ui::identity_views(entry);
    assert(forall|i: int| 0 <= i < 10 ==> #[trigger] lines[i] == identity[i]);
    assert(lines[5] == identity[5] && lines[6] == identity[6] && lines[7] == identity[7]);
    assert(lines[8] == identity[8] && lines[9] == identity[9]);
    assert(lines[10] == ui::evidence_views(entry.facts.usage)[0]);
}

/// The details name what would go along, what needs the package, what would
/// like it, and that it is protected, each only where it is so.
pub proof fn details_name_the_relations(facts: FactsView)
    ensures
        ({
            let lines = ui::relation_views(facts);
            &&& facts.frees.len() > 0 ==> lines.contains(
                seq![written(split::join(facts.frees, ", "@), Style::Muted)],
            )
            &&& facts.required_by.len() > 0 ==> lines.contains(
                seq![written(split::join(facts.required_by, ", "@), Style::Muted)],
            )
            &&& facts.optional_for.len() > 0 ==> lines.contains(
                seq![
                    written(
                        "optional for: "@ + split::join(facts.optional_for, ", "@),
                        Style::Muted,
                    ),
                ],
            )
            &&& facts.protected ==> lines.len() > 0 && lines.last() == seq![
                written("part of the base system — press P to mark it anyway"@, Style::Peril),
            ]
            &&& lines.len() == (if facts.frees.len() > 0 {
                3int
            } else {
                0int
            }) + (if facts.required_by.len() > 0 {
                3int
            } else {
                0int
            }) + (if facts.optional_for.len() > 0 {
                2int
            } else {
                0int
            }) + (if facts.protected {
                2int
            } else {
                0int
            })
        }),
{
    let lines = ui::relation_views(facts);
    let a = if facts.frees.len() > 0 {
        3int
    } else {
        0int
    };
    let b = a + if facts.required_by.len() > 0 {
        3int
    } else {
        0int
    };
    if facts.frees.len() > 0 {
        assert(lines[2] == seq![written(split::join(facts.frees, ", "@), Style::Muted)]);
    }
    if facts.required_by.len() > 0 {
        assert(lines[a + 2] == seq![written(split::join(facts.required_by, ", "@), Style::Muted)]);
    }
    if facts.optional_for.len() > 0 {
        assert(lines[b + 1] == seq![
            written("optional for: "@ + split::join(facts.optional_for, ", "@), Style::Muted),
        ]);
    }
}

/// A target shows its size, how careful to be, its title and how many there
/// are.
pub proof fn targets_show_their_care(target: TargetView)
    ensures
        ({
            let row = ui::target_row_views(target);
            &&& row.len() == 4
            &&& target.bytes matches Some(bytes) ==> row[0].text == number::pad_start(
                crate::format::bytes_text(bytes),
                10,
                ' ',
            )
            &&& target.bytes is None ==> row[0].text == number::pad_start("?"@, 10, ' ')
            &&& target.safety == Safety::Safe ==> row[1] == written("safe"@, Style::Good)
            &&& target.safety == Safety::Review ==> row[1] == written("review"@, Style::Warn)
            &&& target.safety == Safety::Careful ==> row[1] == written("careful"@, Style::Danger)
            &&& row[2].text == target.title
            &&& row[3].text == number::pad_start(number::decimal(target.items as nat), 7, ' ')
        }),
{
}

/// The details of a target say what reclaims it, and as whom.
pub proof fn target_details_say_what_runs(target: TargetView)
    ensures
        ({
            let lines = ui::target_detail_views(Some(target));
            &&& lines[0] == seq![written(target.title, Style::Heading)]
            &&& lines[1] == seq![written(target.location, Style::Muted)]
            &&& lines[3] == seq![written(target.detail, Style::Plain)]
            &&& match target.reclaim {
                ReclaimView::Run { command } => lines[6] == seq![
                    written(command.shell(), Style::Warn),
                ],
                ReclaimView::Paths { paths, needs_root } => {
                    &&& needs_root ==> lines[5][0].text == "press Enter to delete "@
                        + number::decimal(paths.len()) + " path(s) "@ + "as root"@ + ":"@
                    &&& !needs_root ==> lines[5][0].text == "press Enter to delete "@
                        + number::decimal(paths.len()) + " path(s) "@ + "as you"@ + ":"@
                    &&& forall|i: int|
                        0 <= i < paths.len() && i < 4 ==> lines[6 + i] == seq![
                            written("  "@ + #[trigger] paths[i], Style::Muted),
                        ]
                    &&& lines.len() <= 10
                },
                ReclaimView::Handoff { hint } => lines[5] == seq![
                    written("handled on the "@ + hint, Style::Muted),
                ],
                ReclaimView::Advice { text } => lines[5] == seq![written(text, Style::Muted)],
            }
        }),
{
}

/// The header gives what is installed and what can be reclaimed, what the
/// marked packages would free where there are any, and that nothing runs on a
/// dry run.
pub proof fn the_header_sums_up(m: AppModel)
    ensures
        ({
            let header = ui::header_views(m);
            let bytes = m.plan().bytes;
            &&& header[1].text == crate::format::bytes_text(
                number::saturated(model::size_sum(m.inventory.entries)),
            )
            &&& header[3].text == crate::format::bytes_text(
                number::saturated(crate::janitor::known_sum(m.inventory.targets)),
            )
            &&& bytes > 0 ==> header[5].text == crate::format::bytes_text(bytes) + " ("@
                + number::decimal(m.selection.len()) + ")"@
            &&& m.dry_run ==> header.last() == written("   DRY RUN"@, Style::Peril)
            &&& header.len() == 4 + (if bytes > 0 {
                2int
            } else {
                0int
            }) + (if m.dry_run {
                1int
            } else {
                0int
            })
        }),
{
}

/// Each filter stands in the bar with its key, and stands out while it is on.
pub proof fn the_bar_names_the_filters(m: AppModel, toggle: Toggle)
    requires
        !m.searching,
    ensures
        ({
            let label = match toggle {
                Toggle::Orphans => seq!['o'] + " "@ + "orphans"@,
                Toggle::Foreign => seq!['a'] + " "@ + "aur"@,
                Toggle::Explicit => seq!['e'] + " "@ + "explicit"@,
                Toggle::NeverUsed => seq!['n'] + " "@ + "never-used"@,
                Toggle::Stale => seq!['u'] + " "@ + "stale"@,
            };
            ui::bar_views(m).contains(
                written(
                    " "@ + label + " "@,
                    if m.view.toggles.contains(toggle) {
                        Style::Active
                    } else {
                        Style::Muted
                    },
                ),
            )
        }),
{
    ui::the_bar_shows_every_filter(m, toggle);
}

/// Behind the filters stand the query, where there is one, and the column with
/// the way it runs.
pub proof fn the_bar_shows_query_and_column(m: AppModel)
    ensures
        ({
            let bar = ui::bar_views(m);
            let n = bar.len() as int;
            let column = match m.view.sort {
                SortKey::Size => "size"@,
                SortKey::Reclaimable => "frees"@,
                SortKey::LastUsed => "last used"@,
                SortKey::Installed => "installed"@,
                SortKey::Name => "name"@,
                SortKey::RequiredBy => "needed by"@,
            };
            &&& !m.searching && m.view.descending ==> bar[n - 2].text == "sort:"@ + column + "↓"@
            &&& !m.searching && !m.view.descending ==> bar[n - 2].text == "sort:"@ + column + "↑"@
            &&& !m.searching && m.view.query.len() > 0 ==> bar[n - 4].text == " /"@ + m.view.query
                + " "@
            &&& m.searching ==> bar[1].text == m.view.query + "▏"@
            &&& m.searching && m.view.match_descriptions ==> bar[2].text == "  matching "@
                + "name+description"@
            &&& m.searching && !m.view.match_descriptions ==> bar[2].text == "  matching "@
                + "name"@
        }),
{
}

/// A dialogue is shown with its title and its lines, in red where it is a
/// danger or a refusal, and says which keys answer it.
pub proof fn dialogues_are_shown_as_they_are(overlay: OverlayView)
    ensures
        overlay is Closed ==> ui::modal_of(overlay) is None,
        overlay is Help ==> (ui::modal_of(overlay) matches Some(modal) && !modal.danger
            && modal.footer == "any key to close"@),
        overlay matches OverlayView::Notice { title, lines } ==> (ui::modal_of(
            overlay,
        ) matches Some(modal) && modal.title == " "@ + title + " "@ && modal.lines == lines
            && modal.danger && modal.footer == "any key to close"@),
        overlay matches OverlayView::Confirm { title, lines, danger, .. } ==> (ui::modal_of(
            overlay,
        ) matches Some(modal) && modal.title == " "@ + title + " "@ && modal.lines == lines
            && modal.danger == danger && modal.footer == "y to run   Esc to cancel"@),
        overlay matches OverlayView::Offer { title, lines, .. } ==> (ui::modal_of(
            overlay,
        ) matches Some(modal) && modal.title == " "@ + title + " "@ && modal.lines == lines
            && !modal.danger && modal.footer == "y to mark them   Esc to cancel"@),
{
}

/// A dialogue takes three quarters of the width and is as high as its lines
/// need and the screen allows, and what is left over lies evenly around it.
pub proof fn dialogues_stand_in_the_middle(area: Area, lines: nat)
    requires
        area.x + area.width <= u16::MAX,
        area.y + area.height <= u16::MAX,
        area.width * 3 <= u16::MAX,
        area.height >= 7,
    ensures
        ({
            let popup = ui::modal_area(area, lines);
            let left = popup.x - area.x;
            let right = area.x + area.width - (popup.x + popup.width);
            let above = popup.y - area.y;
            let below = area.y + area.height - (popup.y + popup.height);
            &&& popup.width == area.width * 3 / 4
            &&& 0 <= left <= right <= left + 1
            &&& 0 <= above <= below <= above + 1
            &&& lines > 0 && lines + 6 <= area.height ==> popup.height == lines + 4
            &&& lines + 6 > area.height ==> popup.height == area.height - 2
            &&& lines == 0 ==> popup.height == 5
        }),
{
}

/// A screen has its tabs and the summary on top, the filters and the status at
/// the bottom, and the table between them, with the details on its right where
/// there is room for them.
pub proof fn screens_are_laid_out(area: Area, screen: Screen)
    requires
        ui::is_arranged(area, screen),
        area.x + area.width <= u16::MAX,
        area.y + area.height <= u16::MAX,
        area.height >= 10,
        area.width >= 48,
    ensures
        screen.tabs == (Area { x: area.x, y: area.y, width: 28, height: 3 }),
        screen.summary == (Area {
            x: (area.x + 28) as u16,
            y: area.y,
            width: (area.width - 28) as u16,
            height: 3,
        }),
        screen.table.x == area.x && screen.table.y == area.y + 3 && screen.table.height
            == area.height - 5,
        screen.filters == (Area {
            x: area.x,
            y: (area.y + area.height - 2) as u16,
            width: area.width,
            height: 1,
        }),
        screen.status == (Area {
            x: area.x,
            y: (area.y + area.height - 1) as u16,
            width: area.width,
            height: 1,
        }),
        area.width < 110 ==> screen.detail is None && screen.table.width == area.width,
        area.width >= 110 ==> screen.table.width == area.width - 44 && screen.detail == Some(
            Area {
                x: (area.x + area.width - 44) as u16,
                y: (area.y + 3) as u16,
                width: 44,
                height: (area.height - 5) as u16,
            },
        ),
{
}

} // verus!
