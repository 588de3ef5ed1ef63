//! What reaches the screen.
use pacpurge::app::{App, Intent, Overlay, Tab};
use pacpurge::filter::{SortKey, Toggle, View};
use pacpurge::janitor::{Command, Kind, Reclaim, Safety, Target};
use pacpurge::model::{AtimeSupport, Entry, Facts, InstallReason, Inventory, Origin, Package, UsageEvidence};
use pacpurge::textmap::TextMap;
use pacpurge::ui;
use pacpurge::ui::{Area, Share, Span, Style};

/// The positions of entries, by name.
fn index_of(entries: &[Entry]) -> TextMap<usize> {
    let mut index = TextMap::new();
    for (position, entry) in entries.iter().enumerate() {
        index.insert(&entry.package.name, position);
    }
    index
}

/// Build a small inventory covering every visual state the table has.
fn inventory() -> Inventory {
    let entries = vec![
        Entry {
            package: Package {
                name: "abandoned-toy".to_owned(),
                version: "0.2-1".to_owned(),
                size: 300_000_000,
                install_date: Some(0),
                reason: InstallReason::Explicit,
                description: "a thing installed once and never opened".to_owned(),
                ..Package::default()
            },
            facts: Facts {
                required_by: Vec::new(),
                optional_for: Vec::new(),
                origin: Origin::Foreign,
                usage: UsageEvidence::NeverSinceInstall { at: 0 },
                reclaimable: 390_000_000,
                frees: vec!["lonely-lib".to_owned()],
                protected: false,
            },
        },
        Entry {
            package: Package {
                name: "glibc".to_owned(),
                version: "2.39-1".to_owned(),
                size: 50_000_000,
                install_date: Some(0),
                reason: InstallReason::Dependency,
                description: "the C library".to_owned(),
                ..Package::default()
            },
            facts: Facts {
                required_by: vec!["everything".to_owned()],
                optional_for: Vec::new(),
                origin: Origin::Repository("core".to_owned()),
                usage: UsageEvidence::Used {
                    at: 86_400 * 30,
                    witness: "usr/lib/libc.so.6".to_owned(),
                },
                reclaimable: 50_000_000,
                frees: Vec::new(),
                protected: true,
            },
        },
    ];

    Inventory {
        index: index_of(&entries),
        entries,
        targets: vec![Target {
            kind: Kind::PacmanCacheSuperseded,
            title: "Superseded versions of installed packages".to_owned(),
            location: "/var/cache/pacman/pkg".to_owned(),
            detail: "Older builds of packages you still have.".to_owned(),
            bytes: Some(2_000_000_000),
            items: 214,
            safety: Safety::Safe,
            reclaim: Reclaim::Run {
                command: Command::new("paccache", &["-r", "-k1"], true),
            },
        }],
        atime_support: AtimeSupport::Relatime,
        scanned_at: 86_400 * 400,
        probed: 2,
        warnings: Vec::new(),
    }
}

/// The texts of a line, side by side.
fn beside(spans: &[Span]) -> String {
    spans.iter().map(|span| span.text.as_str()).collect::<Vec<&str>>().join(" ")
}

/// The texts of a line, one after the other.
fn flowing(spans: &[Span]) -> String {
    spans.iter().map(|span| span.text.as_str()).collect()
}

/// What one frame shows, as newline-separated text.
fn screen(app: &mut App, width: u16, height: u16) -> String {
    let area = Area { x: 0, y: 0, width, height };
    let arranged = ui::arrange(area);
    app.page = ui::page_rows(arranged.table.height);

    let mut shown = vec![
        " pacpurge ".to_owned(),
        Tab::Packages.title().to_owned(),
        Tab::Janitor.title().to_owned(),
        flowing(&ui::header_spans(app)),
    ];
    match app.tab {
        Tab::Packages => {
            shown.push(ui::table_title(app));
            shown.push(beside(&ui::package_headings(app.view.sort)));
            shown.extend(ui::package_rows(app).iter().map(|row| beside(row)));
            if arranged.detail.is_some() {
                let lines = ui::package_detail(app.current_entry());
                shown.extend(lines.iter().map(|line| flowing(line)));
            }
        }
        Tab::Janitor => {
            shown.push(beside(&ui::target_headings()));
            shown.extend(app.inventory.targets.iter().map(|target| beside(&ui::target_row(target))));
            if arranged.detail.is_some() {
                let lines = ui::target_detail(app.current_target());
                shown.extend(lines.iter().map(|line| flowing(line)));
            }
        }
    }
    shown.push(flowing(&ui::status_spans(app)));
    shown.push(app.status.clone());
    if let Some(modal) = ui::modal(&app.overlay) {
        let popup = ui::popup(area, modal.lines.len());
        let inside = ui::popup_text(popup);
        assert!(inside.width <= popup.width && inside.height <= popup.height);
        shown.push(modal.title);
        shown.extend(modal.lines);
        shown.push(modal.footer);
    }
    shown.join("\n")
}

fn app() -> App {
    App::new(inventory(), View::default(), false)
}

#[test]
fn the_package_table_draws_every_column() {
    let rendered = screen(&mut app(), 140, 30);

    assert!(rendered.contains("pacpurge"), "{rendered}");
    assert!(rendered.contains("Packages"), "{rendered}");
    assert!(rendered.contains("Reclaim"), "{rendered}");
    assert!(rendered.contains("abandoned-toy"), "{rendered}");
    assert!(rendered.contains("glibc"), "{rendered}");
    assert!(rendered.contains("never"), "{rendered}");
    assert!(rendered.contains("orphan"), "{rendered}");
    assert!(rendered.contains("last used"), "{rendered}");
}

#[test]
fn sizes_reach_the_screen_in_human_units() {
    let rendered = screen(&mut app(), 140, 30);
    assert!(rendered.contains("286.1 MiB"), "{rendered}");
    assert!(rendered.contains("371.9 MiB"), "{rendered}");
}

#[test]
fn the_detail_pane_explains_the_cascade() {
    let rendered = screen(&mut app(), 140, 30);
    assert!(
        rendered.contains("also removes 1 dependencies"),
        "{rendered}"
    );
    assert!(rendered.contains("lonely-lib"), "{rendered}");
}

#[test]
fn the_detail_pane_is_dropped_on_a_narrow_terminal() {
    let rendered = screen(&mut app(), 90, 30);
    assert!(rendered.contains("abandoned-toy"), "{rendered}");
    assert!(!rendered.contains("also removes"), "{rendered}");
}

#[test]
fn a_protected_package_says_so_in_its_detail_pane() {
    let mut app = app();
    app.handle(Intent::Down);
    let rendered = screen(&mut app, 140, 30);
    assert!(rendered.contains("part of the base system"), "{rendered}");
}

#[test]
fn the_reclaim_tab_draws_its_targets_and_command() {
    let mut app = app();
    app.handle(Intent::NextTab);
    let rendered = screen(&mut app, 140, 30);

    assert!(rendered.contains("Superseded versions"), "{rendered}");
    assert!(rendered.contains("1.8 GiB"), "{rendered}");
    assert!(rendered.contains("sudo paccache -r -k1"), "{rendered}");
}

#[test]
fn the_confirmation_modal_shows_the_exact_command() {
    let mut app = app();
    app.handle(Intent::ToggleSelect);
    app.handle(Intent::Review);
    let rendered = screen(&mut app, 140, 30);

    assert!(rendered.contains("Review removal"), "{rendered}");
    assert!(rendered.contains("pacman -Rns abandoned-toy"), "{rendered}");
    assert!(rendered.contains("y to run"), "{rendered}");
}

#[test]
fn the_help_modal_lists_the_bindings() {
    let mut app = app();
    app.handle(Intent::Help);
    let rendered = screen(&mut app, 140, 40);

    assert!(rendered.contains("space"), "{rendered}");
    assert!(rendered.contains("orphans"), "{rendered}");
    assert!(rendered.contains("re-scan"), "{rendered}");
}

#[test]
fn the_search_field_shows_what_is_being_typed() {
    let mut app = app();
    app.handle(Intent::StartSearch);
    app.handle(Intent::SearchInput('t'));
    app.handle(Intent::SearchInput('o'));
    app.handle(Intent::SearchInput('y'));
    let rendered = screen(&mut app, 140, 30);

    assert!(rendered.contains("search: toy"), "{rendered}");
    assert!(rendered.contains("abandoned-toy"), "{rendered}");
    assert!(!rendered.contains("2.39-1"), "{rendered}");
}

#[test]
fn a_noatime_system_shows_dashes_rather_than_a_misleading_date() {
    let mut inventory = inventory();
    inventory.atime_support = AtimeSupport::Disabled;
    let mut app = App::new(inventory, View::default(), false);
    let rendered = screen(&mut app, 140, 30);

    // The filter bar still offers the `never-used` toggle; what must not
    // appear is a last-used verdict in the table, since there is no evidence
    // for one. The column shows an em dash and the caveat is spelled out.
    let table_rows: String = rendered
        .lines()
        .filter(|line| line.contains("abandoned-toy") || line.contains("glibc"))
        .collect();
    assert!(!table_rows.contains("never"), "{rendered}");
    assert!(table_rows.contains('\u{2014}'), "{rendered}");
    assert!(rendered.contains("noatime"), "{rendered}");
}

#[test]
fn a_dry_run_is_announced_in_the_header() {
    let mut app = App::new(inventory(), View::default(), true);
    let rendered = screen(&mut app, 140, 30);
    assert!(rendered.contains("DRY RUN"), "{rendered}");
}

#[test]
fn an_empty_table_still_draws() {
    let empty = Inventory {
        entries: Vec::new(),
        index: TextMap::new(),
        targets: Vec::new(),
        atime_support: AtimeSupport::Relatime,
        scanned_at: 0,
        probed: 0,
        warnings: Vec::new(),
    };
    let mut app = App::new(empty, View::default(), false);
    let rendered = screen(&mut app, 140, 30);
    assert!(rendered.contains("no package selected"), "{rendered}");
}

#[test]
fn a_tiny_terminal_does_not_panic() {
    // Terminals get resized to absurd sizes; a layout that assumes room is a
    // crash waiting to happen mid-session.
    for (width, height) in [(20u16, 6u16), (40, 10), (1, 1), (200, 4)] {
        let mut app = app();
        app.handle(Intent::Help);
        let _rendered = screen(&mut app, width, height);
    }
}

#[test]
fn no_column_truncates_the_value_it_holds() {
    // Regression: a padding width wider than the column's layout constraint
    // silently chops the last characters off, turning `1.0y` into `1.` and
    // `orphan` into `orpha`. Every cell must survive intact.
    let rendered = screen(&mut app(), 130, 22);
    // Matched on the size cell rather than the name: the detail pane repeats
    // the name on the header row of the same screen line.
    let row = rendered
        .lines()
        .find(|line| line.contains("286.1 MiB"))
        .unwrap_or_default()
        .to_owned();

    assert!(row.contains("286.1 MiB"), "{row}");
    assert!(row.contains("371.9 MiB"), "{row}");
    assert!(row.contains("never"), "{row}");
    assert!(row.contains("1.0y"), "{row}");
    assert!(row.contains("aur/local"), "{row}");
    assert!(row.contains("orphan"), "{row}");
}

#[test]
fn headings_show_which_column_sorts() {
    let headings = ui::package_headings(SortKey::Reclaimable);
    assert_eq!(headings.len(), 8);
    assert_eq!(headings[3], Span { text: "frees".to_owned(), style: Style::Sorted });
    assert_eq!(headings[2], Span { text: "size".to_owned(), style: Style::Accent });
    assert_eq!(headings[1], Span { text: "package".to_owned(), style: Style::Heading });
    assert_eq!(beside(&ui::target_headings()), "size safety what items");
}

#[test]
fn every_cell_fills_its_column() {
    let app = app();
    for row in ui::package_rows(&app) {
        assert_eq!(row[2].text.chars().count(), ui::SIZE_WIDTH);
        assert_eq!(row[3].text.chars().count(), ui::SIZE_WIDTH);
        assert_eq!(row[4].text.chars().count(), ui::USAGE_WIDTH);
        assert_eq!(row[5].text.chars().count(), ui::ADDED_WIDTH);
        assert_eq!(row[7].text.chars().count(), ui::NEEDED_WIDTH);
    }
}

#[test]
fn rows_are_styled_by_what_they_say() {
    let inventory = inventory();
    let now = inventory.scanned_at;
    let toy = ui::package_row(&inventory.entries[0], true, now, true);
    assert_eq!(toy[0], Span { text: "\u{25cf}".to_owned(), style: Style::Warn });
    assert_eq!(toy[1], Span { text: "abandoned-toy".to_owned(), style: Style::Foreign });
    assert_eq!(toy[3], Span { text: " 371.9 MiB".to_owned(), style: Style::Best });
    assert_eq!(toy[4], Span { text: "     never".to_owned(), style: Style::Peril });
    assert_eq!(toy[7], Span { text: "   orphan".to_owned(), style: Style::Plain });

    let libc = ui::package_row(&inventory.entries[1], false, now, true);
    assert_eq!(libc[0], Span { text: "\u{b7}".to_owned(), style: Style::Muted });
    assert_eq!(libc[1], Span { text: "glibc".to_owned(), style: Style::Muted });
    assert_eq!(libc[3], Span { text: "  47.6 MiB".to_owned(), style: Style::Muted });
    assert_eq!(libc[4], Span { text: "      1.0y".to_owned(), style: Style::Warn });
    assert_eq!(libc[7], Span { text: "        1".to_owned(), style: Style::Plain });
}

#[test]
fn every_kind_of_evidence_has_its_cell() {
    let now = 86_400 * 400;
    let cell = |usage: UsageEvidence| ui::usage_cell(&usage, now, true);
    let used = UsageEvidence::Used { at: now - 86_400 * 3, witness: "usr/bin/x".to_owned() };
    assert_eq!(cell(used), Span { text: "3d".to_owned(), style: Style::Muted });
    let home = UsageEvidence::UsedFromHome { at: now - 86_400 * 200, witness: "/h/.x".to_owned() };
    assert_eq!(cell(home), Span { text: "~200d".to_owned(), style: Style::Warn });
    assert_eq!(cell(UsageEvidence::NoWitness).text, "n/a");
    assert_eq!(cell(UsageEvidence::AtimeDisabled).text, "off");
    assert_eq!(cell(UsageEvidence::NotProbed).text, "\u{b7}");
    assert_eq!(ui::usage_cell(&UsageEvidence::NoWitness, now, false).text, "\u{2014}");
}

#[test]
fn the_detail_pane_says_where_the_evidence_comes_from() {
    let mut inventory = inventory();
    inventory.entries[0].facts.usage =
        UsageEvidence::UsedFromHome { at: 86_400, witness: "/home/me/.config/toy".to_owned() };
    let lines = ui::package_detail(inventory.entries.first());
    let texts: Vec<String> = lines.iter().map(|line| flowing(line)).collect();
    assert_eq!(texts[5], "installed size    286.1 MiB");
    assert_eq!(texts[7], "installed on      1970-01-01");
    assert_eq!(texts[8], "reason            explicit");
    assert_eq!(texts[9], "origin            aur/local");
    assert_eq!(texts[10], "last written      1970-01-02");
    assert_eq!(texts[11], "  via /home/me/.config/toy");

    let lines = ui::package_detail(inventory.entries.get(1));
    let texts: Vec<String> = lines.iter().map(|line| flowing(line)).collect();
    assert_eq!(texts[10], "last read         1970-01-31");
    assert_eq!(texts[11], "  via /usr/lib/libc.so.6");
    assert_eq!(texts[13], "needed by 1:");
    assert_eq!(texts[14], "everything");
}

#[test]
fn the_target_pane_names_what_would_be_deleted() {
    let mut inventory = inventory();
    inventory.targets[0].reclaim = Reclaim::Paths {
        paths: ["/a", "/b", "/c", "/d", "/e"].iter().map(|path| (*path).to_owned()).collect(),
        needs_root: true,
    };
    let lines = ui::target_detail(inventory.targets.first());
    let texts: Vec<String> = lines.iter().map(|line| flowing(line)).collect();
    assert_eq!(texts[5], "press Enter to delete 5 path(s) as root:");
    // The first four stand for all of them.
    assert_eq!(texts[6..], ["  /a", "  /b", "  /c", "  /d"]);

    inventory.targets[0].reclaim = Reclaim::Handoff { hint: "packages tab".to_owned() };
    let lines = ui::target_detail(inventory.targets.first());
    assert_eq!(flowing(&lines[5]), "handled on the packages tab");
    assert_eq!(
        flowing(&ui::target_detail(None)[0]),
        "Nothing to reclaim outside the package set."
    );
}

#[test]
fn an_unmeasured_target_shows_a_question_mark() {
    let mut inventory = inventory();
    inventory.targets[0].bytes = None;
    inventory.targets[0].safety = Safety::Careful;
    let row = ui::target_row(&inventory.targets[0]);
    assert_eq!(row[0], Span { text: "         ?".to_owned(), style: Style::Best });
    assert_eq!(row[1], Span { text: "careful".to_owned(), style: Style::Danger });
    assert_eq!(row[3], Span { text: "    214".to_owned(), style: Style::Muted });
}

#[test]
fn the_header_counts_what_is_marked() {
    let mut app = app();
    assert_eq!(flowing(&ui::header_spans(&app)), "installed 333.7 MiB   reclaimable 1.8 GiB");
    app.handle(Intent::ToggleSelect);
    assert_eq!(
        flowing(&ui::header_spans(&app)),
        "installed 333.7 MiB   reclaimable 1.8 GiB   marked 286.1 MiB (1)"
    );
}

#[test]
fn the_filter_bar_shows_what_is_on() {
    let mut app = app();
    app.handle(Intent::Filter(Toggle::Foreign));
    let spans = ui::status_spans(&app);
    assert_eq!(spans[0], Span { text: " o orphans ".to_owned(), style: Style::Muted });
    assert_eq!(spans[2].style, Style::Active);
    assert_eq!(
        flowing(&spans[10..]),
        "sort:size\u{2193}   ? help   space mark   Enter apply   q quit"
    );
    app.handle(Intent::StartSearch);
    app.handle(Intent::SearchInput('T'));
    assert_eq!(flowing(&ui::status_spans(&app)), "search: T\u{258f}  matching name");
    app.handle(Intent::SearchCommit);
    assert_eq!(
        ui::status_spans(&app)[10],
        Span { text: " /T ".to_owned(), style: Style::Query }
    );
}

#[test]
fn modals_are_centred_and_padded() {
    let area = Area { x: 0, y: 0, width: 100, height: 40 };
    let popup = ui::popup(area, 6);
    assert_eq!(popup, Area { x: 12, y: 15, width: 75, height: 10 });
    assert_eq!(ui::popup_text(popup), Area { x: 14, y: 16, width: 71, height: 8 });
    // More lines than rows: the box stops short of the edges.
    assert_eq!(ui::popup(area, 600).height, 38);
    // No room for a margin leaves nothing.
    let tiny = Area { x: 3, y: 3, width: 3, height: 5 };
    assert_eq!(ui::popup_text(tiny), Area { x: 0, y: 0, width: 0, height: 0 });
}

#[test]
fn the_screen_is_cut_into_its_parts() {
    let wide = ui::arrange(Area { x: 0, y: 0, width: 140, height: 30 });
    assert_eq!(wide.tabs, Area { x: 0, y: 0, width: 28, height: 3 });
    assert_eq!(wide.summary, Area { x: 28, y: 0, width: 112, height: 3 });
    assert_eq!(wide.table, Area { x: 0, y: 3, width: 96, height: 25 });
    assert_eq!(wide.detail, Some(Area { x: 96, y: 3, width: 44, height: 25 }));
    assert_eq!(wide.filters, Area { x: 0, y: 28, width: 140, height: 1 });
    assert_eq!(wide.status, Area { x: 0, y: 29, width: 140, height: 1 });
    assert_eq!(ui::page_rows(wide.table.height), 22);

    let narrow = ui::arrange(Area { x: 0, y: 0, width: 109, height: 30 });
    assert_eq!(narrow.detail, None);
    assert_eq!(narrow.table.width, 109);
    assert!(!ui::is_wide(109));
    assert!(ui::is_wide(110));
    assert_eq!(ui::page_rows(2), 1);
    assert_eq!(ui::page_rows(4), 1);
}

#[test]
fn every_overlay_says_how_to_leave_it() {
    assert_eq!(ui::modal(&Overlay::Closed), None);
    let help = ui::modal(&Overlay::Help).unwrap();
    assert_eq!(help.title, " keys ");
    assert_eq!(help.footer, "any key to close");
    assert!(!help.danger);
    let notice = Overlay::Notice { title: "no".to_owned(), lines: vec!["why".to_owned()] };
    let notice = ui::modal(&notice).unwrap();
    assert_eq!((notice.title.as_str(), notice.danger), (" no ", true));
    assert_eq!(notice.lines, vec!["why".to_owned()]);
    let offer = Overlay::Offer { title: "more".to_owned(), lines: Vec::new(), add: vec![1] };
    assert_eq!(ui::modal(&offer).unwrap().footer, "y to mark them   Esc to cancel");
}

#[test]
fn the_table_has_the_body_for_itself_where_it_is_not_cut() {
    let part = |x: u16| Area { x, y: 0, width: 1, height: 1 };
    let alone = ui::assemble((part(1), part(2)), part(3), None, (part(6), part(7)));
    assert_eq!(alone.table, part(3));
    assert_eq!(alone.detail, None);
    let panes = Some((part(4), part(5)));
    let both = ui::assemble((part(1), part(2)), part(3), panes, (part(6), part(7)));
    assert_eq!((both.table, both.detail), (part(4), Some(part(5))));
    assert_eq!((both.tabs, both.summary), (part(1), part(2)));
    assert_eq!((both.filters, both.status), (part(6), part(7)));
    assert_eq!(
        ui::screen_rows(),
        vec![Share::Length(3), Share::Min(5), Share::Length(2)]
    );
    assert_eq!(ui::header_columns(), vec![Share::Length(28), Share::Min(20)]);
    assert_eq!(ui::body_columns(), vec![Share::Min(60), Share::Length(44)]);
    assert_eq!(ui::bottom_rows(), vec![Share::Length(1), Share::Length(1)]);
}

#[test]
fn every_part_lies_on_the_screen() {
    for (width, height) in [(140u16, 30u16), (109, 12), (20, 6), (5, 3), (1, 1), (0, 0)] {
        let area = Area { x: 7, y: 3, width, height };
        let screen = ui::arrange(area);
        let mut parts =
            vec![screen.tabs, screen.summary, screen.table, screen.filters, screen.status];
        parts.extend(screen.detail);
        for part in parts {
            assert!(part.x >= 7 && part.y >= 3, "{part:?}");
            assert!(part.x + part.width <= 7 + width, "{part:?}");
            assert!(part.y + part.height <= 3 + height, "{part:?}");
        }
    }
}

/// What `ui::arrange` promises of a screen whose far corner has coordinates.
fn assert_arranged(area: Area) {
    let Area { x, y, width, height } = area;
    let screen = ui::arrange(area);
    let (tabs, summary, table) = (screen.tabs, screen.summary, screen.table);
    let (filters, status) = (screen.filters, screen.status);

    assert_eq!((tabs.y, summary.y, summary.height), (y, y, tabs.height), "{screen:?}");
    assert_eq!(table.y, tabs.y + tabs.height, "{screen:?}");
    assert_eq!(filters.y, table.y + table.height, "{screen:?}");
    assert_eq!(status.y, filters.y + filters.height, "{screen:?}");
    assert_eq!(status.y + status.height, y + height, "{screen:?}");
    if height >= 10 {
        assert_eq!((tabs.height, filters.height, status.height), (3, 1, 1), "{screen:?}");
    } else {
        assert!(tabs.height <= 3 && filters.height <= 1 && status.height <= 1, "{screen:?}");
        assert_eq!(table.height, height.min(5), "{screen:?}");
    }

    assert_eq!((tabs.x, table.x, filters.x, status.x), (x, x, x, x), "{screen:?}");
    assert_eq!(tabs.width, width.saturating_sub(20).min(28), "{screen:?}");
    assert_eq!(summary.x, tabs.x + tabs.width, "{screen:?}");
    assert_eq!(summary.width, width - tabs.width, "{screen:?}");
    assert_eq!((filters.width, status.width), (width, width), "{screen:?}");
    match screen.detail {
        Some(detail) => {
            assert!(width >= ui::NARROW, "{screen:?}");
            assert_eq!((detail.y, detail.height), (table.y, table.height), "{screen:?}");
            assert_eq!((detail.width, table.width), (44, width - 44), "{screen:?}");
            assert_eq!(detail.x, table.x + table.width, "{screen:?}");
        }
        None => {
            assert!(width < ui::NARROW, "{screen:?}");
            assert_eq!(table.width, width, "{screen:?}");
        }
    }
}

#[test]
fn every_width_is_shared_out_as_promised() {
    for width in (0..300).chain([1_000, 32_767, 32_768, 65_000, 65_528]) {
        assert_arranged(Area { x: 7, y: 3, width, height: 30 });
    }
}

#[test]
fn every_height_is_shared_out_as_promised() {
    for height in (0..200).chain([1_000, 32_767, 32_768, 65_000, 65_532]) {
        assert_arranged(Area { x: 7, y: 3, width: 140, height });
    }
}

#[test]
fn low_and_narrow_screens_are_shared_out_as_promised() {
    for origin in [0, 1, 13, 400] {
        for width in 0..52 {
            for height in 0..12 {
                assert_arranged(Area { x: origin, y: origin, width, height });
            }
        }
    }
}

#[test]
fn a_screen_at_the_last_coordinates_keeps_its_order() {
    // Of 200 columns and 50 rows, 95 and 40 have coordinates.
    let area = Area { x: 65_440, y: 65_495, width: 200, height: 50 };
    let screen = ui::arrange(area);
    assert_eq!((screen.tabs.width, screen.summary.x, screen.summary.width), (28, 65_468, 67));
    assert_eq!((screen.table.y, screen.table.height, screen.table.width), (65_498, 35, 60));
    let detail = screen.detail.unwrap();
    assert_eq!((detail.x, detail.width), (65_500, 35));
    assert_eq!((screen.filters.y, screen.status.y), (65_533, 65_534));
}

#[test]
fn the_rows_of_a_screen_come_in_order() {
    let row = |y, height| Area { x: 0, y, width: 80, height };
    let rows = vec![row(0, 3), row(3, 19), row(22, 2)];
    assert_eq!(ui::rows_of(&rows), (row(0, 3), row(3, 19), row(22, 2)));
}
