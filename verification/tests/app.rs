//! The interactive state machine.
use pacpurge::app::{preview, Action, App, Intent, Overlay, Tab};
use pacpurge::filter::{SortKey, Toggle, View};
use pacpurge::janitor::{Command, Kind, Reclaim, Safety, Target};
use pacpurge::model::{AtimeSupport, Entry, Facts, InstallReason, Inventory, Origin, Package, UsageEvidence};
use pacpurge::textmap::TextMap;

/// The positions of entries, by name.
fn index_of(entries: &[Entry]) -> TextMap<usize> {
    let mut index = TextMap::new();
    for (position, entry) in entries.iter().enumerate() {
        index.insert(&entry.package.name, position);
    }
    index
}


fn entry(
    name: &str,
    size: u64,
    reason: InstallReason,
    protected: bool,
    depends: &[&str],
) -> Entry {
    Entry {
        package: Package {
            name: name.to_owned(),
            version: "1-1".to_owned(),
            size,
            reason,
            depends: depends.iter().map(|item| (*item).to_owned()).collect(),
            install_date: Some(0),
            ..Package::default()
        },
        facts: Facts {
            required_by: Vec::new(),
            optional_for: Vec::new(),
            origin: Origin::Foreign,
            usage: UsageEvidence::NeverSinceInstall { at: 0 },
            reclaimable: size,
            frees: Vec::new(),
            protected,
        },
    }
}

fn app() -> App {
    let entries = vec![
        entry("big", 900, InstallReason::Explicit, false, &[]),
        entry("medium", 500, InstallReason::Explicit, false, &["small"]),
        entry("small", 100, InstallReason::Dependency, false, &[]),
        entry("glibc", 300, InstallReason::Explicit, true, &[]),
    ];
    let inventory = Inventory {
        index: index_of(&entries),
        entries,
        targets: Vec::new(),
        atime_support: AtimeSupport::Relatime,
        scanned_at: 86_400,
        probed: 4,
        warnings: Vec::new(),
    };
    App::new(inventory, View::default(), false)
}

fn current(app: &App) -> String {
    app.current_entry()
        .map(|entry| entry.package.name.clone())
        .unwrap_or_default()
}

#[test]
fn the_cursor_starts_on_the_biggest_package() {
    assert_eq!(current(&app()), "big");
}

#[test]
fn navigation_clamps_at_both_ends() {
    let mut app = app();
    assert_eq!(app.handle(Intent::Up), Action::Idle);
    assert_eq!(current(&app), "big");

    assert_eq!(app.handle(Intent::Last), Action::Redraw);
    assert_eq!(current(&app), "small");
    assert_eq!(app.handle(Intent::Down), Action::Idle);
}

#[test]
fn marking_a_package_reports_what_it_frees() {
    let mut app = app();
    // Default order is largest first: big, medium, glibc, small.
    app.handle(Intent::Down);
    assert_eq!(current(&app), "medium");

    assert_eq!(app.handle(Intent::ToggleSelect), Action::Redraw);
    // medium is the last thing needing small, so both go: 500 + 100.
    assert_eq!(app.selection_bytes(), 600);
    assert!(app.status.contains("600 B"), "status was: {}", app.status);
}

#[test]
fn protected_packages_need_an_explicit_override() {
    let mut app = app();
    app.view.sort_by(SortKey::Name);
    app.refresh();
    app.handle(Intent::First);
    assert_eq!(current(&app), "big");
    app.handle(Intent::Down);
    assert_eq!(current(&app), "glibc");

    app.handle(Intent::ToggleSelect);
    assert!(app.selection.is_empty());
    assert!(app.status.contains("Press P"), "status was: {}", app.status);

    app.handle(Intent::ForceSelect);
    assert_eq!(app.selection.len(), 1);
}

#[test]
fn toggling_a_selection_twice_clears_it() {
    let mut app = app();
    app.handle(Intent::ToggleSelect);
    assert_eq!(app.selection.len(), 1);
    app.handle(Intent::ToggleSelect);
    assert!(app.selection.is_empty());
}

#[test]
fn reviewing_nothing_says_so_rather_than_opening_a_modal() {
    let mut app = app();
    app.handle(Intent::Review);
    assert_eq!(app.overlay, Overlay::Closed);
    assert!(app.status.contains("nothing is marked"));
}

/// Mark `small`, which `medium` still depends on.
fn app_with_a_breaking_selection() -> App {
    let mut app = app();
    app.view.sort_by(SortKey::Name);
    app.refresh();
    app.handle(Intent::Last);
    assert_eq!(current(&app), "small");
    app.handle(Intent::ToggleSelect);
    app
}

#[test]
fn reviewing_a_breaking_removal_offers_to_mark_the_dependants() {
    let mut app = app_with_a_breaking_selection();
    app.handle(Intent::Review);

    match &app.overlay {
        Overlay::Offer { title, lines, add } => {
            assert!(title.contains("depends on this"), "{title}");
            assert!(
                lines.iter().any(|line| line.contains("medium")),
                "{lines:?}"
            );
            assert_eq!(add.len(), 1);
        }
        Overlay::Closed | Overlay::Help | Overlay::Notice { .. } | Overlay::Confirm { .. } => {
            panic!("expected an offer, got {:?}", app.overlay)
        }
    }
}

#[test]
fn accepting_the_offer_marks_them_and_reopens_the_review() {
    let mut app = app_with_a_breaking_selection();
    app.handle(Intent::Review);
    assert_eq!(app.handle(Intent::Accept), Action::Redraw);

    // `medium` joined the selection, and the review is now consistent.
    assert_eq!(app.selection.len(), 2);
    let plan = app.plan();
    assert!(plan.is_executable());
    assert_eq!(plan.selected, vec!["medium".to_owned(), "small".to_owned()]);
    assert!(matches!(app.overlay, Overlay::Confirm { .. }));
}

#[test]
fn declining_the_offer_leaves_the_selection_untouched() {
    let mut app = app_with_a_breaking_selection();
    app.handle(Intent::Review);
    assert_eq!(app.handle(Intent::Cancel), Action::Redraw);

    assert_eq!(app.selection.len(), 1);
    assert_eq!(app.overlay, Overlay::Closed);
    assert!(app.status.contains("left the selection"), "{}", app.status);
}

#[test]
fn keys_do_not_leak_through_an_offer() {
    let mut app = app_with_a_breaking_selection();
    app.handle(Intent::Review);
    assert_eq!(app.handle(Intent::Down), Action::Idle);
    assert!(matches!(app.overlay, Overlay::Offer { .. }));
}

#[test]
fn a_breakage_that_reaches_the_base_system_is_refused_not_offered() {
    // `base` depends on `small`, so widening the selection would sweep
    // the base system up behind a single keystroke. Protection is derived
    // from the package data — the `base` group here — rather than set on
    // the facts by hand, because that is what `plan::widen` recomputes.
    let mut entries = vec![
        entry("small", 100, InstallReason::Dependency, false, &[]),
        entry("base", 300, InstallReason::Explicit, true, &["small"]),
    ];
    if let Some(base) = entries.get_mut(1) {
        base.package.groups = vec!["base".to_owned()];
    }
    let entries = entries;
    let inventory = Inventory {
        index: index_of(&entries),
        entries,
        targets: Vec::new(),
        atime_support: AtimeSupport::Relatime,
        scanned_at: 86_400,
        probed: 2,
        warnings: Vec::new(),
    };
    let mut app = App::new(inventory, View::default(), false);
    app.selection.insert(0);
    app.handle(Intent::Review);

    match &app.overlay {
        Overlay::Notice { title, lines } => {
            assert!(title.contains("break"), "{title}");
            assert!(
                lines.iter().any(|line| line.contains("base system")),
                "{lines:?}"
            );
        }
        Overlay::Closed | Overlay::Help | Overlay::Offer { .. } | Overlay::Confirm { .. } => {
            panic!("expected a refusal, got {:?}", app.overlay)
        }
    }
    assert_eq!(app.selection.len(), 1);
}

#[test]
fn the_description_toggle_widens_and_narrows_the_search() {
    let mut app = app();
    assert!(!app.view.match_descriptions);
    app.handle(Intent::ToggleDescriptions);
    assert!(app.view.match_descriptions);
    assert!(app.status.contains("descriptions"), "{}", app.status);
    app.handle(Intent::ToggleDescriptions);
    assert!(!app.view.match_descriptions);
    assert!(app.status.contains("names only"), "{}", app.status);
}

#[test]
fn searching_matches_names_rather_than_descriptions() {
    let mut app = app();
    app.handle(Intent::StartSearch);
    for character in "small".chars() {
        app.handle(Intent::SearchInput(character));
    }
    assert_eq!(app.order.len(), 1);
    assert_eq!(current(&app), "small");
}

#[test]
fn a_confirmed_removal_produces_the_pacman_command() {
    let mut app = app();
    app.handle(Intent::ToggleSelect);
    app.handle(Intent::Review);
    assert!(matches!(app.overlay, Overlay::Confirm { .. }));

    match app.handle(Intent::Accept) {
        Action::Run { steps, summary } => {
            assert_eq!(steps.len(), 1);
            assert_eq!(summary, "sudo pacman -Rns big");
        }
        other => panic!("expected a run action, got {other:?}"),
    }
    assert_eq!(app.overlay, Overlay::Closed);
}

#[test]
fn a_dry_run_confirms_without_executing() {
    let mut app = app();
    app.dry_run = true;
    app.handle(Intent::ToggleSelect);
    app.handle(Intent::Review);

    match app.handle(Intent::Accept) {
        Action::Run { steps, summary } => {
            assert!(steps.is_empty());
            assert_eq!(summary, "sudo pacman -Rns big");
        }
        other => panic!("expected an empty run action, got {other:?}"),
    }
    assert!(app.status.contains("dry run"));
}

#[test]
fn cancelling_a_confirmation_leaves_the_selection_alone() {
    let mut app = app();
    app.handle(Intent::ToggleSelect);
    app.handle(Intent::Review);
    assert_eq!(app.handle(Intent::Cancel), Action::Redraw);
    assert_eq!(app.overlay, Overlay::Closed);
    assert_eq!(app.selection.len(), 1);
}

#[test]
fn keys_do_not_leak_through_a_confirmation() {
    let mut app = app();
    app.handle(Intent::ToggleSelect);
    app.handle(Intent::Review);
    assert_eq!(app.handle(Intent::Down), Action::Idle);
    assert_eq!(current(&app), "big");
}

#[test]
fn filters_narrow_the_table_and_report_the_total() {
    let mut app = app();
    app.handle(Intent::Filter(Toggle::Orphans));
    assert_eq!(app.order.len(), 1);
    assert_eq!(current(&app), "small");
    assert!(app.status.contains("orphans"), "status was: {}", app.status);
}

#[test]
fn escape_clears_every_filter_at_once() {
    let mut app = app();
    app.handle(Intent::Filter(Toggle::Orphans));
    app.handle(Intent::StartSearch);
    app.handle(Intent::SearchInput('s'));
    app.handle(Intent::SearchCommit);
    assert_eq!(app.handle(Intent::Cancel), Action::Redraw);
    assert!(app.view.is_unfiltered());
    assert_eq!(app.order.len(), 4);
}

#[test]
fn cancelling_a_search_discards_the_query() {
    let mut app = app();
    app.handle(Intent::StartSearch);
    app.handle(Intent::SearchInput('b'));
    // "b" matches `big` and `glibc`.
    assert_eq!(app.order.len(), 2);
    app.handle(Intent::SearchCancel);
    assert!(!app.searching);
    assert_eq!(app.order.len(), 4);
}

#[test]
fn the_cursor_stays_inside_a_shrinking_table() {
    let mut app = app();
    app.handle(Intent::Last);
    app.handle(Intent::Filter(Toggle::Orphans));
    assert_eq!(app.order.len(), 1);
    assert_eq!(app.table.selected(), Some(0));
}

#[test]
fn tabs_alternate() {
    let mut app = app();
    assert_eq!(app.tab, Tab::Packages);
    app.handle(Intent::NextTab);
    assert_eq!(app.tab, Tab::Janitor);
    app.handle(Intent::NextTab);
    assert_eq!(app.tab, Tab::Packages);
}

#[test]
fn an_empty_reclaim_tab_ignores_navigation() {
    let mut app = app();
    app.handle(Intent::NextTab);
    assert_eq!(app.handle(Intent::Down), Action::Idle);
    assert_eq!(app.handle(Intent::Review), Action::Idle);
}

#[test]
fn help_opens_and_closes() {
    let mut app = app();
    app.handle(Intent::Help);
    assert_eq!(app.overlay, Overlay::Help);
    app.handle(Intent::Cancel);
    assert_eq!(app.overlay, Overlay::Closed);
}

#[test]
fn quitting_from_the_table_leaves() {
    let mut app = app();
    assert_eq!(app.handle(Intent::Quit), Action::Quit);
}

/// An application with one target.
fn app_with_target(reclaim: Reclaim) -> App {
    let mut app = app();
    app.inventory.targets = vec![Target {
        kind: Kind::Trash,
        title: "Desktop trash".to_owned(),
        location: "/home/me/.local/share/Trash".to_owned(),
        detail: "Files you already deleted once.".to_owned(),
        bytes: Some(2_048),
        items: 3,
        safety: Safety::Review,
        reclaim,
    }];
    app.refresh();
    app.handle(Intent::NextTab);
    app
}

#[test]
fn a_target_runs_what_it_shows() {
    let command = Command::new("paccache", &["-r", "-k1"], true);
    let mut app = app_with_target(Reclaim::Run { command });
    app.handle(Intent::Review);
    assert!(matches!(app.overlay, Overlay::Confirm { .. }), "{:?}", app.overlay);
    match app.handle(Intent::Accept) {
        Action::Run { steps, summary } => {
            assert_eq!(steps.len(), 1);
            assert_eq!(summary, "sudo paccache -r -k1");
            assert_eq!(steps[0].to_shell(), summary);
        }
        other => panic!("expected a run action, got {other:?}"),
    }
}

#[test]
fn a_target_that_cannot_run_says_why() {
    let mut app = app_with_target(Reclaim::Advice { text: "look first".to_owned() });
    app.handle(Intent::Review);
    match &app.overlay {
        Overlay::Notice { lines, .. } => {
            assert!(lines.iter().any(|line| line.contains("look first")), "{lines:?}");
        }
        other => panic!("expected a notice, got {other:?}"),
    }
}

#[test]
fn typing_and_deleting_edit_the_query() {
    let mut app = app();
    app.handle(Intent::StartSearch);
    app.handle(Intent::SearchInput('B'));
    app.handle(Intent::SearchInput('I'));
    assert_eq!(app.view.query, "BI");
    assert_eq!(current(&app), "big");
    app.handle(Intent::SearchBackspace);
    assert_eq!(app.view.query, "B");
    app.handle(Intent::SearchBackspace);
    app.handle(Intent::SearchBackspace);
    assert_eq!(app.view.query, "");
    app.handle(Intent::SearchInput('x'));
    app.handle(Intent::SearchCancel);
    assert_eq!(app.view.query, "");
}

#[test]
fn escape_shows_hidden_packages_again() {
    let mut app = app();
    app.handle(Intent::ToggleProtected);
    assert_eq!(app.order.len(), 3);
    assert_eq!(app.handle(Intent::Cancel), Action::Redraw);
    assert_eq!(app.order.len(), 4);
    assert_eq!(app.handle(Intent::Cancel), Action::Idle);
}

#[test]
fn a_page_is_as_long_as_the_table() {
    let mut app = app();
    app.page = 2;
    app.handle(Intent::PageDown);
    assert_eq!(app.table.selected(), Some(2));
    app.handle(Intent::PageDown);
    assert_eq!(app.table.selected(), Some(3));
    app.handle(Intent::PageUp);
    assert_eq!(app.table.selected(), Some(1));
}

#[test]
fn a_rescan_keeps_the_cursor_on_a_row() {
    let mut app = app();
    app.handle(Intent::Last);
    app.handle(Intent::ToggleSelect);
    assert_eq!(app.handle(Intent::Rescan), Action::Rescan);
    let entries = vec![entry("big", 900, InstallReason::Explicit, false, &[])];
    app.adopt(Inventory {
        index: index_of(&entries),
        entries,
        targets: Vec::new(),
        atime_support: AtimeSupport::Relatime,
        scanned_at: 86_400,
        probed: 1,
        warnings: Vec::new(),
    });
    assert_eq!(app.table.selected(), Some(0));
    assert_eq!(current(&app), "big");
    assert!(app.selection.is_empty());
}

#[test]
fn long_lists_are_cut_short() {
    let names: Vec<String> = ["a", "b", "c"].iter().map(|name| (*name).to_owned()).collect();
    assert_eq!(preview(&names, 3), "a b c");
    assert_eq!(preview(&names, 2), "a b \u{2026} and 1 more");
}

#[test]
fn clearing_unmarks_everything() {
    let mut app = app();
    app.handle(Intent::ToggleSelect);
    app.handle(Intent::Down);
    app.handle(Intent::ToggleSelect);
    assert_eq!(app.selection.len(), 2);
    app.handle(Intent::ClearSelection);
    assert!(app.selection.is_empty());
    assert_eq!(app.selection_bytes(), 0);
}

#[test]
fn the_search_says_what_it_filters_by() {
    let mut app = app();
    app.handle(Intent::StartSearch);
    assert_eq!(app.status, "type to filter by name; Enter to keep it, Esc to drop it");
}

#[test]
fn accepting_leaves_the_selection_and_the_view_alone() {
    for dry_run in [false, true] {
        let mut app = app();
        app.dry_run = dry_run;
        app.handle(Intent::ToggleSelect);
        app.handle(Intent::Review);
        let (selection, view, shown) =
            (app.selection.clone(), app.view.clone(), app.overlay.clone());
        let Overlay::Confirm { steps: expected, .. } = shown else {
            panic!("expected a confirmation, got {shown:?}");
        };
        match app.handle(Intent::Accept) {
            Action::Run { steps, summary } => {
                assert_eq!(steps, if dry_run { Vec::new() } else { expected.clone() });
                assert_eq!(summary, expected[0].to_shell());
            }
            other => panic!("expected a run action, got {other:?}"),
        }
        assert_eq!(app.selection, selection);
        assert_eq!(app.view, view);
        assert_eq!(app.overlay, Overlay::Closed);
    }
}

#[test]
fn a_copy_of_an_inventory_says_the_same() {
    let app = app();
    let copy = app.inventory.clone();
    assert_eq!(copy.entries, app.inventory.entries);
    assert_eq!(copy.get("small"), app.inventory.get("small"));
    assert!(copy.get("absent").is_none());
    assert_eq!(format!("{copy:?}"), format!("{:?}", app.inventory));
}
