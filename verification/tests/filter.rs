//! Filtering and sorting the package table.
use pacpurge::filter::{filters_pass, order, search_hits, SortKey, Toggle, View};
use pacpurge::model::{Entry, Facts, InstallReason, Origin, Package, UsageEvidence};

const NOW: i64 = 1_700_000_000;
const DAY: i64 = 86_400;

fn entry(
    name: &str,
    size: u64,
    reason: InstallReason,
    origin: Origin,
    usage: UsageEvidence,
    required_by: &[&str],
) -> Entry {
    Entry {
        package: Package {
            name: name.to_owned(),
            size,
            reason,
            install_date: Some(NOW - 400 * DAY),
            description: format!("the {name} package"),
            ..Package::default()
        },
        facts: Facts {
            required_by: required_by.iter().map(|item| (*item).to_owned()).collect(),
            optional_for: Vec::new(),
            origin,
            usage,
            reclaimable: size,
            frees: Vec::new(),
            protected: false,
        },
    }
}

fn corpus() -> Vec<Entry> {
    vec![
        entry(
            "aur-hog",
            900,
            InstallReason::Explicit,
            Origin::Foreign,
            UsageEvidence::NeverSinceInstall {
                at: NOW - 400 * DAY,
            },
            &[],
        ),
        entry(
            "daily-driver",
            100,
            InstallReason::Explicit,
            Origin::Repository("extra".to_owned()),
            UsageEvidence::Used {
                at: NOW - DAY,
                witness: "usr/bin/dd".to_owned(),
            },
            &[],
        ),
        entry(
            "leftover-lib",
            500,
            InstallReason::Dependency,
            Origin::Repository("extra".to_owned()),
            UsageEvidence::NoWitness,
            &[],
        ),
        entry(
            "busy-lib",
            300,
            InstallReason::Dependency,
            Origin::Repository("core".to_owned()),
            UsageEvidence::Used {
                at: NOW - 10 * DAY,
                witness: "usr/lib/libbusy.so".to_owned(),
            },
            &["daily-driver", "aur-hog"],
        ),
    ]
}

fn names(entries: &[Entry], view: &View) -> Vec<String> {
    order(entries, view, NOW)
        .into_iter()
        .filter_map(|position| entries.get(position))
        .map(|entry| entry.package.name.clone())
        .collect()
}

#[test]
fn the_default_view_is_biggest_first() {
    let entries = corpus();
    assert_eq!(
        names(&entries, &View::default()),
        vec!["aur-hog", "leftover-lib", "busy-lib", "daily-driver"]
    );
}

#[test]
fn sorting_by_a_new_key_uses_its_natural_direction() {
    let mut view = View::default();
    view.sort_by(SortKey::Name);
    assert!(!view.descending);
    assert_eq!(
        names(&corpus(), &view),
        vec!["aur-hog", "busy-lib", "daily-driver", "leftover-lib"]
    );
}

#[test]
fn sorting_by_the_same_key_twice_reverses_it() {
    let mut view = View::default();
    assert!(view.descending);
    view.sort_by(SortKey::Size);
    assert!(!view.descending);
    assert_eq!(
        names(&corpus(), &view),
        vec!["daily-driver", "busy-lib", "leftover-lib", "aur-hog"]
    );
}

#[test]
fn unknown_last_use_sorts_as_oldest() {
    let mut view = View::default();
    view.sort_by(SortKey::LastUsed);
    // Ascending: no evidence first, then oldest read, then newest.
    assert_eq!(
        names(&corpus(), &view),
        vec!["leftover-lib", "aur-hog", "busy-lib", "daily-driver"]
    );
}

#[test]
fn the_orphan_toggle_needs_both_conditions() {
    let mut view = View::default();
    view.toggle(Toggle::Orphans);
    // busy-lib is a dependency but two packages need it.
    assert_eq!(names(&corpus(), &view), vec!["leftover-lib"]);
}

#[test]
fn toggles_compose_with_and() {
    let mut view = View::default();
    view.toggle(Toggle::Foreign);
    view.toggle(Toggle::NeverUsed);
    assert_eq!(names(&corpus(), &view), vec!["aur-hog"]);

    view.toggle(Toggle::Orphans);
    assert!(names(&corpus(), &view).is_empty());
}

#[test]
fn the_stale_toggle_respects_the_window() {
    let mut view = View {
        stale_days: 5,
        ..View::default()
    };
    view.toggle(Toggle::Stale);
    assert_eq!(names(&corpus(), &view), vec!["aur-hog", "busy-lib"]);

    view.stale_days = 365;
    assert_eq!(names(&corpus(), &view), vec!["aur-hog"]);
}

#[test]
fn the_query_matches_names_case_insensitively() {
    let mut view = View::default();
    "HOG".clone_into(&mut view.query);
    assert_eq!(names(&corpus(), &view), vec!["aur-hog"]);

    "-lib".clone_into(&mut view.query);
    assert_eq!(names(&corpus(), &view), vec!["leftover-lib", "busy-lib"]);

    "nothing-matches".clone_into(&mut view.query);
    assert!(names(&corpus(), &view).is_empty());
}

#[test]
fn descriptions_are_searched_only_when_asked_for() {
    let mut view = View::default();
    // Every fixture description is "the <name> package", so a query that
    // only appears in descriptions must find nothing by default.
    "package".clone_into(&mut view.query);
    assert!(names(&corpus(), &view).is_empty());

    assert!(view.toggle_descriptions());
    assert_eq!(names(&corpus(), &view).len(), 4);
    assert_eq!(view.search_scope(), "name+description");

    assert!(!view.toggle_descriptions());
    assert!(names(&corpus(), &view).is_empty());
    assert_eq!(view.search_scope(), "name");
}

#[test]
fn protected_packages_can_be_hidden() {
    let mut entries = corpus();
    if let Some(first) = entries.get_mut(0) {
        first.facts.protected = true;
    }
    let view = View {
        hide_protected: true,
        ..View::default()
    };
    assert!(!names(&entries, &view).contains(&"aur-hog".to_owned()));
}

#[test]
fn ties_are_broken_by_name_so_the_order_is_stable() {
    let entries = vec![
        entry(
            "zzz",
            100,
            InstallReason::Explicit,
            Origin::Unknown,
            UsageEvidence::NotProbed,
            &[],
        ),
        entry(
            "aaa",
            100,
            InstallReason::Explicit,
            Origin::Unknown,
            UsageEvidence::NotProbed,
            &[],
        ),
    ];
    assert_eq!(names(&entries, &View::default()), vec!["aaa", "zzz"]);
}

#[test]
fn an_unfiltered_view_reports_itself_as_such() {
    let mut view = View::default();
    assert!(view.is_unfiltered());
    view.toggle(Toggle::Orphans);
    assert!(!view.is_unfiltered());
}

#[test]
fn matches_is_consistent_with_order() {
    let entries = corpus();
    let mut view = View::default();
    view.toggle(Toggle::Orphans);
    let ordered = order(&entries, &view, NOW).len();
    let matched = entries
        .iter()
        .filter(|entry| pacpurge::filter::matches(entry, &view, NOW))
        .count();
    assert_eq!(ordered, matched);
}

#[test]
fn the_search_folds_case_beyond_ascii() {
    let mut entries = corpus();
    entries[0].package.name = "Caf\u{c9}".to_owned();
    let view = View { query: "F\u{e9}".to_owned(), ..View::default() };
    assert_eq!(names(&entries, &view), vec!["Caf\u{c9}"]);
}

#[test]
fn the_search_looks_where_it_is_told_to() {
    let narrow = View { query: "TEA".to_owned(), ..View::default() };
    assert!(search_hits(&narrow, "tea", "teapot", ""));
    assert!(!search_hits(&narrow, "tea", "coffee", "tea"));
    let wide = View { query: "TEA".to_owned(), match_descriptions: true, ..View::default() };
    assert!(search_hits(&wide, "tea", "coffee", "some tea"));
    assert!(search_hits(&View::default(), "tea", "coffee", ""));
}

#[test]
fn filters_alone_decide_without_a_query() {
    let entries = corpus();
    let mut view = View::default();
    view.toggle(Toggle::Explicit);
    let passing: Vec<bool> =
        entries.iter().map(|entry| filters_pass(entry, &view, NOW)).collect();
    assert_eq!(passing, vec![true, true, false, false]);
}

#[test]
fn turning_a_toggle_over_twice_changes_nothing() {
    let mut view = View::default();
    view.toggle(Toggle::Stale);
    assert!(view.is_active(Toggle::Stale));
    view.toggle(Toggle::Stale);
    assert_eq!(view, View::default());
}

#[test]
fn columns_cycle_through_all_six() {
    let mut key = SortKey::Name;
    for _step in 0..6 {
        key = key.next();
    }
    assert_eq!(key, SortKey::Name);
    assert_eq!(SortKey::RequiredBy.next(), SortKey::Size);
    assert!(SortKey::Size.defaults_descending());
    assert_eq!(SortKey::Reclaimable.label(), "frees");
}

#[test]
fn reversing_mirrors_the_sizes() {
    let entries = corpus();
    let up = View { descending: false, ..View::default() };
    let sizes = |view: &View| -> Vec<u64> {
        order(&entries, view, NOW).into_iter().map(|i| entries[i].package.size).collect()
    };
    let mut mirrored = sizes(&up);
    mirrored.reverse();
    assert_eq!(mirrored, sizes(&View::default()));
}

#[test]
fn a_query_only_takes_rows_away() {
    let entries = corpus();
    let all = order(&entries, &View::default(), NOW);
    let view = View { query: "lib".to_owned(), ..View::default() };
    let some = order(&entries, &view, NOW);
    assert_eq!(some, vec![2, 3]);
    assert!(some.iter().all(|row| all.contains(row)));
}
