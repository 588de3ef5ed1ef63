//! Removal plans.
use std::collections::BTreeSet;

use pacpurge::janitor::{Command, Kind, Reclaim, Safety, Target};
use pacpurge::model::{AtimeSupport, Entry, Facts, InstallReason, Inventory, Origin, Package, UsageEvidence};
use pacpurge::plan::{build, quote, step_for, widen, Step};
use pacpurge::textmap::TextMap;

/// The positions of entries, by name.
fn index_of(entries: &[Entry]) -> TextMap<usize> {
    let mut index = TextMap::new();
    for (position, entry) in entries.iter().enumerate() {
        index.insert(&entry.package.name, position);
    }
    index
}


fn entry(name: &str, size: u64, reason: InstallReason, depends: &[&str]) -> Entry {
    Entry {
        package: Package {
            name: name.to_owned(),
            version: "1-1".to_owned(),
            size,
            reason,
            depends: depends.iter().map(|item| (*item).to_owned()).collect(),
            ..Package::default()
        },
        facts: Facts {
            required_by: Vec::new(),
            optional_for: Vec::new(),
            origin: Origin::Unknown,
            usage: UsageEvidence::NotProbed,
            reclaimable: size,
            frees: Vec::new(),
            protected: false,
        },
    }
}

fn inventory(entries: Vec<Entry>) -> Inventory {
    let index = index_of(&entries);
    Inventory {
        entries,
        index,
        targets: Vec::new(),
        atime_support: AtimeSupport::Relatime,
        scanned_at: 0,
        probed: 0,
        warnings: Vec::new(),
    }
}

#[test]
fn a_plan_reports_the_cascade_and_its_size() {
    let inventory = inventory(vec![
        entry("app", 100, InstallReason::Explicit, &["lib"]),
        entry("lib", 900, InstallReason::Dependency, &[]),
    ]);
    let mut selection = BTreeSet::new();
    selection.insert(0);

    let plan = build(&inventory, &selection);
    assert_eq!(plan.selected, vec!["app".to_owned()]);
    assert_eq!(plan.cascade, vec!["lib".to_owned()]);
    assert_eq!(plan.bytes, 1_000);
    assert!(plan.broken.is_empty());
    assert!(plan.is_executable());
}

#[test]
fn a_plan_that_breaks_something_is_not_executable() {
    let inventory = inventory(vec![
        entry("app", 100, InstallReason::Explicit, &["lib"]),
        entry("lib", 900, InstallReason::Dependency, &[]),
    ]);
    let mut selection = BTreeSet::new();
    selection.insert(1);

    let plan = build(&inventory, &selection);
    assert_eq!(plan.broken, vec!["app".to_owned()]);
    assert!(!plan.is_executable());
}

#[test]
fn an_empty_selection_is_not_executable() {
    let inventory = inventory(vec![entry("app", 1, InstallReason::Explicit, &[])]);
    let plan = build(&inventory, &BTreeSet::new());
    assert!(!plan.is_executable());
    assert_eq!(plan.bytes, 0);
}

#[test]
fn widening_collects_the_whole_dependant_closure() {
    // start -> mid -> leaf: marking `leaf` strands both of the others.
    let inventory = inventory(vec![
        entry("leaf", 100, InstallReason::Dependency, &[]),
        entry("mid", 200, InstallReason::Dependency, &["leaf"]),
        entry("start", 400, InstallReason::Explicit, &["mid"]),
    ]);
    let mut selection = BTreeSet::new();
    selection.insert(0);

    let widening = widen(&inventory, &selection);
    assert_eq!(widening.names, vec!["mid".to_owned(), "start".to_owned()]);
    assert_eq!(widening.bytes, 700);
    assert!(widening.is_offerable());
}

#[test]
fn accepting_a_widening_produces_an_executable_plan() {
    let inventory = inventory(vec![
        entry("leaf", 100, InstallReason::Dependency, &[]),
        entry("mid", 200, InstallReason::Dependency, &["leaf"]),
        entry("start", 400, InstallReason::Explicit, &["mid"]),
    ]);
    let mut selection = BTreeSet::new();
    selection.insert(0);
    assert!(!build(&inventory, &selection).is_executable());

    selection.extend(widen(&inventory, &selection).positions);
    let plan = build(&inventory, &selection);
    assert!(plan.is_executable());
    assert!(plan.broken.is_empty());
    assert_eq!(plan.bytes, 700);
}

#[test]
fn a_widening_that_reaches_the_base_system_is_not_offered() {
    let mut entries = vec![
        entry("libc", 100, InstallReason::Dependency, &[]),
        entry("base", 200, InstallReason::Explicit, &["libc"]),
    ];
    if let Some(base) = entries.get_mut(1) {
        base.package.groups = vec!["base".to_owned()];
    }
    let inventory = inventory(entries);

    let mut selection = BTreeSet::new();
    selection.insert(0);

    let widening = widen(&inventory, &selection);
    assert_eq!(widening.protected, vec!["base".to_owned()]);
    assert!(!widening.is_offerable());
}

#[test]
fn nothing_to_widen_when_the_selection_strands_no_one() {
    let inventory = inventory(vec![
        entry("app", 100, InstallReason::Explicit, &["lib"]),
        entry("lib", 900, InstallReason::Dependency, &[]),
    ]);
    let mut selection = BTreeSet::new();
    selection.insert(0);

    let widening = widen(&inventory, &selection);
    assert!(widening.positions.is_empty());
    assert!(!widening.is_offerable());
}

#[test]
fn the_command_removes_only_what_was_picked() {
    let inventory = inventory(vec![
        entry("app", 100, InstallReason::Explicit, &["lib"]),
        entry("lib", 900, InstallReason::Dependency, &[]),
    ]);
    let mut selection = BTreeSet::new();
    selection.insert(0);

    let plan = build(&inventory, &selection);
    // `lib` is left to pacman's own `-s`, so the command stays honest
    // about what the user chose.
    assert_eq!(plan.command().to_shell(), "sudo pacman -Rns app");
    assert_eq!(plan.dry_run_command().to_shell(), "pacman -Rns --print app");
}

#[test]
fn delete_steps_render_as_a_shell_line() {
    let step = Step::Delete {
        paths: vec!["/var/cache/pacman/pkg/a.pkg.tar.zst".to_owned()],
        needs_root: true,
    };
    assert_eq!(
        step.to_shell(),
        "sudo rm -rf /var/cache/pacman/pkg/a.pkg.tar.zst"
    );
}

#[test]
fn paths_with_spaces_are_quoted_for_display() {
    assert_eq!(quote("/home/me/a b"), "'/home/me/a b'");
    assert_eq!(quote("/usr/lib/libc.so.6"), "/usr/lib/libc.so.6");
    assert_eq!(quote("it's"), "'it'\\''s'");
}

#[test]
fn every_way_to_reclaim_has_its_step_or_none() {
    let target = |reclaim| Target {
        kind: Kind::Trash,
        title: String::new(),
        location: String::new(),
        detail: String::new(),
        bytes: None,
        items: 1,
        safety: Safety::Safe,
        reclaim,
    };
    let run = target(Reclaim::Run { command: Command::new("flatpak", &["x y"], false) });
    assert_eq!(step_for(&run).unwrap().to_shell(), "flatpak x y");
    let paths = vec!["/a b".to_owned(), "/c".to_owned()];
    let delete = target(Reclaim::Paths { paths: paths.clone(), needs_root: false });
    assert_eq!(step_for(&delete), Some(Step::Delete { paths, needs_root: false }));
    assert_eq!(step_for(&delete).unwrap().to_shell(), "rm -rf '/a b' /c");
    assert_eq!(step_for(&target(Reclaim::Advice { text: String::new() })), None);
    assert_eq!(step_for(&target(Reclaim::Handoff { hint: String::new() })), None);
}

#[test]
fn what_is_removed_is_the_selection_and_its_cascade() {
    let inventory = inventory(vec![
        entry("app", 100, InstallReason::Explicit, &["lib"]),
        entry("lib", 900, InstallReason::Dependency, &[]),
    ]);
    let mut selection = BTreeSet::new();
    selection.insert(0);
    selection.insert(40);
    let plan = build(&inventory, &selection);
    assert_eq!(plan.all_removed(), vec!["app".to_owned(), "lib".to_owned()]);
    assert!(plan.protected.is_empty());
}

#[test]
fn quoting_covers_what_a_shell_would_read() {
    assert_eq!(quote("a$b"), "'a$b'");
    assert_eq!(quote("a-b_c.d/e"), "a-b_c.d/e");
}
