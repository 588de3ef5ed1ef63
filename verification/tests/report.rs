//! The printed reports.
use pacpurge::filter::View;
use pacpurge::janitor::{Kind, Reclaim, Safety, Target};
use pacpurge::model::{AtimeSupport, Entry, Facts, InstallReason, Inventory, Origin, Package, UsageEvidence};
use pacpurge::report::{clean, diagnose, list, summarise, usage_cell};
use pacpurge::textmap::TextMap;

/// The positions of entries, by name.
fn index_of(entries: &[Entry]) -> TextMap<usize> {
    let mut index = TextMap::new();
    for (position, entry) in entries.iter().enumerate() {
        index.insert(&entry.package.name, position);
    }
    index
}


fn inventory() -> Inventory {
    let entries = vec![
        Entry {
            package: Package {
                name: "big-unused".to_owned(),
                version: "1-1".to_owned(),
                size: 1_048_576,
                reason: InstallReason::Dependency,
                install_date: Some(0),
                ..Package::default()
            },
            facts: Facts {
                required_by: Vec::new(),
                optional_for: Vec::new(),
                origin: Origin::Foreign,
                usage: UsageEvidence::NeverSinceInstall { at: 0 },
                reclaimable: 1_048_576,
                frees: Vec::new(),
                protected: false,
            },
        },
        Entry {
            package: Package {
                name: "small-used".to_owned(),
                version: "1-1".to_owned(),
                size: 1_024,
                reason: InstallReason::Explicit,
                install_date: Some(0),
                ..Package::default()
            },
            facts: Facts {
                required_by: Vec::new(),
                optional_for: Vec::new(),
                origin: Origin::Repository("extra".to_owned()),
                usage: UsageEvidence::Used {
                    at: 86_400,
                    witness: "usr/bin/small".to_owned(),
                },
                reclaimable: 1_024,
                frees: Vec::new(),
                protected: false,
            },
        },
    ];

    Inventory {
        index: index_of(&entries),
        entries,
        targets: vec![Target {
            kind: Kind::PacmanCacheSuperseded,
            title: "Superseded versions".to_owned(),
            location: "/var/cache/pacman/pkg".to_owned(),
            detail: "old builds".to_owned(),
            bytes: Some(2_097_152),
            items: 4,
            safety: Safety::Safe,
            reclaim: Reclaim::Advice {
                text: "run paccache".to_owned(),
            },
        }],
        atime_support: AtimeSupport::Relatime,
        scanned_at: 172_800,
        probed: 2,
        warnings: vec!["something was odd".to_owned()],
    }
}

#[test]
fn the_summary_counts_each_category() {
    let summary = summarise(&inventory());
    assert_eq!(summary.packages, 2);
    assert_eq!(summary.installed_bytes, 1_049_600);
    assert_eq!(summary.orphans, 1);
    assert_eq!(summary.orphan_bytes, 1_048_576);
    assert_eq!(summary.foreign, 1);
    assert_eq!(summary.never_used, 1);
    assert_eq!(summary.target_bytes, 2_097_152);
}

#[test]
fn the_list_puts_the_biggest_first_and_labels_unused_packages() {
    let rendered = list(&inventory(), &View::default(), 10);
    let mut lines = rendered.lines();
    assert!(lines.next().unwrap_or_default().starts_with("PACKAGE"));
    let first = lines.next().unwrap_or_default();
    assert!(first.starts_with("big-unused"), "got: {first}");
    assert!(first.contains("1.0 MiB"), "got: {first}");
    assert!(first.contains("never"), "got: {first}");
    assert!(rendered.contains("2 of 2 packages shown"));
}

#[test]
fn the_list_respects_its_limit() {
    let rendered = list(&inventory(), &View::default(), 1);
    assert!(rendered.contains("1 of 2 packages shown"));
    assert!(!rendered.contains("small-used"));
}

#[test]
fn a_noatime_system_says_so_in_the_list() {
    let mut inventory = inventory();
    inventory.atime_support = AtimeSupport::Disabled;
    assert!(list(&inventory, &View::default(), 10).contains("noatime"));
}

#[test]
fn the_clean_report_totals_and_carries_warnings() {
    let rendered = clean(&inventory());
    assert!(rendered.contains("Superseded versions"));
    assert!(rendered.contains("2.0 MiB"));
    assert!(rendered.contains("hint: run paccache"));
    assert!(rendered.contains("warning: something was odd"));
}


#[test]
fn a_row_of_the_list_is_laid_out_in_columns() {
    let rendered = list(&inventory(), &View::default(), 10);
    let lines: Vec<&str> = rendered.lines().collect();
    assert_eq!(
        lines[1],
        "big-unused                          1.0 MiB    1.0 MiB      never         2d dep       aur/local"
    );
    assert_eq!(lines[4], "2 of 2 packages shown; 1.0 MiB installed in total");
}

#[test]
fn every_kind_of_evidence_has_its_word() {
    let day = 86_400;
    let at = 3 * day;
    let witness = "x".to_owned();
    let used = UsageEvidence::Used { at, witness: witness.clone() };
    assert_eq!(usage_cell(&used, 10 * day), "7d");
    let home = UsageEvidence::UsedFromHome { at, witness };
    assert_eq!(usage_cell(&home, 10 * day), "~7d");
    assert_eq!(usage_cell(&UsageEvidence::NeverSinceInstall { at }, 0), "never");
    assert_eq!(usage_cell(&UsageEvidence::NoWitness, 0), "n/a");
    assert_eq!(usage_cell(&UsageEvidence::AtimeDisabled, 0), "off");
    assert_eq!(usage_cell(&UsageEvidence::NotProbed, 0), "-");
}

#[test]
fn the_clean_report_is_laid_out_line_by_line() {
    assert_eq!(
        clean(&inventory()),
        "   2.0 MiB  safe     Superseded versions\n            /var/cache/pacman/pkg\n            \
         hint: run paccache\n\n2.0 MiB reclaimable across 1 targets\n\
         warning: something was odd\n"
    );
}

#[test]
fn the_diagnosis_accounts_for_every_package() {
    let rendered = diagnose(&inventory());
    assert!(rendered.starts_with("LAST-USE DIAGNOSIS\n\n  access times     Relatime\n"));
    assert!(rendered.contains("  packages         2\n  probed           2\n\n"));
    // The labels come in alphabetical order.
    assert!(
        rendered.contains(
            "  WHERE EACH VERDICT CAME FROM\n       1     1.0 KiB  dated from a file's access time\n       1     1.0 MiB  not read since it was installed\n"
        ),
        "{rendered}"
    );
    assert!(
        rendered.contains("  small-used                     1d  access time  /usr/bin/small\n"),
        "{rendered}"
    );
    assert!(!rendered.contains("WHY THE COLUMN"));
    assert!(rendered.ends_with("\n  warning: something was odd\n"));
}

#[test]
fn the_diagnosis_explains_a_frozen_mount() {
    let mut inventory = inventory();
    inventory.atime_support = AtimeSupport::Disabled;
    assert!(diagnose(&inventory).contains("sudo mount -o remount,relatime /"));
}
