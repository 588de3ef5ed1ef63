//! A whole scan, from what a filesystem would hand back.
use std::collections::BTreeMap;

use pacpurge::capability;
use pacpurge::capability::Stat;
use pacpurge::filter::{SortKey, Toggle, View};
use pacpurge::model::{Inventory, Origin, UsageEvidence};
use pacpurge::report;
use pacpurge::scan;
use pacpurge::scan::{Config, Error, Record, SyncListing};
use pacpurge::targets::{CachedItem, Measurements, ModuleTree};

/// Seconds in a day.
const DAY: i64 = 86_400;

/// When the fixture is scanned.
const NOW: i64 = 1_700_000_000;

/// Timestamp `days` in the past.
fn days_ago(days: u64) -> i64 {
    NOW - DAY * i64::try_from(days).expect("a small number of days")
}

/// A filesystem root, as what would be read back from one.
struct Root {
    /// The package database, or why there is none.
    listing: Result<Vec<Record>, String>,
    /// The fixture behind each record.
    installed: Vec<Fixture>,
    /// What was measured outside the package set.
    measurements: Measurements,
    /// What listing the sync repositories gave.
    sync: SyncListing,
    /// The mount table.
    mounts: &'static str,
}

/// A directory entry.
fn entry(directory: &str, name: &str, is_dir: bool) -> capability::Entry {
    capability::Entry { name: name.to_owned(), path: format!("{directory}/{name}"), is_dir }
}

impl Root {
    /// A root with a database that holds nothing.
    fn empty() -> Root {
        Root {
            listing: Ok(Vec::new()),
            installed: Vec::new(),
            measurements: Measurements {
                cached: Vec::new(),
                has_paccache: false,
                aur_helpers: Vec::new(),
                leftovers: Vec::new(),
                has_pacdiff: false,
                coredumps: None,
                journal: None,
                developer: Vec::new(),
                user_cache: None,
                trash: None,
                modules: Vec::new(),
                has_flatpak: false,
            },
            sync: SyncListing::NoPacman,
            mounts: "/dev/root / ext4 rw,relatime 0 0\n",
        }
    }

    /// A root whose database cannot be listed.
    fn without_database(reason: &str) -> Root {
        Root { listing: Err(reason.to_owned()), ..Root::empty() }
    }

    /// Put a package into the database.
    fn install(&mut self, fixture: &Fixture) {
        let installed_at = days_ago(fixture.installed);
        let depends = fixture.depends.join("\n");
        let desc = format!(
            "%NAME%\n{}\n\n%VERSION%\n{}\n\n%DESC%\nfixture package {}\n\n%SIZE%\n{}\n\n\
             %INSTALLDATE%\n{}\n\n%REASON%\n{}\n\n%DEPENDS%\n{}\n",
            fixture.name,
            fixture.version,
            fixture.name,
            fixture.size,
            installed_at,
            fixture.reason,
            depends
        );
        let directory = format!("{}-{}", fixture.name, fixture.version);
        if let Ok(records) = self.listing.as_mut() {
            records.push(Record {
                entry: entry("/root/var/lib/pacman/local", &directory, true),
                desc: Some(desc),
            });
        }
        self.installed.push(*fixture);
    }

    /// Put an archive into the package cache.
    fn cache(&mut self, name: &str, bytes: u64) {
        let mtime = i64::try_from(self.measurements.cached.len()).expect("few archives");
        self.measurements.cached.push(CachedItem {
            entry: entry("/root/var/cache/pacman/pkg", name, false),
            stat: Some(Stat {
                size: bytes,
                disk_size: bytes,
                atime: 0,
                mtime: NOW - mtime,
                is_dir: false,
                is_symlink: false,
            }),
        });
    }

    /// Put a directory of kernel modules in place.
    fn module_tree(&mut self, path: &str, pkgbase: &str, bytes: u64) {
        self.measurements.modules.push(ModuleTree {
            path: format!("/root/{path}"),
            is_dir: true,
            pkgbase: Some(pkgbase.to_owned()),
            bytes,
        });
    }

    /// Leave a configuration file behind.
    fn leftover(&mut self, path: &str, bytes: u64) {
        self.measurements.leftovers.push((format!("/root/{path}"), bytes));
    }

    /// The file list of a package.
    fn files(&self, name: &str) -> String {
        let fixture = self.fixture(name);
        let listing: String = fixture.files.iter().map(|path| format!("{path}\n")).collect();
        format!("%FILES%\n{listing}")
    }

    /// The fixture of a package.
    fn fixture(&self, name: &str) -> &Fixture {
        self.installed.iter().find(|fixture| fixture.name == name).expect("it is installed")
    }

    /// Scan it, handing back what a filesystem would.
    fn scan(&self) -> Result<Inventory, Error> {
        let config = config();
        let nothing = Vec::new();
        let survey = scan::survey(
            &config,
            &self.listing,
            &self.sync,
            Some(self.mounts),
            &nothing,
            &nothing,
        )?;
        let mut usages = Vec::new();
        for position in &survey.probe_list {
            let package = &survey.packages[*position];
            let fixture = self.fixture(&package.name);
            // Extraction leaves an access time at the install date.
            let read_at = days_ago(fixture.last_read.unwrap_or(fixture.installed));
            let files = self.files(&package.name);
            let probe = scan::plan_probe(package, &files, &survey.index, &config);
            let atimes = probe.witnesses.iter().map(|_witness| Some(read_at)).collect();
            let walks = Vec::new();
            usages.push(scan::probe_package(
                package,
                Some(&probe),
                &atimes,
                &walks,
                survey.atime_support,
            ));
        }
        Ok(scan::scan(&config, survey, usages, &self.measurements, NOW))
    }
}

/// One package of the fixture.
#[derive(Clone, Copy)]
struct Fixture {
    name: &'static str,
    version: &'static str,
    size: u64,
    /// Days ago the package was installed.
    installed: u64,
    /// `1` for a dependency, `0` for an explicit install.
    reason: &'static str,
    depends: &'static [&'static str],
    /// Files the package owns, relative to the root.
    files: &'static [&'static str],
    /// Days ago the package's files were last read, when it was read at all.
    last_read: Option<u64>,
}

/// The packages every test shares.
const PACKAGES: [Fixture; 5] = [
    Fixture {
        name: "daily-editor",
        version: "3.1-1",
        size: 40_000_000,
        installed: 400,
        reason: "0",
        depends: &["shared-lib"],
        files: &["usr/bin/daily-editor"],
        last_read: Some(1),
    },
    Fixture {
        name: "abandoned-toy",
        version: "0.2-1",
        size: 300_000_000,
        installed: 500,
        reason: "0",
        depends: &["lonely-lib"],
        files: &["usr/bin/abandoned-toy", "usr/share/man/man1/toy.1"],
        last_read: None,
    },
    Fixture {
        name: "shared-lib",
        version: "1.0-1",
        size: 5_000_000,
        installed: 400,
        reason: "1",
        depends: &[],
        files: &["usr/lib/libshared.so.1"],
        last_read: Some(2),
    },
    Fixture {
        name: "lonely-lib",
        version: "2.0-1",
        size: 90_000_000,
        installed: 500,
        reason: "1",
        depends: &[],
        files: &["usr/lib/liblonely.so.2"],
        last_read: None,
    },
    Fixture {
        name: "true-orphan",
        version: "1.4-2",
        size: 12_000_000,
        installed: 300,
        reason: "1",
        depends: &[],
        files: &["usr/lib/liborphan.so"],
        last_read: None,
    },
];

/// Build the shared fixture root.
fn build_root() -> Root {
    let mut root = Root::empty();
    for fixture in &PACKAGES {
        root.install(fixture);
    }
    root
}

/// A scan configuration pointed at the fixture root.
fn config() -> Config {
    Config {
        root: "/root".to_owned(),
        db_path: "/root/var/lib/pacman".to_owned(),
        cache_dirs: vec!["/root/var/cache/pacman/pkg".to_owned()],
        home: None,
        ..Config::default()
    }
}

#[test]
fn a_scan_reads_every_package_and_its_relationships() {
    let root = build_root();
    let inventory = root.scan().expect("the scan should succeed");

    assert_eq!(inventory.entries.len(), 5);

    let shared = inventory
        .get("shared-lib")
        .expect("shared-lib is installed");
    assert_eq!(shared.facts.required_by, vec!["daily-editor".to_owned()]);
    assert!(!shared.facts.is_orphan());

    let orphan = inventory
        .get("true-orphan")
        .expect("true-orphan is installed");
    assert!(orphan.facts.is_orphan());
    assert_eq!(orphan.package.size, 12_000_000);
}

#[test]
fn removing_a_package_reports_the_dependency_it_drags_along() {
    let root = build_root();
    let inventory = root.scan().expect("the scan should succeed");

    let toy = inventory
        .get("abandoned-toy")
        .expect("abandoned-toy is installed");
    // Its own 300 MB plus lonely-lib's 90 MB, which nothing else needs.
    assert_eq!(toy.facts.reclaimable, 390_000_000);
    assert_eq!(toy.facts.frees, vec!["lonely-lib".to_owned()]);

    let editor = inventory
        .get("daily-editor")
        .expect("daily-editor is installed");
    // shared-lib is only needed by daily-editor, so it comes too.
    assert_eq!(editor.facts.reclaimable, 45_000_000);
}

#[test]
fn access_times_separate_used_packages_from_forgotten_ones() {
    let root = build_root();
    let inventory = root.scan().expect("the scan should succeed");

    if !inventory.atime_support.is_meaningful() {
        // The build machine mounts noatime; the verdict is correctly withheld.
        return;
    }

    let editor = inventory
        .get("daily-editor")
        .expect("daily-editor is installed");
    match &editor.facts.usage {
        UsageEvidence::Used { at: _, witness } => {
            assert_eq!(witness, "usr/bin/daily-editor");
        }
        other => panic!("expected daily-editor to look used, got {other:?}"),
    }

    let toy = inventory
        .get("abandoned-toy")
        .expect("abandoned-toy is installed");
    assert!(
        toy.facts.usage.is_unused(),
        "expected abandoned-toy to look unused, got {:?}",
        toy.facts.usage
    );
}

#[test]
fn a_manual_page_is_never_taken_as_evidence_of_use() {
    let mut root = Root::empty();
    root.install(
        &Fixture {
            name: "docs-only",
            version: "1-1",
            size: 1_000,
            installed: 100,
            reason: "0",
            depends: &[],
            // The manual page was read yesterday; the binary never was.
            files: &["usr/share/man/man1/docs-only.1"],
            last_read: Some(1),
        },
    );

    let inventory = root.scan().expect("the scan should succeed");
    let entry = inventory.get("docs-only").expect("docs-only is installed");
    assert_eq!(entry.facts.usage, UsageEvidence::NoWitness);
}

#[test]
fn the_package_cache_is_split_into_superseded_and_removed() {
    let mut root = build_root();
    for name in [
        // The installed version, and one older build of it.
        "daily-editor-3.1-1-x86_64.pkg.tar.zst",
        "daily-editor-3.0-1-x86_64.pkg.tar.zst",
        "daily-editor-2.9-1-x86_64.pkg.tar.zst",
        // A package that is not installed at all.
        "long-gone-1.0-1-x86_64.pkg.tar.zst",
    ] {
        root.cache(name, 200_000);
    }

    let inventory = root.scan().expect("the scan should succeed");

    let uninstalled = inventory
        .targets
        .iter()
        .find(|target| target.kind == pacpurge::janitor::Kind::PacmanCacheUninstalled)
        .expect("the uninstalled-archive target should be present");
    assert_eq!(uninstalled.items, 1);

    let superseded = inventory
        .targets
        .iter()
        .find(|target| target.kind == pacpurge::janitor::Kind::PacmanCacheSuperseded)
        .expect("the superseded-archive target should be present");
    // Three builds are cached: the installed one is kept, one rollback is
    // kept, and the oldest is reclaimable.
    assert_eq!(superseded.items, 1);
}

#[test]
fn a_kernel_module_tree_without_its_package_is_reported() {
    let mut root = build_root();
    root.module_tree("usr/lib/modules/6.1.0-old", "linux-old\n", 100_000);

    let inventory = root.scan().expect("the scan should succeed");
    let target = inventory
        .targets
        .iter()
        .find(|target| target.kind == pacpurge::janitor::Kind::StaleKernelModules)
        .expect("the stale-module target should be present");
    assert_eq!(target.items, 1);
}

#[test]
fn pacnew_files_are_found_and_flagged_as_needing_care() {
    let mut root = build_root();
    root.leftover("etc/ssh/sshd_config.pacnew", 13);

    let inventory = root.scan().expect("the scan should succeed");
    let target = inventory
        .targets
        .iter()
        .find(|target| target.kind == pacpurge::janitor::Kind::ConfigLeftovers)
        .expect("the config-leftover target should be present");
    assert_eq!(target.items, 1);
    assert_eq!(target.safety, pacpurge::janitor::Safety::Careful);
}

#[test]
fn a_missing_database_fails_with_an_actionable_message() {
    let root = Root::without_database("No such file or directory");
    let error = root.scan().err().expect("an empty root has no database");
    let message = error.message();
    assert!(message.contains("--root"), "message was: {message}");
}

#[test]
fn without_pacman_the_repository_is_left_unknown_and_said_so() {
    let root = build_root();
    let inventory = root.scan().expect("the scan should succeed");

    // Without `pacman -Sl` the honest answer is that repository membership is
    // unknown.

    let entry = inventory
        .get("daily-editor")
        .expect("daily-editor is installed");
    assert_eq!(entry.facts.origin, Origin::Unknown);
    assert!(
        inventory
            .warnings
            .iter()
            .any(|warning| warning.contains("pacman is not on PATH")),
        "warnings were: {:?}",
        inventory.warnings
    );
}

#[test]
fn the_text_listing_orders_by_what_removal_actually_frees() {
    let root = build_root();
    let inventory = root.scan().expect("the scan should succeed");

    let view = View {
        sort: SortKey::Reclaimable,
        descending: true,
        ..View::default()
    };
    let rendered = report::list(&inventory, &view, 10);
    let first_row = rendered.lines().nth(1).unwrap_or_default();

    // abandoned-toy is not the largest package by installed size once
    // lonely-lib is counted, and sorting by `frees` should surface it first.
    assert!(
        first_row.starts_with("abandoned-toy"),
        "first row was: {first_row}"
    );
}

#[test]
fn the_orphan_filter_finds_exactly_the_orphaned_dependency() {
    let root = build_root();
    let inventory = root.scan().expect("the scan should succeed");

    let mut view = View::default();
    view.toggle(Toggle::Orphans);
    let names: Vec<String> =
        pacpurge::filter::order(&inventory.entries, &view, inventory.scanned_at)
            .into_iter()
            .filter_map(|position| inventory.entries.get(position))
            .map(|entry| entry.package.name.clone())
            .collect();

    assert_eq!(names, vec!["true-orphan".to_owned()]);
}

#[test]
fn every_package_name_resolves_through_the_index() {
    let root = build_root();
    let inventory = root.scan().expect("the scan should succeed");

    let by_name: BTreeMap<&str, u64> = inventory
        .entries
        .iter()
        .map(|entry| (entry.package.name.as_str(), entry.package.size))
        .collect();

    for (name, size) in by_name {
        let entry = inventory.get(name).expect("the index should resolve");
        assert_eq!(entry.package.size, size);
    }
}
