//! What measurements mean.
use pacpurge::capability;
use pacpurge::capability::{Stat, Usage};
use pacpurge::janitor::{Kind, Reclaim, Safety, Target};
use pacpurge::model::{Entry, Facts, InstallReason, Origin, Package, UsageEvidence};
use pacpurge::scan::Config;
use pacpurge::targets::{
    aur_helper, aur_helper_path, aur_helper_targets, cache_targets, cached_archives,
    collect_targets, developer_cache, flatpak_target, home_targets, is_installed,
    kernel_module_targets, package_handoff_targets, places, ranked, stale_tree, system_targets,
    CachedItem, Measurements, ModuleTree, AUR_HELPERS,
    DEVELOPER_CACHES, LEFTOVER_BUDGET,
};

/// Nothing was found anywhere.
fn nothing() -> Measurements {
    Measurements {
        cached: Vec::new(),
        has_paccache: false,
        aur_helpers: Vec::new(),
        leftovers: Vec::new(),
        has_pacdiff: false,
        coredumps: None,
        journal: None,
        developer: Vec::new(),
        user_cache: None,
        trash: None,
        modules: Vec::new(),
        has_flatpak: false,
    }
}

/// A scan of a running system.
fn config() -> Config {
    Config { home: Some("/home/me".to_owned()), ..Config::default() }
}

/// A directory of the given size.
fn used(bytes: u64, files: usize) -> Option<Usage> {
    Some(Usage { bytes, files, truncated: false })
}

/// A package and what is known about it.
fn entry(name: &str, size: u64, reason: InstallReason, usage: UsageEvidence) -> Entry {
    Entry {
        package: Package {
            name: name.to_owned(),
            version: "1-1".to_owned(),
            size,
            reason,
            ..Package::default()
        },
        facts: Facts {
            required_by: Vec::new(),
            optional_for: Vec::new(),
            origin: Origin::Foreign,
            usage,
            reclaimable: size,
            frees: Vec::new(),
            protected: false,
        },
    }
}

/// The packages of some entries.
fn packages(entries: &[Entry]) -> Vec<Package> {
    entries.iter().map(|entry| entry.package.clone()).collect()
}

/// An archive in the package cache.
fn cached(name: &str, bytes: u64, mtime: i64) -> CachedItem {
    CachedItem {
        entry: capability::Entry {
            name: name.to_owned(),
            path: format!("/var/cache/pacman/pkg/{name}"),
            is_dir: false,
        },
        stat: Some(Stat {
            size: 1,
            disk_size: bytes,
            atime: 0,
            mtime,
            is_dir: false,
            is_symlink: false,
        }),
    }
}

#[test]
fn the_cache_counts_disk_space_of_archives_only() {
    let mut directory = cached("dir-1-1-any.pkg.tar.zst", 5, 0);
    directory.entry.is_dir = true;
    let mut unreadable = cached("lost-1-1-any.pkg.tar.zst", 5, 0);
    unreadable.stat = None;
    let items =
        vec![cached("app-2-1-any.pkg.tar.zst", 4_096, 9), directory, unreadable, cached("x", 5, 0)];
    let archives = cached_archives(&items);
    assert_eq!(archives.len(), 1);
    assert_eq!(archives[0].name, "app");
    assert_eq!(archives[0].version, "2-1");
    assert_eq!((archives[0].bytes, archives[0].mtime), (4_096, 9));
}

#[test]
fn without_paccache_the_archives_themselves_are_named() {
    let entries = vec![entry("app", 1, InstallReason::Explicit, UsageEvidence::NotProbed)];
    let mut m = nothing();
    assert!(cache_targets(&entries, &config(), &m).is_empty());

    m.cached = vec![
        cached("app-1-1-any.pkg.tar.zst", 100, 1),
        cached("gone-1-1-any.pkg.tar.zst", 50, 2),
    ];
    let targets = cache_targets(&entries, &config(), &m);
    assert_eq!(targets.len(), 2);
    assert_eq!(targets[0].kind, Kind::PacmanCacheUninstalled);
    assert_eq!(targets[0].bytes, Some(50));
    assert_eq!(targets[0].location, "/var/cache/pacman/pkg");
    assert_eq!(
        targets[0].reclaim,
        Reclaim::Paths {
            paths: vec!["/var/cache/pacman/pkg/gone-1-1-any.pkg.tar.zst".to_owned()],
            needs_root: true,
        }
    );
    assert_eq!(targets[1].items, 0);

    m.has_paccache = true;
    match &cache_targets(&entries, &config(), &m)[1].reclaim {
        Reclaim::Run { command } => assert_eq!(command.to_shell(), "sudo paccache -r -k1"),
        other => panic!("expected a command, got {other:?}"),
    }
}

#[test]
fn package_findings_are_handed_to_the_packages_tab() {
    let never = UsageEvidence::NeverSinceInstall { at: 0 };
    let mut guarded = entry("guarded", 7, InstallReason::Dependency, UsageEvidence::NotProbed);
    guarded.facts.protected = true;
    let entries = vec![
        entry("left", 10, InstallReason::Dependency, UsageEvidence::NotProbed),
        entry("toy", 20, InstallReason::Explicit, never),
        entry("toy-debug", 40, InstallReason::Explicit, UsageEvidence::NotProbed),
        guarded,
    ];
    let targets = package_handoff_targets(&entries);
    let found: Vec<(Kind, Option<u64>, usize)> =
        targets.iter().map(|target| (target.kind, target.bytes, target.items)).collect();
    assert_eq!(
        found,
        vec![
            (Kind::Orphans, Some(10), 1),
            (Kind::UnusedForeign, Some(20), 1),
            (Kind::DebugPackages, Some(40), 1),
        ]
    );
}

#[test]
fn helper_caches_are_measured_only_at_home() {
    let mut m = nothing();
    m.aur_helpers = vec![used(900, 3), used(0, 0), None, None, None, used(5, 1)];
    assert_eq!(AUR_HELPERS, 6);
    assert_eq!(aur_helper(1), "paru");
    assert_eq!(aur_helper_path("/home/me", "yay"), "/home/me/.cache/yay");
    let targets = aur_helper_targets(&config(), &m);
    assert_eq!(targets.len(), 2);
    assert_eq!(targets[0].title, "yay build cache");
    assert_eq!(targets[0].location, "/home/me/.cache/yay");
    assert_eq!(targets[1].title, "makepkg build cache");
    assert!(aur_helper_targets(&Config::default(), &m).is_empty());
    let quick = Config { measure_directories: false, ..config() };
    assert!(aur_helper_targets(&quick, &m).is_empty());
}

#[test]
fn leftovers_are_found_even_in_a_quick_scan() {
    let mut m = nothing();
    m.leftovers = vec![("/etc/a.pacnew".to_owned(), 512), ("/etc/b.pacsave".to_owned(), 1_024)];
    m.coredumps = used(10, 1);
    m.journal = used(20, 2);
    let quick = Config { measure_directories: false, ..config() };
    let targets = system_targets(&quick, &m);
    assert_eq!(targets.len(), 1);
    assert_eq!(targets[0].bytes, Some(1_536));
    assert_eq!(targets[0].safety, Safety::Careful);
    assert_eq!(
        targets[0].reclaim,
        Reclaim::Advice {
            text: "install pacman-contrib and run `sudo pacdiff` to review each file".to_owned()
        }
    );

    m.has_pacdiff = true;
    let targets = system_targets(&config(), &m);
    let kinds: Vec<Kind> = targets.iter().map(|target| target.kind).collect();
    assert_eq!(kinds, vec![Kind::ConfigLeftovers, Kind::Coredumps, Kind::Journal]);
    assert_eq!(targets[2].location, "/var/log/journal");
    match &targets[2].reclaim {
        Reclaim::Run { command } => {
            assert_eq!(command.to_shell(), "sudo journalctl --vacuum-size=256M");
        }
        other => panic!("expected a command, got {other:?}"),
    }
}

#[test]
fn toolchain_caches_are_one_target() {
    let mut m = nothing();
    m.developer = vec![used(100, 2), used(0, 0), None, used(50, 1)];
    m.user_cache = used(7, 1);
    m.trash = used(8, 1);
    assert_eq!(DEVELOPER_CACHES, 8);
    assert_eq!(developer_cache(0), (".cargo/registry", "Rust crate sources and downloads"));
    let targets = home_targets(&config(), &m);
    assert_eq!(targets.len(), 3);
    assert_eq!(targets[0].bytes, Some(150));
    assert_eq!(targets[0].items, 3);
    assert_eq!(targets[0].location, "Rust crate sources and downloads, Go module cache");
    assert_eq!(
        targets[0].reclaim,
        Reclaim::Paths {
            paths: vec!["/home/me/.cargo/registry".to_owned(), "/home/me/go/pkg/mod".to_owned()],
            needs_root: false,
        }
    );
    assert_eq!(
        targets[2].reclaim,
        Reclaim::Paths {
            paths: vec![
                "/home/me/.local/share/Trash/files".to_owned(),
                "/home/me/.local/share/Trash/info".to_owned(),
            ],
            needs_root: false,
        }
    );
}

#[test]
fn a_module_tree_without_pkgbase_is_left_alone_and_said_so() {
    let tree = |path: &str, pkgbase: Option<&str>| ModuleTree {
        path: path.to_owned(),
        is_dir: true,
        pkgbase: pkgbase.map(|name| name.to_owned()),
        bytes: 100,
    };
    let installed = packages(&[entry("linux", 1, InstallReason::Explicit, UsageEvidence::NotProbed)]);
    assert!(is_installed(&installed, "linux"));
    assert!(!is_installed(&installed, "linux-lts"));
    assert!(stale_tree(&installed, &tree("/m/old", Some(" linux-lts\n"))));
    assert!(!stale_tree(&installed, &tree("/m/new", Some("linux\n"))));

    let mut m = nothing();
    m.modules = vec![
        tree("/m/new", Some("linux\n")),
        tree("/m/odd", None),
        tree("/m/old", Some("linux-lts\n")),
    ];
    let mut warnings = Vec::new();
    let targets = kernel_module_targets(&installed, &config(), &m, &mut warnings);
    assert_eq!(targets.len(), 1);
    assert_eq!(targets[0].bytes, Some(100));
    assert_eq!(
        targets[0].reclaim,
        Reclaim::Paths { paths: vec!["/m/old".to_owned()], needs_root: true }
    );
    assert_eq!(
        warnings,
        vec![
            "/m/odd has no pkgbase file; check by hand whether it belongs to an installed kernel"
                .to_owned()
        ]
    );
}

#[test]
fn flatpak_makes_no_claim_on_size() {
    let mut m = nothing();
    assert!(flatpak_target(&m).is_empty());
    m.has_flatpak = true;
    let targets = flatpak_target(&m);
    assert_eq!(targets[0].bytes, None);
    assert_eq!(targets[0].known_bytes(), 0);
}

#[test]
fn targets_are_ranked_by_size_and_empty_ones_dropped() {
    let mut m = nothing();
    m.has_flatpak = true;
    m.journal = used(10, 1);
    m.coredumps = used(500, 3);
    m.trash = used(0, 0);
    let entries = vec![entry("app", 1, InstallReason::Explicit, UsageEvidence::NotProbed)];
    let mut warnings = Vec::new();
    let targets = collect_targets(&entries, &packages(&entries), &config(), &m, &mut warnings);
    let kinds: Vec<Kind> = targets.iter().map(|target| target.kind).collect();
    assert_eq!(kinds, vec![Kind::Coredumps, Kind::Journal, Kind::FlatpakUnused]);
    assert!(warnings.is_empty());
}

#[test]
fn equal_sizes_are_ranked_by_title() {
    let target = |title: &str, bytes: Option<u64>| Target {
        kind: Kind::Trash,
        title: title.to_owned(),
        location: String::new(),
        detail: String::new(),
        bytes,
        items: 1,
        safety: Safety::Safe,
        reclaim: Reclaim::Advice { text: String::new() },
    };
    let titles: Vec<String> =
        ranked(vec![target("b", Some(1)), target("c", Some(2)), target("a", Some(1))])
            .into_iter()
            .map(|target| target.title)
            .collect();
    assert_eq!(titles, vec!["c".to_owned(), "a".to_owned(), "b".to_owned()]);
}

#[test]
fn a_quick_scan_measures_nothing_that_costs_time() {
    let all = places(&config());
    assert_eq!(all.leftovers, "/etc");
    assert_eq!(all.endings, [".pacnew", ".pacsave", ".pacorig"]);
    assert_eq!(all.modules, "/usr/lib/modules");
    assert_eq!(all.coredumps.as_deref(), Some("/var/lib/systemd/coredump"));
    assert_eq!(all.journal.as_deref(), Some("/var/log/journal"));
    assert_eq!(all.aur_helpers.len(), AUR_HELPERS);
    assert_eq!(all.aur_helpers[0], "/home/me/.cache/yay");
    assert_eq!(all.developer.len(), DEVELOPER_CACHES);
    assert_eq!(all.developer[3], "/home/me/go/pkg/mod");
    assert_eq!(all.user_cache.as_deref(), Some("/home/me/.cache"));
    assert_eq!(all.trash.as_deref(), Some("/home/me/.local/share/Trash"));
    assert_eq!(LEFTOVER_BUDGET, 200_000);

    let quick = places(&Config { measure_directories: false, ..config() });
    assert_eq!(quick.leftovers, "/etc");
    assert!(quick.coredumps.is_none() && quick.journal.is_none());
    assert!(quick.aur_helpers.is_empty() && quick.developer.is_empty());
    assert!(quick.user_cache.is_none() && quick.trash.is_none());

    let elsewhere = places(&Config { root: "/mnt".to_owned(), ..Config::default() });
    assert_eq!(elsewhere.journal.as_deref(), Some("/mnt/var/log/journal"));
    assert!(elsewhere.aur_helpers.is_empty() && elsewhere.trash.is_none());
}
