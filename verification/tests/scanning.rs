//! The pieces of a scan.
use pacpurge::capability;
use pacpurge::capability::Output;
use pacpurge::graph::Graph;
use pacpurge::model::{AtimeSupport, InstallReason, Origin, Package, UsageEvidence};
use pacpurge::scan::{
    choose_probe_targets, detect_atime_support, home_activity, home_directories, home_index,
    plan_probe, probe_package, read_database, resolve_origins, scan, survey, Config, Error, Record,
    SyncListing,
};
use pacpurge::targets::Measurements;
use pacpurge::textmap::TextMap;

/// A directory entry.
fn entry(directory: &str, name: &str, is_dir: bool) -> capability::Entry {
    capability::Entry { name: name.to_owned(), path: format!("{directory}/{name}"), is_dir }
}

/// A database record.
fn record(name: &str, desc: Option<&str>) -> Record {
    Record { entry: entry("/db/local", name, true), desc: desc.map(|text| text.to_owned()) }
}

/// A package.
fn package(name: &str, size: u64, reason: InstallReason) -> Package {
    Package { name: name.to_owned(), size, reason, ..Package::default() }
}

/// Owned copies.
fn owned(items: &[&str]) -> Vec<String> {
    items.iter().map(|item| (*item).to_owned()).collect()
}

/// Nothing was found anywhere.
fn nothing() -> Measurements {
    Measurements {
        cached: Vec::new(),
        has_paccache: false,
        aur_helpers: Vec::new(),
        leftovers: Vec::new(),
        has_pacdiff: false,
        coredumps: None,
        journal: None,
        developer: Vec::new(),
        user_cache: None,
        trash: None,
        modules: Vec::new(),
        has_flatpak: false,
    }
}

#[test]
fn the_database_is_read_sorted_and_bad_entries_are_named() {
    let mut stray = record("ALPM_DB_VERSION", Some("%NAME%\nnever\n"));
    stray.entry.is_dir = false;
    let listing = Ok(vec![
        record("zsh-1-1", Some("%NAME%\nzsh\n")),
        record("bad-1-1", Some("%VERSION%\n1\n")),
        record("unreadable-1-1", None),
        stray,
        record("app-1-1", Some("%NAME%\napp\n")),
    ]);
    let (packages, warnings) = read_database("/db/local", &listing).unwrap();
    let names: Vec<&str> = packages.iter().map(|package| package.name.as_str()).collect();
    assert_eq!(names, vec!["app", "zsh"]);
    assert_eq!(packages[0].db_dir, "/db/local/app-1-1");
    assert_eq!(warnings, owned(&["skipped unreadable database entry bad-1-1"]));
}

#[test]
fn a_database_that_cannot_be_used_is_an_error() {
    let error = read_database("/db/local", &Err("denied".to_owned())).err().unwrap();
    assert_eq!(
        error,
        Error::NoDatabase { path: "/db/local".to_owned(), reason: "denied".to_owned() }
    );
    assert_eq!(
        error.message(),
        "cannot read the pacman database at /db/local: denied\npacpurge needs an Arch-style \
         local database; pass --root to point at one"
    );
    let error = read_database("/db/local", &Ok(Vec::new())).err().unwrap();
    assert_eq!(error, Error::EmptyDatabase { path: "/db/local".to_owned() });
    assert_eq!(error.message(), "no packages found in /db/local; the database looks empty");
}

#[test]
fn what_no_repository_lists_is_foreign() {
    let packages = vec![
        package("bash", 1, InstallReason::Explicit),
        package("yay", 1, InstallReason::Explicit),
    ];
    let ran = SyncListing::Ran(Output {
        code: Some(0),
        stdout: "core bash 5.2-1 [installed]\nodd\nextra vim 9-1\n".to_owned(),
        stderr: String::new(),
    });
    let mut warnings = Vec::new();
    let origins = resolve_origins(&packages, &ran, &mut warnings);
    assert_eq!(origins.get("bash"), Some(&Origin::Repository("core".to_owned())));
    assert_eq!(origins.get("vim"), Some(&Origin::Repository("extra".to_owned())));
    assert_eq!(origins.get("yay"), Some(&Origin::Foreign));
    assert_eq!(origins.get("odd"), None);
    assert!(warnings.is_empty());
}

#[test]
fn a_failed_listing_leaves_origins_open() {
    let packages = vec![package("bash", 1, InstallReason::Explicit)];
    let failed = |stderr: &str| {
        SyncListing::Ran(Output {
            code: Some(1),
            stdout: "core bash 5.2-1\n".to_owned(),
            stderr: stderr.to_owned(),
        })
    };
    let mut warnings = Vec::new();
    assert_eq!(resolve_origins(&packages, &failed("\nno db\nmore\n"), &mut warnings).get("bash"), None);
    resolve_origins(&packages, &failed("  "), &mut warnings);
    resolve_origins(&packages, &SyncListing::Failed("no fork".to_owned()), &mut warnings);
    resolve_origins(&packages, &SyncListing::NoPacman, &mut warnings);
    assert_eq!(
        warnings,
        owned(&[
            "pacman -Sl failed: no db",
            "pacman -Sl failed: no detail",
            "could not run pacman -Sl: no fork",
            "pacman is not on PATH, so repository membership and AUR detection are unavailable",
        ])
    );
}

#[test]
fn the_mount_under_usr_decides() {
    let config = Config { root: "/mnt".to_owned(), ..Config::default() };
    let mounts = "/dev/a / ext4 rw,relatime 0 0\n/dev/b /mnt ext4 rw,noatime 0 0\n";
    assert_eq!(detect_atime_support(&config, Some(mounts)), AtimeSupport::Disabled);
    assert_eq!(detect_atime_support(&Config::default(), Some(mounts)), AtimeSupport::Relatime);
    assert_eq!(detect_atime_support(&config, None), AtimeSupport::Unknown);
}

#[test]
fn a_bounded_probe_keeps_orphans_and_foreign_packages() {
    let packages = vec![
        package("big", 900, InstallReason::Explicit),
        package("mid", 500, InstallReason::Explicit),
        package("orphan", 1, InstallReason::Dependency),
        package("foreign", 2, InstallReason::Explicit),
    ];
    let graph = Graph::build(&packages);
    let mut origins = TextMap::new();
    origins.insert("foreign", Origin::Foreign);
    origins.insert("mid", Origin::Repository("core".to_owned()));
    let bounded = Config { probe_top: 1, ..Config::default() };
    assert_eq!(choose_probe_targets(&packages, &graph, &origins, &bounded), vec![0, 2, 3]);
    let every = Config::default();
    assert_eq!(choose_probe_targets(&packages, &graph, &origins, &every), vec![0, 1, 2, 3]);
}

#[test]
fn extras_of_a_bounded_probe_are_never_left_out() {
    let packages: Vec<Package> = (0..450)
        .map(|i| package(&format!("p{i:03}"), i, InstallReason::Explicit))
        .collect();
    let graph = Graph::build(&packages);
    let mut origins = TextMap::new();
    for package in packages.iter().take(401) {
        origins.insert(&package.name, Origin::Foreign);
    }
    let bounded = Config { probe_top: 1, ..Config::default() };
    let chosen = choose_probe_targets(&packages, &graph, &origins, &bounded);
    // Every foreign package, and the largest one.
    let mut expected: Vec<usize> = (0..401).collect();
    expected.push(449);
    assert_eq!(chosen, expected);
}

#[test]
fn home_state_is_filed_in_lower_case() {
    let states = vec![
        entry("/home/me/.config", "VLC", true),
        entry("/home/me/.config", "user-dirs.dirs", false),
        entry("/home/me/.cache", "vlc", true),
    ];
    let dotted = vec![
        entry("/home/me", ".Vlc", true),
        entry("/home/me", ".config", true),
        entry("/home/me", "Documents", true),
        entry("/home/me", ".", true),
    ];
    let index = home_index(&states, &dotted);
    assert_eq!(
        index.get("vlc"),
        Some(&owned(&["/home/me/.config/VLC", "/home/me/.cache/vlc", "/home/me/.Vlc"]))
    );
    assert_eq!(index.get("VLC"), None);
    assert_eq!(index.get("config"), None);
    assert_eq!(
        home_directories(&owned(&["nothing", "vlc"]), &index).len(),
        3
    );
}

#[test]
fn the_first_of_equal_writes_is_the_witness() {
    let walks = vec![
        None,
        Some((5, "/a".to_owned())),
        Some((9, "/b".to_owned())),
        Some((9, "/c".to_owned())),
    ];
    let activity = home_activity(&walks).unwrap();
    assert_eq!((activity.mtime, activity.path.as_str()), (9, "/b"));
    assert!(home_activity(&vec![None]).is_none());
}

#[test]
fn a_probe_names_witnesses_and_home_directories() {
    let vlc = Package { install_date: Some(1_000), ..package("vlc", 1, InstallReason::Explicit) };
    let index = home_index(&vec![entry("/home/me/.config", "vlc", true)], &Vec::new());
    let files = "%FILES%\nusr/\nusr/bin/vlc\nusr/bin/cvlc\nusr/share/man/man1/vlc.1\n";
    let probe = plan_probe(&vlc, files, &index, &Config::default());
    assert_eq!(probe.witnesses, owned(&["usr/bin/vlc", "usr/bin/cvlc"]));
    assert_eq!(probe.directories, owned(&["/home/me/.config/vlc"]));

    let walks = vec![None];
    assert_eq!(
        probe_package(
            &vlc,
            Some(&probe),
            &vec![None, Some(90_000)],
            &walks,
            AtimeSupport::Relatime
        ),
        UsageEvidence::Used { at: 90_000, witness: "usr/bin/cvlc".to_owned() }
    );
    assert_eq!(
        probe_package(&vlc, None, &Vec::new(), &walks, AtimeSupport::Relatime),
        UsageEvidence::NoWitness
    );
}

#[test]
fn a_frozen_mount_is_warned_about_with_what_was_recovered() {
    let config = Config { home: Some("/home/me".to_owned()), ..Config::default() };
    let listing = Ok(vec![
        record("a-1-1", Some("%NAME%\na\n")),
        record("b-1-1", Some("%NAME%\nb\n%DEPENDS%\na\n")),
    ]);
    let mounts = "/dev/a / ext4 rw,noatime 0 0\n";
    let none = Vec::new();
    let found =
        survey(&config, &listing, &SyncListing::NoPacman, Some(mounts), &none, &none).ok().unwrap();
    assert_eq!(found.atime_support, AtimeSupport::Disabled);
    let usages = vec![
        UsageEvidence::UsedFromHome { at: 5, witness: "/home/me/.a".to_owned() },
        UsageEvidence::AtimeDisabled,
    ];
    let inventory = scan(&config, found, usages, &nothing(), 86_400);
    assert_eq!(inventory.probed, 2);
    assert_eq!(inventory.scanned_at, 86_400);
    assert_eq!(inventory.entries[0].facts.required_by, owned(&["b"]));
    assert_eq!(
        inventory.warnings[1],
        "access times are frozen on the filesystem holding /usr (noatime), so most packages \
         cannot be dated. 1 were dated from what they wrote under your home directory instead. \
         Mounting with relatime would date the rest."
    );
}

#[test]
fn without_probing_nothing_is_judged() {
    let config = Config { probe_usage: false, ..Config::default() };
    let listing = Ok(vec![record("a-1-1", Some("%NAME%\na\n"))]);
    let mounts = "/dev/a / ext4 rw,noatime 0 0\n";
    let none = Vec::new();
    let found =
        survey(&config, &listing, &SyncListing::NoPacman, Some(mounts), &none, &none).ok().unwrap();
    assert_eq!(found.atime_support, AtimeSupport::Unknown);
    let inventory = scan(&config, found, Vec::new(), &nothing(), 0);
    assert_eq!(inventory.probed, 0);
    assert_eq!(inventory.get("a").unwrap().facts.usage, UsageEvidence::NotProbed);
    assert!(inventory.get("b").is_none());
}
