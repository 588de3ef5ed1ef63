//! What can be reclaimed besides packages.
use pacpurge::janitor::{known_total, parse_archive_name, plan_cache, CachedArchive, Command, Kind, Reclaim, Safety, Target};
use pacpurge::textmap::TextMap;

fn archive(name: &str, version: &str, bytes: u64, mtime: i64) -> CachedArchive {
    CachedArchive {
        path: format!("/var/cache/pacman/pkg/{name}-{version}-x86_64.pkg.tar.zst"),
        name: name.to_owned(),
        version: version.to_owned(),
        bytes,
        mtime,
    }
}

#[test]
fn archive_names_split_into_name_and_version() {
    assert_eq!(
        parse_archive_name("ripgrep-14.1.1-1-x86_64.pkg.tar.zst"),
        Some(("ripgrep".to_owned(), "14.1.1-1".to_owned()))
    );
    assert_eq!(
        parse_archive_name("gcc-libs-13.2.1-3-x86_64.pkg.tar.zst"),
        Some(("gcc-libs".to_owned(), "13.2.1-3".to_owned()))
    );
    assert_eq!(
        parse_archive_name("ripgrep-14.1.1-1-x86_64.pkg.tar.zst.sig"),
        Some(("ripgrep".to_owned(), "14.1.1-1".to_owned()))
    );
    assert_eq!(
        parse_archive_name("linux-firmware-20240115.2b0c4b6-1-any.pkg.tar.zst"),
        Some(("linux-firmware".to_owned(), "20240115.2b0c4b6-1".to_owned()))
    );
}

#[test]
fn non_archives_are_left_alone() {
    assert_eq!(parse_archive_name("README"), None);
    assert_eq!(parse_archive_name("something.tar.zst"), None);
}

#[test]
fn archives_of_removed_packages_are_all_reclaimable() {
    let archives = vec![
        archive("gone", "1-1", 500, 10),
        archive("gone", "2-1", 700, 20),
    ];
    let plan = plan_cache(&archives, &TextMap::new(), 3);
    assert_eq!(plan.uninstalled_bytes, 1_200);
    assert_eq!(plan.uninstalled.len(), 2);
    assert!(plan.superseded.is_empty());
}

#[test]
fn the_installed_version_is_always_kept() {
    let archives = vec![
        archive("app", "1-1", 100, 10),
        archive("app", "2-1", 200, 20),
        archive("app", "3-1", 400, 30),
    ];
    let mut installed = TextMap::new();
    installed.insert("app", "1-1".to_owned());

    // keep = 0 means "only the installed version", so 2-1 and 3-1 go even
    // though they are newer on disk.
    let plan = plan_cache(&archives, &installed, 0);
    assert_eq!(plan.superseded_bytes, 600);
    assert!(plan.uninstalled.is_empty());
}

#[test]
fn keep_retains_that_many_extra_versions_newest_first() {
    let archives = vec![
        archive("app", "1-1", 100, 10),
        archive("app", "2-1", 200, 20),
        archive("app", "3-1", 400, 30),
    ];
    let mut installed = TextMap::new();
    installed.insert("app", "3-1".to_owned());

    let plan = plan_cache(&archives, &installed, 1);
    // 3-1 is installed and 2-1 is the one retained version, so only 1-1 goes.
    assert_eq!(plan.superseded_bytes, 100);
}

#[test]
fn commands_render_with_sudo_when_root_is_needed() {
    let command = Command::new("paccache", &["-r", "-k1"], true);
    assert_eq!(command.to_shell(), "sudo paccache -r -k1");
    let user = Command::new("paru", &["-Sc"], false);
    assert_eq!(user.to_shell(), "paru -Sc");
}

#[test]
fn the_installed_archive_is_never_offered() {
    for keep in 0..4 {
        let archives = vec![
            archive("app", "1-1", 100, 10),
            archive("app", "2-1", 200, 20),
            archive("app", "1-1", 100, 30),
        ];
        let mut installed = TextMap::new();
        installed.insert("app", "1-1".to_owned());
        let plan = plan_cache(&archives, &installed, keep);
        assert!(plan.superseded.iter().all(|path| !path.contains("1-1")), "{plan:?}");
    }
}

#[test]
fn names_and_versions_can_be_told_apart_again() {
    for (name, version) in [("a", "1-1"), ("gcc-libs", "1:13.2-4"), ("x-y-z", "0.r12-9")] {
        let file = format!("{name}-{version}-x86_64.pkg.tar.zst");
        assert_eq!(parse_archive_name(&file), Some((name.to_owned(), version.to_owned())));
    }
    assert_eq!(parse_archive_name("a-1-1.pkg.tar.zst"), None);
    assert_eq!(parse_archive_name("foo-1.0-1-any.sig"), None);
    assert_eq!(parse_archive_name("foo-1.0-1-any.tar.zst.sig"), None);
    assert_eq!(
        parse_archive_name("a-1-1-any.pkg.tar"),
        Some(("a".to_owned(), "1-1".to_owned()))
    );
}

#[test]
fn every_kind_and_level_has_its_word() {
    assert_eq!(Kind::PacmanCacheSuperseded.slug(), "pacman-cache-superseded");
    assert_eq!(Kind::FlatpakUnused.slug(), "flatpak-unused");
    assert_eq!(Safety::Safe.label(), "safe");
    assert_eq!(Safety::Review.label(), "review");
    assert_eq!(Safety::Careful.label(), "careful");
}

#[test]
fn totals_stop_at_the_largest_number() {
    let target = |bytes: Option<u64>| Target {
        kind: Kind::Trash,
        title: String::new(),
        location: String::new(),
        detail: String::new(),
        bytes,
        items: 1,
        safety: Safety::Safe,
        reclaim: Reclaim::Advice { text: String::new() },
    };
    assert_eq!(known_total(&vec![target(Some(3)), target(None), target(Some(4))]), 7);
    assert_eq!(known_total(&vec![target(Some(u64::MAX)), target(Some(4))]), u64::MAX);
}

#[test]
fn every_file_of_a_kept_version_is_kept() {
    let at = |path: &str, version: &str, mtime: i64| CachedArchive {
        path: path.to_owned(),
        name: "app".to_owned(),
        version: version.to_owned(),
        bytes: 1,
        mtime,
    };
    let archives = vec![
        at("/c/3.zst", "3-1", 30),
        at("/c/2.zst", "2-1", 20),
        at("/c/2.zst.sig", "2-1", 20),
        at("/c/1.zst", "1-1", 10),
        at("/c/2.old", "2-1", 5),
    ];
    let mut installed = TextMap::new();
    installed.insert("app", "3-1".to_owned());
    let plan = plan_cache(&archives, &installed, 1);
    assert_eq!(plan.superseded, vec!["/c/1.zst".to_owned()]);
    assert_eq!(plan.superseded_bytes, 1);
    let plan = plan_cache(&archives, &installed, 2);
    assert!(plan.superseded.is_empty());
    let plan = plan_cache(&archives, &installed, 0);
    assert_eq!(plan.superseded_bytes, 4);
}
