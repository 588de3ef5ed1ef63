//! The pacman configuration.
use pacpurge::scan::{pacman_conf_paths, reanchor, Config};

#[test]
fn pacman_conf_paths_are_read_from_the_options_section() {
    let text = "\
[options]
DBPath = /custom/db/
CacheDir = /custom/cache/ /second/cache/
[core]
DBPath = /ignored/
";
    let (db_path, cache_dirs) = pacman_conf_paths(text, "/");
    assert_eq!(db_path, Some("/custom/db/".to_owned()));
    assert_eq!(
        cache_dirs,
        vec![
            "/custom/cache/".to_owned(),
            "/second/cache/".to_owned()
        ]
    );
}

#[test]
fn pacman_conf_paths_are_reanchored_under_the_scan_root() {
    let text = "[options]\nDBPath = /var/lib/pacman/\n";
    let (db_path, _cache) = pacman_conf_paths(text, "/mnt/other");
    assert_eq!(db_path, Some("/mnt/other/var/lib/pacman/".to_owned()));
}

#[test]
fn comments_and_blank_settings_are_ignored() {
    let text = "[options]\n#DBPath = /wrong/\nDBPath =\nCacheDir = /right/ # trailing\n";
    let (db_path, cache_dirs) = pacman_conf_paths(text, "/");
    assert_eq!(db_path, None);
    assert_eq!(cache_dirs, vec!["/right/".to_owned()]);
}

#[test]
fn the_usual_paths_lie_under_the_root() {
    let config = Config::for_root("/mnt", Some("/home/me".to_owned()), None);
    assert_eq!(config.db_path, "/mnt/var/lib/pacman");
    assert_eq!(config.cache_dirs, vec!["/mnt/var/cache/pacman/pkg".to_owned()]);
    assert_eq!(config.home, None);
    let running = Config::for_root("/", Some("/home/me".to_owned()), Some("[options]\n"));
    assert_eq!(running.db_path, "/var/lib/pacman");
    assert_eq!(running.home, Some("/home/me".to_owned()));
    assert_eq!(running.witness_budget, 24);
    assert_eq!(running.walk_budget, 400_000);
    assert_eq!(running.home_budget, 400);
}

#[test]
fn configured_paths_cannot_leave_the_root() {
    assert_eq!(reanchor("//etc", "/mnt"), "/mnt/etc");
    assert_eq!(reanchor("relative", "/mnt/"), "/mnt/relative");
    let text = "[options]\nDBPath = /a\nDBPath = /b\n[options ]\nCacheDir = /no\n";
    let (db_path, cache_dirs) = pacman_conf_paths(text, "/");
    assert_eq!(db_path, Some("/b".to_owned()));
    assert!(cache_dirs.is_empty());
}
