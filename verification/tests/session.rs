//! What a run decides before it touches the system.
use pacpurge::cli::parse;
use pacpurge::janitor::Command;
use pacpurge::plan::Step;
use pacpurge::session::{
    dry_run_status, finished_status, perform, scan_config, view_for, with_privilege, Performance,
};

/// Owned copies.
fn owned(items: &[&str]) -> Vec<String> {
    items.iter().map(|item| (*item).to_owned()).collect()
}

#[test]
fn options_reach_the_scan() {
    let options = parse(&owned(&["--top", "7", "--quick", "--no-usage", "--stale-days", "30"]));
    let options = options.unwrap();
    let config = scan_config(&options, Some("/home/me".to_owned()), None);
    assert_eq!(config.probe_top, 7);
    assert!(!config.measure_directories);
    assert!(!config.probe_usage);
    assert_eq!(config.db_path, "/var/lib/pacman");
    assert_eq!(config.home, Some("/home/me".to_owned()));
    let view = view_for(&options);
    assert_eq!(view.stale_days, 30);
    assert!(view.is_unfiltered());
}

#[test]
fn an_explicit_database_wins_over_the_configured_one() {
    let options = parse(&owned(&["--root", "/mnt", "--db-path", "/elsewhere"])).unwrap();
    let conf = "[options]\nDBPath = /var/db/\nCacheDir = /one /two\n";
    let config = scan_config(&options, Some("/home/me".to_owned()), Some(conf));
    assert_eq!(config.db_path, "/elsewhere");
    assert_eq!(config.cache_dirs, owned(&["/mnt/one", "/mnt/two"]));
    // Another root has no home of this user.
    assert_eq!(config.home, None);
}

#[test]
fn root_is_asked_for_only_where_it_is_needed() {
    let args = owned(&["-Rns", "app"]);
    assert_eq!(
        with_privilege("pacman", &args, true, 1000),
        ("sudo".to_owned(), owned(&["pacman", "-Rns", "app"]))
    );
    assert_eq!(with_privilege("pacman", &args, true, 0), ("pacman".to_owned(), args.clone()));
    assert_eq!(with_privilege("pacman", &args, false, 1000), ("pacman".to_owned(), args.clone()));
}

#[test]
fn root_owned_paths_go_to_one_sudo() {
    let step = Step::Delete { paths: owned(&["/a", "/b"]), needs_root: true };
    assert_eq!(
        perform(&step, 1000),
        Performance::Run { program: "sudo".to_owned(), args: owned(&["rm", "-rf", "/a", "/b"]) }
    );
    assert_eq!(perform(&step, 0), Performance::Remove { paths: owned(&["/a", "/b"]) });
    let own = Step::Delete { paths: owned(&["/a"]), needs_root: false };
    assert_eq!(perform(&own, 1000), Performance::Remove { paths: owned(&["/a"]) });
    let run = Step::Run { command: Command::new("paccache", &["-r"], true) };
    assert_eq!(
        perform(&run, 1000),
        Performance::Run { program: "sudo".to_owned(), args: owned(&["paccache", "-r"]) }
    );
}

#[test]
fn the_status_says_what_happened() {
    assert_eq!(
        dry_run_status("sudo pacman -Rns a\nsudo rm -rf /b"),
        "dry run \u{2014} would have run: sudo pacman -Rns a; sudo rm -rf /b"
    );
    assert_eq!(finished_status(0), "done \u{2014} rescanned");
    assert_eq!(finished_status(2), "2 step(s) did not complete; rescanned anyway");
}
