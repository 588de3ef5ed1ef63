//! The command line.
use pacpurge::cli::{number, parse, Error, Mode, Options, HELP};

fn arguments(items: &[&str]) -> Vec<String> {
    items.iter().map(|item| (*item).to_owned()).collect()
}

#[test]
fn no_arguments_means_the_interactive_interface() {
    let options = parse(&[]).unwrap();
    assert_eq!(options.mode, Mode::Interactive);
    assert_eq!(options.root, "/".to_owned());
    assert!(options.probe_usage);
    assert!(!options.dry_run);
}

#[test]
fn modes_are_selected_by_flag() {
    assert_eq!(parse(&arguments(&["--json"])).unwrap().mode, Mode::Json);
    assert_eq!(parse(&arguments(&["--list"])).unwrap().mode, Mode::List);
    assert_eq!(parse(&arguments(&["--clean"])).unwrap().mode, Mode::Clean);
    assert_eq!(parse(&arguments(&["-h"])).unwrap().mode, Mode::Help);
    assert_eq!(parse(&arguments(&["-V"])).unwrap().mode, Mode::Version);
}

#[test]
fn options_taking_values_consume_the_next_argument() {
    let options = parse(&arguments(&[
        "--root",
        "/mnt/arch",
        "--top",
        "50",
        "--stale-days",
        "30",
        "--db-path",
        "/mnt/arch/var/lib/pacman",
    ]))
    .unwrap();
    assert_eq!(options.root, "/mnt/arch".to_owned());
    assert_eq!(options.probe_top, 50);
    assert_eq!(options.stale_days, 30);
    assert_eq!(
        options.db_path,
        Some("/mnt/arch/var/lib/pacman".to_owned())
    );
}

#[test]
fn switches_turn_features_off() {
    let options = parse(&arguments(&["--no-usage", "--quick", "--dry-run"])).unwrap();
    assert!(!options.probe_usage);
    assert!(!options.measure_directories);
    assert!(options.dry_run);
}

#[test]
fn an_unknown_option_is_an_error() {
    assert_eq!(
        parse(&arguments(&["--delete-everything"])),
        Err(Error::Unknown {
            argument: "--delete-everything".to_owned()
        })
    );
}

#[test]
fn a_missing_value_is_an_error() {
    assert_eq!(
        parse(&arguments(&["--root"])),
        Err(Error::MissingValue {
            option: "--root".to_owned()
        })
    );
}

#[test]
fn a_non_numeric_value_is_an_error() {
    assert_eq!(
        parse(&arguments(&["--top", "lots"])),
        Err(Error::BadNumber {
            option: "--top".to_owned(),
            value: "lots".to_owned()
        })
    );
}

#[test]
fn the_help_text_documents_every_option() {
    for option in [
        "--root",
        "--db-path",
        "--top",
        "--stale-days",
        "--no-usage",
        "--quick",
        "--limit",
        "--dry-run",
        "--json",
        "--list",
        "--clean",
        "--diagnose",
    ] {
        assert!(
            HELP.contains(option),
            "help text does not mention {option}"
        );
    }
}

#[test]
fn every_error_says_what_to_do() {
    let message = |items: &[&str]| parse(&arguments(items)).err().unwrap().message();
    assert_eq!(message(&["--bogus"]), "unknown option: --bogus\ntry `pacpurge --help`");
    assert_eq!(message(&["--limit"]), "--limit needs a value");
    assert_eq!(message(&["--stale-days", "x"]), "--stale-days expects a number, got `x`");
    assert_eq!(message(&["--top", "-1"]), "--top expects a number, got `-1`");
}

#[test]
fn numbers_are_read_as_such() {
    assert_eq!(number("--top", "12"), Ok(12));
    assert!(number("--top", "").is_err());
}

#[test]
fn the_last_mode_wins_and_values_may_look_like_options() {
    let options = parse(&arguments(&["--json", "--diagnose", "--root", "--list"])).unwrap();
    assert_eq!(options.mode, Mode::Diagnose);
    assert_eq!(options.root, "--list");
    assert_eq!(parse(&arguments(&["help"])).unwrap().mode, Mode::Help);
    assert_eq!(parse(&arguments(&["--stale-days", "-5"])).unwrap().stale_days, -5);
    assert_eq!(parse(&arguments(&["--limit", "3"])).unwrap().limit, 3);
}

#[test]
fn the_defaults_probe_everything() {
    let options = Options::default();
    assert_eq!(options.probe_top, 0);
    assert_eq!(options.stale_days, 180);
    assert_eq!(options.limit, 40);
    assert!(options.measure_directories);
    assert_eq!(options.db_path, None);
}
