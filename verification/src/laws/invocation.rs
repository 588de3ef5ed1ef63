//! What the command line asks for.
use vstd::prelude::*;

use crate::cli;
use crate::cli::{ErrorView, Mode, OptionsView};
use crate::number;
use crate::scan;
use crate::session;

verus! {

/// Without arguments the interface opens on the running system, probes every
/// package, measures directories, and is free to run what is confirmed.
pub proof fn nothing_asked_for_means_the_usual()
    ensures
        cli::read(Seq::empty(), OptionsView::usual()) == Ok::<OptionsView, ErrorView>(
            OptionsView {
                mode: Mode::Interactive,
                root: "/"@,
                db_path: None,
                probe_top: 0,
                stale_days: 180,
                probe_usage: true,
                measure_directories: true,
                dry_run: false,
                limit: 40,
            },
        ),
{
}

/// What each switch turns on, and that it leaves everything else to the
/// arguments behind it.
pub proof fn switches_mean_what_they_say(rest: Seq<Seq<char>>, o: OptionsView)
    ensures
        cli::read(seq!["-h"@] + rest, o) == cli::read(rest, OptionsView { mode: Mode::Help, ..o }),
        cli::read(seq!["--help"@] + rest, o) == cli::read(rest, OptionsView { mode: Mode::Help, ..o }),
        cli::read(seq!["-V"@] + rest, o) == cli::read(rest, OptionsView { mode: Mode::Version, ..o }),
        cli::read(seq!["--version"@] + rest, o) == cli::read(rest, OptionsView { mode: Mode::Version, ..o }),
        cli::read(seq!["--json"@] + rest, o) == cli::read(rest, OptionsView { mode: Mode::Json, ..o }),
        cli::read(seq!["--list"@] + rest, o) == cli::read(rest, OptionsView { mode: Mode::List, ..o }),
        cli::read(seq!["--clean"@] + rest, o) == cli::read(rest, OptionsView { mode: Mode::Clean, ..o }),
        cli::read(seq!["--diagnose"@] + rest, o) == cli::read(rest, OptionsView { mode: Mode::Diagnose, ..o }),
        cli::read(seq!["--no-usage"@] + rest, o) == cli::read(rest, OptionsView { probe_usage: false, ..o }),
        cli::read(seq!["--quick"@] + rest, o) == cli::read(rest, OptionsView { measure_directories: false, ..o }),
        cli::read(seq!["--dry-run"@] + rest, o) == cli::read(rest, OptionsView { dry_run: true, ..o }),
{
    lemma_spellings();
    cli::switches_stand_alone("-h"@, rest, o);
    cli::switches_stand_alone("--help"@, rest, o);
    cli::switches_stand_alone("-V"@, rest, o);
    cli::switches_stand_alone("--version"@, rest, o);
    cli::switches_stand_alone("--json"@, rest, o);
    cli::switches_stand_alone("--list"@, rest, o);
    cli::switches_stand_alone("--clean"@, rest, o);
    cli::switches_stand_alone("--diagnose"@, rest, o);
    cli::switches_stand_alone("--no-usage"@, rest, o);
    cli::switches_stand_alone("--quick"@, rest, o);
    cli::switches_stand_alone("--dry-run"@, rest, o);
}

/// The spellings differ.
proof fn lemma_spellings()
    ensures
        "-V"@ != "-h"@ && "-V"@ != "help"@ && "-V"@ != "--help"@,
        "--version"@ != "-h"@ && "--version"@ != "--help"@ && "--version"@ != "help"@,
        "--json"@ != "-h"@ && "--json"@ != "--help"@ && "--json"@ != "help"@ && "--json"@ != "-V"@ && "--json"@ != "--version"@,
        "--list"@ != "-h"@ && "--list"@ != "--help"@ && "--list"@ != "help"@ && "--list"@ != "-V"@ && "--list"@ != "--version"@,
        "--clean"@ != "-h"@ && "--clean"@ != "--help"@ && "--clean"@ != "help"@ && "--clean"@ != "-V"@ && "--clean"@ != "--version"@,
        "--diagnose"@ != "-h"@ && "--diagnose"@ != "--help"@ && "--diagnose"@ != "help"@ && "--diagnose"@ != "-V"@ && "--diagnose"@ != "--version"@,
        "--no-usage"@ != "-h"@ && "--no-usage"@ != "--help"@ && "--no-usage"@ != "help"@ && "--no-usage"@ != "-V"@ && "--no-usage"@ != "--version"@,
        "--quick"@ != "-h"@ && "--quick"@ != "--help"@ && "--quick"@ != "help"@ && "--quick"@ != "-V"@ && "--quick"@ != "--version"@,
        "--dry-run"@ != "-h"@ && "--dry-run"@ != "--help"@ && "--dry-run"@ != "help"@ && "--dry-run"@ != "-V"@ && "--dry-run"@ != "--version"@,
        "--list"@ != "--json"@,
        "--clean"@ != "--json"@ && "--clean"@ != "--list"@,
        "--diagnose"@ != "--json"@ && "--diagnose"@ != "--list"@ && "--diagnose"@ != "--clean"@,
        "--no-usage"@ != "--json"@ && "--no-usage"@ != "--list"@ && "--no-usage"@ != "--clean"@
            && "--no-usage"@ != "--diagnose"@,
        "--quick"@ != "--json"@ && "--quick"@ != "--list"@ && "--quick"@ != "--clean"@ && "--quick"@
            != "--diagnose"@ && "--quick"@ != "--no-usage"@,
        "--dry-run"@ != "--json"@ && "--dry-run"@ != "--list"@ && "--dry-run"@ != "--clean"@
            && "--dry-run"@ != "--diagnose"@ && "--dry-run"@ != "--no-usage"@ && "--dry-run"@
            != "--quick"@,
{
    reveal_strlit("-h");
    reveal_strlit("--help");
    reveal_strlit("help");
    reveal_strlit("-V");
    reveal_strlit("--version");
    reveal_strlit("--json");
    reveal_strlit("--list");
    reveal_strlit("--clean");
    reveal_strlit("--diagnose");
    reveal_strlit("--no-usage");
    reveal_strlit("--quick");
    reveal_strlit("--dry-run");
    assert("-h"@.len() == 2);
    assert("--help"@.len() == 6);
    assert("help"@.len() == 4);
    assert("-V"@.len() == 2);
    assert("--version"@.len() == 9);
    assert("--json"@.len() == 6);
    assert("--list"@.len() == 6);
    assert("--clean"@.len() == 7);
    assert("--diagnose"@.len() == 10);
    assert("--no-usage"@.len() == 10);
    assert("--quick"@.len() == 7);
    assert("--dry-run"@.len() == 9);
    assert("-h"@[1] != "-V"@[1]);
    assert("--help"@[2] != "--json"@[2] && "--help"@[2] != "--list"@[2]);
    assert("--json"@[2] != "--list"@[2]);
    assert("--clean"@[2] != "--quick"@[2]);
    assert("--version"@[2] != "--dry-run"@[2]);
    assert("--diagnose"@[2] != "--no-usage"@[2]);
}

/// Options with a value take the argument behind them, and leave everything
/// else to the arguments behind that.
pub proof fn values_go_to_their_option(
    value: Seq<char>,
    rest: Seq<Seq<char>>,
    o: OptionsView,
    n: nat,
    days: int,
)
    ensures
        cli::read(seq!["--root"@, value] + rest, o) == cli::read(
            rest,
            OptionsView { root: value, ..o },
        ),
        cli::read(seq!["--db-path"@, value] + rest, o) == cli::read(
            rest,
            OptionsView { db_path: Some(value), ..o },
        ),
        number::unsigned(value, usize::MAX as nat) == Some(n) ==> cli::read(
            seq!["--top"@, value] + rest,
            o,
        ) == cli::read(rest, OptionsView { probe_top: n as usize, ..o }),
        number::unsigned(value, usize::MAX as nat) == Some(n) ==> cli::read(
            seq!["--limit"@, value] + rest,
            o,
        ) == cli::read(rest, OptionsView { limit: n as usize, ..o }),
        number::integer(value) == Some(days) ==> cli::read(seq!["--stale-days"@, value] + rest, o)
            == cli::read(rest, OptionsView { stale_days: days as i64, ..o }),
{
    lemma_value_spellings();
    lemma_taken("--root"@, value, rest, o);
    lemma_taken("--db-path"@, value, rest, o);
    lemma_taken("--top"@, value, rest, o);
    lemma_taken("--limit"@, value, rest, o);
    lemma_taken("--stale-days"@, value, rest, o);
}

/// A value that is no number where one is wanted is an error that names both,
/// and so is a value that is missing.
pub proof fn bad_values_are_errors(value: Seq<char>, rest: Seq<Seq<char>>, o: OptionsView)
    ensures
        number::unsigned(value, usize::MAX as nat) is None ==> cli::read(
            seq!["--top"@, value] + rest,
            o,
        ) == Err::<OptionsView, ErrorView>(ErrorView::BadNumber { option: "--top"@, value }),
        number::unsigned(value, usize::MAX as nat) is None ==> cli::read(
            seq!["--limit"@, value] + rest,
            o,
        ) == Err::<OptionsView, ErrorView>(ErrorView::BadNumber { option: "--limit"@, value }),
        number::integer(value) is None ==> cli::read(seq!["--stale-days"@, value] + rest, o)
            == Err::<OptionsView, ErrorView>(
            ErrorView::BadNumber { option: "--stale-days"@, value },
        ),
        cli::read(seq!["--root"@], o) == Err::<OptionsView, ErrorView>(
            ErrorView::MissingValue { option: "--root"@ },
        ),
        cli::read(seq!["--db-path"@], o) == Err::<OptionsView, ErrorView>(
            ErrorView::MissingValue { option: "--db-path"@ },
        ),
        cli::read(seq!["--top"@], o) == Err::<OptionsView, ErrorView>(
            ErrorView::MissingValue { option: "--top"@ },
        ),
        cli::read(seq!["--limit"@], o) == Err::<OptionsView, ErrorView>(
            ErrorView::MissingValue { option: "--limit"@ },
        ),
        cli::read(seq!["--stale-days"@], o) == Err::<OptionsView, ErrorView>(
            ErrorView::MissingValue { option: "--stale-days"@ },
        ),
{
    lemma_value_spellings();
    lemma_taken("--root"@, value, rest, o);
    lemma_taken("--db-path"@, value, rest, o);
    lemma_taken("--top"@, value, rest, o);
    lemma_taken("--limit"@, value, rest, o);
    lemma_taken("--stale-days"@, value, rest, o);
}

proof fn lemma_taken(option: Seq<char>, value: Seq<char>, rest: Seq<Seq<char>>, o: OptionsView)
    requires
        cli::takes_value(option),
        cli::switched(option, o) is None,
    ensures
        cli::read(seq![option], o) == Err::<OptionsView, ErrorView>(
            ErrorView::MissingValue { option },
        ),
        match cli::with_value(option, value, o) {
            Ok(after) => cli::read(seq![option, value] + rest, o) == cli::read(rest, after),
            Err(error) => cli::read(seq![option, value] + rest, o) == Err::<OptionsView, ErrorView>(
                error,
            ),
        },
{
    let all = seq![option, value] + rest;
    assert(all[0] == option && all[1] == value);
    assert(all.skip(2) =~= rest);
}

proof fn lemma_value_spellings()
    ensures
        forall|o: OptionsView, option: Seq<char>|
            option == "--root"@ || option == "--db-path"@ || option == "--top"@ || option
                == "--limit"@ || option == "--stale-days"@ ==> #[trigger] cli::switched(option, o)
                is None && cli::takes_value(option),
        "--db-path"@ != "--root"@,
        "--top"@ != "--root"@ && "--top"@ != "--db-path"@,
        "--limit"@ != "--root"@ && "--limit"@ != "--db-path"@ && "--limit"@ != "--top"@,
        "--stale-days"@ != "--root"@ && "--stale-days"@ != "--db-path"@ && "--stale-days"@
            != "--top"@ && "--stale-days"@ != "--limit"@,
{
    reveal_strlit("-h");
    assert("-h"@.len() == 2);
    reveal_strlit("--help");
    assert("--help"@.len() == 6);
    reveal_strlit("help");
    assert("help"@.len() == 4);
    reveal_strlit("-V");
    assert("-V"@.len() == 2);
    reveal_strlit("--version");
    assert("--version"@.len() == 9);
    reveal_strlit("--json");
    assert("--json"@.len() == 6);
    reveal_strlit("--list");
    assert("--list"@.len() == 6);
    reveal_strlit("--clean");
    assert("--clean"@.len() == 7);
    reveal_strlit("--diagnose");
    assert("--diagnose"@.len() == 10);
    reveal_strlit("--no-usage");
    assert("--no-usage"@.len() == 10);
    reveal_strlit("--quick");
    assert("--quick"@.len() == 7);
    reveal_strlit("--dry-run");
    assert("--dry-run"@.len() == 9);
    reveal_strlit("--root");
    assert("--root"@.len() == 6);
    reveal_strlit("--db-path");
    assert("--db-path"@.len() == 9);
    reveal_strlit("--top");
    assert("--top"@.len() == 5);
    reveal_strlit("--limit");
    assert("--limit"@.len() == 7);
    reveal_strlit("--stale-days");
    assert("--stale-days"@.len() == 12);
    assert("--root"@[2] == 'r' && "--help"@[2] == 'h' && "--json"@[2] == 'j' && "--list"@[3] == 'i');
    assert("--list"@[2] == 'l');
    assert("--db-path"@[3] == 'b' && "--version"@[3] == 'e' && "--dry-run"@[3] == 'r');
    assert("--limit"@[2] == 'l' && "--clean"@[2] == 'c' && "--quick"@[2] == 'q');
}

/// The scan goes by the options: what they set holds, and the path of the
/// database comes before that of the configuration.
pub proof fn scans_go_by_the_options(
    o: OptionsView,
    home: Option<Seq<char>>,
    conf: Option<Seq<char>>,
)
    ensures
        ({
            let config = session::config_from(o, home, conf);
            let found = scan::config_under(o.root, home, conf);
            &&& config.probe_top == o.probe_top
            &&& config.probe_usage == o.probe_usage
            &&& config.measure_directories == o.measure_directories
            &&& config.root == o.root
            &&& o.db_path matches Some(at) ==> config.db_path == at
            &&& o.db_path is None ==> config.db_path == found.db_path
            &&& config.cache_dirs == found.cache_dirs
            &&& config.home == found.home
            &&& config.witness_budget == found.witness_budget
            &&& config.walk_budget == found.walk_budget
            &&& config.home_budget == found.home_budget
        }),
{
}

/// Anything that is no option is an error that names it, wherever it stands.
pub proof fn strangers_are_refused(argument: Seq<char>, rest: Seq<Seq<char>>, o: OptionsView)
    requires
        argument != "-h"@,
        argument != "--help"@,
        argument != "help"@,
        argument != "-V"@,
        argument != "--version"@,
        argument != "--json"@,
        argument != "--list"@,
        argument != "--clean"@,
        argument != "--diagnose"@,
        argument != "--no-usage"@,
        argument != "--quick"@,
        argument != "--dry-run"@,
        argument != "--root"@,
        argument != "--db-path"@,
        argument != "--top"@,
        argument != "--limit"@,
        argument != "--stale-days"@,
    ensures
        cli::read(seq![argument] + rest, o) == Err::<OptionsView, ErrorView>(
            ErrorView::Unknown { argument },
        ),
{
    cli::unknown_options_are_errors(argument, rest, o);
}

} // verus!
