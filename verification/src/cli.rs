//! Command-line parsing.
//!
//! The option set is small. Unknown options are an error rather than being
//! ignored, because silently doing the wrong thing to a package database is
//! not an acceptable failure mode.
use vstd::prelude::*;

use crate::number;
use crate::number::{parse_i64, parse_usize};
use crate::scan;
use crate::text;
use crate::text::{concat2, concat3, same};

verus! {

/// What the program should do.
#[derive(Clone, Copy, Debug, PartialEq, Eq, Structural)]
pub enum Mode {
    /// Run the interactive terminal interface.
    Interactive,
    /// Print the analysis as one JSON document and exit.
    Json,
    /// Print a plain-text table and exit.
    List,
    /// Print the cleanup targets as plain text and exit.
    Clean,
    /// Explain what the last-use probe can and cannot see, and exit.
    Diagnose,
    /// Print usage and exit.
    Help,
    /// Print the version and exit.
    Version,
}

/// Parsed options.
#[derive(Clone, Debug, PartialEq, Eq)]
pub struct Options {
    /// What to do.
    pub mode: Mode,
    /// Filesystem root to analyse.
    pub root: String,
    /// Pacman database directory, when overridden.
    pub db_path: Option<String>,
    /// How many of the largest packages to probe for access times.
    /// Zero, the default, means all of them.
    pub probe_top: usize,
    /// Days without a read before a package counts as stale.
    pub stale_days: i64,
    /// Whether to probe access times.
    pub probe_usage: bool,
    /// Whether to measure directory sizes, which is the slow part of a scan.
    pub measure_directories: bool,
    /// Never execute anything; print what would run instead.
    pub dry_run: bool,
    /// Rows to print in `--list` mode.
    pub limit: usize,
}

/// The view of [`Options`].
#[verifier::ext_equal]
pub struct OptionsView {
    /// See [`Options::mode`].
    pub mode: Mode,
    /// See [`Options::root`].
    pub root: Seq<char>,
    /// See [`Options::db_path`].
    pub db_path: Option<Seq<char>>,
    /// See [`Options::probe_top`].
    pub probe_top: usize,
    /// See [`Options::stale_days`].
    pub stale_days: i64,
    /// See [`Options::probe_usage`].
    pub probe_usage: bool,
    /// See [`Options::measure_directories`].
    pub measure_directories: bool,
    /// See [`Options::dry_run`].
    pub dry_run: bool,
    /// See [`Options::limit`].
    pub limit: usize,
}

impl View for Options {
    type V = OptionsView;

    open spec fn view(&self) -> OptionsView {
        OptionsView {
            mode: self.mode,
            root: self.root@,
            db_path: scan::optional_text(self.db_path),
            probe_top: self.probe_top,
            stale_days: self.stale_days,
            probe_usage: self.probe_usage,
            measure_directories: self.measure_directories,
            dry_run: self.dry_run,
            limit: self.limit,
        }
    }
}

impl OptionsView {
    /// The options where nothing was asked for.
    pub open spec fn usual() -> OptionsView {
        OptionsView {
            mode: Mode::Interactive,
            root: "/"@,
            db_path: None,
            probe_top: 0,
            stale_days: 180,
            probe_usage: true,
            measure_directories: true,
            dry_run: false,
            limit: 40,
        }
    }
}

impl Default for Options {
    fn default() -> (r: Options)
        ensures
            r@ == OptionsView::usual(),
    {
        Options {
            mode: Mode::Interactive,
            root: "/".to_owned(),
            db_path: None,
            probe_top: 0,
            stale_days: 180,
            probe_usage: true,
            measure_directories: true,
            dry_run: false,
            limit: 40,
        }
    }
}

/// Why the command line could not be understood.
#[derive(Debug, PartialEq, Eq)]
pub enum Error {
    /// An option this program does not have.
    Unknown {
        /// The offending argument.
        argument: String,
    },
    /// An option that needs a value did not get one.
    MissingValue {
        /// The option name.
        option: String,
    },
    /// A value that should have been a number was not.
    BadNumber {
        /// The option name.
        option: String,
        /// What was supplied.
        value: String,
    },
}

/// The view of an [`Error`].
#[verifier::ext_equal]
pub enum ErrorView {
    /// See [`Error::Unknown`].
    Unknown {
        /// The offending argument.
        argument: Seq<char>,
    },
    /// See [`Error::MissingValue`].
    MissingValue {
        /// The option name.
        option: Seq<char>,
    },
    /// See [`Error::BadNumber`].
    BadNumber {
        /// The option name.
        option: Seq<char>,
        /// What was supplied.
        value: Seq<char>,
    },
}

impl View for Error {
    type V = ErrorView;

    open spec fn view(&self) -> ErrorView {
        match *self {
            Error::Unknown { argument } => ErrorView::Unknown { argument: argument@ },
            Error::MissingValue { option } => ErrorView::MissingValue { option: option@ },
            Error::BadNumber { option, value } => ErrorView::BadNumber {
                option: option@,
                value: value@,
            },
        }
    }
}

impl Error {
    /// What to tell the user.
    pub fn message(&self) -> (r: String)
        ensures
            r@ == (match self@ {
                ErrorView::Unknown { argument } => "unknown option: "@ + argument
                    + "\ntry `pacpurge --help`"@,
                ErrorView::MissingValue { option } => option + " needs a value"@,
                ErrorView::BadNumber { option, value } => option + " expects a number, got `"@
                    + value + "`"@,
            }),
    {
        match self {
            Error::Unknown { argument } => concat3(
                "unknown option: ",
                argument.as_str(),
                "\ntry `pacpurge --help`",
            ),
            Error::MissingValue { option } => concat2(option.as_str(), " needs a value"),
            Error::BadNumber { option, value } => {
                let mut out = concat3(option.as_str(), " expects a number, got `", value.as_str());
                out.append("`");
                out
            },
        }
    }
}

/// The text printed by `--help`.
pub const HELP: &'static str = "\
pacpurge — find and reclaim space on an Arch system

USAGE
  pacpurge [OPTIONS]

By default pacpurge opens an interactive table of every installed package,
sorted largest first, annotated with how much removing it would really free
and when its files were last read.

MODES
  (default)          interactive terminal interface
  --list             print the package table and exit
  --clean            print the non-package cleanup targets and exit
  --diagnose         explain what the last-use probe can see on this system:
                     mount options, which evidence each source produced, and
                     what to change if the column is empty
  --json             print the whole analysis as one JSON document and exit
  -h, --help         print this text
  -V, --version      print the version

SCAN OPTIONS
  --root <PATH>      analyse an alternate filesystem root (default: /)
  --db-path <PATH>   pacman database directory (default: from pacman.conf)
  --top <N>          probe access times for only the N largest packages.
                     The default is 0, meaning every package: a full probe of
                     a 2000-package system costs about a third of a second,
                     and a bounded one leaves most of the table blank. When
                     set, AUR packages and orphans are probed regardless of
                     size.
  --stale-days <N>   days without a read before a package counts as stale
                     (default: 180)
  --no-usage         skip access-time probing entirely
  --quick            skip directory size measurement, which is the slow part
  --limit <N>        rows to print in --list mode (default: 40)

SAFETY
  --dry-run          never execute anything; print the commands instead

pacpurge never deletes a package itself. Removals are handed to
`pacman -Rns`, which applies its own dependency checks and its own
confirmation prompt.

SEARCH AND FILTERS
  Inside the interface, `/` filters by package name. `D` widens the search to
  descriptions as well. Filters compose with AND: `a` then `n` lists AUR
  packages that have not been read since they were installed.

LAST-USE DATA
  Package files carry an access time, which Arch updates at most once a day
  under the default `relatime` mount option. That is precise enough to tell
  software you use from software you installed once and forgot.

  Each package is judged by the strongest evidence it ships: its executables,
  or failing that its libraries, or failing that the data it installs. A font
  family or a TeX distribution ships no binary at all, so judging only by
  binaries would leave the biggest packages on the system with no verdict.
  Documentation is excluded: an indexer reading a man page says nothing about
  whether the software is used.

  Where a filesystem is mounted `noatime` the timestamps are frozen, and
  pacpurge disables the column rather than report a number that means nothing.
";

/// The options with a switch set, where the argument is a switch.
pub open spec fn switched(argument: Seq<char>, options: OptionsView) -> Option<OptionsView> {
    if argument == "-h"@ || argument == "--help"@ || argument == "help"@ {
        Some(OptionsView { mode: Mode::Help, ..options })
    } else if argument == "-V"@ || argument == "--version"@ {
        Some(OptionsView { mode: Mode::Version, ..options })
    } else if argument == "--json"@ {
        Some(OptionsView { mode: Mode::Json, ..options })
    } else if argument == "--list"@ {
        Some(OptionsView { mode: Mode::List, ..options })
    } else if argument == "--clean"@ {
        Some(OptionsView { mode: Mode::Clean, ..options })
    } else if argument == "--diagnose"@ {
        Some(OptionsView { mode: Mode::Diagnose, ..options })
    } else if argument == "--no-usage"@ {
        Some(OptionsView { probe_usage: false, ..options })
    } else if argument == "--quick"@ {
        Some(OptionsView { measure_directories: false, ..options })
    } else if argument == "--dry-run"@ {
        Some(OptionsView { dry_run: true, ..options })
    } else {
        None
    }
}

/// Whether an argument is an option that takes the next argument as its value.
pub open spec fn takes_value(argument: Seq<char>) -> bool {
    argument == "--root"@ || argument == "--db-path"@ || argument == "--top"@ || argument
        == "--limit"@ || argument == "--stale-days"@
}

/// The options with the value of one of them set.
pub open spec fn with_value(
    option: Seq<char>,
    value: Seq<char>,
    options: OptionsView,
) -> Result<OptionsView, ErrorView> {
    let bad = ErrorView::BadNumber { option, value };
    let natural = number::unsigned(value, usize::MAX as nat);
    if option == "--root"@ {
        Ok(OptionsView { root: value, ..options })
    } else if option == "--db-path"@ {
        Ok(OptionsView { db_path: Some(value), ..options })
    } else if option == "--top"@ {
        match natural {
            Some(n) => Ok(OptionsView { probe_top: n as usize, ..options }),
            None => Err(bad),
        }
    } else if option == "--limit"@ {
        match natural {
            Some(n) => Ok(OptionsView { limit: n as usize, ..options }),
            None => Err(bad),
        }
    } else {
        match number::integer(value) {
            Some(n) => Ok(OptionsView { stale_days: n as i64, ..options }),
            None => Err(bad),
        }
    }
}

/// What a command line asks for, read from the left: a switch by itself, an
/// option with the argument behind it, and nothing else.
pub open spec fn read(arguments: Seq<Seq<char>>, options: OptionsView) -> Result<
    OptionsView,
    ErrorView,
>
    decreases arguments.len(),
{
    if arguments.len() == 0 {
        Ok(options)
    } else {
        let argument = arguments[0];
        match switched(argument, options) {
            Some(options) => read(arguments.skip(1), options),
            None => if !takes_value(argument) {
                Err(ErrorView::Unknown { argument })
            } else if arguments.len() == 1 {
                Err(ErrorView::MissingValue { option: argument })
            } else {
                match with_value(argument, arguments[1], options) {
                    Ok(options) => read(arguments.skip(2), options),
                    Err(error) => Err(error),
                }
            },
        }
    }
}

/// Sets a switch, where the argument is one.
fn set_switch(argument: &str, options: &mut Options) -> (r: bool)
    ensures
        r == (switched(argument@, old(options)@) is Some),
        r ==> Some(final(options)@) == switched(argument@, old(options)@),
        !r ==> final(options)@ == old(options)@,
{
    if same(argument, "-h") || same(argument, "--help") || same(argument, "help") {
        options.mode = Mode::Help;
    } else if same(argument, "-V") || same(argument, "--version") {
        options.mode = Mode::Version;
    } else if same(argument, "--json") {
        options.mode = Mode::Json;
    } else if same(argument, "--list") {
        options.mode = Mode::List;
    } else if same(argument, "--clean") {
        options.mode = Mode::Clean;
    } else if same(argument, "--diagnose") {
        options.mode = Mode::Diagnose;
    } else if same(argument, "--no-usage") {
        options.probe_usage = false;
    } else if same(argument, "--quick") {
        options.measure_directories = false;
    } else if same(argument, "--dry-run") {
        options.dry_run = true;
    } else {
        return false;
    }
    true
}

/// Parse a `usize` option value.
pub fn number(option: &str, value: &str) -> (r: Result<usize, Error>)
    ensures
        match r {
            Ok(n) => number::unsigned(value@, usize::MAX as nat) == Some(n as nat),
            Err(error) => number::unsigned(value@, usize::MAX as nat) is None && error@ == (
            ErrorView::BadNumber { option: option@, value: value@ }),
        },
{
    match parse_usize(value) {
        Some(n) => Ok(n),
        None => Err(Error::BadNumber { option: option.to_owned(), value: value.to_owned() }),
    }
}

/// Sets the value of an option.
fn set_value(option: &str, value: &str, options: &mut Options) -> (r: Result<(), Error>)
    requires
        takes_value(option@),
    ensures
        match r {
            Ok(_) => with_value(option@, value@, old(options)@) == Ok::<OptionsView, ErrorView>(
                final(options)@,
            ),
            Err(error) => with_value(option@, value@, old(options)@) == Err::<
                OptionsView,
                ErrorView,
            >(error@),
        },
{
    if same(option, "--root") {
        options.root = value.to_owned();
    } else if same(option, "--db-path") {
        options.db_path = Some(value.to_owned());
    } else if same(option, "--top") {
        match number(option, value) {
            Ok(n) => {
                options.probe_top = n;
            },
            Err(error) => {
                return Err(error);
            },
        }
    } else if same(option, "--limit") {
        match number(option, value) {
            Ok(n) => {
                options.limit = n;
            },
            Err(error) => {
                return Err(error);
            },
        }
    } else {
        match parse_i64(value) {
            Some(n) => {
                options.stale_days = n;
            },
            None => {
                return Err(
                    Error::BadNumber { option: option.to_owned(), value: value.to_owned() },
                );
            },
        }
    }
    Ok(())
}

/// Whether an argument is an option that takes a value.
fn wants_value(argument: &str) -> (r: bool)
    ensures
        r == takes_value(argument@),
{
    same(argument, "--root") || same(argument, "--db-path") || same(argument, "--top") || same(
        argument,
        "--limit",
    ) || same(argument, "--stale-days")
}

/// Parse an argument list, excluding the program name.
pub fn parse(arguments: &[String]) -> (r: Result<Options, Error>)
    ensures
        match r {
            Ok(options) => read(text::texts(arguments@), OptionsView::usual()) == Ok::<
                OptionsView,
                ErrorView,
            >(options@),
            Err(error) => read(text::texts(arguments@), OptionsView::usual()) == Err::<
                OptionsView,
                ErrorView,
            >(error@),
        },
{
    let ghost all = text::texts(arguments@);
    let ghost meant = read(all, OptionsView::usual());
    let mut options = Options::default();
    let mut i: usize = 0;
    assert(all.skip(0) =~= all);
    while i < arguments.len()
        invariant
            i <= arguments.len(),
            all == text::texts(arguments@),
            read(all.skip(i as int), options@) == meant,
            meant == read(all, OptionsView::usual()),
        decreases arguments.len() - i,
    {
        let argument = arguments[i].as_str();
        let ghost rest = all.skip(i as int);
        proof {
            assert(rest[0] == argument@);
            assert(rest.skip(1) =~= all.skip(i + 1));
            if i + 1 < arguments.len() {
                assert(rest.skip(2) =~= all.skip(i + 2));
                assert(rest[1] == arguments@[i + 1]@);
            }
        }
        if set_switch(argument, &mut options) {
            i += 1;
            continue ;
        }
        if !wants_value(argument) {
            return Err(Error::Unknown { argument: argument.to_owned() });
        }
        if arguments.len() - i == 1 {
            return Err(Error::MissingValue { option: argument.to_owned() });
        }
        match set_value(argument, arguments[i + 1].as_str(), &mut options) {
            Ok(_) => {},
            Err(error) => {
                return Err(error);
            },
        }
        i += 2;
    }
    assert(all.skip(i as int).len() == 0);
    Ok(options)
}

/// Reading a command line after a switch is reading the rest of it.
pub proof fn switches_stand_alone(
    argument: Seq<char>,
    rest: Seq<Seq<char>>,
    options: OptionsView,
)
    requires
        switched(argument, options) is Some,
    ensures
        read(seq![argument] + rest, options) == read(rest, switched(argument, options).unwrap()),
{
    assert((seq![argument] + rest).skip(1) =~= rest);
}

/// An argument that is neither a switch nor an option is an error, wherever
/// everything before it was understood.
pub proof fn unknown_options_are_errors(
    argument: Seq<char>,
    rest: Seq<Seq<char>>,
    options: OptionsView,
)
    requires
        switched(argument, options) is None,
        !takes_value(argument),
    ensures
        read(seq![argument] + rest, options) == Err::<OptionsView, ErrorView>(
            ErrorView::Unknown { argument },
        ),
{
    assert((seq![argument] + rest)[0] == argument);
}

/// A dry run that was asked for stays asked for, whatever follows.
pub proof fn dry_runs_stay_dry(arguments: Seq<Seq<char>>, options: OptionsView)
    requires
        options.dry_run,
    ensures
        read(arguments, options) matches Ok(read_options) ==> read_options.dry_run,
    decreases arguments.len(),
{
    if arguments.len() > 0 {
        match switched(arguments[0], options) {
            Some(next) => dry_runs_stay_dry(arguments.skip(1), next),
            None => if takes_value(arguments[0]) && arguments.len() > 1 {
                match with_value(arguments[0], arguments[1], options) {
                    Ok(next) => dry_runs_stay_dry(arguments.skip(2), next),
                    Err(_) => {},
                }
            },
        }
    }
}

} // verus!
