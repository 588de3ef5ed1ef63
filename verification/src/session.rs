//! The decisions around a run of the program: what to scan, how to carry a
//! step out, and what to say when it is done.
use vstd::prelude::*;

use crate::capability;
use crate::cli;
use crate::cli::Options;
use crate::filter;
use crate::number;
use crate::number::count;
use crate::plan;
use crate::plan::Step;
use crate::scan;
use crate::scan::Config;
use crate::split;
use crate::split::{joined, split};
use crate::text;
use crate::text::{add_text, add_texts, concat2, copy_texts};

verus! {

/// What is scanned, from the options: what lies under the root, unless an
/// option says otherwise.
pub open spec fn config_from(
    options: cli::OptionsView,
    home: Option<Seq<char>>,
    conf: Option<Seq<char>>,
) -> scan::ConfigView {
    let found = scan::config_under(options.root, home, conf);
    scan::ConfigView {
        probe_top: options.probe_top,
        probe_usage: options.probe_usage,
        measure_directories: options.measure_directories,
        db_path: match options.db_path {
            Some(db_path) => db_path,
            None => found.db_path,
        },
        ..found
    }
}

/// Build the scan configuration.
pub fn scan_config(options: &Options, home: Option<String>, conf: Option<&str>) -> (r: Config)
    ensures
        r@ == config_from(options@, scan::optional_text(home), capability::name_view(conf)),
{
    let mut config = Config::for_root(options.root.as_str(), home, conf);
    config.probe_top = options.probe_top;
    config.probe_usage = options.probe_usage;
    config.measure_directories = options.measure_directories;
    if let Some(db_path) = &options.db_path {
        config.db_path = db_path.clone();
    }
    config
}

/// The initial filter state implied by the options.
pub fn view_for(options: &Options) -> (r: filter::View)
    ensures
        r@ == (filter::ViewModel {
            query: Seq::empty(),
            match_descriptions: false,
            toggles: Seq::empty(),
            sort: filter::SortKey::Size,
            descending: true,
            stale_days: options@.stale_days,
            hide_protected: false,
        }),
{
    let mut view = filter::View::default();
    view.stale_days = options.stale_days;
    view
}

/// How a step is carried out.
#[derive(Debug, PartialEq, Eq)]
pub enum Performance {
    /// Run a program with the terminal attached.
    Run {
        /// The program.
        program: String,
        /// Its arguments.
        args: Vec<String>,
    },
    /// Delete paths from this process.
    Remove {
        /// The paths.
        paths: Vec<String>,
    },
}

/// The view of a [`Performance`].
#[verifier::ext_equal]
pub enum PerformanceView {
    /// See [`Performance::Run`].
    Run {
        /// The program.
        program: Seq<char>,
        /// Its arguments.
        args: Seq<Seq<char>>,
    },
    /// See [`Performance::Remove`].
    Remove {
        /// The paths.
        paths: Seq<Seq<char>>,
    },
}

impl View for Performance {
    type V = PerformanceView;

    open spec fn view(&self) -> PerformanceView {
        match *self {
            Performance::Run { program, args } => PerformanceView::Run {
                program: program@,
                args: text::texts(args@),
            },
            Performance::Remove { paths } => PerformanceView::Remove { paths: text::texts(paths@) },
        }
    }
}

/// A command, through `sudo` where it needs root and the user is not root.
pub open spec fn privileged(
    program: Seq<char>,
    args: Seq<Seq<char>>,
    needs_root: bool,
    uid: u32,
) -> (Seq<char>, Seq<Seq<char>>) {
    if !needs_root || uid == 0 {
        (program, args)
    } else {
        ("sudo"@, seq![program] + args)
    }
}

/// Prefix a command with `sudo` when it needs root and this process is not
/// root.
pub fn with_privilege(program: &str, args: &Vec<String>, needs_root: bool, uid: u32) -> (r: (
    String,
    Vec<String>,
))
    ensures
        (r.0@, text::texts(r.1@)) == privileged(program@, text::texts(args@), needs_root, uid),
{
    if !needs_root || uid == 0 {
        return (program.to_owned(), copy_texts(args));
    }
    let mut elevated: Vec<String> = Vec::new();
    add_text(&mut elevated, program.to_owned());
    add_texts(&mut elevated, copy_texts(args));
    assert(text::texts(elevated@) =~= seq![program@] + text::texts(args@));
    ("sudo".to_owned(), elevated)
}

/// How a step is carried out by a user. Paths that only root may delete are
/// handed to one `sudo rm`.
pub open spec fn performance_of(step: plan::StepView, uid: u32) -> PerformanceView {
    match step {
        plan::StepView::Run { command } => {
            let (program, args) = privileged(
                command.program,
                command.args,
                command.needs_root,
                uid,
            );
            PerformanceView::Run { program, args }
        },
        plan::StepView::Delete { paths, needs_root } => if needs_root && uid != 0 {
            PerformanceView::Run { program: "sudo"@, args: seq!["rm"@, "-rf"@] + paths }
        } else {
            PerformanceView::Remove { paths }
        },
    }
}

/// Decide how to carry a step out.
///
/// Deleting root-owned paths from this process would fail halfway through;
/// the whole list is handed to one `sudo rm` instead so the user authenticates
/// once.
pub fn perform(step: &Step, uid: u32) -> (r: Performance)
    ensures
        r@ == performance_of(step@, uid),
{
    match step {
        Step::Run { command } => {
            let (program, args) = with_privilege(
                command.program.as_str(),
                &command.args,
                command.needs_root,
                uid,
            );
            Performance::Run { program, args }
        },
        Step::Delete { paths, needs_root } => {
            if !*needs_root || uid == 0 {
                return Performance::Remove { paths: copy_texts(paths) };
            }
            let mut args: Vec<String> = Vec::new();
            add_text(&mut args, "rm".to_owned());
            add_text(&mut args, "-rf".to_owned());
            add_texts(&mut args, copy_texts(paths));
            assert(text::texts(args@) =~= seq!["rm"@, "-rf"@] + text::texts(paths@));
            Performance::Run { program: "sudo".to_owned(), args }
        },
    }
}

/// What is said instead of running anything.
pub fn dry_run_status(summary: &str) -> (r: String)
    ensures
        r@ == "dry run — would have run: "@ + split::join(
            split::split_on(summary@, '\n'),
            "; "@,
        ),
{
    let lines = split(summary, '\n');
    concat2("dry run — would have run: ", joined(&lines, "; ").as_str())
}

/// What is said when everything has run.
pub fn finished_status(failures: usize) -> (r: String)
    ensures
        r@ == (if failures == 0 {
            "done — rescanned"@
        } else {
            number::decimal(failures as nat) + " step(s) did not complete; rescanned anyway"@
        }),
{
    if failures == 0 {
        "done — rescanned".to_owned()
    } else {
        concat2(count(failures).as_str(), " step(s) did not complete; rescanned anyway")
    }
}

/// Root is asked for only where a step needs it: a step that does not need
/// root runs as it stands, and nothing goes through `sudo` for root.
pub proof fn root_is_asked_for_only_where_needed(command: crate::janitor::CommandView, uid: u32)
    requires
        !command.needs_root || uid == 0,
    ensures
        performance_of(plan::StepView::Run { command }, uid) == (PerformanceView::Run {
            program: command.program,
            args: command.args,
        }),
{
}

/// What the review showed is what runs: without root the command line of a
/// step that needs it is the shell line that was shown.
pub proof fn what_was_shown_is_what_runs(command: crate::janitor::CommandView, uid: u32)
    requires
        uid != 0,
    ensures
        performance_of(plan::StepView::Run { command }, uid) matches PerformanceView::Run {
            program,
            args,
        } && split::join(seq![program] + args, " "@) == command.shell(),
{
    if command.needs_root {
        assert(seq!["sudo"@] + (seq![command.program] + command.args) =~= seq!["sudo"@] + (seq![
            command.program,
        ] + command.args));
    }
}

} // verus!
