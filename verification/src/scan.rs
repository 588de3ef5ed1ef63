//! Collecting the system's state into an [`Inventory`].
//!
//! The disk, the mount table and pacman are read outside this library. What
//! was read comes in as plain data, in the order in which a scan needs it:
//! [`survey`] turns the package database into a [`Survey`], which says what to
//! probe; [`plan_probe`] and [`probe_package`] judge one package; and [`scan`]
//! puts everything together.
use std::collections::BTreeSet;

use vstd::prelude::*;

use crate::capability;
use crate::capability::Output;
use crate::graph;
use crate::graph::Graph;
use crate::localdb;
use crate::model;
use crate::model::{AtimeSupport, Entry, Facts, InstallReason, Inventory, Origin, Package, UsageEvidence};
use crate::number;
use crate::number::count;
use crate::path;
use crate::path::{is_root, join};
use crate::sets;
use crate::sets::members;
use crate::sort;
use crate::sort::{positions_by_text, sorted_positions};
use crate::split;
use crate::split::{before_first, split_lines, split_once, split_words};
use crate::targets;
use crate::targets::{collect_targets, Measurements};
use crate::text;
use crate::text::{add_text, concat2, concat3, copy_texts, same, starts_with, strip_prefix, to_lower, trimmed, trimmed_start_of};
use crate::textmap::TextMap;
use crate::usage;
use crate::usage::{HomeActivity, Observation};

verus! {

/// Why a scan could not be completed.
#[derive(Debug, PartialEq, Eq)]
pub enum Error {
    /// The local package database is missing or unreadable.
    NoDatabase {
        /// Path that was tried.
        path: String,
        /// Underlying reason.
        reason: String,
    },
    /// The database exists but contains no usable entries.
    EmptyDatabase {
        /// Path that was read.
        path: String,
    },
}

/// The view of an [`Error`].
#[verifier::ext_equal]
pub enum ErrorView {
    /// See [`Error::NoDatabase`].
    NoDatabase {
        /// Path that was tried.
        path: Seq<char>,
        /// Underlying reason.
        reason: Seq<char>,
    },
    /// See [`Error::EmptyDatabase`].
    EmptyDatabase {
        /// Path that was read.
        path: Seq<char>,
    },
}

impl View for Error {
    type V = ErrorView;

    open spec fn view(&self) -> ErrorView {
        match *self {
            Error::NoDatabase { path, reason } => ErrorView::NoDatabase {
                path: path@,
                reason: reason@,
            },
            Error::EmptyDatabase { path } => ErrorView::EmptyDatabase { path: path@ },
        }
    }
}

impl Error {
    /// What to tell the user.
    pub fn message(&self) -> (r: String)
        ensures
            r@ == (match self@ {
                ErrorView::NoDatabase { path, reason } => "cannot read the pacman database at "@
                    + path + ": "@ + reason
                    + "\npacpurge needs an Arch-style local database; pass --root to point at one"@,
                ErrorView::EmptyDatabase { path } => "no packages found in "@ + path
                    + "; the database looks empty"@,
            }),
    {
        match self {
            Error::NoDatabase { path, reason } => {
                let mut out = concat3("cannot read the pacman database at ", path.as_str(), ": ");
                out.append(reason.as_str());
                out.append(
                    "\npacpurge needs an Arch-style local database; pass --root to point at one",
                );
                out
            },
            Error::EmptyDatabase { path } => concat3(
                "no packages found in ",
                path.as_str(),
                "; the database looks empty",
            ),
        }
    }
}

// ---------------------------------------------------------------------------
// What to scan
// ---------------------------------------------------------------------------

/// What to scan and how hard to look.
#[derive(Clone, Debug, PartialEq, Eq)]
pub struct Config {
    /// Filesystem root, normally `/`. Overridable so the scan can be tested.
    pub root: String,
    /// Pacman database directory, normally `<root>/var/lib/pacman`.
    pub db_path: String,
    /// Package cache directories.
    pub cache_dirs: Vec<String>,
    /// Home directory whose caches should be measured.
    pub home: Option<String>,
    /// How many of the largest packages to probe for access times.
    ///
    /// Zero means every package, which is the default: probing a two thousand
    /// package system costs a third of a second, and a bounded probe leaves
    /// most of the table with no verdict at all.
    pub probe_top: usize,
    /// How many files to stat per package.
    pub witness_budget: usize,
    /// Whether to probe access times at all.
    pub probe_usage: bool,
    /// Whether to run directory-size walks, which cost real time on spinning
    /// disks and huge home directories.
    pub measure_directories: bool,
    /// Maximum directory entries any single walk may visit.
    pub walk_budget: usize,
    /// Maximum entries to visit when dating one package's home state.
    pub home_budget: usize,
}

/// The view of a [`Config`].
#[verifier::ext_equal]
pub struct ConfigView {
    /// See [`Config::root`].
    pub root: Seq<char>,
    /// See [`Config::db_path`].
    pub db_path: Seq<char>,
    /// See [`Config::cache_dirs`].
    pub cache_dirs: Seq<Seq<char>>,
    /// See [`Config::home`].
    pub home: Option<Seq<char>>,
    /// See [`Config::probe_top`].
    pub probe_top: usize,
    /// See [`Config::witness_budget`].
    pub witness_budget: usize,
    /// See [`Config::probe_usage`].
    pub probe_usage: bool,
    /// See [`Config::measure_directories`].
    pub measure_directories: bool,
    /// See [`Config::walk_budget`].
    pub walk_budget: usize,
    /// See [`Config::home_budget`].
    pub home_budget: usize,
}

/// The text in an optional string.
pub open spec fn optional_text(s: Option<String>) -> Option<Seq<char>> {
    match s {
        Some(s) => Some(s@),
        None => None,
    }
}

impl View for Config {
    type V = ConfigView;

    open spec fn view(&self) -> ConfigView {
        ConfigView {
            root: self.root@,
            db_path: self.db_path@,
            cache_dirs: text::texts(self.cache_dirs@),
            home: optional_text(self.home),
            probe_top: self.probe_top,
            witness_budget: self.witness_budget,
            probe_usage: self.probe_usage,
            measure_directories: self.measure_directories,
            walk_budget: self.walk_budget,
            home_budget: self.home_budget,
        }
    }
}

impl ConfigView {
    /// What is scanned where nothing else was asked for.
    pub open spec fn usual() -> ConfigView {
        ConfigView {
            root: "/"@,
            db_path: "/var/lib/pacman"@,
            cache_dirs: seq!["/var/cache/pacman/pkg"@],
            home: None,
            probe_top: 0,
            witness_budget: 24,
            probe_usage: true,
            measure_directories: true,
            walk_budget: 400_000,
            home_budget: 400,
        }
    }
}

impl Default for Config {
    fn default() -> (r: Config)
        ensures
            r@ == ConfigView::usual(),
    {
        let mut cache_dirs: Vec<String> = Vec::new();
        add_text(&mut cache_dirs, "/var/cache/pacman/pkg".to_owned());
        assert(text::texts(cache_dirs@) =~= seq!["/var/cache/pacman/pkg"@]);
        Config {
            root: "/".to_owned(),
            db_path: "/var/lib/pacman".to_owned(),
            cache_dirs,
            home: None,
            probe_top: 0,
            witness_budget: 24,
            probe_usage: true,
            measure_directories: true,
            walk_budget: 400_000,
            home_budget: 400,
        }
    }
}

/// What the lines of a `pacman.conf` said so far.
#[verifier::ext_equal]
pub struct ConfReading {
    /// Whether the last heading was that of the options.
    pub in_options: bool,
    /// The database path, where one was set.
    pub db_path: Option<Seq<char>>,
    /// The cache directories that were set.
    pub cache_dirs: Seq<Seq<char>>,
}

/// A path from a `pacman.conf` under the scan root.
pub open spec fn reanchored(value: Seq<char>, root: Seq<char>) -> Seq<char> {
    path::join_path(root, text::trim_start_where(value, text::just('/')))
}

/// Some paths from a `pacman.conf` under the scan root.
pub open spec fn all_reanchored(values: Seq<Seq<char>>, root: Seq<char>) -> Seq<Seq<char>> {
    Seq::new(values.len(), |i: int| reanchored(values[i], root))
}

impl ConfReading {
    /// Before the first line.
    pub open spec fn fresh() -> ConfReading {
        ConfReading { in_options: false, db_path: None, cache_dirs: Seq::empty() }
    }

    /// With a setting of the options.
    pub open spec fn setting(self, key: Seq<char>, value: Seq<char>, root: Seq<char>) -> ConfReading {
        if value.len() == 0 {
            self
        } else if key == "DBPath"@ {
            ConfReading { db_path: Some(reanchored(value, root)), ..self }
        } else if key == "CacheDir"@ {
            ConfReading {
                cache_dirs: self.cache_dirs + all_reanchored(split::words(value), root),
                ..self
            }
        } else {
            self
        }
    }

    /// After one more line. What follows a `#` is a comment, a line that
    /// starts with a bracket is a heading, and only settings of the options
    /// count.
    pub open spec fn line(self, line: Seq<char>, root: Seq<char>) -> ConfReading {
        let meant = text::trim(split::split_on(line, '#')[0]);
        if text::starts(meant, "["@) {
            ConfReading { in_options: meant == "[options]"@, ..self }
        } else if !self.in_options {
            self
        } else {
            match split::split_once_at(meant, '=') {
                Some((key, value)) => self.setting(text::trim(key), text::trim(value), root),
                None => self,
            }
        }
    }
}

/// What the lines of a `pacman.conf` say.
pub open spec fn conf_reading(lines: Seq<Seq<char>>, root: Seq<char>) -> ConfReading
    decreases lines.len(),
{
    if lines.len() == 0 {
        ConfReading::fresh()
    } else {
        conf_reading(lines.drop_last(), root).line(lines.last(), root)
    }
}

/// Re-anchor an absolute path from `pacman.conf` under the scan root.
pub fn reanchor(value: &str, root: &str) -> (r: String)
    ensures
        r@ == reanchored(value@, root@),
{
    join(root, trimmed_start_of(value, '/'))
}

/// Extract `DBPath` and `CacheDir` from a `pacman.conf`.
///
/// Only the `[options]` section carries these, and both are absolute paths in
/// the file, so they are re-anchored under `root` to keep `--root` working.
pub fn pacman_conf_paths(text: &str, root: &str) -> (r: (Option<String>, Vec<String>))
    ensures
        optional_text(r.0) == conf_reading(split::lines(text@), root@).db_path,
        text::texts(r.1@) == conf_reading(split::lines(text@), root@).cache_dirs,
{
    let lines = split_lines(text);
    let ghost all = split::lines(text@);
    let mut db_path: Option<String> = None;
    let mut cache_dirs: Vec<String> = Vec::new();
    let mut in_options = false;
    let mut i: usize = 0;
    proof {
        assert(all.take(0) =~= Seq::empty());
        assert(text::texts(cache_dirs@) =~= Seq::empty());
    }
    while i < lines.len()
        invariant
            i <= lines.len(),
            text::texts(lines@) == all,
            conf_reading(all.take(i as int), root@) == (ConfReading {
                in_options,
                db_path: optional_text(db_path),
                cache_dirs: text::texts(cache_dirs@),
            }),
        decreases lines.len() - i,
    {
        proof {
            assert(all.take(i + 1).drop_last() =~= all.take(i as int));
            assert(all.take(i + 1).last() == lines@[i as int]@);
        }
        let line = trimmed(before_first(lines[i].as_str(), '#'));
        i += 1;
        if starts_with(line, "[") {
            in_options = same(line, "[options]");
            continue ;
        }
        if !in_options {
            continue ;
        }
        let (key, value) = match split_once(line, '=') {
            Some((key, value)) => (trimmed(key), trimmed(value)),
            None => {
                continue ;
            },
        };
        if value.is_empty() {
            continue ;
        }
        if same(key, "DBPath") {
            db_path = Some(reanchor(value, root));
        } else if same(key, "CacheDir") {
            add_reanchored(&mut cache_dirs, value, root);
        }
    }
    assert(all.take(all.len() as int) =~= all);
    (db_path, cache_dirs)
}

/// Adds the paths of a setting, each under the scan root.
fn add_reanchored(dirs: &mut Vec<String>, value: &str, root: &str)
    ensures
        text::texts(final(dirs)@) == text::texts(old(dirs)@) + all_reanchored(
            split::words(value@),
            root@,
        ),
{
    let entries = split_words(value);
    let ghost words = split::words(value@);
    let ghost before = text::texts(dirs@);
    let ghost added = all_reanchored(words, root@);
    let mut k: usize = 0;
    assert(before + added.take(0) =~= before);
    while k < entries.len()
        invariant
            k <= entries.len(),
            text::texts(entries@) == words,
            added == all_reanchored(words, root@),
            text::texts(dirs@) == before + added.take(k as int),
        decreases entries.len() - k,
    {
        assert(words[k as int] == entries@[k as int]@);
        add_text(dirs, reanchor(entries[k].as_str(), root));
        assert(before + added.take(k + 1) =~= (before + added.take(k as int)).push(
            added[k as int],
        ));
        k += 1;
    }
    assert(added.take(added.len() as int) =~= added);
}

/// What is scanned under a root: the home directory only where the root is
/// that of the running system, and the paths of its `pacman.conf` where there
/// is one.
pub open spec fn config_under(
    root: Seq<char>,
    home: Option<Seq<char>>,
    conf: Option<Seq<char>>,
) -> ConfigView {
    let usual = ConfigView {
        root,
        db_path: path::join_path(root, "var/lib/pacman"@),
        cache_dirs: seq![path::join_path(root, "var/cache/pacman/pkg"@)],
        home: if path::is_root_path(root) {
            home
        } else {
            None
        },
        ..ConfigView::usual()
    };
    match conf {
        Some(conf) => {
            let reading = conf_reading(split::lines(conf), root);
            ConfigView {
                db_path: match reading.db_path {
                    Some(db_path) => db_path,
                    None => usual.db_path,
                },
                cache_dirs: if reading.cache_dirs.len() > 0 {
                    reading.cache_dirs
                } else {
                    usual.cache_dirs
                },
                ..usual
            }
        },
        None => usual,
    }
}

impl Config {
    /// Derive the default paths beneath `root`, honouring its `pacman.conf`.
    ///
    /// Per-user caches belong to the running user, so they are only measured
    /// when the scan is of the running system. Pointing `--root` at a mounted
    /// disk and then reporting this machine's `~/.cache` would be a lie about
    /// where the space is.
    pub fn for_root(root: &str, home: Option<String>, conf: Option<&str>) -> (r: Config)
        ensures
            r@ == config_under(root@, optional_text(home), capability::name_view(conf)),
    {
        let mut config = Config::default();
        config.root = root.to_owned();
        config.db_path = join(root, "var/lib/pacman");
        let mut cache_dirs: Vec<String> = Vec::new();
        add_text(&mut cache_dirs, join(root, "var/cache/pacman/pkg"));
        assert(text::texts(cache_dirs@) =~= seq![path::join_path(root@, "var/cache/pacman/pkg"@)]);
        config.cache_dirs = cache_dirs;
        config.home = if is_root(root) {
            home
        } else {
            None
        };
        if let Some(conf) = conf {
            let (db_path, cache_dirs) = pacman_conf_paths(conf, root);
            if let Some(db_path) = db_path {
                config.db_path = db_path;
            }
            if cache_dirs.len() > 0 {
                config.cache_dirs = cache_dirs;
            }
        }
        config
    }
}

proof fn lemma_trimmed_start(s: Seq<char>, c: char)
    ensures
        ({
            let t = text::trim_start_where(s, text::just(c));
            t.len() > 0 ==> t[0] != c
        }),
    decreases s.len(),
{
    if s.len() > 0 && s[0] == c {
        lemma_trimmed_start(s.drop_first(), c);
    }
}

/// What a `pacman.conf` names is looked for under the scan root, however the
/// path is written.
pub proof fn configured_paths_stay_under_the_root(value: Seq<char>, root: Seq<char>)
    ensures
        text::starts(reanchored(value, root), root),
{
    lemma_trimmed_start(value, '/');
    let rest = text::trim_start_where(value, text::just('/'));
    assert((root + rest).take(root.len() as int) =~= root);
    assert((root + seq!['/'] + rest).take(root.len() as int) =~= root);
}

// ---------------------------------------------------------------------------
// The package database
// ---------------------------------------------------------------------------

/// One entry of the local package database: where it is, and the text of its
/// `desc` file where that could be read.
pub struct Record {
    /// The directory entry.
    pub entry: capability::Entry,
    /// What its `desc` file says.
    pub desc: Option<String>,
}

/// The view of a [`Record`].
#[verifier::ext_equal]
pub struct RecordView {
    /// See [`Record::entry`].
    pub entry: capability::EntryView,
    /// See [`Record::desc`].
    pub desc: Option<Seq<char>>,
}

impl View for Record {
    type V = RecordView;

    open spec fn view(&self) -> RecordView {
        RecordView { entry: self.entry@, desc: optional_text(self.desc) }
    }
}

/// The views of a list of records.
pub open spec fn record_views(records: Seq<Record>) -> Seq<RecordView> {
    Seq::new(records.len(), |i: int| records[i]@)
}

impl RecordView {
    /// Whether the record is there to be read.
    pub open spec fn is_readable(self) -> bool {
        self.entry.is_dir && self.desc is Some
    }

    /// The package that the record describes.
    pub open spec fn package(self) -> Option<model::PackageView> {
        if self.is_readable() {
            localdb::described(self.desc.unwrap(), self.entry.path)
        } else {
            None
        }
    }
}

/// The packages that a list of records describes.
pub open spec fn packages_read(records: Seq<RecordView>) -> Seq<model::PackageView>
    decreases records.len(),
{
    if records.len() == 0 {
        Seq::empty()
    } else {
        let before = packages_read(records.drop_last());
        match records.last().package() {
            Some(package) => before.push(package),
            None => before,
        }
    }
}

/// What there is to say about records that describe nothing.
pub open spec fn records_skipped(records: Seq<RecordView>) -> Seq<Seq<char>>
    decreases records.len(),
{
    if records.len() == 0 {
        Seq::empty()
    } else {
        let before = records_skipped(records.drop_last());
        if records.last().is_readable() && records.last().package() is None {
            before.push("skipped unreadable database entry "@ + records.last().entry.name)
        } else {
            before
        }
    }
}

/// The names of a list of packages.
pub open spec fn names_of(packages: Seq<model::PackageView>) -> Seq<Seq<char>> {
    Seq::new(packages.len(), |i: int| packages[i].name)
}

/// Packages sorted by name.
pub open spec fn sorted_packages(packages: Seq<model::PackageView>) -> Seq<model::PackageView> {
    sort::taken_by(packages, sort::text_positions(names_of(packages)))
}

/// Packages sorted by name.
fn by_name(packages: &Vec<Package>) -> (r: Vec<Package>)
    ensures
        model::package_views(r@) == sorted_packages(model::package_views(packages@)),
{
    let ghost all = model::package_views(packages@);
    let mut names: Vec<&str> = Vec::new();
    let mut i: usize = 0;
    while i < packages.len()
        invariant
            i <= packages.len(),
            names.len() == i,
            all == model::package_views(packages@),
            forall|k: int| 0 <= k < i ==> #[trigger] names@[k]@ == all[k].name,
        decreases packages.len() - i,
    {
        names.push(packages[i].name.as_str());
        i += 1;
    }
    assert(text::str_texts(names@) =~= names_of(all));
    let places = positions_by_text(&names);
    let mut out: Vec<Package> = Vec::new();
    let mut k: usize = 0;
    while k < places.len()
        invariant
            k <= places.len(),
            all == model::package_views(packages@),
            sort::is_listing(places@, packages@.len()),
            out.len() == k,
            forall|j: int| 0 <= j < k ==> #[trigger] out@[j]@ == all[places@[j] as int],
        decreases places.len() - k,
    {
        out.push(packages[places[k]].clone());
        k += 1;
    }
    assert(model::package_views(out@) =~= sort::taken_by(all, places@));
    out
}

/// Read the package database: the packages sorted by name, and what there is
/// to say about entries that could not be understood.
///
/// `listing` is the listing of `local`, or why there is none.
pub fn read_database(local: &str, listing: &Result<Vec<Record>, String>) -> (r: Result<
    (Vec<Package>, Vec<String>),
    Error,
>)
    ensures
        match (listing, r) {
            (Err(reason), Err(error)) => error@ == (ErrorView::NoDatabase {
                path: local@,
                reason: reason@,
            }),
            (Err(_), Ok(_)) => false,
            (Ok(records), Err(error)) => packages_read(record_views(records@)).len() == 0 && error@
                == (ErrorView::EmptyDatabase { path: local@ }),
            (Ok(records), Ok((packages, warnings))) => {
                &&& packages_read(record_views(records@)).len() > 0
                &&& model::package_views(packages@) == sorted_packages(
                    packages_read(record_views(records@)),
                )
                &&& text::texts(warnings@) == records_skipped(record_views(records@))
            },
        },
{
    let records = match listing {
        Ok(records) => records,
        Err(reason) => {
            return Err(Error::NoDatabase { path: local.to_owned(), reason: reason.clone() });
        },
    };
    let ghost all = record_views(records@);
    let mut packages: Vec<Package> = Vec::new();
    let mut warnings: Vec<String> = Vec::new();
    let mut i: usize = 0;
    proof {
        assert(all.take(0) =~= Seq::empty());
        assert(model::package_views(packages@) =~= Seq::empty());
        assert(text::texts(warnings@) =~= Seq::empty());
    }
    while i < records.len()
        invariant
            i <= records.len(),
            all == record_views(records@),
            model::package_views(packages@) == packages_read(all.take(i as int)),
            text::texts(warnings@) == records_skipped(all.take(i as int)),
        decreases records.len() - i,
    {
        proof {
            assert(all.take(i + 1).drop_last() =~= all.take(i as int));
            assert(all.take(i + 1).last() == all[i as int]);
        }
        let record = &records[i];
        i += 1;
        if !record.entry.is_dir {
            continue ;
        }
        let desc = match &record.desc {
            Some(desc) => desc,
            None => {
                continue ;
            },
        };
        match localdb::parse_desc(desc.as_str(), record.entry.path.as_str()) {
            Some(package) => {
                let ghost before = model::package_views(packages@);
                packages.push(package);
                assert(model::package_views(packages@) =~= before.push(package@));
            },
            None => {
                add_text(
                    &mut warnings,
                    concat2("skipped unreadable database entry ", record.entry.name.as_str()),
                );
            },
        }
    }
    assert(all.take(all.len() as int) =~= all);
    assert(model::package_views(packages@).len() == packages.len());
    if packages.len() == 0 {
        return Err(Error::EmptyDatabase { path: local.to_owned() });
    }
    Ok((by_name(&packages), warnings))
}

// ---------------------------------------------------------------------------
// Repository membership
// ---------------------------------------------------------------------------

/// What came of asking pacman for the packages of every sync repository.
pub enum SyncListing {
    /// There is no pacman on `PATH` to ask.
    NoPacman,
    /// It could not be run, and why.
    Failed(String),
    /// It ran.
    Ran(Output),
}

/// The repository that a listing names for a package: that of the last line
/// which has the package in its second field.
pub open spec fn repository_in(lines: Seq<Seq<char>>, name: Seq<char>) -> Option<Seq<char>>
    decreases lines.len(),
{
    if lines.len() == 0 {
        None
    } else {
        let fields = split::words(lines.last());
        if fields.len() >= 2 && fields[1] == name {
            Some(fields[0])
        } else {
            repository_in(lines.drop_last(), name)
        }
    }
}

impl SyncListing {
    /// The listing, where there is one.
    pub open spec fn listed(self) -> Option<Seq<Seq<char>>> {
        match self {
            SyncListing::Ran(output) => if output.code == Some(0i32) {
                Some(split::lines(output.stdout@))
            } else {
                None
            },
            _ => None,
        }
    }

    /// What there is to say where there is no listing.
    pub open spec fn complaint(self) -> Option<Seq<char>> {
        match self {
            SyncListing::NoPacman => Some(
                "pacman is not on PATH, so repository membership and AUR detection are unavailable"@,
            ),
            SyncListing::Failed(error) => Some("could not run pacman -Sl: "@ + error@),
            SyncListing::Ran(output) => if output.code == Some(0i32) {
                None
            } else {
                Some("pacman -Sl failed: "@ + first_line(text::trim(output.stderr@)))
            },
        }
    }

    /// Where an installed package came from.
    pub open spec fn origin(self, name: Seq<char>) -> model::OriginView {
        match self.listed() {
            Some(lines) => match repository_in(lines, name) {
                Some(repository) => model::OriginView::Repository(repository),
                None => model::OriginView::Foreign,
            },
            None => model::OriginView::Unknown,
        }
    }
}

/// The first line of a text, or that there is none.
pub open spec fn first_line(s: Seq<char>) -> Seq<char> {
    if split::lines(s).len() > 0 {
        split::lines(s)[0]
    } else {
        "no detail"@
    }
}

/// A list with an optional text behind it.
pub open spec fn with_text(list: Seq<Seq<char>>, more: Option<Seq<char>>) -> Seq<Seq<char>> {
    match more {
        Some(more) => list.push(more),
        None => list,
    }
}

/// Whether a map of origins says what a listing does: everything that is
/// listed or installed has the origin that the listing gives it, and nothing
/// is known of anything where there is no listing.
pub open spec fn are_origins(
    origins: Map<Seq<char>, Origin>,
    packages: Seq<model::PackageView>,
    sync: SyncListing,
) -> bool {
    &&& forall|name: Seq<char>| #[trigger]
        origins.contains_key(name) <==> sync.listed() is Some && (repository_in(
            sync.listed().unwrap(),
            name,
        ) is Some || names_of(packages).contains(name))
    &&& forall|name: Seq<char>| #[trigger]
        origins.contains_key(name) ==> origins[name]@ == sync.origin(name)
}

/// Ask pacman's answer which repository each package came from.
///
/// `pacman -Sl` lists every package in every configured sync repository in one
/// pass, which is both the authoritative answer and cheaper than one query per
/// package. Anything absent from that list is foreign: an AUR build or a
/// locally built package. Without pacman on `PATH` the question is left open
/// rather than guessed at.
pub fn resolve_origins(
    packages: &[Package],
    sync: &SyncListing,
    warnings: &mut Vec<String>,
) -> (r: TextMap<Origin>)
    ensures
        are_origins(r@, model::package_views(packages@), *sync),
        text::texts(final(warnings)@) == with_text(
            text::texts(old(warnings)@),
            sync.complaint(),
        ),
{
    let ghost ps = model::package_views(packages@);
    let mut origins: TextMap<Origin> = TextMap::new();
    let output = match sync {
        SyncListing::NoPacman => {
            add_text(
                warnings,
                "pacman is not on PATH, so repository membership and AUR detection are unavailable".to_owned(),
            );
            return origins;
        },
        SyncListing::Failed(error) => {
            add_text(warnings, concat2("could not run pacman -Sl: ", error.as_str()));
            return origins;
        },
        SyncListing::Ran(output) => output,
    };
    if !output.ok() {
        let lines = split_lines(trimmed(output.stderr.as_str()));
        let ghost all = split::lines(text::trim(output.stderr@));
        assert(text::texts(lines@) == all);
        assert(all.len() == lines.len());
        if lines.len() > 0 {
            assert(all[0] == lines@[0]@);
            add_text(warnings, concat2("pacman -Sl failed: ", lines[0].as_str()));
        } else {
            add_text(warnings, concat2("pacman -Sl failed: ", "no detail"));
        }
        return origins;
    }
    let lines = split_lines(output.stdout.as_str());
    let ghost all = split::lines(output.stdout@);
    let mut i: usize = 0;
    assert(all.take(0) =~= Seq::empty());
    while i < lines.len()
        invariant
            i <= lines.len(),
            text::texts(lines@) == all,
            forall|name: Seq<char>| #[trigger]
                origins@.contains_key(name) <==> repository_in(all.take(i as int), name) is Some,
            forall|name: Seq<char>| #[trigger]
                origins@.contains_key(name) ==> origins@[name]@ == model::OriginView::Repository(
                    repository_in(all.take(i as int), name).unwrap(),
                ),
        decreases lines.len() - i,
    {
        let ghost before = origins@;
        let fields = split_words(lines[i].as_str());
        proof {
            assert(all.take(i + 1).drop_last() =~= all.take(i as int));
            assert(all.take(i + 1).last() == lines@[i as int]@);
            assert(text::texts(fields@) == split::words(lines@[i as int]@));
            assert(split::words(lines@[i as int]@).len() == fields.len());
        }
        if fields.len() >= 2 {
            assert(split::words(lines@[i as int]@)[0] == fields@[0]@);
            assert(split::words(lines@[i as int]@)[1] == fields@[1]@);
            origins.insert(fields[1].as_str(), Origin::Repository(fields[0].clone()));
        }
        i += 1;
    }
    assert(all.take(all.len() as int) =~= all);
    let mut k: usize = 0;
    while k < packages.len()
        invariant
            k <= packages.len(),
            ps == model::package_views(packages@),
            forall|name: Seq<char>| #[trigger]
                origins@.contains_key(name) <==> repository_in(all, name) is Some || names_of(
                    ps,
                ).take(k as int).contains(name),
            forall|name: Seq<char>| #[trigger]
                origins@.contains_key(name) ==> origins@[name]@ == (match repository_in(all, name) {
                    Some(repository) => model::OriginView::Repository(repository),
                    None => model::OriginView::Foreign,
                }),
        decreases packages.len() - k,
    {
        let ghost seen = names_of(ps).take(k as int);
        proof {
            assert(names_of(ps).take(k + 1) =~= seen.push(ps[k as int].name));
            sets::lemma_push_contains(seen, ps[k as int].name);
        }
        if !origins.contains_key(packages[k].name.as_str()) {
            origins.insert(packages[k].name.as_str(), Origin::Foreign);
        }
        k += 1;
    }
    assert(names_of(ps).take(ps.len() as int) =~= names_of(ps));
    origins
}

// ---------------------------------------------------------------------------
// What to probe
// ---------------------------------------------------------------------------

/// Decide how far to trust access times, from the mount table.
pub fn detect_atime_support(config: &Config, mounts: Option<&str>) -> (r: AtimeSupport)
    ensures
        r == (match mounts {
            Some(mounts) => usage::mount_support(
                split::lines(mounts@),
                path::join_path(config@.root, "usr"@),
            ),
            None => AtimeSupport::Unknown,
        }),
{
    match mounts {
        Some(mounts) => {
            let probe = join(config.root.as_str(), "usr");
            usage::atime_support(mounts, probe.as_str())
        },
        None => AtimeSupport::Unknown,
    }
}

/// The first `n` elements, or all of them where there are fewer.
pub open spec fn first_of<A>(s: Seq<A>, n: nat) -> Seq<A> {
    if n <= s.len() {
        s.take(n as int)
    } else {
        s
    }
}

/// The order of packages by size, the largest first.
pub open spec fn size_order(ps: Seq<model::PackageView>) -> spec_fn(int, int) -> bool {
    |a: int, b: int| ps[a].size >= ps[b].size
}

/// The positions of packages, the largest first.
pub open spec fn largest_first(ps: Seq<model::PackageView>) -> Seq<usize> {
    sort::stable_order(size_order(ps), ps.len())
}

/// Whether a package is known to be foreign.
pub open spec fn known_foreign(name: Seq<char>, origins: Map<Seq<char>, Origin>) -> bool {
    origins.contains_key(name) && origins[name] is Foreign
}

/// Whether nothing requires a package that came as a dependency.
pub open spec fn is_orphan(ps: Seq<model::PackageView>, i: usize) -> bool {
    ps[i as int].reason == InstallReason::Dependency && graph::sorted_names(
        ps,
        graph::requirers(ps, i),
    ).len() == 0
}

/// The packages worth probing: the `top` largest, and every foreign package
/// and orphan.
pub open spec fn probe_candidates(
    ps: Seq<model::PackageView>,
    origins: Map<Seq<char>, Origin>,
    top: usize,
) -> Set<usize> {
    Set::new(
        |i: usize|
            i < ps.len() && (first_of(largest_first(ps), top as nat).contains(i) || known_foreign(
                ps[i as int].name,
                origins,
            ) || is_orphan(ps, i)),
    )
}

/// The packages to probe, in database order: every package where nothing
/// bounds it, and otherwise those worth it.
pub open spec fn probe_positions(
    ps: Seq<model::PackageView>,
    origins: Map<Seq<char>, Origin>,
    top: usize,
) -> Seq<usize> {
    if top == 0 {
        Seq::new(ps.len(), |i: int| i as usize)
    } else {
        sets::below(probe_candidates(ps, origins, top), ps.len())
    }
}

/// The positions of packages, the largest first.
fn by_size(packages: &[Package]) -> (r: Vec<usize>)
    ensures
        r@ == largest_first(model::package_views(packages@)),
        sort::is_listing(r@, packages@.len()),
{
    let ghost le = size_order(model::package_views(packages@));
    let at_or_before = |a: usize, b: usize| -> (r: bool)
        requires
            a < packages.len(),
            b < packages.len(),
        ensures
            r == (packages@[a as int].size >= packages@[b as int].size),
        { packages[a].size >= packages[b].size };
    sorted_positions(packages.len(), at_or_before, Ghost(le))
}

/// The set of the first `n` positions of a list.
fn first_positions(v: &Vec<usize>, n: usize) -> (r: BTreeSet<usize>)
    ensures
        r@ == first_of(v@, n as nat).to_set(),
{
    let mut out: BTreeSet<usize> = BTreeSet::new();
    let mut k: usize = 0;
    while k < v.len() && k < n
        invariant
            k <= v.len(),
            k <= n,
            forall|x: usize| #[trigger] out@.contains(x) <==> v@.take(k as int).contains(x),
        decreases v.len() - k,
    {
        let at: usize = v[k];
        proof {
            assert(v@.take(k + 1) =~= v@.take(k as int).push(at));
            sets::lemma_push_contains(v@.take(k as int), at);
        }
        out.insert(at);
        k += 1;
    }
    proof {
        assert(v@.take(k as int) =~= first_of(v@, n as nat));
        assert(out@ =~= first_of(v@, n as nat).to_set());
    }
    out
}

/// Pick which packages are worth the cost of an access-time probe.
///
/// Everything, unless `probe_top` bounds it. When it does, the largest
/// packages are the point of the exercise, but foreign packages and orphans
/// are included regardless of size: an unused 12 MiB AUR build is a better
/// removal candidate than a 400 MiB toolchain in daily use.
pub fn choose_probe_targets(
    packages: &[Package],
    graph: &Graph<'_>,
    origins: &TextMap<Origin>,
    config: &Config,
) -> (r: Vec<usize>)
    requires
        graph.view_packages() == model::package_views(packages@),
    ensures
        r@ == probe_positions(
            model::package_views(packages@),
            origins@,
            config@.probe_top,
        ),
{
    let ghost ps = model::package_views(packages@);
    let n: usize = packages.len();
    let top: usize = config.probe_top;
    if top == 0 {
        let mut all: Vec<usize> = Vec::new();
        let mut i: usize = 0;
        while i < n
            invariant
                i <= n,
                all.len() == i,
                forall|k: int| 0 <= k < i ==> #[trigger] all@[k] == k,
            decreases n - i,
        {
            all.push(i);
            i += 1;
        }
        assert(all@ =~= Seq::new(ps.len(), |i: int| i as usize));
        return all;
    }
    let sized = by_size(packages);
    let mut chosen = first_positions(&sized, top);
    let ghost worth = probe_candidates(ps, origins@, top);
    let ghost large = first_of(sized@, top as nat);
    let mut i: usize = 0;
    while i < n
        invariant
            i <= n,
            n == packages.len(),
            ps == model::package_views(packages@),
            graph.view_packages() == ps,
            large == first_of(largest_first(ps), top as nat),
            forall|x: usize| #[trigger]
                chosen@.contains(x) <==> large.contains(x) || (x < i && (known_foreign(
                    ps[x as int].name,
                    origins@,
                ) || is_orphan(ps, x))),
        decreases n - i,
    {
        let foreign = match origins.get(packages[i].name.as_str()) {
            Some(origin) => origin.is_foreign(),
            None => false,
        };
        let orphan = if packages[i].reason == InstallReason::Dependency {
            let needed = graph.required_by(i);
            assert(text::texts(needed@).len() == needed.len());
            needed.len() == 0
        } else {
            false
        };
        assert(foreign == known_foreign(ps[i as int].name, origins@));
        assert(orphan == is_orphan(ps, i));
        if foreign || orphan {
            chosen.insert(i);
        }
        i += 1;
    }
    proof {
        assert forall|x: usize| chosen@.contains(x) <==> worth.contains(x) by {
            if large.contains(x) {
                let k = choose|k: int| 0 <= k < large.len() && large[k] == x;
                assert(sized@[k] == x);
            }
        }
        assert(chosen@ =~= worth);
    }
    members(&chosen, n)
}

/// What is worth probing is probed: every package where nothing bounds it, and
/// where something does, the largest, and the foreign and the orphaned ones
/// whatever their size.
pub proof fn what_is_worth_probing_is_probed(
    ps: Seq<model::PackageView>,
    origins: Map<Seq<char>, Origin>,
    top: usize,
    i: usize,
)
    requires
        ps.len() <= usize::MAX,
        i < ps.len(),
    ensures
        top == 0 ==> probe_positions(ps, origins, top).contains(i),
        top > 0 && (known_foreign(ps[i as int].name, origins) || is_orphan(ps, i) || first_of(
            largest_first(ps),
            top as nat,
        ).contains(i)) ==> probe_positions(ps, origins, top).contains(i),
{
    if top == 0 {
        assert(probe_positions(ps, origins, top)[i as int] == i);
    } else {
        sets::lemma_below(probe_candidates(ps, origins, top), ps.len());
        assert(probe_candidates(ps, origins, top).contains(i) ==> sets::below(
            probe_candidates(ps, origins, top),
            ps.len(),
        ).contains(i));
    }
}

// ---------------------------------------------------------------------------
// State under the home directory
// ---------------------------------------------------------------------------

/// A name and a path that is filed under it.
pub type Filed = (Seq<char>, Seq<char>);

/// The views of names and the paths filed under them.
pub open spec fn filed_views(pairs: Seq<(String, String)>) -> Seq<Filed> {
    Seq::new(pairs.len(), |i: int| (pairs[i].0@, pairs[i].1@))
}

/// The directories of a listing, under their names.
pub open spec fn state_pairs(entries: Seq<capability::EntryView>) -> Seq<Filed>
    decreases entries.len(),
{
    if entries.len() == 0 {
        Seq::empty()
    } else {
        let before = state_pairs(entries.drop_last());
        let entry = entries.last();
        if entry.is_dir {
            before.push((entry.name, entry.path))
        } else {
            before
        }
    }
}

/// The name that a dotted directory stands for, unless it is one that holds
/// the state of many programs.
pub open spec fn dotted_name(name: Seq<char>) -> Option<Seq<char>> {
    let rest = name.skip(1);
    if text::starts(name, "."@) && rest.len() > 0 && rest != "config"@ && rest != "cache"@ && rest
        != "local"@ {
        Some(rest)
    } else {
        None
    }
}

/// The dotted directories of a listing, under the names they stand for.
pub open spec fn dotted_pairs(entries: Seq<capability::EntryView>) -> Seq<Filed>
    decreases entries.len(),
{
    if entries.len() == 0 {
        Seq::empty()
    } else {
        let before = dotted_pairs(entries.drop_last());
        let entry = entries.last();
        match dotted_name(entry.name) {
            Some(name) => if entry.is_dir {
                before.push((name, entry.path))
            } else {
                before
            },
            None => before,
        }
    }
}

/// Adds a name and the path filed under it.
fn add_pair(pairs: &mut Vec<(String, String)>, name: String, path: String)
    ensures
        filed_views(final(pairs)@) == filed_views(old(pairs)@).push((name@, path@)),
{
    pairs.push((name, path));
    assert(filed_views(pairs@) =~= filed_views(old(pairs)@).push((name@, path@)));
}

/// The per-user state directories, each with the name it is filed under.
///
/// `states` lists the directories where applications keep state, one listing
/// behind the other. `dotted` lists the home directory itself: legacy dotted
/// directories, e.g. `~/.vlc`, live there rather than under the XDG paths.
pub fn home_pairs(
    states: &Vec<capability::Entry>,
    dotted: &Vec<capability::Entry>,
) -> (r: Vec<(String, String)>)
    ensures
        filed_views(r@) == state_pairs(capability::listing_views(states@)) + dotted_pairs(
            capability::listing_views(dotted@),
        ),
{
    let ghost all = capability::listing_views(states@);
    let mut pairs: Vec<(String, String)> = Vec::new();
    let mut i: usize = 0;
    proof {
        assert(all.take(0) =~= Seq::empty());
        assert(filed_views(pairs@) =~= Seq::empty());
    }
    while i < states.len()
        invariant
            i <= states.len(),
            all == capability::listing_views(states@),
            filed_views(pairs@) == state_pairs(all.take(i as int)),
        decreases states.len() - i,
    {
        assert(all.take(i + 1).drop_last() =~= all.take(i as int));
        if states[i].is_dir {
            add_pair(&mut pairs, states[i].name.clone(), states[i].path.clone());
        }
        i += 1;
    }
    assert(all.take(all.len() as int) =~= all);
    let ghost head = filed_views(pairs@);
    let ghost legacy = capability::listing_views(dotted@);
    let mut k: usize = 0;
    proof {
        assert(legacy.take(0) =~= Seq::empty());
        assert(head + dotted_pairs(legacy.take(0)) =~= head);
    }
    while k < dotted.len()
        invariant
            k <= dotted.len(),
            legacy == capability::listing_views(dotted@),
            filed_views(pairs@) == head + dotted_pairs(legacy.take(k as int)),
        decreases dotted.len() - k,
    {
        let ghost before = dotted_pairs(legacy.take(k as int));
        proof {
            assert(legacy.take(k + 1).drop_last() =~= legacy.take(k as int));
            assert(legacy.take(k + 1).last() == legacy[k as int]);
            reveal_strlit(".");
        }
        let entry = &dotted[k];
        k += 1;
        if !entry.is_dir {
            continue ;
        }
        let name = match strip_prefix(entry.name.as_str(), ".") {
            Some(name) => name,
            None => {
                continue ;
            },
        };
        assert(name@ =~= entry@.name.skip(1));
        if name.is_empty() || same(name, "config") || same(name, "cache") || same(name, "local") {
            continue ;
        }
        add_pair(&mut pairs, name.to_owned(), entry.path.clone());
        assert(filed_views(pairs@) =~= head + before.push((name@, entry@.path)));
    }
    assert(legacy.take(legacy.len() as int) =~= legacy);
    pairs
}

/// The paths filed under a name, in order.
pub open spec fn filed_under(pairs: Seq<Filed>, name: Seq<char>) -> Seq<Seq<char>>
    decreases pairs.len(),
{
    if pairs.len() == 0 {
        Seq::empty()
    } else {
        let before = filed_under(pairs.drop_last(), name);
        if pairs.last().0 == name {
            before.push(pairs.last().1)
        } else {
            before
        }
    }
}

/// Whether a map holds under each name the paths that are filed under it.
pub open spec fn is_index(index: Map<Seq<char>, Vec<String>>, pairs: Seq<Filed>) -> bool {
    &&& forall|name: Seq<char>| #[trigger]
        index.contains_key(name) <==> filed_under(pairs, name).len() > 0
    &&& forall|name: Seq<char>| #[trigger]
        index.contains_key(name) ==> text::texts(index[name]@) == filed_under(pairs, name)
}

/// An index of paths by the names they are filed under.
pub fn index_pairs(pairs: &Vec<(String, String)>) -> (r: TextMap<Vec<String>>)
    ensures
        is_index(r@, filed_views(pairs@)),
{
    let ghost all = filed_views(pairs@);
    let mut index: TextMap<Vec<String>> = TextMap::new();
    let mut i: usize = 0;
    assert(all.take(0) =~= Seq::empty());
    while i < pairs.len()
        invariant
            i <= pairs.len(),
            all == filed_views(pairs@),
            is_index(index@, all.take(i as int)),
        decreases pairs.len() - i,
    {
        let ghost before = index@;
        let ghost seen = all.take(i as int);
        let name = pairs[i].0.as_str();
        let mut paths = match index.get(name) {
            Some(paths) => copy_texts(paths),
            None => Vec::new(),
        };
        assert(text::texts(paths@) =~= filed_under(seen, name@));
        add_text(&mut paths, pairs[i].1.clone());
        index.insert(name, paths);
        proof {
            let next = all.take(i + 1);
            assert(next.drop_last() =~= seen);
            assert(next.last() == (pairs@[i as int].0@, pairs@[i as int].1@));
            assert forall|k: Seq<char>| #[trigger] index@.contains_key(k) <==> filed_under(
                next,
                k,
            ).len() > 0 by {
                assert(before.contains_key(k) <==> filed_under(seen, k).len() > 0);
            }
            assert forall|k: Seq<char>| #[trigger] index@.contains_key(k) implies text::texts(
                index@[k]@,
            ) == filed_under(next, k) by {
                if k != name@ {
                    assert(before.contains_key(k));
                }
            }
        }
        i += 1;
    }
    assert(all.take(all.len() as int) =~= all);
    index
}

/// Names in lower case, with the paths filed under them.
pub open spec fn lowered(pairs: Seq<Filed>) -> Seq<Filed> {
    Seq::new(pairs.len(), |i: int| (text::lowercase(pairs[i].0), pairs[i].1))
}

/// An index of the per-user state directories, by their names in lower case.
///
/// Built once and shared across every package, so establishing whether a
/// package has home state is a map lookup rather than a stat storm.
pub fn home_index(states: &Vec<capability::Entry>, dotted: &Vec<capability::Entry>) -> (r: TextMap<
    Vec<String>,
>)
    ensures
        is_index(
            r@,
            lowered(
                state_pairs(capability::listing_views(states@)) + dotted_pairs(
                    capability::listing_views(dotted@),
                ),
            ),
        ),
{
    let pairs = home_pairs(states, dotted);
    let ghost all = filed_views(pairs@);
    let mut low: Vec<(String, String)> = Vec::new();
    let mut i: usize = 0;
    while i < pairs.len()
        invariant
            i <= pairs.len(),
            all == filed_views(pairs@),
            filed_views(low@) == lowered(all).take(i as int),
        decreases pairs.len() - i,
    {
        add_pair(&mut low, to_lower(pairs[i].0.as_str()), pairs[i].1.clone());
        assert(filed_views(low@) =~= lowered(all).take(i + 1));
        i += 1;
    }
    assert(lowered(all).take(all.len() as int) =~= lowered(all));
    index_pairs(&low)
}

/// The directories filed under any of some names, name by name.
pub open spec fn directories_for(
    names: Seq<Seq<char>>,
    index: Map<Seq<char>, Vec<String>>,
) -> Seq<Seq<char>>
    decreases names.len(),
{
    if names.len() == 0 {
        Seq::empty()
    } else {
        directories_for(names.drop_last(), index) + if index.contains_key(names.last()) {
            text::texts(index[names.last()]@)
        } else {
            Seq::empty()
        }
    }
}

/// The directories filed under any of some names.
pub fn home_directories(names: &Vec<String>, index: &TextMap<Vec<String>>) -> (r: Vec<String>)
    ensures
        text::texts(r@) == directories_for(text::texts(names@), index@),
{
    let ghost all = text::texts(names@);
    let mut out: Vec<String> = Vec::new();
    let mut i: usize = 0;
    proof {
        assert(all.take(0) =~= Seq::empty());
        assert(text::texts(out@) =~= Seq::empty());
    }
    while i < names.len()
        invariant
            i <= names.len(),
            all == text::texts(names@),
            text::texts(out@) == directories_for(all.take(i as int), index@),
        decreases names.len() - i,
    {
        let ghost before = text::texts(out@);
        assert(all.take(i + 1).drop_last() =~= all.take(i as int));
        assert(all.take(i + 1).last() == names@[i as int]@);
        match index.get(names[i].as_str()) {
            Some(paths) => {
                let mut more = copy_texts(paths);
                out.append(&mut more);
                assert(text::texts(out@) =~= before + text::texts(paths@));
            },
            None => {
                assert(before + Seq::<Seq<char>>::empty() =~= before);
            },
        }
        i += 1;
    }
    assert(all.take(all.len() as int) =~= all);
    out
}

/// The views of what some walks found.
pub open spec fn walk_views(walks: Seq<Option<(i64, String)>>) -> Seq<Option<(i64, Seq<char>)>> {
    Seq::new(walks.len(), |i: int| capability::dated(walks[i]))
}

/// The most recent write that walks over some directories found, the first of
/// equally recent ones.
pub open spec fn latest_write(walks: Seq<Option<(i64, Seq<char>)>>) -> Option<usage::Sighting>
    decreases walks.len(),
{
    if walks.len() == 0 {
        None
    } else {
        let before = latest_write(walks.drop_last());
        match (walks.last(), before) {
            (Some((mtime, path)), Some((_, best))) => if mtime > best {
                Some((path, mtime))
            } else {
                before
            },
            (Some((mtime, path)), None) => Some((path, mtime)),
            (None, _) => before,
        }
    }
}

/// The activity as it is judged.
pub open spec fn activity_view(activity: Option<HomeActivity>) -> Option<usage::Sighting> {
    match activity {
        Some(activity) => Some((activity.path@, activity.mtime)),
        None => None,
    }
}

/// The most recent write a package made under the user's home directory, from
/// what the walks over its directories found.
pub fn home_activity(walks: &Vec<Option<(i64, String)>>) -> (r: Option<HomeActivity>)
    ensures
        activity_view(r) == latest_write(walk_views(walks@)),
{
    let ghost all = walk_views(walks@);
    let mut best: Option<HomeActivity> = None;
    let mut i: usize = 0;
    assert(all.take(0) =~= Seq::empty());
    while i < walks.len()
        invariant
            i <= walks.len(),
            all == walk_views(walks@),
            activity_view(best) == latest_write(all.take(i as int)),
        decreases walks.len() - i,
    {
        proof {
            assert(all.take(i + 1).drop_last() =~= all.take(i as int));
            assert(all.take(i + 1).last() == all[i as int]);
        }
        if let Some((mtime, path)) = &walks[i] {
            let newer = match &best {
                Some(current) => *mtime > current.mtime,
                None => true,
            };
            if newer {
                best = Some(HomeActivity { path: path.clone(), mtime: *mtime });
            }
        }
        i += 1;
    }
    assert(all.take(all.len() as int) =~= all);
    best
}

// ---------------------------------------------------------------------------
// Probing a package
// ---------------------------------------------------------------------------

/// What to look at to judge when a package was last used.
pub struct Probe {
    /// Files to stat, relative to the root.
    pub witnesses: Vec<String>,
    /// Directories to walk for the newest write.
    pub directories: Vec<String>,
}

/// Decide what to look at, from a package's file list.
pub fn plan_probe(
    package: &Package,
    files: &str,
    index: &TextMap<Vec<String>>,
    config: &Config,
) -> (r: Probe)
    ensures
        text::texts(r.witnesses@) == usage::chosen_witnesses(
            localdb::files_in(localdb::sections_of(files@)),
            config@.witness_budget as nat,
        ),
        text::texts(r.directories@) == directories_for(
            usage::state_names(
                package@.name,
                localdb::files_in(localdb::sections_of(files@)),
            ),
            index@,
        ),
{
    let listed = localdb::parse_files(files);
    let chosen = usage::witnesses(listed.as_slice(), config.witness_budget);
    let mut witnesses: Vec<String> = Vec::new();
    let mut i: usize = 0;
    while i < chosen.len()
        invariant
            i <= chosen.len(),
            text::texts(witnesses@) == text::str_texts(chosen@).take(i as int),
        decreases chosen.len() - i,
    {
        add_text(&mut witnesses, chosen[i].to_owned());
        i += 1;
    }
    assert(text::str_texts(chosen@).take(chosen@.len() as int) =~= text::str_texts(chosen@));
    let names = usage::home_state_names(package.name.as_str(), listed.as_slice());
    let directories = home_directories(&names, index);
    Probe { witnesses, directories }
}

/// The witnesses that could be stat-ed, each with its access time.
pub open spec fn seen_witnesses(
    witnesses: Seq<Seq<char>>,
    atimes: Seq<Option<i64>>,
) -> Seq<usage::Sighting>
    decreases atimes.len(),
{
    if atimes.len() == 0 {
        Seq::empty()
    } else {
        let before = seen_witnesses(witnesses, atimes.drop_last());
        match atimes.last() {
            Some(atime) => before.push((witnesses[atimes.len() - 1], atime)),
            None => before,
        }
    }
}

/// Judge when a package was last used, from the access time of each witness
/// that could be stat-ed and the newest write of each directory. There is no
/// probe where the file list could not be read.
pub fn probe_package(
    package: &Package,
    probe: Option<&Probe>,
    atimes: &Vec<Option<i64>>,
    walks: &Vec<Option<(i64, String)>>,
    support: AtimeSupport,
) -> (r: UsageEvidence)
    requires
        probe is Some ==> atimes.len() == probe.unwrap().witnesses.len(),
    ensures
        r@ == (match probe {
            Some(probe) => usage::verdict(
                seen_witnesses(text::texts(probe.witnesses@), atimes@),
                latest_write(walk_views(walks@)),
                package@.install_date,
                support,
            ),
            None => model::UsageView::NoWitness,
        }),
{
    let probe = match probe {
        Some(probe) => probe,
        None => {
            return UsageEvidence::NoWitness;
        },
    };
    let ghost names = text::texts(probe.witnesses@);
    let mut observations: Vec<Observation<'_>> = Vec::new();
    let mut i: usize = 0;
    proof {
        assert(atimes@.take(0) =~= Seq::empty());
        assert(usage::sightings(observations@) =~= Seq::empty());
    }
    while i < atimes.len()
        invariant
            i <= atimes.len(),
            atimes.len() == probe.witnesses.len(),
            names == text::texts(probe.witnesses@),
            usage::sightings(observations@) == seen_witnesses(names, atimes@.take(i as int)),
        decreases atimes.len() - i,
    {
        let ghost before = usage::sightings(observations@);
        assert(atimes@.take(i + 1).drop_last() =~= atimes@.take(i as int));
        if let Some(atime) = atimes[i] {
            observations.push(Observation { path: probe.witnesses[i].as_str(), atime });
            assert(usage::sightings(observations@) =~= before.push((names[i as int], atime)));
        }
        i += 1;
    }
    assert(atimes@.take(atimes@.len() as int) =~= atimes@);
    let home = home_activity(walks);
    match &home {
        Some(activity) => usage::evaluate(
            observations.as_slice(),
            Some(activity),
            package.install_date,
            support,
        ),
        None => usage::evaluate(observations.as_slice(), None, package.install_date, support),
    }
}

// ---------------------------------------------------------------------------
// The scan
// ---------------------------------------------------------------------------

/// What the first half of a scan establishes: the packages, and what to probe.
pub struct Survey {
    /// Every installed package, sorted by name.
    pub packages: Vec<Package>,
    /// Where each came from.
    pub origins: TextMap<Origin>,
    /// How far access times can be trusted.
    pub atime_support: AtimeSupport,
    /// The positions of the packages to probe.
    pub probe_list: Vec<usize>,
    /// The per-user state directories, by name.
    pub index: TextMap<Vec<String>>,
    /// Non-fatal problems so far.
    pub warnings: Vec<String>,
}

/// Where the package database is.
pub open spec fn local_database(config: ConfigView) -> Seq<char> {
    path::join_path(config.db_path, "local"@)
}

/// What a survey says, from what was read.
pub open spec fn is_survey(
    survey: Survey,
    config: ConfigView,
    records: Seq<RecordView>,
    sync: SyncListing,
    mounts: Option<Seq<char>>,
    states: Seq<capability::EntryView>,
    dotted: Seq<capability::EntryView>,
) -> bool {
    let ps = sorted_packages(packages_read(records));
    &&& model::package_views(survey.packages@) == ps
    &&& are_origins(survey.origins@, ps, sync)
    &&& survey.atime_support == (if config.probe_usage && mounts is Some {
        usage::mount_support(
            split::lines(mounts.unwrap()),
            path::join_path(config.root, "usr"@),
        )
    } else {
        AtimeSupport::Unknown
    })
    &&& survey.probe_list@ == probe_positions(ps, survey.origins@, config.probe_top)
    &&& is_index(
        survey.index@,
        if config.home is Some {
            lowered(state_pairs(states) + dotted_pairs(dotted))
        } else {
            Seq::empty()
        },
    )
    &&& text::texts(survey.warnings@) == with_text(records_skipped(records), sync.complaint())
}

/// The first half of a scan: read the package database, find out where each
/// package came from, and decide what to probe.
///
/// `listing` is the package database or why it cannot be listed, `mounts` the
/// mount table, and `states` and `dotted` the listings of [`home_index`].
pub fn survey(
    config: &Config,
    listing: &Result<Vec<Record>, String>,
    sync: &SyncListing,
    mounts: Option<&str>,
    states: &Vec<capability::Entry>,
    dotted: &Vec<capability::Entry>,
) -> (r: Result<Survey, Error>)
    ensures
        match (listing, r) {
            (Err(reason), Err(error)) => error@ == (ErrorView::NoDatabase {
                path: local_database(config@),
                reason: reason@,
            }),
            (Err(_), Ok(_)) => false,
            (Ok(records), Err(error)) => packages_read(record_views(records@)).len() == 0 && error@
                == (ErrorView::EmptyDatabase { path: local_database(config@) }),
            (Ok(records), Ok(survey)) => packages_read(record_views(records@)).len() > 0
                && is_survey(
                survey,
                config@,
                record_views(records@),
                *sync,
                capability::name_view(mounts),
                capability::listing_views(states@),
                capability::listing_views(dotted@),
            ),
        },
{
    let local = join(config.db_path.as_str(), "local");
    let (packages, mut warnings) = match read_database(local.as_str(), listing) {
        Ok((packages, warnings)) => (packages, warnings),
        Err(error) => {
            return Err(error);
        },
    };
    let origins = resolve_origins(packages.as_slice(), sync, &mut warnings);
    let atime_support = if config.probe_usage {
        detect_atime_support(config, mounts)
    } else {
        AtimeSupport::Unknown
    };
    let graph = Graph::build(packages.as_slice());
    let probe_list = choose_probe_targets(packages.as_slice(), &graph, &origins, config);
    let index = match &config.home {
        Some(_) => home_index(states, dotted),
        None => {
            let none: Vec<(String, String)> = Vec::new();
            assert(filed_views(none@) =~= Seq::empty());
            index_pairs(&none)
        },
    };
    Ok(Survey { packages, origins, atime_support, probe_list, index, warnings })
}

/// The views of a list of verdicts.
pub open spec fn usage_views(usages: Seq<UsageEvidence>) -> Seq<model::UsageView> {
    Seq::new(usages.len(), |i: int| usages[i]@)
}

/// The place of a position among the first `k` of those that were probed.
pub open spec fn place_in(probed: Seq<usize>, k: nat, position: int) -> Option<nat>
    decreases k,
{
    if k == 0 {
        None
    } else if probed[k - 1] == position {
        Some((k - 1) as nat)
    } else {
        place_in(probed, (k - 1) as nat, position)
    }
}

/// The verdict on a package: that of its probe, where it was probed.
pub open spec fn verdict_on(
    probed: Seq<usize>,
    usages: Seq<model::UsageView>,
    position: int,
) -> model::UsageView {
    let k = if probed.len() < usages.len() {
        probed.len()
    } else {
        usages.len()
    };
    match place_in(probed, k, position) {
        Some(place) => usages[place as int],
        None => model::UsageView::NotProbed,
    }
}

/// Everything that is derived about a package.
pub open spec fn facts_about(
    ps: Seq<model::PackageView>,
    origins: Map<Seq<char>, Origin>,
    usage: model::UsageView,
    i: usize,
) -> model::FactsView {
    let name = ps[i as int].name;
    let gone = graph::removal(ps, set![i]);
    model::FactsView {
        required_by: graph::sorted_names(ps, graph::requirers(ps, i)),
        optional_for: graph::sorted_names(ps, graph::wanters(ps, i)),
        origin: if origins.contains_key(name) {
            origins[name]@
        } else {
            model::OriginView::Unknown
        },
        usage,
        reclaimable: number::saturated(graph::size_of(ps, gone)),
        frees: graph::sorted_names(ps, gone.remove(i)),
        protected: graph::is_guarded(ps, i),
    }
}

/// The entries of an inventory: every package with everything derived about
/// it.
pub open spec fn entries_of(
    ps: Seq<model::PackageView>,
    origins: Map<Seq<char>, Origin>,
    probed: Seq<usize>,
    usages: Seq<model::UsageView>,
) -> Seq<model::EntryView> {
    Seq::new(
        ps.len(),
        |i: int|
            model::EntryView {
                package: ps[i],
                facts: facts_about(ps, origins, verdict_on(probed, usages, i), i as usize),
            },
    )
}

/// The position of each name, the last one where a name occurs twice.
pub open spec fn index_of(entries: Seq<model::EntryView>) -> Map<Seq<char>, usize>
    decreases entries.len(),
{
    if entries.len() == 0 {
        Map::empty()
    } else {
        index_of(entries.drop_last()).insert(
            entries.last().package.name,
            (entries.len() - 1) as usize,
        )
    }
}

/// How many verdicts show use.
pub open spec fn used_count(usages: Seq<model::UsageView>) -> nat
    decreases usages.len(),
{
    if usages.len() == 0 {
        0
    } else {
        used_count(usages.drop_last()) + if usages.last().is_used() {
            1nat
        } else {
            0nat
        }
    }
}

/// What there is to say where access times are frozen.
pub open spec fn frozen_text(usages: Seq<model::UsageView>) -> Seq<char> {
    "access times are frozen on the filesystem holding /usr (noatime), so most packages cannot be dated. "@
        + number::decimal(used_count(usages))
        + " were dated from what they wrote under your home directory instead. Mounting with relatime would date the rest."@
}

/// The inventory that a scan makes.
pub open spec fn inventory_of(
    config: ConfigView,
    survey: Survey,
    usages: Seq<model::UsageView>,
    m: targets::MeasurementsView,
    now: i64,
) -> model::InventoryView {
    let entries = entries_of(
        model::package_views(survey.packages@),
        survey.origins@,
        survey.probe_list@,
        usages,
    );
    let said = text::texts(survey.warnings@);
    model::InventoryView {
        entries,
        index: index_of(entries),
        targets: targets::shown_targets(targets::all_target_views(entries, config, m)),
        atime_support: survey.atime_support,
        scanned_at: now,
        probed: usages.len() as usize,
        warnings: with_text(
            said,
            if survey.atime_support == AtimeSupport::Disabled {
                Some(frozen_text(usages))
            } else {
                None
            },
        ) + targets::ownerless(m.modules),
    }
}

/// What there is to say where access times are frozen.
fn frozen_warning(usages: &Vec<UsageEvidence>) -> (r: String)
    ensures
        r@ == frozen_text(usage_views(usages@)),
{
    let ghost all = usage_views(usages@);
    let mut recovered: usize = 0;
    let mut i: usize = 0;
    assert(all.take(0) =~= Seq::empty());
    while i < usages.len()
        invariant
            i <= usages.len(),
            recovered <= i,
            all == usage_views(usages@),
            recovered == used_count(all.take(i as int)),
        decreases usages.len() - i,
    {
        assert(all.take(i + 1).drop_last() =~= all.take(i as int));
        if usages[i].is_used() {
            recovered += 1;
        }
        i += 1;
    }
    assert(all.take(all.len() as int) =~= all);
    concat3(
        "access times are frozen on the filesystem holding /usr (noatime), so most packages cannot be dated. ",
        count(recovered).as_str(),
        " were dated from what they wrote under your home directory instead. Mounting with relatime would date the rest.",
    )
}

/// Where among the probes each package's verdict is.
fn places(probed: &Vec<usize>, k: usize, n: usize) -> (r: Vec<Option<usize>>)
    requires
        k <= probed.len(),
    ensures
        r.len() == n,
        forall|i: int|
            0 <= i < n ==> (match #[trigger] r@[i] {
                Some(place) => place_in(probed@, k as nat, i) == Some(place as nat) && place < k,
                None => place_in(probed@, k as nat, i) is None,
            }),
{
    let mut out: Vec<Option<usize>> = Vec::new();
    let mut i: usize = 0;
    while i < n
        invariant
            i <= n,
            out.len() == i,
            forall|j: int| 0 <= j < i ==> (#[trigger] out@[j]) is None,
        decreases n - i,
    {
        out.push(None);
        i += 1;
    }
    let mut at: usize = 0;
    while at < k
        invariant
            at <= k <= probed.len(),
            out.len() == n,
            forall|i: int|
                0 <= i < n ==> (match #[trigger] out@[i] {
                    Some(place) => place_in(probed@, at as nat, i) == Some(place as nat) && place
                        < at,
                    None => place_in(probed@, at as nat, i) is None,
                }),
        decreases k - at,
    {
        let position: usize = probed[at];
        if position < n {
            out.set(position, Some(at));
        }
        at += 1;
    }
    out
}

/// Put an inventory together: the second half of a scan.
///
/// `usages` are the verdicts on the packages of the survey's probe list, in
/// its order, `m` is what was measured outside the package set, and `now` is
/// when.
pub fn scan(
    config: &Config,
    survey: Survey,
    usages: Vec<UsageEvidence>,
    m: &Measurements,
    now: i64,
) -> (r: Inventory)
    ensures
        r@ == inventory_of(config@, survey, usage_views(usages@), m@, now),
{
    let ghost ps = model::package_views(survey.packages@);
    let ghost verdicts = usage_views(usages@);
    let ghost wanted = entries_of(ps, survey.origins@, survey.probe_list@, verdicts);
    let ghost probed = survey.probe_list@;
    let ghost said = text::texts(survey.warnings@);
    let n: usize = survey.packages.len();
    let k: usize = if survey.probe_list.len() < usages.len() {
        survey.probe_list.len()
    } else {
        usages.len()
    };
    let place_of = places(&survey.probe_list, k, n);
    let graph = Graph::build(survey.packages.as_slice());
    let mut entries: Vec<Entry> = Vec::new();
    let mut index: TextMap<usize> = TextMap::new();
    let mut i: usize = 0;
    proof {
        assert(wanted.take(0) =~= Seq::empty());
        assert(model::entry_views(entries@) =~= Seq::empty());
    }
    while i < n
        invariant
            i <= n,
            n == survey.packages.len(),
            ps == model::package_views(survey.packages@),
            graph.view_packages() == ps,
            verdicts == usage_views(usages@),
            probed == survey.probe_list@,
            wanted == entries_of(ps, survey.origins@, probed, verdicts),
            k <= usages.len(),
            k == (if probed.len() < verdicts.len() {
                probed.len()
            } else {
                verdicts.len()
            }),
            place_of.len() == n,
            forall|j: int|
                0 <= j < n ==> (match #[trigger] place_of@[j] {
                    Some(place) => place_in(probed, k as nat, j) == Some(place as nat) && place < k,
                    None => place_in(probed, k as nat, j) is None,
                }),
            model::entry_views(entries@) == wanted.take(i as int),
            index@ == index_of(wanted.take(i as int)),
        decreases n - i,
    {
        let package = &survey.packages[i];
        let usage = match place_of[i] {
            Some(place) => usages[place].clone(),
            None => UsageEvidence::NotProbed,
        };
        assert(usage@ == verdict_on(probed, verdicts, i as int));
        let mut seed: BTreeSet<usize> = BTreeSet::new();
        seed.insert(i);
        assert(seed@ =~= set![i]);
        let facts = Facts {
            required_by: graph.required_by(i),
            optional_for: graph.optional_for(i),
            origin: match survey.origins.get(package.name.as_str()) {
                Some(origin) => origin.clone(),
                None => Origin::Unknown,
            },
            usage,
            reclaimable: graph.reclaimable(&seed),
            frees: graph.dragged_along(i),
            protected: graph.is_protected(i),
        };
        index.insert(package.name.as_str(), i);
        let entry = Entry { package: package.clone(), facts };
        let ghost added = entry@;
        let ghost before = model::entry_views(entries@);
        entries.push(entry);
        proof {
            assert(added =~= wanted[i as int]);
            assert(model::entry_views(entries@) =~= before.push(added));
            assert(wanted.take(i + 1) =~= wanted.take(i as int).push(added));
            assert(wanted.take(i + 1).drop_last() =~= wanted.take(i as int));
        }
        i += 1;
    }
    assert(wanted.take(wanted.len() as int) =~= wanted);
    assert(model::packages_of(wanted) =~= ps);
    let probed_count: usize = usages.len();
    let mut warnings = copy_texts(&survey.warnings);
    if !survey.atime_support.is_meaningful() {
        add_text(&mut warnings, frozen_warning(&usages));
    }
    let found = collect_targets(
        entries.as_slice(),
        survey.packages.as_slice(),
        config,
        m,
        &mut warnings,
    );
    Inventory {
        entries,
        index,
        targets: found,
        atime_support: survey.atime_support,
        scanned_at: now,
        probed: probed_count,
        warnings,
    }
}

/// A scan of another root leaves the user's home alone: whatever the
/// configuration there says, no home directory is measured.
pub proof fn other_roots_have_no_home(
    root: Seq<char>,
    home: Option<Seq<char>>,
    conf: Option<Seq<char>>,
)
    requires
        !path::is_root_path(root),
    ensures
        config_under(root, home, conf).home is None,
        config_under(root, home, conf).root == root,
{
}

/// Every package name resolves through the index, to an entry of that name.
pub proof fn every_name_resolves(entries: Seq<model::EntryView>, i: int)
    requires
        0 <= i < entries.len(),
        entries.len() <= usize::MAX,
    ensures
        index_of(entries).contains_key(entries[i].package.name),
        index_of(entries)[entries[i].package.name] < entries.len(),
        entries[index_of(entries)[entries[i].package.name] as int].package.name
            == entries[i].package.name,
    decreases entries.len(),
{
    if i < entries.len() - 1 && entries[i].package.name != entries.last().package.name {
        every_name_resolves(entries.drop_last(), i);
        assert(entries.drop_last()[i] == entries[i]);
        let at = index_of(entries.drop_last())[entries[i].package.name] as int;
        assert(entries.drop_last()[at] == entries[at]);
    }
}

} // verus!
