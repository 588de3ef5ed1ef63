//! Reclaimable space that is not a package.
//!
//! Removing packages is rarely the biggest win on an Arch system. The package
//! cache alone routinely holds tens of gigabytes of superseded `.pkg.tar.zst`
//! files, and an AUR helper's build cache holds a full git clone plus build
//! tree for every package it ever touched. This module models those targets
//! and the arithmetic behind them; [`crate::scan`] fills them in.
use vstd::prelude::*;

use crate::number;
use crate::path;
use crate::path::{parts, parts_at_most};
use crate::sort;
use crate::sort::sorted_positions;
use crate::split;
use crate::split::{joined, rsplit_once};
use crate::text;
use crate::text::{add_text, at_most, before_text, concat3, contains, copy_texts, list_contains, same, strip_suffix};
use crate::textmap;
use crate::textmap::TextMap;

verus! {

/// Which cleanup a target represents.
#[derive(Clone, Copy, Debug, PartialEq, Eq, Structural)]
pub enum Kind {
    /// Superseded package archives under `/var/cache/pacman/pkg`.
    PacmanCacheSuperseded,
    /// Cached archives for packages that are no longer installed.
    PacmanCacheUninstalled,
    /// An AUR helper's clone and build tree cache.
    AurHelperCache,
    /// Packages installed as dependencies that nothing requires any more.
    Orphans,
    /// AUR packages whose files have not been read since they were installed.
    UnusedForeign,
    /// Debug symbol packages.
    DebugPackages,
    /// `.pacnew` and `.pacsave` configuration leftovers.
    ConfigLeftovers,
    /// Kernel module trees left behind by removed kernels.
    StaleKernelModules,
    /// Systemd coredumps.
    Coredumps,
    /// The systemd journal.
    Journal,
    /// Per-user application caches.
    UserCache,
    /// Language toolchain caches: cargo, npm, go, gradle, pip.
    DeveloperCache,
    /// The desktop trash directory.
    Trash,
    /// Unused flatpak runtimes.
    FlatpakUnused,
}

impl Kind {
    /// The identifier of a kind.
    pub open spec fn slug_text(self) -> Seq<char> {
        match self {
            Kind::PacmanCacheSuperseded => "pacman-cache-superseded"@,
            Kind::PacmanCacheUninstalled => "pacman-cache-uninstalled"@,
            Kind::AurHelperCache => "aur-helper-cache"@,
            Kind::Orphans => "orphans"@,
            Kind::UnusedForeign => "unused-foreign"@,
            Kind::DebugPackages => "debug-packages"@,
            Kind::ConfigLeftovers => "config-leftovers"@,
            Kind::StaleKernelModules => "stale-kernel-modules"@,
            Kind::Coredumps => "coredumps"@,
            Kind::Journal => "journal"@,
            Kind::UserCache => "user-cache"@,
            Kind::DeveloperCache => "developer-cache"@,
            Kind::Trash => "trash"@,
            Kind::FlatpakUnused => "flatpak-unused"@,
        }
    }

    /// Stable identifier used in the JSON report.
    pub fn slug(self) -> (r: &'static str)
        ensures
            r@ == self.slug_text(),
    {
        match self {
            Kind::PacmanCacheSuperseded => "pacman-cache-superseded",
            Kind::PacmanCacheUninstalled => "pacman-cache-uninstalled",
            Kind::AurHelperCache => "aur-helper-cache",
            Kind::Orphans => "orphans",
            Kind::UnusedForeign => "unused-foreign",
            Kind::DebugPackages => "debug-packages",
            Kind::ConfigLeftovers => "config-leftovers",
            Kind::StaleKernelModules => "stale-kernel-modules",
            Kind::Coredumps => "coredumps",
            Kind::Journal => "journal",
            Kind::UserCache => "user-cache",
            Kind::DeveloperCache => "developer-cache",
            Kind::Trash => "trash",
            Kind::FlatpakUnused => "flatpak-unused",
        }
    }
}

/// How much care a target deserves before acting on it.
#[derive(Clone, Copy, Debug, PartialEq, Eq, Structural)]
pub enum Safety {
    /// Pure cache. Deleting it costs a re-download at worst.
    Safe,
    /// Recoverable, but look at the list first.
    Review,
    /// Removes something that cannot be regenerated.
    Careful,
}

impl Safety {
    /// The label of a degree of care.
    pub open spec fn label_text(self) -> Seq<char> {
        match self {
            Safety::Safe => "safe"@,
            Safety::Review => "review"@,
            Safety::Careful => "careful"@,
        }
    }

    /// Short label for the UI.
    pub fn label(self) -> (r: &'static str)
        ensures
            r@ == self.label_text(),
    {
        match self {
            Safety::Safe => "safe",
            Safety::Review => "review",
            Safety::Careful => "careful",
        }
    }
}

/// An external command that performs a cleanup.
#[derive(Debug, PartialEq, Eq)]
pub struct Command {
    /// Executable name, resolved through `PATH`.
    pub program: String,
    /// Arguments, already split.
    pub args: Vec<String>,
    /// Whether the command must run as root.
    pub needs_root: bool,
}

/// The view of a [`Command`].
#[verifier::ext_equal]
pub struct CommandView {
    /// See [`Command::program`].
    pub program: Seq<char>,
    /// See [`Command::args`].
    pub args: Seq<Seq<char>>,
    /// See [`Command::needs_root`].
    pub needs_root: bool,
}

impl View for Command {
    type V = CommandView;

    open spec fn view(&self) -> CommandView {
        CommandView {
            program: self.program@,
            args: text::texts(self.args@),
            needs_root: self.needs_root,
        }
    }
}

impl Clone for Command {
    fn clone(&self) -> (r: Command)
        ensures
            r@ == self@,
    {
        Command {
            program: self.program.clone(),
            args: copy_texts(&self.args),
            needs_root: self.needs_root,
        }
    }
}

impl CommandView {
    /// The command as a shell line: `sudo` where root is needed, the program
    /// and its arguments, with a space between each two.
    pub open spec fn shell(self) -> Seq<char> {
        let words = seq![self.program] + self.args;
        split::join(
            if self.needs_root {
                seq!["sudo"@] + words
            } else {
                words
            },
            " "@,
        )
    }
}

impl Command {
    /// Build a command.
    pub fn new(program: &str, args: &[&str], needs_root: bool) -> (r: Command)
        ensures
            r@.program == program@,
            r@.args == text::str_texts(args@),
            r@.needs_root == needs_root,
    {
        let mut owned: Vec<String> = Vec::new();
        let mut i: usize = 0;
        while i < args.len()
            invariant
                i <= args.len(),
                text::texts(owned@) == text::str_texts(args@).take(i as int),
            decreases args.len() - i,
        {
            let ghost before = owned@;
            owned.push(args[i].to_owned());
            assert(text::texts(owned@) =~= text::texts(before).push(args@[i as int]@));
            i += 1;
        }
        assert(text::str_texts(args@).take(args@.len() as int) =~= text::str_texts(args@));
        Command { program: program.to_owned(), args: owned, needs_root }
    }

    /// Render the command as a copy-pasteable shell line.
    pub fn to_shell(&self) -> (r: String)
        ensures
            r@ == self@.shell(),
    {
        let mut parts: Vec<String> = Vec::new();
        if self.needs_root {
            parts.push("sudo".to_owned());
        }
        parts.push(self.program.clone());
        let ghost head = text::texts(parts@);
        let mut args = copy_texts(&self.args);
        parts.append(&mut args);
        proof {
            let words = seq![self@.program] + self@.args;
            assert(text::texts(parts@) =~= head + self@.args);
            if self.needs_root {
                assert(head =~= seq!["sudo"@, self@.program]);
                assert(text::texts(parts@) =~= seq!["sudo"@] + words);
            } else {
                assert(head =~= seq![self@.program]);
            }
        }
        joined(&parts, " ")
    }
}

/// How a target's space is reclaimed.
#[derive(Debug, PartialEq, Eq)]
pub enum Reclaim {
    /// Delete these paths. Held explicitly so the UI can show them first.
    Paths {
        /// Absolute paths to remove.
        paths: Vec<String>,
        /// Whether removal needs root.
        needs_root: bool,
    },
    /// Run this command.
    Run {
        /// The command to run.
        command: Command,
    },
    /// Handled elsewhere in the UI, e.g. on the packages tab.
    Handoff {
        /// Where the user should go.
        hint: String,
    },
    /// Nothing automatic. Here is the suggestion.
    Advice {
        /// What to do by hand.
        text: String,
    },
}

/// The view of a [`Reclaim`].
#[verifier::ext_equal]
pub enum ReclaimView {
    /// See [`Reclaim::Paths`].
    Paths {
        /// Absolute paths.
        paths: Seq<Seq<char>>,
        /// Whether removal needs root.
        needs_root: bool,
    },
    /// See [`Reclaim::Run`].
    Run {
        /// The command.
        command: CommandView,
    },
    /// See [`Reclaim::Handoff`].
    Handoff {
        /// Where to go.
        hint: Seq<char>,
    },
    /// See [`Reclaim::Advice`].
    Advice {
        /// What to do.
        text: Seq<char>,
    },
}

impl View for Reclaim {
    type V = ReclaimView;

    open spec fn view(&self) -> ReclaimView {
        match *self {
            Reclaim::Paths { paths, needs_root } => ReclaimView::Paths {
                paths: text::texts(paths@),
                needs_root,
            },
            Reclaim::Run { command } => ReclaimView::Run { command: command@ },
            Reclaim::Handoff { hint } => ReclaimView::Handoff { hint: hint@ },
            Reclaim::Advice { text } => ReclaimView::Advice { text: text@ },
        }
    }
}

impl Clone for Reclaim {
    fn clone(&self) -> (r: Reclaim)
        ensures
            r@ == self@,
    {
        match self {
            Reclaim::Paths { paths, needs_root } => Reclaim::Paths {
                paths: copy_texts(paths),
                needs_root: *needs_root,
            },
            Reclaim::Run { command } => Reclaim::Run { command: command.clone() },
            Reclaim::Handoff { hint } => Reclaim::Handoff { hint: hint.clone() },
            Reclaim::Advice { text } => Reclaim::Advice { text: text.clone() },
        }
    }
}

/// One reclaimable thing found on the system.
#[derive(Debug, PartialEq, Eq)]
pub struct Target {
    /// Which cleanup this is.
    pub kind: Kind,
    /// One-line title for the table.
    pub title: String,
    /// Where the space is.
    pub location: String,
    /// Why it is safe, or what to watch out for.
    pub detail: String,
    /// Bytes recoverable, or `None` when the size cannot be known cheaply.
    pub bytes: Option<u64>,
    /// Number of files, directories or packages involved.
    pub items: usize,
    /// How much care it deserves.
    pub safety: Safety,
    /// How to reclaim it.
    pub reclaim: Reclaim,
}

/// The view of a [`Target`].
#[verifier::ext_equal]
pub struct TargetView {
    /// See [`Target::kind`].
    pub kind: Kind,
    /// See [`Target::title`].
    pub title: Seq<char>,
    /// See [`Target::location`].
    pub location: Seq<char>,
    /// See [`Target::detail`].
    pub detail: Seq<char>,
    /// See [`Target::bytes`].
    pub bytes: Option<u64>,
    /// See [`Target::items`].
    pub items: usize,
    /// See [`Target::safety`].
    pub safety: Safety,
    /// See [`Target::reclaim`].
    pub reclaim: ReclaimView,
}

impl View for Target {
    type V = TargetView;

    open spec fn view(&self) -> TargetView {
        TargetView {
            kind: self.kind,
            title: self.title@,
            location: self.location@,
            detail: self.detail@,
            bytes: self.bytes,
            items: self.items,
            safety: self.safety,
            reclaim: self.reclaim@,
        }
    }
}

impl Clone for Target {
    fn clone(&self) -> (r: Target)
        ensures
            r@ == self@,
    {
        Target {
            kind: self.kind,
            title: self.title.clone(),
            location: self.location.clone(),
            detail: self.detail.clone(),
            bytes: self.bytes,
            items: self.items,
            safety: self.safety,
            reclaim: self.reclaim.clone(),
        }
    }
}

/// The views of a list of targets.
pub open spec fn target_views(targets: Seq<Target>) -> Seq<TargetView> {
    Seq::new(targets.len(), |i: int| targets[i]@)
}

/// The known bytes of a list of targets, added up.
pub open spec fn known_sum(targets: Seq<TargetView>) -> nat
    decreases targets.len(),
{
    if targets.len() == 0 {
        0
    } else {
        known_sum(targets.drop_last()) + targets.last().known_bytes() as nat
    }
}

impl TargetView {
    /// The bytes of a target, an unknown size counting as zero.
    pub open spec fn known_bytes(self) -> u64 {
        match self.bytes {
            Some(bytes) => bytes,
            None => 0,
        }
    }
}

impl Target {
    /// Bytes, treating an unknown size as zero for totalling purposes.
    pub fn known_bytes(&self) -> (r: u64)
        ensures
            r == self@.known_bytes(),
    {
        match self.bytes {
            Some(bytes) => bytes,
            None => 0,
        }
    }
}

/// The known bytes of a list of targets, added up.
pub fn known_total(targets: &Vec<Target>) -> (r: u64)
    ensures
        r == number::saturated(known_sum(target_views(targets@))),
{
    let ghost all = target_views(targets@);
    let mut sum: u64 = 0;
    let mut i: usize = 0;
    assert(all.take(0) =~= Seq::empty());
    while i < targets.len()
        invariant
            i <= targets.len(),
            all == target_views(targets@),
            sum == number::saturated(known_sum(all.take(i as int))),
        decreases targets.len() - i,
    {
        assert(all.take(i + 1).drop_last() =~= all.take(i as int));
        sum = sum.saturating_add(targets[i].known_bytes());
        i += 1;
    }
    assert(all.take(all.len() as int) =~= all);
    sum
}

// ---------------------------------------------------------------------------
// The package cache
// ---------------------------------------------------------------------------

/// One archive sitting in the package cache.
#[derive(Clone, Debug, PartialEq, Eq)]
pub struct CachedArchive {
    /// Absolute path of the archive.
    pub path: String,
    /// Package name parsed out of the filename.
    pub name: String,
    /// `pkgver-pkgrel` parsed out of the filename.
    pub version: String,
    /// Size on disk, signature file included.
    pub bytes: u64,
    /// Modification time, used to order versions newest first.
    pub mtime: i64,
}

/// The view of a [`CachedArchive`].
#[verifier::ext_equal]
pub struct ArchiveView {
    /// See [`CachedArchive::path`].
    pub path: Seq<char>,
    /// See [`CachedArchive::name`].
    pub name: Seq<char>,
    /// See [`CachedArchive::version`].
    pub version: Seq<char>,
    /// See [`CachedArchive::bytes`].
    pub bytes: u64,
    /// See [`CachedArchive::mtime`].
    pub mtime: i64,
}

impl View for CachedArchive {
    type V = ArchiveView;

    open spec fn view(&self) -> ArchiveView {
        ArchiveView {
            path: self.path@,
            name: self.name@,
            version: self.version@,
            bytes: self.bytes,
            mtime: self.mtime,
        }
    }
}

/// The views of a list of archives.
pub open spec fn archive_views(archives: Seq<CachedArchive>) -> Seq<ArchiveView> {
    Seq::new(archives.len(), |i: int| archives[i]@)
}

/// An archive's file name without its suffixes: what stands before `.pkg.tar`,
/// a `.sig` behind it not counted. There is none where there is no `.pkg.tar`.
pub open spec fn archive_stem(file_name: Seq<char>) -> Option<Seq<char>> {
    let base = if text::ends(file_name, ".sig"@) {
        file_name.take(file_name.len() - ".sig"@.len())
    } else {
        file_name
    };
    if text::occurs(base, ".pkg.tar"@) {
        Some(text::before_occurrence(base, ".pkg.tar"@))
    } else {
        None
    }
}

/// The name and the version in an archive's stem: its last field is the
/// architecture, the two before it make up the version, and the name is what
/// is left.
pub open spec fn stem_fields(stem: Seq<char>) -> Option<(Seq<char>, Seq<char>)> {
    match split::rsplit_once_at(stem, '-') {
        Some((rest, _)) => match split::rsplit_once_at(rest, '-') {
            Some((front, pkgrel)) => match split::rsplit_once_at(front, '-') {
                Some((name, pkgver)) => if name.len() > 0 {
                    Some((name, pkgver + "-"@ + pkgrel))
                } else {
                    None
                },
                None => None,
            },
            None => None,
        },
        None => None,
    }
}

/// The name and the version in an archive's file name.
pub open spec fn archive_fields(file_name: Seq<char>) -> Option<(Seq<char>, Seq<char>)> {
    match archive_stem(file_name) {
        Some(stem) => stem_fields(stem),
        None => None,
    }
}

/// Split a cached archive filename into `(name, version)`.
///
/// Filenames are `<pkgname>-<pkgver>-<pkgrel>-<arch>.pkg.tar.<ext>`. Neither
/// `pkgver` nor `pkgrel` nor `arch` may contain a hyphen, so peeling the last
/// three hyphen-separated fields recovers the name. Anything that does not fit
/// the shape is left alone rather than guessed at.
pub fn parse_archive_name(file_name: &str) -> (r: Option<(String, String)>)
    ensures
        match r {
            Some((name, version)) => archive_fields(file_name@) == Some((name@, version@)),
            None => archive_fields(file_name@) is None,
        },
{
    let base = match strip_suffix(file_name, ".sig") {
        Some(base) => base,
        None => file_name,
    };
    if !contains(base, ".pkg.tar") {
        return None;
    }
    let stem = before_text(base, ".pkg.tar");
    match rsplit_once(stem, '-') {
        Some((rest, _arch)) => match rsplit_once(rest, '-') {
            Some((front, pkgrel)) => match rsplit_once(front, '-') {
                Some((name, pkgver)) => if name.is_empty() {
                    None
                } else {
                    Some((name.to_owned(), concat3(pkgver, "-", pkgrel)))
                },
                None => None,
            },
            None => None,
        },
        None => None,
    }
}

/// The stem of an archive's file name.
pub open spec fn stem_of(
    name: Seq<char>,
    pkgver: Seq<char>,
    pkgrel: Seq<char>,
    arch: Seq<char>,
) -> Seq<char> {
    name + seq!['-'] + pkgver + seq!['-'] + pkgrel + seq!['-'] + arch
}

/// `.pkg.tar` occurs behind a stem that does not hold it, and nowhere before.
proof fn lemma_suffix_is_first(stem: Seq<char>, ext: Seq<char>)
    requires
        !text::occurs(stem, ".pkg.tar"@),
    ensures
        text::before_occurrence(stem + ".pkg.tar"@ + ext, ".pkg.tar"@) == stem,
{
    let p = ".pkg.tar"@;
    reveal_strlit(".pkg.tar");
    let whole = stem + p + ext;
    let n = stem.len() as int;
    assert(whole.subrange(n, n + p.len()) =~= p);
    assert(text::occurs_at(whole, p, n));
    assert forall|j: int| 0 <= j < n implies !#[trigger] text::occurs_at(whole, p, j) by {
        if text::occurs_at(whole, p, j) {
            let found = whole.subrange(j, j + p.len());
            if j + p.len() <= n {
                assert(stem.subrange(j, j + p.len()) =~= found);
                assert(text::occurs_at(stem, p, j));
            } else {
                // The two occurrences would overlap, and no end of `.pkg.tar`
                // is a beginning of it.
                let k = n - j;
                assert(found[k] == p[0]);
                assert(p[k] == '.');
                assert(k == 4);
                assert(found[5] == p[1]);
            }
        }
    }
    assert(text::is_first_occurrence(whole, p, n));
    let f = text::first_occurrence(whole, p);
    assert(text::is_first_occurrence(whole, p, f));
    assert(f == n) by {
        if f < n {
            assert(text::occurs_at(whole, p, f));
        } else if n < f {
            assert(text::occurs_at(whole, p, n));
        }
    }
    assert(whole.take(n) =~= stem);
}

/// A parsed archive filename can be rebuilt from its parts: the name and the
/// version that a filename was made of are what parsing it gives.
pub proof fn archive_names_round_trip(
    name: Seq<char>,
    pkgver: Seq<char>,
    pkgrel: Seq<char>,
    arch: Seq<char>,
    ext: Seq<char>,
)
    requires
        name.len() > 0,
        !pkgver.contains('-'),
        !pkgrel.contains('-'),
        !arch.contains('-'),
        !text::occurs(stem_of(name, pkgver, pkgrel, arch), ".pkg.tar"@),
    ensures
        archive_fields(stem_of(name, pkgver, pkgrel, arch) + ".pkg.tar"@ + ext) == Some(
            (name, pkgver + "-"@ + pkgrel),
        ),
{
    let stem = stem_of(name, pkgver, pkgrel, arch);
    let p = ".pkg.tar"@;
    let sig = ".sig"@;
    let file = stem + p + ext;
    reveal_strlit(".pkg.tar");
    reveal_strlit(".sig");
    reveal_strlit("-");
    if text::ends(file, sig) {
        let tail = file.skip(file.len() - sig.len());
        assert(tail[0] == '.');
        assert(tail[1] == 's');
        if ext.len() < 4 {
            // Only the `.tar` of the suffix could be overlapped.
            assert(file[file.len() - 4] == '.');
            let k = p.len() - (4 - ext.len());
            assert(file[file.len() - 4] == p[k]);
            assert(k == 4);
            assert(file[file.len() - 3] == p[5]);
        }
        let shorter = ext.take(ext.len() - 4);
        assert(file.take(file.len() - sig.len()) =~= stem + p + shorter);
        lemma_suffix_is_first(stem, shorter);
    } else {
        lemma_suffix_is_first(stem, ext);
    }
    assert(archive_stem(file) == Some(stem));
    let rest = name + seq!['-'] + pkgver + seq!['-'] + pkgrel;
    let front = name + seq!['-'] + pkgver;
    assert(stem =~= rest + seq!['-'] + arch);
    split::rsplit_of_joined(rest, '-', arch);
    assert(rest =~= front + seq!['-'] + pkgrel);
    split::rsplit_of_joined(front, '-', pkgrel);
    split::rsplit_of_joined(name, '-', pkgver);
}

/// The split of a package cache into what is worth keeping and what is not.
#[derive(Clone, Debug, PartialEq, Eq)]
pub struct CachePlan {
    /// Archives for packages that are not installed at all.
    pub uninstalled: Vec<String>,
    /// Bytes held by those archives.
    pub uninstalled_bytes: u64,
    /// Archives of installed packages beyond the versions being kept.
    pub superseded: Vec<String>,
    /// Bytes held by those archives.
    pub superseded_bytes: u64,
}

/// The view of a [`CachePlan`].
#[verifier::ext_equal]
pub struct CachePlanView {
    /// See [`CachePlan::uninstalled`].
    pub uninstalled: Seq<Seq<char>>,
    /// See [`CachePlan::uninstalled_bytes`].
    pub uninstalled_bytes: u64,
    /// See [`CachePlan::superseded`].
    pub superseded: Seq<Seq<char>>,
    /// See [`CachePlan::superseded_bytes`].
    pub superseded_bytes: u64,
}

impl View for CachePlan {
    type V = CachePlanView;

    open spec fn view(&self) -> CachePlanView {
        CachePlanView {
            uninstalled: text::texts(self.uninstalled@),
            uninstalled_bytes: self.uninstalled_bytes,
            superseded: text::texts(self.superseded@),
            superseded_bytes: self.superseded_bytes,
        }
    }
}

impl Default for CachePlan {
    fn default() -> (r: CachePlan)
        ensures
            r@ == (CachePlanView {
                uninstalled: Seq::empty(),
                uninstalled_bytes: 0,
                superseded: Seq::empty(),
                superseded_bytes: 0,
            }),
    {
        let r = CachePlan {
            uninstalled: Vec::new(),
            uninstalled_bytes: 0,
            superseded: Vec::new(),
            superseded_bytes: 0,
        };
        assert(text::texts(r.uninstalled@) =~= Seq::empty());
        assert(text::texts(r.superseded@) =~= Seq::empty());
        r
    }
}

/// Whether `a` does not come behind `b`: by name, then newest first, then by
/// version, the larger first.
pub open spec fn newer_le(a: ArchiveView, b: ArchiveView) -> bool {
    &&& text::text_le(a.name, b.name)
    &&& a.name == b.name ==> {
        &&& a.mtime >= b.mtime
        &&& a.mtime == b.mtime ==> text::text_le(b.version, a.version)
    }
}

/// The order of archives, as a relation between positions.
pub open spec fn newer_order(archives: Seq<ArchiveView>) -> spec_fn(int, int) -> bool {
    |a: int, b: int| newer_le(archives[a], archives[b])
}

/// The archives package by package, newest first. Archives that are equal in
/// all of this stay in their order.
pub open spec fn newest_first(archives: Seq<ArchiveView>) -> Seq<usize> {
    sort::stable_order(newer_order(archives), archives.len())
}

/// Whether an archive is for a package that is installed.
pub open spec fn is_installed(archive: ArchiveView, installed: Map<Seq<char>, Seq<char>>) -> bool {
    installed.contains_key(archive.name)
}

/// Whether an archive holds the installed version of its package.
pub open spec fn is_current(archive: ArchiveView, installed: Map<Seq<char>, Seq<char>>) -> bool {
    installed.contains_key(archive.name) && installed[archive.name] == archive.version
}

/// The versions of the package `name` that are kept besides the installed one,
/// as far as the first `k` archives show them: the `keep` newest. Several
/// archives of a version, its signature among them, count once.
pub open spec fn kept_versions(
    archives: Seq<ArchiveView>,
    installed: Map<Seq<char>, Seq<char>>,
    keep: usize,
    p: Seq<usize>,
    name: Seq<char>,
    k: nat,
) -> Seq<Seq<char>>
    decreases k,
{
    if k == 0 {
        Seq::empty()
    } else {
        let before = kept_versions(archives, installed, keep, p, name, (k - 1) as nat);
        let archive = archives[p[k - 1] as int];
        if archive.name == name && is_installed(archive, installed) && !is_current(
            archive,
            installed,
        ) && !before.contains(archive.version) && before.len() < keep {
            before.push(archive.version)
        } else {
            before
        }
    }
}

/// Whether the archive at place `k` is superseded: its package is installed in
/// another version, and its own is not among the versions that are kept.
pub open spec fn is_superseded(
    archives: Seq<ArchiveView>,
    installed: Map<Seq<char>, Seq<char>>,
    keep: usize,
    p: Seq<usize>,
    k: int,
) -> bool {
    let archive = archives[p[k] as int];
    &&& is_installed(archive, installed)
    &&& !is_current(archive, installed)
    &&& !kept_versions(archives, installed, keep, p, archive.name, p.len()).contains(
        archive.version,
    )
}

/// The superseded archives among the first `k`.
pub open spec fn superseded_among(
    archives: Seq<ArchiveView>,
    installed: Map<Seq<char>, Seq<char>>,
    keep: usize,
    p: Seq<usize>,
    k: nat,
) -> Seq<usize>
    decreases k,
{
    if k == 0 {
        Seq::empty()
    } else {
        let before = superseded_among(archives, installed, keep, p, (k - 1) as nat);
        if is_superseded(archives, installed, keep, p, k - 1) {
            before.push(p[k - 1])
        } else {
            before
        }
    }
}

/// The archives among the first `k` whose package is not installed.
pub open spec fn uninstalled_among(
    archives: Seq<ArchiveView>,
    installed: Map<Seq<char>, Seq<char>>,
    p: Seq<usize>,
    k: nat,
) -> Seq<usize>
    decreases k,
{
    if k == 0 {
        Seq::empty()
    } else {
        let before = uninstalled_among(archives, installed, p, (k - 1) as nat);
        if is_installed(archives[p[k - 1] as int], installed) {
            before
        } else {
            before.push(p[k - 1])
        }
    }
}

/// The paths of the archives at the given positions.
pub open spec fn paths_at(archives: Seq<ArchiveView>, v: Seq<usize>) -> Seq<Seq<char>> {
    Seq::new(v.len(), |k: int| archives[v[k] as int].path)
}

/// The bytes of the archives at the given positions, added up.
pub open spec fn bytes_at(archives: Seq<ArchiveView>, v: Seq<usize>) -> nat
    decreases v.len(),
{
    if v.len() == 0 {
        0
    } else {
        bytes_at(archives, v.drop_last()) + archives[v.last() as int].bytes as nat
    }
}

/// The order of paths, as a relation between positions.
pub open spec fn path_order(paths: Seq<Seq<char>>) -> spec_fn(int, int) -> bool {
    |a: int, b: int| path::path_le(paths[a], paths[b])
}

/// The paths in order.
pub open spec fn paths_in_order(paths: Seq<Seq<char>>) -> Seq<Seq<char>> {
    sort::taken_by(paths, sort::stable_order(path_order(paths), paths.len()))
}

/// What a cache plan says: which archives go, and how many bytes they hold.
pub open spec fn cache_plan_of(
    archives: Seq<ArchiveView>,
    installed: Map<Seq<char>, Seq<char>>,
    keep: usize,
) -> CachePlanView {
    let p = newest_first(archives);
    let lost = uninstalled_among(archives, installed, p, archives.len());
    let old = superseded_among(archives, installed, keep, p, archives.len());
    CachePlanView {
        uninstalled: paths_in_order(paths_at(archives, lost)),
        uninstalled_bytes: number::saturated(bytes_at(archives, lost)),
        superseded: paths_in_order(paths_at(archives, old)),
        superseded_bytes: number::saturated(bytes_at(archives, old)),
    }
}

/// The paths, in order.
fn sorted_paths(v: &Vec<String>) -> (r: Vec<String>)
    ensures
        text::texts(r@) == paths_in_order(text::texts(v@)),
{
    let ghost all = text::texts(v@);
    let n: usize = v.len();
    let mut keys: Vec<Vec<String>> = Vec::new();
    let mut i: usize = 0;
    while i < n
        invariant
            i <= n,
            n == v.len(),
            all == text::texts(v@),
            keys.len() == i,
            forall|k: int| 0 <= k < i ==> text::texts(#[trigger] keys@[k]@) == path::components(all[k]),
        decreases n - i,
    {
        keys.push(parts(v[i].as_str()));
        i += 1;
    }
    let ghost le = path_order(all);
    proof {
        assert forall|a: int, b: int| 0 <= a < n && 0 <= b < n implies #[trigger] le(a, b)
            || #[trigger] le(b, a) by {
            path::path_order(all[a], all[b], all[a]);
        }
        assert forall|a: int, b: int, c: int|
            0 <= a < n && 0 <= b < n && 0 <= c < n && #[trigger] le(a, b) && #[trigger] le(
                b,
                c,
            ) implies le(a, c) by {
            path::path_order(all[a], all[b], all[c]);
        }
    }
    let at_or_before = |a: usize, b: usize| -> (r: bool)
        requires
            a < keys.len(),
            b < keys.len(),
        ensures
            r == path::list_le(text::texts(keys@[a as int]@), text::texts(keys@[b as int]@)),
        { parts_at_most(&keys[a], &keys[b]) };
    let places = sorted_positions(n, at_or_before, Ghost(le));
    let mut out: Vec<String> = Vec::new();
    let mut k: usize = 0;
    while k < n
        invariant
            k <= n,
            n == v.len(),
            all == text::texts(v@),
            sort::is_listing(places@, n as nat),
            out.len() == k,
            forall|j: int| 0 <= j < k ==> #[trigger] out@[j]@ == all[places@[j] as int],
        decreases n - k,
    {
        out.push(v[places[k]].clone());
        k += 1;
    }
    assert(text::texts(out@) =~= sort::taken_by(all, places@));
    out
}

proof fn lemma_newer_order(a: ArchiveView, b: ArchiveView, c: ArchiveView)
    ensures
        newer_le(a, b) || newer_le(b, a),
        newer_le(a, b) && newer_le(b, c) ==> newer_le(a, c),
{
    text::text_order_is_total();
}

/// Whether one archive does not come behind another.
fn newer_at_most(a: &CachedArchive, b: &CachedArchive) -> (r: bool)
    ensures
        r == newer_le(a@, b@),
{
    if !at_most(a.name.as_str(), b.name.as_str()) {
        return false;
    }
    if !same(a.name.as_str(), b.name.as_str()) {
        return true;
    }
    a.mtime > b.mtime || (a.mtime == b.mtime && at_most(b.version.as_str(), a.version.as_str()))
}

/// The archives package by package, newest first.
fn by_age(archives: &[CachedArchive]) -> (r: Vec<usize>)
    ensures
        sort::is_listing(r@, archives@.len()),
        sort::is_ascending(r@, newer_order(archive_views(archives@))),
        r@ == newest_first(archive_views(archives@)),
{
    let ghost all = archive_views(archives@);
    let ghost le = newer_order(all);
    proof {
        let n = all.len();
        assert forall|a: int, b: int| 0 <= a < n && 0 <= b < n implies #[trigger] le(a, b)
            || #[trigger] le(b, a) by {
            lemma_newer_order(all[a], all[b], all[a]);
        }
        assert forall|a: int, b: int, c: int|
            0 <= a < n && 0 <= b < n && 0 <= c < n && #[trigger] le(a, b) && #[trigger] le(
                b,
                c,
            ) implies le(a, c) by {
            lemma_newer_order(all[a], all[b], all[c]);
        }
    }
    let at_or_before = |a: usize, b: usize| -> (r: bool)
        requires
            a < archives.len(),
            b < archives.len(),
        ensures
            r == newer_le(archives@[a as int]@, archives@[b as int]@),
        { newer_at_most(&archives[a], &archives[b]) };
    sorted_positions(archives.len(), at_or_before, Ghost(le))
}

/// Archives of other packages keep no version of a package.
proof fn lemma_none_kept(
    archives: Seq<ArchiveView>,
    installed: Map<Seq<char>, Seq<char>>,
    keep: usize,
    p: Seq<usize>,
    name: Seq<char>,
    k: nat,
)
    requires
        forall|m: int| 0 <= m < k ==> archives[#[trigger] p[m] as int].name != name,
    ensures
        kept_versions(archives, installed, keep, p, name, k) == Seq::<Seq<char>>::empty(),
    decreases k,
{
    if k > 0 {
        lemma_none_kept(archives, installed, keep, p, name, (k - 1) as nat);
        assert(archives[p[k - 1] as int].name != name);
    }
}

/// A version that is kept stays kept, and once `keep` versions are, no other is.
pub proof fn lemma_kept_stay(
    archives: Seq<ArchiveView>,
    installed: Map<Seq<char>, Seq<char>>,
    keep: usize,
    p: Seq<usize>,
    name: Seq<char>,
    k: nat,
    n: nat,
)
    requires
        k <= n,
    ensures
        kept_versions(archives, installed, keep, p, name, k).len() <= keep,
        kept_versions(archives, installed, keep, p, name, k).len() == keep ==> kept_versions(
            archives,
            installed,
            keep,
            p,
            name,
            n,
        ) == kept_versions(archives, installed, keep, p, name, k),
        forall|v: Seq<char>| #[trigger]
            kept_versions(archives, installed, keep, p, name, k).contains(v) ==> kept_versions(
                archives,
                installed,
                keep,
                p,
                name,
                n,
            ).contains(v),
    decreases n,
{
    if n > 0 {
        let m = (n - 1) as nat;
        let before = kept_versions(archives, installed, keep, p, name, m);
        if k < n {
            lemma_kept_stay(archives, installed, keep, p, name, k, m);
            crate::sets::lemma_push_contains(before, archives[p[n - 1] as int].version);
        } else {
            lemma_kept_stay(archives, installed, keep, p, name, m, m);
        }
    }
}

/// Decide which cached archives are no longer worth keeping.
///
/// `keep` is how many versions of an *installed* package to retain, matching
/// `paccache -rk<keep>`. The currently installed version is always retained
/// regardless of `keep`, because deleting it removes the only way to roll a
/// bad upgrade back offline.
pub fn plan_cache(
    archives: &[CachedArchive],
    installed: &TextMap<String>,
    keep: usize,
) -> (r: CachePlan)
    ensures
        r@ == cache_plan_of(archive_views(archives@), textmap::text_values(installed@), keep),
{
    let ghost all = archive_views(archives@);
    let ghost have = textmap::text_values(installed@);
    let p = by_age(archives);
    let n: usize = archives.len();
    let mut lost: Vec<String> = Vec::new();
    let mut lost_bytes: u64 = 0;
    let mut old: Vec<String> = Vec::new();
    let mut old_bytes: u64 = 0;
    // The versions of the package at hand that are kept so far, and where its
    // archives begin.
    let mut kept: Vec<String> = Vec::new();
    let mut start: usize = 0;
    let mut k: usize = 0;
    proof {
        assert(text::texts(lost@) =~= paths_at(all, Seq::empty()));
        assert(text::texts(old@) =~= paths_at(all, Seq::empty()));
    }
    while k < n
        invariant
            k <= n,
            n == archives.len(),
            all == archive_views(archives@),
            have == textmap::text_values(installed@),
            sort::is_listing(p@, n as nat),
            sort::is_ascending(p@, newer_order(all)),
            start <= k,
            k > 0 ==> start < k,
            forall|m: int|
                start <= m < k ==> all[#[trigger] p@[m] as int].name == all[p@[k - 1] as int].name,
            forall|m: int|
                0 <= m < start ==> all[#[trigger] p@[m] as int].name != all[p@[k - 1] as int].name,
            k > 0 ==> text::texts(kept@) == kept_versions(
                all,
                have,
                keep,
                p@,
                all[p@[k - 1] as int].name,
                k as nat,
            ),
            text::texts(lost@) == paths_at(all, uninstalled_among(all, have, p@, k as nat)),
            lost_bytes == number::saturated(
                bytes_at(all, uninstalled_among(all, have, p@, k as nat)),
            ),
            text::texts(old@) == paths_at(
                all,
                superseded_among(all, have, keep, p@, k as nat),
            ),
            old_bytes == number::saturated(
                bytes_at(all, superseded_among(all, have, keep, p@, k as nat)),
            ),
        decreases n - k,
    {
        let at: usize = p[k];
        let archive = &archives[at];
        let ghost name = archive@.name;
        let ghost lost_before = uninstalled_among(all, have, p@, k as nat);
        let ghost old_before = superseded_among(all, have, keep, p@, k as nat);
        if k == 0 || !same(archives[p[k - 1]].name.as_str(), archive.name.as_str()) {
            proof {
                text::text_order_is_total();
                assert forall|m: int| 0 <= m < k implies all[#[trigger] p@[m] as int].name
                    != name by {
                    // The archives are ordered by name, so a name that has
                    // been passed does not come back.
                    assert(newer_order(all)(p@[k - 1] as int, p@[k as int] as int));
                    if m < k - 1 {
                        assert(newer_order(all)(p@[m] as int, p@[k - 1] as int));
                    }
                }
                lemma_none_kept(all, have, keep, p@, name, k as nat);
            }
            start = k;
            kept = Vec::new();
            assert(text::texts(kept@) =~= Seq::empty());
        }
        assert(text::texts(kept@) == kept_versions(all, have, keep, p@, name, k as nat));
        proof {
            lemma_kept_stay(all, have, keep, p@, name, k as nat, n as nat);
            lemma_kept_stay(all, have, keep, p@, name, (k + 1) as nat, n as nat);
        }
        assert(p@.len() == n);
        match installed.get(archive.name.as_str()) {
            None => {
                let ghost before = text::texts(lost@);
                lost.push(archive.path.clone());
                lost_bytes = lost_bytes.saturating_add(archive.bytes);
                proof {
                    let now = uninstalled_among(all, have, p@, (k + 1) as nat);
                    assert(now == lost_before.push(at));
                    assert(now.drop_last() =~= lost_before);
                    assert(text::texts(lost@) =~= before.push(archive@.path));
                    assert(text::texts(lost@) =~= paths_at(all, now));
                }
            },
            Some(current) => {
                if !same(archive.version.as_str(), current.as_str()) && !list_contains(
                    &kept,
                    archive.version.as_str(),
                ) {
                    if kept.len() < keep {
                        let ghost before = text::texts(kept@);
                        add_text(&mut kept, archive.version.clone());
                        proof {
                            crate::sets::lemma_push_contains(before, archive@.version);
                            assert(kept_versions(
                                all,
                                have,
                                keep,
                                p@,
                                name,
                                (k + 1) as nat,
                            ).contains(archive@.version));
                            assert(!is_superseded(all, have, keep, p@, k as int));
                        }
                    } else {
                        let ghost before = text::texts(old@);
                        old.push(archive.path.clone());
                        old_bytes = old_bytes.saturating_add(archive.bytes);
                        proof {
                            let now = superseded_among(all, have, keep, p@, (k + 1) as nat);
                            assert(is_superseded(all, have, keep, p@, k as int));
                            assert(now == old_before.push(at));
                            assert(now.drop_last() =~= old_before);
                            assert(text::texts(old@) =~= before.push(archive@.path));
                            assert(text::texts(old@) =~= paths_at(all, now));
                        }
                    }
                } else {
                    assert(!is_superseded(all, have, keep, p@, k as int));
                }
            },
        }
        k += 1;
    }
    CachePlan {
        uninstalled: sorted_paths(&lost),
        uninstalled_bytes: lost_bytes,
        superseded: sorted_paths(&old),
        superseded_bytes: old_bytes,
    }
}

proof fn lemma_superseded_members(
    archives: Seq<ArchiveView>,
    installed: Map<Seq<char>, Seq<char>>,
    keep: usize,
    p: Seq<usize>,
    k: nat,
    i: int,
)
    requires
        0 <= i < superseded_among(archives, installed, keep, p, k).len(),
    ensures
        !is_current(
            archives[superseded_among(archives, installed, keep, p, k)[i] as int],
            installed,
        ),
    decreases k,
{
    let before = superseded_among(archives, installed, keep, p, (k - 1) as nat);
    if i < before.len() {
        lemma_superseded_members(archives, installed, keep, p, (k - 1) as nat, i);
    }
}

proof fn lemma_uninstalled_members(
    archives: Seq<ArchiveView>,
    installed: Map<Seq<char>, Seq<char>>,
    p: Seq<usize>,
    k: nat,
    i: int,
)
    requires
        0 <= i < uninstalled_among(archives, installed, p, k).len(),
    ensures
        !is_installed(archives[uninstalled_among(archives, installed, p, k)[i] as int], installed),
    decreases k,
{
    let before = uninstalled_among(archives, installed, p, (k - 1) as nat);
    if i < before.len() {
        lemma_uninstalled_members(archives, installed, p, (k - 1) as nat, i);
    }
}

/// `keep` counts versions: where an archive is superseded, `keep` other versions
/// of its package are kept, all different and none of them the installed one.
pub proof fn keep_counts_versions(
    archives: Seq<ArchiveView>,
    installed: Map<Seq<char>, Seq<char>>,
    keep: usize,
    k: int,
)
    requires
        archives.len() <= usize::MAX,
        0 <= k < archives.len(),
        is_superseded(archives, installed, keep, newest_first(archives), k),
    ensures
        ({
            let p = newest_first(archives);
            let archive = archives[p[k] as int];
            let kept = kept_versions(archives, installed, keep, p, archive.name, p.len());
            &&& kept.len() == keep
            &&& kept.no_duplicates()
            &&& !kept.contains(installed[archive.name])
            &&& !kept.contains(archive.version)
        }),
{
    let p = newest_first(archives);
    let archive = archives[p[k] as int];
    lemma_newest_first(archives);
    lemma_kept_versions(archives, installed, keep, p, archive.name, p.len());
    lemma_kept_stay(archives, installed, keep, p, archive.name, k as nat, p.len());
    lemma_kept_stay(archives, installed, keep, p, archive.name, (k + 1) as nat, p.len());
    let before = kept_versions(archives, installed, keep, p, archive.name, k as nat);
    let after = kept_versions(archives, installed, keep, p, archive.name, (k + 1) as nat);
    crate::sets::lemma_push_contains(before, archive.version);
    if before.len() < keep {
        // There would have been a place for the version.
        assert(!before.contains(archive.version));
        assert(after == before.push(archive.version));
        assert(after.contains(archive.version));
    }
}

/// The versions that are kept are all different, and none is the installed one.
pub proof fn lemma_kept_versions(
    archives: Seq<ArchiveView>,
    installed: Map<Seq<char>, Seq<char>>,
    keep: usize,
    p: Seq<usize>,
    name: Seq<char>,
    k: nat,
)
    ensures
        kept_versions(archives, installed, keep, p, name, k).no_duplicates(),
        !kept_versions(archives, installed, keep, p, name, k).contains(installed[name]),
    decreases k,
{
    if k > 0 {
        lemma_kept_versions(archives, installed, keep, p, name, (k - 1) as nat);
        let before = kept_versions(archives, installed, keep, p, name, (k - 1) as nat);
        crate::sets::lemma_push_contains(before, archives[p[k - 1] as int].version);
    }
}

/// Versions stay or go whole: of two archives of the same version of the same
/// package, both are superseded or neither is.
pub proof fn versions_stay_or_go_whole(
    archives: Seq<ArchiveView>,
    installed: Map<Seq<char>, Seq<char>>,
    keep: usize,
    i: int,
    j: int,
)
    requires
        0 <= i < archives.len(),
        0 <= j < archives.len(),
        archives[newest_first(archives)[i] as int].name == archives[newest_first(
            archives,
        )[j] as int].name,
        archives[newest_first(archives)[i] as int].version == archives[newest_first(
            archives,
        )[j] as int].version,
    ensures
        is_superseded(archives, installed, keep, newest_first(archives), i) == is_superseded(
            archives,
            installed,
            keep,
            newest_first(archives),
            j,
        ),
{
}

/// The installed archive is never reclaimed: a plan does not name the path of
/// an archive that holds the installed version of its package, unless an
/// archive of another version is said to lie at the same path.
pub proof fn installed_archives_are_kept(
    archives: Seq<ArchiveView>,
    installed: Map<Seq<char>, Seq<char>>,
    keep: usize,
    archive: ArchiveView,
)
    requires
        archives.len() <= usize::MAX,
        is_current(archive, installed),
        forall|i: int|
            0 <= i < archives.len() && (#[trigger] archives[i]).path == archive.path ==> is_current(
                archives[i],
                installed,
            ),
    ensures
        !cache_plan_of(archives, installed, keep).uninstalled.contains(archive.path),
        !cache_plan_of(archives, installed, keep).superseded.contains(archive.path),
{
    let p = newest_first(archives);
    let n = archives.len();
    let lost = uninstalled_among(archives, installed, p, n);
    let old = superseded_among(archives, installed, keep, p, n);
    lemma_newest_first(archives);
    lemma_places(archives, installed, keep, p, n);
    if paths_in_order(paths_at(archives, lost)).contains(archive.path) {
        lemma_paths_kept(paths_at(archives, lost), archive.path);
        let i = choose|i: int|
            0 <= i < lost.len() && #[trigger] paths_at(archives, lost)[i] == archive.path;
        lemma_uninstalled_members(archives, installed, p, n, i);
        assert(archives[lost[i] as int].path == archive.path);
    }
    if paths_in_order(paths_at(archives, old)).contains(archive.path) {
        lemma_paths_kept(paths_at(archives, old), archive.path);
        let i = choose|i: int|
            0 <= i < old.len() && #[trigger] paths_at(archives, old)[i] == archive.path;
        lemma_superseded_members(archives, installed, keep, p, n, i);
        assert(archives[old[i] as int].path == archive.path);
    }
}

/// Listing archives newest first lists each of them.
pub proof fn lemma_newest_first(archives: Seq<ArchiveView>)
    requires
        archives.len() <= usize::MAX,
    ensures
        sort::is_listing(newest_first(archives), archives.len()),
        sort::is_ascending(newest_first(archives), newer_order(archives)),
{
    let le = newer_order(archives);
    let n = archives.len();
    assert forall|a: int, b: int| 0 <= a < n && 0 <= b < n implies #[trigger] le(a, b)
        || #[trigger] le(b, a) by {
        lemma_newer_order(archives[a], archives[b], archives[a]);
    }
    assert forall|a: int, b: int, c: int|
        0 <= a < n && 0 <= b < n && 0 <= c < n && #[trigger] le(a, b) && #[trigger] le(
            b,
            c,
        ) implies le(a, c) by {
        lemma_newer_order(archives[a], archives[b], archives[c]);
    }
    sort::stable_order_exists(le, n);
}

/// Putting paths in order adds none and drops none.
pub proof fn lemma_paths_kept(paths: Seq<Seq<char>>, path: Seq<char>)
    requires
        paths.len() <= usize::MAX,
    ensures
        paths_in_order(paths).contains(path) == paths.contains(path),
        forall|a: int, b: int|
            0 <= a < b < paths_in_order(paths).len() ==> path::path_le(
                #[trigger] paths_in_order(paths)[a],
                #[trigger] paths_in_order(paths)[b],
            ),
{
    let le = path_order(paths);
    let n = paths.len();
    assert forall|a: int, b: int| 0 <= a < n && 0 <= b < n implies #[trigger] le(a, b)
        || #[trigger] le(b, a) by {
        path::path_order(paths[a], paths[b], paths[a]);
    }
    assert forall|a: int, b: int, c: int|
        0 <= a < n && 0 <= b < n && 0 <= c < n && #[trigger] le(a, b) && #[trigger] le(
            b,
            c,
        ) implies le(a, c) by {
        path::path_order(paths[a], paths[b], paths[c]);
    }
    sort::stable_order_exists(le, n);
    let p = sort::stable_order(le, n);
    let ordered = paths_in_order(paths);
    if ordered.contains(path) {
        let k = choose|k: int| 0 <= k < p.len() && ordered[k] == path;
        assert(paths[p[k] as int] == path);
    }
    if paths.contains(path) {
        let i = choose|i: int| 0 <= i < n && paths[i] == path;
        sort::lemma_listing_covers(p, n, i as usize);
        let k = choose|k: int| 0 <= k < p.len() && p[k] == i as usize;
        assert(ordered[k] == path);
    }
    assert forall|a: int, b: int| 0 <= a < b < ordered.len() implies path::path_le(
        #[trigger] ordered[a],
        #[trigger] ordered[b],
    ) by {
        assert(le(p[a] as int, p[b] as int));
    }
}

/// The archives that a plan names are among those that it was made for.
pub proof fn lemma_places(
    archives: Seq<ArchiveView>,
    installed: Map<Seq<char>, Seq<char>>,
    keep: usize,
    p: Seq<usize>,
    k: nat,
)
    requires
        k <= p.len(),
        forall|i: int| 0 <= i < p.len() ==> #[trigger] p[i] < archives.len(),
    ensures
        forall|i: int|
            0 <= i < uninstalled_among(archives, installed, p, k).len()
                ==> #[trigger] uninstalled_among(archives, installed, p, k)[i] < archives.len(),
        uninstalled_among(archives, installed, p, k).len() <= k,
        superseded_among(archives, installed, keep, p, k).len() <= k,
        forall|i: int|
            0 <= i < superseded_among(archives, installed, keep, p, k).len()
                ==> #[trigger] superseded_among(archives, installed, keep, p, k)[i]
                < archives.len(),
    decreases k,
{
    if k > 0 {
        lemma_places(archives, installed, keep, p, (k - 1) as nat);
        assert(p[k - 1] < archives.len());
        let a = uninstalled_among(archives, installed, p, (k - 1) as nat);
        let b = uninstalled_among(archives, installed, p, k);
        assert forall|i: int| 0 <= i < b.len() implies #[trigger] b[i] < archives.len() by {
            if i < a.len() {
                assert(b[i] == a[i]);
            }
        }
        let c = superseded_among(archives, installed, keep, p, (k - 1) as nat);
        let d = superseded_among(archives, installed, keep, p, k);
        assert forall|i: int| 0 <= i < d.len() implies #[trigger] d[i] < archives.len() by {
            if i < c.len() {
                assert(d[i] == c[i]);
            }
        }
    }
}

} // verus!
