//! Turning measurements into cleanup targets.
//!
//! Directories are listed and measured outside this library. Each function
//! here says what a finding means: what to call it, how much care it deserves,
//! and how its space is reclaimed.
use vstd::prelude::*;

use crate::capability;
use crate::capability::{Stat, Usage};
use crate::janitor;
use crate::janitor::{parse_archive_name, plan_cache, CachedArchive, Command, Kind, Reclaim, Safety, Target};
use crate::model;
use crate::model::{Entry, InstallReason, Package};
use crate::number;
use crate::path;
use crate::path::join;
use crate::scan;
use crate::scan::Config;
use crate::sort;
use crate::sort::sorted_positions;
use crate::split;
use crate::split::joined;
use crate::tally::Tally;
use crate::text;
use crate::text::{add_text, at_most, concat2, concat3, copy_texts, ends_with, same, trimmed};
use crate::textmap;
use crate::textmap::TextMap;

verus! {

/// One item of a package cache directory, with its metadata where that could
/// be read.
pub struct CachedItem {
    /// The directory entry.
    pub entry: capability::Entry,
    /// Its metadata.
    pub stat: Option<Stat>,
}

/// The view of a [`CachedItem`].
#[verifier::ext_equal]
pub struct CachedItemView {
    /// See [`CachedItem::entry`].
    pub entry: capability::EntryView,
    /// See [`CachedItem::stat`].
    pub stat: Option<Stat>,
}

impl View for CachedItem {
    type V = CachedItemView;

    open spec fn view(&self) -> CachedItemView {
        CachedItemView { entry: self.entry@, stat: self.stat }
    }
}

/// The views of a list of cached items.
pub open spec fn cached_views(items: Seq<CachedItem>) -> Seq<CachedItemView> {
    Seq::new(items.len(), |i: int| items[i]@)
}

/// One directory of kernel modules.
pub struct ModuleTree {
    /// Where it is.
    pub path: String,
    /// Whether it is a directory.
    pub is_dir: bool,
    /// What its `pkgbase` file says, where there is one.
    pub pkgbase: Option<String>,
    /// The bytes it takes up, where that was measured.
    pub bytes: u64,
}

/// The view of a [`ModuleTree`].
#[verifier::ext_equal]
pub struct ModuleTreeView {
    /// See [`ModuleTree::path`].
    pub path: Seq<char>,
    /// See [`ModuleTree::is_dir`].
    pub is_dir: bool,
    /// See [`ModuleTree::pkgbase`].
    pub pkgbase: Option<Seq<char>>,
    /// See [`ModuleTree::bytes`].
    pub bytes: u64,
}

impl View for ModuleTree {
    type V = ModuleTreeView;

    open spec fn view(&self) -> ModuleTreeView {
        ModuleTreeView {
            path: self.path@,
            is_dir: self.is_dir,
            pkgbase: scan::optional_text(self.pkgbase),
            bytes: self.bytes,
        }
    }
}

/// The views of a list of module directories.
pub open spec fn module_views(trees: Seq<ModuleTree>) -> Seq<ModuleTreeView> {
    Seq::new(trees.len(), |i: int| trees[i]@)
}

/// Everything that was measured outside the package set.
pub struct Measurements {
    /// The items of the package cache directories.
    pub cached: Vec<CachedItem>,
    /// Whether `paccache` can be run.
    pub has_paccache: bool,
    /// The build cache of each AUR helper, in the order of [`AUR_HELPERS`].
    pub aur_helpers: Vec<Option<Usage>>,
    /// The configuration leftovers under `/etc`, and their bytes.
    pub leftovers: Vec<(String, u64)>,
    /// Whether `pacdiff` can be run.
    pub has_pacdiff: bool,
    /// The coredump directory.
    pub coredumps: Option<Usage>,
    /// The journal directory.
    pub journal: Option<Usage>,
    /// The developer caches, in the order of [`developer_cache`].
    pub developer: Vec<Option<Usage>>,
    /// The user's cache directory.
    pub user_cache: Option<Usage>,
    /// The desktop trash.
    pub trash: Option<Usage>,
    /// The directories of kernel modules.
    pub modules: Vec<ModuleTree>,
    /// Whether `flatpak` can be run.
    pub has_flatpak: bool,
}

/// The view of [`Measurements`].
#[verifier::ext_equal]
pub struct MeasurementsView {
    /// See [`Measurements::cached`].
    pub cached: Seq<CachedItemView>,
    /// See [`Measurements::has_paccache`].
    pub has_paccache: bool,
    /// See [`Measurements::aur_helpers`].
    pub aur_helpers: Seq<Option<Usage>>,
    /// See [`Measurements::leftovers`].
    pub leftovers: Seq<(Seq<char>, u64)>,
    /// See [`Measurements::has_pacdiff`].
    pub has_pacdiff: bool,
    /// See [`Measurements::coredumps`].
    pub coredumps: Option<Usage>,
    /// See [`Measurements::journal`].
    pub journal: Option<Usage>,
    /// See [`Measurements::developer`].
    pub developer: Seq<Option<Usage>>,
    /// See [`Measurements::user_cache`].
    pub user_cache: Option<Usage>,
    /// See [`Measurements::trash`].
    pub trash: Option<Usage>,
    /// See [`Measurements::modules`].
    pub modules: Seq<ModuleTreeView>,
    /// See [`Measurements::has_flatpak`].
    pub has_flatpak: bool,
}

impl View for Measurements {
    type V = MeasurementsView;

    open spec fn view(&self) -> MeasurementsView {
        MeasurementsView {
            cached: cached_views(self.cached@),
            has_paccache: self.has_paccache,
            aur_helpers: self.aur_helpers@,
            leftovers: capability::found_views(self.leftovers@),
            has_pacdiff: self.has_pacdiff,
            coredumps: self.coredumps,
            journal: self.journal,
            developer: self.developer@,
            user_cache: self.user_cache,
            trash: self.trash,
            modules: module_views(self.modules@),
            has_flatpak: self.has_flatpak,
        }
    }
}

/// A reclaim by running a command.
pub open spec fn running(program: Seq<char>, args: Seq<Seq<char>>, needs_root: bool) -> janitor::ReclaimView {
    janitor::ReclaimView::Run { command: janitor::CommandView { program, args, needs_root } }
}

/// A reclaim by running a command.
fn run(program: &str, args: Vec<&str>, needs_root: bool) -> (r: Reclaim)
    ensures
        r@ == running(program@, text::str_texts(args@), needs_root),
{
    Reclaim::Run { command: Command::new(program, args.as_slice(), needs_root) }
}

/// Adds a target at the end of a list.
fn add_target(targets: &mut Vec<Target>, target: Target)
    ensures
        janitor::target_views(final(targets)@) == janitor::target_views(old(targets)@).push(
            target@,
        ),
{
    targets.push(target);
    assert(janitor::target_views(targets@) =~= janitor::target_views(old(targets)@).push(target@));
}

/// Adds a list of targets at the end of another.
fn add_targets(targets: &mut Vec<Target>, more: Vec<Target>)
    ensures
        janitor::target_views(final(targets)@) == janitor::target_views(old(targets)@)
            + janitor::target_views(more@),
{
    let mut more = more;
    let ghost added = janitor::target_views(more@);
    targets.append(&mut more);
    assert(janitor::target_views(targets@) =~= janitor::target_views(old(targets)@) + added);
}

// ---------------------------------------------------------------------------
// The package cache
// ---------------------------------------------------------------------------

/// The archive that a cached item is, if it is one.
pub open spec fn archive_in(item: CachedItemView) -> Option<janitor::ArchiveView> {
    match (janitor::archive_fields(item.entry.name), item.stat) {
        (Some((name, version)), Some(stat)) => if item.entry.is_dir {
            None
        } else {
            Some(
                janitor::ArchiveView {
                    path: item.entry.path,
                    name,
                    version,
                    bytes: stat.disk_size,
                    mtime: stat.mtime,
                },
            )
        },
        _ => None,
    }
}

/// The archives among cached items.
pub open spec fn archives_among(items: Seq<CachedItemView>) -> Seq<janitor::ArchiveView>
    decreases items.len(),
{
    if items.len() == 0 {
        Seq::empty()
    } else {
        let before = archives_among(items.drop_last());
        match archive_in(items.last()) {
            Some(archive) => before.push(archive),
            None => before,
        }
    }
}

/// The archives among cached items.
pub fn cached_archives(items: &Vec<CachedItem>) -> (r: Vec<CachedArchive>)
    ensures
        janitor::archive_views(r@) == archives_among(cached_views(items@)),
{
    let ghost all = cached_views(items@);
    let mut archives: Vec<CachedArchive> = Vec::new();
    let mut i: usize = 0;
    proof {
        assert(all.take(0) =~= Seq::empty());
        assert(janitor::archive_views(archives@) =~= Seq::empty());
    }
    while i < items.len()
        invariant
            i <= items.len(),
            all == cached_views(items@),
            janitor::archive_views(archives@) == archives_among(all.take(i as int)),
        decreases items.len() - i,
    {
        proof {
            assert(all.take(i + 1).drop_last() =~= all.take(i as int));
            assert(all.take(i + 1).last() == all[i as int]);
        }
        let item = &items[i];
        i += 1;
        if item.entry.is_dir {
            continue ;
        }
        let (name, version) = match parse_archive_name(item.entry.name.as_str()) {
            Some((name, version)) => (name, version),
            None => {
                continue ;
            },
        };
        if let Some(stat) = item.stat {
            let ghost before = janitor::archive_views(archives@);
            let archive = CachedArchive {
                path: item.entry.path.clone(),
                name,
                version,
                bytes: stat.disk_size,
                mtime: stat.mtime,
            };
            let ghost added = archive@;
            archives.push(archive);
            assert(janitor::archive_views(archives@) =~= before.push(added));
        }
    }
    assert(all.take(all.len() as int) =~= all);
    archives
}

/// The installed version of each package, the last one where there are two
/// entries for a name.
pub open spec fn installed_versions(entries: Seq<model::EntryView>) -> Map<Seq<char>, Seq<char>>
    decreases entries.len(),
{
    if entries.len() == 0 {
        Map::empty()
    } else {
        installed_versions(entries.drop_last()).insert(
            entries.last().package.name,
            entries.last().package.version,
        )
    }
}

/// The installed version of each package.
fn versions(entries: &[Entry]) -> (r: TextMap<String>)
    ensures
        textmap::text_values(r@) == installed_versions(model::entry_views(entries@)),
{
    let ghost all = model::entry_views(entries@);
    let mut installed: TextMap<String> = TextMap::new();
    let mut i: usize = 0;
    proof {
        assert(all.take(0) =~= Seq::empty());
        assert(textmap::text_values(installed@) =~= Map::empty());
    }
    while i < entries.len()
        invariant
            i <= entries.len(),
            all == model::entry_views(entries@),
            textmap::text_values(installed@) == installed_versions(all.take(i as int)),
        decreases entries.len() - i,
    {
        assert(all.take(i + 1).drop_last() =~= all.take(i as int));
        let ghost before = textmap::text_values(installed@);
        let package = &entries[i].package;
        installed.insert(package.name.as_str(), package.version.clone());
        assert(textmap::text_values(installed@) =~= before.insert(package@.name, package@.version));
        i += 1;
    }
    assert(all.take(all.len() as int) =~= all);
    installed
}

/// The target for archives of packages that are not installed any more.
pub open spec fn uninstalled_target(
    plan: janitor::CachePlanView,
    location: Seq<char>,
    has_paccache: bool,
) -> janitor::TargetView {
    janitor::TargetView {
        kind: Kind::PacmanCacheUninstalled,
        title: "Cached archives for packages you removed"@,
        location,
        detail: "Downloaded packages that are not installed any more. Nothing on the system references them; they are kept only so a reinstall can skip the download."@,
        bytes: Some(plan.uninstalled_bytes),
        items: plan.uninstalled.len() as usize,
        safety: Safety::Safe,
        reclaim: if has_paccache {
            running("paccache"@, seq!["-r"@, "-u"@, "-k0"@], true)
        } else {
            janitor::ReclaimView::Paths { paths: plan.uninstalled, needs_root: true }
        },
    }
}

/// The target for superseded archives of installed packages.
pub open spec fn superseded_target(
    plan: janitor::CachePlanView,
    location: Seq<char>,
    has_paccache: bool,
) -> janitor::TargetView {
    janitor::TargetView {
        kind: Kind::PacmanCacheSuperseded,
        title: "Superseded versions of installed packages"@,
        location,
        detail: "Older builds of packages you still have. The installed version and one rollback version are kept, so a bad upgrade can still be reverted offline."@,
        bytes: Some(plan.superseded_bytes),
        items: plan.superseded.len() as usize,
        safety: Safety::Safe,
        reclaim: if has_paccache {
            running("paccache"@, seq!["-r"@, "-k1"@], true)
        } else {
            janitor::ReclaimView::Paths { paths: plan.superseded, needs_root: true }
        },
    }
}

/// What the package cache directories offer: nothing where they hold no
/// archive.
pub open spec fn cache_target_views(
    entries: Seq<model::EntryView>,
    config: scan::ConfigView,
    m: MeasurementsView,
) -> Seq<janitor::TargetView> {
    let archives = archives_among(m.cached);
    let plan = janitor::cache_plan_of(archives, installed_versions(entries), 1);
    let location = split::join(config.cache_dirs, ", "@);
    if archives.len() == 0 {
        Seq::empty()
    } else {
        seq![
            uninstalled_target(plan, location, m.has_paccache),
            superseded_target(plan, location, m.has_paccache),
        ]
    }
}

/// Analyse the package cache directories.
pub fn cache_targets(entries: &[Entry], config: &Config, m: &Measurements) -> (r: Vec<Target>)
    ensures
        janitor::target_views(r@) == cache_target_views(
            model::entry_views(entries@),
            config@,
            m@,
        ),
{
    let archives = cached_archives(&m.cached);
    assert(janitor::archive_views(archives@).len() == archives.len());
    let mut targets: Vec<Target> = Vec::new();
    assert(janitor::target_views(targets@) =~= Seq::empty());
    if archives.len() == 0 {
        return targets;
    }
    let installed = versions(entries);
    let plan = plan_cache(archives.as_slice(), &installed, 1);
    let location = joined(&config.cache_dirs, ", ");
    let args = vec!["-r", "-u", "-k0"];
    assert(text::str_texts(args@) =~= seq!["-r"@, "-u"@, "-k0"@]);
    add_target(
        &mut targets,
        Target {
            kind: Kind::PacmanCacheUninstalled,
            title: "Cached archives for packages you removed".to_owned(),
            location: location.clone(),
            detail: "Downloaded packages that are not installed any more. Nothing on the system references them; they are kept only so a reinstall can skip the download.".to_owned(),
            bytes: Some(plan.uninstalled_bytes),
            items: plan.uninstalled.len(),
            safety: Safety::Safe,
            reclaim: if m.has_paccache {
                run("paccache", args, true)
            } else {
                Reclaim::Paths { paths: copy_texts(&plan.uninstalled), needs_root: true }
            },
        },
    );
    let args = vec!["-r", "-k1"];
    assert(text::str_texts(args@) =~= seq!["-r"@, "-k1"@]);
    add_target(
        &mut targets,
        Target {
            kind: Kind::PacmanCacheSuperseded,
            title: "Superseded versions of installed packages".to_owned(),
            location,
            detail: "Older builds of packages you still have. The installed version and one rollback version are kept, so a bad upgrade can still be reverted offline.".to_owned(),
            bytes: Some(plan.superseded_bytes),
            items: plan.superseded.len(),
            safety: Safety::Safe,
            reclaim: if m.has_paccache {
                run("paccache", args, true)
            } else {
                Reclaim::Paths { paths: copy_texts(&plan.superseded), needs_root: true }
            },
        },
    );
    assert(janitor::target_views(targets@) =~= cache_target_views(
        model::entry_views(entries@),
        config@,
        m@,
    ));
    targets
}

// ---------------------------------------------------------------------------
// Packages
// ---------------------------------------------------------------------------

/// Orphaned dependencies that may be removed.
pub open spec fn orphaned() -> spec_fn(model::EntryView) -> bool {
    |entry: model::EntryView|
        entry.package.reason == InstallReason::Dependency && entry.facts.required_by.len() == 0
            && !entry.facts.protected
}

/// Foreign packages that were never used.
pub open spec fn unused_foreign() -> spec_fn(model::EntryView) -> bool {
    |entry: model::EntryView| entry.facts.origin is Foreign && entry.facts.usage is NeverSinceInstall
}

/// Debug symbol packages.
pub open spec fn debug_symbols() -> spec_fn(model::EntryView) -> bool {
    |entry: model::EntryView| text::ends(entry.package.name, "-debug"@)
}

/// A target that the packages tab takes care of.
pub open spec fn handoff_target(
    entries: Seq<model::EntryView>,
    which: spec_fn(model::EntryView) -> bool,
    kind: Kind,
    title: Seq<char>,
    detail: Seq<char>,
    safety: Safety,
    hint: Seq<char>,
) -> janitor::TargetView {
    let found = entries.filter(which);
    janitor::TargetView {
        kind,
        title,
        location: "installed packages"@,
        detail,
        bytes: Some(number::saturated(model::size_sum(found))),
        items: found.len() as usize,
        safety,
        reclaim: janitor::ReclaimView::Handoff { hint },
    }
}

/// The package-side findings.
pub open spec fn handoff_target_views(entries: Seq<model::EntryView>) -> Seq<janitor::TargetView> {
    seq![
        handoff_target(
            entries,
            orphaned(),
            Kind::Orphans,
            "Orphaned dependencies"@,
            "Installed to satisfy something that is now gone. Nothing left on the system depends on them."@,
            Safety::Safe,
            "packages tab, filter: o"@,
        ),
        handoff_target(
            entries,
            unused_foreign(),
            Kind::UnusedForeign,
            "AUR packages never used since install"@,
            "Built from the AUR, and no file they own has been read since the day they were installed. These are usually the things you tried once."@,
            Safety::Review,
            "packages tab, filter: a then n"@,
        ),
        handoff_target(
            entries,
            debug_symbols(),
            Kind::DebugPackages,
            "Debug symbol packages"@,
            "Detached debug symbols. Only useful when you are debugging that exact build with gdb; they can be reinstalled at any time."@,
            Safety::Safe,
            "packages tab, search: -debug"@,
        ),
    ]
}

/// A target that the packages tab takes care of.
fn handoff(
    tally: &Tally,
    kind: Kind,
    title: &str,
    detail: &str,
    safety: Safety,
    hint: &str,
    Ghost(entries): Ghost<Seq<model::EntryView>>,
    Ghost(which): Ghost<spec_fn(model::EntryView) -> bool>,
) -> (r: Target)
    requires
        tally.is_of(entries, which),
    ensures
        r@ == handoff_target(entries, which, kind, title@, detail@, safety, hint@),
{
    Target {
        kind,
        title: title.to_owned(),
        location: "installed packages".to_owned(),
        detail: detail.to_owned(),
        bytes: Some(tally.bytes),
        items: tally.items,
        safety,
        reclaim: Reclaim::Handoff { hint: hint.to_owned() },
    }
}

/// Summarise the package-side findings so the janitor tab shows the whole
/// picture.
pub fn package_handoff_targets(entries: &[Entry]) -> (r: Vec<Target>)
    ensures
        janitor::target_views(r@) == handoff_target_views(model::entry_views(entries@)),
{
    let ghost all = model::entry_views(entries@);
    let mut orphans = Tally::new();
    let mut unused = Tally::new();
    let mut debug = Tally::new();
    let mut i: usize = 0;
    proof {
        assert(all.take(0) =~= Seq::empty());
        assert(orphans.is_of(Seq::empty(), orphaned()));
        assert(unused.is_of(Seq::empty(), unused_foreign()));
        assert(debug.is_of(Seq::empty(), debug_symbols()));
    }
    while i < entries.len()
        invariant
            i <= entries.len(),
            all == model::entry_views(entries@),
            orphans.is_of(all.take(i as int), orphaned()),
            unused.is_of(all.take(i as int), unused_foreign()),
            debug.is_of(all.take(i as int), debug_symbols()),
        decreases entries.len() - i,
    {
        let ghost seen = all.take(i as int);
        assert(all.take(i + 1) =~= seen.push(all[i as int]));
        let entry = &entries[i];
        orphans.add(
            entry,
            entry.package.reason == InstallReason::Dependency && entry.facts.is_orphan()
                && !entry.facts.protected,
            Ghost(seen),
            Ghost(orphaned()),
        );
        unused.add(
            entry,
            entry.facts.origin.is_foreign() && entry.facts.usage.is_unused(),
            Ghost(seen),
            Ghost(unused_foreign()),
        );
        debug.add(
            entry,
            ends_with(entry.package.name.as_str(), "-debug"),
            Ghost(seen),
            Ghost(debug_symbols()),
        );
        i += 1;
    }
    assert(all.take(all.len() as int) =~= all);
    let mut targets: Vec<Target> = Vec::new();
    add_target(
        &mut targets,
        handoff(
            &orphans,
            Kind::Orphans,
            "Orphaned dependencies",
            "Installed to satisfy something that is now gone. Nothing left on the system depends on them.",
            Safety::Safe,
            "packages tab, filter: o",
            Ghost(all),
            Ghost(orphaned()),
        ),
    );
    add_target(
        &mut targets,
        handoff(
            &unused,
            Kind::UnusedForeign,
            "AUR packages never used since install",
            "Built from the AUR, and no file they own has been read since the day they were installed. These are usually the things you tried once.",
            Safety::Review,
            "packages tab, filter: a then n",
            Ghost(all),
            Ghost(unused_foreign()),
        ),
    );
    add_target(
        &mut targets,
        handoff(
            &debug,
            Kind::DebugPackages,
            "Debug symbol packages",
            "Detached debug symbols. Only useful when you are debugging that exact build with gdb; they can be reinstalled at any time.",
            Safety::Safe,
            "packages tab, search: -debug",
            Ghost(all),
            Ghost(debug_symbols()),
        ),
    );
    assert(janitor::target_views(targets@) =~= handoff_target_views(all));
    targets
}

// ---------------------------------------------------------------------------
// AUR helpers
// ---------------------------------------------------------------------------

/// How many AUR helpers there are to look for.
pub const AUR_HELPERS: usize = 6;

/// The AUR helpers whose build caches are looked for.
pub open spec fn helper_name(i: int) -> Seq<char> {
    if i == 0 {
        "yay"@
    } else if i == 1 {
        "paru"@
    } else if i == 2 {
        "pikaur"@
    } else if i == 3 {
        "trizen"@
    } else if i == 4 {
        "aurutils"@
    } else {
        "makepkg"@
    }
}

/// The AUR helper at a place in the list of those looked for.
pub fn aur_helper(i: usize) -> (r: &'static str)
    ensures
        r@ == helper_name(i as int),
{
    if i == 0 {
        "yay"
    } else if i == 1 {
        "paru"
    } else if i == 2 {
        "pikaur"
    } else if i == 3 {
        "trizen"
    } else if i == 4 {
        "aurutils"
    } else {
        "makepkg"
    }
}

/// Where an AUR helper keeps its build cache.
pub open spec fn helper_path(home: Seq<char>, helper: Seq<char>) -> Seq<char> {
    path::join_path(home, ".cache/"@ + helper)
}

/// Where an AUR helper keeps its build cache.
pub fn aur_helper_path(home: &str, helper: &str) -> (r: String)
    ensures
        r@ == helper_path(home@, helper@),
{
    join(home, concat2(".cache/", helper).as_str())
}

/// The target for the build cache of an AUR helper.
pub open spec fn helper_target(
    home: Seq<char>,
    helper: Seq<char>,
    usage: Usage,
) -> janitor::TargetView {
    janitor::TargetView {
        kind: Kind::AurHelperCache,
        title: helper + " build cache"@,
        location: helper_path(home, helper),
        detail: "A git clone and a full build tree for every package "@ + helper
            + " has ever built. Deleting it costs a re-clone on the next build and nothing else."@,
        bytes: Some(usage.bytes),
        items: usage.files,
        safety: Safety::Safe,
        reclaim: janitor::ReclaimView::Paths {
            paths: seq![helper_path(home, helper)],
            needs_root: false,
        },
    }
}

/// The targets for the build caches that are there and hold something.
pub open spec fn helper_target_views(
    home: Seq<char>,
    usages: Seq<Option<Usage>>,
) -> Seq<janitor::TargetView>
    decreases usages.len(),
{
    if usages.len() == 0 {
        Seq::empty()
    } else {
        let before = helper_target_views(home, usages.drop_last());
        match usages.last() {
            Some(usage) => if usage.bytes == 0 {
                before
            } else {
                before.push(helper_target(home, helper_name(usages.len() - 1), usage))
            },
            None => before,
        }
    }
}

/// The targets for the build caches of the AUR helpers: none without a home
/// directory or measurements.
pub open spec fn aur_target_views(
    config: scan::ConfigView,
    m: MeasurementsView,
) -> Seq<janitor::TargetView> {
    match config.home {
        Some(home) => if config.measure_directories {
            helper_target_views(home, scan::first_of(m.aur_helpers, AUR_HELPERS as nat))
        } else {
            Seq::empty()
        },
        None => Seq::empty(),
    }
}

/// A list of one path.
fn only(path: &str) -> (r: Vec<String>)
    ensures
        text::texts(r@) == seq![path@],
{
    let mut out: Vec<String> = Vec::new();
    add_text(&mut out, path.to_owned());
    assert(text::texts(out@) =~= seq![path@]);
    out
}

/// Measure the build caches of the AUR helpers.
pub fn aur_helper_targets(config: &Config, m: &Measurements) -> (r: Vec<Target>)
    ensures
        janitor::target_views(r@) == aur_target_views(config@, m@),
{
    let mut targets: Vec<Target> = Vec::new();
    assert(janitor::target_views(targets@) =~= Seq::empty());
    let home = match &config.home {
        Some(home) => home,
        None => {
            return targets;
        },
    };
    if !config.measure_directories {
        return targets;
    }
    let ghost usages = m.aur_helpers@;
    let mut i: usize = 0;
    assert(usages.take(0) =~= Seq::empty());
    while i < m.aur_helpers.len() && i < AUR_HELPERS
        invariant
            i <= m.aur_helpers.len(),
            i <= AUR_HELPERS,
            usages == m.aur_helpers@,
            janitor::target_views(targets@) == helper_target_views(home@, usages.take(i as int)),
        decreases m.aur_helpers.len() - i,
    {
        assert(usages.take(i + 1).drop_last() =~= usages.take(i as int));
        if let Some(usage) = m.aur_helpers[i] {
            if usage.bytes != 0 {
                let helper = aur_helper(i);
                let path = aur_helper_path(home.as_str(), helper);
                add_target(
                    &mut targets,
                    Target {
                        kind: Kind::AurHelperCache,
                        title: concat2(helper, " build cache"),
                        location: path.clone(),
                        detail: concat3(
                            "A git clone and a full build tree for every package ",
                            helper,
                            " has ever built. Deleting it costs a re-clone on the next build and nothing else.",
                        ),
                        bytes: Some(usage.bytes),
                        items: usage.files,
                        safety: Safety::Safe,
                        reclaim: Reclaim::Paths { paths: only(path.as_str()), needs_root: false },
                    },
                );
            }
        }
        i += 1;
    }
    assert(usages.take(i as int) =~= scan::first_of(usages, AUR_HELPERS as nat));
    targets
}

// ---------------------------------------------------------------------------
// The system
// ---------------------------------------------------------------------------

/// The bytes of what a walk found, added up.
pub open spec fn found_bytes(found: Seq<(Seq<char>, u64)>) -> nat
    decreases found.len(),
{
    if found.len() == 0 {
        0
    } else {
        found_bytes(found.drop_last()) + found.last().1 as nat
    }
}

/// The target for configuration leftovers, where there are any.
pub open spec fn leftover_target_views(
    config: scan::ConfigView,
    m: MeasurementsView,
) -> Seq<janitor::TargetView> {
    if m.leftovers.len() == 0 {
        Seq::empty()
    } else {
        seq![
            janitor::TargetView {
                kind: Kind::ConfigLeftovers,
                title: ".pacnew and .pacsave files"@,
                location: path::join_path(config.root, "etc"@),
                detail: "Configuration files pacman could not merge automatically. Each one is either an upgrade you never reviewed or a config left behind by a removed package. Merge them with pacdiff before deleting."@,
                bytes: Some(number::saturated(found_bytes(m.leftovers))),
                items: m.leftovers.len() as usize,
                safety: Safety::Careful,
                reclaim: if m.has_pacdiff {
                    running("pacdiff"@, Seq::empty(), true)
                } else {
                    janitor::ReclaimView::Advice {
                        text: "install pacman-contrib and run `sudo pacdiff` to review each file"@,
                    }
                },
            },
        ]
    }
}

/// The target for a directory that is cleared by a command.
pub open spec fn directory_target(
    kind: Kind,
    title: Seq<char>,
    location: Seq<char>,
    detail: Seq<char>,
    usage: Usage,
    safety: Safety,
    reclaim: janitor::ReclaimView,
) -> janitor::TargetView {
    janitor::TargetView {
        kind,
        title,
        location,
        detail,
        bytes: Some(usage.bytes),
        items: usage.files,
        safety,
        reclaim,
    }
}

/// The target for systemd coredumps, where there are any.
pub open spec fn coredump_target_views(
    config: scan::ConfigView,
    m: MeasurementsView,
) -> Seq<janitor::TargetView> {
    match m.coredumps {
        Some(usage) => seq![
            directory_target(
                Kind::Coredumps,
                "Systemd coredumps"@,
                path::join_path(config.root, "var/lib/systemd/coredump"@),
                "Memory dumps from crashed processes. Useful for about a day after a crash you intend to debug, and dead weight after that."@,
                usage,
                Safety::Safe,
                running("journalctl"@, seq!["--vacuum-time=1s"@], true),
            ),
        ],
        None => Seq::empty(),
    }
}

/// The target for the systemd journal, where there is one.
pub open spec fn journal_target_views(
    config: scan::ConfigView,
    m: MeasurementsView,
) -> Seq<janitor::TargetView> {
    match m.journal {
        Some(usage) => seq![
            directory_target(
                Kind::Journal,
                "Systemd journal"@,
                path::join_path(config.root, "var/log/journal"@),
                "System logs. Capping the journal keeps recent history and drops the rest; set SystemMaxUse in journald.conf to make the cap permanent."@,
                usage,
                Safety::Review,
                running("journalctl"@, seq!["--vacuum-size=256M"@], true),
            ),
        ],
        None => Seq::empty(),
    }
}

/// The targets for system-wide leftovers. Directories count only where they
/// are measured.
pub open spec fn system_target_views(
    config: scan::ConfigView,
    m: MeasurementsView,
) -> Seq<janitor::TargetView> {
    if config.measure_directories {
        leftover_target_views(config, m) + coredump_target_views(config, m) + journal_target_views(
            config,
            m,
        )
    } else {
        leftover_target_views(config, m)
    }
}

/// The bytes of what a walk found, added up.
fn total_found(found: &Vec<(String, u64)>) -> (r: u64)
    ensures
        r == number::saturated(found_bytes(capability::found_views(found@))),
{
    let ghost all = capability::found_views(found@);
    let mut sum: u64 = 0;
    let mut i: usize = 0;
    assert(all.take(0) =~= Seq::empty());
    while i < found.len()
        invariant
            i <= found.len(),
            all == capability::found_views(found@),
            sum == number::saturated(found_bytes(all.take(i as int))),
        decreases found.len() - i,
    {
        assert(all.take(i + 1).drop_last() =~= all.take(i as int));
        sum = sum.saturating_add(found[i].1);
        i += 1;
    }
    assert(all.take(all.len() as int) =~= all);
    sum
}

/// System-wide leftovers: configuration files, coredumps and the journal.
pub fn system_targets(config: &Config, m: &Measurements) -> (r: Vec<Target>)
    ensures
        janitor::target_views(r@) == system_target_views(config@, m@),
{
    let mut targets: Vec<Target> = Vec::new();
    assert(janitor::target_views(targets@) =~= Seq::empty());
    if m.leftovers.len() > 0 {
        let none: Vec<&str> = Vec::new();
        assert(text::str_texts(none@) =~= Seq::empty());
        add_target(
            &mut targets,
            Target {
                kind: Kind::ConfigLeftovers,
                title: ".pacnew and .pacsave files".to_owned(),
                location: join(config.root.as_str(), "etc"),
                detail: "Configuration files pacman could not merge automatically. Each one is either an upgrade you never reviewed or a config left behind by a removed package. Merge them with pacdiff before deleting.".to_owned(),
                bytes: Some(total_found(&m.leftovers)),
                items: m.leftovers.len(),
                safety: Safety::Careful,
                reclaim: if m.has_pacdiff {
                    run("pacdiff", none, true)
                } else {
                    Reclaim::Advice {
                        text: "install pacman-contrib and run `sudo pacdiff` to review each file".to_owned(),
                    }
                },
            },
        );
    }
    assert(janitor::target_views(targets@) =~= leftover_target_views(config@, m@));
    if !config.measure_directories {
        return targets;
    }
    if let Some(usage) = m.coredumps {
        let args = vec!["--vacuum-time=1s"];
        assert(text::str_texts(args@) =~= seq!["--vacuum-time=1s"@]);
        add_target(
            &mut targets,
            Target {
                kind: Kind::Coredumps,
                title: "Systemd coredumps".to_owned(),
                location: join(config.root.as_str(), "var/lib/systemd/coredump"),
                detail: "Memory dumps from crashed processes. Useful for about a day after a crash you intend to debug, and dead weight after that.".to_owned(),
                bytes: Some(usage.bytes),
                items: usage.files,
                safety: Safety::Safe,
                reclaim: run("journalctl", args, true),
            },
        );
    }
    assert(janitor::target_views(targets@) =~= leftover_target_views(config@, m@)
        + coredump_target_views(config@, m@));
    if let Some(usage) = m.journal {
        let args = vec!["--vacuum-size=256M"];
        assert(text::str_texts(args@) =~= seq!["--vacuum-size=256M"@]);
        add_target(
            &mut targets,
            Target {
                kind: Kind::Journal,
                title: "Systemd journal".to_owned(),
                location: join(config.root.as_str(), "var/log/journal"),
                detail: "System logs. Capping the journal keeps recent history and drops the rest; set SystemMaxUse in journald.conf to make the cap permanent.".to_owned(),
                bytes: Some(usage.bytes),
                items: usage.files,
                safety: Safety::Review,
                reclaim: run("journalctl", args, true),
            },
        );
    }
    assert(janitor::target_views(targets@) =~= system_target_views(config@, m@));
    targets
}

// ---------------------------------------------------------------------------
// The home directory
// ---------------------------------------------------------------------------

/// How many developer caches there are to look for.
pub const DEVELOPER_CACHES: usize = 8;

/// Directories worth measuring under the user's home, and what they hold.
pub open spec fn developer_cache_text(i: int) -> (Seq<char>, Seq<char>) {
    if i == 0 {
        (".cargo/registry"@, "Rust crate sources and downloads"@)
    } else if i == 1 {
        (".npm/_cacache"@, "npm package cache"@)
    } else if i == 2 {
        (".cache/go-build"@, "Go build cache"@)
    } else if i == 3 {
        ("go/pkg/mod"@, "Go module cache"@)
    } else if i == 4 {
        (".gradle/caches"@, "Gradle cache"@)
    } else if i == 5 {
        (".m2/repository"@, "Maven repository"@)
    } else if i == 6 {
        (".cache/pip"@, "pip wheel cache"@)
    } else {
        (".cache/uv"@, "uv package cache"@)
    }
}

/// The directory at a place in the list of developer caches, and what it
/// holds.
pub fn developer_cache(i: usize) -> (r: (&'static str, &'static str))
    ensures
        (r.0@, r.1@) == developer_cache_text(i as int),
{
    if i == 0 {
        (".cargo/registry", "Rust crate sources and downloads")
    } else if i == 1 {
        (".npm/_cacache", "npm package cache")
    } else if i == 2 {
        (".cache/go-build", "Go build cache")
    } else if i == 3 {
        ("go/pkg/mod", "Go module cache")
    } else if i == 4 {
        (".gradle/caches", "Gradle cache")
    } else if i == 5 {
        (".m2/repository", "Maven repository")
    } else if i == 6 {
        (".cache/pip", "pip wheel cache")
    } else {
        (".cache/uv", "uv package cache")
    }
}

/// What the developer caches add up to.
#[verifier::ext_equal]
pub struct DeveloperSum {
    /// Bytes.
    pub bytes: nat,
    /// Files.
    pub files: nat,
    /// Where they are.
    pub paths: Seq<Seq<char>>,
    /// What they hold.
    pub described: Seq<Seq<char>>,
}

/// What the developer caches that are there and hold something add up to.
pub open spec fn developer_sum(home: Seq<char>, usages: Seq<Option<Usage>>) -> DeveloperSum
    decreases usages.len(),
{
    if usages.len() == 0 {
        DeveloperSum { bytes: 0, files: 0, paths: Seq::empty(), described: Seq::empty() }
    } else {
        let before = developer_sum(home, usages.drop_last());
        let (relative, description) = developer_cache_text(usages.len() - 1);
        match usages.last() {
            Some(usage) => if usage.bytes == 0 {
                before
            } else {
                DeveloperSum {
                    bytes: before.bytes + usage.bytes as nat,
                    files: before.files + usage.files as nat,
                    paths: before.paths.push(path::join_path(home, relative)),
                    described: before.described.push(description),
                }
            },
            None => before,
        }
    }
}

/// The target for the developer caches, where there are any.
pub open spec fn developer_target_views(
    home: Seq<char>,
    m: MeasurementsView,
) -> Seq<janitor::TargetView> {
    let sum = developer_sum(home, scan::first_of(m.developer, DEVELOPER_CACHES as nat));
    if sum.paths.len() == 0 {
        Seq::empty()
    } else {
        seq![
            janitor::TargetView {
                kind: Kind::DeveloperCache,
                title: "Language toolchain caches"@,
                location: split::join(sum.described, ", "@),
                detail: "Downloaded dependencies and build artefacts for language toolchains. Every byte is re-fetchable, and these grow without bound because nothing ever prunes them."@,
                bytes: Some(number::saturated(sum.bytes)),
                items: number::saturated_count(sum.files),
                safety: Safety::Safe,
                reclaim: janitor::ReclaimView::Paths { paths: sum.paths, needs_root: false },
            },
        ]
    }
}

/// The target for the cache directory, where there is one.
pub open spec fn user_cache_target_views(
    home: Seq<char>,
    m: MeasurementsView,
) -> Seq<janitor::TargetView> {
    match m.user_cache {
        Some(usage) => seq![
            directory_target(
                Kind::UserCache,
                "Application cache directory"@,
                path::join_path(home, ".cache"@),
                "Everything under ~/.cache, AUR helper caches included. Applications are required to treat this as disposable, but review the largest subdirectories before clearing the lot."@,
                usage,
                Safety::Review,
                janitor::ReclaimView::Advice {
                    text: "inspect with `du -sh ~/.cache/* | sort -h` and remove the offenders"@,
                },
            ),
        ],
        None => Seq::empty(),
    }
}

/// The target for the trash, where there is one.
pub open spec fn trash_target_views(home: Seq<char>, m: MeasurementsView) -> Seq<
    janitor::TargetView,
> {
    let trash = path::join_path(home, ".local/share/Trash"@);
    match m.trash {
        Some(usage) => seq![
            directory_target(
                Kind::Trash,
                "Desktop trash"@,
                trash,
                "Files you already deleted once."@,
                usage,
                Safety::Review,
                janitor::ReclaimView::Paths {
                    paths: seq![
                        path::join_path(trash, "files"@),
                        path::join_path(trash, "info"@),
                    ],
                    needs_root: false,
                },
            ),
        ],
        None => Seq::empty(),
    }
}

/// The targets under the home directory: none without one, or without
/// measurements.
pub open spec fn home_target_views(
    config: scan::ConfigView,
    m: MeasurementsView,
) -> Seq<janitor::TargetView> {
    match config.home {
        Some(home) => if config.measure_directories {
            developer_target_views(home, m) + user_cache_target_views(home, m)
                + trash_target_views(home, m)
        } else {
            Seq::empty()
        },
        None => Seq::empty(),
    }
}

/// The target for the developer caches.
fn developer_targets(home: &str, m: &Measurements) -> (r: Vec<Target>)
    ensures
        janitor::target_views(r@) == developer_target_views(home@, m@),
{
    let ghost usages = m.developer@;
    let mut bytes: u64 = 0;
    let mut files: usize = 0;
    let mut paths: Vec<String> = Vec::new();
    let mut described: Vec<String> = Vec::new();
    let mut i: usize = 0;
    proof {
        assert(usages.take(0) =~= Seq::empty());
        assert(text::texts(paths@) =~= Seq::empty());
        assert(text::texts(described@) =~= Seq::empty());
    }
    while i < m.developer.len() && i < DEVELOPER_CACHES
        invariant
            i <= m.developer.len(),
            i <= DEVELOPER_CACHES,
            usages == m.developer@,
            bytes == number::saturated(developer_sum(home@, usages.take(i as int)).bytes),
            files == number::saturated_count(developer_sum(home@, usages.take(i as int)).files),
            text::texts(paths@) == developer_sum(home@, usages.take(i as int)).paths,
            text::texts(described@) == developer_sum(home@, usages.take(i as int)).described,
        decreases m.developer.len() - i,
    {
        assert(usages.take(i + 1).drop_last() =~= usages.take(i as int));
        if let Some(usage) = m.developer[i] {
            if usage.bytes != 0 {
                let (relative, description) = developer_cache(i);
                bytes = bytes.saturating_add(usage.bytes);
                files = files.saturating_add(usage.files);
                add_text(&mut paths, join(home, relative));
                add_text(&mut described, description.to_owned());
            }
        }
        i += 1;
    }
    assert(usages.take(i as int) =~= scan::first_of(usages, DEVELOPER_CACHES as nat));
    assert(text::texts(paths@).len() == paths.len());
    let mut targets: Vec<Target> = Vec::new();
    assert(janitor::target_views(targets@) =~= Seq::empty());
    if paths.len() > 0 {
        add_target(
            &mut targets,
            Target {
                kind: Kind::DeveloperCache,
                title: "Language toolchain caches".to_owned(),
                location: joined(&described, ", "),
                detail: "Downloaded dependencies and build artefacts for language toolchains. Every byte is re-fetchable, and these grow without bound because nothing ever prunes them.".to_owned(),
                bytes: Some(bytes),
                items: files,
                safety: Safety::Safe,
                reclaim: Reclaim::Paths { paths, needs_root: false },
            },
        );
    }
    assert(janitor::target_views(targets@) =~= developer_target_views(home@, m@));
    targets
}

/// Per-user caches and the trash.
pub fn home_targets(config: &Config, m: &Measurements) -> (r: Vec<Target>)
    ensures
        janitor::target_views(r@) == home_target_views(config@, m@),
{
    let home = match &config.home {
        Some(home) => home.as_str(),
        None => {
            let none: Vec<Target> = Vec::new();
            assert(janitor::target_views(none@) =~= Seq::empty());
            return none;
        },
    };
    if !config.measure_directories {
        let none: Vec<Target> = Vec::new();
        assert(janitor::target_views(none@) =~= Seq::empty());
        return none;
    }
    let mut targets = developer_targets(home, m);
    if let Some(usage) = m.user_cache {
        add_target(
            &mut targets,
            Target {
                kind: Kind::UserCache,
                title: "Application cache directory".to_owned(),
                location: join(home, ".cache"),
                detail: "Everything under ~/.cache, AUR helper caches included. Applications are required to treat this as disposable, but review the largest subdirectories before clearing the lot.".to_owned(),
                bytes: Some(usage.bytes),
                items: usage.files,
                safety: Safety::Review,
                reclaim: Reclaim::Advice {
                    text: "inspect with `du -sh ~/.cache/* | sort -h` and remove the offenders".to_owned(),
                },
            },
        );
    }
    assert(janitor::target_views(targets@) =~= developer_target_views(home@, m@)
        + user_cache_target_views(home@, m@));
    if let Some(usage) = m.trash {
        let trash = join(home, ".local/share/Trash");
        let mut paths = only(join(trash.as_str(), "files").as_str());
        add_text(&mut paths, join(trash.as_str(), "info"));
        assert(text::texts(paths@) =~= seq![
            path::join_path(trash@, "files"@),
            path::join_path(trash@, "info"@),
        ]);
        add_target(
            &mut targets,
            Target {
                kind: Kind::Trash,
                title: "Desktop trash".to_owned(),
                location: trash,
                detail: "Files you already deleted once.".to_owned(),
                bytes: Some(usage.bytes),
                items: usage.files,
                safety: Safety::Review,
                reclaim: Reclaim::Paths { paths, needs_root: false },
            },
        );
    }
    assert(janitor::target_views(targets@) =~= home_target_views(config@, m@));
    targets
}

// ---------------------------------------------------------------------------
// Kernel modules
// ---------------------------------------------------------------------------

/// Whether a directory of kernel modules is left over: it names the package
/// that owns it, and that package is not installed.
pub open spec fn is_stale(tree: ModuleTreeView, names: Seq<Seq<char>>) -> bool {
    tree.is_dir && tree.pkgbase is Some && !names.contains(text::trim(tree.pkgbase.unwrap()))
}

/// The directories of kernel modules that are left over.
pub open spec fn stale_trees(trees: Seq<ModuleTreeView>, names: Seq<Seq<char>>) -> Seq<
    ModuleTreeView,
>
    decreases trees.len(),
{
    if trees.len() == 0 {
        Seq::empty()
    } else {
        let before = stale_trees(trees.drop_last(), names);
        if is_stale(trees.last(), names) {
            before.push(trees.last())
        } else {
            before
        }
    }
}

/// What there is to say about directories that name no owner. Flagging them
/// without proof risks deleting a running kernel's modules.
pub open spec fn ownerless(trees: Seq<ModuleTreeView>) -> Seq<Seq<char>>
    decreases trees.len(),
{
    if trees.len() == 0 {
        Seq::empty()
    } else {
        let before = ownerless(trees.drop_last());
        let tree = trees.last();
        if tree.is_dir && tree.pkgbase is None {
            before.push(
                tree.path
                    + " has no pkgbase file; check by hand whether it belongs to an installed kernel"@,
            )
        } else {
            before
        }
    }
}

/// The paths of some directories.
pub open spec fn tree_paths(trees: Seq<ModuleTreeView>) -> Seq<Seq<char>> {
    Seq::new(trees.len(), |i: int| trees[i].path)
}

/// The bytes of some directories, added up.
pub open spec fn tree_bytes(trees: Seq<ModuleTreeView>) -> nat
    decreases trees.len(),
{
    if trees.len() == 0 {
        0
    } else {
        tree_bytes(trees.drop_last()) + trees.last().bytes as nat
    }
}

/// The target for kernel modules that are left over, where there are any.
/// Their size is known only where directories are measured.
pub open spec fn kernel_target_views(
    packages: Seq<model::PackageView>,
    config: scan::ConfigView,
    m: MeasurementsView,
) -> Seq<janitor::TargetView> {
    let stale = stale_trees(m.modules, scan::names_of(packages));
    if stale.len() == 0 {
        Seq::empty()
    } else {
        seq![
            janitor::TargetView {
                kind: Kind::StaleKernelModules,
                title: "Module trees from removed kernels"@,
                location: path::join_path(config.root, "usr/lib/modules"@),
                detail: "Each directory names its owning package in a pkgbase file, and that package is no longer installed. pacman cannot see these files, so nothing else cleans them up. Make sure you are not booted into one of these kernels first."@,
                bytes: Some(
                    if config.measure_directories {
                        number::saturated(tree_bytes(stale))
                    } else {
                        0
                    },
                ),
                items: stale.len() as usize,
                safety: Safety::Careful,
                reclaim: janitor::ReclaimView::Paths {
                    paths: tree_paths(stale),
                    needs_root: true,
                },
            },
        ]
    }
}

/// Whether a package of that name is installed.
pub fn is_installed(packages: &[Package], name: &str) -> (r: bool)
    ensures
        r == scan::names_of(model::package_views(packages@)).contains(name@),
{
    let ghost names = scan::names_of(model::package_views(packages@));
    let mut i: usize = 0;
    while i < packages.len()
        invariant
            i <= packages.len(),
            names == scan::names_of(model::package_views(packages@)),
            forall|k: int| 0 <= k < i ==> #[trigger] names[k] != name@,
        decreases packages.len() - i,
    {
        if same(packages[i].name.as_str(), name) {
            assert(names[i as int] == name@);
            return true;
        }
        i += 1;
    }
    false
}

/// Whether a directory of kernel modules is left over.
pub fn stale_tree(packages: &[Package], tree: &ModuleTree) -> (r: bool)
    ensures
        r == is_stale(tree@, scan::names_of(model::package_views(packages@))),
{
    if !tree.is_dir {
        return false;
    }
    match &tree.pkgbase {
        Some(owner) => !is_installed(packages, trimmed(owner.as_str())),
        None => false,
    }
}

/// Find kernel module trees whose owning package is gone.
///
/// Arch kernel packages write `/usr/lib/modules/<release>/pkgbase` naming the
/// package that owns the tree. If that package is not installed, the whole
/// directory is a leftover — typically hundreds of megabytes, and invisible to
/// every other cleanup tool because pacman does not know the files exist.
pub fn kernel_module_targets(
    packages: &[Package],
    config: &Config,
    m: &Measurements,
    warnings: &mut Vec<String>,
) -> (r: Vec<Target>)
    ensures
        janitor::target_views(r@) == kernel_target_views(
            model::package_views(packages@),
            config@,
            m@,
        ),
        text::texts(final(warnings)@) == text::texts(old(warnings)@) + ownerless(m@.modules),
{
    let ghost names = scan::names_of(model::package_views(packages@));
    let ghost trees = m@.modules;
    let ghost said = text::texts(warnings@);
    let mut paths: Vec<String> = Vec::new();
    let mut bytes: u64 = 0;
    let mut i: usize = 0;
    proof {
        assert(trees.take(0) =~= Seq::empty());
        assert(text::texts(paths@) =~= tree_paths(stale_trees(trees.take(0), names)));
        assert(said + ownerless(trees.take(0)) =~= said);
    }
    while i < m.modules.len()
        invariant
            i <= m.modules.len(),
            trees == m@.modules,
            names == scan::names_of(model::package_views(packages@)),
            text::texts(paths@) == tree_paths(stale_trees(trees.take(i as int), names)),
            bytes == number::saturated(tree_bytes(stale_trees(trees.take(i as int), names))),
            text::texts(warnings@) == said + ownerless(trees.take(i as int)),
        decreases m.modules.len() - i,
    {
        let tree = &m.modules[i];
        let ghost before = stale_trees(trees.take(i as int), names);
        let ghost said_before = ownerless(trees.take(i as int));
        proof {
            assert(trees.take(i + 1).drop_last() =~= trees.take(i as int));
            assert(trees.take(i + 1).last() == tree@);
        }
        if tree.is_dir && tree.pkgbase.is_none() {
            add_text(
                warnings,
                concat2(
                    tree.path.as_str(),
                    " has no pkgbase file; check by hand whether it belongs to an installed kernel",
                ),
            );
            assert(text::texts(warnings@) =~= said + ownerless(trees.take(i + 1)));
        }
        if stale_tree(packages, tree) {
            bytes = bytes.saturating_add(tree.bytes);
            add_text(&mut paths, tree.path.clone());
            proof {
                assert(before.push(tree@).drop_last() =~= before);
                assert(text::texts(paths@) =~= tree_paths(before.push(tree@)));
            }
        }
        i += 1;
    }
    assert(trees.take(trees.len() as int) =~= trees);
    assert(text::texts(paths@).len() == paths.len());
    let mut targets: Vec<Target> = Vec::new();
    assert(janitor::target_views(targets@) =~= Seq::empty());
    if paths.len() > 0 {
        add_target(
            &mut targets,
            Target {
                kind: Kind::StaleKernelModules,
                title: "Module trees from removed kernels".to_owned(),
                location: join(config.root.as_str(), "usr/lib/modules"),
                detail: "Each directory names its owning package in a pkgbase file, and that package is no longer installed. pacman cannot see these files, so nothing else cleans them up. Make sure you are not booted into one of these kernels first.".to_owned(),
                bytes: Some(if config.measure_directories {
                    bytes
                } else {
                    0
                }),
                items: paths.len(),
                safety: Safety::Careful,
                reclaim: Reclaim::Paths { paths, needs_root: true },
            },
        );
    }
    assert(janitor::target_views(targets@) =~= kernel_target_views(
        model::package_views(packages@),
        config@,
        m@,
    ));
    targets
}

// ---------------------------------------------------------------------------
// Flatpak, and everything together
// ---------------------------------------------------------------------------

/// The target for flatpak runtimes, where flatpak is installed.
pub open spec fn flatpak_target_views(m: MeasurementsView) -> Seq<janitor::TargetView> {
    if m.has_flatpak {
        seq![
            janitor::TargetView {
                kind: Kind::FlatpakUnused,
                title: "Unused flatpak runtimes"@,
                location: "flatpak"@,
                detail: "Runtimes and SDK extensions that no installed application references. Only flatpak can work out which those are, so pacpurge does not guess at a size."@,
                bytes: None,
                items: 1,
                safety: Safety::Safe,
                reclaim: running("flatpak"@, seq!["uninstall"@, "--unused"@], false),
            },
        ]
    } else {
        Seq::empty()
    }
}

/// Offer the flatpak cleanup when flatpak is installed.
///
/// Unused runtimes are often several gigabytes, but only flatpak itself can
/// say which runtimes nothing references, and asking costs a subprocess on
/// every scan. The target is advisory: it carries no size claim it cannot
/// back up.
pub fn flatpak_target(m: &Measurements) -> (r: Vec<Target>)
    ensures
        janitor::target_views(r@) == flatpak_target_views(m@),
{
    let mut targets: Vec<Target> = Vec::new();
    if m.has_flatpak {
        let args = vec!["uninstall", "--unused"];
        assert(text::str_texts(args@) =~= seq!["uninstall"@, "--unused"@]);
        add_target(
            &mut targets,
            Target {
                kind: Kind::FlatpakUnused,
                title: "Unused flatpak runtimes".to_owned(),
                location: "flatpak".to_owned(),
                detail: "Runtimes and SDK extensions that no installed application references. Only flatpak can work out which those are, so pacpurge does not guess at a size.".to_owned(),
                bytes: None,
                items: 1,
                safety: Safety::Safe,
                reclaim: run("flatpak", args, false),
            },
        );
    }
    assert(janitor::target_views(targets@) =~= flatpak_target_views(m@));
    targets
}

// ---------------------------------------------------------------------------
// What to measure
// ---------------------------------------------------------------------------

/// How many directory entries may be visited in search of configuration
/// leftovers.
pub const LEFTOVER_BUDGET: usize = 200_000;

/// What to measure for [`Measurements`].
pub struct Places {
    /// Where configuration leftovers lie.
    pub leftovers: String,
    /// How their names end.
    pub endings: Vec<String>,
    /// Where kernel modules lie.
    pub modules: String,
    /// The coredump directory.
    pub coredumps: Option<String>,
    /// The journal directory.
    pub journal: Option<String>,
    /// The build caches of the AUR helpers, in the order of [`aur_helper`].
    pub aur_helpers: Vec<String>,
    /// The developer caches, in the order of [`developer_cache`].
    pub developer: Vec<String>,
    /// The user's cache directory.
    pub user_cache: Option<String>,
    /// The desktop trash.
    pub trash: Option<String>,
}

/// The view of [`Places`].
#[verifier::ext_equal]
pub struct PlacesView {
    /// See [`Places::leftovers`].
    pub leftovers: Seq<char>,
    /// See [`Places::endings`].
    pub endings: Seq<Seq<char>>,
    /// See [`Places::modules`].
    pub modules: Seq<char>,
    /// See [`Places::coredumps`].
    pub coredumps: Option<Seq<char>>,
    /// See [`Places::journal`].
    pub journal: Option<Seq<char>>,
    /// See [`Places::aur_helpers`].
    pub aur_helpers: Seq<Seq<char>>,
    /// See [`Places::developer`].
    pub developer: Seq<Seq<char>>,
    /// See [`Places::user_cache`].
    pub user_cache: Option<Seq<char>>,
    /// See [`Places::trash`].
    pub trash: Option<Seq<char>>,
}

impl View for Places {
    type V = PlacesView;

    open spec fn view(&self) -> PlacesView {
        PlacesView {
            leftovers: self.leftovers@,
            endings: text::texts(self.endings@),
            modules: self.modules@,
            coredumps: scan::optional_text(self.coredumps),
            journal: scan::optional_text(self.journal),
            aur_helpers: text::texts(self.aur_helpers@),
            developer: text::texts(self.developer@),
            user_cache: scan::optional_text(self.user_cache),
            trash: scan::optional_text(self.trash),
        }
    }
}

/// A path under a directory, where there is such a directory and it is to be
/// measured.
pub open spec fn place_under(
    directory: Option<Seq<char>>,
    relative: Seq<char>,
    measure: bool,
) -> Option<Seq<char>> {
    match directory {
        Some(directory) => if measure {
            Some(path::join_path(directory, relative))
        } else {
            None
        },
        None => None,
    }
}

/// The build caches of the AUR helpers.
pub open spec fn helper_places(home: Seq<char>) -> Seq<Seq<char>> {
    Seq::new(AUR_HELPERS as nat, |i: int| helper_path(home, helper_name(i)))
}

/// The developer caches.
pub open spec fn developer_places(home: Seq<char>) -> Seq<Seq<char>> {
    Seq::new(
        DEVELOPER_CACHES as nat,
        |i: int| path::join_path(home, developer_cache_text(i).0),
    )
}

/// What there is to measure. Without measurements only what costs little is
/// looked at, and without a home directory nothing of the user's.
pub open spec fn places_for(config: scan::ConfigView) -> PlacesView {
    let measure = config.measure_directories;
    let root = Some(config.root);
    PlacesView {
        leftovers: path::join_path(config.root, "etc"@),
        endings: seq![".pacnew"@, ".pacsave"@, ".pacorig"@],
        modules: path::join_path(config.root, "usr/lib/modules"@),
        coredumps: place_under(root, "var/lib/systemd/coredump"@, measure),
        journal: place_under(root, "var/log/journal"@, measure),
        aur_helpers: match config.home {
            Some(home) if measure => helper_places(home),
            _ => Seq::empty(),
        },
        developer: match config.home {
            Some(home) if measure => developer_places(home),
            _ => Seq::empty(),
        },
        user_cache: place_under(config.home, ".cache"@, measure),
        trash: place_under(config.home, ".local/share/Trash"@, measure),
    }
}

/// The build caches of the AUR helpers.
fn helper_paths(home: &str) -> (r: Vec<String>)
    ensures
        text::texts(r@) == helper_places(home@),
{
    let mut out: Vec<String> = Vec::new();
    let mut i: usize = 0;
    assert(text::texts(out@) =~= helper_places(home@).take(0));
    while i < AUR_HELPERS
        invariant
            i <= AUR_HELPERS,
            text::texts(out@) == helper_places(home@).take(i as int),
        decreases AUR_HELPERS - i,
    {
        add_text(&mut out, aur_helper_path(home, aur_helper(i)));
        assert(text::texts(out@) =~= helper_places(home@).take(i + 1));
        i += 1;
    }
    assert(helper_places(home@).take(i as int) =~= helper_places(home@));
    out
}

/// The developer caches.
fn developer_paths(home: &str) -> (r: Vec<String>)
    ensures
        text::texts(r@) == developer_places(home@),
{
    let mut out: Vec<String> = Vec::new();
    let mut i: usize = 0;
    assert(text::texts(out@) =~= developer_places(home@).take(0));
    while i < DEVELOPER_CACHES
        invariant
            i <= DEVELOPER_CACHES,
            text::texts(out@) == developer_places(home@).take(i as int),
        decreases DEVELOPER_CACHES - i,
    {
        add_text(&mut out, join(home, developer_cache(i).0));
        assert(text::texts(out@) =~= developer_places(home@).take(i + 1));
        i += 1;
    }
    assert(developer_places(home@).take(i as int) =~= developer_places(home@));
    out
}

/// Decide what to measure.
pub fn places(config: &Config) -> (r: Places)
    ensures
        r@ == places_for(config@),
{
    let root = config.root.as_str();
    let measure = config.measure_directories;
    let mut endings: Vec<String> = Vec::new();
    add_text(&mut endings, ".pacnew".to_owned());
    add_text(&mut endings, ".pacsave".to_owned());
    add_text(&mut endings, ".pacorig".to_owned());
    assert(text::texts(endings@) =~= seq![".pacnew"@, ".pacsave"@, ".pacorig"@]);
    let mut found = Places {
        leftovers: join(root, "etc"),
        endings,
        modules: join(root, "usr/lib/modules"),
        coredumps: None,
        journal: None,
        aur_helpers: Vec::new(),
        developer: Vec::new(),
        user_cache: None,
        trash: None,
    };
    if measure {
        found.coredumps = Some(join(root, "var/lib/systemd/coredump"));
        found.journal = Some(join(root, "var/log/journal"));
        if let Some(home) = &config.home {
            found.aur_helpers = helper_paths(home.as_str());
            found.developer = developer_paths(home.as_str());
            found.user_cache = Some(join(home.as_str(), ".cache"));
            found.trash = Some(join(home.as_str(), ".local/share/Trash"));
        }
    }
    assert(found@ =~= places_for(config@));
    found
}

/// A quick scan measures no directory, and a scan of another root none of the
/// user's.
pub proof fn quick_scans_measure_nothing(config: scan::ConfigView)
    ensures
        !config.measure_directories ==> {
            let found = places_for(config);
            &&& found.coredumps is None
            &&& found.journal is None
            &&& found.aur_helpers.len() == 0
            &&& found.developer.len() == 0
            &&& found.user_cache is None
            &&& found.trash is None
        },
        config.home is None ==> {
            let found = places_for(config);
            &&& found.aur_helpers.len() == 0
            &&& found.developer.len() == 0
            &&& found.user_cache is None
            &&& found.trash is None
        },
{
}

/// Everything that was found, group by group.
pub open spec fn all_target_views(
    entries: Seq<model::EntryView>,
    config: scan::ConfigView,
    m: MeasurementsView,
) -> Seq<janitor::TargetView> {
    cache_target_views(entries, config, m) + handoff_target_views(entries) + aur_target_views(
        config,
        m,
    ) + system_target_views(config, m) + home_target_views(config, m) + kernel_target_views(
        model::packages_of(entries),
        config,
        m,
    ) + flatpak_target_views(m)
}

/// Whether a target is worth showing: there is something to it, or its size is
/// unknown.
pub open spec fn worth_showing() -> spec_fn(janitor::TargetView) -> bool {
    |target: janitor::TargetView| target.items > 0 || target.bytes is None
}

/// The order of targets: the largest first, and by title where they are
/// equally large.
pub open spec fn target_order(targets: Seq<janitor::TargetView>) -> spec_fn(int, int) -> bool {
    |a: int, b: int|
        targets[a].known_bytes() > targets[b].known_bytes() || (targets[a].known_bytes()
            == targets[b].known_bytes() && text::text_le(targets[a].title, targets[b].title))
}

/// The targets worth showing, in order.
pub open spec fn shown_targets(targets: Seq<janitor::TargetView>) -> Seq<janitor::TargetView> {
    let kept = targets.filter(worth_showing());
    sort::taken_by(kept, sort::stable_order(target_order(kept), kept.len()))
}

/// The targets worth showing.
fn worth_keeping(targets: Vec<Target>) -> (r: Vec<Target>)
    ensures
        janitor::target_views(r@) == janitor::target_views(targets@).filter(worth_showing()),
{
    let ghost all = janitor::target_views(targets@);
    let ghost keep = worth_showing();
    let mut kept: Vec<Target> = Vec::new();
    let mut i: usize = 0;
    proof {
        reveal(Seq::filter);
        assert(janitor::target_views(kept@) =~= all.take(0).filter(keep));
    }
    while i < targets.len()
        invariant
            i <= targets.len(),
            all == janitor::target_views(targets@),
            keep == worth_showing(),
            janitor::target_views(kept@) == all.take(i as int).filter(keep),
        decreases targets.len() - i,
    {
        proof {
            assert(all.take(i + 1) =~= all.take(i as int).push(all[i as int]));
            split::lemma_filter_push(all.take(i as int), all[i as int], keep);
        }
        if targets[i].items > 0 || targets[i].bytes.is_none() {
            add_target(&mut kept, targets[i].clone());
        }
        i += 1;
    }
    assert(all.take(all.len() as int) =~= all);
    kept
}

/// The targets worth showing, the largest first.
pub fn ranked(targets: Vec<Target>) -> (r: Vec<Target>)
    ensures
        janitor::target_views(r@) == shown_targets(janitor::target_views(targets@)),
{
    let kept = worth_keeping(targets);
    let ghost all = janitor::target_views(kept@);
    let n: usize = kept.len();
    let ghost le = target_order(all);
    proof {
        text::text_order_is_total();
    }
    let at_or_before = |a: usize, b: usize| -> (r: bool)
        requires
            a < kept.len(),
            b < kept.len(),
        ensures
            r == (kept@[a as int]@.known_bytes() > kept@[b as int]@.known_bytes() || (
            kept@[a as int]@.known_bytes() == kept@[b as int]@.known_bytes() && text::text_le(
                kept@[a as int]@.title,
                kept@[b as int]@.title,
            ))),
        {
            kept[a].known_bytes() > kept[b].known_bytes() || (kept[a].known_bytes()
                == kept[b].known_bytes() && at_most(kept[a].title.as_str(), kept[b].title.as_str()))
        };
    let places = sorted_positions(n, at_or_before, Ghost(le));
    let mut out: Vec<Target> = Vec::new();
    let mut k: usize = 0;
    while k < n
        invariant
            k <= n,
            n == kept.len(),
            all == janitor::target_views(kept@),
            sort::is_listing(places@, n as nat),
            out.len() == k,
            forall|j: int| 0 <= j < k ==> #[trigger] out@[j]@ == all[places@[j] as int],
        decreases n - k,
    {
        out.push(kept[places[k]].clone());
        k += 1;
    }
    assert(janitor::target_views(out@) =~= sort::taken_by(all, places@));
    out
}

/// Build the list of non-package cleanup targets.
pub fn collect_targets(
    entries: &[Entry],
    packages: &[Package],
    config: &Config,
    m: &Measurements,
    warnings: &mut Vec<String>,
) -> (r: Vec<Target>)
    requires
        model::package_views(packages@) == model::packages_of(model::entry_views(entries@)),
    ensures
        janitor::target_views(r@) == shown_targets(
            all_target_views(model::entry_views(entries@), config@, m@),
        ),
        text::texts(final(warnings)@) == text::texts(old(warnings)@) + ownerless(m@.modules),
{
    let mut targets = cache_targets(entries, config, m);
    add_targets(&mut targets, package_handoff_targets(entries));
    add_targets(&mut targets, aur_helper_targets(config, m));
    add_targets(&mut targets, system_targets(config, m));
    add_targets(&mut targets, home_targets(config, m));
    add_targets(&mut targets, kernel_module_targets(packages, config, m, warnings));
    add_targets(&mut targets, flatpak_target(m));
    ranked(targets)
}

// ---------------------------------------------------------------------------
// Laws
// ---------------------------------------------------------------------------

/// What is shown is worth showing, and nothing that is worth showing is left
/// out.
pub proof fn shown_targets_are_those_worth_showing(
    targets: Seq<janitor::TargetView>,
    target: janitor::TargetView,
)
    requires
        targets.len() <= usize::MAX,
    ensures
        shown_targets(targets).contains(target) <==> targets.contains(target) && worth_showing()(
            target,
        ),
{
    let keep = worth_showing();
    let kept = targets.filter(keep);
    let p = sort::stable_order(target_order(kept), kept.len());
    lemma_ranking(kept);
    split::lemma_filter_len(targets, keep);
    split::lemma_filter_contains(targets, keep, target);
    if shown_targets(targets).contains(target) {
        let k = choose|k: int| 0 <= k < p.len() && shown_targets(targets)[k] == target;
        assert(kept[p[k] as int] == target);
    }
    if kept.contains(target) {
        let i = choose|i: int| 0 <= i < kept.len() && kept[i] == target;
        sort::lemma_listing_covers(p, kept.len(), i as usize);
        let k = choose|k: int| 0 <= k < p.len() && p[k] == i as usize;
        assert(shown_targets(targets)[k] == target);
    }
}

/// The largest target comes first.
pub proof fn targets_are_ranked_by_size(targets: Seq<janitor::TargetView>, i: int, j: int)
    requires
        targets.len() <= usize::MAX,
        0 <= i < j < shown_targets(targets).len(),
    ensures
        shown_targets(targets)[i].known_bytes() >= shown_targets(targets)[j].known_bytes(),
{
    let kept = targets.filter(worth_showing());
    let p = sort::stable_order(target_order(kept), kept.len());
    split::lemma_filter_len(targets, worth_showing());
    lemma_ranking(kept);
    assert(target_order(kept)(p[i] as int, p[j] as int));
}

proof fn lemma_ranking(kept: Seq<janitor::TargetView>)
    requires
        kept.len() <= usize::MAX,
    ensures
        sort::is_listing(sort::stable_order(target_order(kept), kept.len()), kept.len()),
        sort::is_ascending(
            sort::stable_order(target_order(kept), kept.len()),
            target_order(kept),
        ),
{
    text::text_order_is_total();
    sort::stable_order_exists(target_order(kept), kept.len());
}

/// A directory of kernel modules is offered for deletion only where it names
/// an owner that is not installed.
pub proof fn only_ownerless_modules_are_offered(
    trees: Seq<ModuleTreeView>,
    names: Seq<Seq<char>>,
    i: int,
)
    requires
        0 <= i < stale_trees(trees, names).len(),
    ensures
        trees.contains(stale_trees(trees, names)[i]),
        is_stale(stale_trees(trees, names)[i], names),
    decreases trees.len(),
{
    let before = stale_trees(trees.drop_last(), names);
    if i < before.len() {
        only_ownerless_modules_are_offered(trees.drop_last(), names, i);
        let tree = before[i];
        let k = choose|k: int| 0 <= k < trees.drop_last().len() && trees.drop_last()[k] == tree;
        assert(trees[k] == tree);
    } else {
        assert(trees[trees.len() - 1] == trees.last());
    }
}

} // verus!
