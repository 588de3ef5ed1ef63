//! What the targets offer and how they go.
use vstd::prelude::*;

use crate::capability::Usage;
use crate::janitor;
use crate::janitor::{ArchiveView, CommandView, Kind, ReclaimView, Safety, TargetView};
use crate::model;
use crate::model::{EntryView, InstallReason, OriginView, UsageView};
use crate::number;
use crate::path;
use crate::scan;
use crate::scan::ConfigView;
use crate::sort;
use crate::split;
use crate::targets;
use crate::targets::{CachedItemView, MeasurementsView, ModuleTreeView};
use crate::text;

verus! {

/// The targets of all kinds.
pub open spec fn offered(
    entries: Seq<EntryView>,
    config: ConfigView,
    m: MeasurementsView,
    target: TargetView,
) -> bool {
    targets::all_target_views(entries, config, m).contains(target)
}

proof fn lemma_either<A>(a: Seq<A>, b: Seq<A>, x: A)
    ensures
        (a + b).contains(x) <==> a.contains(x) || b.contains(x),
{
    if a.contains(x) {
        let i = choose|i: int| 0 <= i < a.len() && a[i] == x;
        assert((a + b)[i] == x);
    }
    if b.contains(x) {
        let i = choose|i: int| 0 <= i < b.len() && b[i] == x;
        assert((a + b)[a.len() + i] == x);
    }
    if (a + b).contains(x) {
        let i = choose|i: int| 0 <= i < (a + b).len() && (a + b)[i] == x;
        if i < a.len() {
            assert(a[i] == x);
        } else {
            assert(b[i - a.len()] == x);
        }
    }
}

proof fn lemma_one<A>(a: A, x: A)
    ensures
        seq![a].contains(x) <==> a == x,
{
    assert(seq![a][0] == a);
}

/// A target is offered where one of the parts of the list holds it.
proof fn lemma_offered(
    entries: Seq<EntryView>,
    config: ConfigView,
    m: MeasurementsView,
    target: TargetView,
)
    ensures
        offered(entries, config, m, target) <==> {
            ||| targets::cache_target_views(entries, config, m).contains(target)
            ||| targets::handoff_target_views(entries).contains(target)
            ||| targets::aur_target_views(config, m).contains(target)
            ||| targets::system_target_views(config, m).contains(target)
            ||| targets::home_target_views(config, m).contains(target)
            ||| targets::kernel_target_views(model::packages_of(entries), config, m).contains(target)
            ||| targets::flatpak_target_views(m).contains(target)
        },
{
    let a = targets::cache_target_views(entries, config, m);
    let b = targets::handoff_target_views(entries);
    let c = targets::aur_target_views(config, m);
    let d = targets::system_target_views(config, m);
    let e = targets::home_target_views(config, m);
    let f = targets::kernel_target_views(model::packages_of(entries), config, m);
    let g = targets::flatpak_target_views(m);
    lemma_either(a, b, target);
    lemma_either(a + b, c, target);
    lemma_either(a + b + c, d, target);
    lemma_either(a + b + c + d, e, target);
    lemma_either(a + b + c + d + e, f, target);
    lemma_either(a + b + c + d + e + f, g, target);
}

proof fn lemma_system(config: ConfigView, m: MeasurementsView, target: TargetView)
    ensures
        targets::system_target_views(config, m).contains(target) <==> {
            ||| targets::leftover_target_views(config, m).contains(target)
            ||| config.measure_directories && targets::coredump_target_views(config, m).contains(
                target,
            )
            ||| config.measure_directories && targets::journal_target_views(config, m).contains(
                target,
            )
        },
{
    let a = targets::leftover_target_views(config, m);
    let b = targets::coredump_target_views(config, m);
    let c = targets::journal_target_views(config, m);
    lemma_either(a, b, target);
    lemma_either(a + b, c, target);
}

proof fn lemma_home(config: ConfigView, m: MeasurementsView, home: Seq<char>, target: TargetView)
    requires
        config.home == Some(home),
        config.measure_directories,
    ensures
        targets::home_target_views(config, m).contains(target) <==> {
            ||| targets::developer_target_views(home, m).contains(target)
            ||| targets::user_cache_target_views(home, m).contains(target)
            ||| targets::trash_target_views(home, m).contains(target)
        },
{
    let a = targets::developer_target_views(home, m);
    let b = targets::user_cache_target_views(home, m);
    let c = targets::trash_target_views(home, m);
    lemma_either(a, b, target);
    lemma_either(a + b, c, target);
}

proof fn lemma_helpers(home: Seq<char>, usages: Seq<Option<Usage>>, target: TargetView)
    ensures
        targets::helper_target_views(home, usages).contains(target) <==> exists|i: int|
            #![trigger usages[i]]
            0 <= i < usages.len() && (usages[i] matches Some(usage) && usage.bytes > 0 && target
                == targets::helper_target(home, targets::helper_name(i), usage)),
    decreases usages.len(),
{
    if usages.len() > 0 {
        let front = usages.drop_last();
        lemma_helpers(home, front, target);
        assert(forall|i: int| 0 <= i < front.len() ==> #[trigger] front[i] == usages[i]);
        assert(forall|i: int| 0 <= i < front.len() ==> front[i] == #[trigger] usages[i]);
        assert(usages[usages.len() - 1] == usages.last());
        let before = targets::helper_target_views(home, front);
        if let Some(usage) = usages.last() {
            let one = targets::helper_target(home, targets::helper_name(usages.len() - 1), usage);
            lemma_either(before, seq![one], target);
            lemma_one(one, target);
            assert(before.push(one) =~= before + seq![one]);
        }
    }
}

/// The programs that build packages of others.
pub open spec fn is_helper(name: Seq<char>) -> bool {
    ||| name == "yay"@
    ||| name == "paru"@
    ||| name == "pikaur"@
    ||| name == "trizen"@
    ||| name == "aurutils"@
    ||| name == "makepkg"@
}

/// How careful one has to be goes by what is offered.
pub proof fn safety_goes_by_kind(
    entries: Seq<EntryView>,
    config: ConfigView,
    m: MeasurementsView,
    target: TargetView,
)
    requires
        offered(entries, config, m, target),
    ensures
        match target.kind {
            Kind::PacmanCacheSuperseded
            | Kind::PacmanCacheUninstalled
            | Kind::AurHelperCache
            | Kind::Orphans
            | Kind::DebugPackages
            | Kind::Coredumps
            | Kind::DeveloperCache
            | Kind::FlatpakUnused => target.safety == Safety::Safe,
            Kind::UnusedForeign | Kind::Journal | Kind::UserCache | Kind::Trash => target.safety == Safety::Review,
            Kind::ConfigLeftovers | Kind::StaleKernelModules => target.safety == Safety::Careful,
        },
{
    lemma_kinds(entries, config, m, target);
    assert(seq![target][0] == target);
    if target.kind == Kind::DeveloperCache {
        assert(targets::developer_target_views(config.home.unwrap(), m)[0] == target);
    } else if target.kind == Kind::FlatpakUnused {
        assert(targets::flatpak_target_views(m)[0] == target);
    } else if target.kind == Kind::Coredumps {
        assert(targets::coredump_target_views(config, m)[0] == target);
    } else if target.kind == Kind::Journal {
        assert(targets::journal_target_views(config, m)[0] == target);
    } else if target.kind == Kind::ConfigLeftovers {
        assert(targets::leftover_target_views(config, m)[0] == target);
    } else if target.kind == Kind::UserCache {
        assert(targets::user_cache_target_views(config.home.unwrap(), m)[0] == target);
    } else if target.kind == Kind::Trash {
        assert(targets::trash_target_views(config.home.unwrap(), m)[0] == target);
    } else if target.kind == Kind::StaleKernelModules {
        assert(targets::kernel_target_views(model::packages_of(entries), config, m)[0] == target);
    }
}

/// Which part of the list the targets of each kind come from.
proof fn lemma_kinds(
    entries: Seq<EntryView>,
    config: ConfigView,
    m: MeasurementsView,
    target: TargetView,
)
    requires
        offered(entries, config, m, target),
    ensures
        match target.kind {
            Kind::PacmanCacheUninstalled => targets::archives_among(m.cached).len() > 0 && target
                == targets::uninstalled_target(
                janitor::cache_plan_of(
                    targets::archives_among(m.cached),
                    targets::installed_versions(entries),
                    1,
                ),
                split::join(config.cache_dirs, ", "@),
                m.has_paccache,
            ),
            Kind::PacmanCacheSuperseded => targets::archives_among(m.cached).len() > 0 && target
                == targets::superseded_target(
                janitor::cache_plan_of(
                    targets::archives_among(m.cached),
                    targets::installed_versions(entries),
                    1,
                ),
                split::join(config.cache_dirs, ", "@),
                m.has_paccache,
            ),
            Kind::Orphans => target == targets::handoff_target_views(entries)[0],
            Kind::UnusedForeign => target == targets::handoff_target_views(entries)[1],
            Kind::DebugPackages => target == targets::handoff_target_views(entries)[2],
            Kind::AurHelperCache => config.measure_directories && config.home is Some && exists|i: int|
                #![trigger m.aur_helpers[i]]
                0 <= i < m.aur_helpers.len() && i < 6 && (m.aur_helpers[i] matches Some(usage)
                    && usage.bytes > 0 && target == targets::helper_target(
                    config.home.unwrap(),
                    targets::helper_name(i),
                    usage,
                )),
            Kind::ConfigLeftovers => m.leftovers.len() > 0 && targets::leftover_target_views(
                config,
                m,
            ) == seq![target],
            Kind::Coredumps => config.measure_directories && m.coredumps is Some
                && targets::coredump_target_views(config, m) == seq![target],
            Kind::Journal => config.measure_directories && m.journal is Some
                && targets::journal_target_views(config, m) == seq![target],
            Kind::DeveloperCache => config.measure_directories && config.home is Some
                && targets::developer_target_views(config.home.unwrap(), m) == seq![target],
            Kind::UserCache => config.measure_directories && config.home is Some && m.user_cache
                is Some && targets::user_cache_target_views(config.home.unwrap(), m) == seq![target],
            Kind::Trash => config.measure_directories && config.home is Some && m.trash is Some
                && targets::trash_target_views(config.home.unwrap(), m) == seq![target],
            Kind::StaleKernelModules => targets::kernel_target_views(
                model::packages_of(entries),
                config,
                m,
            ) == seq![target],
            Kind::FlatpakUnused => m.has_flatpak && targets::flatpak_target_views(m) == seq![
                target,
            ],
        },
{
    lemma_offered(entries, config, m, target);
    lemma_system(config, m, target);
    if targets::aur_target_views(config, m).contains(target) {
        let usages = scan::first_of(m.aur_helpers, targets::AUR_HELPERS as nat);
        lemma_helpers(config.home.unwrap(), usages, target);
        let i = choose|i: int|
            #![trigger usages[i]]
            0 <= i < usages.len() && (usages[i] matches Some(usage) && usage.bytes > 0 && target
                == targets::helper_target(config.home.unwrap(), targets::helper_name(i), usage));
        assert(m.aur_helpers[i] == usages[i]);
    }
    if targets::home_target_views(config, m).contains(target) {
        lemma_home(config, m, config.home.unwrap(), target);
    }
}

/// What was found is offered: nothing that there is to reclaim is passed over.
pub proof fn what_is_found_is_offered(
    entries: Seq<EntryView>,
    config: ConfigView,
    m: MeasurementsView,
)
    ensures
        targets::archives_among(m.cached).len() > 0 ==> offers_kind(
            entries,
            config,
            m,
            Kind::PacmanCacheUninstalled,
        ) && offers_kind(entries, config, m, Kind::PacmanCacheSuperseded),
        offers_kind(entries, config, m, Kind::Orphans),
        offers_kind(entries, config, m, Kind::UnusedForeign),
        offers_kind(entries, config, m, Kind::DebugPackages),
        m.leftovers.len() > 0 ==> offers_kind(entries, config, m, Kind::ConfigLeftovers),
        config.measure_directories && m.coredumps is Some ==> offers_kind(
            entries,
            config,
            m,
            Kind::Coredumps,
        ),
        config.measure_directories && m.journal is Some ==> offers_kind(
            entries,
            config,
            m,
            Kind::Journal,
        ),
        config.measure_directories && config.home is Some && m.user_cache is Some ==> offers_kind(
            entries,
            config,
            m,
            Kind::UserCache,
        ),
        config.measure_directories && config.home is Some && m.trash is Some ==> offers_kind(
            entries,
            config,
            m,
            Kind::Trash,
        ),
        m.has_flatpak ==> offers_kind(entries, config, m, Kind::FlatpakUnused),
{
    let cache = targets::cache_target_views(entries, config, m);
    if targets::archives_among(m.cached).len() > 0 {
        lemma_offered(entries, config, m, cache[0]);
        lemma_offered(entries, config, m, cache[1]);
        assert(offered(entries, config, m, cache[0]) && offered(entries, config, m, cache[1]));
    }
    let tables = targets::handoff_target_views(entries);
    lemma_offered(entries, config, m, tables[0]);
    lemma_offered(entries, config, m, tables[1]);
    lemma_offered(entries, config, m, tables[2]);
    assert(offered(entries, config, m, tables[0]) && offered(entries, config, m, tables[1])
        && offered(entries, config, m, tables[2]));
    if m.leftovers.len() > 0 {
        let found = targets::leftover_target_views(config, m);
        lemma_system(config, m, found[0]);
        lemma_offered(entries, config, m, found[0]);
        assert(offered(entries, config, m, found[0]));
    }
    if config.measure_directories && m.coredumps is Some {
        let found = targets::coredump_target_views(config, m);
        lemma_system(config, m, found[0]);
        lemma_offered(entries, config, m, found[0]);
        assert(offered(entries, config, m, found[0]));
    }
    if config.measure_directories && m.journal is Some {
        let found = targets::journal_target_views(config, m);
        lemma_system(config, m, found[0]);
        lemma_offered(entries, config, m, found[0]);
        assert(offered(entries, config, m, found[0]));
    }
    if config.measure_directories && config.home is Some {
        let home = config.home.unwrap();
        if m.user_cache is Some {
            let found = targets::user_cache_target_views(home, m);
            lemma_home(config, m, home, found[0]);
            lemma_offered(entries, config, m, found[0]);
            assert(offered(entries, config, m, found[0]));
        }
        if m.trash is Some {
            let found = targets::trash_target_views(home, m);
            lemma_home(config, m, home, found[0]);
            lemma_offered(entries, config, m, found[0]);
            assert(offered(entries, config, m, found[0]));
        }
    }
    if m.has_flatpak {
        let found = targets::flatpak_target_views(m);
        lemma_offered(entries, config, m, found[0]);
        assert(offered(entries, config, m, found[0]));
    }
}

/// Whether a target of a kind is offered.
pub open spec fn offers_kind(
    entries: Seq<EntryView>,
    config: ConfigView,
    m: MeasurementsView,
    kind: Kind,
) -> bool {
    exists|target: TargetView| #[trigger] offered(entries, config, m, target) && target.kind == kind
}

/// Each kind of target has its name for machines.
pub proof fn kinds_have_their_names(kind: Kind)
    ensures
        kind.slug_text() == (match kind {
            Kind::PacmanCacheSuperseded => "pacman-cache-superseded"@,
            Kind::PacmanCacheUninstalled => "pacman-cache-uninstalled"@,
            Kind::AurHelperCache => "aur-helper-cache"@,
            Kind::Orphans => "orphans"@,
            Kind::UnusedForeign => "unused-foreign"@,
            Kind::DebugPackages => "debug-packages"@,
            Kind::ConfigLeftovers => "config-leftovers"@,
            Kind::StaleKernelModules => "stale-kernel-modules"@,
            Kind::Coredumps => "coredumps"@,
            Kind::Journal => "journal"@,
            Kind::UserCache => "user-cache"@,
            Kind::DeveloperCache => "developer-cache"@,
            Kind::Trash => "trash"@,
            Kind::FlatpakUnused => "flatpak-unused"@,
        }),
{
}

/// The archives of the cache go through paccache, or file by file as root where
/// it is missing, and one version back stays.
pub proof fn the_cache_goes_through_paccache(
    entries: Seq<EntryView>,
    config: ConfigView,
    m: MeasurementsView,
    target: TargetView,
)
    requires
        offered(entries, config, m, target),
    ensures
        ({
            let cached = janitor::cache_plan_of(
                targets::archives_among(m.cached),
                targets::installed_versions(entries),
                1,
            );
            &&& target.kind == Kind::PacmanCacheUninstalled ==> {
                &&& target.bytes == Some(cached.uninstalled_bytes)
                &&& m.has_paccache ==> target.reclaim == (ReclaimView::Run {
                    command: CommandView {
                        program: "paccache"@,
                        args: seq!["-r"@, "-u"@, "-k0"@],
                        needs_root: true,
                    },
                })
                &&& !m.has_paccache ==> target.reclaim == (ReclaimView::Paths {
                    paths: cached.uninstalled,
                    needs_root: true,
                })
                &&& cached.uninstalled.len() <= usize::MAX ==> target.items
                    == cached.uninstalled.len()
            }
            &&& target.kind == Kind::PacmanCacheSuperseded ==> {
                &&& target.bytes == Some(cached.superseded_bytes)
                &&& m.has_paccache ==> target.reclaim == (ReclaimView::Run {
                    command: CommandView {
                        program: "paccache"@,
                        args: seq!["-r"@, "-k1"@],
                        needs_root: true,
                    },
                })
                &&& !m.has_paccache ==> target.reclaim == (ReclaimView::Paths {
                    paths: cached.superseded,
                    needs_root: true,
                })
                &&& cached.superseded.len() <= usize::MAX ==> target.items
                    == cached.superseded.len()
            }
        }),
{
    lemma_kinds(entries, config, m, target);
}

/// What the system has written goes through the program that knows it, as root.
pub proof fn system_files_go_through_their_program(
    entries: Seq<EntryView>,
    config: ConfigView,
    m: MeasurementsView,
    target: TargetView,
)
    requires
        offered(entries, config, m, target),
    ensures
        target.kind == Kind::Coredumps ==> target.reclaim == (ReclaimView::Run {
            command: CommandView {
                program: "journalctl"@,
                args: seq!["--vacuum-time=1s"@],
                needs_root: true,
            },
        }) && Some(target.location) == targets::places_for(config).coredumps && (
        m.coredumps matches Some(usage) && target.bytes == Some(usage.bytes) && target.items
            == usage.files),
        target.kind == Kind::Journal ==> target.reclaim == (ReclaimView::Run {
            command: CommandView {
                program: "journalctl"@,
                args: seq!["--vacuum-size=256M"@],
                needs_root: true,
            },
        }) && Some(target.location) == targets::places_for(config).journal && (
        m.journal matches Some(usage) && target.bytes == Some(usage.bytes) && target.items
            == usage.files),
        target.kind == Kind::ConfigLeftovers ==> target.location == targets::places_for(
            config,
        ).leftovers && (m.has_pacdiff ==> target.reclaim == (ReclaimView::Run {
            command: CommandView { program: "pacdiff"@, args: Seq::empty(), needs_root: true },
        })) && (!m.has_pacdiff ==> target.reclaim is Advice) && (m.leftovers.len() <= usize::MAX
            ==> target.items == m.leftovers.len()),
        target.kind == Kind::FlatpakUnused ==> target.bytes is None && target.reclaim == (
        ReclaimView::Run {
            command: CommandView {
                program: "flatpak"@,
                args: seq!["uninstall"@, "--unused"@],
                needs_root: false,
            },
        }),
{
    lemma_kinds(entries, config, m, target);
    if target.kind == Kind::Coredumps {
        assert(seq![target][0] == targets::coredump_target_views(config, m)[0]);
    }
    if target.kind == Kind::Journal {
        assert(seq![target][0] == targets::journal_target_views(config, m)[0]);
    }
    if target.kind == Kind::ConfigLeftovers {
        assert(seq![target][0] == targets::leftover_target_views(config, m)[0]);
    }
    if target.kind == Kind::FlatpakUnused {
        assert(seq![target][0] == targets::flatpak_target_views(m)[0]);
    }
}

/// What lies in the home needs no root: build and toolchain caches and the trash
/// are deleted where they lie, and the cache of applications is left to the
/// user.
pub proof fn the_home_needs_no_root(
    entries: Seq<EntryView>,
    config: ConfigView,
    m: MeasurementsView,
    target: TargetView,
)
    requires
        offered(entries, config, m, target),
    ensures
        target.kind == Kind::AurHelperCache || target.kind == Kind::DeveloperCache || target.kind
            == Kind::UserCache || target.kind == Kind::Trash ==> config.home is Some,
        target.kind == Kind::AurHelperCache ==> target.reclaim == (ReclaimView::Paths {
            paths: seq![target.location],
            needs_root: false,
        }) && (exists|helper: Seq<char>| #[trigger]
            is_helper(helper) && target.location == path::join_path(
                config.home.unwrap(),
                ".cache/"@ + helper,
            ) && target.title == helper + " build cache"@) && (target.bytes matches Some(bytes)
            && bytes > 0),
        target.kind == Kind::DeveloperCache ==> (target.reclaim matches ReclaimView::Paths {
            needs_root,
            ..
        } && !needs_root),
        target.kind == Kind::UserCache ==> target.reclaim is Advice && target.location
            == path::join_path(config.home.unwrap(), ".cache"@),
        target.kind == Kind::Trash ==> target.location == path::join_path(
            config.home.unwrap(),
            ".local/share/Trash"@,
        ) && target.reclaim == (ReclaimView::Paths {
            paths: seq![
                path::join_path(target.location, "files"@),
                path::join_path(target.location, "info"@),
            ],
            needs_root: false,
        }),
{
    lemma_kinds(entries, config, m, target);
    if target.kind == Kind::AurHelperCache {
        let i = choose|i: int|
            #![trigger m.aur_helpers[i]]
            0 <= i < m.aur_helpers.len() && i < 6 && (m.aur_helpers[i] matches Some(usage)
                && usage.bytes > 0 && target == targets::helper_target(
                config.home.unwrap(),
                targets::helper_name(i),
                usage,
            ));
        assert(is_helper(targets::helper_name(i)));
    }
    if target.kind == Kind::DeveloperCache {
        assert(seq![target][0] == targets::developer_target_views(config.home.unwrap(), m)[0]);
    }
    if target.kind == Kind::UserCache {
        assert(seq![target][0] == targets::user_cache_target_views(config.home.unwrap(), m)[0]);
    }
    if target.kind == Kind::Trash {
        assert(seq![target][0] == targets::trash_target_views(config.home.unwrap(), m)[0]);
    }
}

/// Each toolchain cache that holds something adds its bytes, its files and its
/// directory, and one that holds nothing adds nothing.
pub proof fn toolchain_caches_add_up(
    home: Seq<char>,
    usages: Seq<Option<Usage>>,
    usage: Option<Usage>,
)
    requires
        usages.len() < 8,
    ensures
        ({
            let was = targets::developer_sum(home, usages);
            let is = targets::developer_sum(home, usages.push(usage));
            let n = usages.len();
            let relative = if n == 0 {
                ".cargo/registry"@
            } else if n == 1 {
                ".npm/_cacache"@
            } else if n == 2 {
                ".cache/go-build"@
            } else if n == 3 {
                "go/pkg/mod"@
            } else if n == 4 {
                ".gradle/caches"@
            } else if n == 5 {
                ".m2/repository"@
            } else if n == 6 {
                ".cache/pip"@
            } else {
                ".cache/uv"@
            };
            match usage {
                Some(found) => if found.bytes > 0 {
                    &&& is.bytes == was.bytes + found.bytes
                    &&& is.files == was.files + found.files
                    &&& is.paths == was.paths.push(path::join_path(home, relative))
                    &&& is.described.len() == was.described.len() + 1
                } else {
                    is == was
                },
                None => is == was,
            }
        }),
        targets::developer_sum(home, Seq::empty()).bytes == 0,
        targets::developer_sum(home, Seq::empty()).files == 0,
        targets::developer_sum(home, Seq::empty()).paths.len() == 0,
{
    assert(usages.push(usage).drop_last() =~= usages);
}

/// Directories are looked at where the targets that come of them say they are.
pub proof fn places_are_below_the_root_and_the_home(config: ConfigView)
    requires
        config.measure_directories,
    ensures
        ({
            let places = targets::places_for(config);
            &&& places.leftovers == path::join_path(config.root, "etc"@)
            &&& places.endings == seq![".pacnew"@, ".pacsave"@, ".pacorig"@]
            &&& places.modules == path::join_path(config.root, "usr/lib/modules"@)
            &&& places.coredumps == Some(
                path::join_path(config.root, "var/lib/systemd/coredump"@),
            )
            &&& places.journal == Some(path::join_path(config.root, "var/log/journal"@))
            &&& config.home matches Some(home) ==> {
                &&& places.user_cache == Some(path::join_path(home, ".cache"@))
                &&& places.trash == Some(path::join_path(home, ".local/share/Trash"@))
                &&& places.aur_helpers == seq![
                    path::join_path(home, ".cache/"@ + "yay"@),
                    path::join_path(home, ".cache/"@ + "paru"@),
                    path::join_path(home, ".cache/"@ + "pikaur"@),
                    path::join_path(home, ".cache/"@ + "trizen"@),
                    path::join_path(home, ".cache/"@ + "aurutils"@),
                    path::join_path(home, ".cache/"@ + "makepkg"@),
                ]
                &&& places.developer == seq![
                    path::join_path(home, ".cargo/registry"@),
                    path::join_path(home, ".npm/_cacache"@),
                    path::join_path(home, ".cache/go-build"@),
                    path::join_path(home, "go/pkg/mod"@),
                    path::join_path(home, ".gradle/caches"@),
                    path::join_path(home, ".m2/repository"@),
                    path::join_path(home, ".cache/pip"@),
                    path::join_path(home, ".cache/uv"@),
                ]
            }
            &&& config.home is None ==> places.user_cache is None && places.trash is None
                && places.aur_helpers.len() == 0 && places.developer.len() == 0
        }),
{
}

/// Joining puts one slash between two paths, and an absolute path replaces what
/// it is joined to.
pub proof fn paths_are_joined_with_one_slash(base: Seq<char>, rest: Seq<char>)
    requires
        rest.len() > 0,
    ensures
        rest[0] == '/' ==> path::join_path(base, rest) == rest,
        rest[0] != '/' && base.len() > 0 && base.last() == '/' ==> path::join_path(base, rest)
            == base + rest,
        rest[0] != '/' && base.len() > 0 && base.last() != '/' ==> path::join_path(base, rest)
            == base + seq!['/'] + rest,
        rest[0] != '/' && base.len() == 0 ==> path::join_path(base, rest) == rest,
{
    if base.len() == 0 {
        assert(base + rest =~= rest);
    }
}

/// What a module tree that nothing owns looks like: a directory that names a
/// package that is not installed.
pub proof fn modules_of_missing_kernels_are_stale(
    trees: Seq<ModuleTreeView>,
    names: Seq<Seq<char>>,
    tree: ModuleTreeView,
)
    ensures
        targets::stale_trees(trees, names).contains(tree) <==> trees.contains(tree) && tree.is_dir && (
        tree.pkgbase matches Some(pkgbase) && !names.contains(text::trim(pkgbase))),
        trees.contains(tree) && tree.is_dir && tree.pkgbase is None ==> targets::ownerless(
            trees,
        ).contains(
            tree.path
                + " has no pkgbase file; check by hand whether it belongs to an installed kernel"@,
        ),
        (forall|i: int| 0 <= i < trees.len() ==> (#[trigger] trees[i]).pkgbase is Some)
            ==> targets::ownerless(trees).len() == 0,
    decreases trees.len(),
{
    if trees.len() > 0 {
        let front = trees.drop_last();
        let last = trees.last();
        modules_of_missing_kernels_are_stale(front, names, tree);
        assert(trees =~= front + seq![last]);
        lemma_either(front, seq![last], tree);
        lemma_one(last, tree);
        let before = targets::stale_trees(front, names);
        lemma_either(before, seq![last], tree);
        assert(before.push(last) =~= before + seq![last]);
        let said = tree.path
            + " has no pkgbase file; check by hand whether it belongs to an installed kernel"@;
        let added = last.path
            + " has no pkgbase file; check by hand whether it belongs to an installed kernel"@;
        let earlier = targets::ownerless(front);
        lemma_either(earlier, seq![added], said);
        lemma_one(added, said);
        assert(earlier.push(added) =~= earlier + seq![added]);
        if forall|i: int| 0 <= i < trees.len() ==> (#[trigger] trees[i]).pkgbase is Some {
            assert(trees[trees.len() - 1].pkgbase is Some);
            assert forall|i: int| 0 <= i < front.len() implies (#[trigger] front[i]).pkgbase
                is Some by {
                assert(front[i] == trees[i]);
            }
        }
    }
}

/// Stale module trees are deleted as root, each of them and no others, and
/// their sizes add up.
pub proof fn stale_modules_go_as_root(
    entries: Seq<EntryView>,
    config: ConfigView,
    m: MeasurementsView,
    target: TargetView,
    i: int,
)
    requires
        offered(entries, config, m, target),
        target.kind == Kind::StaleKernelModules,
    ensures
        target.reclaim matches ReclaimView::Paths { paths, needs_root } && needs_root
            && paths.len() > 0 && (0 <= i < paths.len() ==> exists|tree: ModuleTreeView| #[trigger]
            m.modules.contains(tree) && tree.path == paths[i] && tree.is_dir && tree.pkgbase is Some
                && !scan::names_of(model::packages_of(entries)).contains(
                text::trim(tree.pkgbase.unwrap()),
            )),
        target.location == targets::places_for(config).modules,
        !config.measure_directories ==> target.bytes == Some(0u64),
{
    lemma_kinds(entries, config, m, target);
    let names = scan::names_of(model::packages_of(entries));
    let stale = targets::stale_trees(m.modules, names);
    assert(seq![target][0] == targets::kernel_target_views(model::packages_of(entries), config, m)[0]);
    if 0 <= i < stale.len() {
        assert(stale.contains(stale[i]));
        modules_of_missing_kernels_are_stale(m.modules, names, stale[i]);
        assert(m.modules.contains(stale[i]));
    }
}

/// The sizes of trees and files add up one by one.
pub proof fn sizes_on_disk_add_up(
    trees: Seq<ModuleTreeView>,
    tree: ModuleTreeView,
    found: Seq<(Seq<char>, u64)>,
    file: (Seq<char>, u64),
    ts: Seq<TargetView>,
    target: TargetView,
)
    ensures
        targets::tree_bytes(Seq::empty()) == 0,
        targets::tree_bytes(trees.push(tree)) == targets::tree_bytes(trees) + tree.bytes,
        targets::found_bytes(Seq::empty()) == 0,
        targets::found_bytes(found.push(file)) == targets::found_bytes(found) + file.1,
        janitor::known_sum(Seq::empty()) == 0,
        janitor::known_sum(ts.push(target)) == janitor::known_sum(ts) + (match target.bytes {
            Some(bytes) => bytes as int,
            None => 0,
        }),
{
    assert(trees.push(tree).drop_last() =~= trees);
    assert(found.push(file).drop_last() =~= found);
    assert(ts.push(target).drop_last() =~= ts);
}

/// Whether an entry counts for the targets that point to the table.
pub open spec fn counts_for(entry: EntryView, kind: Kind) -> bool {
    match kind {
        Kind::Orphans => entry.package.reason == InstallReason::Dependency
            && entry.facts.required_by.len() == 0 && !entry.facts.protected,
        Kind::UnusedForeign => entry.facts.origin == OriginView::Foreign
            && entry.facts.usage is NeverSinceInstall,
        _ => entry.package.name.len() >= 6 && entry.package.name.skip(
            entry.package.name.len() - 6,
        ) == "-debug"@,
    }
}

/// The targets that point to the table count each package that fits, with its
/// size, and no other.
pub proof fn handoffs_count_what_fits(entries: Seq<EntryView>, entry: EntryView, k: int)
    requires
        0 <= k < 3,
        entries.len() < usize::MAX,
    ensures
        ({
            let was = targets::handoff_target_views(entries)[k];
            let is = targets::handoff_target_views(entries.push(entry))[k];
            let kind = if k == 0 {
                Kind::Orphans
            } else if k == 1 {
                Kind::UnusedForeign
            } else {
                Kind::DebugPackages
            };
            &&& is.kind == kind
            &&& is.reclaim is Handoff
            &&& counts_for(entry, kind) ==> is.items == was.items + 1 && (was.bytes matches Some(bytes)
                && is.bytes == Some(number::saturated((bytes + entry.package.size) as nat)))
            &&& !counts_for(entry, kind) ==> is == was
        }),
        targets::handoff_target_views(Seq::empty())[k].items == 0,
        targets::handoff_target_views(Seq::empty())[k].bytes == Some(0u64),
{
    reveal_strlit("-debug");
    let which = if k == 0 {
        targets::orphaned()
    } else if k == 1 {
        targets::unused_foreign()
    } else {
        targets::debug_symbols()
    };
    reveal(Seq::filter);
    let none = Seq::<EntryView>::empty();
    assert(none.filter(which) =~= none);
    split::lemma_filter_push(entries, entry, which);
    split::lemma_filter_len(entries, which);
    let found = entries.filter(which);
    assert(found.push(entry).drop_last() =~= found);
    let name = entry.package.name;
    assert(text::ends(name, "-debug"@) == (name.len() >= 6 && name.skip(name.len() - 6) == "-debug"@));
}

/// Targets are shown where there is something to reclaim or its size is not
/// known, by what they free, and by title where that is the same.
pub proof fn targets_are_shown_by_what_they_free(ts: Seq<TargetView>, target: TargetView)
    requires
        ts.len() <= usize::MAX,
    ensures
        targets::shown_targets(ts).contains(target) <==> ts.contains(target) && (target.items > 0
            || target.bytes is None),
        forall|i: int, j: int|
            0 <= i < j < targets::shown_targets(ts).len() ==> {
                let a = #[trigger] targets::shown_targets(ts)[i];
                let b = #[trigger] targets::shown_targets(ts)[j];
                &&& known(a) >= known(b)
                &&& known(a) == known(b) ==> text::text_le(a.title, b.title)
            },
{
    targets::shown_targets_are_those_worth_showing(ts, target);
    let kept = ts.filter(targets::worth_showing());
    let le = targets::target_order(kept);
    split::lemma_filter_len(ts, targets::worth_showing());
    text::text_order_is_total();
    assert(sort::is_preorder(le, kept.len()));
    sort::stable_order_exists(le, kept.len());
    let p = sort::stable_order(le, kept.len());
    let shown = targets::shown_targets(ts);
    assert forall|i: int, j: int| 0 <= i < j < shown.len() implies {
        let a = #[trigger] shown[i];
        let b = #[trigger] shown[j];
        &&& known(a) >= known(b)
        &&& known(a) == known(b) ==> text::text_le(a.title, b.title)
    } by {
        assert(le(p[i] as int, p[j] as int));
    }
}

/// What a target is known to free.
pub open spec fn known(target: TargetView) -> u64 {
    match target.bytes {
        Some(bytes) => bytes,
        None => 0,
    }
}

/// An archive of the cache is a file that is named like one and could be
/// measured.
pub proof fn archives_are_measured_files(items: Seq<CachedItemView>, archive: ArchiveView)
    ensures
        targets::archives_among(items).contains(archive) <==> exists|i: int|
            #![trigger items[i]]
            0 <= i < items.len() && !items[i].entry.is_dir && (items[i].stat matches Some(stat)
                && archive.bytes == stat.disk_size && archive.mtime == stat.mtime) && archive.path
                == items[i].entry.path && janitor::archive_fields(items[i].entry.name) == Some(
                (archive.name, archive.version),
            ),
    decreases items.len(),
{
    if items.len() > 0 {
        let front = items.drop_last();
        let last = items.last();
        archives_are_measured_files(front, archive);
        assert(forall|i: int| 0 <= i < front.len() ==> #[trigger] front[i] == items[i]);
        assert(forall|i: int| 0 <= i < front.len() ==> front[i] == #[trigger] items[i]);
        assert(items[items.len() - 1] == last);
        let before = targets::archives_among(front);
        if let Some(one) = targets::archive_in(last) {
            lemma_either(before, seq![one], archive);
            lemma_one(one, archive);
            assert(before.push(one) =~= before + seq![one]);
        }
    }
}

/// The installed version of a package is that of its entry.
pub proof fn versions_are_those_installed(entries: Seq<EntryView>, i: int, name: Seq<char>)
    ensures
        0 <= i < entries.len() && (forall|j: int|
            i < j < entries.len() ==> (#[trigger] entries[j]).package.name
                != entries[i].package.name) ==> targets::installed_versions(entries).contains_key(
            entries[i].package.name,
        ) && targets::installed_versions(entries)[entries[i].package.name]
            == entries[i].package.version,
        (forall|j: int| 0 <= j < entries.len() ==> (#[trigger] entries[j]).package.name != name)
            ==> !targets::installed_versions(entries).contains_key(name),
    decreases entries.len(),
{
    if entries.len() > 0 {
        let front = entries.drop_last();
        versions_are_those_installed(front, i, name);
        assert(forall|j: int| 0 <= j < front.len() ==> #[trigger] front[j] == entries[j]);
        assert(entries[entries.len() - 1] == entries.last());
        if 0 <= i < front.len() {
            assert(front[i] == entries[i]);
        }
    }
}

/// Archives are named after their package, and so are their signatures. A file
/// that is no archive names none.
pub proof fn signatures_belong_to_their_archive(file_name: Seq<char>)
    ensures
        !text::ends(file_name, ".sig"@) ==> janitor::archive_fields(file_name + ".sig"@)
            == janitor::archive_fields(file_name),
        !text::occurs(file_name, ".pkg.tar"@) ==> janitor::archive_fields(file_name) is None,
{
    let signed = file_name + ".sig"@;
    assert(signed.skip(signed.len() - ".sig"@.len()) =~= ".sig"@);
    assert(signed.take(signed.len() - ".sig"@.len()) =~= file_name);
    if text::ends(file_name, ".sig"@) && !text::occurs(file_name, ".pkg.tar"@) {
        let base = file_name.take(file_name.len() - ".sig"@.len());
        if text::occurs(base, ".pkg.tar"@) {
            let i = choose|i: int| #[trigger] text::occurs_at(base, ".pkg.tar"@, i);
            let n = ".pkg.tar"@.len();
            assert(file_name.subrange(i, i + n) =~= base.subrange(i, i + n));
            assert(text::occurs_at(file_name, ".pkg.tar"@, i));
        }
    }
}

} // verus!
