//! The dependency graph.
use std::collections::BTreeSet;

use pacpurge::graph::Graph;
use pacpurge::model::{InstallReason, Package};

fn package(name: &str, size: u64, reason: InstallReason, depends: &[&str]) -> Package {
    Package {
        name: name.to_owned(),
        version: "1-1".to_owned(),
        size,
        reason,
        depends: depends.iter().map(|spec| (*spec).to_owned()).collect(),
        ..Package::default()
    }
}

/// `app` is explicit and pulls in `lib`, which pulls in `deep`.
/// `other` is explicit and shares `lib`.
fn fixture() -> Vec<Package> {
    vec![
        package("app", 100, InstallReason::Explicit, &["lib"]),
        package("lib", 200, InstallReason::Dependency, &["deep>=2"]),
        package("deep", 400, InstallReason::Dependency, &[]),
        package("other", 50, InstallReason::Explicit, &["lib"]),
        package("lonely", 800, InstallReason::Dependency, &[]),
    ]
}

#[test]
fn reverse_edges_resolve_version_constraints() {
    let packages = fixture();
    let graph = Graph::build(&packages);
    let deep = graph.position("deep").unwrap();
    assert_eq!(graph.required_by(deep), vec!["lib".to_owned()]);
}

#[test]
fn orphans_have_no_requirers() {
    let packages = fixture();
    let graph = Graph::build(&packages);
    let lonely = graph.position("lonely").unwrap();
    assert!(graph.required_by(lonely).is_empty());
    let lib = graph.position("lib").unwrap();
    assert_eq!(
        graph.required_by(lib),
        vec!["app".to_owned(), "other".to_owned()]
    );
}

#[test]
fn a_shared_dependency_survives_a_partial_removal() {
    let packages = fixture();
    let graph = Graph::build(&packages);
    let mut seed = BTreeSet::new();
    seed.insert(graph.position("app").unwrap());

    // `other` still needs `lib`, so only `app` goes.
    assert_eq!(graph.reclaimable(&seed), 100);
    assert!(graph
        .dragged_along(graph.position("app").unwrap())
        .is_empty());
}

#[test]
fn removing_the_last_consumer_cascades_transitively() {
    let packages = fixture();
    let graph = Graph::build(&packages);
    let mut seed = BTreeSet::new();
    seed.insert(graph.position("app").unwrap());
    seed.insert(graph.position("other").unwrap());

    // app + other + lib + deep, because nothing else keeps lib alive and
    // dropping lib in turn frees deep.
    assert_eq!(graph.reclaimable(&seed), 100 + 50 + 200 + 400);
}

#[test]
fn explicit_packages_are_never_swept_up() {
    let packages = vec![
        package("app", 100, InstallReason::Explicit, &["kept"]),
        package("kept", 900, InstallReason::Explicit, &[]),
    ];
    let graph = Graph::build(&packages);
    let mut seed = BTreeSet::new();
    seed.insert(graph.position("app").unwrap());
    assert_eq!(graph.reclaimable(&seed), 100);
}

#[test]
fn provides_satisfies_a_dependency() {
    let mut packages = vec![
        package("client", 10, InstallReason::Explicit, &["mail-server"]),
        package("postfix", 20, InstallReason::Dependency, &[]),
    ];
    if let Some(postfix) = packages.get_mut(1) {
        postfix.provides = vec!["mail-server".to_owned()];
    }

    let graph = Graph::build(&packages);
    let postfix = graph.position("postfix").unwrap();
    assert_eq!(graph.required_by(postfix), vec!["client".to_owned()]);
}

#[test]
fn breakage_is_reported_for_a_still_needed_package() {
    let packages = fixture();
    let graph = Graph::build(&packages);
    let mut seed = BTreeSet::new();
    seed.insert(graph.position("lib").unwrap());
    assert_eq!(
        graph.broken_by(&seed),
        vec!["app".to_owned(), "other".to_owned()]
    );
}

#[test]
fn dependants_are_collected_transitively() {
    // start -> mid -> leaf, so removing `leaf` strands both of the others.
    let packages = vec![
        package("leaf", 1, InstallReason::Dependency, &[]),
        package("mid", 2, InstallReason::Dependency, &["leaf"]),
        package("start", 4, InstallReason::Explicit, &["mid"]),
        package("unrelated", 8, InstallReason::Explicit, &[]),
    ];
    let graph = Graph::build(&packages);

    let mut seed = BTreeSet::new();
    seed.insert(graph.position("leaf").unwrap());

    let dependants = graph.dependants(&seed);
    assert_eq!(
        graph.names_of(&dependants),
        vec!["mid".to_owned(), "start".to_owned()]
    );
    assert_eq!(graph.total_size(&dependants), 6);
}

#[test]
fn dependants_of_a_leaf_are_empty() {
    let packages = fixture();
    let graph = Graph::build(&packages);
    let mut seed = BTreeSet::new();
    seed.insert(graph.position("app").unwrap());
    assert!(graph.dependants(&seed).is_empty());
}

#[test]
fn dependants_terminate_on_a_cycle() {
    let packages = vec![
        package("a", 1, InstallReason::Dependency, &["b"]),
        package("b", 2, InstallReason::Dependency, &["a"]),
    ];
    let graph = Graph::build(&packages);
    let mut seed = BTreeSet::new();
    seed.insert(graph.position("a").unwrap());
    assert_eq!(
        graph.names_of(&graph.dependants(&seed)),
        vec!["b".to_owned()]
    );
}

#[test]
fn dependants_never_include_the_seed() {
    let packages = fixture();
    let graph = Graph::build(&packages);
    let mut seed = BTreeSet::new();
    seed.insert(graph.position("lib").unwrap());
    seed.insert(graph.position("app").unwrap());

    let dependants = graph.dependants(&seed);
    assert_eq!(graph.names_of(&dependants), vec!["other".to_owned()]);
}

#[test]
fn the_base_closure_is_protected() {
    let mut packages = vec![
        package("base", 1, InstallReason::Explicit, &["glibc"]),
        package("glibc", 2, InstallReason::Dependency, &[]),
        package("ripgrep", 3, InstallReason::Explicit, &[]),
    ];
    if let Some(base) = packages.get_mut(0) {
        base.groups = vec!["base".to_owned()];
    }

    let graph = Graph::build(&packages);
    assert!(graph.is_protected(graph.position("base").unwrap()));
    assert!(graph.is_protected(graph.position("glibc").unwrap()));
    assert!(!graph.is_protected(graph.position("ripgrep").unwrap()));
}

#[test]
fn a_dependency_cycle_terminates_without_being_swept_up() {
    // `a` and `b` require each other, so each keeps the other alive even
    // once nothing else needs either. pacman's own `-Rns` and `-Qdt` leave
    // cyclic orphans behind for the same reason, and reporting space as
    // reclaimable that pacman will not actually reclaim would be worse
    // than under-reporting it.
    let packages = vec![
        package("a", 1, InstallReason::Dependency, &["b"]),
        package("b", 2, InstallReason::Dependency, &["a"]),
        package("start", 4, InstallReason::Explicit, &["a"]),
    ];
    let graph = Graph::build(&packages);
    let mut seed = BTreeSet::new();
    seed.insert(graph.position("start").unwrap());
    assert_eq!(graph.reclaimable(&seed), 4);
}

#[test]
fn removing_more_never_frees_less() {
    let packages = fixture();
    let graph = Graph::build(&packages);
    let mut seed = BTreeSet::new();
    let mut last = 0;
    for position in 0..packages.len() {
        seed.insert(position);
        let freed = graph.reclaimable(&seed);
        assert!(freed >= last);
        last = freed;
        let removed = graph.cascade(&seed);
        assert!(seed.is_subset(&removed));
        assert_eq!(graph.cascade(&removed), removed);
    }
    assert_eq!(last, 1_550);
}

#[test]
fn optional_dependants_are_known_by_name() {
    let mut packages = fixture();
    packages[0].optdepends = vec!["lonely: company".to_owned(), "absent".to_owned()];
    let graph = Graph::build(&packages);
    assert_eq!(graph.optional_for(4), vec!["app".to_owned()]);
    assert_eq!(graph.position("absent"), None);
}

#[test]
fn positions_outside_the_set_answer_nothing() {
    let packages = fixture();
    let graph = Graph::build(&packages);
    assert!(graph.required_by(99).is_empty());
    assert!(graph.optional_for(99).is_empty());
    assert!(!graph.is_protected(99));
    let mut seed = BTreeSet::new();
    seed.insert(99);
    assert_eq!(graph.total_size(&seed), 0);
    assert!(graph.names_of(&seed).is_empty());
}

#[test]
fn the_kernel_and_the_package_manager_are_protected() {
    let packages = vec![
        package("pacman", 1, InstallReason::Explicit, &["curl"]),
        package("curl", 2, InstallReason::Dependency, &[]),
        package("linux", 3, InstallReason::Explicit, &[]),
        package("sudo", 4, InstallReason::Explicit, &[]),
        package("vim", 5, InstallReason::Explicit, &[]),
    ];
    let graph = Graph::build(&packages);
    let guarded: Vec<bool> = (0..5).map(|i| graph.is_protected(i)).collect();
    assert_eq!(guarded, vec![true, true, true, true, false]);
}

#[test]
fn a_package_frees_at_least_itself() {
    let packages = fixture();
    let graph = Graph::build(&packages);
    for (position, package) in packages.iter().enumerate() {
        let mut seed = BTreeSet::new();
        seed.insert(position);
        assert!(graph.reclaimable(&seed) >= package.size);
    }
}
