//! The local package database.
use pacpurge::localdb::{dependency_name, name_from_dir, parse_desc, parse_files, sections};
use pacpurge::model::InstallReason;

const SAMPLE: &str = "%NAME%\nripgrep\n\n%VERSION%\n14.1.1-1\n\n%DESC%\nA search tool\n\n%URL%\nhttps://example.invalid\n\n%SIZE%\n5242880\n\n%INSTALLDATE%\n1700000000\n\n%BUILDDATE%\n1699000000\n\n%REASON%\n1\n\n%GROUPS%\nbase-devel\n\n%DEPENDS%\nglibc\ngcc-libs>=13\n\n%OPTDEPENDS%\nfd: faster walking\n\n%PROVIDES%\nrg=14\n";

#[test]
fn sections_group_values_under_keys() {
    let parsed = sections("%A%\none\ntwo\n\n%B%\nthree\n");
    assert_eq!(
        parsed,
        vec![
            ("A".to_owned(), vec!["one".to_owned(), "two".to_owned()]),
            ("B".to_owned(), vec!["three".to_owned()]),
        ]
    );
}

#[test]
fn desc_parses_every_field() {
    let package = parse_desc(SAMPLE, "/tmp/db").unwrap();
    assert_eq!(package.name, "ripgrep");
    assert_eq!(package.version, "14.1.1-1");
    assert_eq!(package.description, "A search tool");
    assert_eq!(package.url, "https://example.invalid");
    assert_eq!(package.size, 5_242_880);
    assert_eq!(package.install_date, Some(1_700_000_000));
    assert_eq!(package.build_date, Some(1_699_000_000));
    assert_eq!(package.reason, InstallReason::Dependency);
    assert_eq!(package.groups, vec!["base-devel".to_owned()]);
    assert_eq!(
        package.depends,
        vec!["glibc".to_owned(), "gcc-libs>=13".to_owned()]
    );
    assert_eq!(package.optdepends, vec!["fd: faster walking".to_owned()]);
    assert_eq!(package.provides, vec!["rg=14".to_owned()]);
    assert_eq!(package.db_dir, "/tmp/db");
}

#[test]
fn missing_reason_means_explicit() {
    let package = parse_desc("%NAME%\nfoo\n", "/tmp/db").unwrap();
    assert_eq!(package.reason, InstallReason::Explicit);
}

#[test]
fn entries_without_a_name_are_rejected() {
    assert!(parse_desc("%VERSION%\n1\n", "/tmp/db").is_none());
    assert!(parse_desc("", "/tmp/db").is_none());
}

#[test]
fn a_bad_size_does_not_lose_the_package() {
    let package = parse_desc("%NAME%\nfoo\n\n%SIZE%\nnonsense\n", "/tmp").unwrap();
    assert_eq!(package.size, 0);
    assert_eq!(package.name, "foo");
}

#[test]
fn files_drop_directories() {
    let files =
        parse_files("%FILES%\nusr/\nusr/bin/\nusr/bin/rg\nusr/share/man/man1/rg.1.gz\n");
    assert_eq!(
        files,
        vec![
            "usr/bin/rg".to_owned(),
            "usr/share/man/man1/rg.1.gz".to_owned()
        ]
    );
}

#[test]
fn dependency_names_drop_constraints() {
    assert_eq!(dependency_name("glibc"), "glibc");
    assert_eq!(dependency_name("gcc-libs>=13"), "gcc-libs");
    assert_eq!(dependency_name("libfoo.so=1-64"), "libfoo.so");
    assert_eq!(dependency_name("python<3.13"), "python");
    assert_eq!(dependency_name("fd: faster walking"), "fd");
}

#[test]
fn directory_names_yield_package_names() {
    assert_eq!(name_from_dir("ripgrep-14.1.1-1"), Some("ripgrep"));
    assert_eq!(name_from_dir("gcc-libs-13.2.1-3"), Some("gcc-libs"));
    assert_eq!(name_from_dir("nope"), None);
}

#[test]
fn an_entry_reads_back_as_it_was_written() {
    let text = "%NAME%\na-b\n\n%VERSION%\n3.1-2\n\n%SIZE%\n18446744073709551615\n\n\
                %INSTALLDATE%\n1700000000\n\n%REASON%\n1\n\n%DEPENDS%\nlibc\n";
    let package = parse_desc(text, "/tmp").unwrap();
    assert_eq!(package.name, "a-b");
    assert_eq!(package.version, "3.1-2");
    assert_eq!(package.size, u64::MAX);
    assert_eq!(package.install_date, Some(1_700_000_000));
    assert_eq!(package.reason, InstallReason::Dependency);
    assert_eq!(package.depends, vec!["libc".to_owned()]);
}

#[test]
fn odd_entries_do_not_break_the_parser() {
    assert!(sections("no heading\n\n").is_empty());
    assert_eq!(sections("%%\nx\n").len(), 1);
    let package = parse_desc("%NAME%\nfoo\n%REASON%\n7\n%INSTALLDATE%\nsoon\n", "/tmp").unwrap();
    assert_eq!(package.reason, InstallReason::Explicit);
    assert_eq!(package.install_date, None);
    assert!(parse_desc("%NAME%\n\n", "/tmp").is_none());
    assert!(parse_files("%BACKUP%\netc/x\n").is_empty());
}

#[test]
fn every_constraint_is_dropped() {
    for constraint in [">=", "<=", "=", ">", "<"] {
        let spec = format!("name{constraint}1.0-1");
        assert_eq!(dependency_name(&spec), "name");
    }
    assert_eq!(name_from_dir("a-b-1-2"), Some("a-b"));
    assert_eq!(name_from_dir("a-1"), None);
}
