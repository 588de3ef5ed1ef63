//! Evidence of use.
use pacpurge::model::{AtimeSupport, UsageEvidence};
use pacpurge::usage::{atime_support, covers, evaluate, has_option, home_state_names, is_witness, witness_tier, witnesses, HomeActivity, Observation};

#[test]
fn binaries_and_libraries_are_witnesses() {
    assert!(is_witness("usr/bin/rg"));
    assert!(is_witness("usr/lib/libfoo.so.1"));
    assert!(is_witness("opt/vendor/tool/run"));
}

#[test]
fn documentation_is_not_a_witness() {
    assert!(!is_witness("usr/share/man/man1/rg.1.gz"));
    assert!(!is_witness("usr/share/doc/rg/README"));
    assert!(!is_witness("usr/share/locale/de/LC_MESSAGES/rg.mo"));
    assert!(!is_witness("usr/include/foo.h"));
    assert!(!is_witness("usr/lib/pkgconfig/foo.pc"));
}

#[test]
fn package_data_is_a_witness() {
    // The largest packages on a desktop ship nothing but data — fonts,
    // icon themes, a TeX distribution. Excluding all of usr/share left
    // exactly those packages with no verdict.
    assert!(is_witness("usr/share/fonts/noto/NotoSans-Regular.ttf"));
    assert!(is_witness("usr/share/icons/Adwaita/index.theme"));
    assert!(is_witness(
        "usr/share/texmf-dist/tex/latex/base/article.cls"
    ));
}

#[test]
fn tiers_run_from_executables_down_to_leftovers() {
    assert_eq!(witness_tier("usr/bin/rg"), Some(0));
    assert_eq!(witness_tier("usr/lib/libfoo.so.1"), Some(1));
    assert_eq!(witness_tier("usr/share/fonts/x.ttf"), Some(2));
    assert_eq!(witness_tier("etc/rg.conf"), Some(3));
    assert_eq!(witness_tier("usr/share/man/man1/rg.1"), None);
}

#[test]
fn only_the_strongest_tier_present_is_used() {
    // A stray read of a data file must not vouch for a binary that has
    // never run, so the tiers are not mixed.
    let files = vec![
        "usr/lib/libfoo.so".to_owned(),
        "usr/share/man/man1/x.1".to_owned(),
        "usr/share/foo/data.bin".to_owned(),
        "usr/bin/foo".to_owned(),
    ];
    assert_eq!(witnesses(&files, 5), vec!["usr/bin/foo"]);
    assert_eq!(witnesses(&files, 1), vec!["usr/bin/foo"]);
    assert!(witnesses(&files, 0).is_empty());
}

#[test]
fn a_package_falls_back_to_the_best_tier_it_actually_ships() {
    let libraries = vec![
        "usr/lib/libfoo.so".to_owned(),
        "usr/share/foo/data.bin".to_owned(),
    ];
    assert_eq!(witnesses(&libraries, 5), vec!["usr/lib/libfoo.so"]);

    let data_only = vec![
        "usr/share/man/man1/x.1".to_owned(),
        "usr/share/fonts/x.ttf".to_owned(),
    ];
    assert_eq!(witnesses(&data_only, 5), vec!["usr/share/fonts/x.ttf"]);

    let leftovers = vec!["etc/foo.conf".to_owned()];
    assert_eq!(witnesses(&leftovers, 5), vec!["etc/foo.conf"]);
}

#[test]
fn only_a_package_with_no_usable_file_has_no_witness() {
    let nothing = vec![
        "usr/share/man/man1/x.1".to_owned(),
        "usr/share/doc/foo/README".to_owned(),
        "usr/include/foo.h".to_owned(),
    ];
    assert!(witnesses(&nothing, 5).is_empty());
    assert!(witnesses(&[], 5).is_empty());
}

#[test]
fn a_recent_read_counts_as_use() {
    let observations = vec![Observation {
        path: "usr/bin/rg",
        atime: 2_000,
    }];
    assert_eq!(
        evaluate(&observations, None, Some(1_000), AtimeSupport::Relatime),
        UsageEvidence::Used {
            at: 2_000,
            witness: "usr/bin/rg".to_owned()
        }
    );
}

#[test]
fn an_atime_at_install_time_means_never_used() {
    let observations = vec![Observation {
        path: "usr/bin/rg",
        atime: 1_010,
    }];
    assert_eq!(
        evaluate(&observations, None, Some(1_000), AtimeSupport::Relatime),
        UsageEvidence::NeverSinceInstall { at: 1_010 }
    );
}

#[test]
fn the_newest_witness_wins() {
    let observations = vec![
        Observation {
            path: "usr/lib/libfoo.so",
            atime: 5_000,
        },
        Observation {
            path: "usr/bin/foo",
            atime: 9_000,
        },
    ];
    assert_eq!(
        evaluate(&observations, None, Some(1_000), AtimeSupport::Relatime),
        UsageEvidence::Used {
            at: 9_000,
            witness: "usr/bin/foo".to_owned()
        }
    );
}

#[test]
fn no_witnesses_is_reported_as_such() {
    assert_eq!(
        evaluate(&[], None, Some(1_000), AtimeSupport::Relatime),
        UsageEvidence::NoWitness
    );
}

#[test]
fn noatime_suppresses_every_verdict() {
    let observations = vec![Observation {
        path: "usr/bin/rg",
        atime: 9_999,
    }];
    assert_eq!(
        evaluate(&observations, None, Some(1_000), AtimeSupport::Disabled),
        UsageEvidence::AtimeDisabled
    );
}

#[test]
fn home_state_names_cover_the_package_and_its_binaries() {
    let files = vec![
        "usr/bin/vlc".to_owned(),
        "usr/bin/qvlc".to_owned(),
        "usr/lib/vlc/plugin.so".to_owned(),
        "usr/bin/nested/deep".to_owned(),
    ];
    assert_eq!(
        home_state_names("VLC", &files),
        vec!["vlc".to_owned(), "qvlc".to_owned()]
    );
}

#[test]
fn a_home_write_dates_a_package_that_atime_cannot() {
    // The noatime case: access times say nothing, but the application
    // wrote its own configuration back, which no mount option suppresses.
    let home = HomeActivity {
        path: "/home/me/.config/vlc/vlcrc".to_owned(),
        mtime: 9_000,
    };
    assert_eq!(
        evaluate(&[], Some(&home), Some(1_000), AtimeSupport::Disabled),
        UsageEvidence::UsedFromHome {
            at: 9_000,
            witness: "/home/me/.config/vlc/vlcrc".to_owned()
        }
    );
}

#[test]
fn a_home_write_outranks_a_stale_access_time() {
    let observations = vec![Observation {
        path: "usr/bin/vlc",
        atime: 2_000,
    }];
    let home = HomeActivity {
        path: "/home/me/.config/vlc/vlcrc".to_owned(),
        mtime: 9_000,
    };
    assert_eq!(
        evaluate(
            &observations,
            Some(&home),
            Some(1_000),
            AtimeSupport::Relatime
        ),
        UsageEvidence::UsedFromHome {
            at: 9_000,
            witness: "/home/me/.config/vlc/vlcrc".to_owned()
        }
    );
}

#[test]
fn a_newer_access_time_still_wins() {
    let observations = vec![Observation {
        path: "usr/bin/vlc",
        atime: 9_000,
    }];
    let home = HomeActivity {
        path: "/home/me/.config/vlc/vlcrc".to_owned(),
        mtime: 2_000,
    };
    assert_eq!(
        evaluate(
            &observations,
            Some(&home),
            Some(1_000),
            AtimeSupport::Relatime
        ),
        UsageEvidence::Used {
            at: 9_000,
            witness: "usr/bin/vlc".to_owned()
        }
    );
}

#[test]
fn home_evidence_is_not_gated_on_the_install_date() {
    // %INSTALLDATE% moves on every upgrade, so on a rolling release it is
    // routinely newer than the last time the user ran the program. Gating
    // home evidence on it would discard the only usable signal for every
    // recently upgraded package. Pacman does not write to a user's home
    // directory, so there is nothing to guard against.
    let home = HomeActivity {
        path: "/home/me/.config/gimp".to_owned(),
        mtime: 500,
    };
    assert_eq!(
        evaluate(&[], Some(&home), Some(1_000), AtimeSupport::Disabled),
        UsageEvidence::UsedFromHome {
            at: 500,
            witness: "/home/me/.config/gimp".to_owned()
        }
    );
}

#[test]
fn a_definite_never_verdict_survives_older_home_state() {
    // Where access times work, "untouched since install" is real evidence.
    // Home state written before that does not contradict it.
    let observations = vec![Observation {
        path: "usr/bin/foo",
        atime: 1_005,
    }];
    let home = HomeActivity {
        path: "/home/me/.config/foo".to_owned(),
        mtime: 500,
    };
    assert_eq!(
        evaluate(
            &observations,
            Some(&home),
            Some(1_000),
            AtimeSupport::Relatime
        ),
        UsageEvidence::NeverSinceInstall { at: 1_005 }
    );
}

#[test]
fn a_home_write_after_install_overturns_a_never_verdict() {
    let observations = vec![Observation {
        path: "usr/bin/foo",
        atime: 1_005,
    }];
    let home = HomeActivity {
        path: "/home/me/.config/foo".to_owned(),
        mtime: 5_000,
    };
    assert_eq!(
        evaluate(
            &observations,
            Some(&home),
            Some(1_000),
            AtimeSupport::Relatime
        ),
        UsageEvidence::UsedFromHome {
            at: 5_000,
            witness: "/home/me/.config/foo".to_owned()
        }
    );
}

#[test]
fn home_state_dates_a_package_with_nothing_worth_stat_ing() {
    let home = HomeActivity {
        path: "/home/me/.config/docs".to_owned(),
        mtime: 5_000,
    };
    assert_eq!(
        evaluate(&[], Some(&home), Some(1_000), AtimeSupport::Relatime),
        UsageEvidence::UsedFromHome {
            at: 5_000,
            witness: "/home/me/.config/docs".to_owned()
        }
    );
}

#[test]
fn without_home_evidence_the_noatime_verdict_is_unchanged() {
    let observations = vec![Observation {
        path: "usr/bin/vlc",
        atime: 9_999,
    }];
    assert_eq!(
        evaluate(&observations, None, Some(1_000), AtimeSupport::Disabled),
        UsageEvidence::AtimeDisabled
    );
}

#[test]
fn the_most_specific_mount_decides() {
    let mounts = "/dev/root / ext4 rw,relatime 0 0\n/dev/usr /usr ext4 rw,noatime 0 0\n";
    assert_eq!(atime_support(mounts, "/usr"), AtimeSupport::Disabled);
    assert_eq!(atime_support(mounts, "/var"), AtimeSupport::Relatime);
}

#[test]
fn a_missing_mount_table_is_reported_as_unknown() {
    assert_eq!(atime_support("", "/usr"), AtimeSupport::Unknown);
}

#[test]
fn a_prefix_that_is_not_a_path_component_does_not_match() {
    let mounts = "/dev/a /usrlocal ext4 rw,noatime 0 0\n/dev/b / ext4 rw,relatime 0 0\n";
    assert_eq!(atime_support(mounts, "/usr"), AtimeSupport::Relatime);
}

#[test]
fn strictatime_is_recognised() {
    let mounts = "/dev/root / ext4 rw,strictatime 0 0\n";
    assert_eq!(atime_support(mounts, "/usr"), AtimeSupport::Strict);
}

#[test]
fn a_mount_covers_what_lies_below_it() {
    assert!(covers("/", "/usr"));
    assert!(covers("/usr", "/usr"));
    assert!(covers("/usr", "/usr/lib"));
    assert!(!covers("/usr", "/usrlocal"));
    assert!(has_option("rw,noatime", "noatime"));
    assert!(!has_option("rw,lazytime", "time"));
}

#[test]
fn the_strictest_option_wins_across_the_mounts_that_matter() {
    let mounts = "/dev/a /usr ext4 rw,relatime 0 0\n/dev/b /usr ext4 rw,noatime 0 0\n";
    assert_eq!(atime_support(mounts, "/usr"), AtimeSupport::Disabled);
    let mounts = "/dev/a / ext4 rw,noatime 0 0\n/dev/b / ext4 rw,relatime 0 0\n";
    assert_eq!(atime_support(mounts, "/usr"), AtimeSupport::Disabled);
    // A mount that a more specific one covers does not matter.
    let mounts = "/dev/a / ext4 rw,noatime 0 0\n/dev/b /usr ext4 rw,relatime 0 0\n";
    assert_eq!(atime_support(mounts, "/usr/bin"), AtimeSupport::Relatime);
    let mounts = "/dev/a / ext4 rw,strictatime 0 0\n/dev/b / ext4 rw 0 0\n";
    assert_eq!(atime_support(mounts, "/usr"), AtimeSupport::Strict);
}

#[test]
fn witnesses_are_bounded_and_come_in_order() {
    let files: Vec<String> = (0..5).map(|i| format!("usr/bin/tool{i}")).collect();
    assert_eq!(witnesses(&files, 2), vec!["usr/bin/tool0", "usr/bin/tool1"]);
}

#[test]
fn without_an_install_date_a_read_counts() {
    let observations = vec![Observation { path: "usr/bin/x", atime: 5 }];
    assert_eq!(
        evaluate(&observations, None, None, AtimeSupport::Unknown),
        UsageEvidence::Used { at: 5, witness: "usr/bin/x".to_owned() }
    );
}
