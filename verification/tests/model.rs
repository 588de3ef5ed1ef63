//! The types that the analysis shares.
use pacpurge::model::{AtimeSupport, Facts, InstallReason, Origin, UsageEvidence};

/// The facts of a package that these need or like to have.
fn facts(required_by: &[&str], optional_for: &[&str]) -> Facts {
    let owned = |items: &[&str]| items.iter().map(|item| (*item).to_owned()).collect();
    Facts {
        required_by: owned(required_by),
        optional_for: owned(optional_for),
        origin: Origin::Unknown,
        usage: UsageEvidence::NotProbed,
        reclaimable: 0,
        frees: Vec::new(),
        protected: false,
    }
}

#[test]
fn an_orphan_may_still_be_liked() {
    assert!(facts(&[], &[]).is_orphan());
    assert!(!facts(&[], &[]).is_optional_orphan());
    assert!(facts(&[], &["a"]).is_optional_orphan());
    assert!(!facts(&["b"], &["a"]).is_optional_orphan());
    assert!(!facts(&["b"], &[]).is_orphan());
}

#[test]
fn evidence_is_for_use_against_it_or_neither() {
    let witness = "x".to_owned();
    let used = UsageEvidence::Used { at: 7, witness: witness.clone() };
    let home = UsageEvidence::UsedFromHome { at: 8, witness };
    let never = UsageEvidence::NeverSinceInstall { at: 9 };
    assert!(used.is_used() && home.is_used() && never.is_unused());
    assert!(!used.is_unused() && !home.is_unused() && !never.is_used());
    assert_eq!((used.timestamp(), home.timestamp(), never.timestamp()), (Some(7), Some(8), Some(9)));
    assert_eq!(UsageEvidence::NoWitness.timestamp(), None);
    assert!(!UsageEvidence::NotProbed.is_used() && !UsageEvidence::NotProbed.is_unused());
}

#[test]
fn labels_are_what_the_tables_show() {
    assert_eq!(InstallReason::Explicit.label(), "explicit");
    assert_eq!(InstallReason::Dependency.label(), "dep");
    assert_eq!(Origin::Repository("core".to_owned()).label(), "core");
    assert_eq!(Origin::Foreign.label(), "aur/local");
    assert_eq!(Origin::Unknown.label(), "?");
    assert!(Origin::Foreign.is_foreign() && !Origin::Unknown.is_foreign());
}

#[test]
fn only_frozen_times_mean_nothing() {
    assert!(AtimeSupport::Relatime.is_meaningful());
    assert!(AtimeSupport::Strict.is_meaningful());
    assert!(AtimeSupport::Unknown.is_meaningful());
    assert!(!AtimeSupport::Disabled.is_meaningful());
    assert!(AtimeSupport::Disabled.caveat().starts_with("noatime"));
    assert_eq!(AtimeSupport::Strict.caveat(), "strictatime: access times are exact");
}
