//! Inferring when a package was last actually used, from file access times.
//!
//! # Why atime works, and where it does not
//!
//! Arch mounts filesystems `relatime` by default: a file's access time is
//! updated on read only if the stored atime is older than its mtime/ctime or
//! more than 24 hours old. That is useless for "was this read in the last
//! minute" but exactly right for "has this been touched in the last six
//! months", which is the question worth asking before deleting something.
//!
//! Two failure modes are handled explicitly rather than papered over:
//!
//! * A `noatime` mount freezes access times entirely. Reporting a stale
//!   timestamp as "last used" would be actively misleading, so the mount
//!   options are read and the whole column is disabled instead.
//! * Package extraction sets an atime at install time. A package that has
//!   never been run therefore looks "used" on its install date. Comparing
//!   against the recorded install date turns that into the more useful
//!   answer: *never used since it was installed*.
//!
//! Pure: the caller supplies the stat results.
use vstd::prelude::*;

use crate::model;
use crate::model::{AtimeSupport, UsageEvidence};
use crate::split;
use crate::split::{split, split_lines, split_words};
use crate::text;
use crate::text::{chars_of, contains_char, list_contains, prefix_in, same, strip_prefix, suffix_in, to_lower};

verus! {

// ---------------------------------------------------------------------------
// Witnesses
// ---------------------------------------------------------------------------

/// Whether a path lies where indexers, documentation viewers and backup tools
/// read rather than the software itself, so that its access time means
/// nothing. Translations for languages the user does not run in are never read
/// even when the package is in daily use.
pub open spec fn has_noise_prefix(path: Seq<char>) -> bool {
    ||| text::starts(path, "usr/share/man/"@)
    ||| text::starts(path, "usr/share/doc/"@)
    ||| text::starts(path, "usr/share/info/"@)
    ||| text::starts(path, "usr/share/licenses/"@)
    ||| text::starts(path, "usr/share/help/"@)
    ||| text::starts(path, "usr/share/locale/"@)
    ||| text::starts(path, "usr/include/"@)
    ||| text::starts(path, "usr/src/"@)
}

/// Whether a path names a file whose access time is set by tooling rather than
/// by use.
pub open spec fn has_noise_suffix(path: Seq<char>) -> bool {
    ||| text::ends(path, ".pc"@)
    ||| text::ends(path, ".h"@)
    ||| text::ends(path, ".hpp"@)
    ||| text::ends(path, ".a"@)
    ||| text::ends(path, ".pyc"@)
    ||| text::ends(path, ".mo"@)
}

/// Whether a path lies among executables: running one is the strongest
/// possible evidence.
pub open spec fn is_executable(path: Seq<char>) -> bool {
    ||| text::starts(path, "usr/bin/"@)
    ||| text::starts(path, "usr/local/bin/"@)
    ||| text::starts(path, "usr/libexec/"@)
    ||| text::starts(path, "usr/lib/systemd/"@)
    ||| text::starts(path, "opt/"@)
}

/// Whether a path lies among shared libraries, which are read when something
/// links against them at run time.
pub open spec fn is_library(path: Seq<char>) -> bool {
    ||| text::starts(path, "usr/lib/"@)
    ||| text::starts(path, "usr/lib32/"@)
    ||| text::starts(path, "usr/local/lib/"@)
}

/// Whether a path lies among data that software reads while running: fonts,
/// icons, themes, texmf, application resources.
pub open spec fn is_data(path: Seq<char>) -> bool {
    ||| text::starts(path, "usr/share/"@)
    ||| text::starts(path, "usr/local/share/"@)
    ||| text::starts(path, "var/lib/"@)
}

/// The tier of evidence that a path belongs to, strongest first, or none where
/// it is noise.
///
/// A package is judged by the strongest tier it actually ships. If it has
/// executables, whether those ran is the question worth asking; if it ships
/// only data — a font family, an icon theme, a TeX distribution — then whether
/// anything read that data is the question instead.
///
/// Judging by the *best available* tier rather than by everything at once
/// matters: taking the newest access time across a mixed set would let a
/// stray read of one data file vouch for a binary that has never run.
pub open spec fn tier_of(path: Seq<char>) -> Option<usize> {
    if has_noise_prefix(path) || has_noise_suffix(path) {
        None
    } else if is_executable(path) {
        Some(0)
    } else if is_library(path) {
        Some(1)
    } else if is_data(path) {
        Some(2)
    } else {
        Some(3)
    }
}

/// Which evidence tier a path belongs to, or `None` if it is noise.
pub fn witness_tier(path: &str) -> (r: Option<usize>)
    ensures
        r == tier_of(path@),
{
    let v = chars_of(path);
    if prefix_in(&v, "usr/share/man/") || prefix_in(&v, "usr/share/doc/") || prefix_in(
        &v,
        "usr/share/info/",
    ) || prefix_in(&v, "usr/share/licenses/") || prefix_in(&v, "usr/share/help/") || prefix_in(
        &v,
        "usr/share/locale/",
    ) || prefix_in(&v, "usr/include/") || prefix_in(&v, "usr/src/") {
        return None;
    }
    if suffix_in(&v, ".pc") || suffix_in(&v, ".h") || suffix_in(&v, ".hpp") || suffix_in(&v, ".a")
        || suffix_in(&v, ".pyc") || suffix_in(&v, ".mo") {
        return None;
    }
    if prefix_in(&v, "usr/bin/") || prefix_in(&v, "usr/local/bin/") || prefix_in(&v, "usr/libexec/")
        || prefix_in(&v, "usr/lib/systemd/") || prefix_in(&v, "opt/") {
        return Some(0);
    }
    if prefix_in(&v, "usr/lib/") || prefix_in(&v, "usr/lib32/") || prefix_in(&v, "usr/local/lib/") {
        return Some(1);
    }
    if prefix_in(&v, "usr/share/") || prefix_in(&v, "usr/local/share/") || prefix_in(&v, "var/lib/")
        {
        return Some(2);
    }
    // The final tier catches everything left over. Weak, but a weak verdict
    // beats none.
    Some(3)
}

/// Whether a path is worth stat-ing as evidence of use.
pub fn is_witness(path: &str) -> (r: bool)
    ensures
        r == (tier_of(path@) is Some),
{
    witness_tier(path).is_some()
}

/// The strongest tier among the files, 4 where there is none.
pub open spec fn best_tier(files: Seq<Seq<char>>) -> usize
    decreases files.len(),
{
    if files.len() == 0 {
        4
    } else {
        let before = best_tier(files.drop_last());
        match tier_of(files.last()) {
            Some(tier) => if tier < before {
                tier
            } else {
                before
            },
            None => before,
        }
    }
}

/// The files of a tier, in order.
pub open spec fn in_tier(files: Seq<Seq<char>>, tier: usize) -> Seq<Seq<char>> {
    files.filter(|path: Seq<char>| tier_of(path) == Some(tier))
}

/// The files worth looking at: the first `budget` of the strongest tier.
pub open spec fn chosen_witnesses(files: Seq<Seq<char>>, budget: nat) -> Seq<Seq<char>> {
    let all = in_tier(files, best_tier(files));
    if all.len() <= budget {
        all
    } else {
        all.take(budget as int)
    }
}

/// Choose up to `budget` files to stat, all from the strongest tier present.
///
/// Within a tier the database order is kept, so the choice is deterministic.
pub fn witnesses<'a>(files: &'a [String], budget: usize) -> (r: Vec<&'a str>)
    ensures
        text::str_texts(r@) == chosen_witnesses(text::texts(files@), budget as nat),
{
    let ghost all = text::texts(files@);
    let mut best: usize = 4;
    let mut i: usize = 0;
    assert(all.take(0) =~= Seq::empty());
    while i < files.len()
        invariant
            i <= files.len(),
            all == text::texts(files@),
            best == best_tier(all.take(i as int)),
        decreases files.len() - i,
    {
        assert(all.take(i + 1).drop_last() =~= all.take(i as int));
        if let Some(tier) = witness_tier(files[i].as_str()) {
            if tier < best {
                best = tier;
            }
        }
        i += 1;
    }
    assert(all.take(all.len() as int) =~= all);
    let ghost keep = |path: Seq<char>| tier_of(path) == Some(best);
    let mut out: Vec<&'a str> = Vec::new();
    let mut k: usize = 0;
    proof {
        reveal(Seq::filter);
        assert(all.take(0).filter(keep) =~= Seq::empty());
        assert(text::str_texts(out@) =~= all.take(0).filter(keep));
    }
    while k < files.len() && out.len() < budget
        invariant
            k <= files.len(),
            all == text::texts(files@),
            keep == (|path: Seq<char>| tier_of(path) == Some(best)),
            out.len() <= budget,
            text::str_texts(out@) == all.take(k as int).filter(keep),
        decreases files.len() - k,
    {
        proof {
            assert(all.take(k + 1) =~= all.take(k as int).push(files@[k as int]@));
            split::lemma_filter_push(all.take(k as int), files@[k as int]@, keep);
        }
        let tier = witness_tier(files[k].as_str());
        if tier.is_some() && tier.unwrap() == best {
            let ghost before = text::str_texts(out@);
            out.push(files[k].as_str());
            assert(text::str_texts(out@) =~= before.push(files@[k as int]@));
        }
        k += 1;
    }
    proof {
        let whole = in_tier(all, best);
        assert(all =~= all.take(k as int) + all.skip(k as int));
        Seq::filter_distributes_over_add(all.take(k as int), all.skip(k as int), keep);
        assert(whole == all.take(k as int).filter(keep) + all.skip(k as int).filter(keep));
        if k == files.len() {
            assert(all.skip(k as int) =~= Seq::empty());
            assert(all.skip(k as int).filter(keep) =~= Seq::empty());
            assert(whole =~= text::str_texts(out@));
        } else {
            assert(out.len() == budget);
            assert(whole.take(budget as int) =~= text::str_texts(out@));
            if whole.len() == budget {
                assert(whole.take(budget as int) =~= whole);
            }
        }
    }
    out
}

proof fn lemma_best_tier(files: Seq<Seq<char>>)
    ensures
        forall|i: int|
            0 <= i < files.len() ==> (tier_of(#[trigger] files[i]) matches Some(tier) ==> best_tier(
                files,
            ) <= tier),
    decreases files.len(),
{
    if files.len() > 0 {
        lemma_best_tier(files.drop_last());
        assert forall|i: int| 0 <= i < files.len() implies (tier_of(#[trigger] files[i]) matches Some(
            tier,
        ) ==> best_tier(files) <= tier) by {
            if i < files.len() - 1 {
                assert(files.drop_last()[i] == files[i]);
            }
        }
    }
}

proof fn lemma_in_tier(files: Seq<Seq<char>>, k: int)
    requires
        0 <= k < in_tier(files, best_tier(files)).len(),
    ensures
        tier_of(in_tier(files, best_tier(files))[k]) == Some(best_tier(files)),
{
    let keep = |path: Seq<char>| tier_of(path) == Some(best_tier(files));
    broadcast use vstd::seq_lib::group_filter_ensures;

    assert(keep(in_tier(files, best_tier(files))[k]));
}

/// The tiers are not mixed: every file that is looked at belongs to one tier,
/// and the package ships nothing of a stronger one.
pub proof fn tiers_are_not_mixed(files: Seq<Seq<char>>, budget: nat, k: int, i: int)
    requires
        0 <= k < chosen_witnesses(files, budget).len(),
        0 <= i < files.len(),
    ensures
        tier_of(chosen_witnesses(files, budget)[k]) == Some(best_tier(files)),
        tier_of(files[i]) matches Some(tier) ==> best_tier(files) <= tier,
{
    lemma_in_tier(files, k);
    lemma_best_tier(files);
}

/// Documentation says nothing of use: no file that is noise is ever looked at,
/// and a package that ships nothing else has no witness.
pub proof fn documentation_is_never_looked_at(files: Seq<Seq<char>>, budget: nat, k: int)
    ensures
        0 <= k < chosen_witnesses(files, budget).len() ==> !has_noise_prefix(
            chosen_witnesses(files, budget)[k],
        ) && !has_noise_suffix(chosen_witnesses(files, budget)[k]),
        (forall|i: int|
            0 <= i < files.len() ==> has_noise_prefix(#[trigger] files[i]) || has_noise_suffix(
                files[i],
            )) ==> chosen_witnesses(files, budget).len() == 0,
{
    let chosen = chosen_witnesses(files, budget);
    let all = in_tier(files, best_tier(files));
    if 0 <= k < chosen.len() {
        lemma_in_tier(files, k);
    }
    if chosen.len() > 0 {
        lemma_in_tier(files, 0);
        split::lemma_filter_contains(
            files,
            |path: Seq<char>| tier_of(path) == Some(best_tier(files)),
            all[0],
        );
    }
}

// ---------------------------------------------------------------------------
// State under the home directory
// ---------------------------------------------------------------------------

/// Directories under `$HOME` where applications keep per-user state.
///
/// A program that runs writes here: a window position, a recent-files list, a
/// cache index. Those writes carry modification times, which no mount option
/// suppresses, so this is the only usable evidence on a `noatime` filesystem.
pub const HOME_STATE_DIRS: [&'static str; 4] = [".config", ".local/share", ".local/state", ".cache"];

/// The name of the executable that a path stands for: what follows the
/// directory of executables, where nothing lies deeper.
pub open spec fn binary_of(path: Seq<char>) -> Option<Seq<char>> {
    let rest = if text::starts(path, "usr/bin/"@) {
        Some(path.skip("usr/bin/"@.len() as int))
    } else if text::starts(path, "usr/local/bin/"@) {
        Some(path.skip("usr/local/bin/"@.len() as int))
    } else {
        None
    };
    match rest {
        Some(name) => if name.contains('/') {
            None
        } else {
            Some(name)
        },
        None => None,
    }
}

/// The name of the executable that a path stands for.
pub fn binary_name(path: &str) -> (r: Option<&str>)
    ensures
        match r {
            Some(name) => binary_of(path@) == Some(name@),
            None => binary_of(path@) is None,
        },
{
    let rest = match strip_prefix(path, "usr/bin/") {
        Some(rest) => rest,
        None => match strip_prefix(path, "usr/local/bin/") {
            Some(rest) => rest,
            None => {
                return None;
            },
        },
    };
    if contains_char(rest, '/') {
        None
    } else {
        Some(rest)
    }
}

/// A list of names with one more, unless it is empty or in the list already.
pub open spec fn with_name(names: Seq<Seq<char>>, name: Seq<char>) -> Seq<Seq<char>> {
    if name.len() == 0 || names.contains(name) {
        names
    } else {
        names.push(name)
    }
}

/// Adds a name to a list, unless it is empty or in the list already.
pub fn add_name(names: &mut Vec<String>, name: String)
    ensures
        text::texts(final(names)@) == with_name(text::texts(old(names)@), name@),
{
    let ghost before = text::texts(names@);
    if !name.as_str().is_empty() && !list_contains(names, name.as_str()) {
        let ghost added = name@;
        names.push(name);
        assert(text::texts(names@) =~= before.push(added));
    }
}

/// The names that a package's per-user state might be filed under: its own in
/// lower case, and those of its executables in lower case.
pub open spec fn state_names(package: Seq<char>, files: Seq<Seq<char>>) -> Seq<Seq<char>>
    decreases files.len(),
{
    if files.len() == 0 {
        seq![text::lowercase(package)]
    } else {
        let before = state_names(package, files.drop_last());
        match binary_of(files.last()) {
            Some(name) => with_name(before, text::lowercase(name)),
            None => before,
        }
    }
}

/// Names a package's per-user state might be filed under.
///
/// The package name itself, plus the base name of every executable it ships:
/// the `vlc` package writes `~/.config/vlc`, but plenty of packages are named
/// for their project and write under the name of their binary.
pub fn home_state_names(package: &str, files: &[String]) -> (r: Vec<String>)
    ensures
        text::texts(r@) == state_names(package@, text::texts(files@)),
{
    let ghost all = text::texts(files@);
    let mut names: Vec<String> = Vec::new();
    names.push(to_lower(package));
    let mut i: usize = 0;
    proof {
        assert(all.take(0) =~= Seq::empty());
        assert(text::texts(names@) =~= seq![text::lowercase(package@)]);
    }
    while i < files.len()
        invariant
            i <= files.len(),
            all == text::texts(files@),
            text::texts(names@) == state_names(package@, all.take(i as int)),
        decreases files.len() - i,
    {
        assert(all.take(i + 1).drop_last() =~= all.take(i as int));
        if let Some(name) = binary_name(files[i].as_str()) {
            add_name(&mut names, to_lower(name));
        }
        i += 1;
    }
    assert(all.take(all.len() as int) =~= all);
    names
}

// ---------------------------------------------------------------------------
// The verdict
// ---------------------------------------------------------------------------

/// An access time observed for one witness file.
pub struct Observation<'a> {
    /// Root-relative path that was stat-ed.
    pub path: &'a str,
    /// Its access time, in Unix seconds.
    pub atime: i64,
}

/// Something the package wrote in the user's home directory.
pub struct HomeActivity {
    /// Absolute path that carried the timestamp.
    pub path: String,
    /// Its modification time, in Unix seconds.
    pub mtime: i64,
}

/// Grace period, in seconds, around the recorded install date.
///
/// Extraction stamps files over the course of the transaction and pacman
/// records a single install date for the whole package, so an atime a few
/// minutes either side of that date still means "untouched since install".
pub const INSTALL_GRACE: i64 = 900;

/// Where a timestamp was seen: the path and the time.
pub type Sighting = (Seq<char>, i64);

/// The sightings of a list of observations.
pub open spec fn sightings(observations: Seq<Observation<'_>>) -> Seq<Sighting> {
    Seq::new(observations.len(), |i: int| (observations[i].path@, observations[i].atime))
}

/// The most recent sighting, the last of equally recent ones.
pub open spec fn newest(seen: Seq<Sighting>) -> Option<Sighting>
    decreases seen.len(),
{
    if seen.len() == 0 {
        None
    } else {
        match newest(seen.drop_last()) {
            Some(best) => if seen.last().1 >= best.1 {
                Some(seen.last())
            } else {
                Some(best)
            },
            None => Some(seen.last()),
        }
    }
}

/// The last moment that still counts as installation.
pub open spec fn install_threshold(date: i64) -> i64 {
    if date + 900 > i64::MAX {
        i64::MAX
    } else {
        (date + 900) as i64
    }
}

/// The verdict from access times alone.
pub open spec fn atime_verdict(
    seen: Seq<Sighting>,
    install_date: Option<i64>,
    support: AtimeSupport,
) -> model::UsageView {
    if support == AtimeSupport::Disabled {
        model::UsageView::AtimeDisabled
    } else {
        match newest(seen) {
            None => model::UsageView::NoWitness,
            Some((witness, at)) => if install_date is Some && at <= install_threshold(
                install_date.unwrap(),
            ) {
                model::UsageView::NeverSinceInstall { at }
            } else {
                model::UsageView::Used { at, witness }
            },
        }
    }
}

/// The verdict from access times and from a write under the home directory.
///
/// The more recent of a read and a write wins, the read where they are equal.
/// A write counts where access times are frozen or nothing was worth looking
/// at, and it overturns "untouched since install" where it came later than the
/// access that says so.
pub open spec fn verdict(
    seen: Seq<Sighting>,
    home: Option<Sighting>,
    install_date: Option<i64>,
    support: AtimeSupport,
) -> model::UsageView {
    let from_atime = atime_verdict(seen, install_date, support);
    match home {
        None => from_atime,
        Some((witness, written)) => {
            let from_home = model::UsageView::UsedFromHome { at: written, witness };
            match from_atime {
                model::UsageView::Used { at, .. } => if at >= written {
                    from_atime
                } else {
                    from_home
                },
                model::UsageView::NeverSinceInstall { at } => if written > at {
                    from_home
                } else {
                    from_atime
                },
                model::UsageView::AtimeDisabled => from_home,
                model::UsageView::NoWitness => from_home,
                model::UsageView::UsedFromHome { .. } => from_atime,
                model::UsageView::NotProbed => from_atime,
            }
        },
    }
}

/// The sighting of some home activity.
pub open spec fn home_sighting(home: Option<&HomeActivity>) -> Option<Sighting> {
    match home {
        Some(activity) => Some((activity.path@, activity.mtime)),
        None => None,
    }
}

/// Turn the observed evidence into a verdict.
///
/// Home-directory activity is not gated on the install date, unlike an access
/// time. Pacman never writes to a user's home directory, so a write there was
/// the user running the program — and `%INSTALLDATE%` moves on every *upgrade*,
/// so gating on it would throw away good evidence for every package that has
/// been updated recently, which on a rolling release is most of them.
pub fn evaluate(
    observations: &[Observation<'_>],
    home: Option<&HomeActivity>,
    install_date: Option<i64>,
    support: AtimeSupport,
) -> (r: UsageEvidence)
    ensures
        r@ == verdict(sightings(observations@), home_sighting(home), install_date, support),
{
    let from_atime = evaluate_atime(observations, install_date, support);
    let activity = match home {
        Some(activity) => activity,
        None => {
            return from_atime;
        },
    };
    let keep = match &from_atime {
        // A read more recent than the home write is the better timestamp.
        UsageEvidence::Used { at, witness: _ } => *at >= activity.mtime,
        // Access times are frozen, so the home write is all there is.
        UsageEvidence::AtimeDisabled => false,
        // "Untouched since install" is a definite verdict where access times
        // work, but a later home write contradicts it outright.
        UsageEvidence::NeverSinceInstall { at } => activity.mtime <= *at,
        // Nothing worth stat-ing, but the program still left state behind.
        UsageEvidence::NoWitness => false,
        UsageEvidence::NotProbed => true,
        UsageEvidence::UsedFromHome { at: _, witness: _ } => true,
    };
    if keep {
        from_atime
    } else {
        UsageEvidence::UsedFromHome { at: activity.mtime, witness: activity.path.clone() }
    }
}

/// The verdict from access times alone.
fn evaluate_atime(
    observations: &[Observation<'_>],
    install_date: Option<i64>,
    support: AtimeSupport,
) -> (r: UsageEvidence)
    ensures
        r@ == atime_verdict(sightings(observations@), install_date, support),
{
    if !support.is_meaningful() {
        return UsageEvidence::AtimeDisabled;
    }
    let ghost seen = sightings(observations@);
    if observations.len() == 0 {
        return UsageEvidence::NoWitness;
    }
    let mut best: usize = 0;
    let mut i: usize = 1;
    proof {
        assert(seen.take(1).drop_last() =~= Seq::empty());
        assert(newest(Seq::<Sighting>::empty()) is None);
        assert(newest(seen.take(1)) == Some(seen[0]));
    }
    while i < observations.len()
        invariant
            1 <= i <= observations.len(),
            best < i,
            seen == sightings(observations@),
            newest(seen.take(i as int)) == Some(seen[best as int]),
        decreases observations.len() - i,
    {
        assert(seen.take(i + 1).drop_last() =~= seen.take(i as int));
        assert(seen.take(i + 1).last() == seen[i as int]);
        if observations[i].atime >= observations[best].atime {
            best = i;
        }
        i += 1;
    }
    assert(seen.take(seen.len() as int) =~= seen);
    let at: i64 = observations[best].atime;
    if let Some(date) = install_date {
        let threshold: i64 = match date.checked_add(INSTALL_GRACE) {
            Some(threshold) => threshold,
            None => i64::MAX,
        };
        if at <= threshold {
            return UsageEvidence::NeverSinceInstall { at };
        }
    }
    UsageEvidence::Used { at, witness: observations[best].path.to_owned() }
}

/// On a `noatime` filesystem an access time is never reported: without a write
/// under the home directory the verdict is that there is none, and with one
/// the verdict is that write, whatever the access times and the install date.
pub proof fn frozen_times_are_never_reported(
    seen: Seq<Sighting>,
    home: Option<Sighting>,
    install_date: Option<i64>,
)
    ensures
        verdict(seen, home, install_date, AtimeSupport::Disabled) == (match home {
            None => model::UsageView::AtimeDisabled,
            Some((witness, at)) => model::UsageView::UsedFromHome { at, witness },
        }),
{
}

/// The most recent sighting is at least as recent as every other.
pub proof fn newest_is_newest(seen: Seq<Sighting>, i: int)
    requires
        0 <= i < seen.len(),
    ensures
        newest(seen) is Some,
        newest(seen).unwrap().1 >= seen[i].1,
        seen.contains(newest(seen).unwrap()),
    decreases seen.len(),
{
    if seen.len() == 1 {
        assert(seen.drop_last().len() == 0);
        assert(seen[0] == seen.last());
    } else {
        newest_is_newest(seen.drop_last(), 0);
        if i < seen.len() - 1 {
            newest_is_newest(seen.drop_last(), i);
        }
        let best = newest(seen.drop_last()).unwrap();
        let k = choose|k: int| 0 <= k < seen.drop_last().len() && seen.drop_last()[k] == best;
        assert(seen[k] == best);
        assert(seen[seen.len() - 1] == seen.last());
    }
}

// ---------------------------------------------------------------------------
// The mount table
// ---------------------------------------------------------------------------

/// Whether a comma-separated option list contains an option exactly.
pub open spec fn option_in(options: Seq<char>, option: Seq<char>) -> bool {
    split::split_on(options, ',').contains(option)
}

/// What mount options say about access times. `relatime` is the kernel default
/// even when the option is absent.
pub open spec fn support_of(options: Seq<char>) -> AtimeSupport {
    if option_in(options, "noatime"@) {
        AtimeSupport::Disabled
    } else if option_in(options, "strictatime"@) {
        AtimeSupport::Strict
    } else {
        AtimeSupport::Relatime
    }
}

/// Whether a mount point is an ancestor of a path, or the path itself.
pub open spec fn covers_path(mount_point: Seq<char>, path: Seq<char>) -> bool {
    if mount_point == "/"@ {
        path.len() > 0 && path[0] == '/'
    } else {
        ||| path == mount_point
        ||| text::starts(path, mount_point) && path.len() > mount_point.len()
            && path[mount_point.len() as int] == '/'
    }
}

/// Whether a line of the mount table names a mount that covers the path.
pub open spec fn is_covering(line: Seq<char>, path: Seq<char>) -> bool {
    let fields = split::words(line);
    fields.len() >= 4 && covers_path(fields[1], path)
}

/// How specific the mount point of a line is: its length in bytes.
pub open spec fn specificity(line: Seq<char>) -> nat {
    vstd::utf8::encode_utf8(split::words(line)[1]).len()
}

/// Whether line `i` names a mount that matters: it covers the path, and no mount
/// that does is more specific.
pub open spec fn matters(lines: Seq<Seq<char>>, path: Seq<char>, i: int) -> bool {
    &&& 0 <= i < lines.len()
    &&& is_covering(lines[i], path)
    &&& forall|j: int|
        0 <= j < lines.len() && is_covering(#[trigger] lines[j], path) ==> specificity(lines[j])
            <= specificity(lines[i])
}

/// What the options of a line say about access times.
pub open spec fn line_support(line: Seq<char>) -> AtimeSupport {
    support_of(split::words(line)[3])
}

/// Whether access times are frozen on a mount that matters.
pub open spec fn is_frozen(lines: Seq<Seq<char>>, path: Seq<char>) -> bool {
    exists|i: int| #[trigger]
        matters(lines, path, i) && line_support(lines[i]) == AtimeSupport::Disabled
}

/// Whether line `i` is the first that names a mount that matters.
pub open spec fn comes_first(lines: Seq<Seq<char>>, path: Seq<char>, i: int) -> bool {
    &&& matters(lines, path, i)
    &&& forall|j: int| 0 <= j < i ==> !#[trigger] matters(lines, path, j)
}

/// What a mount table says about access times under a path. The strictest
/// option wins: where access times are frozen on any mount that matters, they
/// mean nothing. Otherwise the first mount that matters decides, and nothing
/// is known where no mount covers the path.
pub open spec fn mount_support(lines: Seq<Seq<char>>, path: Seq<char>) -> AtimeSupport {
    if is_frozen(lines, path) {
        AtimeSupport::Disabled
    } else if exists|i: int| comes_first(lines, path, i) {
        line_support(lines[choose|i: int| comes_first(lines, path, i)])
    } else {
        AtimeSupport::Unknown
    }
}

/// Parse `/proc/mounts` and decide how much access times can be trusted.
///
/// The strictest option wins across the mounts that matter: if `/usr` — or
/// whichever mount covers it — is `noatime`, the whole feature is off, because
/// that is where package files live.
pub fn atime_support(mounts: &str, path_of_interest: &str) -> (r: AtimeSupport)
    ensures
        r == mount_support(split::lines(mounts@), path_of_interest@),
        is_frozen(split::lines(mounts@), path_of_interest@) ==> r == AtimeSupport::Disabled,
        !is_frozen(split::lines(mounts@), path_of_interest@) ==> forall|i: int| #[trigger]
            comes_first(split::lines(mounts@), path_of_interest@, i) ==> r == line_support(
                split::lines(mounts@)[i],
            ),
        (exists|j: int|
            0 <= j < split::lines(mounts@).len() && is_covering(
                #[trigger] split::lines(mounts@)[j],
                path_of_interest@,
            )) ==> exists|i: int| #[trigger]
            comes_first(split::lines(mounts@), path_of_interest@, i),
{
    let all = split_lines(mounts);
    let ghost ls = split::lines(mounts@);
    let ghost path = path_of_interest@;
    let mut found = false;
    let ghost mut first: int = 0;
    let mut best_len: usize = 0;
    let mut support = AtimeSupport::Unknown;
    let mut frozen = false;
    let ghost mut iced: int = 0;
    let mut i: usize = 0;
    while i < all.len()
        invariant
            i <= all.len(),
            text::texts(all@) == ls,
            path == path_of_interest@,
            !found ==> support == AtimeSupport::Unknown && !frozen && forall|j: int|
                0 <= j < i ==> !is_covering(#[trigger] ls[j], path),
            found ==> {
                &&& 0 <= first < i
                &&& is_covering(ls[first], path)
                &&& best_len == specificity(ls[first])
                &&& support == line_support(ls[first])
            },
            found ==> forall|j: int|
                0 <= j < i && is_covering(#[trigger] ls[j], path) ==> specificity(ls[j]) <= best_len
                    && (j < first ==> specificity(ls[j]) < best_len) && (specificity(ls[j])
                    == best_len && line_support(ls[j]) == AtimeSupport::Disabled ==> frozen),
            frozen ==> {
                &&& found
                &&& 0 <= iced < i
                &&& is_covering(ls[iced], path)
                &&& best_len == specificity(ls[iced])
                &&& line_support(ls[iced]) == AtimeSupport::Disabled
            },
        decreases all.len() - i,
    {
        let fields = split_words(all[i].as_str());
        assert(ls[i as int] == all@[i as int]@);
        if fields.len() >= 4 {
            assert(text::texts(fields@)[1] == fields@[1]@);
            assert(text::texts(fields@)[3] == fields@[3]@);
            let mount_point = fields[1].as_str();
            if covers(mount_point, path_of_interest) {
                let len: usize = mount_point.as_bytes().len();
                let here = option_support(fields[3].as_str());
                assert(len == specificity(ls[i as int]));
                assert(here == line_support(ls[i as int]));
                if !found || len > best_len {
                    found = true;
                    best_len = len;
                    support = here;
                    frozen = here == AtimeSupport::Disabled;
                    proof {
                        first = i as int;
                        iced = i as int;
                    }
                } else if len == best_len && here == AtimeSupport::Disabled {
                    frozen = true;
                    proof {
                        iced = i as int;
                    }
                }
            } else {
                assert(!is_covering(ls[i as int], path));
            }
        }
        i += 1;
    }
    proof {
        if found {
            assert(matters(ls, path, first));
            assert(comes_first(ls, path, first));
        }
        if frozen {
            assert(matters(ls, path, iced));
        }
        if is_frozen(ls, path) {
            let k = choose|k: int| #[trigger]
                matters(ls, path, k) && line_support(ls[k]) == AtimeSupport::Disabled;
            assert(is_covering(ls[k], path));
            assert(is_covering(ls[first], path));
        }
        assert forall|k: int| #[trigger] comes_first(ls, path, k) implies support == line_support(
            ls[k],
        ) by {
            assert(is_covering(ls[k], path));
            if k < first {
                assert(matters(ls, path, k));
            } else if first < k {
                assert(matters(ls, path, first));
            }
        }
    }
    if frozen {
        AtimeSupport::Disabled
    } else {
        support
    }
}

/// What mount options say about access times.
fn option_support(options: &str) -> (r: AtimeSupport)
    ensures
        r == support_of(options@),
{
    if has_option(options, "noatime") {
        AtimeSupport::Disabled
    } else if has_option(options, "strictatime") {
        AtimeSupport::Strict
    } else {
        AtimeSupport::Relatime
    }
}

/// Whether `mount_point` is an ancestor of (or equal to) `path`.
pub fn covers(mount_point: &str, path: &str) -> (r: bool)
    ensures
        r == covers_path(mount_point@, path@),
{
    let p = chars_of(path);
    if same(mount_point, "/") {
        return p.len() > 0 && p[0] == '/';
    }
    if same(path, mount_point) {
        return true;
    }
    let n: usize = mount_point.unicode_len();
    prefix_in(&p, mount_point) && p.len() > n && p[n] == '/'
}

/// Whether a comma-separated mount option list contains `needle` exactly.
pub fn has_option(options: &str, needle: &str) -> (r: bool)
    ensures
        r == option_in(options@, needle@),
{
    list_contains(&split(options, ','), needle)
}

} // verus!
