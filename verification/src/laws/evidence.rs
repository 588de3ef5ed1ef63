//! When a package was last used.
use vstd::prelude::*;

use crate::model;
use crate::model::AtimeSupport;
use crate::split;
use crate::text;
use crate::usage;
use crate::usage::Sighting;

verus! {

/// Whether a path begins with a text.
pub open spec fn begins(path: Seq<char>, front: Seq<char>) -> bool {
    path.len() >= front.len() && path.take(front.len() as int) == front
}

/// Whether a path finishes with a text.
pub open spec fn finishes(path: Seq<char>, end: Seq<char>) -> bool {
    path.len() >= end.len() && path.skip(path.len() - end.len()) == end
}

/// Whether a path is read without the software being used: documentation,
/// translations, headers and sources, and files that tooling touches.
pub open spec fn says_nothing(path: Seq<char>) -> bool {
    ||| begins(path, "usr/share/man/"@)
    ||| begins(path, "usr/share/doc/"@)
    ||| begins(path, "usr/share/info/"@)
    ||| begins(path, "usr/share/licenses/"@)
    ||| begins(path, "usr/share/help/"@)
    ||| begins(path, "usr/share/locale/"@)
    ||| begins(path, "usr/include/"@)
    ||| begins(path, "usr/src/"@)
    ||| finishes(path, ".pc"@)
    ||| finishes(path, ".h"@)
    ||| finishes(path, ".hpp"@)
    ||| finishes(path, ".a"@)
    ||| finishes(path, ".pyc"@)
    ||| finishes(path, ".mo"@)
}

/// Whether a path lies where executables are installed.
pub open spec fn runs(path: Seq<char>) -> bool {
    ||| begins(path, "usr/bin/"@)
    ||| begins(path, "usr/local/bin/"@)
    ||| begins(path, "usr/libexec/"@)
    ||| begins(path, "usr/lib/systemd/"@)
    ||| begins(path, "opt/"@)
}

/// Whether a path lies where libraries are installed.
pub open spec fn is_linked(path: Seq<char>) -> bool {
    ||| begins(path, "usr/lib/"@)
    ||| begins(path, "usr/lib32/"@)
    ||| begins(path, "usr/local/lib/"@)
}

/// Whether a path lies where data is installed.
pub open spec fn is_read(path: Seq<char>) -> bool {
    ||| begins(path, "usr/share/"@)
    ||| begins(path, "usr/local/share/"@)
    ||| begins(path, "var/lib/"@)
}

/// What lies among the executables is the strongest evidence there is.
pub proof fn executables_come_first(path: Seq<char>)
    ensures
        runs(path) && !says_nothing(path) ==> usage::tier_of(path) == Some(0usize),
        usage::tier_of(path) == Some(0usize) ==> runs(path) && !says_nothing(path),
{
}

/// Libraries come behind executables, data behind libraries, and everything
/// else behind data.
pub proof fn weaker_evidence_comes_behind(path: Seq<char>)
    ensures
        !says_nothing(path) && !runs(path) && is_linked(path) ==> usage::tier_of(path) == Some(1usize),
        !says_nothing(path) && !runs(path) && !is_linked(path) && is_read(path) ==> usage::tier_of(
            path,
        ) == Some(2usize),
        !says_nothing(path) && !runs(path) && !is_linked(path) && !is_read(path) ==> usage::tier_of(
            path,
        ) == Some(3usize),
{
}

/// Documentation, translations, headers and what tooling touches are no
/// evidence, wherever they lie, and every other path is some.
pub proof fn noise_is_no_evidence(path: Seq<char>)
    ensures
        says_nothing(path) <==> usage::tier_of(path) is None,
{
}

proof fn lemma_best(files: Seq<Seq<char>>)
    ensures
        usage::best_tier(files) <= 4,
        forall|i: int|
            0 <= i < files.len() ==> (usage::tier_of(#[trigger] files[i]) matches Some(tier)
                ==> usage::best_tier(files) <= tier),
        usage::best_tier(files) < 4 ==> exists|i: int|
            0 <= i < files.len() && usage::tier_of(#[trigger] files[i]) == Some(
                usage::best_tier(files),
            ),
    decreases files.len(),
{
    if files.len() > 0 {
        let front = files.drop_last();
        lemma_best(front);
        assert forall|i: int| 0 <= i < files.len() implies (usage::tier_of(
            #[trigger] files[i],
        ) matches Some(tier) ==> usage::best_tier(files) <= tier) by {
            if i < front.len() {
                assert(front[i] == files[i]);
            }
        }
        if usage::best_tier(files) < 4 {
            if usage::best_tier(files) == usage::best_tier(front) {
                let i = choose|i: int|
                    0 <= i < front.len() && usage::tier_of(#[trigger] front[i]) == Some(
                        usage::best_tier(front),
                    );
                assert(files[i] == front[i]);
            } else {
                assert(files[files.len() - 1] == files.last());
            }
        }
    }
}

/// Whether a list of witnesses is the first so many of the files that pass a
/// test.
pub open spec fn are_the_first(
    witnesses: Seq<Seq<char>>,
    files: Seq<Seq<char>>,
    which: spec_fn(Seq<char>) -> bool,
    budget: nat,
) -> bool {
    let all = files.filter(which);
    witnesses == all.take(if all.len() <= budget {
        all.len() as int
    } else {
        budget as int
    })
}

proof fn lemma_same_filter(
    files: Seq<Seq<char>>,
    p: spec_fn(Seq<char>) -> bool,
    q: spec_fn(Seq<char>) -> bool,
)
    requires
        forall|i: int| 0 <= i < files.len() ==> p(#[trigger] files[i]) == q(files[i]),
    ensures
        files.filter(p) == files.filter(q),
    decreases files.len(),
{
    reveal(Seq::filter);
    if files.len() > 0 {
        assert(files.last() == files[files.len() - 1]);
        assert forall|i: int| 0 <= i < files.drop_last().len() implies p(
            #[trigger] files.drop_last()[i],
        ) == q(files.drop_last()[i]) by {
            assert(files.drop_last()[i] == files[i]);
        }
        lemma_same_filter(files.drop_last(), p, q);
    }
}

/// A package that ships executables is judged by them alone: the witnesses are
/// the first of them, as many as may be looked at, and a stray read of anything
/// else cannot vouch for it.
pub proof fn executables_are_judged_alone(files: Seq<Seq<char>>, budget: nat, i: int)
    requires
        0 <= i < files.len(),
        runs(files[i]),
        !says_nothing(files[i]),
    ensures
        are_the_first(
            usage::chosen_witnesses(files, budget),
            files,
            |path: Seq<char>| runs(path) && !says_nothing(path),
            budget,
        ),
{
    executables_come_first(files[i]);
    lemma_best(files);
    assert(usage::tier_of(files[i]) matches Some(tier) ==> usage::best_tier(files) <= tier);
    assert(usage::best_tier(files) == 0);
    let by_tier = |path: Seq<char>| usage::tier_of(path) == Some(0usize);
    let by_place = |path: Seq<char>| runs(path) && !says_nothing(path);
    assert forall|k: int| 0 <= k < files.len() implies by_tier(#[trigger] files[k]) == by_place(
        files[k],
    ) by {
        executables_come_first(files[k]);
    }
    lemma_same_filter(files, by_tier, by_place);
    assert(usage::in_tier(files, 0) == files.filter(by_tier));
    let all = files.filter(by_place);
    assert(all.take(all.len() as int) =~= all);
}

/// A package without executables is judged by its libraries, one without those
/// by its data, and one without any of them by whatever else it ships.
pub proof fn the_best_that_is_shipped_decides(files: Seq<Seq<char>>, budget: nat, i: int)
    requires
        0 <= i < files.len(),
        !says_nothing(files[i]),
        forall|k: int| 0 <= k < files.len() && !says_nothing(#[trigger] files[k]) ==> !runs(files[k]),
    ensures
        is_linked(files[i]) ==> are_the_first(
            usage::chosen_witnesses(files, budget),
            files,
            |path: Seq<char>| is_linked(path) && !runs(path) && !says_nothing(path),
            budget,
        ),
        is_read(files[i]) && (forall|k: int|
            0 <= k < files.len() && !says_nothing(#[trigger] files[k]) ==> !is_linked(files[k]))
            ==> are_the_first(
            usage::chosen_witnesses(files, budget),
            files,
            |path: Seq<char>| is_read(path) && !says_nothing(path),
            budget,
        ),
        (forall|k: int|
            0 <= k < files.len() && !says_nothing(#[trigger] files[k]) ==> !is_linked(files[k])
                && !is_read(files[k])) ==> are_the_first(
            usage::chosen_witnesses(files, budget),
            files,
            |path: Seq<char>| !says_nothing(path),
            budget,
        ),
{
    lemma_best(files);
    assert forall|k: int| 0 <= k < files.len() implies usage::tier_of(#[trigger] files[k]) != Some(
        0usize,
    ) by {
        executables_come_first(files[k]);
    }
    noise_is_no_evidence(files[i]);
    assert(usage::tier_of(files[i]) matches Some(tier) ==> usage::best_tier(files) <= tier);
    let best = usage::best_tier(files);
    assert(1 <= best < 4);
    let found = choose|k: int|
        0 <= k < files.len() && usage::tier_of(#[trigger] files[k]) == Some(best);
    noise_is_no_evidence(files[found]);
    weaker_evidence_comes_behind(files[found]);
    weaker_evidence_comes_behind(files[i]);
    let by_tier = |path: Seq<char>| usage::tier_of(path) == Some(best);
    assert(usage::in_tier(files, best) == files.filter(by_tier));
    let chosen = usage::chosen_witnesses(files, budget);
    let every = files.filter(by_tier);
    assert(every.take(every.len() as int) =~= every);
    if is_linked(files[i]) {
        let by_place = |path: Seq<char>| is_linked(path) && !runs(path) && !says_nothing(path);
        assert forall|k: int| 0 <= k < files.len() implies by_tier(#[trigger] files[k]) == by_place(
            files[k],
        ) by {
            noise_is_no_evidence(files[k]);
            weaker_evidence_comes_behind(files[k]);
        }
        lemma_same_filter(files, by_tier, by_place);
    }
    if is_read(files[i]) && (forall|k: int|
        0 <= k < files.len() && !says_nothing(#[trigger] files[k]) ==> !is_linked(files[k])) {
        let by_place = |path: Seq<char>| is_read(path) && !says_nothing(path);
        assert(!is_linked(files[found]));
        assert forall|k: int| 0 <= k < files.len() implies by_tier(#[trigger] files[k]) == by_place(
            files[k],
        ) by {
            noise_is_no_evidence(files[k]);
            weaker_evidence_comes_behind(files[k]);
        }
        lemma_same_filter(files, by_tier, by_place);
    }
    if forall|k: int|
        0 <= k < files.len() && !says_nothing(#[trigger] files[k]) ==> !is_linked(files[k])
            && !is_read(files[k]) {
        let by_place = |path: Seq<char>| !says_nothing(path);
        assert forall|k: int| 0 <= k < files.len() implies by_tier(#[trigger] files[k]) == by_place(
            files[k],
        ) by {
            noise_is_no_evidence(files[k]);
            weaker_evidence_comes_behind(files[k]);
        }
        lemma_same_filter(files, by_tier, by_place);
    }
}

/// A package that ships nothing but documentation and the like has no witness.
pub proof fn documentation_alone_gives_no_witness(files: Seq<Seq<char>>, budget: nat)
    requires
        forall|k: int| 0 <= k < files.len() ==> says_nothing(#[trigger] files[k]),
    ensures
        usage::chosen_witnesses(files, budget).len() == 0,
{
    assert forall|k: int| 0 <= k < files.len() implies usage::has_noise_prefix(#[trigger] files[k])
        || usage::has_noise_suffix(files[k]) by {
        assert(says_nothing(files[k]));
        noise_is_no_evidence(files[k]);
    }
    usage::documentation_is_never_looked_at(files, budget, 0);
}

proof fn lemma_newest(seen: Seq<Sighting>, k: int)
    requires
        0 <= k < seen.len(),
        forall|i: int| 0 <= i < seen.len() ==> (#[trigger] seen[i]).1 <= seen[k].1,
        forall|i: int| k < i < seen.len() ==> (#[trigger] seen[i]).1 < seen[k].1,
    ensures
        usage::newest(seen) == Some(seen[k]),
    decreases seen.len(),
{
    let front = seen.drop_last();
    assert(seen.last() == seen[seen.len() - 1]);
    if k < front.len() {
        assert forall|i: int| 0 <= i < front.len() implies (#[trigger] front[i]).1 <= front[k].1 by {
            assert(front[i] == seen[i]);
        }
        assert forall|i: int| k < i < front.len() implies (#[trigger] front[i]).1 < front[k].1 by {
            assert(front[i] == seen[i]);
        }
        lemma_newest(front, k);
        assert(seen[seen.len() - 1].1 < seen[k].1);
    } else if front.len() > 0 {
        usage::newest_is_newest(front, 0);
        let best = usage::newest(front).unwrap();
        let i = choose|i: int| 0 <= i < front.len() && front[i] == best;
        assert(seen[i] == best);
    }
}

/// Where access times work, the newest one decides. Within a quarter of an hour
/// of the installation it means that nothing was read since; later, or where no
/// installation is recorded, it is when the package was last used.
pub proof fn the_newest_read_decides(
    seen: Seq<Sighting>,
    k: int,
    install_date: Option<i64>,
    support: AtimeSupport,
)
    requires
        support != AtimeSupport::Disabled,
        0 <= k < seen.len(),
        forall|i: int| 0 <= i < seen.len() ==> (#[trigger] seen[i]).1 <= seen[k].1,
        forall|i: int| k < i < seen.len() ==> (#[trigger] seen[i]).1 < seen[k].1,
    ensures
        install_date matches Some(date) ==> seen[k].1 <= date + 900 ==> usage::verdict(
            seen,
            None,
            install_date,
            support,
        ) == (model::UsageView::NeverSinceInstall { at: seen[k].1 }),
        install_date matches Some(date) ==> seen[k].1 > date + 900 ==> usage::verdict(
            seen,
            None,
            install_date,
            support,
        ) == (model::UsageView::Used { at: seen[k].1, witness: seen[k].0 }),
        install_date is None ==> usage::verdict(seen, None, install_date, support) == (
        model::UsageView::Used { at: seen[k].1, witness: seen[k].0 }),
{
    lemma_newest(seen, k);
}

/// Without anything to look at, and without anything written in the home
/// directory, nothing can be said; where access times are frozen, nothing is
/// said whatever was seen.
pub proof fn without_evidence_nothing_is_said(
    seen: Seq<Sighting>,
    install_date: Option<i64>,
    support: AtimeSupport,
)
    ensures
        support == AtimeSupport::Disabled ==> usage::verdict(seen, None, install_date, support)
            == model::UsageView::AtimeDisabled,
        support != AtimeSupport::Disabled && seen.len() == 0 ==> usage::verdict(
            seen,
            None,
            install_date,
            support,
        ) == model::UsageView::NoWitness,
{
}

/// Something written in the home directory dates a package unless a read is at
/// least as recent; it contradicts that nothing was read since the
/// installation if it is later than every read, and it is all there is where
/// access times are frozen or nothing could be looked at.
pub proof fn home_activity_counts(
    seen: Seq<Sighting>,
    home: Sighting,
    install_date: Option<i64>,
    support: AtimeSupport,
)
    ensures
        ({
            let alone = usage::verdict(seen, None, install_date, support);
            let both = usage::verdict(seen, Some(home), install_date, support);
            let dated = model::UsageView::UsedFromHome { at: home.1, witness: home.0 };
            &&& (support == AtimeSupport::Disabled || seen.len() == 0) ==> both == dated
            &&& alone matches model::UsageView::Used { at, .. } ==> both == (if at >= home.1 {
                alone
            } else {
                dated
            })
            &&& alone matches model::UsageView::NeverSinceInstall { at } ==> both == (if home.1
                > at {
                dated
            } else {
                alone
            })
        }),
{
}

/// The names under which a package keeps state are its own and those of its
/// binaries, in lower case, each once, and no other.
pub proof fn state_goes_by_the_names_of_binaries(
    package: Seq<char>,
    files: Seq<Seq<char>>,
    name: Seq<char>,
)
    ensures
        usage::state_names(package, files).contains(name) <==> name == text::lowercase(package) || (
        name.len() > 0 && exists|i: int, binary: Seq<char>|
            0 <= i < files.len() && !binary.contains('/') && name == #[trigger] text::lowercase(
                binary,
            ) && (#[trigger] files[i] == "usr/bin/"@ + binary || files[i] == "usr/local/bin/"@
                + binary)),
        usage::state_names(package, files)[0] == text::lowercase(package),
        usage::state_names(package, files).no_duplicates(),
    decreases files.len(),
{
    let all = usage::state_names(package, files);
    if files.len() == 0 {
        assert(all[0] == text::lowercase(package));
    } else {
        let front = files.drop_last();
        let last = files.last();
        assert(last == files[files.len() - 1]);
        state_goes_by_the_names_of_binaries(package, front, name);
        let before = usage::state_names(package, front);
        assert(before.len() > 0) by {
            lemma_some_name(package, front);
        }
        reveal_strlit("usr/bin/");
        reveal_strlit("usr/local/bin/");
        let short = "usr/bin/"@;
        let long = "usr/local/bin/"@;
        match usage::binary_of(last) {
            Some(binary) => {
                let added = text::lowercase(binary);
                assert(last == short + binary || last == long + binary) by {
                    if text::starts(last, short) {
                        assert(last =~= short + last.skip(short.len() as int));
                    } else {
                        assert(last =~= long + last.skip(long.len() as int));
                    }
                }
                if added.len() > 0 && !before.contains(added) {
                    crate::sets::lemma_push_contains(before, added);
                }
            },
            None => {},
        }
        if all.contains(name) && name != text::lowercase(package) {
            if before.contains(name) {
                let (i, binary) = choose|i: int, binary: Seq<char>|
                    0 <= i < front.len() && !binary.contains('/') && name
                        == #[trigger] text::lowercase(binary) && (#[trigger] front[i] == short
                        + binary || front[i] == long + binary);
                assert(files[i] == front[i]);
                assert(name == text::lowercase(binary));
            } else {
                let binary = usage::binary_of(last).unwrap();
                assert(name == text::lowercase(binary));
                assert(files[files.len() - 1] == short + binary || files[files.len() - 1] == long
                    + binary);
            }
        }
        if name.len() > 0 && exists|i: int, binary: Seq<char>|
            0 <= i < files.len() && !binary.contains('/') && name == #[trigger] text::lowercase(
                binary,
            ) && (#[trigger] files[i] == short + binary || files[i] == long + binary) {
            let (i, binary) = choose|i: int, binary: Seq<char>|
                0 <= i < files.len() && !binary.contains('/') && name == #[trigger] text::lowercase(
                    binary,
                ) && (#[trigger] files[i] == short + binary || files[i] == long + binary);
            if i < front.len() {
                assert(front[i] == files[i]);
                assert(name == text::lowercase(binary));
                assert(before.contains(name));
            } else {
                if last == short + binary {
                    assert(last.take(short.len() as int) =~= short);
                    assert(last.skip(short.len() as int) =~= binary);
                } else {
                    assert(last.take(long.len() as int) =~= long);
                    assert(last.skip(long.len() as int) =~= binary);
                    assert(last[4] == long[4]);
                    assert(!text::starts(last, short)) by {
                        if text::starts(last, short) {
                            assert(last.take(short.len() as int)[4] == last[4]);
                        }
                    }
                }
                assert(usage::binary_of(last) == Some(binary));
            }
        }
    }
}

proof fn lemma_some_name(package: Seq<char>, files: Seq<Seq<char>>)
    ensures
        usage::state_names(package, files).len() > 0,
    decreases files.len(),
{
    if files.len() > 0 {
        lemma_some_name(package, files.drop_last());
    }
}

} // verus!
