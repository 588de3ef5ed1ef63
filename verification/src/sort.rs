//! Sorting, stable and with a unique result.
use vstd::prelude::*;

use crate::text;
use crate::text::at_most;

verus! {

/// Whether `p` lists the numbers from 0 up to `n`, each once.
pub open spec fn is_listing(p: Seq<usize>, n: nat) -> bool {
    &&& p.len() == n
    &&& forall|i: int| 0 <= i < p.len() ==> #[trigger] p[i] < n
    &&& forall|i: int, j: int| 0 <= i < j < p.len() ==> p[i] != p[j]
}

/// Whether `p` is ascending by `le`, and by number where `le` does not decide.
pub open spec fn is_ascending(p: Seq<usize>, le: spec_fn(int, int) -> bool) -> bool {
    forall|i: int, j: int|
        0 <= i < j < p.len() ==> {
            &&& le(#[trigger] p[i] as int, #[trigger] p[j] as int)
            &&& le(p[j] as int, p[i] as int) ==> p[i] < p[j]
        }
}

/// Whether `le` compares any two numbers below `n`, and consistently.
pub open spec fn is_preorder(le: spec_fn(int, int) -> bool, n: nat) -> bool {
    &&& forall|a: int, b: int|
        0 <= a < n && 0 <= b < n ==> #[trigger] le(a, b) || #[trigger] le(b, a)
    &&& forall|a: int, b: int, c: int|
        0 <= a < n && 0 <= b < n && 0 <= c < n && #[trigger] le(a, b) && #[trigger] le(b, c)
            ==> le(a, c)
}

/// The numbers from 0 up to `n`, ascending by `le`. Equal ones stay in order.
pub open spec fn stable_order(le: spec_fn(int, int) -> bool, n: nat) -> Seq<usize> {
    choose|p: Seq<usize>| is_listing(p, n) && is_ascending(p, le)
}

/// The numbers from 0 up to `n`, ascending by `le`. Equal ones stay in order.
pub fn sorted_positions<F: Fn(usize, usize) -> bool>(
    n: usize,
    at_or_before: F,
    Ghost(le): Ghost<spec_fn(int, int) -> bool>,
) -> (r: Vec<usize>)
    requires
        is_preorder(le, n as nat),
        forall|a: usize, b: usize| a < n && b < n ==> call_requires(at_or_before, (a, b)),
        forall|a: usize, b: usize, r: bool|
            a < n && b < n && call_ensures(at_or_before, (a, b), r) ==> r == le(
                a as int,
                b as int,
            ),
    ensures
        is_listing(r@, n as nat),
        is_ascending(r@, le),
        r@ == stable_order(le, n as nat),
{
    let mut out: Vec<usize> = Vec::new();
    let mut k: usize = 0;
    while k < n
        invariant
            k <= n,
            is_preorder(le, n as nat),
            forall|a: usize, b: usize| a < n && b < n ==> call_requires(at_or_before, (a, b)),
            forall|a: usize, b: usize, r: bool|
                a < n && b < n && call_ensures(at_or_before, (a, b), r) ==> r == le(
                    a as int,
                    b as int,
                ),
            is_listing(out@, k as nat),
            is_ascending(out@, le),
        decreases n - k,
    {
        // The place behind everything that comes before `k` or is equal to it.
        let mut low: usize = 0;
        let mut high: usize = out.len();
        while low < high
            invariant
                k < n,
                low <= high <= out.len(),
                is_preorder(le, n as nat),
                forall|a: usize, b: usize| a < n && b < n ==> call_requires(at_or_before, (a, b)),
                forall|a: usize, b: usize, r: bool|
                    a < n && b < n && call_ensures(at_or_before, (a, b), r) ==> r == le(
                        a as int,
                        b as int,
                    ),
                is_listing(out@, k as nat),
                is_ascending(out@, le),
                forall|i: int| 0 <= i < low ==> le(#[trigger] out@[i] as int, k as int),
                forall|i: int| high <= i < out.len() ==> !le(#[trigger] out@[i] as int, k as int),
            decreases high - low,
        {
            let middle: usize = low + (high - low) / 2;
            let candidate: usize = out[middle];
            if at_or_before(candidate, k) {
                assert forall|i: int| 0 <= i < middle + 1 implies le(
                    #[trigger] out@[i] as int,
                    k as int,
                ) by {
                    if i < middle {
                        assert(le(out@[i] as int, out@[middle as int] as int));
                    }
                }
                low = middle + 1;
            } else {
                assert forall|i: int| middle <= i < out.len() implies !le(
                    #[trigger] out@[i] as int,
                    k as int,
                ) by {
                    if i > middle {
                        assert(le(out@[middle as int] as int, out@[i] as int));
                    }
                }
                high = middle;
            }
        }
        let ghost before = out@;
        out.insert(low, k);
        proof {
            let after = before.insert(low as int, k);
            assert forall|i: int, j: int| 0 <= i < j < after.len() implies ({
                &&& le(#[trigger] after[i] as int, #[trigger] after[j] as int)
                &&& le(after[j] as int, after[i] as int) ==> after[i] < after[j]
            }) by {
                let a = if i < low {
                    i
                } else {
                    i - 1
                };
                let b = if j < low {
                    j
                } else {
                    j - 1
                };
                if i == low {
                    assert(after[j] == before[b]);
                    assert(!le(before[b] as int, k as int));
                } else if j == low {
                    assert(after[i] == before[a]);
                    assert(le(before[a] as int, k as int));
                } else {
                    assert(after[i] == before[a]);
                    assert(after[j] == before[b]);
                }
            }
            assert forall|i: int| 0 <= i < after.len() implies #[trigger] after[i] < k + 1 by {
                if i < low {
                    assert(after[i] == before[i]);
                } else if i > low {
                    assert(after[i] == before[i - 1]);
                }
            }
            assert forall|i: int, j: int| 0 <= i < j < after.len() implies after[i] != after[j] by {
                let a = if i < low {
                    i
                } else {
                    i - 1
                };
                let b = if j < low {
                    j
                } else {
                    j - 1
                };
                if i == low {
                    assert(after[j] == before[b]);
                } else if j == low {
                    assert(after[i] == before[a]);
                } else {
                    assert(before[a] != before[b]);
                }
            }
        }
        k += 1;
    }
    proof {
        let p = stable_order(le, n as nat);
        assert(is_listing(p, n as nat) && is_ascending(p, le));
        assert forall|x: usize| out@.contains(x) <==> p.contains(x) by {
            if x < n {
                lemma_listing_covers(out@, n as nat, x);
                lemma_listing_covers(p, n as nat, x);
            }
        }
        ascending_lists_agree(out@, p, le);
    }
    out
}

/// Where a number belongs in an ascending list: behind everything that does
/// not come behind it.
proof fn lemma_split_point(
    q: Seq<usize>,
    le: spec_fn(int, int) -> bool,
    n: nat,
    x: usize,
    from: int,
) -> (m: int)
    requires
        is_preorder(le, n),
        is_ascending(q, le),
        forall|i: int| 0 <= i < q.len() ==> #[trigger] q[i] < n,
        x < n,
        0 <= from <= q.len(),
        forall|i: int| 0 <= i < from ==> le(#[trigger] q[i] as int, x as int),
    ensures
        from <= m <= q.len(),
        forall|i: int| 0 <= i < m ==> le(#[trigger] q[i] as int, x as int),
        forall|i: int| m <= i < q.len() ==> !le(#[trigger] q[i] as int, x as int),
    decreases q.len() - from,
{
    if from == q.len() {
        from
    } else if le(q[from] as int, x as int) {
        lemma_split_point(q, le, n, x, from + 1)
    } else {
        assert forall|i: int| from <= i < q.len() implies !le(#[trigger] q[i] as int, x as int) by {
            if i > from && le(q[i] as int, x as int) {
                assert(le(q[from] as int, q[i] as int));
            }
        }
        from
    }
}

proof fn lemma_sorted_listing(le: spec_fn(int, int) -> bool, n: nat) -> (p: Seq<usize>)
    requires
        is_preorder(le, n),
        n <= usize::MAX,
    ensures
        is_listing(p, n),
        is_ascending(p, le),
    decreases n,
{
    if n == 0 {
        Seq::empty()
    } else {
        let q = lemma_sorted_listing(le, (n - 1) as nat);
        let x = (n - 1) as usize;
        let m = lemma_split_point(q, le, n, x, 0);
        let p = q.insert(m, x);
        assert forall|i: int| 0 <= i < p.len() implies #[trigger] p[i] < n by {
            if i < m {
                assert(p[i] == q[i]);
            } else if i > m {
                assert(p[i] == q[i - 1]);
            }
        }
        assert forall|i: int, j: int| 0 <= i < j < p.len() implies ({
            &&& le(#[trigger] p[i] as int, #[trigger] p[j] as int)
            &&& le(p[j] as int, p[i] as int) ==> p[i] < p[j]
        }) by {
            let a = if i < m {
                i
            } else {
                i - 1
            };
            let b = if j < m {
                j
            } else {
                j - 1
            };
            if i == m {
                assert(p[j] == q[b]);
                assert(!le(q[b] as int, x as int));
                assert(le(q[b] as int, x as int) || le(x as int, q[b] as int));
            } else if j == m {
                assert(p[i] == q[a]);
                assert(le(q[a] as int, x as int));
            } else {
                assert(p[i] == q[a] && p[j] == q[b]);
            }
        }
        assert forall|i: int, j: int| 0 <= i < j < p.len() implies p[i] != p[j] by {
            let a = if i < m {
                i
            } else {
                i - 1
            };
            let b = if j < m {
                j
            } else {
                j - 1
            };
            if i == m {
                assert(p[j] == q[b]);
            } else if j == m {
                assert(p[i] == q[a]);
            } else {
                assert(q[a] != q[b]);
            }
        }
        p
    }
}

/// Whatever can be compared consistently can be put in order.
pub proof fn stable_order_exists(le: spec_fn(int, int) -> bool, n: nat)
    requires
        is_preorder(le, n),
        n <= usize::MAX,
    ensures
        is_listing(stable_order(le, n), n),
        is_ascending(stable_order(le, n), le),
{
    let p = lemma_sorted_listing(le, n);
    assert(is_listing(p, n) && is_ascending(p, le));
}

/// A listing holds every number.
pub proof fn lemma_listing_covers(p: Seq<usize>, n: nat, k: usize)
    requires
        is_listing(p, n),
        k < n,
    ensures
        p.contains(k),
    decreases n,
{
    // Map the listing to a set of the same size inside the set of all numbers
    // below `n`, which has no room for another one.
    let ints = p.map_values(|x: usize| x as int);
    let s = ints.to_set();
    assert(ints.no_duplicates());
    ints.unique_seq_to_set();
    let all = vstd::set_lib::set_int_range(0, n as int);
    vstd::set_lib::lemma_int_range(0, n as int);
    assert(s.subset_of(all)) by {
        assert forall|x: int| s.contains(x) implies all.contains(x) by {
            let i = choose|i: int| 0 <= i < ints.len() && ints[i] == x;
            assert(p[i] < n);
        }
    }
    vstd::set_lib::lemma_subset_equality(s, all);
    assert(all.contains(k as int));
    assert(s.contains(k as int));
    let i = choose|i: int| 0 <= i < ints.len() && ints[i] == k as int;
    assert(p[i] == k);
}

/// What stands at the listed places, in the order of the listing.
pub open spec fn taken_by<A>(s: Seq<A>, p: Seq<usize>) -> Seq<A> {
    Seq::new(p.len(), |k: int| s[p[k] as int])
}

/// Lists of the same numbers that are both ascending are the same list.
pub proof fn ascending_lists_agree(p: Seq<usize>, q: Seq<usize>, le: spec_fn(int, int) -> bool)
    requires
        p.no_duplicates(),
        q.no_duplicates(),
        forall|x: usize| p.contains(x) <==> q.contains(x),
        is_ascending(p, le),
        is_ascending(q, le),
    ensures
        p == q,
{
    p.unique_seq_to_set();
    q.unique_seq_to_set();
    assert(p.to_set() =~= q.to_set());
    if p != q {
        assert(exists|i: int| 0 <= i < p.len() && p[i] != q[i]) by {
            if forall|i: int| 0 <= i < p.len() ==> p[i] == q[i] {
                assert(p =~= q);
            }
        }
        let i = lemma_first_difference(p, q, 0);
        assert(q.contains(p[i]) && p.contains(q[i]));
        let j = choose|j: int| 0 <= j < q.len() && q[j] == p[i];
        let m = choose|m: int| 0 <= m < p.len() && p[m] == q[i];
        // Neither element stands earlier, where the two lists agree.
        assert(j > i) by {
            if j < i {
                assert(p[j] == q[j]);
            }
        }
        assert(m > i) by {
            if m < i {
                assert(p[m] == q[m]);
            }
        }
        assert(le(q[i] as int, q[j] as int));
        assert(le(p[i] as int, p[m] as int));
        assert(p[i] < p[m]);
        assert(q[i] < q[j]);
    }
}

proof fn lemma_first_difference(p: Seq<usize>, q: Seq<usize>, from: int) -> (i: int)
    requires
        0 <= from <= p.len(),
        p.len() == q.len(),
        forall|k: int| 0 <= k < from ==> p[k] == q[k],
        exists|k: int| 0 <= k < p.len() && p[k] != q[k],
    ensures
        0 <= i < p.len(),
        p[i] != q[i],
        forall|k: int| 0 <= k < i ==> p[k] == q[k],
    decreases p.len() - from,
{
    if from < p.len() && p[from] != q[from] {
        from
    } else {
        lemma_first_difference(p, q, from + 1)
    }
}

// ---------------------------------------------------------------------------
// Sorting texts
// ---------------------------------------------------------------------------

/// The order of texts, as a relation between their positions.
pub open spec fn text_position_order(keys: Seq<Seq<char>>) -> spec_fn(int, int) -> bool {
    |a: int, b: int| text::text_le(keys[a], keys[b])
}

/// The positions of texts, in the order of the texts. Equal ones stay in
/// order.
pub open spec fn text_positions(keys: Seq<Seq<char>>) -> Seq<usize> {
    stable_order(text_position_order(keys), keys.len())
}

/// The positions of texts, in the order of the texts.
pub fn positions_by_text(keys: &Vec<&str>) -> (r: Vec<usize>)
    ensures
        r@ == text_positions(text::str_texts(keys@)),
        is_listing(r@, keys@.len()),
{
    let ghost all = text::str_texts(keys@);
    let ghost le = text_position_order(all);
    proof {
        text::text_order_is_total();
    }
    let at_or_before = |a: usize, b: usize| -> (r: bool)
        requires
            a < keys.len(),
            b < keys.len(),
        ensures
            r == text::text_le(keys@[a as int]@, keys@[b as int]@),
        { at_most(keys[a], keys[b]) };
    sorted_positions(keys.len(), at_or_before, Ghost(le))
}

/// The texts in order.
pub open spec fn sort_texts(s: Seq<Seq<char>>) -> Seq<Seq<char>> {
    s.sort_by(text_order())
}

/// The order of texts, as a relation.
pub open spec fn text_order() -> spec_fn(Seq<char>, Seq<char>) -> bool {
    |a: Seq<char>, b: Seq<char>| text::text_le(a, b)
}

/// Inserts a text into a list that is in order, keeping it in order.
fn insert_text(v: &mut Vec<String>, s: String)
    requires
        vstd::relations::sorted_by(text::texts(old(v)@), text_order()),
    ensures
        vstd::relations::sorted_by(text::texts(final(v)@), text_order()),
        text::texts(final(v)@).to_multiset() == text::texts(old(v)@).to_multiset().insert(s@),
{
    let ghost le = text_order();
    let ghost before = text::texts(v@);
    let ghost x = s@;
    proof {
        text::text_order_is_total();
    }
    let mut low: usize = 0;
    let mut high: usize = v.len();
    while low < high
        invariant
            low <= high <= v.len(),
            v@ == old(v)@,
            before == text::texts(v@),
            x == s@,
            le == text_order(),
            vstd::relations::sorted_by(before, le),
            forall|i: int| 0 <= i < low ==> text::text_le(#[trigger] before[i], x),
            forall|i: int| high <= i < before.len() ==> text::text_le(x, #[trigger] before[i]),
        decreases high - low,
    {
        proof {
            text::text_order_is_total();
        }
        let middle: usize = low + (high - low) / 2;
        assert(before[middle as int] == v@[middle as int]@);
        if at_most(v[middle].as_str(), s.as_str()) {
            assert forall|i: int| 0 <= i < middle + 1 implies text::text_le(
                #[trigger] before[i],
                x,
            ) by {
                if i < middle {
                    assert(le(before[i], before[middle as int]));
                }
            }
            low = middle + 1;
        } else {
            assert forall|i: int| middle <= i < before.len() implies text::text_le(
                x,
                #[trigger] before[i],
            ) by {
                if i > middle {
                    assert(le(before[middle as int], before[i]));
                }
            }
            high = middle;
        }
    }
    v.insert(low, s);
    proof {
        let after = text::texts(v@);
        assert(after =~= before.insert(low as int, x));
        before.to_multiset_ensures();
        lemma_insert_multiset(before, low as int, x);
        assert forall|i: int, j: int| 0 <= i < j < after.len() implies #[trigger] le(
            after[i],
            after[j],
        ) by {
            let a = if i < low {
                i
            } else {
                i - 1
            };
            let b = if j < low {
                j
            } else {
                j - 1
            };
            if i == low {
                assert(after[j] == before[b]);
            } else if j == low {
                assert(after[i] == before[a]);
            } else {
                assert(le(before[a], before[b]));
            }
        }
    }
}

proof fn lemma_insert_multiset<A>(s: Seq<A>, i: int, a: A)
    requires
        0 <= i <= s.len(),
    ensures
        s.insert(i, a).to_multiset() == s.to_multiset().insert(a),
{
    let t = s.insert(i, a);
    t.to_multiset_ensures();
    assert(t.remove(i) =~= s);
    assert(t.remove(i).to_multiset() == t.to_multiset().remove(t[i]));
    assert(t[i] == a);
    assert(t.contains(a));
    assert(t.to_multiset() =~= s.to_multiset().insert(a));
}

/// The list, in order.
pub fn sorted_texts(v: &Vec<String>) -> (r: Vec<String>)
    ensures
        text::texts(r@) == sort_texts(text::texts(v@)),
{
    let ghost le = text_order();
    let mut out: Vec<String> = Vec::new();
    let mut i: usize = 0;
    proof {
        assert(text::texts(v@).take(0) =~= text::texts(out@));
    }
    while i < v.len()
        invariant
            i <= v.len(),
            le == text_order(),
            vstd::relations::sorted_by(text::texts(out@), le),
            text::texts(out@).to_multiset() == text::texts(v@).take(i as int).to_multiset(),
        decreases v.len() - i,
    {
        proof {
            let t = text::texts(v@);
            assert(t.take(i + 1) =~= t.take(i as int).push(v@[i as int]@));
            t.take(i as int).to_multiset_ensures();
        }
        insert_text(&mut out, v[i].clone());
        i += 1;
    }
    proof {
        let t = text::texts(v@);
        assert(t.take(t.len() as int) =~= t);
        text::text_order_is_total();
        t.lemma_sort_by_ensures(le);
        vstd::seq_lib::lemma_sorted_unique(text::texts(out@), t.sort_by(le), le);
    }
    out
}

/// Whether texts are in order, with no text twice.
pub open spec fn strictly_ascending(s: Seq<Seq<char>>) -> bool {
    forall|i: int, j: int|
        0 <= i < j < s.len() ==> text::text_le(#[trigger] s[i], #[trigger] s[j]) && s[i] != s[j]
}

/// The list in order, each text once.
pub fn sorted_unique(v: &Vec<String>) -> (r: Vec<String>)
    ensures
        strictly_ascending(text::texts(r@)),
        forall|s: Seq<char>| #[trigger]
            text::texts(r@).contains(s) <==> text::texts(v@).contains(s),
{
    let sorted = sorted_texts(v);
    let ghost all = text::texts(sorted@);
    proof {
        text::text_order_is_total();
        text::texts(v@).lemma_sort_by_ensures(text_order());
        text::texts(v@).to_multiset_ensures();
        all.to_multiset_ensures();
        assert forall|s: Seq<char>| all.contains(s) <==> text::texts(v@).contains(s) by {
            assert(all.contains(s) <==> all.to_multiset().count(s) > 0);
            assert(text::texts(v@).contains(s) <==> text::texts(v@).to_multiset().count(s) > 0);
        }
    }
    let mut out: Vec<String> = Vec::new();
    let mut i: usize = 0;
    while i < sorted.len()
        invariant
            i <= sorted.len(),
            all == text::texts(sorted@),
            vstd::relations::sorted_by(all, text_order()),
            strictly_ascending(text::texts(out@)),
            i > 0 ==> out.len() > 0 && text::texts(out@).last() == all[i - 1],
            forall|s: Seq<char>| #[trigger]
                text::texts(out@).contains(s) <==> all.take(i as int).contains(s),
        decreases sorted.len() - i,
    {
        let ghost before = text::texts(out@);
        let ghost seen = all.take(i as int);
        proof {
            assert(all.take(i + 1) =~= seen.push(all[i as int]));
            crate::sets::lemma_push_contains(seen, all[i as int]);
        }
        if i == 0 || !crate::text::same(sorted[i].as_str(), sorted[i - 1].as_str()) {
            out.push(sorted[i].clone());
            proof {
                let after = text::texts(out@);
                assert(after =~= before.push(all[i as int]));
                crate::sets::lemma_push_contains(before, all[i as int]);
                text::text_order_is_total();
                assert forall|a: int, b: int| 0 <= a < b < after.len() implies text::text_le(
                    #[trigger] after[a],
                    #[trigger] after[b],
                ) && after[a] != after[b] by {
                    if b == before.len() {
                        assert(before.contains(after[a]));
                        assert(text_order()(all[i - 1], all[i as int]));
                        if a < before.len() - 1 {
                            assert(text::text_le(before[a], before.last()));
                        }
                    }
                }
            }
        } else {
            assert(before.last() == all[i as int]);
            assert(before[before.len() - 1] == all[i as int]);
        }
        i += 1;
    }
    assert(all.take(all.len() as int) =~= all);
    out
}

/// Texts of the same set that are both in order, each once, are the same list.
pub proof fn ascending_texts_agree(p: Seq<Seq<char>>, q: Seq<Seq<char>>)
    requires
        strictly_ascending(p),
        strictly_ascending(q),
        forall|s: Seq<char>| p.contains(s) <==> q.contains(s),
    ensures
        p == q,
{
    text::text_order_is_total();
    let le = text_order();
    assert(p.no_duplicates());
    assert(q.no_duplicates());
    p.lemma_multiset_has_no_duplicates();
    q.lemma_multiset_has_no_duplicates();
    p.to_multiset_ensures();
    q.to_multiset_ensures();
    assert forall|s: Seq<char>| p.to_multiset().count(s) == q.to_multiset().count(s) by {
        assert(p.contains(s) <==> q.contains(s));
        if p.contains(s) {
            assert(p.to_multiset().contains(s));
            assert(q.to_multiset().contains(s));
        }
    }
    assert(p.to_multiset() =~= q.to_multiset());
    vstd::seq_lib::lemma_sorted_unique(p, q, le);
}

/// Sorting neither adds nor drops a text.
pub proof fn sorting_keeps_texts(s: Seq<Seq<char>>)
    ensures
        sort_texts(s).len() == s.len(),
        forall|x: Seq<char>| #[trigger] sort_texts(s).contains(x) <==> s.contains(x),
{
    text::text_order_is_total();
    s.lemma_sort_by_ensures(text_order());
    s.to_multiset_ensures();
    sort_texts(s).to_multiset_ensures();
    assert forall|x: Seq<char>| #[trigger] sort_texts(s).contains(x) <==> s.contains(x) by {
        assert(sort_texts(s).contains(x) <==> sort_texts(s).to_multiset().count(x) > 0);
        assert(s.contains(x) <==> s.to_multiset().count(x) > 0);
    }
}

} // verus!
