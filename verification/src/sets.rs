//! Sets of positions.
use std::collections::BTreeSet;

use vstd::prelude::*;

verus! {

/// What a list holds with one element more.
pub proof fn lemma_push_contains<A>(s: Seq<A>, x: A)
    ensures
        forall|y: A| #[trigger] s.push(x).contains(y) <==> s.contains(y) || y == x,
{
    assert forall|y: A| #[trigger] s.push(x).contains(y) <==> s.contains(y) || y == x by {
        if s.contains(y) {
            let m = choose|m: int| 0 <= m < s.len() && s[m] == y;
            assert(s.push(x)[m] == y);
        }
        if s.push(x).contains(y) && y != x {
            let m = choose|m: int| 0 <= m < s.push(x).len() && s.push(x)[m] == y;
            assert(s[m] == y);
        }
        assert(s.push(x)[s.len() as int] == x);
    }
}

/// What two lists hold, one behind the other.
pub proof fn lemma_append_contains<A>(s: Seq<A>, t: Seq<A>)
    ensures
        forall|y: A| #[trigger] (s + t).contains(y) <==> s.contains(y) || t.contains(y),
{
    assert forall|y: A| #[trigger] (s + t).contains(y) <==> s.contains(y) || t.contains(y) by {
        if s.contains(y) {
            let m = choose|m: int| 0 <= m < s.len() && s[m] == y;
            assert((s + t)[m] == y);
        }
        if t.contains(y) {
            let m = choose|m: int| 0 <= m < t.len() && t[m] == y;
            assert((s + t)[s.len() + m] == y);
        }
        if (s + t).contains(y) {
            let m = choose|m: int| 0 <= m < (s + t).len() && (s + t)[m] == y;
            if m < s.len() {
                assert(s[m] == y);
            } else {
                assert(t[m - s.len()] == y);
            }
        }
    }
}

/// The members of `s` below `n`, in ascending order.
pub open spec fn below(s: Set<usize>, n: nat) -> Seq<usize>
    decreases n,
{
    if n == 0 {
        Seq::empty()
    } else {
        let k = (n - 1) as usize;
        if s.contains(k) {
            below(s, (n - 1) as nat).push(k)
        } else {
            below(s, (n - 1) as nat)
        }
    }
}

proof fn lemma_below_gap(s: Set<usize>, a: nat, b: nat)
    requires
        a <= b,
        b <= usize::MAX + 1,
        forall|k: usize| a <= k < b ==> !s.contains(k),
    ensures
        below(s, a) == below(s, b),
    decreases b - a,
{
    if a < b {
        lemma_below_gap(s, a, (b - 1) as nat);
    }
}

/// What the list of the members below `n` holds.
pub proof fn lemma_below(s: Set<usize>, n: nat)
    requires
        n <= usize::MAX + 1,
    ensures
        forall|k: usize| below(s, n).contains(k) <==> s.contains(k) && k < n,
        forall|i: int| 0 <= i < below(s, n).len() ==> #[trigger] below(s, n)[i] < n && s.contains(
            below(s, n)[i],
        ),
        forall|i: int, j: int|
            0 <= i < j < below(s, n).len() ==> #[trigger] below(s, n)[i] < #[trigger] below(
                s,
                n,
            )[j],
    decreases n,
{
    if n > 0 {
        let m = (n - 1) as nat;
        lemma_below(s, m);
        let k = m as usize;
        assert forall|x: usize| below(s, n).contains(x) <==> s.contains(x) && x < n by {
            if s.contains(k) {
                if below(s, n).contains(x) {
                    let i = choose|i: int| 0 <= i < below(s, n).len() && below(s, n)[i] == x;
                    if i < below(s, m).len() {
                        assert(below(s, m)[i] == x);
                    }
                }
                if s.contains(x) && x < n {
                    if x == k {
                        assert(below(s, n)[below(s, m).len() as int] == k);
                    } else {
                        assert(below(s, m).contains(x));
                        let i = choose|i: int| 0 <= i < below(s, m).len() && below(s, m)[i] == x;
                        assert(below(s, n)[i] == x);
                    }
                }
            }
        }
    }
}

/// A set has at most `n` members below `n`.
pub proof fn lemma_below_len(s: Set<usize>, n: nat)
    ensures
        count_below(s, n) <= n,
    decreases n,
{
    if n > 0 {
        lemma_below_len(s, (n - 1) as nat);
    }
}

/// How many members a set has below `n`.
pub open spec fn count_below(s: Set<usize>, n: nat) -> nat {
    below(s, n).len()
}

/// A new member below `n` counts.
pub proof fn lemma_below_insert(s: Set<usize>, n: nat, x: usize)
    requires
        n <= usize::MAX + 1,
        x < n,
        !s.contains(x),
    ensures
        count_below(s.insert(x), n) == count_below(s, n) + 1,
    decreases n,
{
    let m = (n - 1) as nat;
    if x == m {
        lemma_below_same(s, s.insert(x), m);
    } else {
        lemma_below_insert(s, m, x);
    }
}

/// Sets with the same members below `n` list the same.
pub proof fn lemma_below_same(s: Set<usize>, t: Set<usize>, n: nat)
    requires
        n <= usize::MAX + 1,
        forall|k: usize| k < n ==> s.contains(k) == t.contains(k),
    ensures
        below(s, n) == below(t, n),
    decreases n,
{
    if n > 0 {
        lemma_below_same(s, t, (n - 1) as nat);
    }
}

/// A list in ascending order of everything in `s` is what [`below`] lists.
proof fn lemma_ascending_is_below(v: Seq<usize>, s: Set<usize>, n: nat, i: int)
    requires
        n <= usize::MAX + 1,
        0 <= i <= v.len(),
        forall|a: int, b: int| 0 <= a < b < v.len() ==> v[a] < v[b],
        forall|k: usize| s.contains(k) <==> v.contains(k),
        forall|a: int| 0 <= a < i ==> v[a] < n,
        i < v.len() ==> v[i] >= n,
    ensures
        v.take(i) == below(s, n),
    decreases i,
{
    if i == 0 {
        assert forall|k: usize| 0 <= k < n implies !s.contains(k) by {
            if s.contains(k) {
                let a = choose|a: int| 0 <= a < v.len() && v[a] == k;
                assert(v[0] <= v[a]);
            }
        }
        lemma_below_gap(s, 0, n);
        assert(v.take(0) =~= Seq::empty());
    } else {
        let k = v[i - 1];
        lemma_ascending_is_below(v, s, k as nat, i - 1);
        assert(s.contains(k));
        assert(below(s, (k + 1) as nat) == below(s, k as nat).push(k));
        assert forall|x: usize| k + 1 <= x < n implies !s.contains(x) by {
            if s.contains(x) {
                let a = choose|a: int| 0 <= a < v.len() && v[a] == x;
                if a < i - 1 {
                    assert(v[a] < v[i - 1]);
                } else if a > i {
                    assert(v[i] < v[a]);
                }
            }
        }
        lemma_below_gap(s, (k + 1) as nat, n);
        assert(v.take(i) =~= v.take(i - 1).push(k));
    }
}

/// What a set hands out in increasing order is ascending.
proof fn lemma_increasing(items: Seq<&usize>)
    requires
        vstd::std_specs::btree::increasing_seq(items),
    ensures
        forall|a: int, b: int|
            0 <= a < b < items.len() ==> *#[trigger] items[a] < *#[trigger] items[b],
{
    assert forall|a: int, b: int| 0 <= a < b < items.len() implies *#[trigger] items[a]
        < *#[trigger] items[b] by {
        assert(vstd::std_specs::cmp::OrdSpec::cmp_spec(&items[a], &items[b]) is Less);
    }
}

/// The members of a set below `n`, in ascending order.
pub fn members(s: &BTreeSet<usize>, n: usize) -> (r: Vec<usize>)
    ensures
        r@ == below(s@, n as nat),
{
    let ghost items = vstd::std_specs::iter::IteratorSpec::remaining(
        &vstd::std_specs::btree::spec_btree_keys_iter(s),
    );
    let mut all: Vec<usize> = Vec::new();
    for k in it: s.iter()
        invariant
            it.seq() == items,
            all@.len() == it.index(),
            forall|i: int| 0 <= i < all@.len() ==> all@[i] == *items[i],
    {
        all.push(*k);
    }
    assert(all@ =~= items.unref());
    let mut end: usize = all.len();
    proof {
        lemma_increasing(items);
        assert forall|k: usize| s@.contains(k) <==> all@.contains(k) by {
            assert(items.unref().to_set().contains(k) <==> items.unref().contains(k));
        }
    }
    while end > 0 && all[end - 1] >= n
        invariant
            end <= all.len(),
            end < all.len() ==> all@[end as int] >= n,
        decreases end,
    {
        end -= 1;
    }
    proof {
        assert forall|a: int| 0 <= a < end implies all@[a] < n by {
            assert(all@[end - 1] < n);
            if a < end - 1 {
                assert(all@[a] < all@[end - 1]);
            }
        }
        lemma_ascending_is_below(all@, s@, n as nat, end as int);
    }
    all.truncate(end);
    assert(all@ =~= below(s@, n as nat));
    all
}

} // verus!
