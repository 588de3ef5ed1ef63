//! A map keyed by text.
use vstd::prelude::*;

use crate::text;
use crate::text::{at_most, copy_texts, same};

verus! {

/// A map from texts to values, kept in order of the keys so that a lookup is
/// a binary search.
#[derive(Debug)]
pub struct TextMap<V> {
    keys: Vec<String>,
    values: Vec<V>,
}

/// The map that two lists of equal length make up.
pub closed spec fn pairs<V>(keys: Seq<String>, values: Seq<V>) -> Map<Seq<char>, V> {
    Map::new(
        |k: Seq<char>| exists|i: int| 0 <= i < keys.len() && #[trigger] keys[i]@ == k,
        |k: Seq<char>| values[choose|i: int| 0 <= i < keys.len() && #[trigger] keys[i]@ == k],
    )
}

/// A map to strings, as a map to their texts.
pub open spec fn text_values(m: Map<Seq<char>, String>) -> Map<Seq<char>, Seq<char>> {
    Map::new(|k: Seq<char>| m.contains_key(k), |k: Seq<char>| m[k]@)
}

impl<V> View for TextMap<V> {
    type V = Map<Seq<char>, V>;

    closed spec fn view(&self) -> Map<Seq<char>, V> {
        pairs(self.keys@, self.values@)
    }
}

/// Whether keys are strictly ascending.
spec fn ascending(keys: Seq<String>) -> bool {
    forall|i: int, j: int|
        0 <= i < j < keys.len() ==> text::text_le(#[trigger] keys[i]@, #[trigger] keys[j]@)
            && keys[i]@ != keys[j]@
}

proof fn lemma_pairs<V>(keys: Seq<String>, values: Seq<V>, i: int)
    requires
        ascending(keys),
        0 <= i < keys.len(),
    ensures
        pairs(keys, values).contains_key(keys[i]@),
        pairs(keys, values)[keys[i]@] == values[i],
{
    let j = choose|j: int| 0 <= j < keys.len() && #[trigger] keys[j]@ == keys[i]@;
    assert(j == i);
}

/// The place of `key` among `keys`: where it stands, or where it belongs.
fn place(keys: &Vec<String>, key: &str) -> (r: (bool, usize))
    requires
        ascending(keys@),
    ensures
        r.1 <= keys.len(),
        r.0 ==> r.1 < keys.len() && keys@[r.1 as int]@ == key@,
        !r.0 ==> forall|i: int| 0 <= i < keys.len() ==> #[trigger] keys@[i]@ != key@,
        forall|i: int| 0 <= i < r.1 ==> text::text_le(#[trigger] keys@[i]@, key@),
        forall|i: int| r.1 <= i < keys.len() ==> text::text_le(key@, #[trigger] keys@[i]@),
{
    proof {
        text::text_order_is_total();
    }
    let mut low: usize = 0;
    let mut high: usize = keys.len();
    while low < high
        invariant
            low <= high <= keys.len(),
            ascending(keys@),
            forall|i: int|
                0 <= i < low ==> text::text_le(#[trigger] keys@[i]@, key@) && keys@[i]@ != key@,
            forall|i: int| high <= i < keys.len() ==> text::text_le(key@, #[trigger] keys@[i]@),
        decreases high - low,
    {
        proof {
            text::text_order_is_total();
        }
        let middle: usize = low + (high - low) / 2;
        if at_most(key, keys[middle].as_str()) {
            assert forall|i: int| middle <= i < keys.len() implies text::text_le(
                key@,
                #[trigger] keys@[i]@,
            ) by {
                if i > middle {
                    assert(text::text_le(keys@[middle as int]@, keys@[i]@));
                }
            }
            high = middle;
        } else {
            assert forall|i: int| 0 <= i < middle + 1 implies text::text_le(
                #[trigger] keys@[i]@,
                key@,
            ) && keys@[i]@ != key@ by {
                if i < middle {
                    assert(text::text_le(keys@[i]@, keys@[middle as int]@));
                }
            }
            low = middle + 1;
        }
    }
    let found = low < keys.len() && same(keys[low].as_str(), key);
    proof {
        if !found {
            assert forall|i: int| 0 <= i < keys.len() implies #[trigger] keys@[i]@ != key@ by {
                if i > low {
                    assert(text::text_le(keys@[low as int]@, keys@[i]@));
                    assert(text::text_le(key@, keys@[low as int]@));
                }
            }
        }
    }
    (found, low)
}

impl<V: Clone> Clone for TextMap<V> {
    fn clone(&self) -> (r: TextMap<V>)
        ensures
            r@.dom() == self@.dom(),
            forall|k: Seq<char>| #[trigger]
                r@.contains_key(k) ==> cloned::<V>(self@[k], r@[k]),
    {
        proof {
            use_type_invariant(self);
        }
        let keys = copy_texts(&self.keys);
        let values = self.values.clone();
        proof {
            assert forall|i: int| 0 <= i < keys@.len() implies #[trigger] keys@[i]@
                == self.keys@[i]@ by {
                assert(text::texts(keys@)[i] == text::texts(self.keys@)[i]);
            }
            assert(keys@.len() == text::texts(keys@).len());
            assert forall|k: Seq<char>| #[trigger] pairs(keys@, values@).contains_key(k) implies pairs(
                self.keys@,
                self.values@,
            ).contains_key(k) && cloned::<V>(
                pairs(self.keys@, self.values@)[k],
                pairs(keys@, values@)[k],
            ) by {
                let i = choose|i: int| 0 <= i < keys@.len() && #[trigger] keys@[i]@ == k;
                lemma_pairs(keys@, values@, i);
                lemma_pairs(self.keys@, self.values@, i);
            }
            assert forall|k: Seq<char>| #[trigger] pairs(self.keys@, self.values@).contains_key(
                k,
            ) implies pairs(keys@, values@).contains_key(k) by {
                let i = choose|i: int| 0 <= i < self.keys@.len() && #[trigger] self.keys@[i]@ == k;
                assert(keys@[i]@ == k);
            }
            assert(pairs(keys@, values@).dom() =~= pairs(self.keys@, self.values@).dom());
        }
        TextMap { keys, values }
    }
}

impl<V> TextMap<V> {
    /// What keeps the map searchable.
    #[verifier::type_invariant]
    spec fn well_formed(self) -> bool {
        &&& self.keys.len() == self.values.len()
        &&& ascending(self.keys@)
    }

    /// A map with nothing in it.
    pub fn new() -> (r: TextMap<V>)
        ensures
            r@ == Map::<Seq<char>, V>::empty(),
    {
        let r: TextMap<V> = TextMap { keys: Vec::new(), values: Vec::new() };
        assert(r@ =~= Map::empty());
        r
    }

    /// The value under `key`.
    pub fn get(&self, key: &str) -> (r: Option<&V>)
        ensures
            match r {
                Some(v) => self@.contains_key(key@) && self@[key@] == *v,
                None => !self@.contains_key(key@),
            },
    {
        proof {
            use_type_invariant(self);
        }
        let (found, at) = place(&self.keys, key);
        if found {
            proof {
                lemma_pairs(self.keys@, self.values@, at as int);
            }
            Some(&self.values[at])
        } else {
            None
        }
    }

    /// Whether there is a value under `key`.
    pub fn contains_key(&self, key: &str) -> (r: bool)
        ensures
            r == self@.contains_key(key@),
    {
        self.get(key).is_some()
    }

    /// Puts `value` under `key`, in place of what was there.
    pub fn insert(&mut self, key: &str, value: V)
        ensures
            final(self)@ == old(self)@.insert(key@, value),
    {
        proof {
            use_type_invariant(&*self);
        }
        let ghost before = self@;
        let mut taken: TextMap<V> = TextMap::new();
        std::mem::swap(self, &mut taken);
        let TextMap { mut keys, mut values } = taken;
        let ghost old_keys = keys@;
        let ghost old_values = values@;
        let (found, at) = place(&keys, key);
        if found {
            values.set(at, value);
            proof {
                assert forall|k: Seq<char>| pairs(keys@, values@).contains_key(k) implies pairs(
                    keys@,
                    values@,
                )[k] == before.insert(key@, value)[k] by {
                    let i = choose|i: int| 0 <= i < keys@.len() && #[trigger] keys@[i]@ == k;
                    lemma_pairs(keys@, values@, i);
                    lemma_pairs(old_keys, old_values, i);
                }
                assert(keys@[at as int]@ == key@);
                assert(pairs(keys@, values@) =~= before.insert(key@, value));
            }
        } else {
            keys.insert(at, key.to_owned());
            values.insert(at, value);
            proof {
                text::text_order_is_total();
                assert forall|i: int, j: int| 0 <= i < j < keys@.len() implies text::text_le(
                    #[trigger] keys@[i]@,
                    #[trigger] keys@[j]@,
                ) && keys@[i]@ != keys@[j]@ by {
                    let a = if i < at {
                        i
                    } else {
                        i - 1
                    };
                    let b = if j < at {
                        j
                    } else {
                        j - 1
                    };
                    if i == at {
                        assert(keys@[j] == old_keys[b]);
                    } else if j == at {
                        assert(keys@[i] == old_keys[a]);
                    } else {
                        assert(keys@[i] == old_keys[a]);
                        assert(keys@[j] == old_keys[b]);
                    }
                }
                let now = pairs(keys@, values@);
                let then = before.insert(key@, value);
                lemma_pairs(keys@, values@, at as int);
                assert forall|k: Seq<char>| #[trigger] now.contains_key(k) == then.contains_key(k) && (
                now.contains_key(k) ==> now[k] == then[k]) by {
                    if now.contains_key(k) {
                        let i = choose|i: int| 0 <= i < keys@.len() && #[trigger] keys@[i]@ == k;
                        lemma_pairs(keys@, values@, i);
                        if i != at {
                            let a = if i < at {
                                i
                            } else {
                                i - 1
                            };
                            assert(keys@[i] == old_keys[a]);
                            assert(values@[i] == old_values[a]);
                            lemma_pairs(old_keys, old_values, a);
                        }
                    }
                    if before.contains_key(k) {
                        let a = choose|a: int|
                            0 <= a < old_keys.len() && #[trigger] old_keys[a]@ == k;
                        let i = if a < at {
                            a
                        } else {
                            a + 1
                        };
                        assert(keys@[i] == old_keys[a]);
                        lemma_pairs(keys@, values@, i);
                    }
                }
                assert forall|k: Seq<char>| now.dom().contains(k) == then.dom().contains(k) by {
                    assert(now.contains_key(k) == then.contains_key(k));
                }
                assert(now.dom() =~= then.dom());
                assert(now =~= then);
            }
        }
        *self = TextMap { keys, values };
    }
}

} // verus!
