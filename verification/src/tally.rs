//! Counting packages.
use vstd::prelude::*;

use crate::model;
use crate::model::Entry;
use crate::number;
use crate::split;

verus! {

/// A group of packages, counted: how many they are, and the bytes they hold.
pub struct Tally {
    /// Their installed sizes, added up.
    pub bytes: u64,
    /// How many they are.
    pub items: usize,
}

impl Tally {
    /// Whether the tally is that of the entries that pass a test.
    pub open spec fn is_of(
        self,
        entries: Seq<model::EntryView>,
        which: spec_fn(model::EntryView) -> bool,
    ) -> bool {
        &&& self.bytes == number::saturated(model::size_sum(entries.filter(which)))
        &&& self.items == entries.filter(which).len()
    }

    /// A tally of nothing.
    pub fn new() -> (r: Tally)
        ensures
            forall|which: spec_fn(model::EntryView) -> bool| #[trigger]
                r.is_of(Seq::empty(), which),
    {
        proof {
            reveal(Seq::filter);
            assert forall|which: spec_fn(model::EntryView) -> bool| Seq::<
                model::EntryView,
            >::empty().filter(which).len() == 0 by {}
        }
        Tally { bytes: 0, items: 0 }
    }

    /// Counts one more entry, where it passes the test.
    pub fn add(
        &mut self,
        entry: &Entry,
        passes: bool,
        Ghost(before): Ghost<Seq<model::EntryView>>,
        Ghost(which): Ghost<spec_fn(model::EntryView) -> bool>,
    )
        requires
            old(self).is_of(before, which),
            passes == which(entry@),
            before.len() < usize::MAX,
        ensures
            final(self).is_of(before.push(entry@), which),
    {
        proof {
            split::lemma_filter_push(before, entry@, which);
            let found = before.filter(which);
            assert(found.push(entry@).drop_last() =~= found);
            split::lemma_filter_len(before, which);
        }
        if passes {
            self.bytes = self.bytes.saturating_add(entry.package.size);
            self.items += 1;
        }
    }
}

} // verus!
