//! Bookkeeping of which instructions are alive.

use vstd::prelude::*;
use fixedbitset::FixedBitSet;
use crate::bitset::{
    bitset_contains, bitset_grow_and_insert, bitset_len, bitset_new, bitset_ones, bitset_remove,
    bits_below_length, enabled_bits,
};
use crate::error::{lists_in_order, Error, Result};
use crate::id::Id;

verus! {

/// Tracks which `Id`s are currently alive, so that lifecycle bugs are
/// reported as errors instead of producing a bad log.
pub struct Validator {
    /// Bit `i` is enabled exactly when the instruction with id `i` is alive.
    live: FixedBitSet,
}

impl Validator {
    pub closed spec fn inv(&self) -> bool {
        &&& bits_below_length(self.live)
        &&& forall|b: usize| #[trigger] enabled_bits(self.live).contains(b) ==> b <= u32::MAX
    }

    /// The values of the alive ids.
    pub closed spec fn ids(&self) -> Set<u32> {
        Set::new(|v: u32| enabled_bits(self.live).contains(v as usize))
    }

    /// A validator with no alive instruction.
    pub fn new() -> (v: Self)
        ensures
            v.inv(),
            v.ids() == Set::<u32>::empty(),
    {
        let v = Validator { live: bitset_new() };
        assert(v.ids() =~= Set::<u32>::empty());
        v
    }

    /// Record a freshly issued `id` as alive.
    pub fn track(&mut self, id: Id)
        requires
            old(self).inv(),
            id@ < u32::MAX,
            !old(self).ids().contains(id@),
        ensures
            final(self).inv(),
            final(self).ids() == old(self).ids().insert(id@),
    {
        let was_present = bitset_contains(&self.live, id.index());
        bitset_grow_and_insert(&mut self.live, id.index());
        assert(!was_present);
        assert forall|b: usize| #[trigger] enabled_bits(self.live).contains(b) implies b <= u32::MAX by {
            if b != id@ as usize {
                assert(enabled_bits(old(self).live).contains(b));
            }
        }
        assert(self.ids() =~= old(self).ids().insert(id@));
    }

    /// `Ok` when `id` is alive, `UnknownId(id)` otherwise.
    pub fn check(&self, id: Id) -> (r: Result)
        requires
            self.inv(),
        ensures
            r == if self.ids().contains(id@) {
                Ok(())
            } else {
                Err(Error::UnknownId(id))
            },
    {
        if id.index() < bitset_len(&self.live) && bitset_contains(&self.live, id.index()) {
            Ok(())
        } else {
            Err(Error::UnknownId(id))
        }
    }

    /// Mark `id` as no longer alive; `DoubleRetire(id)` when it was not.
    pub fn forget(&mut self, id: Id) -> (r: Result)
        requires
            old(self).inv(),
        ensures
            final(self).inv(),
            old(self).ids().contains(id@) ==> r == Ok::<(), Error>(())
                && final(self).ids() == old(self).ids().remove(id@),
            !old(self).ids().contains(id@) ==> r == Err::<(), Error>(Error::DoubleRetire(id))
                && final(self).ids() == old(self).ids(),
    {
        if !bitset_contains(&self.live, id.index()) {
            return Err(Error::DoubleRetire(id));
        }
        bitset_remove(&mut self.live, id.index());
        assert forall|b: usize| #[trigger] enabled_bits(self.live).contains(b) implies b <= u32::MAX by {
            assert(enabled_bits(old(self).live).contains(b));
        }
        assert(self.ids() =~= old(self).ids().remove(id@));
        Ok(())
    }

    /// `Ok` when no id is alive; otherwise `DanglingIds` listing every
    /// alive id in increasing order.
    pub fn orphaned(&self) -> (r: Result)
        requires
            self.inv(),
        ensures
            self.ids().is_empty() ==> r == Ok::<(), Error>(()),
            !self.ids().is_empty() ==> (r matches Err(Error::DanglingIds(ids)) && lists_in_order(ids@, self.ids())),
    {
        let ones = bitset_ones(&self.live);
        let mut ids: Vec<Id> = Vec::new();
        let n = ones.len();
        let mut k: usize = 0;
        while k < n
            invariant
                self.inv(),
                n == ones@.len(),
                k <= n,
                ids@.len() == k,
                forall|i: usize| #[trigger] ones@.contains(i) <==> enabled_bits(self.live).contains(i),
                forall|i: int, j: int| 0 <= i < j < ones@.len() ==> ones@[i] < ones@[j],
                forall|i: int| 0 <= i < k ==> (#[trigger] ids@[i])@ == ones@[i],
            decreases n - k,
        {
            let index = ones[k];
            assert(ones@.contains(index));
            let id = Id::new(index as u32);
            ids.push(id);
            k = k + 1;
        }
        proof {
            assert forall|v: u32| self.ids().contains(v) <==> exists|j: int| 0 <= j < ids@.len() && (#[trigger] ids@[j])@ == v by {
                if self.ids().contains(v) {
                    assert(ones@.contains(v as usize));
                    let j = choose|j: int| 0 <= j < ones@.len() && ones@[j] == v as usize;
                    assert(ids@[j]@ == v);
                }
                if exists|j: int| 0 <= j < ids@.len() && (#[trigger] ids@[j])@ == v {
                    let j = choose|j: int| 0 <= j < ids@.len() && (#[trigger] ids@[j])@ == v;
                    assert(ones@.contains(ones@[j]));
                }
            }
        }
        if ids.len() == 0 {
            proof {
                assert forall|v: u32| !self.ids().contains(v) by {}
                assert(self.ids() =~= Set::<u32>::empty());
            }
            Ok(())
        } else {
            assert(self.ids().contains(ids@[0]@));
            Err(Error::DanglingIds(ids))
        }
    }
}

} // verus!
