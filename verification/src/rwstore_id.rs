//! Identities of stores, to keep the IDs of different stores apart.

use vstd::prelude::*;

verus! {

/// The identity of a store.
#[derive(Debug, Copy, Clone, Eq, PartialEq, Hash, Structural)]
pub struct RwStoreId {
    value: u64,
}

impl RwStoreId {
    /// The position of the identity in the sequence that the counter runs through.
    pub closed spec fn number(self) -> u64 {
        self.value
    }

    /// Generates an identity that differs from those generated from the same counter before, up to
    /// 2<sup>64</sup> of them.
    pub fn generate(next: &mut u64) -> (store_id: Self)
        ensures
            store_id.number() == *old(next),
            *final(next) == old(next).wrapping_add(1),
    {
        let value = *next;
        *next = value.wrapping_add(1);
        Self { value }
    }
}

/// Identities that were generated from different values of the counter differ.
pub proof fn law_store_ids_differ(a: RwStoreId, b: RwStoreId)
    ensures
        a == b <==> a.number() == b.number(),
{
}

} // verus!
