//! The numbers that tell elements of the same bucket apart.

use vstd::prelude::*;

use crate::header::RESERVED_ID;

verus! {

/// Generates the ordinals of the elements of a bucket, each of them once.
pub struct IdGenerator {
    // Should only be increased
    next_id: u32,
}

impl IdGenerator {
    /// The number of ordinals that were generated, which is also the next one.
    pub closed spec fn generated(self) -> u32 {
        self.next_id
    }

    pub fn new() -> (generator: Self)
        ensures
            generator.generated() == 0,
    {
        Self { next_id: RESERVED_ID.wrapping_add(1) }
    }

    /// Generates an ordinal. There must be one left that is not the reserved one.
    pub fn next(&mut self) -> (id: u32)
        requires
            old(self).generated() != RESERVED_ID,
        ensures
            id == old(self).generated(),
            final(self).generated() == id + 1,
    {
        let id = self.next_id;
        self.next_id = id + 1;
        id
    }
}

} // verus!
