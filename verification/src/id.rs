//! An opaque handle used to read, modify or remove an element from an [RwStore](crate::RwStore)
//! once it has been inserted.

use vstd::prelude::*;
use vstd::string::*;

use crate::rwstore_id::RwStoreId;
use crate::util::text;

verus! {

/// The place of a slot in a store: its bucket, and its position among the slots of that bucket,
/// from the first slot of the oldest block to the last slot of the newest one.
#[derive(Debug, Copy, Clone, Eq, PartialEq, Hash, Structural)]
pub struct SlotAddress {
    pub bucket_id: u32,
    pub position: u32,
}

/// An opaque handle used to read, modify or remove an element from an [RwStore](crate::RwStore)
/// once it has been inserted. See the [module-level documentation](crate::id) for more.
#[derive(Copy, Clone)]
pub struct Id {
    ordinal: u32,
    bucket_id: u32,
    slot_address: u32,
    store_id: RwStoreId,
}

impl Id {
    pub closed spec fn spec_new(
        ordinal: u32,
        bucket_id: u32,
        slot_address: u32,
        store_id: RwStoreId,
    ) -> Id {
        Id { ordinal, bucket_id, slot_address, store_id }
    }

    pub closed spec fn spec_ordinal(self) -> u32 {
        self.ordinal
    }

    pub closed spec fn spec_bucket_id(self) -> u32 {
        self.bucket_id
    }

    pub closed spec fn spec_position(self) -> u32 {
        self.slot_address
    }

    pub closed spec fn spec_store_id(self) -> RwStoreId {
        self.store_id
    }

    pub fn new(ordinal: u32, bucket_id: u32, slot_address: u32, store_id: RwStoreId) -> (id: Self)
        ensures
            id == Id::spec_new(ordinal, bucket_id, slot_address, store_id),
    {
        Self { ordinal, bucket_id, slot_address, store_id }
    }

    pub fn ordinal(&self) -> (ordinal: u32)
        ensures
            ordinal == self.spec_ordinal(),
    {
        self.ordinal
    }

    pub fn bucket_id(&self) -> (bucket_id: u32)
        ensures
            bucket_id == self.spec_bucket_id(),
    {
        self.bucket_id
    }

    pub fn slot(&self) -> (address: SlotAddress)
        ensures
            address.bucket_id == self.spec_bucket_id(),
            address.position == self.spec_position(),
    {
        SlotAddress { bucket_id: self.bucket_id, position: self.slot_address }
    }

    pub fn store_id(&self) -> (store_id: RwStoreId)
        ensures
            store_id == self.spec_store_id(),
    {
        self.store_id
    }

    /// A text for debugging, which shows the ordinal, the bucket and the position of the slot.
    pub open spec fn spec_debug_text(self) -> Seq<char> {
        "Id("@ + text::digits(self.spec_ordinal() as nat, 10) + ", "@ + text::digits(
            self.spec_bucket_id() as nat,
            10,
        ) + ", 0x"@ + text::digits(self.spec_position() as nat, 16) + ")"@
    }

    /// A text for debugging, which shows the ordinal, the bucket and the position of the slot.
    pub fn debug_text(&self) -> (debug_text: String)
        ensures
            debug_text@ == self.spec_debug_text(),
            debug_text@ == "Id("@ + text::digits(self.spec_ordinal() as nat, 10) + ", "@
                + text::digits(self.spec_bucket_id() as nat, 10) + ", 0x"@ + text::digits(
                self.spec_position() as nat,
                16,
            ) + ")"@,
    {
        let mut debug_text = String::new();
        debug_text.append("Id(");
        text::append_number(&mut debug_text, self.ordinal, 10);
        debug_text.append(", ");
        text::append_number(&mut debug_text, self.bucket_id, 10);
        debug_text.append(", 0x");
        text::append_number(&mut debug_text, self.slot_address, 16);
        debug_text.append(")");
        assert(debug_text@ =~= self.spec_debug_text());
        debug_text
    }
}

/// An ID is made up of its ordinal, its bucket, the position of its slot and its store, and of
/// nothing else.
pub broadcast proof fn law_id_parts(
    ordinal: u32,
    bucket_id: u32,
    slot_address: u32,
    store_id: RwStoreId,
)
    ensures
        ({
            let id = #[trigger] Id::spec_new(ordinal, bucket_id, slot_address, store_id);
            &&& id.spec_ordinal() == ordinal
            &&& id.spec_bucket_id() == bucket_id
            &&& id.spec_position() == slot_address
            &&& id.spec_store_id() == store_id
        }),
{
}

/// Two IDs are the same if their parts are.
pub proof fn law_ids_with_equal_parts_are_equal(a: Id, b: Id)
    requires
        a.spec_ordinal() == b.spec_ordinal(),
        a.spec_bucket_id() == b.spec_bucket_id(),
        a.spec_position() == b.spec_position(),
        a.spec_store_id() == b.spec_store_id(),
    ensures
        a == b,
{
}

} // verus!
