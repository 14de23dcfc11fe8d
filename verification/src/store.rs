//! The store itself.

use vstd::prelude::*;

use crate::block::SlotView;
use crate::bucket::Bucket;
use crate::header::{Lock, MAX_CONCURRENT_READS};
use crate::id;
use crate::id::Id;
use crate::iter;
use crate::iter::{GenIter, IntoIter, IterMut};
use crate::lock::{ReadLock, WriteLock};
use crate::rwstore_id::RwStoreId;
use crate::timeout::{BlockResult, TimedOut, Timeout};
use crate::util::lcg;
use crate::util::sum;
use crate::util::sync::concurrent_queue::ConcurrentQueue;
use crate::util::sync::park::ParkChoice;

verus! {

/// The number of buckets of a store.
pub const BUCKET_COUNT: u32 = 16;

/// Ensures that the maximum number of inserts is respected.
pub struct MaximumInsertEnforcer {
    inserts_remaining: u32,
}

impl MaximumInsertEnforcer {
    /// How many elements can still be inserted.
    pub closed spec fn remaining(self) -> u32 {
        self.inserts_remaining
    }

    pub fn new() -> (enforcer: Self)
        ensures
            enforcer.remaining() == u32::MAX,
    {
        Self { inserts_remaining: u32::MAX }
    }

    /// Whether an element can still be inserted.
    pub fn may_insert(&self) -> (may_insert: bool)
        ensures
            may_insert == (self.remaining() > 0),
    {
        self.inserts_remaining > 0
    }

    /// Counts an insert, which must still be possible.
    pub fn assert_may_insert(&mut self)
        requires
            old(self).remaining() > 0,
        ensures
            final(self).remaining() == old(self).remaining() - 1,
    {
        self.inserts_remaining = self.inserts_remaining - 1;
    }
}

/// An unordered collection where each element has an internally generated ID and a read-write lock.
pub struct RwStore<Element> {
    buckets: [Bucket<Element>; 16],
    // Contains slots ready for insertion
    erasures: ConcurrentQueue,
    // A globally unique ID for the store to ensure IDs from other stores are not used with this one
    store_id: RwStoreId,
    // Ensures that the maximum number of inserts is respected
    insert_enforcer: MaximumInsertEnforcer,
}

impl<Element> View for RwStore<Element> {
    type V = Map<Id, Element>;

    /// The elements in the store, by their IDs.
    open spec fn view(&self) -> Map<Id, Element> {
        Map::new(|id: Id| self.contains(id), |id: Id| self.slot_of(id).value->0)
    }
}

// What a store holds.
impl<Element> RwStore<Element> {
    pub closed spec fn buckets(self) -> Seq<Bucket<Element>> {
        self.buckets@
    }

    /// The slots whose elements were removed, from the one that is reused first to the one that is
    /// reused last. Each is given by its bucket and its address there.
    pub closed spec fn erasures(self) -> Seq<(u32, u32)> {
        self.erasures@
    }

    pub closed spec fn spec_store_id(self) -> RwStoreId {
        self.store_id
    }

    /// How many elements can still be inserted.
    pub closed spec fn inserts_remaining(self) -> u32 {
        self.insert_enforcer.remaining()
    }

    pub open spec fn has_slot(self, bucket: int, address: int) -> bool {
        0 <= bucket < BUCKET_COUNT && self.buckets()[bucket].has_address(address)
    }

    /// Whether a slot was ever handed out for an element.
    pub open spec fn touched(self, bucket: int, address: int) -> bool {
        0 <= bucket < BUCKET_COUNT && self.buckets()[bucket].touched(address)
    }

    pub open spec fn slot(self, bucket: int, address: int) -> SlotView<Element> {
        self.buckets()[bucket].at(address)
    }

    /// The slot that an ID refers to.
    pub open spec fn slot_of(self, id: Id) -> SlotView<Element> {
        self.slot(id.spec_bucket_id() as int, id.spec_position() as int)
    }

    /// The ID of the element in a slot.
    pub open spec fn id_at(self, bucket: int, address: int) -> Id {
        Id::spec_new(
            self.slot(bucket, address).header.id,
            bucket as u32,
            address as u32,
            self.spec_store_id(),
        )
    }

    /// Whether an element with the given ID is in the store.
    pub open spec fn contains(self, id: Id) -> bool {
        &&& id.spec_store_id() == self.spec_store_id()
        &&& self.has_slot(id.spec_bucket_id() as int, id.spec_position() as int)
        &&& self.slot_of(id).header.id == id.spec_ordinal()
        &&& self.slot_of(id).header.occupied()
    }

    /// The locks of the elements in the store.
    pub open spec fn locks(self) -> Map<Id, Lock> {
        Map::new(|id: Id| self.contains(id), |id: Id| self.slot_of(id).header.lock->0)
    }

    /// Whether an ID was created by this store: either its element is there, or the slot that it
    /// refers to was meant for an element with a later ID since.
    pub open spec fn issued(self, id: Id) -> bool {
        &&& id.spec_store_id() == self.spec_store_id()
        &&& self.touched(id.spec_bucket_id() as int, id.spec_position() as int)
        &&& id.spec_ordinal() < self.slot_of(id).header.id || self.contains(id)
    }

    /// The number of slots that were ever handed out for an element.
    pub open spec fn touched_capacity(self) -> int {
        sum::sum(|b: int| self.buckets()[b].touched_capacity(), BUCKET_COUNT as int)
    }

    /// The number of slots.
    pub open spec fn allocated_capacity(self) -> int {
        sum::sum(|b: int| self.buckets()[b].allocated_capacity(), BUCKET_COUNT as int)
    }

    /// Whether the number of slots of every bucket can be told: no block has as many as
    /// 2<sup>31</sup> slots.
    pub open spec fn sizes_known(self) -> bool {
        forall|b: int|
            0 <= b < BUCKET_COUNT ==> (#[trigger] self.buckets()[b]).inner().head_size()
                < 0x8000_0000
    }

    /// The number of elements that were ever inserted.
    pub open spec fn inserted(self) -> int {
        u32::MAX - self.inserts_remaining()
    }

    /// There are as many buckets as there have to be, and all of them belong to the store.
    pub open spec fn buckets_wf(self) -> bool {
        &&& self.buckets().len() == BUCKET_COUNT
        &&& forall|b: int|
            0 <= b < BUCKET_COUNT ==> {
                let bucket = #[trigger] self.buckets()[b];
                &&& bucket.wf()
                &&& bucket.inner().store_id() == self.spec_store_id()
                &&& bucket.touched_capacity() <= bucket.generated()
            }
    }

    /// Every ordinal is generated before it is used, and as many ordinals were generated as elements
    /// were inserted.
    pub open spec fn ordinals_wf(self) -> bool {
        &&& sum::sum(|b: int| self.buckets()[b].generated() as int, BUCKET_COUNT as int)
            == self.inserted()
        &&& forall|b: int, a: int|
            self.has_slot(b, a) ==> {
                let header = (#[trigger] self.slot(b, a)).header;
                header.id + (if header.occupied() {
                    1int
                } else {
                    0
                }) <= self.buckets()[b].generated()
            }
    }

    /// The slots that are ready for insertion are those that once held an element, but don't anymore.
    pub open spec fn erasures_wf(self) -> bool {
        &&& self.erasures().no_duplicates()
        &&& forall|b: u32, a: u32|
            #![trigger self.erasures().contains((b, a))]
            #![trigger self.touched(b as int, a as int)]
            self.erasures().contains((b, a)) <==> self.touched(b as int, a as int) && !self.slot(
                b as int,
                a as int,
            ).header.occupied()
    }

    /// Every slot that was handed out either holds an element or is ready for insertion.
    pub open spec fn counts_wf(self) -> bool {
        &&& self@.dom().finite()
        &&& self@.len() + self.erasures().len() == self.touched_capacity()
    }

    pub open spec fn wf(self) -> bool {
        &&& self.buckets_wf()
        &&& self.ordinals_wf()
        &&& self.erasures_wf()
        &&& self.counts_wf()
    }

    /// Whether `other` has the same slots, which were handed out for the same elements.
    pub open spec fn same_slots(self, other: Self) -> bool {
        &&& other.spec_store_id() == self.spec_store_id()
        &&& other.inserts_remaining() == self.inserts_remaining()
        &&& other.touched_capacity() == self.touched_capacity()
        &&& other.allocated_capacity() == self.allocated_capacity()
        &&& other.sizes_known() == self.sizes_known()
        &&& forall|id: Id| #[trigger] other.issued(id) <==> self.issued(id)
    }

    /// Whether `other` differs from `self` in one slot only.
    pub open spec fn differs_in_slot(self, bucket: int, address: int, other: Self) -> bool {
        &&& other.spec_store_id() == self.spec_store_id()
        &&& other.inserts_remaining() == self.inserts_remaining()
        &&& other.buckets().len() == self.buckets().len()
        &&& forall|b: int|
            0 <= b < BUCKET_COUNT && b != bucket ==> #[trigger] other.buckets()[b]
                == self.buckets()[b]
        &&& self.buckets()[bucket].differs_in_slot(address, other.buckets()[bucket])
    }

    proof fn lemma_differs_in_slot(self, bucket: int, address: int, other: Self)
        requires
            self.buckets_wf(),
            self.touched(bucket, address),
            self.differs_in_slot(bucket, address, other),
        ensures
            other.buckets_wf(),
            other.touched_capacity() == self.touched_capacity(),
            other.allocated_capacity() == self.allocated_capacity(),
            other.sizes_known() == self.sizes_known(),
            forall|b: int, a: int| #[trigger] other.touched(b, a) == self.touched(b, a),
            forall|b: int, a: int| #[trigger] other.has_slot(b, a) == self.has_slot(b, a),
            forall|b: int, a: int|
                self.has_slot(b, a) && (b != bucket || a != address) ==> #[trigger] other.slot(b, a)
                    == self.slot(b, a),
            other.slot(bucket, address).wf(),
    {
        self.buckets()[bucket].lemma_differs_in_slot(address, other.buckets()[bucket]);
        assert forall|b: int| 0 <= b < BUCKET_COUNT implies {
            let bucket = #[trigger] other.buckets()[b];
            &&& bucket.wf()
            &&& bucket.inner().store_id() == other.spec_store_id()
            &&& bucket.touched_capacity() <= bucket.generated()
        } by {
            assert(self.buckets()[b].wf());
        }
        sum::lemma_sum_equal(
            |b: int| self.buckets()[b].touched_capacity(),
            |b: int| other.buckets()[b].touched_capacity(),
            BUCKET_COUNT as int,
        );
        sum::lemma_sum_equal(
            |b: int| self.buckets()[b].allocated_capacity(),
            |b: int| other.buckets()[b].allocated_capacity(),
            BUCKET_COUNT as int,
        );
        assert(forall|b: int|
            0 <= b < BUCKET_COUNT ==> (#[trigger] other.buckets()[b]).inner().head_size()
                == self.buckets()[b].inner().head_size());
        assert(forall|b: int|
            0 <= b < BUCKET_COUNT ==> (#[trigger] self.buckets()[b]).inner().head_size()
                == other.buckets()[b].inner().head_size());
    }

    /// The elements of the store without those in the given slot.
    spec fn elements_elsewhere(self, bucket: int, address: int) -> Map<Id, Element> {
        if self.slot(bucket, address).header.occupied() {
            self@.remove(self.id_at(bucket, address))
        } else {
            self@
        }
    }

    /// The locks of the elements of the store without those in the given slot.
    spec fn locks_elsewhere(self, bucket: int, address: int) -> Map<Id, Lock> {
        if self.slot(bucket, address).header.occupied() {
            self.locks().remove(self.id_at(bucket, address))
        } else {
            self.locks()
        }
    }

    /// An element is known by the slot that holds it.
    pub proof fn lemma_id_at(self, id: Id)
        requires
            self.contains(id),
        ensures
            id == self.id_at(id.spec_bucket_id() as int, id.spec_position() as int),
    {
        broadcast use id::law_id_parts;

        id::law_ids_with_equal_parts_are_equal(
            id,
            self.id_at(id.spec_bucket_id() as int, id.spec_position() as int),
        );
    }

    /// Changing a slot changes the elements and the locks by what is in that slot.
    proof fn lemma_slot_changed(self, bucket: int, address: int, other: Self)
        requires
            self.buckets_wf(),
            self.touched(bucket, address),
            self.differs_in_slot(bucket, address, other),
        ensures
            ({
                let slot = other.slot(bucket, address);
                let id = other.id_at(bucket, address);
                &&& other@ == if slot.header.occupied() {
                    self.elements_elsewhere(bucket, address).insert(id, slot.value->0)
                } else {
                    self.elements_elsewhere(bucket, address)
                }
                &&& other.locks() == if slot.header.occupied() {
                    self.locks_elsewhere(bucket, address).insert(id, slot.header.lock->0)
                } else {
                    self.locks_elsewhere(bucket, address)
                }
            }),
            self.slot(bucket, address).header.occupied() ==> self.contains(
                self.id_at(bucket, address),
            ),
    {
        broadcast use id::law_id_parts;

        self.lemma_differs_in_slot(bucket, address, other);
        self.buckets()[bucket].lemma_wf();
        let before = self.id_at(bucket, address);
        let after = other.id_at(bucket, address);
        assert(address <= u32::MAX);
        assert forall|id: Id| #[trigger]
            other.contains(id) implies if id.spec_bucket_id() == bucket && id.spec_position()
            == address {
            id == after && other.slot(bucket, address).header.occupied()
        } else {
            self.contains(id) && other.slot_of(id) == self.slot_of(id) && id != before
        } by {
            other.lemma_id_at(id);
        }
        assert forall|id: Id| #[trigger]
            self.contains(id) implies if id.spec_bucket_id() == bucket && id.spec_position()
            == address {
            id == before && self.slot(bucket, address).header.occupied()
        } else {
            other.contains(id) && id != after
        } by {
            self.lemma_id_at(id);
        }
        let slot = other.slot(bucket, address);
        assert(other@ =~= if slot.header.occupied() {
            self.elements_elsewhere(bucket, address).insert(after, slot.value->0)
        } else {
            self.elements_elsewhere(bucket, address)
        });
        assert(other.locks() =~= if slot.header.occupied() {
            self.locks_elsewhere(bucket, address).insert(after, slot.header.lock->0)
        } else {
            self.locks_elsewhere(bucket, address)
        });
    }

    /// What follows if an operation changes the lock or the value of a slot, but neither its ID nor
    /// whether it is occupied.
    proof fn lemma_slot_kept(self, bucket: int, address: int, other: Self)
        requires
            self.wf(),
            self.touched(bucket, address),
            self.differs_in_slot(bucket, address, other),
            other.erasures() == self.erasures(),
            other.slot(bucket, address).header.id == self.slot(bucket, address).header.id,
            other.slot(bucket, address).header.occupied() == self.slot(
                bucket,
                address,
            ).header.occupied(),
        ensures
            other.wf(),
            self.same_slots(other),
            self.slot(bucket, address).header.occupied() ==> {
                let slot = other.slot(bucket, address);
                let id = self.id_at(bucket, address);
                &&& self.contains(id)
                &&& other@ == self@.insert(id, slot.value->0)
                &&& other.locks() == self.locks().insert(id, slot.header.lock->0)
            },
            other.slot(bucket, address).value == self.slot(bucket, address).value ==> other@ == self@,
            other.slot(bucket, address).header == self.slot(bucket, address).header
                ==> other.locks() == self.locks(),
    {
        self.lemma_differs_in_slot(bucket, address, other);
        self.lemma_slot_changed(bucket, address, other);
        let slot = other.slot(bucket, address);
        let id = self.id_at(bucket, address);
        assert(other.id_at(bucket, address) == id);
        if slot.header.occupied() {
            assert(other@ =~= self@.insert(id, slot.value->0));
            assert(other.locks() =~= self.locks().insert(id, slot.header.lock->0));
            assert(other@.dom() =~= self@.dom());
            if slot.value == self.slot(bucket, address).value {
                assert(other@ =~= self@);
            }
            if slot.header == self.slot(bucket, address).header {
                assert(other.locks() =~= self.locks());
            }
        }
        sum::lemma_sum_equal(
            |b: int| self.buckets()[b].generated() as int,
            |b: int| other.buckets()[b].generated() as int,
            BUCKET_COUNT as int,
        );
        assert forall|b: int, a: int| other.has_slot(b, a) implies {
            let header = (#[trigger] other.slot(b, a)).header;
            header.id + (if header.occupied() {
                1int
            } else {
                0
            }) <= other.buckets()[b].generated()
        } by {
            assert(self.has_slot(b, a));
            let header = self.slot(b, a).header;
            assert(other.slot(b, a).header.id == header.id);
        }
        assert forall|b: u32, a: u32|
            #![trigger other.erasures().contains((b, a))]
            #![trigger other.touched(b as int, a as int)]
            other.erasures().contains((b, a)) <==> other.touched(b as int, a as int)
                && !other.slot(b as int, a as int).header.occupied() by {
            assert(self.erasures().contains((b, a)) <==> self.touched(b as int, a as int)
                && !self.slot(b as int, a as int).header.occupied());
            assert(other.touched(b as int, a as int) == self.touched(b as int, a as int));
            if self.touched(b as int, a as int) {
                assert(self.has_slot(b as int, a as int));
            }
        }
        assert forall|id: Id| #[trigger] other.issued(id) <==> self.issued(id) by {
            let (b, a) = (id.spec_bucket_id() as int, id.spec_position() as int);
            assert(other.touched(b, a) == self.touched(b, a));
            if self.touched(b, a) {
                assert(self.has_slot(b, a) && other.has_slot(b, a));
                assert(other.slot(b, a).header.id == self.slot(b, a).header.id);
            }
        }
    }

    /// What is known of the slot of an ID that was created by this store.
    pub proof fn lemma_issued(self, id: Id)
        requires
            self.wf(),
            self.issued(id),
        ensures
            self.touched(id.spec_bucket_id() as int, id.spec_position() as int),
            self.has_slot(id.spec_bucket_id() as int, id.spec_position() as int),
            self.slot_of(id).wf(),
            self.slot_of(id).may_look_up(id.spec_ordinal()),
            self.contains(id) <==> self.slot_of(id).header.id == id.spec_ordinal(),
            self.contains(id) ==> id == self.id_at(
                id.spec_bucket_id() as int,
                id.spec_position() as int,
            ),
            ({
                let bucket = self.buckets()[id.spec_bucket_id() as int];
                &&& bucket.inner().blocks() is Some
                &&& bucket.inner().blocks()->0.wf()
                &&& bucket.inner().blocks()->0.has_address(id.spec_position() as int)
            }),
    {
        let bucket = self.buckets()[id.spec_bucket_id() as int];
        assert(bucket.wf());
        bucket.lemma_wf();
        assert(self.slot(id.spec_bucket_id() as int, id.spec_position() as int).wf());
        if self.contains(id) {
            self.lemma_id_at(id);
        }
    }

    /// The IDs of the elements in the store were created by it.
    pub proof fn lemma_contains_issued(self, id: Id)
        requires
            self.wf(),
            self.contains(id),
        ensures
            self.issued(id),
    {
        let (b, a) = (id.spec_bucket_id() as int, id.spec_position() as int);
        let bucket = self.buckets()[b];
        assert(bucket.wf());
        if !self.touched(b, a) {
            assert(bucket.inner().at(a) == SlotView::<Element>::pristine());
        }
    }

    /// What follows if the element of a slot is removed and the slot is noted for reuse.
    proof fn lemma_slot_vacated(self, bucket: int, address: int, other: Self)
        requires
            self.wf(),
            self.touched(bucket, address),
            self.differs_in_slot(bucket, address, other),
            other.erasures() == self.erasures().push((bucket as u32, address as u32)),
            self.slot(bucket, address).header.occupied(),
            other.slot(bucket, address).header == self.slot(bucket, address).header.after_remove(),
        ensures
            other.wf(),
            self.same_slots(other),
            other@ == self@.remove(self.id_at(bucket, address)),
            other.locks() == self.locks().remove(self.id_at(bucket, address)),
            self.contains(self.id_at(bucket, address)),
    {
        self.lemma_differs_in_slot(bucket, address, other);
        self.lemma_slot_changed(bucket, address, other);
        let header = self.slot(bucket, address).header;
        self.buckets()[bucket].lemma_wf();
        assert(self.has_slot(bucket, address));
        assert(header.id + 1 <= self.buckets()[bucket].generated());
        assert(other.slot(bucket, address).header.id == header.id + 1);
        sum::lemma_sum_equal(
            |b: int| self.buckets()[b].generated() as int,
            |b: int| other.buckets()[b].generated() as int,
            BUCKET_COUNT as int,
        );
        assert forall|b: int, a: int| other.has_slot(b, a) implies {
            let header = (#[trigger] other.slot(b, a)).header;
            header.id + (if header.occupied() {
                1int
            } else {
                0
            }) <= other.buckets()[b].generated()
        } by {
            assert(self.has_slot(b, a));
            let header = self.slot(b, a).header;
            assert(header.id + (if header.occupied() {
                1int
            } else {
                0
            }) <= self.buckets()[b].generated());
        }
        let entry = (bucket as u32, address as u32);
        assert(!self.erasures().contains(entry)) by {
            assert(self.touched(entry.0 as int, entry.1 as int));
        }
        assert forall|b: u32, a: u32|
            #![trigger other.erasures().contains((b, a))]
            #![trigger other.touched(b as int, a as int)]
            other.erasures().contains((b, a)) <==> other.touched(b as int, a as int)
                && !other.slot(b as int, a as int).header.occupied() by {
            assert(other.touched(b as int, a as int) == self.touched(b as int, a as int));
            assert(self.erasures().contains((b, a)) <==> self.touched(b as int, a as int)
                && !self.slot(b as int, a as int).header.occupied());
            let before = self.erasures();
            let after = other.erasures();
            if after.contains((b, a)) {
                let k = choose|k: int| 0 <= k < after.len() && after[k] == (b, a);
                assert((b, a) == entry || before[k] == (b, a));
            }
            if before.contains((b, a)) {
                let k = choose|k: int| 0 <= k < before.len() && before[k] == (b, a);
                assert(after[k] == (b, a));
            }
            if (b, a) == entry {
                assert(after[before.len() as int] == (b, a));
            }
            if self.touched(b as int, a as int) {
                assert(self.has_slot(b as int, a as int));
            }
        }
        assert forall|id: Id| #[trigger] other.issued(id) <==> self.issued(id) by {
            let (b, a) = (id.spec_bucket_id() as int, id.spec_position() as int);
            assert(other.touched(b, a) == self.touched(b, a));
            if self.touched(b, a) {
                assert(self.has_slot(b, a) && other.has_slot(b, a));
            }
        }
    }
}

// Reading.
impl<Element> RwStore<Element> {
    /// Whether a read lock on the element with the given ID was handed out, or the element is not
    /// there, and what became of the locks.
    pub open spec fn read_locked(
        self,
        id: Id,
        lock: Option<ReadLock<Element>>,
        locks: Map<Id, Lock>,
    ) -> bool {
        match lock {
            Some(lock) => {
                &&& self@.contains_key(id)
                &&& self.locks()[id] !is Write
                &&& lock.spec_id() == id
                &&& locks == self.locks().insert(id, self.locks()[id].after_lock_read())
            },
            None => !self@.contains_key(id) && locks == self.locks(),
        }
    }

    /// What becomes of the locks if a thread waits for one on the element with the given ID.
    pub open spec fn locks_waited_for(self, id: Id, timeout: Timeout) -> Map<Id, Lock> {
        if timeout is DontBlock {
            self.locks()
        } else {
            self.locks().insert(id, self.locks()[id].after_mark())
        }
    }

    /// Acquires a read lock on an element given its ID, if it is still present in the store, or says
    /// that the calling thread has to park because a write lock is held on the element.
    pub fn poll_read(&mut self, id: Id, timeout: Timeout) -> (choice: ParkChoice<
        BlockResult<Option<ReadLock<Element>>>,
    >)
        requires
            old(self).wf(),
            old(self).issued(id),
            old(self)@.contains_key(id) ==> old(self).locks()[id].readers() < MAX_CONCURRENT_READS,
        ensures
            final(self).wf(),
            old(self).same_slots(*final(self)),
            final(self)@ == old(self)@,
            final(self).erasures() == old(self).erasures(),
            match choice {
                ParkChoice::DontPark(Ok(lock)) => old(self).read_locked(id, lock, final(self).locks()),
                ParkChoice::DontPark(Err(_)) => {
                    &&& old(self)@.contains_key(id)
                    &&& old(self).locks()[id] is Write
                    &&& timeout is DontBlock
                    &&& final(self).locks() == old(self).locks()
                },
                ParkChoice::Park => {
                    &&& old(self)@.contains_key(id)
                    &&& old(self).locks()[id] is Write
                    &&& timeout !is DontBlock
                    &&& final(self).locks() == old(self).locks_waited_for(id, timeout)
                },
            },
    {
        proof {
            self.lemma_issued(id);
        }
        let bucket_id = id.bucket_id() as usize;
        let choice = self.buckets[bucket_id].head_mut().poll_lock_read(id, timeout);
        proof {
            old(self).lemma_slot_kept(bucket_id as int, id.spec_position() as int, *self);
        }
        match choice {
            ParkChoice::Park => ParkChoice::Park,
            ParkChoice::DontPark(Err(error)) => ParkChoice::DontPark(Err(error)),
            ParkChoice::DontPark(Ok(true)) => ParkChoice::DontPark(Ok(Some(ReadLock::new(id)))),
            ParkChoice::DontPark(Ok(false)) => ParkChoice::DontPark(Ok(None)),
        }
    }

    /// Acquires a read lock on an element given its ID, if it is still present in the store.
    ///
    /// As the caller has exclusive access to the store, waiting for a write lock to be released is
    /// in vain: this fails, unless the timeout would have it wait forever.
    pub fn read_with_timeout(&mut self, id: Id, timeout: Timeout) -> (result: BlockResult<
        Option<ReadLock<Element>>,
    >)
        requires
            old(self).wf(),
            old(self).issued(id),
            old(self)@.contains_key(id) ==> old(self).locks()[id].readers() < MAX_CONCURRENT_READS,
            old(self)@.contains_key(id) && old(self).locks()[id] is Write
                ==> timeout !is BlockIndefinitely,
        ensures
            final(self).wf(),
            old(self).same_slots(*final(self)),
            final(self)@ == old(self)@,
            final(self).erasures() == old(self).erasures(),
            match result {
                Ok(lock) => old(self).read_locked(id, lock, final(self).locks()),
                Err(_) => {
                    &&& old(self)@.contains_key(id)
                    &&& old(self).locks()[id] is Write
                    &&& final(self).locks() == old(self).locks_waited_for(id, timeout)
                },
            },
    {
        match self.poll_read(id, timeout) {
            ParkChoice::Park => Err(TimedOut),
            ParkChoice::DontPark(result) => result,
        }
    }

    /// Acquires a read lock on an element given its ID, if it is still present in the store. No
    /// write lock may be held on the element.
    pub fn read(&mut self, id: Id) -> (lock: Option<ReadLock<Element>>)
        requires
            old(self).wf(),
            old(self).issued(id),
            old(self)@.contains_key(id) ==> old(self).locks()[id].readers() < MAX_CONCURRENT_READS
                && old(self).locks()[id] !is Write,
        ensures
            final(self).wf(),
            old(self).same_slots(*final(self)),
            final(self)@ == old(self)@,
            final(self).erasures() == old(self).erasures(),
            old(self).read_locked(id, lock, final(self).locks()),
    {
        match self.read_with_timeout(id, Timeout::BlockIndefinitely) {
            Ok(lock) => lock,
            Err(_) => None,
        }
    }

    /// Releases a read lock on an element, and says whether the threads that are parked on the
    /// element have to be unparked.
    pub fn unlock_read(&mut self, lock: ReadLock<Element>) -> (must_unpark: bool)
        requires
            old(self).wf(),
            old(self)@.contains_key(lock.spec_id()),
            old(self).locks()[lock.spec_id()] is Read,
        ensures
            final(self).wf(),
            old(self).same_slots(*final(self)),
            final(self)@ == old(self)@,
            final(self).erasures() == old(self).erasures(),
            final(self).locks() == old(self).locks().insert(
                lock.spec_id(),
                old(self).locks()[lock.spec_id()].after_unlock_read(),
            ),
            must_unpark == (old(self).locks()[lock.spec_id()].readers() == 1 && old(
                self).locks()[lock.spec_id()].waiting()),
    {
        let id = lock.id();
        proof {
            self.lemma_contains_issued(id);
            self.lemma_issued(id);
        }
        let bucket_id = id.bucket_id() as usize;
        let must_unpark = self.buckets[bucket_id].head_mut().unlock_read(id);
        proof {
            old(self).lemma_slot_kept(bucket_id as int, id.spec_position() as int, *self);
        }
        must_unpark
    }

    /// Determines whether as many read locks are held on an element as can be.
    pub fn has_too_many_readers(&self, id: Id) -> (too_many: bool)
        requires
            self.wf(),
            self.issued(id),
        ensures
            too_many == (self@.contains_key(id) && self.locks()[id].readers()
                >= MAX_CONCURRENT_READS),
    {
        proof {
            self.lemma_issued(id);
        }
        self.buckets[id.bucket_id() as usize].head().has_too_many_readers(id)
    }
}

// Writing.
impl<Element> RwStore<Element> {
    /// Whether the write lock on the element with the given ID was handed out, or the element is not
    /// there, and what became of the locks.
    pub open spec fn write_locked(
        self,
        id: Id,
        lock: Option<WriteLock<Element>>,
        locks: Map<Id, Lock>,
    ) -> bool {
        match lock {
            Some(lock) => {
                &&& self@.contains_key(id)
                &&& self.locks()[id] is Unlocked
                &&& lock.spec_id() == id
                &&& locks == self.locks().insert(id, Lock::Write { waiting: false })
            },
            None => !self@.contains_key(id) && locks == self.locks(),
        }
    }

    /// Acquires a write lock on an element given its ID, if it is still present in the store, or
    /// says that the calling thread has to park because a lock is held on the element.
    pub fn poll_write(&mut self, id: Id, timeout: Timeout) -> (choice: ParkChoice<
        BlockResult<Option<WriteLock<Element>>>,
    >)
        requires
            old(self).wf(),
            old(self).issued(id),
        ensures
            final(self).wf(),
            old(self).same_slots(*final(self)),
            final(self)@ == old(self)@,
            final(self).erasures() == old(self).erasures(),
            match choice {
                ParkChoice::DontPark(Ok(lock)) => old(self).write_locked(
                    id,
                    lock,
                    final(self).locks(),
                ),
                ParkChoice::DontPark(Err(_)) => {
                    &&& old(self)@.contains_key(id)
                    &&& old(self).locks()[id] !is Unlocked
                    &&& timeout is DontBlock
                    &&& final(self).locks() == old(self).locks()
                },
                ParkChoice::Park => {
                    &&& old(self)@.contains_key(id)
                    &&& old(self).locks()[id] !is Unlocked
                    &&& timeout !is DontBlock
                    &&& final(self).locks() == old(self).locks_waited_for(id, timeout)
                },
            },
    {
        proof {
            self.lemma_issued(id);
        }
        let bucket_id = id.bucket_id() as usize;
        let choice = self.buckets[bucket_id].head_mut().poll_lock_write(id, timeout);
        proof {
            old(self).lemma_slot_kept(bucket_id as int, id.spec_position() as int, *self);
        }
        match choice {
            ParkChoice::Park => ParkChoice::Park,
            ParkChoice::DontPark(Err(error)) => ParkChoice::DontPark(Err(error)),
            ParkChoice::DontPark(Ok(true)) => ParkChoice::DontPark(Ok(Some(WriteLock::new(id)))),
            ParkChoice::DontPark(Ok(false)) => ParkChoice::DontPark(Ok(None)),
        }
    }

    /// Acquires a write lock on an element given its ID, if it is still present in the store.
    ///
    /// As the caller has exclusive access to the store, waiting for a lock to be released is in
    /// vain: this fails, unless the timeout would have it wait forever.
    pub fn write_with_timeout(&mut self, id: Id, timeout: Timeout) -> (result: BlockResult<
        Option<WriteLock<Element>>,
    >)
        requires
            old(self).wf(),
            old(self).issued(id),
            old(self)@.contains_key(id) && old(self).locks()[id] !is Unlocked
                ==> timeout !is BlockIndefinitely,
        ensures
            final(self).wf(),
            old(self).same_slots(*final(self)),
            final(self)@ == old(self)@,
            final(self).erasures() == old(self).erasures(),
            match result {
                Ok(lock) => old(self).write_locked(id, lock, final(self).locks()),
                Err(_) => {
                    &&& old(self)@.contains_key(id)
                    &&& old(self).locks()[id] !is Unlocked
                    &&& final(self).locks() == old(self).locks_waited_for(id, timeout)
                },
            },
    {
        match self.poll_write(id, timeout) {
            ParkChoice::Park => Err(TimedOut),
            ParkChoice::DontPark(result) => result,
        }
    }

    /// Acquires a write lock on an element given its ID, if it is still present in the store. No
    /// lock may be held on the element.
    pub fn write(&mut self, id: Id) -> (lock: Option<WriteLock<Element>>)
        requires
            old(self).wf(),
            old(self).issued(id),
            old(self)@.contains_key(id) ==> old(self).locks()[id] is Unlocked,
        ensures
            final(self).wf(),
            old(self).same_slots(*final(self)),
            final(self)@ == old(self)@,
            final(self).erasures() == old(self).erasures(),
            old(self).write_locked(id, lock, final(self).locks()),
    {
        match self.write_with_timeout(id, Timeout::BlockIndefinitely) {
            Ok(lock) => lock,
            Err(_) => None,
        }
    }

    /// Releases a write lock on an element, and says whether the threads that are parked on the
    /// element have to be unparked.
    pub fn unlock_write(&mut self, lock: WriteLock<Element>) -> (must_unpark: bool)
        requires
            old(self).wf(),
            old(self)@.contains_key(lock.spec_id()),
            old(self).locks()[lock.spec_id()] is Write,
        ensures
            final(self).wf(),
            old(self).same_slots(*final(self)),
            final(self)@ == old(self)@,
            final(self).erasures() == old(self).erasures(),
            final(self).locks() == old(self).locks().insert(lock.spec_id(), Lock::Unlocked),
            must_unpark == old(self).locks()[lock.spec_id()].waiting(),
    {
        let id = lock.forget();
        proof {
            self.lemma_contains_issued(id);
            self.lemma_issued(id);
        }
        let bucket_id = id.bucket_id() as usize;
        let must_unpark = self.buckets[bucket_id].head_mut().unlock_write(id);
        proof {
            old(self).lemma_slot_kept(bucket_id as int, id.spec_position() as int, *self);
        }
        must_unpark
    }
}

// Removal.
impl<Element> RwStore<Element> {
    /// Whether `other` is this store without the element with the given ID, which was handed out, or
    /// the element is not there.
    pub open spec fn removed(self, id: Id, element: Option<Element>, other: Self) -> bool {
        match element {
            Some(element) => {
                &&& self@.contains_key(id)
                &&& element == self@[id]
                &&& other@ == self@.remove(id)
                &&& other.locks() == self.locks().remove(id)
                &&& other.erasures() == self.erasures().push(
                    (id.spec_bucket_id(), id.spec_position()),
                )
            },
            None => {
                &&& !self@.contains_key(id)
                &&& other@ == self@
                &&& other.locks() == self.locks()
                &&& other.erasures() == self.erasures()
            },
        }
    }

    /// Removes an element from the store using its ID if it has not already been removed, or says
    /// that the calling thread has to park because a lock is held on the element. Returns the
    /// element if it was present.
    pub fn poll_remove(&mut self, id: Id, timeout: Timeout) -> (choice: ParkChoice<
        BlockResult<Option<Element>>,
    >)
        requires
            old(self).wf(),
            old(self).issued(id),
        ensures
            final(self).wf(),
            old(self).same_slots(*final(self)),
            match choice {
                ParkChoice::DontPark(Ok(element)) => {
                    &&& old(self).removed(id, element, *final(self))
                    &&& old(self)@.contains_key(id) ==> old(self).locks()[id] is Unlocked
                },
                ParkChoice::DontPark(Err(_)) => {
                    &&& old(self)@.contains_key(id)
                    &&& old(self).locks()[id] !is Unlocked
                    &&& timeout is DontBlock
                    &&& final(self)@ == old(self)@
                    &&& final(self).locks() == old(self).locks()
                    &&& final(self).erasures() == old(self).erasures()
                },
                ParkChoice::Park => {
                    &&& old(self)@.contains_key(id)
                    &&& old(self).locks()[id] !is Unlocked
                    &&& timeout !is DontBlock
                    &&& final(self)@ == old(self)@
                    &&& final(self).locks() == old(self).locks_waited_for(id, timeout)
                    &&& final(self).erasures() == old(self).erasures()
                },
            },
    {
        proof {
            self.lemma_issued(id);
        }
        let bucket_id = id.bucket_id() as usize;
        let choice = self.buckets[bucket_id].head_mut().poll_remove(id, timeout);
        match choice {
            ParkChoice::DontPark(Ok(Some(element))) => {
                self.push_erasure(id);
                proof {
                    old(self).lemma_slot_vacated(bucket_id as int, id.spec_position() as int, *self);
                }
                ParkChoice::DontPark(Ok(Some(element)))
            },
            _ => {
                proof {
                    old(self).lemma_slot_kept(bucket_id as int, id.spec_position() as int, *self);
                }
                choice
            },
        }
    }

    /// Removes an element from the store using its ID if it has not already been removed. Returns
    /// the element if it was present.
    ///
    /// As the caller has exclusive access to the store, waiting for a lock to be released is in
    /// vain: this fails, unless the timeout would have it wait forever.
    pub fn remove_with_timeout(&mut self, id: Id, timeout: Timeout) -> (result: BlockResult<
        Option<Element>,
    >)
        requires
            old(self).wf(),
            old(self).issued(id),
            old(self)@.contains_key(id) && old(self).locks()[id] !is Unlocked
                ==> timeout !is BlockIndefinitely,
        ensures
            final(self).wf(),
            old(self).same_slots(*final(self)),
            match result {
                Ok(element) => {
                    &&& old(self).removed(id, element, *final(self))
                    &&& old(self)@.contains_key(id) ==> old(self).locks()[id] is Unlocked
                },
                Err(_) => {
                    &&& old(self)@.contains_key(id)
                    &&& old(self).locks()[id] !is Unlocked
                    &&& final(self)@ == old(self)@
                    &&& final(self).locks() == old(self).locks_waited_for(id, timeout)
                    &&& final(self).erasures() == old(self).erasures()
                },
            },
    {
        match self.poll_remove(id, timeout) {
            ParkChoice::Park => Err(TimedOut),
            ParkChoice::DontPark(result) => result,
        }
    }

    /// Removes an element from the store using its ID if it has not already been removed. Returns
    /// the element if it was present. No lock may be held on the element.
    pub fn remove(&mut self, id: Id) -> (element: Option<Element>)
        requires
            old(self).wf(),
            old(self).issued(id),
            old(self)@.contains_key(id) ==> old(self).locks()[id] is Unlocked,
        ensures
            final(self).wf(),
            old(self).same_slots(*final(self)),
            old(self).removed(id, element, *final(self)),
    {
        match self.remove_with_timeout(id, Timeout::BlockIndefinitely) {
            Ok(element) => element,
            Err(_) => None,
        }
    }

    /// Removes an element from the store directly using a write lock held over the element, and says
    /// whether the threads that are parked on the element have to be unparked.
    pub fn remove_locked_and_unpark(&mut self, lock: WriteLock<Element>) -> (removed: (
        Element,
        bool,
    ))
        requires
            old(self).wf(),
            old(self)@.contains_key(lock.spec_id()),
            old(self).locks()[lock.spec_id()] is Write,
        ensures
            final(self).wf(),
            old(self).same_slots(*final(self)),
            old(self).removed(lock.spec_id(), Some(removed.0), *final(self)),
            removed.1 == old(self).locks()[lock.spec_id()].waiting(),
    {
        let id = lock.forget();
        proof {
            self.lemma_contains_issued(id);
            self.lemma_issued(id);
        }
        let bucket_id = id.bucket_id() as usize;
        let (element, removal) = self.buckets[bucket_id].head_mut().remove_locked(id);
        self.push_erasure(id);
        proof {
            old(self).lemma_slot_vacated(bucket_id as int, id.spec_position() as int, *self);
        }
        (element, removal.must_unpark)
    }

    /// Removes an element from the store directly using a write lock held over the element. This is
    /// likely more efficient than unlocking and removing the element, and is guaranteed to succeed
    /// atomically, without blocking.
    pub fn remove_locked(&mut self, lock: WriteLock<Element>) -> (element: Element)
        requires
            old(self).wf(),
            old(self)@.contains_key(lock.spec_id()),
            old(self).locks()[lock.spec_id()] is Write,
        ensures
            final(self).wf(),
            old(self).same_slots(*final(self)),
            old(self).removed(lock.spec_id(), Some(element), *final(self)),
    {
        let (element, _) = self.remove_locked_and_unpark(lock);
        element
    }

    fn push_erasure(&mut self, id: Id)
        ensures
            final(self).buckets() == old(self).buckets(),
            final(self).spec_store_id() == old(self).spec_store_id(),
            final(self).inserts_remaining() == old(self).inserts_remaining(),
            final(self).erasures() == old(self).erasures().push(
                (id.spec_bucket_id(), id.spec_position()),
            ),
    {
        self.erasures.push((id.bucket_id(), id.slot().position));
    }
}

// Insertion.
impl<Element> RwStore<Element> {
    /// Creates a new, empty store.
    pub fn new(store_id: RwStoreId) -> (store: Self)
        ensures
            store.wf(),
            store@ == Map::<Id, Element>::empty(),
            store.locks() == Map::<Id, Lock>::empty(),
            store.erasures() == Seq::<(u32, u32)>::empty(),
            store.spec_store_id() == store_id,
            store.inserts_remaining() == u32::MAX,
            store.touched_capacity() == 0,
            store.allocated_capacity() == 0,
            forall|id: Id| !#[trigger] store.issued(id),
    {
        let buckets = [
            Bucket::new(store_id),
            Bucket::new(store_id),
            Bucket::new(store_id),
            Bucket::new(store_id),
            Bucket::new(store_id),
            Bucket::new(store_id),
            Bucket::new(store_id),
            Bucket::new(store_id),
            Bucket::new(store_id),
            Bucket::new(store_id),
            Bucket::new(store_id),
            Bucket::new(store_id),
            Bucket::new(store_id),
            Bucket::new(store_id),
            Bucket::new(store_id),
            Bucket::new(store_id),
        ];

        let store = Self {
            buckets,
            erasures: ConcurrentQueue::new(),
            store_id,
            insert_enforcer: MaximumInsertEnforcer::new(),
        };
        proof {
            assert forall|b: int, a: int| !#[trigger] store.has_slot(b, a) by {
                if 0 <= b < BUCKET_COUNT {
                    assert(store.buckets()[b].inner().blocks() is None);
                }
            }
            assert forall|b: int, a: int| !#[trigger] store.touched(b, a) by {
                assert(!store.has_slot(b, a));
            }
            assert(store@ =~= Map::<Id, Element>::empty());
            assert(store.locks() =~= Map::<Id, Lock>::empty());
            sum::lemma_sum_zero(
                |b: int| store.buckets()[b].touched_capacity(),
                BUCKET_COUNT as int,
            );
            sum::lemma_sum_zero(
                |b: int| store.buckets()[b].allocated_capacity(),
                BUCKET_COUNT as int,
            );
            sum::lemma_sum_zero(
                |b: int| store.buckets()[b].generated() as int,
                BUCKET_COUNT as int,
            );
        }
        store
    }

    /// Generates a pseudo-random bucket ID for element insertion. This will return different
    /// results for different threads, each of which has a state of its own, and invocations.
    pub fn arbitrary_bucket_id(thread_state: &mut u32) -> (bucket_id: u32)
        ensures
            *final(thread_state) == lcg::next_state(*old(thread_state)),
            bucket_id == *final(thread_state) % BUCKET_COUNT,
    {
        // Here we use a linear congruential generator
        lcg::advance(thread_state);
        *thread_state % BUCKET_COUNT
    }

    /// Whether `other` is this store once a slot was chosen for an element and an ordinal was
    /// generated for it, but before the element was put there.
    spec fn prepared(self, bucket: int, address: int, other: Self) -> bool {
        let before = self.buckets()[bucket];
        let after = other.buckets()[bucket];
        &&& other.spec_store_id() == self.spec_store_id()
        &&& other.inserts_remaining() == self.inserts_remaining() - 1
        &&& other.buckets().len() == self.buckets().len()
        &&& forall|b: int|
            0 <= b < BUCKET_COUNT && b != bucket ==> #[trigger] other.buckets()[b]
                == self.buckets()[b]
        &&& 0 <= bucket < BUCKET_COUNT
        &&& after.wf()
        &&& after.inner().store_id() == before.inner().store_id()
        &&& after.generated() == before.generated() + 1
        &&& after.has_address(address)
        &&& !after.at(address).header.occupied()
        &&& forall|a: int| before.has_address(a) ==> #[trigger] after.at(a) == before.at(a)
        &&& before.allocated_capacity() <= after.allocated_capacity()
        &&& forall|a: int| #[trigger] after.touched(a) <==> before.touched(a) || a == address
        &&& if self.erasures().len() > 0 {
            &&& (bucket as u32, address as u32) == self.erasures()[0]
            &&& other.erasures() == self.erasures().subrange(1, self.erasures().len() as int)
            &&& after.touched_capacity() == before.touched_capacity()
            &&& after.allocated_capacity() == before.allocated_capacity()
        } else {
            &&& other.erasures() == self.erasures()
            &&& !before.touched(address)
            &&& after.at(address) == SlotView::<Element>::pristine()
            &&& after.touched_capacity() == before.touched_capacity() + 1
        }
    }

    proof fn lemma_prepared(self, bucket: int, address: int, other: Self)
        requires
            self.wf(),
            self.prepared(bucket, address, other),
        ensures
            other@ == self@,
            other.locks() == self.locks(),
            other.buckets_wf(),
            other.touched(bucket, address),
            other.touched_capacity() == self.touched_capacity() + if self.erasures().len() > 0 {
                0int
            } else {
                1
            },
            other.allocated_capacity() == self.allocated_capacity()
                + other.buckets()[bucket].allocated_capacity()
                - self.buckets()[bucket].allocated_capacity(),
            sum::sum(|b: int| other.buckets()[b].generated() as int, BUCKET_COUNT as int)
                == other.inserted(),
            forall|id: Id| #[trigger] self.issued(id) ==> other.issued(id),
    {
        let before = self.buckets()[bucket];
        let after = other.buckets()[bucket];
        before.lemma_wf();
        assert forall|id: Id| #[trigger] other.contains(id) <==> self.contains(id) by {
            let (b, a) = (id.spec_bucket_id() as int, id.spec_position() as int);
            if b == bucket && other.contains(id) && !self.has_slot(b, a) {
                assert(!before.touched(a));
                assert(!after.touched(a));
                assert(after.inner().at(a) == SlotView::<Element>::pristine());
            }
        }
        assert forall|id: Id| #[trigger] self.contains(id) implies other.slot_of(id)
            == self.slot_of(id) by {}
        assert(other@ =~= self@);
        assert(other.locks() =~= self.locks());
        assert forall|b: int| 0 <= b < BUCKET_COUNT implies {
            let bucket = #[trigger] other.buckets()[b];
            &&& bucket.wf()
            &&& bucket.inner().store_id() == other.spec_store_id()
            &&& bucket.touched_capacity() <= bucket.generated()
        } by {
            assert(self.buckets()[b].wf());
        }
        sum::lemma_sum_update(
            |b: int| self.buckets()[b].touched_capacity(),
            |b: int| other.buckets()[b].touched_capacity(),
            BUCKET_COUNT as int,
            bucket,
        );
        sum::lemma_sum_update(
            |b: int| self.buckets()[b].allocated_capacity(),
            |b: int| other.buckets()[b].allocated_capacity(),
            BUCKET_COUNT as int,
            bucket,
        );
        sum::lemma_sum_update(
            |b: int| self.buckets()[b].generated() as int,
            |b: int| other.buckets()[b].generated() as int,
            BUCKET_COUNT as int,
            bucket,
        );
        assert forall|id: Id| #[trigger] self.issued(id) implies other.issued(id) by {
            let (b, a) = (id.spec_bucket_id() as int, id.spec_position() as int);
            assert(other.contains(id) <==> self.contains(id));
        }
    }

    /// What follows if an element is put into the slot that was chosen for it.
    proof fn lemma_slot_filled(
        self,
        bucket: int,
        address: int,
        ready: Self,
        other: Self,
        element: Element,
    )
        requires
            self.wf(),
            self.prepared(bucket, address, ready),
            ready.differs_in_slot(bucket, address, other),
            other.erasures() == ready.erasures(),
            other.slot(bucket, address) == (SlotView {
                header: ready.slot(bucket, address).header.after_insert(
                    self.buckets()[bucket].generated(),
                ),
                value: Some(element),
            }),
        ensures
            other.wf(),
            ({
                let id = other.id_at(bucket, address);
                &&& !self.issued(id)
                &&& other.issued(id)
                &&& other@ == self@.insert(id, element)
                &&& other.locks() == self.locks().insert(id, Lock::Unlocked)
            }),
            forall|id: Id| #[trigger] self.issued(id) ==> other.issued(id),
            other.touched_capacity() == self.touched_capacity() + if self.erasures().len() > 0 {
                0int
            } else {
                1
            },
            other.allocated_capacity() == self.allocated_capacity()
                + ready.buckets()[bucket].allocated_capacity()
                - self.buckets()[bucket].allocated_capacity(),
    {
        broadcast use id::law_id_parts;

        self.lemma_prepared(bucket, address, ready);
        ready.lemma_differs_in_slot(bucket, address, other);
        ready.lemma_slot_changed(bucket, address, other);
        let ordinal = self.buckets()[bucket].generated();
        let id = other.id_at(bucket, address);
        let entry = (bucket as u32, address as u32);
        ready.buckets()[bucket].lemma_wf();
        assert(address <= u32::MAX);
        if self.erasures().len() > 0 {
            assert(self.erasures().contains(entry));
            assert(self.has_slot(bucket, address));
            assert(ready.slot(bucket, address) == self.slot(bucket, address));
            assert(self.slot(bucket, address).header.id <= ordinal);
        } else {
            assert(!self.erasures().contains(entry));
        }
        assert(!self.issued(id));
        assert(!self.contains(id));
        sum::lemma_sum_equal(
            |b: int| ready.buckets()[b].generated() as int,
            |b: int| other.buckets()[b].generated() as int,
            BUCKET_COUNT as int,
        );
        assert forall|b: int, a: int| other.has_slot(b, a) implies {
            let header = (#[trigger] other.slot(b, a)).header;
            header.id + (if header.occupied() {
                1int
            } else {
                0
            }) <= other.buckets()[b].generated()
        } by {
            assert(ready.has_slot(b, a));
            if b != bucket || a != address {
                assert(other.slot(b, a) == ready.slot(b, a));
                if self.has_slot(b, a) {
                    assert(ready.slot(b, a) == self.slot(b, a));
                } else {
                    assert(!ready.touched(b, a));
                    assert(ready.buckets()[b].inner().at(a) == SlotView::<Element>::pristine());
                }
            }
        }
        assert forall|b: u32, a: u32|
            #![trigger other.erasures().contains((b, a))]
            #![trigger other.touched(b as int, a as int)]
            other.erasures().contains((b, a)) <==> other.touched(b as int, a as int)
                && !other.slot(b as int, a as int).header.occupied() by {
            assert(other.touched(b as int, a as int) == ready.touched(b as int, a as int));
            assert(self.erasures().contains((b, a)) <==> self.touched(b as int, a as int)
                && !self.slot(b as int, a as int).header.occupied());
            let before = self.erasures();
            let after = other.erasures();
            if before.len() > 0 {
                if after.contains((b, a)) {
                    let k = choose|k: int| 0 <= k < after.len() && after[k] == (b, a);
                    assert(before[k + 1] == (b, a));
                    assert(before[0] != before[k + 1]);
                }
                if before.contains((b, a)) && (b, a) != entry {
                    let k = choose|k: int| 0 <= k < before.len() && before[k] == (b, a);
                    assert(after[k - 1] == (b, a));
                }
            }
            if self.touched(b as int, a as int) {
                assert(self.has_slot(b as int, a as int));
                assert(ready.has_slot(b as int, a as int));
            }
        }
        assert(other.erasures().no_duplicates());
        assert forall|id: Id| #[trigger] self.issued(id) implies other.issued(id) by {
            let (b, a) = (id.spec_bucket_id() as int, id.spec_position() as int);
            assert(ready.issued(id));
            assert(other.touched(b, a) == ready.touched(b, a));
            if b == bucket && a == address {
                assert(ready.slot(b, a) == self.slot(b, a));
                assert(!ready.contains(id));
            } else {
                assert(ready.has_slot(b, a) && other.has_slot(b, a));
                assert(other.slot(b, a) == ready.slot(b, a));
            }
        }
    }

    /// Chooses a slot for an element, preferably one that is ready for reuse.
    fn next_insert_location(&mut self, thread_state: &mut u32) -> (location: (u32, u32))
        requires
            old(self).wf(),
            old(self).inserts_remaining() > 0,
        ensures
            final(self).spec_store_id() == old(self).spec_store_id(),
            final(self).inserts_remaining() == old(self).inserts_remaining(),
            final(self).buckets().len() == old(self).buckets().len(),
            location.0 < BUCKET_COUNT,
            old(self).erasures().len() > 0 ==> {
                &&& location == old(self).erasures()[0]
                &&& old(self).touched(location.0 as int, location.1 as int)
                &&& !old(self).slot(location.0 as int, location.1 as int).header.occupied()
                &&& final(self).erasures() == old(self).erasures().subrange(
                    1,
                    old(self).erasures().len() as int,
                )
                &&& final(self).buckets() == old(self).buckets()
                &&& *final(thread_state) == *old(thread_state)
            },
            old(self).erasures().len() == 0 ==> {
                let before = old(self).buckets()[location.0 as int];
                let after = final(self).buckets()[location.0 as int];
                &&& *final(thread_state) == lcg::next_state(*old(thread_state))
                &&& location.0 == *final(thread_state) % BUCKET_COUNT
                &&& final(self).erasures() == old(self).erasures()
                &&& forall|b: int|
                    0 <= b < BUCKET_COUNT && b != location.0 ==> #[trigger] final(self).buckets()[b]
                        == old(self).buckets()[b]
                &&& after.wf()
                &&& after.inner().store_id() == before.inner().store_id()
                &&& after.generated() == before.generated()
                &&& after.touched_capacity() == before.touched_capacity() + 1
                &&& after.allocated_capacity() == before.allocated_capacity() + before.growth()
                &&& after.has_address(location.1 as int)
                &&& !before.touched(location.1 as int)
                &&& after.at(location.1 as int) == SlotView::<Element>::pristine()
                &&& forall|a: int| before.has_address(a) ==> #[trigger] after.at(a) == before.at(a)
                &&& forall|a: int|
                    #[trigger] after.touched(a) <==> before.touched(a) || a == location.1
            },
    {
        if let Some(erasure) = self.erasures.pop() {
            proof {
                assert(old(self).erasures().contains(erasure));
                assert(old(self).touched(erasure.0 as int, erasure.1 as int));
            }
            erasure
        } else {
            proof {
                old(self).lemma_ordinals_left();
            }
            let bucket_id = Self::arbitrary_bucket_id(thread_state);
            let slot_address = self.buckets[bucket_id as usize].next_insert_location();
            (bucket_id, slot_address)
        }
    }

    /// As long as elements can be inserted, no bucket has run out of ordinals.
    proof fn lemma_ordinals_left(self)
        requires
            self.buckets_wf(),
            self.ordinals_wf(),
            self.inserts_remaining() > 0,
        ensures
            forall|b: int|
                0 <= b < BUCKET_COUNT ==> (#[trigger] self.buckets()[b]).generated() < u32::MAX,
    {
        let generated = |b: int| self.buckets()[b].generated() as int;
        sum::lemma_sum_bounds(generated, BUCKET_COUNT as int, 0);
        assert forall|b: int| 0 <= b < BUCKET_COUNT implies (
            #[trigger] self.buckets()[b]).generated() < u32::MAX by {
            assert(generated(b) <= self.inserted());
        }
    }

    /// Whether `other` is this store with one more element, under an ID that this store had not
    /// created before. The element is put where an element was removed, if there is such a slot, or
    /// else into a slot that was never used before.
    pub open spec fn inserted_into(self, id: Id, element: Element, other: Self) -> bool {
        let place = (id.spec_bucket_id(), id.spec_position());
        &&& other@ == self@.insert(id, element)
        &&& other.locks() == self.locks().insert(id, Lock::Unlocked)
        &&& other.spec_store_id() == self.spec_store_id()
        &&& other.inserts_remaining() == self.inserts_remaining() - 1
        &&& !self.issued(id)
        &&& other.issued(id)
        &&& forall|earlier: Id| #[trigger] self.issued(earlier) ==> other.issued(earlier)
        &&& id.spec_bucket_id() < BUCKET_COUNT
        &&& id.spec_ordinal() == self.buckets()[id.spec_bucket_id() as int].generated()
        &&& if self.erasures().len() > 0 {
            &&& place == self.erasures()[0]
            &&& other.erasures() == self.erasures().subrange(1, self.erasures().len() as int)
            &&& other.touched_capacity() == self.touched_capacity()
        } else {
            &&& !self.touched(place.0 as int, place.1 as int)
            &&& other.erasures() == self.erasures()
            &&& other.touched_capacity() == self.touched_capacity() + 1
        }
    }

    /// Inserts an element into the store, returning its generated unique ID. The returned ID can
    /// be used to subsequently read, modify or remove the element.
    ///
    /// This must not be called more than 2<sup>32</sup> - 1 times on any given store.
    pub fn insert(&mut self, element: Element, thread_state: &mut u32) -> (id: Id)
        requires
            old(self).wf(),
            old(self).inserts_remaining() > 0,
        ensures
            final(self).wf(),
            old(self).inserted_into(id, element, *final(self)),
            old(self).erasures().len() > 0 ==> {
                &&& *final(thread_state) == *old(thread_state)
                &&& final(self).allocated_capacity() == old(self).allocated_capacity()
            },
            old(self).erasures().len() == 0 ==> {
                &&& *final(thread_state) == lcg::next_state(*old(thread_state))
                &&& id.spec_bucket_id() == *final(thread_state) % BUCKET_COUNT
                &&& final(self).allocated_capacity() == old(self).allocated_capacity() + old(
                    self).buckets()[id.spec_bucket_id() as int].growth()
            },
    {
        broadcast use id::law_id_parts;

        proof {
            self.lemma_ordinals_left();
        }
        let (bucket_id, slot_address) = self.next_insert_location(thread_state);
        let ghost chosen = self.buckets()[bucket_id as int];
        self.insert_enforcer.assert_may_insert();

        let store_id = self.store_id;
        proof {
            assert(old(self).buckets()[bucket_id as int].wf());
            assert(self.buckets()[bucket_id as int].wf());
        }
        let ordinal = self.buckets[bucket_id as usize].next_id();
        let ghost ready = *self;
        proof {
            let bucket = ready.buckets()[bucket_id as int];
            bucket.lemma_wf();
            let before = old(self).buckets()[bucket_id as int];
            assert forall|a: int| before.has_address(a) implies #[trigger] bucket.at(a)
                == before.at(a) by {
                assert(chosen.at(a) == before.at(a));
            }
            assert forall|a: int|
                #[trigger] bucket.touched(a) <==> before.touched(a) || a == slot_address by {
                assert(chosen.touched(a) <==> before.touched(a) || a == slot_address);
            }
            assert(old(self).prepared(bucket_id as int, slot_address as int, ready));
        }
        let id = self.buckets[bucket_id as usize].head_mut().insert(
            ordinal,
            bucket_id,
            slot_address,
            element,
            store_id,
        );
        proof {
            assert(ready.differs_in_slot(bucket_id as int, slot_address as int, *self));
            old(self).lemma_slot_filled(
                bucket_id as int,
                slot_address as int,
                ready,
                *self,
                element,
            );
            assert(id == self.id_at(bucket_id as int, slot_address as int));
        }
        id
    }
}

// Direct access.
impl<Element> RwStore<Element> {
    /// Whether `other` is this store with another value for the element with the given ID.
    pub open spec fn updated(self, id: Id, element: Element, other: Self) -> bool {
        &&& self@.contains_key(id)
        &&& other@ == self@.insert(id, element)
        &&& other.locks() == self.locks()
        &&& other.erasures() == self.erasures()
        &&& self.same_slots(other)
    }

    /// Directly obtains a mutable reference to an element given its ID, if it is still present in
    /// the store.
    ///
    /// Because a mutable reference is held over the store, this can avoid the overhead of locking.
    pub fn get_mut(&mut self, id: Id) -> (element: Option<&mut Element>)
        requires
            old(self).wf(),
            old(self).issued(id),
        ensures
            final(self).wf(),
            match element {
                Some(element) => {
                    &&& *element == old(self)@[id]
                    &&& old(self).updated(id, *final(element), *final(self))
                },
                None => {
                    &&& !old(self)@.contains_key(id)
                    &&& final(self)@ == old(self)@
                    &&& final(self).locks() == old(self).locks()
                    &&& final(self).erasures() == old(self).erasures()
                    &&& old(self).same_slots(*final(self))
                },
            },
    {
        proof {
            self.lemma_issued(id);
        }
        let bucket_id = id.bucket_id() as usize;
        let element = self.buckets[bucket_id].head_mut().get_exclusive(id);
        proof {
            old(self).lemma_slot_kept(
                bucket_id as int,
                id.spec_position() as int,
                after_borrow(*self),
            );
        }
        element
    }

    /// Directly obtains a mutable reference to an element given its ID, assuming it is still
    /// present in the store.
    ///
    /// Because a mutable reference is held over the store, this can avoid the overhead of locking.
    pub fn get_mut_unchecked(&mut self, id: Id) -> (element: &mut Element)
        requires
            old(self).wf(),
            old(self)@.contains_key(id),
        ensures
            final(self).wf(),
            *element == old(self)@[id],
            old(self).updated(id, *final(element), *final(self)),
    {
        proof {
            self.lemma_contains_issued(id);
            self.lemma_issued(id);
        }
        let bucket_id = id.bucket_id() as usize;
        let element = self.buckets[bucket_id].head_mut().get_unchecked_mut(id);
        proof {
            old(self).lemma_slot_kept(
                bucket_id as int,
                id.spec_position() as int,
                after_borrow(*self),
            );
        }
        element
    }

    /// Directly obtains a reference to an element given its ID, assuming it is still present in the
    /// store.
    pub fn get_unchecked(&self, id: Id) -> (element: &Element)
        requires
            self.wf(),
            self@.contains_key(id),
        ensures
            *element == self@[id],
    {
        proof {
            self.lemma_contains_issued(id);
            self.lemma_issued(id);
        }
        self.buckets[id.bucket_id() as usize].head().get_unchecked(id)
    }

    /// Determines the touched and allocated capacity for this store, and returns them in that
    /// order.
    ///
    /// The touched capacity is equal to the largest number of elements ever contained in this store
    /// at the same time. The allocated capacity is the total number of element slots allocated for
    /// use with this store. Neither of these numbers ever decrease.
    pub fn capacity(&self) -> (capacity: (u32, u32))
        requires
            self.wf(),
            self.allocated_capacity() <= u32::MAX,
            self.sizes_known(),
        ensures
            capacity.0 == self.touched_capacity(),
            capacity.1 == self.allocated_capacity(),
    {
        let mut total_touched: u32 = 0;
        let mut total_allocated: u32 = 0;
        let mut i: u32 = 0;
        let ghost touched = |b: int| self.buckets()[b].touched_capacity();
        let ghost allocated = |b: int| self.buckets()[b].allocated_capacity();
        proof {
            assert forall|b: int| 0 <= b < BUCKET_COUNT implies 0 <= #[trigger] touched(b)
                <= allocated(b) by {
                self.buckets()[b].lemma_wf();
            }
            assert forall|b: int| 0 <= b < BUCKET_COUNT implies 0 <= #[trigger] allocated(b) by {
                assert(0 <= touched(b));
            }
            sum::lemma_sum_monotone(touched, allocated, BUCKET_COUNT as int);
        }
        while i < BUCKET_COUNT
            invariant
                i <= BUCKET_COUNT,
                self.wf(),
                total_touched == sum::sum(touched, i as int),
                total_allocated == sum::sum(allocated, i as int),
                touched == |b: int| self.buckets()[b].touched_capacity(),
                allocated == |b: int| self.buckets()[b].allocated_capacity(),
                forall|b: int| 0 <= b < BUCKET_COUNT ==> 0 <= #[trigger] touched(b),
                forall|b: int| 0 <= b < BUCKET_COUNT ==> 0 <= #[trigger] allocated(b),
                sum::sum(touched, BUCKET_COUNT as int) <= sum::sum(allocated, BUCKET_COUNT as int)
                    <= u32::MAX,
                self.sizes_known(),
            decreases BUCKET_COUNT - i,
        {
            proof {
                sum::lemma_sum_bounds(touched, BUCKET_COUNT as int, i + 1);
                sum::lemma_sum_bounds(allocated, BUCKET_COUNT as int, i + 1);
                self.buckets()[i as int].lemma_wf();
                assert(touched(i as int) == self.buckets()[i as int].touched_capacity());
                assert(allocated(i as int) == self.buckets()[i as int].allocated_capacity());
            }
            let (touched_here, allocated_here) = self.bucket_capacity(i);
            total_touched += touched_here;
            total_allocated += allocated_here;
            i = i + 1;
        }

        (total_touched, total_allocated)
    }

    /// Determines the touched and allocated capacity of a bucket, and returns them in that order.
    pub fn bucket_capacity(&self, bucket_id: u32) -> (capacity: (u32, u32))
        requires
            self.wf(),
            bucket_id < BUCKET_COUNT,
            self.buckets()[bucket_id as int].inner().head_size() < 0x8000_0000,
        ensures
            capacity.0 == self.buckets()[bucket_id as int].touched_capacity(),
            capacity.1 == self.buckets()[bucket_id as int].allocated_capacity(),
    {
        proof {
            assert(self.buckets()[bucket_id as int].wf());
        }
        self.buckets[bucket_id as usize].capacity()
    }

    /// Determines whether an ID was created by this store, as opposed to another one.
    pub fn is_native_id(&self, id: Id) -> (native: bool)
        ensures
            native == (id.spec_store_id() == self.spec_store_id()),
    {
        self.store_id == id.store_id()
    }

    /// Determines whether an ID was created by this store, and so may be used with it.
    pub fn has_issued(&self, id: Id) -> (issued: bool)
        requires
            self.wf(),
        ensures
            issued == self.issued(id),
    {
        if !self.is_native_id(id) || id.bucket_id() >= BUCKET_COUNT {
            return false;
        }
        let address = id.slot().position;
        let bucket = &self.buckets[id.bucket_id() as usize];
        proof {
            assert(self.buckets()[id.spec_bucket_id() as int].wf());
            bucket.lemma_wf();
        }
        if !bucket.is_touched(address) {
            return false;
        }
        let head = bucket.head();
        let current = head.slot_id(address);
        id.ordinal() < current || (id.ordinal() == current && head.is_occupied(address))
    }

    /// Determines whether the number of slots of every bucket can be told.
    pub fn sizes_are_known(&self) -> (known: bool)
        requires
            self.wf(),
        ensures
            known == self.sizes_known(),
    {
        let mut i: u32 = 0;
        while i < BUCKET_COUNT
            invariant
                i <= BUCKET_COUNT,
                self.wf(),
                forall|b: int|
                    0 <= b < i ==> (#[trigger] self.buckets()[b]).inner().head_size() < 0x8000_0000,
            decreases BUCKET_COUNT - i,
        {
            proof {
                assert(self.buckets()[i as int].wf());
            }
            if self.buckets[i as usize].head_len() >= 0x8000_0000 {
                return false;
            }
            i = i + 1;
        }
        true
    }

    /// Determines whether the touched and allocated capacity can be told.
    pub fn capacity_is_known(&self) -> (known: bool)
        requires
            self.wf(),
        ensures
            known == (self.sizes_known() && self.allocated_capacity() <= u32::MAX),
    {
        if !self.sizes_are_known() {
            return false;
        }
        let mut total: u64 = 0;
        let mut i: u32 = 0;
        let ghost allocated = |b: int| self.buckets()[b].allocated_capacity();
        while i < BUCKET_COUNT
            invariant
                i <= BUCKET_COUNT,
                self.wf(),
                self.sizes_known(),
                allocated == |b: int| self.buckets()[b].allocated_capacity(),
                total == sum::sum(allocated, i as int),
                total <= i * 0x1_0000_0000,
            decreases BUCKET_COUNT - i,
        {
            proof {
                self.buckets()[i as int].lemma_wf();
                assert(allocated(i as int) == self.buckets()[i as int].allocated_capacity());
            }
            let (_, allocated_here) = self.bucket_capacity(i);
            total += allocated_here as u64;
            i = i + 1;
        }
        total <= u32::MAX as u64
    }

    /// Determines whether an element can still be inserted.
    pub fn may_insert(&self) -> (may_insert: bool)
        ensures
            may_insert == (self.inserts_remaining() > 0),
    {
        self.insert_enforcer.may_insert()
    }
}

// Iteration.
impl<Element> RwStore<Element> {
    /// Whether no element of the store is locked.
    pub open spec fn nothing_locked(self) -> bool {
        forall|id: Id| #[trigger] self.locks().contains_key(id) ==> self.locks()[id] is Unlocked
    }

    /// If no element is locked, then no slot is.
    pub proof fn lemma_nothing_locked(self)
        requires
            self.wf(),
            self.nothing_locked(),
        ensures
            forall|b: int, a: int|
                self.has_slot(b, a) ==> !(#[trigger] self.buckets()[b].at(a)).header.locked(),
    {
        broadcast use id::law_id_parts;

        assert forall|b: int, a: int| self.has_slot(b, a) implies !(
        #[trigger] self.buckets()[b].at(a)).header.locked() by {
            let bucket = self.buckets()[b];
            assert(bucket.wf());
            bucket.lemma_wf();
            if self.slot(b, a).header.occupied() {
                assert(self.contains(self.id_at(b, a)));
                assert(self.locks().contains_key(self.id_at(b, a)));
            }
        }
    }

    /// Determines whether any element is locked.
    pub fn is_anything_locked(&self) -> (locked: bool)
        requires
            self.wf(),
        ensures
            locked == !self.nothing_locked(),
    {
        let mut i: u32 = 0;
        while i < BUCKET_COUNT
            invariant
                i <= BUCKET_COUNT,
                self.wf(),
                forall|b: int, a: int|
                    0 <= b < i && self.touched(b, a) ==> !(#[trigger] self.slot(
                        b,
                        a,
                    )).header.locked(),
            decreases BUCKET_COUNT - i,
        {
            let mut iter = self.bucket_iter(i);
            let ghost all = iter.remaining();
            let ghost mut visited: int = 0;
            proof {
                let bucket = self.buckets()[i as int];
                assert(bucket.wf());
                bucket.lemma_wf();
                iter::law_addresses(bucket.inner().head_size(), bucket.inner().unused());
                assert forall|k: int| 0 <= k < all.len() implies self.touched(
                    i as int,
                    #[trigger] all[k] as int,
                ) by {
                    assert(all.contains(all[k]));
                }
                assert forall|a: int| #[trigger] self.touched(i as int, a) implies exists|k: int|
                    0 <= k < all.len() && #[trigger] all[k] == a by {
                    assert(all.contains(a as u32));
                }
            }
            loop
                invariant
                    i < BUCKET_COUNT,
                    self.wf(),
                    iter.wf(),
                    0 <= visited <= all.len(),
                    iter.remaining() == all.subrange(visited, all.len() as int),
                    forall|k: int|
                        0 <= k < all.len() ==> self.touched(i as int, #[trigger] all[k] as int),
                    forall|k: int|
                        0 <= k < visited ==> !self.slot(
                            i as int,
                            #[trigger] all[k] as int,
                        ).header.locked(),
                ensures
                    forall|k: int|
                        0 <= k < all.len() ==> !self.slot(
                            i as int,
                            #[trigger] all[k] as int,
                        ).header.locked(),
                decreases all.len() - visited,
            {
                match iter.next() {
                    Some(address) => {
                        proof {
                            assert(address == all[visited]);
                            let bucket = self.buckets()[i as int];
                            assert(bucket.wf());
                            bucket.lemma_wf();
                        }
                        if self.buckets[i as usize].head().is_locked(address) {
                            proof {
                                let slot = self.slot(i as int, address as int);
                                let id = self.id_at(i as int, address as int);
                                id::law_id_parts(slot.header.id, i, address, self.spec_store_id());
                                assert(slot.header.locked());
                                assert(self.contains(id));
                                assert(self.locks().contains_key(id));
                            }
                            return true;
                        }
                        proof {
                            visited = visited + 1;
                        }
                    },
                    None => {
                        break;
                    },
                }
            }
            proof {
                assert forall|b: int, a: int|
                    0 <= b < i + 1 && self.touched(b, a) implies !(#[trigger] self.slot(
                    b,
                    a,
                )).header.locked() by {
                    if b == i {
                        let k = choose|k: int| 0 <= k < all.len() && #[trigger] all[k] == a;
                        assert(!self.slot(i as int, all[k] as int).header.locked());
                    }
                }
            }
            i = i + 1;
        }
        proof {
            assert forall|id: Id| #[trigger]
                self.locks().contains_key(id) implies self.locks()[id] is Unlocked by {
                self.lemma_contains_issued(id);
                assert(!self.slot(
                    id.spec_bucket_id() as int,
                    id.spec_position() as int,
                ).header.locked());
            }
        }
        false
    }

    /// No more slots were ever handed out than elements were inserted.
    pub proof fn lemma_touched_capacity(self)
        requires
            self.wf(),
        ensures
            0 <= self.touched_capacity() <= self.inserted() <= u32::MAX,
            self.touched_capacity() <= self.allocated_capacity() <= 2 * self.touched_capacity(),
    {
        let touched = |b: int| self.buckets()[b].touched_capacity();
        let allocated = |b: int| self.buckets()[b].allocated_capacity();
        let generated = |b: int| self.buckets()[b].generated() as int;
        assert forall|b: int| 0 <= b < BUCKET_COUNT implies 0 <= #[trigger] touched(b)
            <= generated(b) && touched(b) <= allocated(b) <= 2 * touched(b) by {
            assert(self.buckets()[b].wf());
            self.buckets()[b].lemma_wf();
        }
        sum::lemma_sum_monotone(touched, generated, BUCKET_COUNT as int);
        sum::lemma_sum_monotone(touched, allocated, BUCKET_COUNT as int);
        sum::lemma_sum_bounds(touched, BUCKET_COUNT as int, 0);
        let double = |b: int| 2 * touched(b);
        assert forall|b: int| 0 <= b < BUCKET_COUNT implies #[trigger] allocated(b) <= double(b) by {
            assert(0 <= touched(b));
        }
        sum::lemma_sum_monotone(allocated, double, BUCKET_COUNT as int);
        sum::lemma_sum_double(touched, double, BUCKET_COUNT as int);
    }

    /// A bucket whose newest block has 2<sup>31</sup> slots or more was handed as many elements.
    pub proof fn lemma_sizes_known(self)
        requires
            self.wf(),
            self.inserted() < 0x8000_0000,
        ensures
            self.sizes_known(),
    {
        let generated = |b: int| self.buckets()[b].generated() as int;
        sum::lemma_sum_bounds(generated, BUCKET_COUNT as int, 0);
        assert forall|b: int| 0 <= b < BUCKET_COUNT implies (
        #[trigger] self.buckets()[b]).inner().head_size() < 0x8000_0000 by {
            let bucket = self.buckets()[b];
            assert(bucket.wf());
            bucket.lemma_wf();
            assert(generated(b) <= self.inserted());
            assert(bucket.inner().head_size() <= bucket.touched_capacity());
        }
    }

    /// Takes the store apart.
    pub fn into_buckets(self) -> (buckets: [Bucket<Element>; 16])
        ensures
            buckets@ == self.buckets(),
    {
        self.buckets
    }

    /// Determines the identity of the store.
    pub fn id(&self) -> (store_id: RwStoreId)
        ensures
            store_id == self.spec_store_id(),
    {
        self.store_id
    }

    /// Visits the slots of a bucket that were ever handed out for an element.
    pub fn bucket_iter(&self, bucket_id: u32) -> (iter: GenIter)
        requires
            self.wf(),
            bucket_id < BUCKET_COUNT,
        ensures
            iter.wf(),
            iter.block_size() == self.buckets()[bucket_id as int].inner().head_size(),
            iter.remaining() == iter::addresses(
                self.buckets()[bucket_id as int].inner().head_size(),
                self.buckets()[bucket_id as int].inner().unused(),
            ),
    {
        proof {
            assert(self.buckets()[bucket_id as int].wf());
        }
        self.buckets[bucket_id as usize].iter()
    }

    /// Determines whether a slot holds an element.
    pub fn is_occupied(&self, bucket_id: u32, address: u32) -> (occupied: bool)
        requires
            self.wf(),
            self.has_slot(bucket_id as int, address as int),
        ensures
            occupied == self.slot(bucket_id as int, address as int).header.occupied(),
    {
        proof {
            assert(self.buckets()[bucket_id as int].wf());
        }
        self.buckets[bucket_id as usize].is_occupied(address)
    }

    /// Gets the ID of the element in a slot and a mutable reference to it.
    pub fn slot_contents(&mut self, bucket_id: u32, address: u32) -> (contents: (Id, &mut Element))
        requires
            old(self).wf(),
            old(self).touched(bucket_id as int, address as int),
            old(self).slot(bucket_id as int, address as int).header.occupied(),
        ensures
            final(self).wf(),
            old(self).differs_in_slot(bucket_id as int, address as int, *final(self)),
            contents.0 == old(self).id_at(bucket_id as int, address as int),
            *contents.1 == old(self)@[contents.0],
            old(self).updated(contents.0, *final(contents.1), *final(self)),
    {
        broadcast use id::law_id_parts;

        proof {
            let bucket = self.buckets()[bucket_id as int];
            assert(bucket.wf());
            bucket.lemma_wf();
            assert(bucket.at(address as int).wf());
            assert(self.contains(self.id_at(bucket_id as int, address as int)));
        }
        let contents = self.buckets[bucket_id as usize].head_mut().slot_contents(
            address,
            bucket_id,
        );
        proof {
            old(self).lemma_slot_kept(bucket_id as int, address as int, after_borrow(*self));
        }
        match contents {
            Some(contents) => contents,
            None => vstd::pervasive::unreached(),
        }
    }

    /// Creates an iterator that visits each element still present in the store, yielding its ID and
    /// a mutable reference to it.
    ///
    /// The order in which this iterator traverses elements is unspecified.
    pub fn iter_mut(&mut self) -> (iter: IterMut<'_, Element>)
        requires
            old(self).wf(),
        ensures
            iter.wf(),
            iter.store.wf(),
            *iter.store == *old(self),
            *final(self) == *final(iter.store),
            iter.remaining() == iter::elements(*old(self)),
            iter.places() == iter::places_from(old(self).buckets(), 0),
            iter.slots_left() == old(self).touched_capacity(),
    {
        IterMut::new(self)
    }

    /// Creates a consuming iterator that visits each element still present in the store, yielding
    /// its ID and value. No element may be locked.
    ///
    /// The order in which this iterator traverses elements is unspecified.
    pub fn into_iter(self) -> (iter: IntoIter<Element>)
        requires
            self.wf(),
            self.nothing_locked(),
        ensures
            iter.wf(),
            iter.remaining() == iter::elements(self),
            iter.places() == iter::places_from(self.buckets(), 0),
            iter.slots_left() == self.touched_capacity(),
            iter.sizes_known() == self.sizes_known(),
    {
        IntoIter::new(self)
    }
}

} // verus!
