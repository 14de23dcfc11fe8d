//! Buckets of blocks, which grow as elements are inserted.

use vstd::prelude::*;

use crate::block::{Block, SlotView};
use crate::header::RESERVED_ID;
use crate::id_generator::IdGenerator;
use crate::iter;
use crate::iter::GenIter;
use crate::rwstore_id::RwStoreId;
use crate::util::pow2;

verus! {

const INITIAL_BLOCK_SIZE: u32 = 1;

const RESIZE_FACTOR: u32 = 2;

/// The number of slots in blocks of at most `head_size` slots, of which the smallest has `size`
/// slots and each other one has twice as many slots as the one before it.
pub open spec fn total_size_from(size: nat, head_size: nat) -> nat
    decreases 2 * head_size - size,
{
    if size == 0 || size > head_size {
        0
    } else {
        size + total_size_from(2 * size, head_size)
    }
}

/// The number of slots of a bucket whose newest block has `head_size` slots.
pub open spec fn total_size(head_size: nat) -> nat {
    total_size_from(1, head_size)
}

proof fn lemma_total_size_from(size: u32, head_size: u32)
    requires
        pow2::is_power_of_two(size),
        pow2::is_power_of_two(head_size),
        size <= head_size,
    ensures
        total_size_from(size as nat, head_size as nat) == 2 * head_size - size,
    decreases head_size - size,
{
    if size < head_size {
        pow2::lemma_scramble_bounded(0, head_size);
        pow2::lemma_next_power_of_two(size, head_size);
        pow2::lemma_double(size);
        lemma_total_size_from((size * 2) as u32, head_size);
    } else {
        assert(total_size_from(2 * size as nat, head_size as nat) == 0);
    }
}

/// The blocks before the newest one have one slot less in total than the newest one has.
pub proof fn law_total_size(head_size: u32)
    requires
        pow2::is_power_of_two(head_size),
    ensures
        total_size(head_size as nat) == 2 * head_size - 1,
{
    pow2::lemma_one_is_power_of_two();
    lemma_total_size_from(1, head_size);
}

/// The number of slots of a bucket whose newest block has `head_size` slots.
pub fn head_size_to_total_size(head_size: u32) -> (total: u32)
    requires
        head_size < 0x8000_0000,
    ensures
        total == total_size(head_size as nat),
{
    let mut total: u32 = 0;
    let mut considered_block_size: u32 = INITIAL_BLOCK_SIZE;
    while considered_block_size <= head_size
        invariant
            head_size < 0x8000_0000,
            total == considered_block_size - 1,
            total + total_size_from(considered_block_size as nat, head_size as nat) == total_size(
                head_size as nat,
            ),
        decreases 2 * head_size - considered_block_size,
    {
        total += considered_block_size;
        considered_block_size *= RESIZE_FACTOR;
    }

    total
}

/// The blocks of a bucket.
pub struct BucketInner<Element> {
    head: Option<Box<Block<Element>>>,
    // This can only increase, but is reset when a block is added
    next_unused_slot: u32,
    store_id: RwStoreId,
}

impl<Element> BucketInner<Element> {
    /// The newest block, and with it the ones before.
    pub closed spec fn blocks(self) -> Option<Block<Element>> {
        match self.head {
            Some(head) => Some(*head),
            None => None,
        }
    }

    /// The number of logical slots of the newest block that were asked for.
    pub closed spec fn unused(self) -> u32 {
        self.next_unused_slot
    }

    pub closed spec fn store_id(self) -> RwStoreId {
        self.store_id
    }

    /// The number of slots of the newest block.
    pub open spec fn head_size(self) -> u32 {
        match self.blocks() {
            Some(head) => head.size(),
            None => 0,
        }
    }

    /// The number of slots of all blocks.
    pub open spec fn allocated(self) -> int {
        if self.blocks() is Some {
            2 * self.head_size() - 1
        } else {
            0
        }
    }

    pub open spec fn has_address(self, address: int) -> bool {
        0 <= address < self.allocated()
    }

    pub open spec fn at(self, address: int) -> SlotView<Element> {
        self.blocks()->0.at(address)
    }

    /// Whether the slot with the given address was ever handed out for an element.
    pub open spec fn touched(self, address: int) -> bool {
        &&& self.has_address(address)
        &&& address >= self.head_size() - 1 ==> pow2::unscramble(
            (address - (self.head_size() - 1)) as u32,
            self.head_size(),
        ) < self.unused()
    }

    pub open spec fn wf(self) -> bool {
        &&& self.blocks() matches Some(head) ==> head.wf() && head.grown_for(self.store_id())
        &&& forall|a: int|
            self.has_address(a) && !self.touched(a) ==> #[trigger] self.at(a) == SlotView::<
                Element,
            >::pristine()
    }

    /// What is known of the blocks of every well-formed bucket.
    pub proof fn lemma_wf(self)
        requires
            self.wf(),
        ensures
            self.head_size() <= 0x8000_0000,
            self.blocks() is Some ==> pow2::is_power_of_two(self.head_size()),
            self.blocks() matches Some(head) ==> {
                &&& head.wf()
                &&& head.start() == head.size() - 1
                &&& forall|a: int| #[trigger] head.has_address(a) <==> self.has_address(a)
                &&& forall|a: int|
                    head.has_address(a) ==> #[trigger] head.store_id_at(a) == self.store_id()
            },
            0 <= self.allocated() <= u32::MAX,
            forall|a: int| self.has_address(a) ==> (#[trigger] self.at(a)).wf(),
            self.unused() >= self.head_size() ==> forall|a: int|
                #[trigger] self.touched(a) <==> self.has_address(a),
    {
        if self.blocks() is Some {
            let head = self.blocks()->0;
            head.lemma_wf();
            head.lemma_grown(self.store_id());
            assert forall|a: int| self.has_address(a) implies (#[trigger] self.at(a)).wf() by {
                assert(head.has_address(a));
            }
            pow2::law_scramble_is_a_permutation(self.head_size());
        }
    }

    pub fn new(store_id: RwStoreId) -> (inner: Self)
        ensures
            inner.wf(),
            inner.blocks() is None,
            inner.unused() == 0,
            inner.store_id() == store_id,
    {
        Self { head: None, next_unused_slot: 0, store_id }
    }

    /// Whether `other` is this bucket once it was asked for an unused slot of the newest block, whose
    /// address was handed out if there was one left. The address is one of that block, and was not
    /// handed out before.
    pub open spec fn hands_out(self, location: Option<u32>, other: Self) -> bool {
        &&& other.blocks() == self.blocks()
        &&& other.store_id() == self.store_id()
        &&& other.unused() == if self.blocks() is Some && self.unused() < u32::MAX {
            self.unused() + 1
        } else {
            self.unused() as int
        }
        &&& match location {
            Some(address) => {
                &&& self.unused() < self.head_size()
                &&& address == self.head_size() - 1 + pow2::scramble(
                    self.unused(),
                    self.head_size(),
                )
                &&& self.has_address(address as int)
                &&& !self.touched(address as int)
                &&& self.at(address as int) == SlotView::<Element>::pristine()
                &&& forall|a: int|
                    #[trigger] other.touched(a) <==> self.touched(a) || a == address
            },
            None => {
                &&& self.unused() >= self.head_size()
                &&& forall|a: int| #[trigger] other.touched(a) <==> self.touched(a)
            },
        }
    }

    /// Whether `other` is this bucket with one more block in front, which is twice as large as the
    /// newest one so far and of which no slot was handed out yet.
    pub open spec fn expands_to(self, other: Self) -> bool {
        &&& other.blocks() matches Some(head)
        &&& match head.next() {
            Some(next) => self.blocks() == Some(*next),
            None => self.blocks() is None,
        }
        &&& other.head_size() == if self.blocks() is Some {
            2 * self.head_size()
        } else {
            1
        }
        &&& other.unused() == 0
        &&& other.store_id() == self.store_id()
        &&& forall|a: int| self.has_address(a) ==> #[trigger] other.at(a) == self.at(a)
        &&& forall|a: int| #[trigger] other.touched(a) <==> self.has_address(a)
    }

    /// Hands out the address of the next unused slot of the newest block, if there is one left.
    pub fn next_insert_location(&mut self) -> (location: Option<u32>)
        requires
            old(self).wf(),
        ensures
            final(self).wf(),
            old(self).hands_out(location, *final(self)),
    {
        match &self.head {
            Some(head) => {
                proof {
                    self.lemma_wf();
                }
                let slot = self.next_unused_slot;
                // The counter stops at its highest value, so that no slot is handed out twice
                self.next_unused_slot = slot.saturating_add(1);

                if slot < head.len() {
                    proof {
                        let size = head.size();
                        pow2::law_scramble_is_a_permutation(size);
                        pow2::lemma_scramble_surjective(slot, size);
                        let address = size - 1 + pow2::scramble(slot, size);
                        assert forall|a: int|
                            #[trigger] self.touched(a) <==> old(self).touched(a) || a == address by {
                            if a >= size - 1 && self.has_address(a) {
                                let index = (a - (size - 1)) as u32;
                                pow2::lemma_scramble_surjective(index, size);
                            }
                        }
                        assert(old(self).at(address) == SlotView::<Element>::pristine());
                        assert forall|a: int|
                            self.has_address(a) && !self.touched(a) implies #[trigger] self.at(a)
                            == SlotView::<Element>::pristine() by {
                            assert(old(self).at(a) == self.at(a));
                        }
                    }
                    Some(head.slot_address(slot))
                } else {
                    proof {
                        pow2::law_scramble_is_a_permutation(head.size());
                    }
                    None
                }
            },
            None => None,
        }
    }

    /// Adds a block, which is twice as large as the newest one so far.
    pub fn expand(&mut self)
        requires
            old(self).wf(),
            old(self).head_size() < 0x8000_0000,
        ensures
            final(self).wf(),
            old(self).expands_to(*final(self)),
    {
        proof {
            self.lemma_wf();
            if self.head is Some {
                pow2::lemma_double(self.head->0.size());
            }
            pow2::lemma_one_is_power_of_two();
        }
        let block_size = match &self.head {
            Some(head) => head.len() * RESIZE_FACTOR,
            None => INITIAL_BLOCK_SIZE,
        };

        let old_head = self.head.take();
        let new_head = Block::new(block_size, old_head, self.store_id);

        self.head = Some(new_head);
        self.next_unused_slot = 0;
    }
}

/// Blocks of slots, and the generator of the ordinals of the elements that are put there.
pub struct Bucket<Element> {
    inner: BucketInner<Element>,
    id_generator: IdGenerator,
}

impl<Element> Bucket<Element> {
    pub closed spec fn inner(self) -> BucketInner<Element> {
        self.inner
    }

    /// The number of ordinals that were generated, which is also the next one.
    pub closed spec fn generated(self) -> u32 {
        self.id_generator.generated()
    }

    pub open spec fn has_address(self, address: int) -> bool {
        self.inner().has_address(address)
    }

    pub open spec fn at(self, address: int) -> SlotView<Element> {
        self.inner().at(address)
    }

    pub open spec fn touched(self, address: int) -> bool {
        self.inner().touched(address)
    }

    /// The number of slots of all blocks.
    pub open spec fn allocated_capacity(self) -> int {
        self.inner().allocated()
    }

    /// The number of slots that were ever handed out for an element.
    pub open spec fn touched_capacity(self) -> int {
        self.inner().allocated() - (self.inner().head_size() - self.inner().unused())
    }

    /// The number of slots that are added when the next slot is handed out: none, if there is an
    /// unused one, or else a block that is twice as large as the newest one so far.
    pub open spec fn growth(self) -> int {
        if self.inner().unused() < self.inner().head_size() {
            0
        } else if self.inner().blocks() is None {
            1
        } else {
            2 * self.inner().head_size()
        }
    }

    pub open spec fn wf(self) -> bool {
        &&& self.inner().wf()
        &&& self.inner().blocks() is Some ==> 0 < self.inner().unused()
        &&& self.inner().unused() <= self.inner().head_size()
    }

    pub fn new(store_id: RwStoreId) -> (bucket: Self)
        ensures
            bucket.wf(),
            bucket.inner().blocks() is None,
            bucket.inner().unused() == 0,
            bucket.inner().store_id() == store_id,
            bucket.generated() == 0,
    {
        Self { inner: BucketInner::new(store_id), id_generator: IdGenerator::new() }
    }

    /// Hands out the address of a slot that was never used before.
    pub fn next_insert_location(&mut self) -> (address: u32)
        requires
            old(self).wf(),
            old(self).touched_capacity() < u32::MAX,
        ensures
            final(self).wf(),
            final(self).generated() == old(self).generated(),
            final(self).inner().store_id() == old(self).inner().store_id(),
            final(self).touched_capacity() == old(self).touched_capacity() + 1,
            final(self).allocated_capacity() == old(self).allocated_capacity() + old(self).growth(),
            final(self).has_address(address as int),
            !old(self).touched(address as int),
            final(self).at(address as int) == SlotView::<Element>::pristine(),
            forall|a: int| old(self).has_address(a) ==> #[trigger] final(self).at(a) == old(self).at(a),
            forall|a: int|
                #[trigger] final(self).touched(a) <==> old(self).touched(a) || a == address,
    {
        proof {
            self.lemma_wf();
        }
        if let Some(location) = self.inner.next_insert_location() {
            return location;
        }

        self.next_insert_location_slow()
    }

    fn next_insert_location_slow(&mut self) -> (address: u32)
        requires
            old(self).inner().wf(),
            old(self).inner().unused() >= old(self).inner().head_size() ==> old(
                self).inner().head_size() < 0x8000_0000,
        ensures
            final(self).wf(),
            final(self).generated() == old(self).generated(),
            final(self).inner().store_id() == old(self).inner().store_id(),
            final(self).inner().head_size() == if old(self).inner().unused() < old(
                self).inner().head_size() {
                old(self).inner().head_size() as int
            } else if old(self).inner().blocks() is None {
                1
            } else {
                2 * old(self).inner().head_size()
            },
            final(self).inner().unused() == if old(self).inner().unused() < old(
                self).inner().head_size() {
                old(self).inner().unused() + 1
            } else {
                1
            },
            final(self).inner().blocks() is Some,
            final(self).has_address(address as int),
            !old(self).touched(address as int),
            final(self).at(address as int) == SlotView::<Element>::pristine(),
            forall|a: int| old(self).has_address(a) ==> #[trigger] final(self).at(a) == old(self).at(a),
            forall|a: int|
                #[trigger] final(self).touched(a) <==> old(self).touched(a) || a == address,
    {
        proof {
            self.inner.lemma_wf();
        }
        if let Some(location) = self.inner.next_insert_location() {
            return location;
        }
        let ghost full = self.inner;
        self.inner.expand();
        let ghost expanded = self.inner;
        let location = self.inner.next_insert_location();
        proof {
            let address = location->0;
            assert forall|a: int| old(self).has_address(a) implies #[trigger] self.at(a) == old(
                self).at(a) by {
                assert(expanded.at(a) == full.at(a));
            }
            assert forall|a: int|
                #[trigger] self.touched(a) <==> old(self).touched(a) || a == address by {
                assert(self.inner.touched(a) <==> expanded.touched(a) || a == address);
                assert(expanded.touched(a) <==> full.has_address(a));
                assert(full.has_address(a) == old(self).has_address(a));
                assert(old(self).has_address(a) ==> old(self).inner.touched(a));
            }
        }
        location.unwrap()
    }

    /// What is known of every well-formed bucket.
    pub proof fn lemma_wf(self)
        requires
            self.wf(),
        ensures
            self.inner().head_size() <= 0x8000_0000,
            self.inner().blocks() is Some ==> pow2::is_power_of_two(self.inner().head_size()),
            self.inner().blocks() is None <==> self.inner().head_size() == 0,
            self.inner().blocks() matches Some(head) ==> {
                &&& head.wf()
                &&& head.start() == head.size() - 1
                &&& forall|a: int| #[trigger] head.has_address(a) <==> self.has_address(a)
                &&& forall|a: int|
                    head.has_address(a) ==> #[trigger] head.store_id_at(a) == self.inner().store_id()
            },
            0 <= self.touched_capacity() <= self.allocated_capacity() <= u32::MAX,
            self.allocated_capacity() <= 2 * self.touched_capacity(),
            self.inner().unused() < self.inner().head_size() || self.touched_capacity()
                == self.allocated_capacity(),
            forall|a: int| self.has_address(a) ==> (#[trigger] self.at(a)).wf(),
    {
        self.inner.lemma_wf();
    }

    /// The number of slots that were ever handed out for an element, and the number of slots.
    pub fn capacity(&self) -> (capacity: (u32, u32))
        requires
            self.wf(),
            self.inner().head_size() < 0x8000_0000,
        ensures
            capacity.0 == self.touched_capacity(),
            capacity.1 == self.allocated_capacity(),
    {
        proof {
            self.lemma_wf();
            if self.inner.head is Some {
                law_total_size(self.inner.head_size());
            } else {
                assert(total_size_from(1, 0) == 0);
            }
        }
        let head_size = self.head_len();
        let used = self.inner.next_unused_slot;

        let allocated_capacity = head_size_to_total_size(head_size);
        let touched_capacity = head_size_to_total_size(head_size) - (head_size - used);

        (touched_capacity, allocated_capacity)
    }

    /// Generates the ordinal of an element. There must be one left that is not the reserved one.
    pub fn next_id(&mut self) -> (id: u32)
        requires
            old(self).generated() != RESERVED_ID,
        ensures
            id == old(self).generated(),
            final(self).generated() == id + 1,
            final(self).inner() == old(self).inner(),
    {
        self.id_generator.next()
    }

    /// The newest block, and with it the ones before.
    pub fn head(&self) -> (head: &Block<Element>)
        requires
            self.inner().blocks() is Some,
        ensures
            self.inner().blocks() == Some(*head),
    {
        match &self.inner.head {
            Some(head) => head,
            None => vstd::pervasive::unreached(),
        }
    }

    /// The newest block, and with it the ones before.
    pub fn head_mut(&mut self) -> (head: &mut Block<Element>)
        requires
            old(self).inner().blocks() is Some,
        ensures
            old(self).inner().blocks() == Some(*head),
            final(self).inner().blocks() == Some(*final(head)),
            final(self).inner().unused() == old(self).inner().unused(),
            final(self).inner().store_id() == old(self).inner().store_id(),
            final(self).generated() == old(self).generated(),
    {
        match &mut self.inner.head {
            Some(head) => head,
            None => vstd::pervasive::unreached(),
        }
    }

    /// Whether `other` differs from `self` in one slot only.
    pub open spec fn differs_in_slot(self, address: int, other: Self) -> bool {
        &&& other.generated() == self.generated()
        &&& other.inner().unused() == self.inner().unused()
        &&& other.inner().store_id() == self.inner().store_id()
        &&& self.inner().blocks() is Some
        &&& other.inner().blocks() is Some
        &&& other.inner().blocks()->0.wf()
        &&& self.inner().blocks()->0.same_but_for(address, other.inner().blocks()->0)
    }

    /// A bucket stays well-formed if a slot changes that was handed out, and all other slots stay
    /// as they are.
    pub proof fn lemma_differs_in_slot(self, address: int, other: Self)
        requires
            self.wf(),
            self.touched(address),
            self.differs_in_slot(address, other),
        ensures
            other.wf(),
            other.inner().head_size() == self.inner().head_size(),
            other.touched_capacity() == self.touched_capacity(),
            other.allocated_capacity() == self.allocated_capacity(),
            forall|a: int| #[trigger] other.touched(a) == self.touched(a),
            forall|a: int| #[trigger] other.has_address(a) == self.has_address(a),
            forall|a: int|
                self.has_address(a) && a != address ==> #[trigger] other.at(a) == self.at(a),
            other.at(address).wf(),
    {
        self.lemma_wf();
        assert(forall|a: int|
            #[trigger] self.has_address(a) <==> self.inner().blocks()->0.has_address(a));
        assert forall|a: int|
            other.inner().has_address(a) && !other.inner().touched(
                a,
            ) implies #[trigger] other.inner().at(a) == SlotView::<Element>::pristine() by {
            assert(self.inner().at(a) == SlotView::<Element>::pristine());
        }
        other.lemma_wf();
        assert(other.at(address).wf());
    }

    /// Determines the number of slots of the newest block.
    pub fn head_len(&self) -> (len: u32)
        requires
            self.wf(),
        ensures
            len == self.inner().head_size(),
    {
        match &self.inner.head {
            Some(head) => head.len(),
            None => 0,
        }
    }

    /// Determines whether the slot with the given address was ever handed out for an element.
    pub fn is_touched(&self, address: u32) -> (touched: bool)
        requires
            self.wf(),
        ensures
            touched == self.touched(address as int),
    {
        proof {
            self.lemma_wf();
        }
        let head_size = self.head_len();
        if head_size == 0 {
            return false;
        }
        let first_address = head_size - 1;
        if address < first_address {
            true
        } else if address - first_address < head_size {
            pow2::unscramble_slot(address - first_address, head_size) < self.inner.next_unused_slot
        } else {
            false
        }
    }

    /// Whether the slot with the given address holds an element.
    pub fn is_occupied(&self, address: u32) -> (occupied: bool)
        requires
            self.wf(),
            self.has_address(address as int),
        ensures
            occupied == self.at(address as int).header.occupied(),
    {
        proof {
            self.lemma_wf();
        }
        self.head().is_occupied(address)
    }

    /// Visits the slots that were ever handed out for an element, from the one that was handed out
    /// last to the one that was handed out first.
    pub fn iter(&self) -> (iter: GenIter)
        requires
            self.wf(),
        ensures
            iter.wf(),
            iter.block_size() == self.inner().head_size(),
            iter.remaining() == iter::addresses(self.inner().head_size(), self.inner().unused()),
    {
        proof {
            self.lemma_wf();
        }
        let head_size = self.head_len();
        GenIter::new(self.inner.next_unused_slot, head_size)
    }
}

/// A call on the blocks of a bucket, with its result.
pub enum Call {
    NextInsertLocation(Option<u32>),
    Expand,
}

/// Whether `states` are the states that the blocks of a new bucket go through with `calls`, one after
/// the other.
pub open spec fn is_history<Element>(
    states: Seq<BucketInner<Element>>,
    calls: Seq<Call>,
) -> bool {
    &&& states.len() == calls.len() + 1
    &&& states[0].blocks() is None
    &&& states[0].unused() == 0
    &&& forall|i: int| 0 <= i < states.len() ==> (#[trigger] states[i]).wf()
    &&& forall|i: int|
        0 <= i < calls.len() ==> match #[trigger] calls[i] {
            Call::NextInsertLocation(location) => states[i].hands_out(location, states[i + 1]),
            Call::Expand => states[i].expands_to(states[i + 1]),
        }
}

/// Slots that were handed out stay so.
proof fn lemma_touched_slots_stay_touched<Element>(
    states: Seq<BucketInner<Element>>,
    calls: Seq<Call>,
    i: int,
    j: int,
    address: int,
)
    requires
        is_history(states, calls),
        0 <= i <= j < states.len(),
        states[i].touched(address),
    ensures
        states[j].touched(address),
    decreases j - i,
{
    if i < j {
        lemma_touched_slots_stay_touched(states, calls, i, j - 1, address);
        assert(match calls[j - 1] {
            Call::NextInsertLocation(location) => states[j - 1].hands_out(location, states[j]),
            Call::Expand => states[j - 1].expands_to(states[j]),
        });
    }
}

/// No slot is handed out twice, no matter how often the bucket is expanded in between.
pub proof fn law_locations_differ<Element>(
    states: Seq<BucketInner<Element>>,
    calls: Seq<Call>,
    i: int,
    earlier: u32,
    j: int,
    later: u32,
)
    requires
        is_history(states, calls),
        0 <= i < j < calls.len(),
        calls[i] == Call::NextInsertLocation(Some(earlier)),
        calls[j] == Call::NextInsertLocation(Some(later)),
    ensures
        earlier != later,
{
    assert(states[i].hands_out(Some(earlier), states[i + 1]));
    assert(states[j].hands_out(Some(later), states[j + 1]));
    assert(states[i + 1].touched(earlier as int));
    lemma_touched_slots_stay_touched(states, calls, i + 1, j, earlier as int);
}

/// Slots are handed out in the block that is the newest one at the time.
pub proof fn law_locations_are_in_the_newest_block<Element>(
    states: Seq<BucketInner<Element>>,
    calls: Seq<Call>,
    i: int,
    address: u32,
)
    requires
        is_history(states, calls),
        0 <= i < calls.len(),
        calls[i] == Call::NextInsertLocation(Some(address)),
    ensures
        states[i].blocks() is Some,
        ({
            let head = states[i].blocks()->0;
            head.start() <= address < head.total()
        }),
{
    assert(states[i].hands_out(Some(address), states[i + 1]));
    states[i].lemma_wf();
}

proof fn lemma_unused_counts_the_calls<Element>(
    states: Seq<BucketInner<Element>>,
    calls: Seq<Call>,
    expanded: int,
    i: int,
)
    requires
        is_history(states, calls),
        0 <= expanded <= i < states.len(),
        expanded == 0 || calls[expanded - 1] is Expand,
        forall|k: int| expanded <= k < i ==> #[trigger] calls[k] is NextInsertLocation,
    ensures
        states[i].blocks() == states[expanded].blocks(),
        states[i].unused() == if states[i].blocks() is None {
            0
        } else if i - expanded < u32::MAX {
            i - expanded
        } else {
            u32::MAX as int
        },
    decreases i - expanded,
{
    if expanded < i {
        lemma_unused_counts_the_calls(states, calls, expanded, i - 1);
        assert(calls[i - 1] is NextInsertLocation);
        assert(states[i - 1].hands_out(calls[i - 1]->NextInsertLocation_0, states[i - 1 + 1]));
    } else if expanded > 0 {
        assert(calls[expanded - 1] is Expand);
        assert(states[expanded - 1].expands_to(states[expanded - 1 + 1]));
    }
}

/// A slot is handed out exactly if there is a block and fewer slots were asked for since it was added
/// than it has.
pub proof fn law_every_slot_is_handed_out<Element>(
    states: Seq<BucketInner<Element>>,
    calls: Seq<Call>,
    expanded: int,
    i: int,
    location: Option<u32>,
)
    requires
        is_history(states, calls),
        0 <= expanded <= i < calls.len(),
        expanded == 0 || calls[expanded - 1] is Expand,
        forall|k: int| expanded <= k < i ==> #[trigger] calls[k] is NextInsertLocation,
        calls[i] == Call::NextInsertLocation(location),
    ensures
        location is Some <==> states[i].blocks() is Some && i - expanded < states[i].head_size(),
{
    lemma_unused_counts_the_calls(states, calls, expanded, i);
    states[i].lemma_wf();
    assert(states[i].hands_out(location, states[i + 1]));
}

/// A bucket grows exactly if all its slots were handed out, and then by one slot more than it has.
pub proof fn law_buckets_grow_when_they_are_full<Element>(bucket: Bucket<Element>)
    requires
        bucket.wf(),
    ensures
        bucket.growth() == if bucket.touched_capacity() < bucket.allocated_capacity() {
            0
        } else {
            bucket.allocated_capacity() + 1
        },
{
    bucket.lemma_wf();
}

/// The capacity of a bucket is the number of slots of its blocks.
pub proof fn law_allocated_capacity_counts_the_blocks<Element>(bucket: Bucket<Element>)
    requires
        bucket.wf(),
    ensures
        bucket.inner().blocks() is None ==> bucket.allocated_capacity() == 0,
        bucket.inner().blocks() matches Some(head) ==> bucket.allocated_capacity() == head.size()
            + match head.next() {
            Some(next) => next.total(),
            None => 0,
        },
{
    bucket.lemma_wf();
    if bucket.inner().blocks() is Some {
        bucket.inner().blocks()->0.lemma_wf();
    }
}

proof fn lemma_total_size_from_between(size: u32, power: u32, head_size: nat)
    requires
        pow2::is_power_of_two(size),
        pow2::is_power_of_two(power),
        size <= power <= head_size < 2 * power,
    ensures
        total_size_from(size as nat, head_size) == 2 * power - size,
    decreases power - size,
{
    if size < power {
        pow2::lemma_scramble_bounded(0, power);
        pow2::lemma_next_power_of_two(size, power);
        pow2::lemma_double(size);
        lemma_total_size_from_between((size * 2) as u32, power, head_size);
    } else {
        assert(total_size_from(2 * size as nat, head_size) == 0);
    }
}

/// Only blocks of a power of two slots count towards the total size.
pub proof fn law_total_size_counts_powers_of_two(power: u32, head_size: nat)
    requires
        pow2::is_power_of_two(power),
        power <= head_size < 2 * power,
    ensures
        total_size(head_size) == 2 * power - 1,
        total_size(0) == 0,
{
    pow2::lemma_one_is_power_of_two();
    lemma_total_size_from_between(1, power, head_size);
    assert(total_size_from(1, 0) == 0);
}

/// The number of times that a bucket was expanded by the first `n` calls.
pub open spec fn expansions(calls: Seq<Call>, n: int) -> nat
    decreases n,
{
    if n <= 0 {
        0
    } else {
        expansions(calls, n - 1) + if calls[n - 1] is Expand {
            1nat
        } else {
            0
        }
    }
}

/// The first block has one slot, and each other block has twice as many slots as the one before it.
pub proof fn law_blocks_double<Element>(
    states: Seq<BucketInner<Element>>,
    calls: Seq<Call>,
    i: int,
)
    requires
        is_history(states, calls),
        0 <= i < states.len(),
    ensures
        expansions(calls, i) == 0 ==> states[i].blocks() is None && states[i].head_size() == 0,
        expansions(calls, i) > 0 ==> states[i].blocks() is Some && states[i].head_size()
            == vstd::arithmetic::power2::pow2((expansions(calls, i) - 1) as nat),
    decreases i,
{
    if i > 0 {
        law_blocks_double(states, calls, i - 1);
        vstd::arithmetic::power2::lemma2_to64();
        if expansions(calls, i) > 1 {
            vstd::arithmetic::power2::lemma_pow2_unfold((expansions(calls, i) - 1) as nat);
        }
        assert(match calls[i - 1] {
            Call::NextInsertLocation(location) => states[i - 1].hands_out(location, states[i]),
            Call::Expand => states[i - 1].expands_to(states[i]),
        });
    }
}

/// Slots that are handed out one after the other in the same block lie three apart, wrapped around at
/// the end of the block.
pub proof fn law_successive_locations_lie_apart<Element>(
    states: Seq<BucketInner<Element>>,
    calls: Seq<Call>,
    i: int,
    earlier: u32,
    later: u32,
)
    requires
        is_history(states, calls),
        0 <= i < calls.len() - 1,
        calls[i] == Call::NextInsertLocation(Some(earlier)),
        calls[i + 1] == Call::NextInsertLocation(Some(later)),
    ensures
        (later - earlier - 3) % (states[i].head_size() as int) == 0,
{
    assert(states[i].hands_out(Some(earlier), states[i + 1]));
    assert(states[i + 1].hands_out(Some(later), states[i + 1 + 1]));
    states[i].lemma_wf();
    let size = states[i].head_size() as int;
    let slot = states[i].unused();
    pow2::law_scramble_is_modulo(slot, size as u32);
    pow2::law_scramble_is_modulo((slot + 1) as u32, size as u32);
    let (a, b): (int, int) = (slot * 3, slot * 3 + 3);
    vstd::arithmetic::div_mod::lemma_fundamental_div_mod(a, size);
    vstd::arithmetic::div_mod::lemma_fundamental_div_mod(b, size);
    let (p, q) = (a / size, b / size);
    assert(b % size - a % size - 3 == size * (p - q)) by (nonlinear_arith)
        requires
            a == size * p + a % size,
            b == size * q + b % size,
            b == a + 3,
    ;
    assert(size * (p - q) == (p - q) * size) by (nonlinear_arith);
    vstd::arithmetic::div_mod::lemma_mod_multiples_basic(p - q, size);
}

} // verus!
