//! Blocks of slots, each of which holds an element and its header.

use vstd::prelude::*;

use crate::header;
use crate::header::{
    Header, HeaderView, LockedRemoval, RemoveResult, MAX_CONCURRENT_READS, RESERVED_ID,
};
use crate::id::Id;
use crate::rwstore_id::RwStoreId;
use crate::timeout::{BlockResult, TimedOut, Timeout};
use crate::util::debug_check::DebugCheckedMaybeUninit;
use crate::util::pow2;
use crate::util::sync::park::ParkChoice;

verus! {

/// What a slot stands for: its header, and its element if there is one.
#[verifier::ext_equal]
pub struct SlotView<Element> {
    pub header: HeaderView,
    pub value: Option<Element>,
}

impl<Element> SlotView<Element> {
    /// A slot holds an element exactly if its header is occupied, and never under the reserved ID.
    pub open spec fn wf(self) -> bool {
        &&& self.header.wf()
        &&& self.header.occupied() <==> self.value is Some
        &&& self.header.occupied() ==> self.header.id != RESERVED_ID
    }

    pub open spec fn with_header(self, header: HeaderView) -> Self {
        SlotView { header, value: self.value }
    }

    /// What becomes of the slot, and what a thread has to do, when it wants to remove the element
    /// with the given ordinal.
    pub open spec fn poll_remove(self, ordinal: u32, timeout: Timeout) -> (
        Self,
        ParkChoice<BlockResult<Option<Element>>>,
    ) {
        let (header, choice) = self.header.poll_remove(ordinal, timeout);
        match choice {
            ParkChoice::Park => (self.with_header(header), ParkChoice::Park),
            ParkChoice::DontPark(Err(error)) => (
                self.with_header(header),
                ParkChoice::DontPark(Err(error)),
            ),
            ParkChoice::DontPark(Ok(true)) => (
                SlotView { header, value: None },
                ParkChoice::DontPark(Ok(self.value)),
            ),
            ParkChoice::DontPark(Ok(false)) => (
                self.with_header(header),
                ParkChoice::DontPark(Ok(None)),
            ),
        }
    }

    /// Whether an ordinal may be looked up in the slot: if it is that of the header, then the slot
    /// must hold an element.
    pub open spec fn may_look_up(self, ordinal: u32) -> bool {
        ordinal != RESERVED_ID && (self.header.id == ordinal ==> self.header.occupied())
    }

    /// A slot that never held an element.
    pub open spec fn pristine() -> Self {
        SlotView { header: HeaderView { id: 0, lock: None }, value: None }
    }
}

/// Removing an element hands it out and leaves the slot without it exactly if the slot holds that
/// element and it is not locked. Otherwise the element stays.
pub proof fn law_removal_takes_the_element<Element>(
    slot: SlotView<Element>,
    ordinal: u32,
    timeout: Timeout,
)
    requires
        slot.wf(),
        slot.may_look_up(ordinal),
    ensures
        ({
            let (after, choice) = slot.poll_remove(ordinal, timeout);
            let here = slot.header.id == ordinal;
            let free = slot.header.lock == Some(header::Lock::Unlocked);
            &&& after.wf()
            &&& here && free ==> {
                &&& choice == ParkChoice::<BlockResult<Option<Element>>>::DontPark(Ok(slot.value))
                &&& slot.value is Some && after.value is None
                &&& after.header == slot.header.after_remove()
            }
            &&& !(here && free) ==> after.value == slot.value
            &&& !here ==> choice == ParkChoice::<BlockResult<Option<Element>>>::DontPark(Ok(None))
                && after == slot
            &&& here && !free && timeout == Timeout::DontBlock ==> choice == ParkChoice::<
                BlockResult<Option<Element>>,
            >::DontPark(Err(TimedOut)) && after == slot
            &&& here && !free && timeout != Timeout::DontBlock ==> choice is Park && after.header
                == slot.header.after_mark()
        }),
{
}

/// A slot that never held an element is unoccupied, under the first ID.
pub proof fn law_pristine_slots_are_free<Element>()
    ensures
        SlotView::<Element>::pristine().wf(),
        SlotView::<Element>::pristine().value is None,
        SlotView::<Element>::pristine().header == (HeaderView { id: 0, lock: None }),
{
}

pub struct Slot<Element> {
    header: Header,
    value: DebugCheckedMaybeUninit<Element>,
}

impl<Element> View for Slot<Element> {
    type V = SlotView<Element>;

    closed spec fn view(&self) -> SlotView<Element> {
        SlotView { header: self.header@, value: self.value@ }
    }
}

impl<Element> Slot<Element> {
    pub fn new() -> (slot: Self)
        ensures
            slot@ == SlotView::<Element>::pristine(),
    {
        Self { header: Header::new(), value: DebugCheckedMaybeUninit::uninit() }
    }
}

impl<Element> Drop for Slot<Element> {
    /// Drops the element, if there is one.
    fn drop(&mut self)
        ensures
            final(self)@.header == old(self)@.header,
            final(self)@.value == if old(self)@.header.occupied() {
                None
            } else {
                old(self)@.value
            },
        opens_invariants none
        no_unwind
    {
        if self.header.needs_drop() {
            self.value.drop_in_place();
        }
    }
}

pub struct BlockHeader<Element> {
    next: Option<Box<Block<Element>>>,
    store_id: RwStoreId,
}

impl<Element> BlockHeader<Element> {
    pub closed spec fn spec_next(self) -> Option<Box<Block<Element>>> {
        self.next
    }

    pub closed spec fn spec_store_id(self) -> RwStoreId {
        self.store_id
    }

    pub fn new(next: Option<Box<Block<Element>>>, store_id: RwStoreId) -> (header: Self)
        ensures
            header.spec_next() == next,
            header.spec_store_id() == store_id,
    {
        Self { next, store_id }
    }
}

/// An array of slots, each containing a header and element. Also contains the block which was most
/// recently allocated before this one. A block is kept until the entire store is dropped.
///
/// The slots of a block and of those before it have addresses, from the first slot of the oldest
/// block to the last slot of the newest one. So no two blocks of the same list share an address, and
/// the addresses of a block do not depend on the blocks that come after it.
pub struct Block<Element> {
    header: BlockHeader<Element>,
    // The address of the first slot of this block, which is the number of slots before it
    start: u32,
    slots: Vec<Slot<Element>>,
}

impl<Element> Block<Element> {
    /// The number of slots of this block.
    pub closed spec fn size(self) -> u32 {
        self.slots@.len() as u32
    }

    pub closed spec fn store_id(self) -> RwStoreId {
        self.header.store_id
    }

    pub closed spec fn next(self) -> Option<Box<Block<Element>>> {
        self.header.next
    }

    /// The number of slots of the blocks before this one.
    pub closed spec fn start(self) -> u32 {
        self.start
    }

    /// The number of slots of this block and those before it.
    pub open spec fn total(self) -> int {
        self.start() + self.size()
    }

    pub open spec fn has_address(self, address: int) -> bool {
        0 <= address < self.total()
    }

    /// The slot with the given address.
    pub closed spec fn at(self, address: int) -> SlotView<Element>
        decreases self,
    {
        if address >= self.start {
            self.slots@[address - self.start]@
        } else {
            match self.header.next {
                Some(next) => next.at(address),
                None => arbitrary(),
            }
        }
    }

    /// The store to which the block belongs that holds the slot with the given address.
    pub closed spec fn store_id_at(self, address: int) -> RwStoreId
        decreases self,
    {
        if address >= self.start {
            self.header.store_id
        } else {
            match self.header.next {
                Some(next) => next.store_id_at(address),
                None => arbitrary(),
            }
        }
    }

    /// Whether each block has twice as many slots as the one before it, from the first one on, which
    /// has one, and all of them belong to the given store.
    pub closed spec fn grown_for(self, store_id: RwStoreId) -> bool
        decreases self,
    {
        &&& self.header.store_id == store_id
        &&& match self.header.next {
            Some(next) => next.grown_for(store_id) && 2 * next.slots@.len() == self.slots@.len(),
            None => self.slots@.len() == 1,
        }
    }

    /// Blocks that were grown have as many slots before the newest one as that one has, less one.
    pub proof fn lemma_grown(self, store_id: RwStoreId)
        requires
            self.wf(),
            self.grown_for(store_id),
        ensures
            self.start() == self.size() - 1,
            self.store_id() == store_id,
            forall|a: int| self.has_address(a) ==> #[trigger] self.store_id_at(a) == store_id,
        decreases self,
    {
        if self.header.next is Some {
            let next = self.header.next->0;
            next.lemma_grown(store_id);
            assert forall|a: int| self.has_address(a) implies #[trigger] self.store_id_at(a)
                == store_id by {
                if a < self.start {
                    assert(next.store_id_at(a) == store_id);
                }
            }
        }
    }

    pub closed spec fn wf(self) -> bool
        decreases self,
    {
        &&& self.slots@.len() <= 0x8000_0000
        &&& pow2::is_power_of_two(self.slots@.len() as u32)
        &&& self.start + self.slots@.len() <= 0x1_0000_0000
        &&& forall|i: int| 0 <= i < self.slots@.len() ==> (#[trigger] self.slots@[i])@.wf()
        &&& match self.header.next {
            Some(next) => next.wf() && next.total() == self.start,
            None => self.start == 0,
        }
    }

    /// Whether `other` is this list of blocks, but for the slot with the given address.
    pub open spec fn same_but_for(self, address: int, other: Self) -> bool {
        &&& other.size() == self.size()
        &&& other.store_id() == self.store_id()
        &&& other.start() == self.start()
        &&& forall|store_id: RwStoreId|
            #[trigger] other.grown_for(store_id) == self.grown_for(store_id)
        &&& forall|a: int|
            self.has_address(a) ==> #[trigger] other.store_id_at(a) == self.store_id_at(a)
        &&& forall|a: int|
            a != address && self.has_address(a) ==> #[trigger] other.at(a) == self.at(a)
    }

    /// Whether `other` is this list of blocks, but for the slot with the given address, as far as
    /// can be seen from the blocks themselves.
    closed spec fn replaces_slot(self, address: int, other: Self) -> bool
        decreases self,
    {
        &&& other.header.store_id == self.header.store_id
        &&& other.start == self.start
        &&& if address >= self.start {
            let i = address - self.start;
            &&& other.header.next == self.header.next
            &&& other.slots@ == self.slots@.update(i, other.slots@[i])
        } else {
            &&& other.slots == self.slots
            &&& match (self.header.next, other.header.next) {
                (Some(next), Some(other_next)) => next.replaces_slot(address, *other_next),
                _ => false,
            }
        }
    }

    proof fn lemma_replaces_slot(self, address: int, other: Self)
        requires
            self.wf(),
            self.has_address(address),
            self.replaces_slot(address, other),
        ensures
            self.same_but_for(address, other),
            other.at(address).wf() ==> other.wf(),
        decreases self,
    {
        if address < self.start {
            let (next, other_next) = (self.header.next->0, other.header.next->0);
            next.lemma_replaces_slot(address, *other_next);
            assert forall|a: int| a != address && self.has_address(a) implies #[trigger] other.at(a)
                == self.at(a) by {
                if a < self.start {
                    assert(other_next.at(a) == next.at(a));
                }
            }
            assert forall|a: int| self.has_address(a) implies #[trigger] other.store_id_at(a)
                == self.store_id_at(a) by {
                if a < self.start {
                    assert(other_next.store_id_at(a) == next.store_id_at(a));
                }
            }
            assert(next.replaces_slot(address, *other_next));
            assert(other_next.slots@.len() == next.slots@.len());
            assert forall|store_id: RwStoreId|
                #[trigger] other.grown_for(store_id) == self.grown_for(store_id) by {
                assert(other_next.grown_for(store_id) == next.grown_for(store_id));
            }
        } else {
            let i = address - self.start;
            assert(other.at(address) == other.slots@[i]@);
            assert forall|j: int|
                0 <= j < other.slots@.len() && other.at(address).wf() implies (
                    #[trigger] other.slots@[j])@.wf() by {
                if j != i {
                    assert(other.slots@[j] == self.slots@[j]);
                }
            }
        }
    }

    /// What is known of every well-formed list of blocks.
    pub proof fn lemma_wf(self)
        requires
            self.wf(),
        ensures
            pow2::is_power_of_two(self.size()),
            self.size() <= 0x8000_0000,
            self.total() <= 0x1_0000_0000,
            self.start() == match self.next() {
                Some(next) => next.total(),
                None => 0,
            },
            self.next() matches Some(next) ==> next.wf(),
            forall|a: int| self.has_address(a) ==> (#[trigger] self.at(a)).wf(),
        decreases self,
    {
        if self.header.next is Some {
            self.header.next->0.lemma_wf();
            assert forall|a: int| self.has_address(a) implies (#[trigger] self.at(a)).wf() by {
                if a < self.start {
                    assert(self.header.next->0.at(a).wf());
                } else {
                    assert(self.slots@[a - self.start]@.wf());
                }
            }
        } else {
            assert forall|a: int| self.has_address(a) implies (#[trigger] self.at(a)).wf() by {
                assert(self.slots@[a - self.start]@.wf());
            }
        }
    }

    /// Creates a block in front of the given ones.
    pub fn new(size: u32, next: Option<Box<Self>>, store_id: RwStoreId) -> (block: Box<Self>)
        requires
            pow2::is_power_of_two(size),
            next matches Some(next) ==> next.wf() && next.total() + size <= 0x1_0000_0000,
        ensures
            block.wf(),
            block.size() == size,
            block.store_id() == store_id,
            block.next() == next,
            block.start() == match next {
                Some(next) => next.total(),
                None => 0,
            },
            forall|a: int|
                block.start() <= a < block.total() ==> #[trigger] block.at(a) == SlotView::<
                    Element,
                >::pristine(),
            next matches Some(next) ==> forall|a: int|
                a < block.start() ==> #[trigger] block.at(a) == next.at(a),
            forall|a: int|
                0 <= a ==> #[trigger] block.store_id_at(a) == if a >= block.start() {
                    store_id
                } else {
                    next->0.store_id_at(a)
                },
            forall|id: RwStoreId| #[trigger]
                block.grown_for(id) <==> id == store_id && match next {
                    Some(next) => next.grown_for(id) && 2 * next.size() == size,
                    None => size == 1,
                },
    {
        proof {
            pow2::lemma_scramble_bounded(0, size);
            if next is Some {
                next->0.lemma_wf();
                pow2::lemma_scramble_bounded(0, next->0.size());
            }
        }
        let start = match &next {
            Some(next) => next.start + next.len(),
            None => 0,
        };
        let mut slots: Vec<Slot<Element>> = Vec::new();
        let mut i: u32 = 0;
        while i < size
            invariant
                i <= size,
                slots@.len() == i,
                forall|j: int|
                    0 <= j < i ==> (#[trigger] slots@[j])@ == SlotView::<Element>::pristine(),
            decreases size - i,
        {
            slots.push(Slot::new());
            i = i + 1;
        }

        Box::new(Block { header: BlockHeader::new(next, store_id), start, slots })
    }

    /// The number of slots of this block.
    pub fn len(&self) -> (len: u32)
        requires
            self.wf(),
        ensures
            len == self.size(),
    {
        self.slots.len() as u32
    }

    fn slot_from_id(&self, address: u32) -> (slot: &Slot<Element>)
        requires
            self.wf(),
            self.has_address(address as int),
        ensures
            slot@ == self.at(address as int),
        decreases *self,
    {
        if address >= self.start {
            &self.slots[(address - self.start) as usize]
        } else {
            match &self.header.next {
                Some(next) => next.slot_from_id(address),
                None => vstd::pervasive::unreached(),
            }
        }
    }

    fn slot_from_id_mut(&mut self, address: u32) -> (slot: &mut Slot<Element>)
        requires
            old(self).wf(),
            old(self).has_address(address as int),
        ensures
            slot@ == old(self).at(address as int),
            final(self).at(address as int) == final(slot)@,
            old(self).replaces_slot(address as int, *final(self)),
            old(self).same_but_for(address as int, *final(self)),
            final(slot)@.wf() ==> final(self).wf(),
        decreases *old(self),
    {
        if address >= self.start {
            let slot = &mut self.slots[(address - self.start) as usize];
            proof {
                old(self).lemma_replaces_slot(address as int, after_borrow(*self));
            }
            slot
        } else {
            match &mut self.header.next {
                Some(next) => {
                    let slot = next.slot_from_id_mut(address);
                    proof {
                        old(self).lemma_replaces_slot(address as int, after_borrow(*self));
                    }
                    slot
                },
                None => vstd::pervasive::unreached(),
            }
        }
    }

    fn slot_store_id(&self, address: u32) -> (store_id: RwStoreId)
        requires
            self.wf(),
            self.has_address(address as int),
        ensures
            store_id == self.store_id_at(address as int),
        decreases *self,
    {
        if address >= self.start {
            self.header.store_id
        } else {
            match &self.header.next {
                Some(next) => next.slot_store_id(address),
                None => vstd::pervasive::unreached(),
            }
        }
    }

    /// The address of a logical slot of this block.
    pub fn slot_address(&self, slot: u32) -> (address: u32)
        requires
            self.wf(),
            slot < self.size(),
        ensures
            address == self.start() + pow2::scramble(slot, self.size()),
            self.has_address(address as int),
    {
        proof {
            self.lemma_wf();
            pow2::lemma_scramble_bounded(slot, self.size());
        }
        let index = self.scramble_slot(slot);
        self.start + index
    }

    /// Takes a logical slot and returns a physical slot which has been mapped pseudo-randomly to
    /// help with false sharing.
    pub fn scramble_slot(&self, slot: u32) -> (index: u32)
        requires
            self.wf(),
        ensures
            index == pow2::scramble(slot, self.size()),
            index == (slot * 3) % (self.size() as int),
            index < self.size(),
    {
        proof {
            self.lemma_wf();
            pow2::lemma_scramble_bounded(slot, self.size());
            pow2::law_scramble_is_modulo(slot, self.size());
        }
        pow2::scramble_slot(slot, self.len())
    }

    /// Puts an element into the slot with the given address, which must be free.
    pub fn insert(
        &mut self,
        id: u32,
        bucket_id: u32,
        slot_address: u32,
        element: Element,
        store_id: RwStoreId,
    ) -> (element_id: Id)
        requires
            old(self).wf(),
            old(self).has_address(slot_address as int),
            !old(self).at(slot_address as int).header.occupied(),
            id != RESERVED_ID,
        ensures
            final(self).wf(),
            old(self).same_but_for(slot_address as int, *final(self)),
            final(self).at(slot_address as int) == (SlotView {
                header: old(self).at(slot_address as int).header.after_insert(id),
                value: Some(element),
            }),
            element_id == Id::spec_new(id, bucket_id, slot_address, store_id),
    {
        let slot = self.slot_from_id_mut(slot_address);
        slot.value = DebugCheckedMaybeUninit::new(element);
        slot.header.insert(id);
        Id::new(id, bucket_id, slot_address, store_id)
    }

    /// Removes the element with the given ID, or says that the calling thread has to park.
    pub fn poll_remove(&mut self, id: Id, timeout: Timeout) -> (choice: ParkChoice<
        BlockResult<Option<Element>>,
    >)
        requires
            old(self).wf(),
            old(self).has_address(id.spec_position() as int),
            old(self).at(id.spec_position() as int).may_look_up(id.spec_ordinal()),
        ensures
            final(self).wf(),
            old(self).same_but_for(id.spec_position() as int, *final(self)),
            (final(self).at(id.spec_position() as int), choice) == old(self).at(
                id.spec_position() as int,
            ).poll_remove(id.spec_ordinal(), timeout),
    {
        proof {
            self.lemma_wf();
        }
        let slot = self.slot_from_id_mut(id.slot().position);
        match slot.header.poll_remove(id.ordinal(), timeout) {
            ParkChoice::Park => ParkChoice::Park,
            ParkChoice::DontPark(Err(error)) => ParkChoice::DontPark(Err(error)),
            ParkChoice::DontPark(Ok(RemoveResult::Matched { .. })) => {
                let element = slot.value.read().assume_init();
                ParkChoice::DontPark(Ok(Some(element)))
            },
            ParkChoice::DontPark(Ok(RemoveResult::DidntMatch)) => ParkChoice::DontPark(Ok(None)),
        }
    }

    /// Removes the element with the given ID.
    pub fn remove(&mut self, id: Id, timeout: Timeout) -> (result: BlockResult<Option<Element>>)
        requires
            old(self).wf(),
            old(self).has_address(id.spec_position() as int),
            old(self).at(id.spec_position() as int).may_look_up(id.spec_ordinal()),
            ({
                let header = old(self).at(id.spec_position() as int).header;
                header.id == id.spec_ordinal() && header.locked() ==> !(timeout is BlockIndefinitely)
            }),
        ensures
            final(self).wf(),
            old(self).same_but_for(id.spec_position() as int, *final(self)),
            ({
                let (slot, choice) = old(self).at(id.spec_position() as int).poll_remove(
                    id.spec_ordinal(),
                    timeout,
                );
                &&& final(self).at(id.spec_position() as int) == slot
                &&& result == header::outcome_alone(choice)
            }),
    {
        match self.poll_remove(id, timeout) {
            ParkChoice::Park => Err(TimedOut),
            ParkChoice::DontPark(result) => result,
        }
    }

    /// Removes the element with the given ID, which must be write locked.
    pub fn remove_locked(&mut self, id: Id) -> (removed: (Element, LockedRemoval))
        requires
            old(self).wf(),
            old(self).has_address(id.spec_position() as int),
            old(self).at(id.spec_position() as int).header.id == id.spec_ordinal(),
            old(self).at(id.spec_position() as int).header.write_locked(),
        ensures
            final(self).wf(),
            old(self).same_but_for(id.spec_position() as int, *final(self)),
            final(self).at(id.spec_position() as int) == (SlotView::<Element> {
                header: old(self).at(id.spec_position() as int).header.after_remove(),
                value: None,
            }),
            Some(removed.0) == old(self).at(id.spec_position() as int).value,
            removed.1.may_reuse == (id.spec_ordinal() + 1 != RESERVED_ID),
            removed.1.must_unpark == old(self).at(
                id.spec_position() as int,
            ).header.unlock_write_unparks(),
    {
        proof {
            self.lemma_wf();
        }
        let slot = self.slot_from_id_mut(id.slot().position);
        let element = slot.value.read().assume_init();
        let removal = slot.header.remove_locked(id.ordinal());
        (element, removal)
    }

    /// Read locks the element with the given ID, or says that the calling thread has to park.
    pub fn poll_lock_read(&mut self, id: Id, timeout: Timeout) -> (choice: ParkChoice<
        BlockResult<bool>,
    >)
        requires
            old(self).wf(),
            old(self).has_address(id.spec_position() as int),
            old(self).at(id.spec_position() as int).may_look_up(id.spec_ordinal()),
            ({
                let header = old(self).at(id.spec_position() as int).header;
                header.id == id.spec_ordinal() ==> header.readers() != MAX_CONCURRENT_READS
            }),
        ensures
            final(self).wf(),
            old(self).same_but_for(id.spec_position() as int, *final(self)),
            ({
                let slot = old(self).at(id.spec_position() as int);
                let (header, spec_choice) = slot.header.poll_lock_read(id.spec_ordinal(), timeout);
                &&& final(self).at(id.spec_position() as int) == slot.with_header(header)
                &&& choice == spec_choice
            }),
    {
        proof {
            self.lemma_wf();
        }
        let slot = self.slot_from_id_mut(id.slot().position);
        slot.header.poll_lock_read(id.ordinal(), timeout)
    }

    /// Read locks the element with the given ID.
    pub fn lock_read(&mut self, id: Id, timeout: Timeout) -> (result: BlockResult<bool>)
        requires
            old(self).wf(),
            old(self).has_address(id.spec_position() as int),
            old(self).at(id.spec_position() as int).may_look_up(id.spec_ordinal()),
            ({
                let header = old(self).at(id.spec_position() as int).header;
                header.id == id.spec_ordinal() ==> header.readers() != MAX_CONCURRENT_READS && (
                header.write_locked() ==> !(timeout is BlockIndefinitely))
            }),
        ensures
            final(self).wf(),
            old(self).same_but_for(id.spec_position() as int, *final(self)),
            ({
                let slot = old(self).at(id.spec_position() as int);
                let (header, choice) = slot.header.poll_lock_read(id.spec_ordinal(), timeout);
                &&& final(self).at(id.spec_position() as int) == slot.with_header(header)
                &&& result == header::outcome_alone(choice)
            }),
    {
        match self.poll_lock_read(id, timeout) {
            ParkChoice::Park => Err(TimedOut),
            ParkChoice::DontPark(result) => result,
        }
    }

    /// Read unlocks the element with the given ID, and says whether the threads that are parked on
    /// it have to be unparked.
    pub fn unlock_read(&mut self, id: Id) -> (must_unpark: bool)
        requires
            old(self).wf(),
            old(self).has_address(id.spec_position() as int),
            old(self).at(id.spec_position() as int).header.id == id.spec_ordinal(),
            old(self).at(id.spec_position() as int).header.read_locked(),
        ensures
            final(self).wf(),
            old(self).same_but_for(id.spec_position() as int, *final(self)),
            ({
                let slot = old(self).at(id.spec_position() as int);
                &&& final(self).at(id.spec_position() as int) == slot.with_header(
                    slot.header.after_unlock_read(),
                )
                &&& must_unpark == slot.header.unlock_read_unparks()
            }),
    {
        proof {
            self.lemma_wf();
        }
        let slot = self.slot_from_id_mut(id.slot().position);
        slot.header.unlock_read(id.ordinal())
    }

    /// Determines whether as many read locks are held on the element with the given ID as can be.
    pub fn has_too_many_readers(&self, id: Id) -> (too_many: bool)
        requires
            self.wf(),
            self.has_address(id.spec_position() as int),
            self.at(id.spec_position() as int).may_look_up(id.spec_ordinal()),
        ensures
            ({
                let header = self.at(id.spec_position() as int).header;
                too_many == (header.id == id.spec_ordinal() && header.readers()
                    == MAX_CONCURRENT_READS)
            }),
    {
        self.slot_from_id(id.slot().position).header.has_too_many_readers(id.ordinal())
    }

    /// Write locks the element with the given ID, or says that the calling thread has to park.
    pub fn poll_lock_write(&mut self, id: Id, timeout: Timeout) -> (choice: ParkChoice<
        BlockResult<bool>,
    >)
        requires
            old(self).wf(),
            old(self).has_address(id.spec_position() as int),
            old(self).at(id.spec_position() as int).may_look_up(id.spec_ordinal()),
        ensures
            final(self).wf(),
            old(self).same_but_for(id.spec_position() as int, *final(self)),
            ({
                let slot = old(self).at(id.spec_position() as int);
                let (header, spec_choice) = slot.header.poll_lock_write(id.spec_ordinal(), timeout);
                &&& final(self).at(id.spec_position() as int) == slot.with_header(header)
                &&& choice == spec_choice
            }),
    {
        proof {
            self.lemma_wf();
        }
        let slot = self.slot_from_id_mut(id.slot().position);
        slot.header.poll_lock_write(id.ordinal(), timeout)
    }

    /// Write locks the element with the given ID.
    pub fn lock_write(&mut self, id: Id, timeout: Timeout) -> (result: BlockResult<bool>)
        requires
            old(self).wf(),
            old(self).has_address(id.spec_position() as int),
            old(self).at(id.spec_position() as int).may_look_up(id.spec_ordinal()),
            ({
                let header = old(self).at(id.spec_position() as int).header;
                header.id == id.spec_ordinal() && header.locked() ==> !(timeout is BlockIndefinitely)
            }),
        ensures
            final(self).wf(),
            old(self).same_but_for(id.spec_position() as int, *final(self)),
            ({
                let slot = old(self).at(id.spec_position() as int);
                let (header, choice) = slot.header.poll_lock_write(id.spec_ordinal(), timeout);
                &&& final(self).at(id.spec_position() as int) == slot.with_header(header)
                &&& result == header::outcome_alone(choice)
            }),
    {
        match self.poll_lock_write(id, timeout) {
            ParkChoice::Park => Err(TimedOut),
            ParkChoice::DontPark(result) => result,
        }
    }

    /// Write unlocks the element with the given ID, and says whether the threads that are parked on
    /// it have to be unparked.
    pub fn unlock_write(&mut self, id: Id) -> (must_unpark: bool)
        requires
            old(self).wf(),
            old(self).has_address(id.spec_position() as int),
            old(self).at(id.spec_position() as int).header.id == id.spec_ordinal(),
            old(self).at(id.spec_position() as int).header.write_locked(),
        ensures
            final(self).wf(),
            old(self).same_but_for(id.spec_position() as int, *final(self)),
            ({
                let slot = old(self).at(id.spec_position() as int);
                &&& final(self).at(id.spec_position() as int) == slot.with_header(
                    slot.header.after_unlock_write(),
                )
                &&& must_unpark == slot.header.unlock_write_unparks()
            }),
    {
        proof {
            self.lemma_wf();
        }
        let slot = self.slot_from_id_mut(id.slot().position);
        slot.header.unlock_write(id.ordinal())
    }

    /// Gets a reference to the contents of the slot referenced in the given ID. The slot must hold
    /// an element.
    pub fn get_unchecked(&self, id: Id) -> (element: &Element)
        requires
            self.wf(),
            self.has_address(id.spec_position() as int),
            self.at(id.spec_position() as int).header.occupied(),
        ensures
            Some(*element) == self.at(id.spec_position() as int).value,
    {
        proof {
            self.lemma_wf();
        }
        let slot = self.slot_from_id(id.slot().position);
        slot.value.contents()
    }

    /// Gets a mutable reference to the contents of the slot referenced in the given ID. The slot
    /// must hold an element.
    pub fn get_unchecked_mut(&mut self, id: Id) -> (element: &mut Element)
        requires
            old(self).wf(),
            old(self).has_address(id.spec_position() as int),
            old(self).at(id.spec_position() as int).header.occupied(),
        ensures
            final(self).wf(),
            old(self).same_but_for(id.spec_position() as int, *final(self)),
            Some(*element) == old(self).at(id.spec_position() as int).value,
            final(self).at(id.spec_position() as int) == (SlotView {
                header: old(self).at(id.spec_position() as int).header,
                value: Some(*final(element)),
            }),
    {
        proof {
            self.lemma_wf();
        }
        let slot = self.slot_from_id_mut(id.slot().position);
        slot.value.contents_ptr()
    }

    /// Gets a mutable reference to the contents of the slot referenced in the given ID if its
    /// ordinal matches the ID of the slot. The caller has exclusive access to the slot, so locks
    /// don't matter.
    pub fn get_exclusive(&mut self, id: Id) -> (element: Option<&mut Element>)
        requires
            old(self).wf(),
            old(self).has_address(id.spec_position() as int),
            old(self).at(id.spec_position() as int).may_look_up(id.spec_ordinal()),
        ensures
            final(self).wf(),
            old(self).same_but_for(id.spec_position() as int, *final(self)),
            ({
                let slot = old(self).at(id.spec_position() as int);
                match element {
                    Some(element) => {
                        &&& slot.header.id == id.spec_ordinal()
                        &&& Some(*element) == slot.value
                        &&& final(self).at(id.spec_position() as int) == (SlotView {
                            header: slot.header,
                            value: Some(*final(element)),
                        })
                    },
                    None => {
                        &&& slot.header.id != id.spec_ordinal()
                        &&& final(self).at(id.spec_position() as int) == slot
                    },
                }
            }),
    {
        proof {
            self.lemma_wf();
        }
        let slot = self.slot_from_id_mut(id.slot().position);
        if slot.header.id() == id.ordinal() {
            Some(slot.value.contents_ptr())
        } else {
            None
        }
    }

    /// Takes the element out of the slot with the given address, if there is one. It must not be
    /// locked.
    pub fn take(&mut self, slot_address: u32, bucket_id: u32) -> (taken: Option<(Id, Element)>)
        requires
            old(self).wf(),
            old(self).has_address(slot_address as int),
            !old(self).at(slot_address as int).header.locked(),
        ensures
            final(self).wf(),
            old(self).same_but_for(slot_address as int, *final(self)),
            ({
                let slot = old(self).at(slot_address as int);
                &&& final(self).at(slot_address as int) == (SlotView::<Element> {
                    header: HeaderView { id: slot.header.id, lock: None },
                    value: None,
                })
                &&& taken == match slot.value {
                    Some(element) => Some(
                        (
                            Id::spec_new(
                                slot.header.id,
                                bucket_id,
                                slot_address,
                                old(self).store_id_at(slot_address as int),
                            ),
                            element,
                        ),
                    ),
                    None => None,
                }
            }),
    {
        proof {
            self.lemma_wf();
        }
        let store_id = self.slot_store_id(slot_address);
        let slot = self.slot_from_id_mut(slot_address);
        match slot.header.reset() {
            Some(id) => {
                let element = slot.value.read().assume_init();
                Some((Id::new(id, bucket_id, slot_address, store_id), element))
            },
            None => None,
        }
    }

    /// Gets the ID of the element in the slot with the given address and a mutable reference to it,
    /// if there is one.
    pub fn slot_contents(&mut self, slot_address: u32, bucket_id: u32) -> (contents: Option<
        (Id, &mut Element),
    >)
        requires
            old(self).wf(),
            old(self).has_address(slot_address as int),
        ensures
            final(self).wf(),
            old(self).same_but_for(slot_address as int, *final(self)),
            ({
                let slot = old(self).at(slot_address as int);
                match contents {
                    Some((id, element)) => {
                        &&& Some(*element) == slot.value
                        &&& id == Id::spec_new(
                            slot.header.id,
                            bucket_id,
                            slot_address,
                            old(self).store_id_at(slot_address as int),
                        )
                        &&& final(self).at(slot_address as int) == (SlotView {
                            header: slot.header,
                            value: Some(*final(element)),
                        })
                    },
                    None => slot.value is None && final(self).at(slot_address as int) == slot,
                }
            }),
    {
        proof {
            self.lemma_wf();
        }
        let store_id = self.slot_store_id(slot_address);
        let slot = self.slot_from_id_mut(slot_address);
        match slot.header.id_if_occupied() {
            Some(id) => Some(
                (Id::new(id, bucket_id, slot_address, store_id), slot.value.contents_ptr()),
            ),
            None => None,
        }
    }

    /// Determines whether the slot with the given address holds an element.
    pub fn is_occupied(&self, slot_address: u32) -> (occupied: bool)
        requires
            self.wf(),
            self.has_address(slot_address as int),
        ensures
            occupied == self.at(slot_address as int).header.occupied(),
    {
        self.slot_from_id(slot_address).header.needs_drop()
    }

    /// Determines whether the element in the slot with the given address is locked, if there is one.
    pub fn is_locked(&self, slot_address: u32) -> (locked: bool)
        requires
            self.wf(),
            self.has_address(slot_address as int),
        ensures
            locked == self.at(slot_address as int).header.locked(),
    {
        !self.slot_from_id(slot_address).header.may_drop()
    }

    /// Determines the ordinal that the slot with the given address is currently tracking.
    pub fn slot_id(&self, slot_address: u32) -> (id: u32)
        requires
            self.wf(),
            self.has_address(slot_address as int),
        ensures
            id == self.at(slot_address as int).header.id,
    {
        self.slot_from_id(slot_address).header.id()
    }

    /// The block that was allocated before this one.
    pub fn into_next(self) -> (next: Option<Box<Self>>)
        ensures
            next == self.next(),
    {
        self.header.next
    }

    /// The block that was allocated before this one.
    pub fn next_mut(&mut self) -> (next: Option<&mut Box<Self>>)
        requires
            old(self).wf(),
        ensures
            final(self).size() == old(self).size(),
            final(self).store_id() == old(self).store_id(),
            final(self).start() == old(self).start(),
            forall|a: int|
                old(self).start() <= a < old(self).total() ==> #[trigger] final(self).at(a) == old(
                    self).at(a),
            match next {
                Some(next) => {
                    &&& old(self).next() == Some(*next)
                    &&& final(self).next() == Some(*final(next))
                    &&& final(next).wf() && final(next).total() == next.total() ==> final(self).wf()
                },
                None => old(self).next() is None && *final(self) == *old(self),
            },
    {
        self.header.next.as_mut()
    }
}

} // verus!
