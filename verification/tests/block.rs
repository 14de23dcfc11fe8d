use std::cell::Cell;
use std::rc::Rc;

use read_write_store::block::Block;
use read_write_store::layout::BlockLayout;
use read_write_store::Timeout::DontBlock;
use read_write_store::{Id, RwStoreId, TimedOut};

fn store_id() -> RwStoreId {
    RwStoreId::generate(&mut 0)
}

fn singleton_block() -> (Box<Block<u32>>, Id) {
    let store_id = store_id();
    let mut block = Block::new(1, None, store_id);
    let slot = block.slot_address(0);
    let id = block.insert(42, 12, slot, 24, store_id);
    (block, id)
}

fn create_mismatching_id(id: Id) -> Id {
    Id::new(id.ordinal() + 1, id.bucket_id(), id.slot().position, id.store_id())
}

#[derive(Debug)]
struct Element {
    state: Rc<Cell<u32>>,
}

impl Drop for Element {
    fn drop(&mut self) {
        self.state.set(42);
    }
}

#[test]
fn len_returns_the_size() {
    let block = Block::<()>::new(32, None, store_id());
    assert_eq!(block.len(), 32);
}

#[test]
fn insert_creates_an_appropriate_id() {
    let store_id = store_id();
    let mut block = Block::<u32>::new(1, None, store_id);
    let slot = block.slot_address(0);
    let id = block.insert(42, 24, slot, 12, store_id);

    assert_eq!(id.ordinal(), 42);
    assert_eq!(id.bucket_id(), 24);
}

#[test]
fn removal_fails_on_an_empty_slot() {
    let store_id = store_id();
    let mut block = Block::<u32>::new(1, None, store_id);

    let id = {
        let slot = block.slot_address(0);
        Id::new(42, 24, slot, store_id)
    };

    assert_eq!(block.remove(id, DontBlock), Ok(None));
}

#[test]
fn removal_succeeds_when_id_matches() {
    let (mut block, id) = singleton_block();
    assert_eq!(block.remove(id, DontBlock), Ok(Some(24)));
}

#[test]
fn removal_fails_when_id_doesnt_match() {
    let (mut block, id) = singleton_block();
    let id = create_mismatching_id(id);
    assert_eq!(block.remove(id, DontBlock), Ok(None));
}

#[test]
fn block_lock_read_succeeds_when_id_matches() {
    let (mut block, id) = singleton_block();
    assert_eq!(block.lock_read(id, DontBlock), Ok(true));
    block.unlock_read(id);
}

#[test]
fn block_lock_read_fails_when_id_doesnt_match() {
    let (mut block, id) = singleton_block();
    let id = create_mismatching_id(id);
    assert_eq!(block.lock_read(id, DontBlock), Ok(false));
}

#[test]
fn removal_drops_the_element() {
    let state = Rc::new(Cell::new(0));

    let store_id = store_id();
    let mut block = Block::<Element>::new(1, None, store_id);
    let slot = block.slot_address(0);

    let element = Element { state: state.clone() };

    let id = block.insert(42, 24, slot, element, store_id);
    block.remove(id, DontBlock).unwrap();

    assert_eq!(state.get(), 42);
}

#[test]
fn locked_removal_drops_the_element() {
    let state = Rc::new(Cell::new(0));

    let store_id = store_id();
    let mut block = Block::<Element>::new(1, None, store_id);
    let slot = block.slot_address(0);

    let element = Element { state: state.clone() };

    let id = block.insert(42, 24, slot, element, store_id);

    block.lock_write(id, DontBlock).unwrap();
    block.remove_locked(id);

    assert_eq!(state.get(), 42);
}

#[test]
fn dropping_the_block_drops_all_elements() {
    let state = Rc::new(Cell::new(0));

    {
        let store_id = store_id();
        let mut block = Block::<Element>::new(1, None, store_id);
        let slot = block.slot_address(0);

        let element = Element { state: state.clone() };

        block.insert(42, 24, slot, element, store_id);
    }

    assert_eq!(state.get(), 42);
}

#[test]
fn removing_a_locked_element_times_out() {
    let (mut block, id) = singleton_block();
    block.lock_read(id, DontBlock).unwrap();
    assert_eq!(block.remove(id, DontBlock), Err(TimedOut));
    block.unlock_read(id);
    assert_eq!(block.remove(id, DontBlock), Ok(Some(24)));
}

#[test]
fn slots_are_scrambled_by_a_factor_of_three() {
    let block = Block::<()>::new(8, None, store_id());
    let indices: Vec<u32> = (0..8).map(|slot| block.scramble_slot(slot)).collect();
    assert_eq!(indices, vec![0, 3, 6, 1, 4, 7, 2, 5]);

    let addresses: Vec<u32> = (0..8).map(|slot| block.slot_address(slot)).collect();
    assert_eq!(addresses, indices);
}

#[test]
fn large_slots_are_scrambled_without_overflowing() {
    let block = Block::<()>::new(4, None, store_id());
    assert_eq!(block.scramble_slot(0xffff_ffff), 1);
    assert_eq!(block.scramble_slot(0x8000_0001), 3);
}

#[test]
fn addresses_reach_the_blocks_before() {
    let store_id = store_id();
    let mut first = Block::<u32>::new(1, None, store_id);
    let first_slot = first.slot_address(0);
    let first_id = first.insert(0, 5, first_slot, 10, store_id);
    let mut second = Block::<u32>::new(2, Some(first), store_id);
    let second_slot = second.slot_address(1);
    let second_id = second.insert(1, 5, second_slot, 20, store_id);

    assert_eq!(first_slot, 0);
    assert_eq!(second_slot, 2);
    assert_eq!(*second.get_unchecked(first_id), 10);
    assert_eq!(*second.get_unchecked(second_id), 20);
    *second.get_unchecked_mut(first_id) = 11;
    assert_eq!(*second.get_unchecked(first_id), 11);
    assert!(second.is_occupied(0));
    assert!(!second.is_occupied(1));
    assert_eq!(second.next_mut().unwrap().len(), 1);
    assert_eq!(second.into_next().unwrap().len(), 1);
}

#[test]
fn blocks_of_any_size_and_store_can_follow_each_other() {
    let mut next = 0;
    let (old_store, new_store) = (RwStoreId::generate(&mut next), RwStoreId::generate(&mut next));
    let mut first = Block::<u32>::new(8, None, old_store);
    let first_slot = first.slot_address(2);
    first.insert(0, 5, first_slot, 10, old_store);
    let mut second = Block::<u32>::new(2, Some(first), new_store);
    let second_slot = second.slot_address(1);
    second.insert(1, 5, second_slot, 20, new_store);

    assert_eq!(first_slot, 6);
    assert_eq!(second_slot, 9);
    assert_eq!(second.slot_contents(first_slot, 5).unwrap().0.store_id(), old_store);
    assert_eq!(second.take(second_slot, 5).unwrap().0.store_id(), new_store);
    assert_eq!(second.take(first_slot, 5).unwrap().1, 10);
}

#[test]
fn the_block_before_can_be_reached_mutably() {
    let store_id = store_id();
    let mut block = Block::<u32>::new(2, Some(Block::new(1, None, store_id)), store_id);
    {
        let next = block.next_mut().unwrap();
        assert_eq!(next.len(), 1);
        assert!(next.next_mut().is_none());
        let slot = next.slot_address(0);
        next.insert(3, 4, slot, 5, store_id);
    }
    assert_eq!(block.len(), 2);
    assert_eq!(block.take(0, 4).unwrap().1, 5);
}

#[test]
fn exclusive_access_compares_ordinals() {
    let (mut block, id) = singleton_block();
    assert_eq!(block.get_exclusive(id), Some(&mut 24));
    assert_eq!(block.get_exclusive(create_mismatching_id(id)), None);
}

#[test]
fn take_yields_the_element_and_its_id() {
    let (mut block, id) = singleton_block();
    let (taken_id, element) = block.take(id.slot().position, 12).unwrap();
    assert_eq!(element, 24);
    assert_eq!(taken_id.ordinal(), 42);
    assert_eq!(taken_id.bucket_id(), 12);
    assert_eq!(taken_id.slot(), id.slot());
    assert!(block.take(id.slot().position, 12).is_none());
}

#[test]
fn slot_contents_are_those_of_occupied_slots() {
    let (mut block, id) = singleton_block();
    {
        let (contents_id, element) = block.slot_contents(id.slot().position, 12).unwrap();
        assert_eq!(contents_id.ordinal(), 42);
        *element = 25;
    }
    assert_eq!(block.remove(id, DontBlock), Ok(Some(25)));
    assert!(block.slot_contents(id.slot().position, 12).is_none());
}

#[test]
fn next_multiple_of_rounds_up() {
    assert_eq!(BlockLayout::next_multiple_of(0, 8), 0);
    assert_eq!(BlockLayout::next_multiple_of(1, 8), 8);
    assert_eq!(BlockLayout::next_multiple_of(8, 8), 8);
    assert_eq!(BlockLayout::next_multiple_of(17, 8), 24);
    assert_eq!(BlockLayout::next_multiple_of(5, 1), 5);
}

#[test]
fn blocks_are_laid_out_as_a_header_and_its_slots() {
    let layout = BlockLayout::new(24, 8, 16, 8, 4);
    assert_eq!(layout.slots_offset, 24);
    assert_eq!(layout.size, 88);
    assert_eq!(layout.align, 8);

    let layout = BlockLayout::new(24, 8, 64, 32, 2);
    assert_eq!(layout.slots_offset, 32);
    assert_eq!(layout.size, 160);
    assert_eq!(layout.align, 32);

    let layout = BlockLayout::new(17, 16, 4, 4, 3);
    assert_eq!(layout.slots_offset, 20);
    assert_eq!(layout.size, 32);
    assert_eq!(layout.align, 16);
}
