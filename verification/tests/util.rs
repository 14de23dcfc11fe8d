use std::rc::Rc;

use read_write_store::store::MaximumInsertEnforcer;
use read_write_store::util::debug_check::DebugCheckedMaybeUninit;
use read_write_store::util::pow2;
use read_write_store::util::sync::concurrent_queue::ConcurrentQueue;
use read_write_store::util::text;

#[test]
fn what_was_pushed_first_is_popped_first() {
    let mut queue = ConcurrentQueue::new();
    assert_eq!(queue.pop(), None);
    for i in 0..100 {
        queue.push((i, 2 * i));
    }
    for i in 0..100 {
        assert_eq!(queue.pop(), Some((i, 2 * i)));
    }
    assert_eq!(queue.pop(), None);
}

#[test]
fn contents_are_moved_out_once() {
    let mut place = DebugCheckedMaybeUninit::<u32>::uninit();
    place = {
        let _ = place.read();
        DebugCheckedMaybeUninit::new(5)
    };
    assert_eq!(*place.contents(), 5);
    *place.contents_ptr() = 6;
    assert_eq!(place.read().assume_init(), 6);
}

#[test]
fn places_do_not_drop_their_contents() {
    let value = Rc::new(());
    let place = DebugCheckedMaybeUninit::new(value.clone());
    assert_eq!(Rc::strong_count(&value), 2);
    drop(place);
    assert_eq!(Rc::strong_count(&value), 2);

    let mut place = DebugCheckedMaybeUninit::new(value.clone());
    assert_eq!(Rc::strong_count(&value), 3);
    place.drop_in_place();
    assert_eq!(Rc::strong_count(&value), 2);
}

#[test]
fn numbers_are_written_in_any_base() {
    let mut text = String::from(">");
    text::append_number(&mut text, 0, 10);
    text::append_number(&mut text, 4294967295, 10);
    text::append_number(&mut text, 0xdeadbeef, 16);
    text::append_number(&mut text, 5, 2);
    assert_eq!(text, ">04294967295deadbeef101");
}

#[test]
fn scrambling_is_a_permutation() {
    for len in [1u32, 2, 4, 8, 64, 1024] {
        let mut seen = vec![false; len as usize];
        for slot in 0..len {
            let index = pow2::scramble_slot(slot, len);
            assert_eq!(index, slot * 3 % len);
            assert_eq!(pow2::unscramble_slot(index, len), slot);
            assert!(!seen[index as usize]);
            seen[index as usize] = true;
        }
    }
}

#[test]
fn inserts_are_counted() {
    let mut enforcer = MaximumInsertEnforcer::new();
    assert!(enforcer.may_insert());
    enforcer.assert_may_insert();
    assert!(enforcer.may_insert());
}
