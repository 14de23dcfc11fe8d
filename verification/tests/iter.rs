use read_write_store::bucket;
use read_write_store::bucket::BucketInner;
use read_write_store::iter::GenIter;
use read_write_store::{Id, RwStore, RwStoreId};

struct Fixture {
    store: RwStore<u32>,
    thread_state: u32,
}

impl Fixture {
    fn new() -> Self {
        Self { store: RwStore::new(RwStoreId::generate(&mut 0)), thread_state: 0 }
    }

    fn insert(&mut self, element: u32) -> Id {
        self.store.insert(element, &mut self.thread_state)
    }
}

fn count_owned(store: RwStore<u32>) -> usize {
    let mut iter = store.into_iter();
    let mut count = 0;
    while iter.next().is_some() {
        count += 1;
    }
    count
}

fn count_borrowed(mut store: RwStore<u32>) -> usize {
    let mut iter = store.iter_mut();
    let mut count = 0;
    while iter.next().is_some() {
        count += 1;
    }
    count
}

fn sum_owned(store: RwStore<u32>) -> u32 {
    let mut iter = store.into_iter();
    let mut sum = 0;
    while let Some((_, value)) = iter.next() {
        sum += value;
    }
    sum
}

fn sum_borrowed(mut store: RwStore<u32>) -> u32 {
    let mut iter = store.iter_mut();
    let mut sum = 0;
    while let Some((_, value)) = iter.next() {
        sum += *value;
    }
    sum
}

#[test]
fn into_iter_has_correct_size() {
    iter_has_correct_size(count_owned);
}

#[test]
fn iter_mut_has_correct_size() {
    iter_has_correct_size(count_borrowed);
}

fn iter_has_correct_size(count: impl Fn(RwStore<u32>) -> usize) {
    let mut store = Fixture::new();
    for i in 0..42 {
        store.insert(i);
    }
    assert_eq!(count(store.store), 42);

    let mut store = Fixture::new();
    store.insert(42);
    assert_eq!(count(store.store), 1);

    let store = Fixture::new();
    assert_eq!(count(store.store), 0);
}

#[test]
fn into_iter_has_correct_elements() {
    iter_has_correct_elements(sum_owned)
}

#[test]
fn iter_mut_has_correct_elements() {
    iter_has_correct_elements(sum_borrowed)
}

fn iter_has_correct_elements(sum: impl Fn(RwStore<u32>) -> u32) {
    let mut store = Fixture::new();
    store.insert(1);
    store.insert(2);
    store.insert(4);
    assert_eq!(sum(store.store), 7);

    let mut store = Fixture::new();
    for i in 1..=42 {
        store.insert(i);
    }
    assert_eq!(sum(store.store), 903);

    let store = Fixture::new();
    assert_eq!(sum(store.store), 0);
}

#[test]
fn into_iter_skips_removed_elements() {
    iter_skips_removed_elements(sum_owned)
}

#[test]
fn iter_mut_skips_removed_elements() {
    iter_skips_removed_elements(sum_borrowed)
}

fn iter_skips_removed_elements(sum: impl FnOnce(RwStore<u32>) -> u32) {
    let mut store = Fixture::new();

    store.insert(1);
    let id = store.insert(2);
    store.insert(4);

    store.store.remove(id).unwrap();

    assert_eq!(sum(store.store), 5);
}

#[test]
fn into_iter_implements_send() {
    let store = Fixture::new().store;
    let iter = store.into_iter();
    let _ = &iter as &dyn Send;
}

#[test]
fn iter_mut_implements_send() {
    let mut store = Fixture::new().store;
    let iter = store.iter_mut();
    let _ = &iter as &dyn Send;
}

#[test]
fn iteration_yields_each_element_under_its_id() {
    let mut store = Fixture::new();
    let ids: Vec<Id> = (0..100).map(|i| store.insert(i)).collect();
    for i in (0..100).step_by(3) {
        store.store.remove(ids[i]).unwrap();
    }
    let mut seen = vec![0; 100];
    let mut iter = store.store.into_iter();
    while let Some((id, value)) = iter.next() {
        seen[value as usize] += 1;
        assert_eq!(id.slot(), ids[value as usize].slot());
        assert_eq!(id.ordinal(), ids[value as usize].ordinal());
    }
    for (i, times) in seen.iter().enumerate() {
        assert_eq!(*times, if i % 3 == 0 { 0 } else { 1 });
    }
    assert!(iter.next().is_none());
}

#[test]
fn elements_can_be_changed_during_iteration() {
    let mut store = Fixture::new();
    let ids: Vec<Id> = (0..50).map(|i| store.insert(i)).collect();
    let mut iter = store.store.iter_mut();
    while let Some((_, value)) = iter.next() {
        *value += 1000;
    }
    for (i, id) in ids.iter().enumerate() {
        assert_eq!(*store.store.get_unchecked(*id), 1000 + i as u32);
    }
}

#[test]
fn locked_elements_are_visited_with_exclusive_access() {
    let mut store = Fixture::new();
    let id = store.insert(42);
    let _lock = store.store.write(id).unwrap();
    let mut iter = store.store.iter_mut();
    assert_eq!(iter.next().unwrap().1, &mut 42);
    assert!(iter.next().is_none());
}

#[test]
fn size_hints_are_the_numbers_of_slots_left() {
    let mut store = Fixture::new();
    let ids: Vec<Id> = (0..20).map(|i| store.insert(i)).collect();
    store.store.remove(ids[4]).unwrap();

    let mut iter = store.store.iter_mut();
    assert_eq!(iter.size_hint(), (0, Some(20)));
    iter.next();
    assert!(iter.size_hint().1.unwrap() < 20);
    while iter.next().is_some() {}
    assert_eq!(iter.size_hint(), (0, Some(0)));

    let mut iter = store.store.into_iter();
    assert_eq!(iter.size_hint(), (0, Some(20)));
    iter.next();
    assert!(iter.size_hint().1.unwrap() < 20);
    while iter.next().is_some() {}
    assert_eq!(iter.size_hint(), (0, Some(0)));
}

#[test]
fn size_hints_fall_by_the_number_of_slots_visited() {
    let mut store = Fixture::new();
    let ids: Vec<Id> = (0..48).map(|i| store.insert(i)).collect();
    // The bucket that is visited first loses all elements but the one in its oldest block
    let mut first: Vec<Id> = ids.into_iter().filter(|id| id.bucket_id() == 0).collect();
    assert_eq!(first.len(), 3);
    let oldest = first.remove(0);
    for id in first {
        store.store.remove(id).unwrap();
    }

    let mut iter = store.store.iter_mut();
    assert_eq!(iter.size_hint().1, Some(48));
    assert_eq!(iter.next().unwrap().0.slot(), oldest.slot());
    for left in (0..=45).rev() {
        assert_eq!(iter.size_hint().1, Some(left));
        iter.next();
    }

    let mut iter = store.store.into_iter();
    assert_eq!(iter.next().unwrap().0.slot(), oldest.slot());
    for left in (0..=45).rev() {
        assert_eq!(iter.size_hint().1, Some(left));
        iter.next();
    }
}

#[test]
fn addresses_are_visited_from_the_last_one_to_the_first_one() {
    let mut iter = GenIter::new(3, 4);
    assert_eq!(iter.len(), 6);
    let mut addresses = Vec::new();
    while let Some(address) = iter.next() {
        addresses.push(address);
    }
    assert_eq!(addresses, vec![5, 6, 3, 2, 1, 0]);
    assert_eq!(iter.next(), None);
    assert_eq!(iter.len(), 0);

    let mut iter = GenIter::new(9, 1);
    assert_eq!(iter.next(), Some(0));
    assert_eq!(iter.next(), None);

    let mut iter = GenIter::new(0, 0);
    assert_eq!(iter.next(), None);
}

#[test]
fn blocks_sum_up_to_the_total_size() {
    assert_eq!(bucket::head_size_to_total_size(0), 0);
    assert_eq!(bucket::head_size_to_total_size(1), 1);
    assert_eq!(bucket::head_size_to_total_size(2), 3);
    assert_eq!(bucket::head_size_to_total_size(8), 15);
    assert_eq!(bucket::head_size_to_total_size(0x4000_0000), 0x7fff_ffff);
}

#[test]
fn blocks_hand_out_their_slots_once() {
    let mut inner = BucketInner::<u32>::new(RwStoreId::generate(&mut 0));
    assert_eq!(inner.next_insert_location(), None);
    inner.expand();
    assert_eq!(inner.next_insert_location(), Some(0));
    assert_eq!(inner.next_insert_location(), None);
    inner.expand();
    inner.expand();
    assert_eq!(inner.next_insert_location(), Some(3));
    assert_eq!(inner.next_insert_location(), Some(6));
    assert_eq!(inner.next_insert_location(), Some(5));
    assert_eq!(inner.next_insert_location(), Some(4));
    assert_eq!(inner.next_insert_location(), None);
}
