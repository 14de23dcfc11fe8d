use read_write_store::util::lcg;
use read_write_store::util::sync::park::ParkChoice;
use read_write_store::Timeout::{BlockIndefinitely, BlockUntil, DontBlock};
use read_write_store::{BlockResult, Id, Instant, RwStore, RwStoreId, TimedOut};

struct Fixture {
    store: RwStore<u32>,
    thread_state: u32,
}

impl Fixture {
    fn new() -> Self {
        Self { store: RwStore::new(RwStoreId::generate(&mut 0)), thread_state: 0 }
    }

    fn insert(&mut self, element: u32) -> Id {
        self.store.insert(element, &mut self.thread_state)
    }
}

#[test]
fn insert_creates_disparate_ids() {
    let mut store = Fixture::new();
    let id_a = store.insert(42);
    let id_b = store.insert(42);

    assert_ne!(
        (id_a.ordinal(), id_a.bucket_id()),
        (id_b.ordinal(), id_b.bucket_id())
    );
    assert_ne!(id_a.slot(), id_b.slot());
}

#[test]
fn insert_reuses_space_after_removal() {
    let mut store = Fixture::new();

    let id_a = store.insert(42);
    store.store.remove(id_a).unwrap();

    let id_b = store.insert(42);

    assert_eq!(id_a.slot(), id_b.slot());
}

#[test]
fn insert_reuses_space_after_locked_removal() {
    let mut store = Fixture::new();

    let id_a = store.insert(42);
    let lock = store.store.write(id_a).unwrap();
    store.store.remove_locked(lock);

    let id_b = store.insert(42);

    assert_eq!(id_a.slot(), id_b.slot());
}

#[test]
fn insert_doesnt_reuse_id_ordinals() {
    let mut store = Fixture::new();

    let id_a = store.insert(42);
    store.store.remove(id_a).unwrap();

    let id_b = store.insert(42);

    assert_ne!(id_a.ordinal(), id_b.ordinal());
}

#[test]
fn remove_returns_the_element() {
    gen_remove_returns_the_element(|store, id| store.remove(id));
}

#[test]
fn remove_returns_none_after_removal() {
    gen_remove_returns_none_after_removal(|store, id| store.remove(id));
}

#[test]
fn remove_with_timeout_returns_the_element() {
    gen_remove_returns_the_element(|store, id| store.remove_with_timeout(id, DontBlock).unwrap());
}

#[test]
fn remove_with_timeout_returns_none_after_removal() {
    gen_remove_returns_none_after_removal(|store, id| {
        store.remove_with_timeout(id, DontBlock).unwrap()
    });
}

#[test]
fn remove_with_timeout_fails_when_read_locked() {
    let mut store = Fixture::new();
    let id = store.insert(42);

    let _lock = store.store.read(id).unwrap();

    assert!(store.store.remove_with_timeout(id, DontBlock).is_err());
}

#[test]
fn remove_with_timeout_fails_when_write_locked() {
    let mut store = Fixture::new();
    let id = store.insert(42);

    let _lock = store.store.write(id).unwrap();

    assert!(store.store.remove_with_timeout(id, DontBlock).is_err());
}

fn gen_remove_returns_the_element(remover: impl Fn(&mut RwStore<u32>, Id) -> Option<u32>) {
    let mut store = Fixture::new();
    let id = store.insert(42);

    assert_eq!(remover(&mut store.store, id), Some(42));
}

fn gen_remove_returns_none_after_removal(remover: impl Fn(&mut RwStore<u32>, Id) -> Option<u32>) {
    let mut store = Fixture::new();
    let id = store.insert(42);
    store.store.remove(id);

    assert_eq!(remover(&mut store.store, id), None);
}

#[test]
fn remove_locked_returns_the_element() {
    let mut store = Fixture::new();
    let id = store.insert(42);

    let lock = store.store.write(id).unwrap();

    assert_eq!(store.store.remove_locked(lock), 42);
}

#[test]
fn remove_locked_removes_the_element() {
    let mut store = Fixture::new();
    let id = store.insert(42);

    let lock = store.store.write(id).unwrap();
    store.store.remove_locked(lock);

    assert!(store.store.read(id).is_none());
}

#[test]
fn read_references_the_element() {
    access_references_the_element::<ReadOperation>();
}

#[test]
fn write_references_the_element() {
    access_references_the_element::<WriteOperation>();
}

#[test]
fn read_with_timeout_references_the_element() {
    access_references_the_element::<ReadWithTimeoutOperation>();
}

#[test]
fn write_with_timeout_references_the_element() {
    access_references_the_element::<WriteWithTimeoutOperation>();
}

fn access_references_the_element<A: AccessOperation>() {
    let mut store = Fixture::new();
    let id = store.insert(42);

    let element = A::access(&mut store.store, id).unwrap().unwrap();

    assert_eq!(element, 42);
}

#[test]
fn read_fails_returns_none_removal() {
    access_returns_none_after_removal::<ReadOperation>();
}

#[test]
fn write_fails_returns_none_removal() {
    access_returns_none_after_removal::<WriteOperation>();
}

#[test]
fn read_with_timeout_returns_none_after_removal() {
    access_returns_none_after_removal::<ReadWithTimeoutOperation>();
}

#[test]
fn write_with_timeout_returns_none_after_removal() {
    access_returns_none_after_removal::<WriteWithTimeoutOperation>();
}

fn access_returns_none_after_removal<A: AccessOperation>() {
    let mut store = Fixture::new();
    let id = store.insert(42);

    store.store.remove(id).unwrap();

    assert!(A::access(&mut store.store, id).unwrap().is_none());
}

#[test]
fn write_with_timeout_fails_when_write_locked() {
    access_fails_when_locked::<WriteOperation, WriteWithTimeoutOperation>();
}

#[test]
fn write_with_timeout_fails_when_read_locked() {
    access_fails_when_locked::<ReadOperation, WriteWithTimeoutOperation>();
}

#[test]
fn read_with_timeout_fails_when_write_locked() {
    access_fails_when_locked::<WriteOperation, ReadWithTimeoutOperation>();
}

fn access_fails_when_locked<Lock: AccessOperation, A: AccessOperation>() {
    let mut store = Fixture::new();
    let id = store.insert(42);

    let _element = Lock::access(&mut store.store, id);

    assert!(A::access(&mut store.store, id).is_err());
}

#[test]
fn read_succeeds_when_read_locked() {
    access_succeeds_when_locked::<ReadOperation, ReadOperation>();
}

#[test]
fn read_with_timeout_succeeds_when_read_locked() {
    access_succeeds_when_locked::<ReadWithTimeoutOperation, ReadOperation>();
}

fn access_succeeds_when_locked<Lock: AccessOperation, A: AccessOperation>() {
    let mut store = Fixture::new();
    let id = store.insert(42);

    let _element = Lock::access(&mut store.store, id);

    assert!(A::access(&mut store.store, id).is_ok());
}

#[test]
fn get_mut_references_the_element() {
    let mut store = Fixture::new();
    let id = store.insert(42);

    assert_eq!(store.store.get_mut(id), Some(&mut 42));
}

#[test]
fn get_mut_returns_none_after_removal() {
    let mut store = Fixture::new();
    let id = store.insert(42);

    store.store.remove(id).unwrap();

    assert_eq!(store.store.get_mut(id), None);
}

#[test]
fn get_mut_unchecked_references_the_element() {
    let mut store = Fixture::new();
    let id = store.insert(42);

    assert_eq!(store.store.get_mut_unchecked(id), &mut 42);
}

#[test]
fn capacity_returns_zeroes_initially() {
    let store = Fixture::new();
    assert_eq!(store.store.capacity(), (0, 0));
}

#[test]
fn capacity_increases_on_first_insertion() {
    let mut store = Fixture::new();
    store.insert(42);
    assert_eq!(store.store.capacity().0, 1);
    assert!(store.store.capacity().1 >= 1);
}

#[test]
fn capacity_increases_on_second_insertion() {
    let mut store = Fixture::new();
    store.insert(42);
    store.insert(42);
    assert_eq!(store.store.capacity().0, 2);
    assert!(store.store.capacity().1 >= 2);
}

#[test]
fn capacity_doesnt_decrease_after_removal() {
    let mut store = Fixture::new();
    let id = store.insert(42);
    store.store.remove(id).unwrap();
    assert_eq!(store.store.capacity().0, 1);
    assert!(store.store.capacity().1 >= 1);
}

#[test]
fn capacity_doesnt_increase_on_insertion_after_removal() {
    let mut store = Fixture::new();
    let id = store.insert(42);
    store.store.remove(id).unwrap();
    store.insert(42);
    assert_eq!(store.store.capacity().0, 1);
    assert!(store.store.capacity().1 >= 1);
}

#[test]
fn capacity_doesnt_increase_on_insertion_after_locked_removal() {
    let mut store = Fixture::new();
    let id = store.insert(42);
    let lock = store.store.write(id).unwrap();
    store.store.remove_locked(lock);
    store.insert(42);
    assert_eq!(store.store.capacity().0, 1);
    assert!(store.store.capacity().1 >= 1);
}

#[test]
fn lib_implements_sync() {
    let store = Fixture::new();
    let _ = &store.store as &dyn Sync;
}

#[test]
fn lib_implements_send() {
    let store = Fixture::new();
    let _ = &store.store as &dyn Send;
}

/// Acquires a lock, which is not released, and reads the element through it.
trait AccessOperation {
    fn access(store: &mut RwStore<u32>, id: Id) -> BlockResult<Option<u32>>;
}

struct ReadOperation;

impl AccessOperation for ReadOperation {
    fn access(store: &mut RwStore<u32>, id: Id) -> BlockResult<Option<u32>> {
        let lock = store.read(id);
        Ok(lock.map(|lock| *lock.deref(store)))
    }
}

struct WriteOperation;

impl AccessOperation for WriteOperation {
    fn access(store: &mut RwStore<u32>, id: Id) -> BlockResult<Option<u32>> {
        let lock = store.write(id);
        Ok(lock.map(|lock| *lock.deref(store)))
    }
}

struct ReadWithTimeoutOperation;

impl AccessOperation for ReadWithTimeoutOperation {
    fn access(store: &mut RwStore<u32>, id: Id) -> BlockResult<Option<u32>> {
        let result = store.read_with_timeout(id, DontBlock);
        result.map(|lock| lock.map(|lock| *lock.deref(store)))
    }
}

struct WriteWithTimeoutOperation;

impl AccessOperation for WriteWithTimeoutOperation {
    fn access(store: &mut RwStore<u32>, id: Id) -> BlockResult<Option<u32>> {
        let result = store.write_with_timeout(id, DontBlock);
        result.map(|lock| lock.map(|lock| *lock.deref(store)))
    }
}

#[test]
fn an_element_is_locked_changed_and_removed() {
    let mut store = Fixture::new();
    let id = store.insert(42);

    let read_lock = store.store.read(id).unwrap();
    assert_eq!(*read_lock.deref(&store.store), 42);
    let second_lock = store.store.read_with_timeout(id, DontBlock).unwrap().unwrap();
    assert!(store.store.write_with_timeout(id, DontBlock).is_err());
    store.store.unlock_read(read_lock);
    store.store.unlock_read(second_lock);

    let mut write_lock = store.store.write(id).unwrap();
    *write_lock.deref_mut(&mut store.store) = 24;
    assert_eq!(*write_lock.deref(&store.store), 24);
    assert!(store.store.write_with_timeout(id, DontBlock).is_err());
    store.store.unlock_write(write_lock);

    assert_eq!(store.store.remove(id), Some(24));
    assert!(store.store.read(id).is_none());
}

#[test]
fn a_writer_is_parked_until_the_reader_is_done() {
    let mut store = Fixture::new();
    let id = store.insert(42);

    let lock = store.store.read(id).unwrap();
    assert!(store.store.poll_write(id, BlockIndefinitely).must_sleep());
    assert!(store.store.unlock_read(lock));
    match store.store.poll_write(id, BlockIndefinitely) {
        ParkChoice::DontPark(Ok(Some(lock))) => assert!(!store.store.unlock_write(lock)),
        _ => panic!("the write lock is free"),
    }
}

#[test]
fn a_writer_is_parked_until_the_writer_is_done() {
    let mut store = Fixture::new();
    let id = store.insert(42);

    let lock = store.store.write(id).unwrap();
    assert!(store.store.poll_write(id, BlockIndefinitely).must_sleep());
    assert!(store.store.unlock_write(lock));
    assert!(!store.store.poll_write(id, BlockIndefinitely).must_sleep());
}

#[test]
fn a_reader_is_parked_until_the_writer_is_done() {
    let mut store = Fixture::new();
    let id = store.insert(42);

    let lock = store.store.write(id).unwrap();
    assert!(store.store.poll_read(id, BlockIndefinitely).must_sleep());
    assert!(store.store.unlock_write(lock));
    match store.store.poll_read(id, BlockIndefinitely) {
        ParkChoice::DontPark(Ok(Some(lock))) => assert!(!store.store.unlock_read(lock)),
        _ => panic!("the write lock was released"),
    }
}

#[test]
fn a_remover_is_parked_until_the_locks_are_released() {
    let mut store = Fixture::new();
    let id = store.insert(42);

    let first = store.store.read(id).unwrap();
    let second = store.store.read(id).unwrap();
    assert_eq!(store.store.poll_remove(id, BlockIndefinitely), ParkChoice::Park);
    assert!(!store.store.unlock_read(first));
    assert!(store.store.unlock_read(second));
    assert_eq!(
        store.store.poll_remove(id, BlockIndefinitely),
        ParkChoice::DontPark(Ok(Some(42)))
    );
    assert_eq!(store.store.poll_remove(id, BlockIndefinitely), ParkChoice::DontPark(Ok(None)));
}

#[test]
fn locked_removal_unparks_those_who_wait() {
    let mut store = Fixture::new();
    let id = store.insert(42);

    let lock = store.store.write(id).unwrap();
    assert!(store.store.poll_read(id, BlockIndefinitely).must_sleep());
    assert_eq!(store.store.remove_locked_and_unpark(lock), (42, true));
    assert!(matches!(
        store.store.poll_read(id, BlockIndefinitely),
        ParkChoice::DontPark(Ok(None))
    ));

    let id = store.insert(43);
    let lock = store.store.write(id).unwrap();
    assert_eq!(store.store.remove_locked_and_unpark(lock), (43, false));
}

#[test]
fn waiting_for_oneself_times_out() {
    let mut store = Fixture::new();
    let id = store.insert(42);
    let timeout = BlockUntil(Instant { nanos: 100 });

    let lock = store.store.write(id).unwrap();
    assert!(store.store.read_with_timeout(id, timeout).is_err());
    assert!(store.store.write_with_timeout(id, timeout).is_err());
    assert_eq!(store.store.remove_with_timeout(id, timeout), Err(TimedOut));
    assert!(store.store.unlock_write(lock));
    assert_eq!(store.store.remove_with_timeout(id, timeout), Ok(Some(42)));
}

#[test]
fn unlocking_leaves_the_element_unlocked() {
    let mut store = Fixture::new();
    let id = store.insert(42);
    for _ in 0..3 {
        let lock = store.store.read(id).unwrap();
        assert!(!store.store.unlock_read(lock));
        let lock = store.store.write(id).unwrap();
        assert!(!store.store.unlock_write(lock));
    }
    assert!(!store.store.has_too_many_readers(id));
    assert_eq!(store.store.remove_with_timeout(id, DontBlock), Ok(Some(42)));
}

#[test]
fn writes_change_one_element_only() {
    let mut store = Fixture::new();
    let ids: Vec<Id> = (0..40).map(|i| store.insert(i)).collect();
    *store.store.get_mut(ids[7]).unwrap() = 100;
    *store.store.get_mut_unchecked(ids[8]) = 200;
    for (i, id) in ids.iter().enumerate() {
        let expected = match i {
            7 => 100,
            8 => 200,
            _ => i as u32,
        };
        assert_eq!(*store.store.get_unchecked(*id), expected);
    }
}

#[test]
fn removed_ids_stay_removed() {
    let mut store = Fixture::new();
    let mut dead = Vec::new();
    for round in 0..20 {
        let id = store.insert(round);
        assert_eq!(store.store.remove(id), Some(round));
        dead.push(id);
        for id in &dead {
            assert!(store.store.get_mut(*id).is_none());
            assert!(store.store.read(*id).is_none());
            assert_eq!(store.store.remove(*id), None);
        }
    }
    assert_eq!(store.store.capacity(), (1, 1));
}

#[test]
fn space_is_reused_in_the_order_of_removal() {
    let mut store = Fixture::new();
    let ids: Vec<Id> = (0..10).map(|i| store.insert(i)).collect();
    for i in [3, 7, 1] {
        store.store.remove(ids[i]).unwrap();
    }
    for i in [3, 7, 1] {
        let id = store.insert(50);
        assert_eq!(id.slot(), ids[i].slot());
        assert_ne!(id.ordinal(), ids[i].ordinal());
    }
    let next = store.insert(50);
    assert!(ids.iter().all(|id| id.slot() != next.slot()));
}

#[test]
fn touched_capacity_is_the_largest_number_of_elements() {
    let mut store = Fixture::new();
    let mut ids = Vec::new();
    let mut largest = 0;
    for round in 0..10u32 {
        for i in 0..(round * 3 % 7) {
            ids.push(store.insert(i));
        }
        largest = largest.max(ids.len() as u32);
        for _ in 0..(round * 5 % 4) {
            if let Some(id) = ids.pop() {
                store.store.remove(id).unwrap();
            }
        }
        let (touched, allocated) = store.store.capacity();
        assert_eq!(touched, largest);
        assert!(touched <= allocated && allocated <= 2 * touched);
    }
}

#[test]
fn blocks_double_in_size() {
    let mut store = Fixture::new();
    let mut allocated = Vec::new();
    for i in 0..(16 * 4) {
        store.insert(i);
        allocated.push(store.store.capacity().1);
    }
    // The first 16 elements go to different buckets, and so do the next 16
    assert_eq!(allocated[0], 1);
    assert_eq!(allocated[15], 16);
    assert_eq!(allocated[16], 18);
    assert_eq!(allocated[31], 48);
    assert_eq!(allocated[47], 48);
    assert_eq!(allocated[48], 52);
    assert_eq!(store.store.bucket_capacity(9), (4, 7));
}

#[test]
fn insertions_are_spread_over_the_buckets() {
    let mut store = Fixture::new();
    let buckets: Vec<u32> = (0..17).map(|i| store.insert(i).bucket_id()).collect();
    assert_eq!(buckets, vec![9, 14, 15, 12, 5, 10, 11, 8, 1, 6, 7, 4, 13, 2, 3, 0, 9]);

    let mut state = 0;
    lcg::advance(&mut state);
    assert_eq!(state, 12345);
    lcg::advance(&mut state);
    assert_eq!(state, 3554416254);
    assert_eq!(RwStore::<u32>::arbitrary_bucket_id(&mut state), 15);
    assert_eq!(state, 2802067423);
}

#[test]
fn one_of_many_removals_gets_the_element() {
    let mut store = Fixture::new();
    let id = store.insert(42);
    let results: Vec<Option<u32>> = (0..5).map(|_| store.store.remove(id)).collect();
    assert_eq!(results, vec![Some(42), None, None, None, None]);
}

#[test]
fn the_store_can_be_used_after_iteration() {
    let mut store = Fixture::new();
    let id = store.insert(42);
    {
        let mut iter = store.store.iter_mut();
        *iter.next().unwrap().1 += 1;
        assert!(iter.next().is_none());
        assert_eq!(iter.size_hint(), (0, Some(0)));
    }
    assert_eq!(store.store.get_mut(id), Some(&mut 43));
}

#[test]
fn ordinals_count_the_insertions_into_a_bucket() {
    let mut store = Fixture::new();
    let first = store.insert(1);
    assert_eq!(first.ordinal(), 0);
    store.store.remove(first);
    let second = store.insert(2);
    assert_eq!(second.ordinal(), 1);
    let other = store.insert(3);
    assert_ne!(other.bucket_id(), second.bucket_id());
    assert_eq!(other.ordinal(), 0);
}

#[test]
fn ids_are_native_to_the_store_that_created_them() {
    let mut next = 0;
    let mut a = RwStore::<u32>::new(RwStoreId::generate(&mut next));
    let mut b = RwStore::<u32>::new(RwStoreId::generate(&mut next));
    let mut state = 0;
    let id_a = a.insert(1, &mut state);
    let id_b = b.insert(1, &mut state);
    assert!(a.is_native_id(id_a) && b.is_native_id(id_b));
    assert!(!a.is_native_id(id_b) && !b.is_native_id(id_a));
    assert_eq!(next, 2);
    assert_ne!(a.id(), b.id());
    assert!(a.may_insert());
}

#[test]
fn only_issued_ids_may_be_used() {
    let mut store = Fixture::new();
    let id = store.insert(1);
    assert!(store.store.has_issued(id));
    let (position, store_id) = (id.slot().position, id.store_id());

    let never_generated = Id::new(id.ordinal() + 1, id.bucket_id(), position, store_id);
    let never_touched = Id::new(id.ordinal(), id.bucket_id(), position + 1, store_id);
    let no_bucket = Id::new(id.ordinal(), 16, position, store_id);
    let empty_bucket = Id::new(id.ordinal(), (id.bucket_id() + 1) % 16, position, store_id);
    let foreign = Id::new(id.ordinal(), id.bucket_id(), position, RwStoreId::generate(&mut 1));
    for other in [never_generated, never_touched, no_bucket, empty_bucket, foreign] {
        assert!(!store.store.has_issued(other));
    }

    store.store.remove(id);
    assert!(store.store.has_issued(id));
    assert!(!store.store.has_issued(never_generated));
    assert_eq!(store.insert(2).ordinal(), never_generated.ordinal());
    assert!(store.store.has_issued(never_generated));
}

#[test]
fn every_id_of_a_full_bucket_is_issued() {
    let mut store = Fixture::new();
    let ids: Vec<Id> = (0..200).map(|i| store.insert(i)).collect();
    assert!(ids.iter().all(|id| store.store.has_issued(*id)));
}

#[test]
fn capacities_of_small_stores_are_known() {
    let mut store = Fixture::new();
    assert!(store.store.sizes_are_known() && store.store.capacity_is_known());
    for i in 0..100 {
        store.insert(i);
    }
    assert!(store.store.sizes_are_known() && store.store.capacity_is_known());
}

#[test]
fn locked_elements_are_found() {
    let mut store = Fixture::new();
    assert!(!store.store.is_anything_locked());
    let ids: Vec<Id> = (0..50).map(|i| store.insert(i)).collect();
    assert!(!store.store.is_anything_locked());
    for id in ids {
        let lock = store.store.read(id).unwrap();
        assert!(store.store.is_anything_locked());
        store.store.unlock_read(lock);
        let lock = store.store.write(id).unwrap();
        assert!(store.store.is_anything_locked());
        store.store.unlock_write(lock);
        assert!(!store.store.is_anything_locked());
    }
}
