use read_write_store::id_generator::IdGenerator;
use read_write_store::{Id, RwStore, RwStoreId};

fn store() -> RwStore<u32> {
    RwStore::new(RwStoreId::generate(&mut 0))
}

#[test]
fn id_implements_sync() {
    let mut store = store();
    let id = store.insert(0, &mut 0);
    let _ = &id as &dyn Sync;
}

#[test]
fn id_implements_send() {
    let mut store = store();
    let id = store.insert(0, &mut 0);
    let _ = &id as &dyn Send;
}

#[test]
fn ids_consist_of_their_parts() {
    let mut next = 6;
    let store_id = RwStoreId::generate(&mut next);
    let id = Id::new(1, 2, 3, store_id);
    assert_eq!(id.ordinal(), 1);
    assert_eq!(id.bucket_id(), 2);
    assert_eq!(id.slot().bucket_id, 2);
    assert_eq!(id.slot().position, 3);
    assert_eq!(id.store_id(), store_id);
}

#[test]
fn ids_show_their_ordinal_bucket_and_slot() {
    let store_id = RwStoreId::generate(&mut 6);
    assert_eq!(Id::new(1, 2, 31, store_id).debug_text(), "Id(1, 2, 0x1f)");
    assert_eq!(Id::new(120, 15, 0, store_id).debug_text(), "Id(120, 15, 0x0)");
}

#[test]
fn store_ids_differ() {
    let mut next = u64::MAX;
    let last = RwStoreId::generate(&mut next);
    let first = RwStoreId::generate(&mut next);
    assert_ne!(last, first);
    assert_eq!(next, 1);
}

#[test]
fn generated_ids_count_up_from_zero() {
    let mut generator = IdGenerator::new();
    assert_eq!(generator.next(), 0);
    assert_eq!(generator.next(), 1);
    assert_eq!(generator.next(), 2);
}
