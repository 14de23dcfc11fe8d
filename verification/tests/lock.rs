use read_write_store::lock::{ReadLock, WriteLock};
use read_write_store::{RwStore, RwStoreId};

fn store() -> RwStore<u32> {
    RwStore::new(RwStoreId::generate(&mut 0))
}

/// Implemented twice for types that can be sent to another thread, so that a use of it for such a
/// type is ambiguous and does not compile.
trait AmbiguousIfSend<Marker> {
    fn is_unambiguous() -> bool {
        true
    }
}

struct Sendable;

impl<T: ?Sized> AmbiguousIfSend<()> for T {}

impl<T: ?Sized + Send> AmbiguousIfSend<Sendable> for T {}

#[test]
fn read_lock_implements_sync() {
    let mut store = store();
    let id = store.insert(42, &mut 0);
    let lock = store.read(id).unwrap();
    let _ = &lock as &dyn Sync;
}

#[test]
fn write_lock_implements_sync() {
    let mut store = store();
    let id = store.insert(42, &mut 0);
    let lock = store.write(id).unwrap();
    let _ = &lock as &dyn Sync;
}

#[test]
fn read_lock_doesnt_implement_send() {
    assert!(<ReadLock<u32> as AmbiguousIfSend<_>>::is_unambiguous());
}

#[test]
fn write_lock_doesnt_implement_send() {
    assert!(<WriteLock<u32> as AmbiguousIfSend<_>>::is_unambiguous());
}

#[test]
fn locks_know_their_element() {
    let mut store = store();
    let id = store.insert(42, &mut 0);
    let lock = store.read(id).unwrap();
    assert_eq!(lock.id().slot(), id.slot());
    assert_eq!(lock.id().ordinal(), id.ordinal());
    store.unlock_read(lock);
    let lock = store.write(id).unwrap();
    assert_eq!(lock.id().slot(), id.slot());
    assert_eq!(lock.id().ordinal(), id.ordinal());
}
