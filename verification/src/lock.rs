//! Read and write locks for [RwStore](crate::RwStore).
//!
//! A lock is a token: it is handed out by the store when an element is locked, and handed back to
//! the store when it is unlocked. As it can be neither copied nor made by anyone else, no lock is
//! given up twice.

use std::marker::PhantomData;
use std::sync::MutexGuard;

use vstd::prelude::*;

use crate::id::Id;
use crate::store::RwStore;

verus! {

/// The guard of a mutex, of which only its type is used here: a value that holds one in name must
/// not be sent to another thread, but may be shared with one.
#[verifier::external_type_specification]
#[verifier::external_body]
#[verifier::reject_recursive_types(T)]
pub struct ExMutexGuard<'a, T: ?Sized + 'a>(MutexGuard<'a, T>);

/// A read lock for an element in an [RwStore](crate::RwStore).
///
/// The lock is released when this is handed to [unlock_read](crate::RwStore::unlock_read).
#[must_use]
pub struct ReadLock<Element> {
    id: Id,
    _marker: PhantomData<(Element, MutexGuard<'static, ()>)>,
}

impl<Element> ReadLock<Element> {
    /// The ID of the locked element.
    pub closed spec fn spec_id(self) -> Id {
        self.id
    }

    pub(crate) fn new(id: Id) -> (lock: Self)
        ensures
            lock.spec_id() == id,
    {
        Self { id, _marker: PhantomData }
    }

    /// The ID of the locked element.
    pub fn id(&self) -> (id: Id)
        ensures
            id == self.spec_id(),
    {
        self.id
    }

    /// The locked element.
    pub fn deref<'a>(&self, store: &'a RwStore<Element>) -> (element: &'a Element)
        requires
            store.wf(),
            store@.contains_key(self.spec_id()),
            store.locks()[self.spec_id()] is Read,
        ensures
            *element == store@[self.spec_id()],
    {
        store.get_unchecked(self.id)
    }
}

/// A write lock for an element in an [RwStore](crate::RwStore).
///
/// The lock is released when this is handed to [unlock_write](crate::RwStore::unlock_write).
#[must_use]
pub struct WriteLock<Element> {
    id: Id,
    _marker: PhantomData<(Element, MutexGuard<'static, ()>)>,
}

impl<Element> WriteLock<Element> {
    /// The ID of the locked element.
    pub closed spec fn spec_id(self) -> Id {
        self.id
    }

    pub(crate) fn new(id: Id) -> (lock: Self)
        ensures
            lock.spec_id() == id,
    {
        Self { id, _marker: PhantomData }
    }

    /// The ID of the locked element.
    pub fn id(&self) -> (id: Id)
        ensures
            id == self.spec_id(),
    {
        self.id
    }

    /// Gives the lock up without releasing it.
    pub(crate) fn forget(self) -> (id: Id)
        ensures
            id == self.spec_id(),
    {
        self.id
    }

    /// The locked element.
    pub fn deref<'a>(&self, store: &'a RwStore<Element>) -> (element: &'a Element)
        requires
            store.wf(),
            store@.contains_key(self.spec_id()),
            store.locks()[self.spec_id()] is Write,
        ensures
            *element == store@[self.spec_id()],
    {
        store.get_unchecked(self.id)
    }

    /// The locked element.
    pub fn deref_mut<'a>(&mut self, store: &'a mut RwStore<Element>) -> (element: &'a mut Element)
        requires
            old(store).wf(),
            old(store)@.contains_key(old(self).spec_id()),
            old(store).locks()[old(self).spec_id()] is Write,
        ensures
            *final(self) == *old(self),
            final(store).wf(),
            *element == old(store)@[old(self).spec_id()],
            old(store).updated(old(self).spec_id(), *final(element), *final(store)),
    {
        store.get_mut_unchecked(self.id)
    }
}

} // verus!
