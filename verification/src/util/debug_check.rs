//! Storage that may or may not hold a value.

use std::mem::ManuallyDrop;

use vstd::prelude::*;

verus! {

/// `ManuallyDrop::deref_mut`: gives access to the value itself, so that what is in the place
/// afterwards is what was last written to that value.
#[verifier::external_body]
fn manually_drop_mut<T>(place: &mut ManuallyDrop<T>) -> (value: &mut T)
    ensures
        *value == old(place)@,
        final(place)@ == *final(value),
    opens_invariants none
    no_unwind
{
    std::ops::DerefMut::deref_mut(place)
}

/// A place for a value, which may be uninitialized. Whether it is has to be known from elsewhere.
/// Dropping the place does not drop the value.
pub struct DebugCheckedMaybeUninit<T> {
    inner: ManuallyDrop<Option<T>>,
}

impl<T> View for DebugCheckedMaybeUninit<T> {
    type V = Option<T>;

    closed spec fn view(&self) -> Option<T> {
        self.inner@
    }
}

impl<T> DebugCheckedMaybeUninit<T> {
    pub fn uninit() -> (this: Self)
        ensures
            this@ is None,
    {
        Self { inner: ManuallyDrop::new(None) }
    }

    pub fn new(value: T) -> (this: Self)
        ensures
            this@ == Some(value),
    {
        Self { inner: ManuallyDrop::new(Some(value)) }
    }

    /// Moves the contents out, which leaves the place uninitialized.
    pub fn read(&mut self) -> (contents: Self)
        ensures
            contents@ == old(self)@,
            final(self)@ is None,
    {
        Self { inner: ManuallyDrop::new(manually_drop_mut(&mut self.inner).take()) }
    }

    pub fn assume_init(self) -> (value: T)
        requires
            self@ is Some,
        ensures
            self@ == Some(value),
    {
        ManuallyDrop::into_inner(self.inner).unwrap()
    }

    /// Drops the contents, which leaves the place uninitialized.
    pub fn drop_in_place(&mut self)
        ensures
            final(self)@ is None,
        opens_invariants none
        no_unwind
    {
        *manually_drop_mut(&mut self.inner) = None;
    }

    pub fn contents(&self) -> (value: &T)
        requires
            self@ is Some,
        ensures
            self@ == Some(*value),
    {
        match &*self.inner {
            Some(value) => value,
            None => vstd::pervasive::unreached(),
        }
    }

    pub fn contents_ptr(&mut self) -> (value: &mut T)
        requires
            old(self)@ is Some,
        ensures
            old(self)@ == Some(*value),
            final(self)@ == Some(*final(value)),
    {
        match manually_drop_mut(&mut self.inner) {
            Some(value) => value,
            None => vstd::pervasive::unreached(),
        }
    }
}

} // verus!
