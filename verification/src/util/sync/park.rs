//! The decisions around putting a thread to sleep and waking it.
//!
//! Sleeping itself is left to the caller: the library says whether a thread has to sleep, is told
//! how the sleep ended, and says what follows from that.

use vstd::prelude::*;

verus! {

/// What an operation decided while no thread could be unparked: to put the calling thread to
/// sleep, or to return a result right away.
#[derive(Debug, Eq, PartialEq)]
pub enum ParkChoice<T> {
    Park,
    DontPark(T),
}

/// How an operation that may have parked the calling thread ended.
#[derive(Debug, Eq, PartialEq)]
pub enum ParkResult<T> {
    Waited,
    TimedOut,
    DidntPark(T),
}

/// How the sleep of a parked thread ended.
#[derive(Debug, Copy, Clone, Eq, PartialEq, Hash, Structural)]
pub enum Wakeup {
    /// Another thread unparked this one.
    Unparked,
    /// The deadline of this thread passed.
    DeadlinePassed,
}

impl<T> ParkChoice<T> {
    /// Whether the calling thread has to be put to sleep.
    pub fn must_sleep(&self) -> (sleep: bool)
        ensures
            sleep == (self is Park),
    {
        match self {
            ParkChoice::Park => true,
            ParkChoice::DontPark(_) => false,
        }
    }

    pub open spec fn spec_park(self, wakeup: Option<Wakeup>) -> ParkResult<T> {
        match self {
            ParkChoice::Park => if wakeup == Some(Wakeup::DeadlinePassed) {
                ParkResult::TimedOut
            } else {
                ParkResult::Waited
            },
            ParkChoice::DontPark(value) => ParkResult::DidntPark(value),
        }
    }
}

/// A value on which threads may park.
pub struct Park<Inner> {
    pub inner: Inner,
}

impl<Inner> Park<Inner> {
    pub fn new(value: Inner) -> (this: Self)
        ensures
            this.inner == value,
    {
        Self { inner: value }
    }

    /// Concludes a choice: a thread that decided not to park has its result, and one that was put
    /// to sleep has either waited or timed out.
    pub fn park<T>(choice: ParkChoice<T>, wakeup: Option<Wakeup>) -> (result: ParkResult<T>)
        requires
            choice is Park <==> wakeup is Some,
        ensures
            result == choice.spec_park(wakeup),
            choice matches ParkChoice::DontPark(value) ==> result == ParkResult::DidntPark(value),
            choice is Park && wakeup == Some(Wakeup::Unparked) ==> result is Waited,
            choice is Park && wakeup == Some(Wakeup::DeadlinePassed) ==> result is TimedOut,
    {
        match choice {
            ParkChoice::Park => match wakeup {
                Some(Wakeup::DeadlinePassed) => ParkResult::TimedOut,
                _ => ParkResult::Waited,
            },
            ParkChoice::DontPark(value) => ParkResult::DidntPark(value),
        }
    }
}

} // verus!
