//! Timeout specifiers and error types.
//!
//! See [Timeout].

use std::cmp::Ordering;

use vstd::prelude::*;

verus! {

/// A moment on a monotonic clock, in nanoseconds since the origin of that clock.
///
/// The library never reads a clock: whoever does so hands the reading in.
#[derive(Debug, Copy, Clone, Hash, Eq, PartialEq, Ord, PartialOrd, Structural)]
pub struct Instant {
    pub nanos: u128,
}

/// The number of nanoseconds in a millisecond.
pub const NANOS_PER_MILLI: u128 = 1_000_000;

/// A timeout (or lack thereof) describing how blocking operations should behave.
#[derive(Debug, Copy, Clone, Hash, Eq, PartialEq, Ord, Structural)]
pub enum Timeout {
    /// Disallows blocking for a contended resource.
    DontBlock,
    /// Allows blocking for a contended resource until the given time has passed.
    BlockUntil(Instant),
    /// Allows blocking for a contended resource indefinitely.
    BlockIndefinitely,
}

impl Timeout {
    /// Creates a new timeout that lasts for the provided number of nanoseconds, starting `now`.
    pub fn block_for(now: Instant, nanos: u128) -> (timeout: Timeout)
        requires
            now.nanos + nanos <= u128::MAX,
        ensures
            timeout matches Timeout::BlockUntil(deadline) && deadline.nanos == now.nanos + nanos,
    {
        Timeout::BlockUntil(Instant { nanos: now.nanos + nanos })
    }

    /// Creates a new timeout that lasts for the provided number of milliseconds, starting `now`.
    pub fn block_for_millis(now: Instant, millis: u64) -> (timeout: Timeout)
        requires
            now.nanos + millis * NANOS_PER_MILLI <= u128::MAX,
        ensures
            timeout matches Timeout::BlockUntil(deadline) && deadline.nanos == now.nanos + millis
                * 1_000_000,
    {
        Timeout::block_for(now, millis as u128 * NANOS_PER_MILLI)
    }

    /// The moment at which a blocked thread has to give up, if there is one. A timeout that
    /// disallows blocking has none either, as no thread ever blocks under it.
    pub fn deadline(self) -> (deadline: Option<Instant>)
        ensures
            deadline == self.spec_deadline(),
            self matches Timeout::BlockUntil(instant) ==> deadline == Some(instant),
            deadline is None <==> self == Timeout::DontBlock || self == Timeout::BlockIndefinitely,
    {
        match self {
            Timeout::DontBlock => None,
            Timeout::BlockUntil(deadline) => Some(deadline),
            Timeout::BlockIndefinitely => None,
        }
    }

    pub open spec fn spec_deadline(self) -> Option<Instant> {
        match self {
            Timeout::BlockUntil(deadline) => Some(deadline),
            _ => None,
        }
    }

    /// Whether `self` gives up strictly before `other` does: not blocking comes first, then
    /// blocking until some moment, the earlier the sooner, and blocking indefinitely comes last.
    pub open spec fn gives_up_before(self, other: Timeout) -> bool {
        match (self, other) {
            (Timeout::DontBlock, Timeout::DontBlock) => false,
            (Timeout::DontBlock, _) => true,
            (Timeout::BlockUntil(a), Timeout::BlockUntil(b)) => a.nanos < b.nanos,
            (Timeout::BlockUntil(_), Timeout::BlockIndefinitely) => true,
            _ => false,
        }
    }
}

impl PartialOrd for Timeout {
    fn partial_cmp(&self, other: &Timeout) -> (ordering: Option<Ordering>) {
        match (*self, *other) {
            (Timeout::DontBlock, Timeout::DontBlock) => Some(Ordering::Equal),
            (Timeout::DontBlock, _) => Some(Ordering::Less),
            (Timeout::BlockUntil(_), Timeout::DontBlock) => Some(Ordering::Greater),
            (Timeout::BlockUntil(a), Timeout::BlockUntil(b)) => {
                if a.nanos < b.nanos {
                    Some(Ordering::Less)
                } else if a.nanos == b.nanos {
                    Some(Ordering::Equal)
                } else {
                    Some(Ordering::Greater)
                }
            },
            (Timeout::BlockUntil(_), Timeout::BlockIndefinitely) => Some(Ordering::Less),
            (Timeout::BlockIndefinitely, Timeout::BlockIndefinitely) => Some(Ordering::Equal),
            (Timeout::BlockIndefinitely, _) => Some(Ordering::Greater),
        }
    }
}

impl vstd::std_specs::cmp::PartialOrdSpecImpl for Timeout {
    open spec fn obeys_partial_cmp_spec() -> bool {
        true
    }

    open spec fn partial_cmp_spec(&self, other: &Timeout) -> Option<Ordering> {
        if self.gives_up_before(*other) {
            Some(Ordering::Less)
        } else if other.gives_up_before(*self) {
            Some(Ordering::Greater)
        } else {
            Some(Ordering::Equal)
        }
    }
}

/// Timeouts are totally ordered by how soon they give up: no timeout gives up before itself, the
/// order is transitive, and of two different timeouts one gives up before the other.
pub proof fn law_timeouts_are_totally_ordered(a: Timeout, b: Timeout, c: Timeout)
    ensures
        !a.gives_up_before(a),
        a.gives_up_before(b) && b.gives_up_before(c) ==> a.gives_up_before(c),
        a == b || a.gives_up_before(b) || b.gives_up_before(a),
        !(a.gives_up_before(b) && b.gives_up_before(a)),
{
    assert(a == b || a.gives_up_before(b) || b.gives_up_before(a)) by {
        if let (Timeout::BlockUntil(x), Timeout::BlockUntil(y)) = (a, b) {
            assert(x.nanos == y.nanos ==> x == y);
        }
    }
}

/// A timeout that blocks for some time gives up after one that blocks until now, and before one
/// that blocks indefinitely.
pub proof fn law_block_for_lies_between(now: Instant, nanos: u128)
    requires
        0 < nanos,
        now.nanos + nanos <= u128::MAX,
    ensures
        ({
            let timeout = Timeout::BlockUntil(Instant { nanos: (now.nanos + nanos) as u128 });
            &&& Timeout::DontBlock.gives_up_before(timeout)
            &&& Timeout::BlockUntil(now).gives_up_before(timeout)
            &&& timeout.gives_up_before(Timeout::BlockIndefinitely)
        }),
{
}

/// A thread that may block until some moment gives up at that very moment, and no other thread has a
/// moment to give up at: one that gives up at an earlier moment has a timeout that gives up before,
/// and the other way round.
pub proof fn law_deadlines(instant: Instant, other: Instant)
    ensures
        Timeout::BlockUntil(instant).spec_deadline() == Some(instant),
        Timeout::DontBlock.spec_deadline() is None,
        Timeout::BlockIndefinitely.spec_deadline() is None,
        Timeout::DontBlock.gives_up_before(Timeout::BlockUntil(instant)),
        Timeout::BlockUntil(instant).gives_up_before(Timeout::BlockIndefinitely),
        Timeout::DontBlock.gives_up_before(Timeout::BlockIndefinitely),
        Timeout::BlockUntil(instant).gives_up_before(Timeout::BlockUntil(other)) <==> instant.nanos
            < other.nanos,
{
}

/// Timeouts compare as less exactly if they give up before, and as equal exactly if they are.
pub proof fn law_timeouts_compare_by_when_they_give_up(a: Timeout, b: Timeout)
    ensures
        vstd::std_specs::cmp::PartialOrdSpec::partial_cmp_spec(&a, &b) == Some(Ordering::Less)
            <==> a.gives_up_before(b),
        vstd::std_specs::cmp::PartialOrdSpec::partial_cmp_spec(&a, &b) == Some(Ordering::Greater)
            <==> b.gives_up_before(a),
        vstd::std_specs::cmp::PartialOrdSpec::partial_cmp_spec(&a, &b) == Some(Ordering::Equal)
            <==> a == b,
{
    law_timeouts_are_totally_ordered(a, b, a);
}

/// A result which either succeeded, or failed due to a timeout.
pub type BlockResult<T> = Result<T, TimedOut>;

/// The value of the error alternative of [BlockResult] that indicates a timeout.
#[derive(Debug, Clone, Copy, Ord, PartialOrd, Hash, Eq, PartialEq, Structural)]
pub struct TimedOut;

} // verus!
