//! What holds of a header that many threads use at once.
//!
//! Threads update the word of a header by exchanging the value that they observed for one computed
//! from it, so everything that they do to it is a sequence of the steps below, in some order. The
//! steps are stated over the same functions as the contracts of [Header](crate::header::Header).

use vstd::prelude::*;

use crate::header::{HeaderView, MAX_CONCURRENT_READS};
use crate::timeout::Timeout;
use crate::util::sync::park::ParkChoice;

verus! {

/// A header, and the threads that use it.
pub struct Shared {
    pub header: HeaderView,
    /// The number of read locks that threads hold.
    pub readers: nat,
    /// The number of write locks that threads hold.
    pub writers: nat,
    /// The number of threads that are parked on the header.
    pub parked: nat,
    /// The number of threads that gave up a lock and are about to unpark the parked threads.
    pub unparkers: nat,
}

/// What a thread can do to the header at once.
pub enum Step {
    /// Occupies the header.
    Insert(u32),
    /// Exchanges the word for one with one more read lock.
    LockRead,
    /// Exchanges the word for one with one read lock fewer.
    UnlockRead,
    /// Exchanges the word of unlocked data for the write locked one.
    LockWrite,
    /// Swaps in the word of unlocked data.
    UnlockWrite,
    /// Exchanges the word of unlocked data for the unoccupied one.
    Remove,
    /// Swaps in the unoccupied word.
    RemoveLocked,
    /// Marks the word and parks, in order to read lock the header.
    ParkToRead,
    /// Marks the word and parks, in order to write lock the header or to remove its data.
    ParkToWrite,
    /// Unparks all threads that are parked on the header.
    Unpark,
    /// Stops being parked because the deadline has passed.
    TimeOut,
}

/// A header that was just created, which no thread has used yet.
pub open spec fn initial(s: Shared) -> bool {
    &&& s.header == HeaderView { id: 0, lock: None }
    &&& s.readers == 0
    &&& s.writers == 0
    &&& s.parked == 0
    &&& s.unparkers == 0
}

/// Whether `step` can lead from `s` to `t`.
///
/// A thread gives up a lock only if it holds one, and one that gives up a lock and is told to
/// unpark does so in a later step of its own.
pub open spec fn next(s: Shared, step: Step, t: Shared) -> bool {
    match step {
        Step::Insert(id) => !s.header.occupied() && t == Shared {
            header: s.header.after_insert(id),
            ..s
        },
        Step::LockRead => s.header.occupied() && !s.header.write_locked() && s.header.readers()
            != MAX_CONCURRENT_READS && t == Shared {
            header: s.header.after_lock_read(),
            readers: s.readers + 1,
            ..s
        },
        Step::UnlockRead => s.readers > 0 && t == Shared {
            header: s.header.after_unlock_read(),
            readers: (s.readers - 1) as nat,
            unparkers: s.unparkers + if s.header.unlock_read_unparks() {
                1nat
            } else {
                0
            },
            ..s
        },
        Step::LockWrite => s.header.unlocked() && t == Shared {
            header: s.header.after_lock_write(),
            writers: s.writers + 1,
            ..s
        },
        Step::UnlockWrite => s.writers > 0 && t == Shared {
            header: s.header.after_unlock_write(),
            writers: (s.writers - 1) as nat,
            unparkers: s.unparkers + if s.header.unlock_write_unparks() {
                1nat
            } else {
                0
            },
            ..s
        },
        Step::Remove => s.header.unlocked() && t == Shared {
            header: s.header.after_remove(),
            ..s
        },
        Step::RemoveLocked => s.writers > 0 && t == Shared {
            header: s.header.after_remove(),
            writers: (s.writers - 1) as nat,
            unparkers: s.unparkers + if s.header.unlock_write_unparks() {
                1nat
            } else {
                0
            },
            ..s
        },
        Step::ParkToRead => s.header.write_locked() && t == Shared {
            header: s.header.after_mark(),
            parked: s.parked + 1,
            ..s
        },
        Step::ParkToWrite => s.header.locked() && t == Shared {
            header: s.header.after_mark(),
            parked: s.parked + 1,
            ..s
        },
        Step::Unpark => s.unparkers > 0 && t == Shared {
            parked: 0,
            unparkers: (s.unparkers - 1) as nat,
            ..s
        },
        Step::TimeOut => s.parked > 0 && t == Shared { parked: (s.parked - 1) as nat, ..s },
    }
}

/// The header counts the locks that threads hold, and shows that threads are parked unless a thread
/// is about to unpark them.
pub open spec fn invariant_holds(s: Shared) -> bool {
    &&& s.header.wf()
    &&& s.readers == s.header.readers()
    &&& s.writers == if s.header.write_locked() {
        1nat
    } else {
        0
    }
    &&& s.parked > 0 && s.unparkers == 0 ==> s.header.waiting()
}

/// Whether `states` are the states that `steps` lead through, one after the other.
pub open spec fn is_history(states: Seq<Shared>, steps: Seq<Step>) -> bool {
    &&& states.len() == steps.len() + 1
    &&& initial(states[0])
    &&& forall|i: int|
        0 <= i < steps.len() ==> next(#[trigger] states[i], steps[i], states[i + 1])
}

/// What a header does for a thread that asks it for something is one of the steps, or nothing: the
/// thread gets the lock or the data, or it parks, or the header is left as it is.
pub proof fn law_polls_are_steps(s: Shared, id: u32, timeout: Timeout)
    requires
        s.header.id == id ==> s.header.occupied() && s.header.readers() != MAX_CONCURRENT_READS,
    ensures
        ({
            let (header, choice) = s.header.poll_lock_read(id, timeout);
            match choice {
                ParkChoice::DontPark(Ok(true)) => next(
                    s,
                    Step::LockRead,
                    Shared { header, readers: s.readers + 1, ..s },
                ),
                ParkChoice::Park => next(
                    s,
                    Step::ParkToRead,
                    Shared { header, parked: s.parked + 1, ..s },
                ),
                _ => header == s.header,
            }
        }),
        ({
            let (header, choice) = s.header.poll_lock_write(id, timeout);
            match choice {
                ParkChoice::DontPark(Ok(true)) => next(
                    s,
                    Step::LockWrite,
                    Shared { header, writers: s.writers + 1, ..s },
                ),
                ParkChoice::Park => next(
                    s,
                    Step::ParkToWrite,
                    Shared { header, parked: s.parked + 1, ..s },
                ),
                _ => header == s.header,
            }
        }),
        ({
            let (header, choice) = s.header.poll_remove(id, timeout);
            match choice {
                ParkChoice::DontPark(Ok(true)) => next(s, Step::Remove, Shared { header, ..s }),
                ParkChoice::Park => next(
                    s,
                    Step::ParkToWrite,
                    Shared { header, parked: s.parked + 1, ..s },
                ),
                _ => header == s.header,
            }
        }),
{
}

/// Every step keeps the invariant.
pub proof fn law_steps_keep_the_invariant(s: Shared, step: Step, t: Shared)
    requires
        invariant_holds(s),
        next(s, step, t),
    ensures
        invariant_holds(t),
{
}

/// Whatever the threads do, the header counts the locks that they hold and shows that threads are
/// parked.
pub proof fn law_invariant_always_holds(states: Seq<Shared>, steps: Seq<Step>, i: int)
    requires
        is_history(states, steps),
        0 <= i < states.len(),
    ensures
        invariant_holds(states[i]),
    decreases i,
{
    if i > 0 {
        law_invariant_always_holds(states, steps, i - 1);
        assert(next(states[i - 1], steps[i - 1], states[i]));
    }
}

/// A write lock excludes all other locks.
pub proof fn law_write_locks_are_exclusive(states: Seq<Shared>, steps: Seq<Step>, i: int)
    requires
        is_history(states, steps),
        0 <= i < states.len(),
    ensures
        states[i].writers <= 1,
        states[i].writers > 0 ==> states[i].readers == 0,
{
    law_invariant_always_holds(states, steps, i);
}

/// Data that a thread has locked is not replaced or removed by other threads: as long as a read
/// lock is held, or the write lock is, the header stays occupied under the same ID.
pub proof fn law_locked_data_stays(states: Seq<Shared>, steps: Seq<Step>, i: int)
    requires
        is_history(states, steps),
        0 <= i < steps.len(),
        (states[i].readers > 0 && states[i + 1].readers > 0) || (states[i].writers > 0 && states[i
            + 1].writers > 0),
    ensures
        states[i].header.occupied(),
        states[i + 1].header.occupied(),
        states[i + 1].header.id == states[i].header.id,
{
    law_invariant_always_holds(states, steps, i);
    assert(next(states[i], steps[i], states[i + 1]));
}

/// Whether the `i`-th step takes the data under the given ID away from the header.
pub open spec fn is_removal(states: Seq<Shared>, steps: Seq<Step>, i: int, id: u32) -> bool {
    states[i].header.id == id && (steps[i] is Remove || steps[i] is RemoveLocked)
}

/// Whether the header guards the data under the given ID.
pub open spec fn guards(s: Shared, id: u32) -> bool {
    s.header.id == id && s.header.occupied()
}

/// Data that the header does not guard cannot be taken away from it, nor does the header guard it
/// later unless it is occupied under that ID.
proof fn lemma_data_is_absent(states: Seq<Shared>, steps: Seq<Step>, i: int, j: int, id: u32)
    requires
        is_history(states, steps),
        0 <= i <= j < states.len(),
        !guards(states[i], id),
        forall|k: int| i <= k < j ==> #[trigger] steps[k] != Step::Insert(id),
    ensures
        !guards(states[j], id),
        j < steps.len() ==> !is_removal(states, steps, j, id),
    decreases j - i,
{
    law_invariant_always_holds(states, steps, j);
    if i < j {
        lemma_data_is_absent(states, steps, i, j - 1, id);
        law_invariant_always_holds(states, steps, j - 1);
        assert(next(states[j - 1], steps[j - 1], states[j - 1 + 1]));
    }
    if j < steps.len() {
        assert(next(states[j], steps[j], states[j + 1]));
    }
}

proof fn lemma_data_is_removed(
    states: Seq<Shared>,
    steps: Seq<Step>,
    i: int,
    j: int,
    id: u32,
) -> (k: int)
    requires
        is_history(states, steps),
        0 <= i <= j < states.len(),
        guards(states[i], id),
        !guards(states[j], id),
    ensures
        i <= k < j,
        guards(states[k], id),
        !guards(states[k + 1], id),
        is_removal(states, steps, k, id),
    decreases j - i,
{
    law_invariant_always_holds(states, steps, i);
    assert(next(states[i], steps[i], states[i + 1]));
    if guards(states[i + 1], id) {
        lemma_data_is_removed(states, steps, i + 1, j, id)
    } else {
        i
    }
}

/// Of all the threads that try to remove the same data, exactly one gets it: if the header guarded
/// the data under an ID and does not anymore, then exactly one step in between took it away, as long
/// as the header was not occupied under that ID again.
pub proof fn law_data_is_removed_once(
    states: Seq<Shared>,
    steps: Seq<Step>,
    i: int,
    j: int,
    id: u32,
) -> (k: int)
    requires
        is_history(states, steps),
        0 <= i <= j < states.len(),
        guards(states[i], id),
        !guards(states[j], id),
        forall|k: int| i <= k < j ==> #[trigger] steps[k] != Step::Insert(id),
    ensures
        i <= k < j,
        is_removal(states, steps, k, id),
        forall|other: int|
            i <= other < j && #[trigger] is_removal(states, steps, other, id) ==> other == k,
{
    let k = lemma_data_is_removed(states, steps, i, j, id);
    assert forall|other: int|
        i <= other < j && #[trigger] is_removal(states, steps, other, id) implies other == k by {
        law_invariant_always_holds(states, steps, other);
        assert(next(states[other], steps[other], states[other + 1]));
        if k < other {
            lemma_data_is_absent(states, steps, k + 1, other, id);
        } else if other < k {
            assert(!guards(states[other + 1], id));
            lemma_data_is_absent(states, steps, other + 1, k, id);
        }
    }
    k
}

/// No wakeup is lost: if threads are parked on a header that is not locked, or that is not occupied
/// anymore, then some thread is about to unpark them.
pub proof fn law_no_wakeup_is_lost(states: Seq<Shared>, steps: Seq<Step>, i: int)
    requires
        is_history(states, steps),
        0 <= i < states.len(),
        states[i].parked > 0,
        !states[i].header.locked(),
    ensures
        states[i].unparkers > 0,
{
    law_invariant_always_holds(states, steps, i);
}

} // verus!
