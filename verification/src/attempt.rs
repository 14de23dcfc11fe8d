//! What a thread does, step by step, to lock or unlock a header whose word it shares with others.
//!
//! Other threads may change the word between any two steps of a thread. So an attempt says which
//! access to the word comes next, is told what came of it, and goes on from there: it holds whatever
//! other threads do in between. An attempt may have to wait in the queue of the header's parked
//! threads. While a thread is in the queue without being asleep, no thread is unparked.
//!
//! The words that an attempt puts in place are those of the steps that
//! [protocol](crate::protocol) allows.

use vstd::prelude::*;

use crate::header;
use crate::header::{
    BlockChoice, Header, HeaderView, ReadResponse, ReadStep, TransitionStep, MAX_CONCURRENT_READS,
    RESERVED_ID,
};
use crate::protocol;
use crate::protocol::{Shared, Step};
use crate::timeout::Timeout;
use crate::util::sync::park::ParkChoice;

verus! {

/// What a thread has to do next in an attempt.
#[derive(Debug, Copy, Clone, Eq, PartialEq, Hash, Structural)]
pub enum Action {
    /// Load the word.
    Load,
    /// Exchange the word for `new` if it is `expected`. This may fail for no reason if it is weak.
    CompareExchange { expected: u64, new: u64, weak: bool },
    /// Enter the queue of parked threads.
    EnterQueue,
    /// Leave the queue of parked threads again.
    LeaveQueue,
    /// Fall asleep in the queue, until another thread unparks this one or the deadline passes.
    Park,
    /// Stop: the lock or the data was acquired, or the header guards other data.
    Finish(bool),
    /// Stop: the data is locked and the timeout does not allow to wait any longer.
    TimeOut,
    /// Stop: no more read locks can be counted.
    TooManyReaders,
}

/// What came of an action.
#[derive(Debug, Copy, Clone, Eq, PartialEq, Hash, Structural)]
pub enum Event {
    /// The word was this one when it was loaded, or when an exchange failed.
    Observed(u64),
    /// The word was exchanged.
    Exchanged,
    /// The queue was entered.
    Entered,
    /// The queue was left.
    Left,
    /// Another thread unparked this one, which left the queue with that.
    Waited,
    /// The deadline passed, and with that this thread left the queue.
    TimedOut,
}

/// How far an attempt to read lock a header has come.
#[derive(Debug, Copy, Clone, Eq, PartialEq, Hash, Structural)]
pub enum ReadState {
    /// The word has to be loaded.
    Started,
    /// The word has to be exchanged for the one with one more reader.
    Exchanging(u64),
    /// The queue has to be entered.
    Entering,
    /// In the queue, the word has to be loaded.
    Queued,
    /// In the queue, the word has to be marked.
    Marking(u64),
    /// The queue has to be left, as the lock seems to be free.
    LeavingMatched(u64),
    /// The queue has to be left, as the header guards other data.
    LeavingMismatched,
    /// In the queue, the thread has to fall asleep.
    Parking,
    Finished(bool),
    TimedOut,
    TooManyReaders,
}

/// A thread's attempt to read lock the data under an ID.
pub struct ReadAttempt {
    id: u32,
    timeout: Timeout,
    state: ReadState,
}

impl ReadAttempt {
    pub closed spec fn spec_id(self) -> u32 {
        self.id
    }

    pub closed spec fn spec_timeout(self) -> Timeout {
        self.timeout
    }

    pub closed spec fn spec_state(self) -> ReadState {
        self.state
    }

    /// The words that the attempt is about to exchange are ones that it may exchange.
    pub open spec fn wf(self) -> bool {
        &&& self.spec_id() != RESERVED_ID
        &&& match self.spec_state() {
            ReadState::Exchanging(word) => {
                let view = header::decode(word);
                &&& view.id == self.spec_id()
                &&& view.occupied()
                &&& !view.write_locked()
                &&& view.readers() != MAX_CONCURRENT_READS
            },
            ReadState::LeavingMatched(word) => {
                let view = header::decode(word);
                &&& view.id == self.spec_id()
                &&& view.occupied()
                &&& !view.write_locked()
            },
            ReadState::Marking(word) => {
                let view = header::decode(word);
                &&& view.id == self.spec_id()
                &&& view.write_locked()
                &&& self.spec_timeout() !is DontBlock
            },
            ReadState::Entering | ReadState::Queued | ReadState::LeavingMismatched
            | ReadState::Parking => self.spec_timeout() !is DontBlock,
            _ => true,
        }
    }

    /// Whether an event can come of the action of the attempt, on a header that is occupied whenever
    /// it is under the ID of the attempt.
    pub open spec fn may_happen(self, event: Event) -> bool {
        &&& event matches Event::Observed(word) ==> header::decode(word).id == self.spec_id()
            ==> header::decode(word).occupied()
        &&& match self.spec_state() {
            ReadState::Started | ReadState::Queued => event is Observed,
            ReadState::Exchanging(_) => event is Observed || event is Exchanged,
            ReadState::Marking(expected) => event is Exchanged || (event is Observed && event
                != Event::Observed(expected)),
            ReadState::Entering => event is Entered,
            ReadState::LeavingMatched(_) | ReadState::LeavingMismatched => event is Left,
            ReadState::Parking => event is Waited || (event is TimedOut
                && self.spec_timeout() is BlockUntil),
            _ => false,
        }
    }

    /// How an attempt goes on from a word that it observed outside of the queue.
    pub open spec fn after_observed(self, word: u64) -> ReadState {
        let view = header::decode(word);
        if view.id != self.spec_id() {
            ReadState::Finished(false)
        } else if view.write_locked() {
            if self.spec_timeout() is DontBlock {
                ReadState::TimedOut
            } else {
                ReadState::Entering
            }
        } else if view.readers() == MAX_CONCURRENT_READS {
            ReadState::TooManyReaders
        } else {
            ReadState::Exchanging(word)
        }
    }

    /// How an attempt goes on from a word that it observed in the queue.
    pub open spec fn after_observed_in_queue(self, word: u64) -> ReadState {
        let view = header::decode(word);
        if view.id != self.spec_id() {
            ReadState::LeavingMismatched
        } else if view.write_locked() {
            ReadState::Marking(word)
        } else {
            ReadState::LeavingMatched(word)
        }
    }

    /// How an attempt goes on from what came of its action.
    pub open spec fn after(self, event: Event) -> ReadState {
        match (self.spec_state(), event) {
            (ReadState::Started, Event::Observed(word)) => self.after_observed(word),
            (ReadState::Exchanging(_), Event::Observed(word)) => self.after_observed(word),
            (ReadState::Exchanging(_), Event::Exchanged) => ReadState::Finished(true),
            (ReadState::Entering, Event::Entered) => ReadState::Queued,
            (ReadState::Queued, Event::Observed(word)) => self.after_observed_in_queue(word),
            (ReadState::Marking(_), Event::Observed(_)) => ReadState::Queued,
            (ReadState::Marking(_), Event::Exchanged) => ReadState::Parking,
            (ReadState::LeavingMatched(word), Event::Left) => if header::decode(word).readers()
                == MAX_CONCURRENT_READS {
                ReadState::TooManyReaders
            } else {
                ReadState::Exchanging(word)
            },
            (ReadState::LeavingMismatched, Event::Left) => ReadState::Finished(false),
            (ReadState::Parking, Event::Waited) => ReadState::Entering,
            (ReadState::Parking, Event::TimedOut) => ReadState::TimedOut,
            (state, _) => state,
        }
    }

    /// Starts an attempt to read lock the data under `id`.
    pub fn new(id: u32, timeout: Timeout) -> (attempt: Self)
        requires
            id != RESERVED_ID,
        ensures
            attempt.wf(),
            attempt.spec_id() == id,
            attempt.spec_timeout() == timeout,
            attempt.spec_state() == ReadState::Started,
    {
        Self { id, timeout, state: ReadState::Started }
    }

    /// Says what to do next.
    pub fn action(&self) -> (action: Action)
        requires
            self.wf(),
        ensures
            match self.spec_state() {
                ReadState::Started | ReadState::Queued => action is Load,
                ReadState::Exchanging(word) => {
                    &&& action matches Action::CompareExchange { expected, new, weak }
                    &&& expected == word
                    &&& header::decode(new) == header::decode(word).after_lock_read()
                    &&& weak
                },
                ReadState::Marking(word) => {
                    &&& action matches Action::CompareExchange { expected, new, weak }
                    &&& expected == word
                    &&& header::decode(new) == header::decode(word).after_mark()
                    &&& !weak
                },
                ReadState::Entering => action is EnterQueue,
                ReadState::LeavingMatched(_) | ReadState::LeavingMismatched => action is LeaveQueue,
                ReadState::Parking => action is Park,
                ReadState::Finished(matched) => action == Action::Finish(matched),
                ReadState::TimedOut => action is TimeOut,
                ReadState::TooManyReaders => action is TooManyReaders,
            },
    {
        match self.state {
            ReadState::Started => Action::Load,
            ReadState::Exchanging(word) => Action::CompareExchange {
                expected: word,
                new: Header::increment_readers(word),
                weak: true,
            },
            ReadState::Entering => Action::EnterQueue,
            ReadState::Queued => Action::Load,
            ReadState::Marking(word) => Action::CompareExchange {
                expected: word,
                new: Header::mark_thread_blocking(word),
                weak: false,
            },
            ReadState::LeavingMatched(_) => Action::LeaveQueue,
            ReadState::LeavingMismatched => Action::LeaveQueue,
            ReadState::Parking => Action::Park,
            ReadState::Finished(matched) => Action::Finish(matched),
            ReadState::TimedOut => Action::TimeOut,
            ReadState::TooManyReaders => Action::TooManyReaders,
        }
    }

    /// Goes on from what came of the action.
    pub fn advance(&mut self, event: Event)
        requires
            old(self).wf(),
            old(self).may_happen(event),
        ensures
            final(self).wf(),
            final(self).spec_id() == old(self).spec_id(),
            final(self).spec_timeout() == old(self).spec_timeout(),
            final(self).spec_state() == old(self).after(event),
    {
        self.state = match (self.state, event) {
            (ReadState::Started, Event::Observed(word)) => self.observe(word),
            (ReadState::Exchanging(_), Event::Observed(word)) => self.observe(word),
            (ReadState::Exchanging(_), Event::Exchanged) => ReadState::Finished(true),
            (ReadState::Entering, Event::Entered) => ReadState::Queued,
            (ReadState::Queued, Event::Observed(word)) => self.observe_in_queue(word),
            (ReadState::Marking(_), Event::Observed(_)) => ReadState::Queued,
            (ReadState::Marking(_), Event::Exchanged) => ReadState::Parking,
            (ReadState::LeavingMatched(word), Event::Left) => {
                if Header::readers_from_bits(word) == MAX_CONCURRENT_READS {
                    ReadState::TooManyReaders
                } else {
                    ReadState::Exchanging(word)
                }
            },
            (ReadState::LeavingMismatched, Event::Left) => ReadState::Finished(false),
            (ReadState::Parking, Event::Waited) => ReadState::Entering,
            (ReadState::Parking, Event::TimedOut) => ReadState::TimedOut,
            (state, _) => state,
        };
    }

    fn observe(&self, word: u64) -> (state: ReadState)
        requires
            self.wf(),
            header::decode(word).id == self.spec_id() ==> header::decode(word).occupied(),
        ensures
            state == self.after_observed(word),
    {
        match Header::lock_read_with_current(self.id, word) {
            ReadStep::Mismatch => ReadState::Finished(false),
            ReadStep::WriteLocked => match self.timeout {
                Timeout::DontBlock => ReadState::TimedOut,
                _ => ReadState::Entering,
            },
            ReadStep::TooManyReaders => ReadState::TooManyReaders,
            ReadStep::Exchange(_) => ReadState::Exchanging(word),
        }
    }

    fn observe_in_queue(&self, word: u64) -> (state: ReadState)
        ensures
            state == self.after_observed_in_queue(word),
    {
        match Header::lock_read_choice(self.id, word) {
            BlockChoice::Block(word) => ReadState::Marking(word),
            BlockChoice::DontBlock(ReadResponse::Matched(word)) => ReadState::LeavingMatched(word),
            BlockChoice::DontBlock(ReadResponse::Mismatch) => ReadState::LeavingMismatched,
        }
    }
}

/// How far an attempt to write lock a header or to remove its data has come.
#[derive(Debug, Copy, Clone, Eq, PartialEq, Hash, Structural)]
pub enum TransitionState {
    /// The word has to be exchanged.
    Exchanging,
    /// The queue has to be entered.
    Entering,
    /// In the queue, the word has to be exchanged.
    Queued,
    /// In the queue, the word has to be marked.
    Marking(u64),
    /// The queue has to be left, as the word was exchanged.
    LeavingMatched,
    /// The queue has to be left, as the header guards other data.
    LeavingMismatched,
    /// In the queue, the thread has to fall asleep.
    Parking,
    Finished(bool),
    TimedOut,
}

/// What an attempt to change a header that guards unlocked data is for.
#[derive(Debug, Copy, Clone, Eq, PartialEq, Hash, Structural)]
pub enum Purpose {
    LockWrite,
    Remove,
}

/// A thread's attempt to write lock or to remove the data under an ID.
pub struct TransitionAttempt {
    id: u32,
    purpose: Purpose,
    timeout: Timeout,
    state: TransitionState,
}

impl TransitionAttempt {
    pub closed spec fn spec_id(self) -> u32 {
        self.id
    }

    pub closed spec fn spec_purpose(self) -> Purpose {
        self.purpose
    }

    pub closed spec fn spec_timeout(self) -> Timeout {
        self.timeout
    }

    pub closed spec fn spec_state(self) -> TransitionState {
        self.state
    }

    /// The header that guards unlocked data under the ID of the attempt.
    pub open spec fn unlocked(self) -> HeaderView {
        HeaderView { id: self.spec_id(), lock: Some(header::Lock::Unlocked) }
    }

    /// What the attempt wants the header to become.
    pub open spec fn target(self) -> HeaderView {
        match self.spec_purpose() {
            Purpose::LockWrite => self.unlocked().after_lock_write(),
            Purpose::Remove => self.unlocked().after_remove(),
        }
    }

    /// The word that the attempt is about to mark is one that it may mark.
    pub open spec fn wf(self) -> bool {
        &&& self.spec_id() != RESERVED_ID
        &&& match self.spec_state() {
            TransitionState::Marking(word) => {
                let view = header::decode(word);
                &&& view.id == self.spec_id()
                &&& view.locked()
                &&& self.spec_timeout() !is DontBlock
            },
            TransitionState::Exchanging | TransitionState::Finished(_)
            | TransitionState::TimedOut => true,
            _ => self.spec_timeout() !is DontBlock,
        }
    }

    /// Whether an event can come of the action of the attempt, on a header that is occupied whenever
    /// it is under the ID of the attempt.
    pub open spec fn may_happen(self, event: Event) -> bool {
        &&& event matches Event::Observed(word) ==> header::decode(word).id == self.spec_id()
            ==> header::decode(word).occupied()
        &&& match self.spec_state() {
            TransitionState::Exchanging => event is Observed || event is Exchanged,
            TransitionState::Queued => event is Exchanged || (event matches Event::Observed(word)
                && header::decode(word) != self.unlocked()),
            TransitionState::Marking(expected) => event is Exchanged || (event is Observed && event
                != Event::Observed(expected)),
            TransitionState::Entering => event is Entered,
            TransitionState::LeavingMatched | TransitionState::LeavingMismatched => event is Left,
            TransitionState::Parking => event is Waited || (event is TimedOut
                && self.spec_timeout() is BlockUntil),
            _ => false,
        }
    }

    /// How an attempt goes on from what came of its action.
    pub open spec fn after(self, event: Event) -> TransitionState {
        match (self.spec_state(), event) {
            (TransitionState::Exchanging, Event::Exchanged) => TransitionState::Finished(true),
            (TransitionState::Exchanging, Event::Observed(word)) => {
                let view = header::decode(word);
                if view.id != self.spec_id() {
                    TransitionState::Finished(false)
                } else if !view.locked() {
                    TransitionState::Exchanging
                } else if self.spec_timeout() is DontBlock {
                    TransitionState::TimedOut
                } else {
                    TransitionState::Entering
                }
            },
            (TransitionState::Entering, Event::Entered) => TransitionState::Queued,
            (TransitionState::Queued, Event::Exchanged) => TransitionState::LeavingMatched,
            (TransitionState::Queued, Event::Observed(word)) => if header::decode(word).id
                == self.spec_id() {
                TransitionState::Marking(word)
            } else {
                TransitionState::LeavingMismatched
            },
            (TransitionState::Marking(_), Event::Observed(_)) => TransitionState::Queued,
            (TransitionState::Marking(_), Event::Exchanged) => TransitionState::Parking,
            (TransitionState::LeavingMatched, Event::Left) => TransitionState::Finished(true),
            (TransitionState::LeavingMismatched, Event::Left) => TransitionState::Finished(false),
            (TransitionState::Parking, Event::Waited) => TransitionState::Entering,
            (TransitionState::Parking, Event::TimedOut) => TransitionState::TimedOut,
            (state, _) => state,
        }
    }

    /// Starts an attempt to write lock or to remove the data under `id`.
    pub fn new(id: u32, purpose: Purpose, timeout: Timeout) -> (attempt: Self)
        requires
            id != RESERVED_ID,
        ensures
            attempt.wf(),
            attempt.spec_id() == id,
            attempt.spec_purpose() == purpose,
            attempt.spec_timeout() == timeout,
            attempt.spec_state() == TransitionState::Exchanging,
    {
        Self { id, purpose, timeout, state: TransitionState::Exchanging }
    }

    /// Says what to do next.
    pub fn action(&self) -> (action: Action)
        requires
            self.wf(),
        ensures
            match self.spec_state() {
                TransitionState::Exchanging | TransitionState::Queued => {
                    &&& action matches Action::CompareExchange { expected, new, weak }
                    &&& header::decode(expected) == self.unlocked()
                    &&& header::decode(new) == self.target()
                    &&& weak == (self.spec_state() is Exchanging)
                },
                TransitionState::Marking(word) => {
                    &&& action matches Action::CompareExchange { expected, new, weak }
                    &&& expected == word
                    &&& header::decode(new) == header::decode(word).after_mark()
                    &&& !weak
                },
                TransitionState::Entering => action is EnterQueue,
                TransitionState::LeavingMatched
                | TransitionState::LeavingMismatched => action is LeaveQueue,
                TransitionState::Parking => action is Park,
                TransitionState::Finished(matched) => action == Action::Finish(matched),
                TransitionState::TimedOut => action is TimeOut,
            },
    {
        match self.state {
            TransitionState::Exchanging => Action::CompareExchange {
                expected: Header::occupied_unlocked_bits(self.id),
                new: self.target_bits(),
                weak: true,
            },
            TransitionState::Entering => Action::EnterQueue,
            TransitionState::Queued => Action::CompareExchange {
                expected: Header::occupied_unlocked_bits(self.id),
                new: self.target_bits(),
                weak: false,
            },
            TransitionState::Marking(word) => Action::CompareExchange {
                expected: word,
                new: Header::mark_thread_blocking(word),
                weak: false,
            },
            TransitionState::LeavingMatched => Action::LeaveQueue,
            TransitionState::LeavingMismatched => Action::LeaveQueue,
            TransitionState::Parking => Action::Park,
            TransitionState::Finished(matched) => Action::Finish(matched),
            TransitionState::TimedOut => Action::TimeOut,
        }
    }

    fn target_bits(&self) -> (bits: u64)
        requires
            self.spec_id() != RESERVED_ID,
        ensures
            header::decode(bits) == self.target(),
    {
        match self.purpose {
            Purpose::LockWrite => Header::write_locked_bits(self.id),
            Purpose::Remove => Header::unoccupied_bits(self.id + 1),
        }
    }

    /// Goes on from what came of the action.
    pub fn advance(&mut self, event: Event)
        requires
            old(self).wf(),
            old(self).may_happen(event),
        ensures
            final(self).wf(),
            final(self).spec_id() == old(self).spec_id(),
            final(self).spec_purpose() == old(self).spec_purpose(),
            final(self).spec_timeout() == old(self).spec_timeout(),
            final(self).spec_state() == old(self).after(event),
    {
        let expected = Header::occupied_unlocked_bits(self.id);
        self.state = match (self.state, event) {
            (TransitionState::Exchanging, Event::Exchanged) => TransitionState::Finished(true),
            (TransitionState::Exchanging, Event::Observed(word)) => {
                match Header::transition_with_actual(expected, word) {
                    TransitionStep::Mismatch => TransitionState::Finished(false),
                    TransitionStep::Retry => TransitionState::Exchanging,
                    TransitionStep::Locked => match self.timeout {
                        Timeout::DontBlock => TransitionState::TimedOut,
                        _ => TransitionState::Entering,
                    },
                }
            },
            (TransitionState::Entering, Event::Entered) => TransitionState::Queued,
            (TransitionState::Queued, Event::Exchanged) => TransitionState::LeavingMatched,
            (TransitionState::Queued, Event::Observed(word)) => {
                match Header::transition_choice(expected, word) {
                    BlockChoice::Block(word) => TransitionState::Marking(word),
                    BlockChoice::DontBlock(_) => TransitionState::LeavingMismatched,
                }
            },
            (TransitionState::Marking(_), Event::Observed(_)) => TransitionState::Queued,
            (TransitionState::Marking(_), Event::Exchanged) => TransitionState::Parking,
            (TransitionState::LeavingMatched, Event::Left) => TransitionState::Finished(true),
            (TransitionState::LeavingMismatched, Event::Left) => TransitionState::Finished(false),
            (TransitionState::Parking, Event::Waited) => TransitionState::Entering,
            (TransitionState::Parking, Event::TimedOut) => TransitionState::TimedOut,
            (state, _) => state,
        };
    }
}

/// How far the release of a read lock has come.
#[derive(Debug, Copy, Clone, Eq, PartialEq, Hash, Structural)]
pub enum ReleaseState {
    /// The word has to be loaded.
    Started,
    /// The word has to be exchanged for the one with one reader fewer.
    Exchanging(u64),
    /// The lock was released, and the parked threads have to be unparked if this is true.
    Finished(bool),
}

/// A thread's release of a read lock that it holds on the data under an ID.
pub struct ReadRelease {
    id: u32,
    state: ReleaseState,
}

impl ReadRelease {
    pub closed spec fn spec_id(self) -> u32 {
        self.id
    }

    pub closed spec fn spec_state(self) -> ReleaseState {
        self.state
    }

    /// The word that is about to be exchanged is one that counts the read lock.
    pub open spec fn wf(self) -> bool {
        self.spec_state() matches ReleaseState::Exchanging(word) ==> {
            &&& header::decode(word).id == self.spec_id()
            &&& header::decode(word).read_locked()
        }
    }

    /// Whether an event can come of the action, on a header that counts the read lock.
    pub open spec fn may_happen(self, event: Event) -> bool {
        &&& event matches Event::Observed(word) ==> header::decode(word).id == self.spec_id()
            && header::decode(word).read_locked()
        &&& match self.spec_state() {
            ReleaseState::Started => event is Observed,
            ReleaseState::Exchanging(_) => event is Observed || event is Exchanged,
            ReleaseState::Finished(_) => false,
        }
    }

    /// How the release goes on from what came of its action.
    pub open spec fn after(self, event: Event) -> ReleaseState {
        match (self.spec_state(), event) {
            (ReleaseState::Exchanging(word), Event::Exchanged) => ReleaseState::Finished(
                header::decode(word).unlock_read_unparks(),
            ),
            (_, Event::Observed(word)) => ReleaseState::Exchanging(word),
            (state, _) => state,
        }
    }

    /// Starts to release a read lock on the data under `id`.
    pub fn new(id: u32) -> (release: Self)
        ensures
            release.wf(),
            release.spec_id() == id,
            release.spec_state() == ReleaseState::Started,
    {
        Self { id, state: ReleaseState::Started }
    }

    /// Says what to do next. Once the release is finished, this says whether the parked threads have
    /// to be unparked.
    pub fn action(&self) -> (action: Action)
        requires
            self.wf(),
        ensures
            match self.spec_state() {
                ReleaseState::Started => action is Load,
                ReleaseState::Exchanging(word) => {
                    &&& action matches Action::CompareExchange { expected, new, weak }
                    &&& expected == word
                    &&& header::decode(new) == header::decode(word).after_unlock_read()
                    &&& weak
                },
                ReleaseState::Finished(must_unpark) => action == Action::Finish(must_unpark),
            },
    {
        match self.state {
            ReleaseState::Started => Action::Load,
            ReleaseState::Exchanging(word) => {
                let (new, _) = Header::unlock_read_with_current(self.id, word);
                Action::CompareExchange { expected: word, new, weak: true }
            },
            ReleaseState::Finished(must_unpark) => Action::Finish(must_unpark),
        }
    }

    /// Goes on from what came of the action.
    pub fn advance(&mut self, event: Event)
        requires
            old(self).wf(),
            old(self).may_happen(event),
        ensures
            final(self).wf(),
            final(self).spec_id() == old(self).spec_id(),
            final(self).spec_state() == old(self).after(event),
    {
        self.state = match (self.state, event) {
            (ReleaseState::Exchanging(word), Event::Exchanged) => {
                let (_, must_unpark) = Header::unlock_read_with_current(self.id, word);
                ReleaseState::Finished(must_unpark)
            },
            (_, Event::Observed(word)) => ReleaseState::Exchanging(word),
            (state, _) => state,
        };
    }
}

/// What an attempt to read lock a header does to it is a step that threads may take: it acquires a
/// read lock, or it marks the header and parks.
pub proof fn law_read_attempts_take_steps(attempt: ReadAttempt, s: Shared)
    requires
        attempt.wf(),
    ensures
        attempt.spec_state() matches ReadState::Exchanging(word) && s.header == header::decode(word)
            ==> protocol::next(
            s,
            Step::LockRead,
            Shared { header: s.header.after_lock_read(), readers: s.readers + 1, ..s },
        ),
        attempt.spec_state() matches ReadState::Marking(word) && s.header == header::decode(word)
            ==> protocol::next(
            s,
            Step::ParkToRead,
            Shared { header: s.header.after_mark(), parked: s.parked + 1, ..s },
        ),
{
}

/// What an attempt to write lock a header or to remove its data does to the header is a step that
/// threads may take.
pub proof fn law_transition_attempts_take_steps(attempt: TransitionAttempt, s: Shared)
    requires
        attempt.wf(),
    ensures
        s.header == attempt.unlocked() && attempt.spec_purpose() is LockWrite ==> protocol::next(
            s,
            Step::LockWrite,
            Shared { header: attempt.target(), writers: s.writers + 1, ..s },
        ),
        s.header == attempt.unlocked() && attempt.spec_purpose() is Remove ==> protocol::next(
            s,
            Step::Remove,
            Shared { header: attempt.target(), ..s },
        ),
        attempt.spec_state() matches TransitionState::Marking(word) && s.header == header::decode(
            word,
        ) ==> protocol::next(
            s,
            Step::ParkToWrite,
            Shared { header: s.header.after_mark(), parked: s.parked + 1, ..s },
        ),
{
}

/// What the release of a read lock does to a header is a step that a thread may take which holds a
/// read lock, and the thread unparks the parked ones exactly if that step obliges it to.
pub proof fn law_releases_take_steps(release: ReadRelease, s: Shared)
    requires
        release.wf(),
        s.readers > 0,
    ensures
        release.spec_state() matches ReleaseState::Exchanging(word) && s.header == header::decode(
            word,
        ) ==> {
            let must_unpark = release.after(Event::Exchanged)->Finished_0;
            protocol::next(
                s,
                Step::UnlockRead,
                Shared {
                    header: s.header.after_unlock_read(),
                    readers: (s.readers - 1) as nat,
                    unparkers: s.unparkers + if must_unpark {
                        1nat
                    } else {
                        0
                    },
                    ..s
                },
            )
        },
{
}

/// An attempt to read lock a header succeeds exactly with the exchange that acquires the lock, gives
/// up because the header guards other data exactly if it observed so, sleeps exactly after it marked
/// the header, and times out exactly if its timeout does not allow to wait any longer.
pub proof fn law_read_attempts_end_for_a_reason(attempt: ReadAttempt, event: Event)
    requires
        attempt.wf(),
        attempt.may_happen(event),
    ensures
        ({
            let state = attempt.spec_state();
            let after = attempt.after(event);
            &&& after == ReadState::Finished(true) <==> state is Exchanging && event is Exchanged
            &&& after is Parking <==> state is Marking && event is Exchanged
            &&& after == ReadState::Finished(false) <==> state is LeavingMismatched || (
            state !is Queued && state !is Marking && (event matches Event::Observed(word)
                && header::decode(word).id != attempt.spec_id()))
            &&& after is LeavingMismatched <==> state is Queued && (
            event matches Event::Observed(word) && header::decode(word).id != attempt.spec_id())
            &&& after is TimedOut <==> event is TimedOut || (state !is Queued && state !is Marking
                && (event matches Event::Observed(word) && header::decode(word).id
                == attempt.spec_id() && header::decode(word).write_locked()
                && attempt.spec_timeout() is DontBlock))
            &&& after is TimedOut ==> attempt.spec_timeout() !is BlockIndefinitely
        }),
{
}

/// An attempt to write lock a header or to remove its data succeeds exactly if it exchanged the word
/// of the unlocked data, gives up because the header guards other data exactly if it observed so,
/// sleeps exactly after it marked the header, and times out exactly if its timeout does not allow to
/// wait any longer.
pub proof fn law_transition_attempts_end_for_a_reason(attempt: TransitionAttempt, event: Event)
    requires
        attempt.wf(),
        attempt.may_happen(event),
    ensures
        ({
            let state = attempt.spec_state();
            let after = attempt.after(event);
            &&& after == TransitionState::Finished(true) <==> state is LeavingMatched || (
            state is Exchanging && event is Exchanged)
            &&& after is LeavingMatched <==> state is Queued && event is Exchanged
            &&& after is Parking <==> state is Marking && event is Exchanged
            &&& after == TransitionState::Finished(false) <==> state is LeavingMismatched || (
            state is Exchanging && (event matches Event::Observed(word) && header::decode(word).id
                != attempt.spec_id()))
            &&& after is LeavingMismatched <==> state is Queued && (
            event matches Event::Observed(word) && header::decode(word).id != attempt.spec_id())
            &&& after is TimedOut <==> event is TimedOut || (state is Exchanging && (
            event matches Event::Observed(word) && header::decode(word).id == attempt.spec_id()
                && header::decode(word).locked() && attempt.spec_timeout() is DontBlock))
            &&& after is TimedOut ==> attempt.spec_timeout() !is BlockIndefinitely
        }),
{
}

/// How an attempt to read lock a header goes on from a word that it observed. Outside of the queue,
/// it adds a reader to that very word if that is possible, no matter how many readers there are below
/// the maximum, and only gives way to a writer: at once if it may not block, or else in the queue. In
/// the queue, it marks that very word if there is a writer, and leaves the queue if there is none.
pub proof fn law_read_attempts_go_on_from_what_they_observe(attempt: ReadAttempt, word: u64)
    requires
        attempt.wf(),
        attempt.may_happen(Event::Observed(word)),
    ensures
        ({
            let view = header::decode(word);
            let matches = view.id == attempt.spec_id();
            let after = attempt.after(Event::Observed(word));
            match attempt.spec_state() {
                ReadState::Started | ReadState::Exchanging(_) => {
                    &&& !matches ==> after == ReadState::Finished(false)
                    &&& matches && view.lock == Some(header::Lock::Unlocked) ==> after
                        == ReadState::Exchanging(word)
                    &&& matches ==> (view.lock matches Some(header::Lock::Read { readers, .. })
                        ==> after == if readers < 0x7fff_fffe {
                        ReadState::Exchanging(word)
                    } else {
                        ReadState::TooManyReaders
                    })
                    &&& matches ==> (view.lock matches Some(header::Lock::Write { .. }) ==> after
                        == match attempt.spec_timeout() {
                        Timeout::DontBlock => ReadState::TimedOut,
                        Timeout::BlockUntil(_) => ReadState::Entering,
                        Timeout::BlockIndefinitely => ReadState::Entering,
                    })
                },
                ReadState::Queued => {
                    &&& !matches ==> after == ReadState::LeavingMismatched
                    &&& matches ==> match view.lock->0 {
                        header::Lock::Unlocked => after == ReadState::LeavingMatched(word),
                        header::Lock::Read { .. } => after == ReadState::LeavingMatched(word),
                        header::Lock::Write { .. } => after == ReadState::Marking(word),
                    }
                },
                _ => after == ReadState::Queued,
            }
        }),
{
    lemma_word_wf(word);
}

/// What a word stands for can be packed into it.
proof fn lemma_word_wf(word: u64)
    ensures
        header::decode(word).wf(),
{
    header::law_layout_is_unambiguous(word, HeaderView { id: 0, lock: None });
}

/// Why an attempt to read lock a header is where it is: there is no other way to come there.
pub proof fn law_read_attempts_are_somewhere_for_a_reason(attempt: ReadAttempt, event: Event)
    requires
        attempt.wf(),
        attempt.may_happen(event),
    ensures
        ({
            let state = attempt.spec_state();
            let after = attempt.after(event);
            let outside = state is Started || state is Exchanging;
            &&& after !is Started
            &&& after is TooManyReaders <==> {
                ||| outside && (event matches Event::Observed(word) && header::decode(word).id
                    == attempt.spec_id() && header::decode(word).readers() == 0x7fff_fffe)
                ||| state matches ReadState::LeavingMatched(word) && header::decode(word).readers()
                    == 0x7fff_fffe
            }
            &&& after matches ReadState::Exchanging(word) ==> {
                &&& header::decode(word).id == attempt.spec_id()
                &&& !header::decode(word).write_locked()
                &&& header::decode(word).readers() < 0x7fff_fffe
                &&& (outside && event == Event::Observed(word)) || state
                    == ReadState::LeavingMatched(word)
            }
            &&& state matches ReadState::LeavingMatched(word) ==> after == (if header::decode(
                word,
            ).readers() < 0x7fff_fffe {
                ReadState::Exchanging(word)
            } else {
                ReadState::TooManyReaders
            })
            &&& after is Entering <==> {
                ||| state is Parking && event is Waited
                ||| outside && (event matches Event::Observed(word) && header::decode(word).id
                    == attempt.spec_id() && header::decode(word).write_locked()
                    && attempt.spec_timeout() !is DontBlock)
            }
            &&& after is Queued <==> (state is Entering && event is Entered) || (state is Marking
                && event is Observed)
            &&& after matches ReadState::Marking(word) ==> {
                &&& state is Queued
                &&& event == Event::Observed(word)
                &&& header::decode(word).id == attempt.spec_id()
                &&& header::decode(word).write_locked()
            }
            &&& after matches ReadState::LeavingMatched(word) ==> {
                &&& state is Queued
                &&& event == Event::Observed(word)
                &&& header::decode(word).id == attempt.spec_id()
                &&& !header::decode(word).write_locked()
            }
        }),
{
    if let Event::Observed(word) = event {
        lemma_word_wf(word);
    }
    if let ReadState::LeavingMatched(word) = attempt.spec_state() {
        lemma_word_wf(word);
    }
}

impl ReadAttempt {
    /// What comes of the action of the attempt if no other thread changes the word.
    pub open spec fn undisturbed(self, word: u64) -> Event {
        match self.spec_state() {
            ReadState::Exchanging(expected) | ReadState::Marking(expected) => if expected == word {
                Event::Exchanged
            } else {
                Event::Observed(word)
            },
            ReadState::Entering => Event::Entered,
            ReadState::LeavingMatched(_) | ReadState::LeavingMismatched => Event::Left,
            _ => Event::Observed(word),
        }
    }

    /// Whether `next` is this attempt after an action, while no other thread changes the word.
    pub open spec fn goes_on_undisturbed(self, word: u64, next: Self) -> bool {
        &&& next.spec_id() == self.spec_id()
        &&& next.spec_timeout() == self.spec_timeout()
        &&& next.spec_state() == self.after(self.undisturbed(word))
    }
}

/// An attempt to read lock a header that no other thread disturbs does what polling the header does:
/// it gets the lock with the second action, gives up or times out after the first one, or falls
/// asleep with the fifth one.
pub proof fn law_undisturbed_readers_do_as_polled(
    word: u64,
    attempt: ReadAttempt,
    second: ReadAttempt,
    third: ReadAttempt,
    fourth: ReadAttempt,
)
    requires
        attempt.wf(),
        attempt.spec_state() == ReadState::Started,
        attempt.may_happen(Event::Observed(word)),
        header::decode(word).readers() != MAX_CONCURRENT_READS,
        attempt.goes_on_undisturbed(word, second),
        second.goes_on_undisturbed(word, third),
        third.goes_on_undisturbed(word, fourth),
    ensures
        match header::decode(word).poll_lock_read(attempt.spec_id(), attempt.spec_timeout()).1 {
            ParkChoice::DontPark(Ok(true)) => {
                &&& second.spec_state() == ReadState::Exchanging(word)
                &&& third.spec_state() == ReadState::Finished(true)
            },
            ParkChoice::DontPark(Ok(false)) => second.spec_state() == ReadState::Finished(false),
            ParkChoice::DontPark(Err(_)) => second.spec_state() == ReadState::TimedOut,
            ParkChoice::Park => {
                &&& second.spec_state() == ReadState::Entering
                &&& third.spec_state() == ReadState::Queued
                &&& fourth.spec_state() == ReadState::Marking(word)
                &&& fourth.after(Event::Exchanged) == ReadState::Parking
            },
        },
{
}

/// Whatever other threads do to the word, an attempt to read lock the header can go on from it, as
/// long as the header is occupied whenever it is under the ID of the attempt.
pub proof fn law_read_attempts_can_go_on(attempt: ReadAttempt, word: u64)
    requires
        header::decode(word).id == attempt.spec_id() ==> header::decode(word).occupied(),
    ensures
        match attempt.spec_state() {
            ReadState::Started | ReadState::Queued => attempt.may_happen(Event::Observed(word)),
            ReadState::Exchanging(_) => attempt.may_happen(Event::Observed(word))
                && attempt.may_happen(Event::Exchanged),
            ReadState::Marking(expected) => attempt.may_happen(Event::Exchanged) && (word
                != expected ==> attempt.may_happen(Event::Observed(word))),
            ReadState::Entering => attempt.may_happen(Event::Entered),
            ReadState::LeavingMatched(_)
            | ReadState::LeavingMismatched => attempt.may_happen(Event::Left),
            ReadState::Parking => attempt.may_happen(Event::Waited) && (
            attempt.spec_timeout() is BlockUntil ==> attempt.may_happen(Event::TimedOut)),
            ReadState::Finished(_) | ReadState::TimedOut | ReadState::TooManyReaders => true,
        },
{
}

/// How an attempt to write lock a header or to remove its data goes on from a word that it observed.
/// Outside of the queue, it tries the exchange again only if the data is unlocked after all, and gives
/// way to a lock: at once if it may not block, or else in the queue, no matter until when it may. In
/// the queue, it marks that very word if the data is locked, no matter what the attempt is for.
pub proof fn law_transition_attempts_go_on_from_what_they_observe(
    attempt: TransitionAttempt,
    word: u64,
)
    requires
        attempt.wf(),
        attempt.may_happen(Event::Observed(word)),
    ensures
        ({
            let view = header::decode(word);
            let matches = view.id == attempt.spec_id();
            let unlocked = view.lock == Some(header::Lock::Unlocked);
            let after = attempt.after(Event::Observed(word));
            match attempt.spec_state() {
                TransitionState::Exchanging => {
                    &&& !matches ==> after == TransitionState::Finished(false)
                    &&& matches && unlocked ==> after == TransitionState::Exchanging
                    &&& matches && !unlocked ==> after == match attempt.spec_timeout() {
                        Timeout::DontBlock => TransitionState::TimedOut,
                        Timeout::BlockUntil(_) => TransitionState::Entering,
                        Timeout::BlockIndefinitely => TransitionState::Entering,
                    }
                },
                TransitionState::Queued => {
                    &&& !matches ==> after == TransitionState::LeavingMismatched
                    &&& matches ==> after == TransitionState::Marking(word) && !unlocked
                },
                _ => after == TransitionState::Queued,
            }
        }),
{
}

/// Why an attempt to write lock a header or to remove its data is where it is: there is no other way
/// to come there.
pub proof fn law_transition_attempts_are_somewhere_for_a_reason(
    attempt: TransitionAttempt,
    event: Event,
)
    requires
        attempt.wf(),
        attempt.may_happen(event),
    ensures
        ({
            let state = attempt.spec_state();
            let after = attempt.after(event);
            &&& after is Exchanging <==> {
                &&& state is Exchanging
                &&& event matches Event::Observed(word)
                &&& header::decode(word).id == attempt.spec_id()
                &&& header::decode(word).lock == Some(header::Lock::Unlocked)
            }
            &&& after is Entering <==> {
                ||| state is Parking && event is Waited
                ||| state is Exchanging && (event matches Event::Observed(word) && header::decode(
                    word,
                ).id == attempt.spec_id() && header::decode(word).lock != Some(
                    header::Lock::Unlocked,
                ) && attempt.spec_timeout() !is DontBlock)
            }
            &&& after is Queued <==> (state is Entering && event is Entered) || (state is Marking
                && event is Observed)
            &&& after matches TransitionState::Marking(word) ==> {
                &&& state is Queued
                &&& event == Event::Observed(word)
                &&& header::decode(word).id == attempt.spec_id()
            }
        }),
{
}

impl TransitionAttempt {
    /// What comes of the action of the attempt if no other thread changes the word.
    pub open spec fn undisturbed(self, word: u64) -> Event {
        match self.spec_state() {
            TransitionState::Exchanging | TransitionState::Queued => if header::decode(word)
                == self.unlocked() {
                Event::Exchanged
            } else {
                Event::Observed(word)
            },
            TransitionState::Marking(expected) => if expected == word {
                Event::Exchanged
            } else {
                Event::Observed(word)
            },
            TransitionState::Entering => Event::Entered,
            _ => Event::Left,
        }
    }

    /// Whether `next` is this attempt after an action, while no other thread changes the word.
    pub open spec fn goes_on_undisturbed(self, word: u64, next: Self) -> bool {
        &&& next.spec_id() == self.spec_id()
        &&& next.spec_purpose() == self.spec_purpose()
        &&& next.spec_timeout() == self.spec_timeout()
        &&& next.spec_state() == self.after(self.undisturbed(word))
    }
}

/// An attempt to write lock a header or to remove its data that no other thread disturbs does what
/// polling the header does: it succeeds, gives up or times out with the first action, or falls asleep
/// with the fifth one.
pub proof fn law_undisturbed_transitions_do_as_polled(
    word: u64,
    attempt: TransitionAttempt,
    second: TransitionAttempt,
    third: TransitionAttempt,
    fourth: TransitionAttempt,
)
    requires
        attempt.wf(),
        attempt.spec_state() == TransitionState::Exchanging,
        header::decode(word).id == attempt.spec_id() ==> header::decode(word).occupied(),
        attempt.goes_on_undisturbed(word, second),
        second.goes_on_undisturbed(word, third),
        third.goes_on_undisturbed(word, fourth),
    ensures
        ({
            let view = header::decode(word);
            let (id, timeout) = (attempt.spec_id(), attempt.spec_timeout());
            let (polled, choice) = match attempt.spec_purpose() {
                Purpose::LockWrite => view.poll_lock_write(id, timeout),
                Purpose::Remove => view.poll_remove(id, timeout),
            };
            match choice {
                ParkChoice::DontPark(Ok(true)) => {
                    &&& attempt.target() == polled
                    &&& second.spec_state() == TransitionState::Finished(true)
                },
                ParkChoice::DontPark(Ok(false)) => second.spec_state() == TransitionState::Finished(
                    false,
                ),
                ParkChoice::DontPark(Err(_)) => second.spec_state() == TransitionState::TimedOut,
                ParkChoice::Park => {
                    &&& second.spec_state() == TransitionState::Entering
                    &&& third.spec_state() == TransitionState::Queued
                    &&& fourth.spec_state() == TransitionState::Marking(word)
                    &&& fourth.after(Event::Exchanged) == TransitionState::Parking
                },
            }
        }),
{
}

/// Whatever other threads do to the word, an attempt to write lock the header or to remove its data
/// can go on from it, as long as the header is occupied whenever it is under the ID of the attempt.
pub proof fn law_transition_attempts_can_go_on(attempt: TransitionAttempt, word: u64)
    requires
        header::decode(word).id == attempt.spec_id() ==> header::decode(word).occupied(),
    ensures
        match attempt.spec_state() {
            TransitionState::Exchanging => attempt.may_happen(Event::Observed(word))
                && attempt.may_happen(Event::Exchanged),
            TransitionState::Queued => attempt.may_happen(Event::Exchanged) && (header::decode(word)
                != (HeaderView { id: attempt.spec_id(), lock: Some(header::Lock::Unlocked) })
                ==> attempt.may_happen(Event::Observed(word))),
            TransitionState::Marking(expected) => attempt.may_happen(Event::Exchanged) && (word
                != expected ==> attempt.may_happen(Event::Observed(word))),
            TransitionState::Entering => attempt.may_happen(Event::Entered),
            TransitionState::LeavingMatched
            | TransitionState::LeavingMismatched => attempt.may_happen(Event::Left),
            TransitionState::Parking => attempt.may_happen(Event::Waited) && (
            attempt.spec_timeout() is BlockUntil ==> attempt.may_happen(Event::TimedOut)),
            TransitionState::Finished(_) | TransitionState::TimedOut => true,
        },
{
}

/// What an attempt wants the header to become: write locked under the same ID, with nobody waiting,
/// or unoccupied under the next ID.
pub proof fn law_transition_targets(attempt: TransitionAttempt)
    requires
        attempt.wf(),
    ensures
        attempt.unlocked() == (HeaderView {
            id: attempt.spec_id(),
            lock: Some(header::Lock::Unlocked),
        }),
        attempt.spec_purpose() is LockWrite ==> attempt.target() == (HeaderView {
            id: attempt.spec_id(),
            lock: Some(header::Lock::Write { waiting: false }),
        }),
        attempt.spec_purpose() is Remove ==> attempt.target().lock is None && attempt.target().id
            == attempt.spec_id() + 1,
{
}

/// The release of a read lock is finished exactly by the exchange that takes one reader off the word:
/// on every word that it observes it goes on to exchange that very word. It obliges the thread to
/// unpark the parked ones exactly if that reader was the last one and threads wait.
pub proof fn law_releases_finish_with_the_exchange(release: ReadRelease, event: Event)
    requires
        release.wf(),
        release.may_happen(event),
    ensures
        ({
            let state = release.spec_state();
            let after = release.after(event);
            &&& after !is Started
            &&& after is Finished <==> state is Exchanging && event is Exchanged
            &&& after matches ReleaseState::Exchanging(word) ==> event == Event::Observed(word)
            &&& event matches Event::Observed(word) ==> after == ReleaseState::Exchanging(word)
            &&& state matches ReleaseState::Exchanging(word) ==> (
            after matches ReleaseState::Finished(must_unpark) ==> (must_unpark <==> header::decode(
                word,
            ).lock == Some(header::Lock::Read { readers: 1, waiting: true })))
        }),
{
    if let ReleaseState::Exchanging(word) = release.spec_state() {
        lemma_word_wf(word);
    }
}

/// Whatever other threads do to the word, the release of a read lock can go on from it, as long as
/// the header counts that lock.
pub proof fn law_releases_can_go_on(release: ReadRelease, word: u64)
    requires
        header::decode(word).id == release.spec_id(),
        header::decode(word).read_locked(),
    ensures
        match release.spec_state() {
            ReleaseState::Started => release.may_happen(Event::Observed(word)),
            ReleaseState::Exchanging(_) => release.may_happen(Event::Observed(word))
                && release.may_happen(Event::Exchanged),
            ReleaseState::Finished(_) => true,
        },
{
}

} // verus!
