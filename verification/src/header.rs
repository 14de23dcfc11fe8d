//! A read-write lock with ID matching, packed into a single word.
//!
//! The word is meant to be shared between threads and updated by compare-and-exchange. Every
//! update replaces the value that was observed by one computed from it alone, so this module is
//! split in two:
//! * Functions from an observed word to the next one, and to what the calling thread has to do.
//!   These hold whatever other threads did to the word before it was observed.
//! * [Header], which applies them to a word that the caller has exclusive access to.

use vstd::prelude::*;

use crate::timeout::{BlockResult, TimedOut, Timeout};
use crate::util::sync::park::{Park, ParkChoice, ParkResult};

verus! {

/// The ID that no element ever has.
pub const RESERVED_ID: u32 = 0xffff_ffff;

/// The maximum number of read locks which can be held concurrently.
pub const MAX_CONCURRENT_READS: u32 = 0x7fff_fffe;

/// The lock of an occupied header.
///
/// `waiting` says whether threads may be parked on the header. There are never any threads parked
/// on an unlocked one.
#[derive(Debug, Copy, Clone, Eq, PartialEq, Hash, Structural)]
pub enum Lock {
    Unlocked,
    Read { readers: u32, waiting: bool },
    Write { waiting: bool },
}

impl Lock {
    pub open spec fn waiting(self) -> bool {
        match self {
            Lock::Unlocked => false,
            Lock::Read { waiting, .. } => waiting,
            Lock::Write { waiting } => waiting,
        }
    }

    /// The number of read locks held.
    pub open spec fn readers(self) -> nat {
        match self {
            Lock::Read { readers, .. } => readers as nat,
            _ => 0,
        }
    }

    /// The lock with one more reader.
    pub open spec fn after_lock_read(self) -> Lock {
        match self {
            Lock::Read { readers, waiting } => Lock::Read {
                readers: (readers + 1) as u32,
                waiting,
            },
            _ => Lock::Read { readers: 1, waiting: false },
        }
    }

    /// The lock with one reader fewer. The last reader leaves no threads waiting.
    pub open spec fn after_unlock_read(self) -> Lock {
        match self {
            Lock::Read { readers, waiting } => if readers == 1 {
                Lock::Unlocked
            } else {
                Lock::Read { readers: (readers - 1) as u32, waiting }
            },
            _ => Lock::Unlocked,
        }
    }

    /// The lock once a thread is about to park on it.
    pub open spec fn after_mark(self) -> Lock {
        match self {
            Lock::Unlocked => Lock::Unlocked,
            Lock::Read { readers, .. } => Lock::Read { readers, waiting: true },
            Lock::Write { .. } => Lock::Write { waiting: true },
        }
    }
}

/// What a header's word stands for: the ID of the guarded data and its lock if the header is
/// occupied, or the next ID if it is not.
#[derive(Debug, Copy, Clone, Eq, PartialEq, Hash, Structural)]
pub struct HeaderView {
    pub id: u32,
    pub lock: Option<Lock>,
}

impl HeaderView {
    pub open spec fn occupied(self) -> bool {
        self.lock is Some
    }

    pub open spec fn unlocked(self) -> bool {
        self.lock == Some(Lock::Unlocked)
    }

    pub open spec fn locked(self) -> bool {
        self.lock is Some && self.lock->0 !is Unlocked
    }

    pub open spec fn read_locked(self) -> bool {
        self.lock is Some && self.lock->0 is Read
    }

    pub open spec fn write_locked(self) -> bool {
        self.lock is Some && self.lock->0 is Write
    }

    pub open spec fn waiting(self) -> bool {
        self.lock is Some && self.lock->0.waiting()
    }

    /// The number of read locks held.
    pub open spec fn readers(self) -> nat {
        match self.lock {
            Some(lock) => lock.readers(),
            None => 0,
        }
    }

    /// Whether the view can be packed into a word.
    pub open spec fn wf(self) -> bool {
        self.lock matches Some(Lock::Read { readers, .. }) ==> 0 < readers <= MAX_CONCURRENT_READS
    }

    /// The header once it guards data under `id`.
    pub open spec fn after_insert(self, id: u32) -> HeaderView {
        HeaderView { id, lock: Some(Lock::Unlocked) }
    }

    /// The occupied header with one more read lock.
    pub open spec fn after_lock_read(self) -> HeaderView {
        HeaderView { id: self.id, lock: Some(self.lock->0.after_lock_read()) }
    }

    /// The occupied header with one read lock fewer.
    pub open spec fn after_unlock_read(self) -> HeaderView {
        HeaderView { id: self.id, lock: Some(self.lock->0.after_unlock_read()) }
    }

    pub open spec fn after_lock_write(self) -> HeaderView {
        HeaderView { id: self.id, lock: Some(Lock::Write { waiting: false }) }
    }

    pub open spec fn after_unlock_write(self) -> HeaderView {
        HeaderView { id: self.id, lock: Some(Lock::Unlocked) }
    }

    /// The header once its data is gone: unoccupied, under the next ID.
    pub open spec fn after_remove(self) -> HeaderView {
        HeaderView { id: (self.id + 1) as u32, lock: None }
    }

    /// The occupied header once a thread is about to park on it.
    pub open spec fn after_mark(self) -> HeaderView {
        HeaderView { id: self.id, lock: Some(self.lock->0.after_mark()) }
    }

    /// What becomes of the header, and what a thread has to do, when it asks for a read lock on the
    /// data under `id`.
    pub open spec fn poll_lock_read(self, id: u32, timeout: Timeout) -> (
        HeaderView,
        ParkChoice<BlockResult<bool>>,
    ) {
        if self.id != id {
            (self, ParkChoice::DontPark(Ok(false)))
        } else if !self.write_locked() {
            (self.after_lock_read(), ParkChoice::DontPark(Ok(true)))
        } else if timeout is DontBlock {
            (self, ParkChoice::DontPark(Err(TimedOut)))
        } else {
            (self.after_mark(), ParkChoice::Park)
        }
    }

    /// What becomes of the header, and what a thread has to do, when it wants to move the header
    /// from guarding unlocked data under `id` to `new`.
    pub open spec fn poll_transition(self, id: u32, new: HeaderView, timeout: Timeout) -> (
        HeaderView,
        ParkChoice<BlockResult<bool>>,
    ) {
        if self.id != id {
            (self, ParkChoice::DontPark(Ok(false)))
        } else if self.unlocked() {
            (new, ParkChoice::DontPark(Ok(true)))
        } else if timeout is DontBlock {
            (self, ParkChoice::DontPark(Err(TimedOut)))
        } else {
            (self.after_mark(), ParkChoice::Park)
        }
    }

    /// What becomes of the header, and what a thread has to do, when it asks for a write lock on
    /// the data under `id`.
    pub open spec fn poll_lock_write(self, id: u32, timeout: Timeout) -> (
        HeaderView,
        ParkChoice<BlockResult<bool>>,
    ) {
        self.poll_transition(id, self.after_lock_write(), timeout)
    }

    /// What becomes of the header, and what a thread has to do, when it wants to remove the data
    /// under `id`.
    pub open spec fn poll_remove(self, id: u32, timeout: Timeout) -> (
        HeaderView,
        ParkChoice<BlockResult<bool>>,
    ) {
        self.poll_transition(id, self.after_remove(), timeout)
    }

    /// Whether giving up a read lock obliges the thread to unpark the threads that wait.
    pub open spec fn unlock_read_unparks(self) -> bool {
        self.readers() == 1 && self.waiting()
    }

    /// Whether giving up the write lock obliges the thread to unpark the threads that wait.
    pub open spec fn unlock_write_unparks(self) -> bool {
        self.waiting()
    }
}

// The layout of a word is as follows:
// * The most significant bit is the thread notification bit. This is set when no threads are
//   blocking on the header and is unset when there are threads blocking. The behavior of this
//   bit is the opposite what you might expect because the most significant 32 bits being unset
//   represents a special state.
// * The next 31 most significant bits store the number of readers or is all ones if the header
//   is write locked. If the header is unlocked, these bits will be zero.
// * There are never any threads blocking on an unlocked header, so it is invalid for the thread
//   notification bit to be unset (indicating one or more waiting threads) and for the reader
//   bits to be all unset. This bit pattern instead represents the header being in an unoccupied
//   state.
// * The lower 32 bits store the ID if the header is occupied, or store the next ID if the
//   header is unoccupied.

pub open spec fn id_of(bits: u64) -> u32 {
    (bits % 0x1_0000_0000) as u32
}

pub open spec fn readers_of(bits: u64) -> u32 {
    ((bits / 0x1_0000_0000) % 0x8000_0000) as u32
}

pub open spec fn notification_bit_unset(bits: u64) -> bool {
    bits < 0x8000_0000_0000_0000
}

pub open spec fn lock_of(bits: u64) -> Option<Lock> {
    if bits < 0x1_0000_0000 {
        None
    } else if readers_of(bits) == 0 {
        Some(Lock::Unlocked)
    } else if readers_of(bits) == 0x7fff_ffff {
        Some(Lock::Write { waiting: notification_bit_unset(bits) })
    } else {
        Some(Lock::Read { readers: readers_of(bits), waiting: notification_bit_unset(bits) })
    }
}

/// What a word stands for.
pub open spec fn decode(bits: u64) -> HeaderView {
    HeaderView { id: id_of(bits), lock: lock_of(bits) }
}

/// The word that stands for a view.
pub open spec fn encode(view: HeaderView) -> u64 {
    let lock: int = match view.lock {
        None => 0,
        Some(Lock::Unlocked) => 0x8000_0000,
        Some(Lock::Read { readers, waiting }) => readers + if waiting {
            0int
        } else {
            0x8000_0000
        },
        Some(Lock::Write { waiting }) => if waiting {
            0x7fff_ffff
        } else {
            0xffff_ffff
        },
    };
    (lock * 0x1_0000_0000 + view.id) as u64
}

/// Every word stands for exactly one view, and every view is packed into exactly one word.
pub proof fn law_layout_is_unambiguous(bits: u64, view: HeaderView)
    requires
        view.wf(),
    ensures
        decode(bits).wf(),
        encode(decode(bits)) == bits,
        decode(encode(view)) == view,
{
}

proof fn lemma_fields(bits: u64)
    by (bit_vector)
    ensures
        bits as u32 == bits % 0x1_0000_0000,
        bits >> 32 == bits / 0x1_0000_0000,
        (bits >> 32) as u32 & !(1u32 << 31) == (bits / 0x1_0000_0000) % 0x8000_0000,
        (bits & (1u64 << 63) == 0) <==> bits < 0x8000_0000_0000_0000,
        bits & !(1u64 << 63) == bits % 0x8000_0000_0000_0000,
        bits < 0x8000_0000_0000_0000 ==> (bits | (1u64 << 63)) == bits + 0x8000_0000_0000_0000,
        bits >= 0x8000_0000_0000_0000 ==> (bits | (1u64 << 63)) == bits,
        !(1u32 << 31) == 0x7fff_ffff,
{
}

proof fn lemma_packed_id(id: u32)
    by (bit_vector)
    ensures
        (1u64 << 63) | (id as u64) == id + 0x8000_0000_0000_0000,
        (id as u64) | (0xffff_ffffu64 << 32) == id + 0xffff_ffff_0000_0000,
{
}

/// What a thread that wants to read lock a header has to do about the word that it observed.
#[derive(Debug, Copy, Clone, Eq, PartialEq, Hash, Structural)]
pub enum ReadStep {
    /// The header guards other data: give up.
    Mismatch,
    /// The header is write locked: wait, as far as the timeout allows it.
    WriteLocked,
    /// No more read locks can be counted.
    TooManyReaders,
    /// Exchange the observed word for this one. Observe the word anew if that fails.
    Exchange(u64),
}

/// What a thread whose exchange of an expected word failed has to do about the actual one.
#[derive(Debug, Copy, Clone, Eq, PartialEq, Hash, Structural)]
pub enum TransitionStep {
    /// The header guards other data: give up.
    Mismatch,
    /// The header is locked: wait, as far as the timeout allows it.
    Locked,
    /// The exchange failed for no lasting reason: try it again.
    Retry,
}

/// What an operation decided about a word that it observed while no thread could be unparked.
#[derive(Debug, Eq, PartialEq)]
pub enum BlockChoice<T> {
    /// To block, if the header's word is still this one.
    Block(u64),
    DontBlock(T),
}

/// What came of an attempt to read lock a header while no thread could be unparked.
#[derive(Debug, Copy, Clone, Eq, PartialEq, Hash, Structural)]
pub enum ReadResponse {
    Matched(u64),
    Mismatch,
}

#[derive(Debug, Copy, Clone, Eq, PartialEq, Hash, Structural)]
pub enum RemoveResult {
    Matched { may_reuse: bool },
    DidntMatch,
}

/// What follows from the removal of write locked data.
#[derive(Debug, Copy, Clone, Eq, PartialEq, Hash, Structural)]
pub struct LockedRemoval {
    /// Whether the header can be occupied again.
    pub may_reuse: bool,
    /// Whether the threads that are parked on the header have to be unparked.
    pub must_unpark: bool,
}

/// A read-write lock with ID matching. As well as the lock state, a header stores an ID for
/// the data it is guarding. Many operations on the header take an ID which is compared to the
/// stored ID to determine whether to proceed with the operation.
pub struct Header {
    state: Park<u64>,
}

impl View for Header {
    type V = HeaderView;

    closed spec fn view(&self) -> HeaderView {
        decode(self.state.inner)
    }
}

// Words.
impl Header {
    pub fn unoccupied_bits(id: u32) -> (bits: u64)
        ensures
            decode(bits) == (HeaderView { id, lock: None }),
            bits == id,
    {
        id as u64
    }

    pub fn occupied_unlocked_bits(id: u32) -> (bits: u64)
        ensures
            decode(bits) == (HeaderView { id, lock: Some(Lock::Unlocked) }),
            bits == encode(HeaderView { id, lock: Some(Lock::Unlocked) }),
    {
        proof {
            lemma_packed_id(id);
        }
        Self::thread_notification_mask() | Self::unoccupied_bits(id)
    }

    pub fn thread_notification_mask() -> (mask: u64)
        ensures
            mask == 1u64 << 63,
    {
        1u64 << 63
    }

    pub fn is_occupied(state: u64) -> (occupied: bool)
        ensures
            occupied == decode(state).occupied(),
        opens_invariants none
        no_unwind
    {
        proof {
            lemma_fields(state);
        }
        state >> 32 != 0
    }

    pub fn write_locked_bits(id: u32) -> (bits: u64)
        ensures
            decode(bits) == (HeaderView { id, lock: Some(Lock::Write { waiting: false }) }),
    {
        proof {
            lemma_packed_id(id);
        }
        (id as u64) | (0xffff_ffffu64 << 32)
    }

    pub fn id_from_bits(bits: u64) -> (id: u32)
        ensures
            id == decode(bits).id,
    {
        proof {
            lemma_fields(bits);
        }
        bits as u32
    }

    /// The number of readers, or all ones if the header is write locked.
    pub fn readers_from_bits(bits: u64) -> (readers: u32)
        ensures
            readers == readers_of(bits),
    {
        proof {
            lemma_fields(bits);
        }
        (bits >> 32) as u32 & !(1u32 << 31)
    }

    pub fn is_write_locked(bits: u64) -> (locked: bool)
        ensures
            locked == decode(bits).write_locked(),
    {
        proof {
            lemma_fields(bits);
        }
        Self::readers_from_bits(bits) == !(1u32 << 31)
    }

    pub fn has_thread_blocking(bits: u64) -> (blocking: bool)
        requires
            decode(bits).occupied(),
        ensures
            blocking == decode(bits).waiting(),
    {
        proof {
            lemma_fields(bits);
        }
        bits & Self::thread_notification_mask() == 0
    }

    pub fn mark_thread_blocking(bits: u64) -> (marked: u64)
        requires
            decode(bits).locked(),
            decode(bits).id != RESERVED_ID,
        ensures
            decode(marked) == decode(bits).after_mark(),
    {
        proof {
            lemma_fields(bits);
        }
        bits & !Self::thread_notification_mask()
    }

    pub fn unmark_thread_blocking(bits: u64) -> (unmarked: u64)
        ensures
            unmarked == if notification_bit_unset(bits) {
                bits + 0x8000_0000_0000_0000
            } else {
                bits as int
            },
    {
        proof {
            lemma_fields(bits);
        }
        bits | Self::thread_notification_mask()
    }

    pub fn increment_readers(bits: u64) -> (incremented: u64)
        requires
            !decode(bits).write_locked(),
            decode(bits).readers() != MAX_CONCURRENT_READS,
            decode(bits).id != RESERVED_ID,
        ensures
            incremented == bits + 0x1_0000_0000,
            decode(bits).occupied() ==> decode(incremented) == decode(bits).after_lock_read(),
    {
        bits + 0x1_0000_0000
    }

    pub fn decrement_readers(bits: u64) -> (decremented: u64)
        requires
            readers_of(bits) != 0,
        ensures
            decremented == bits - 0x1_0000_0000,
    {
        bits - 0x1_0000_0000
    }
}

/// The outcome of a choice for a thread that no other thread can unpark: it can only wait until its
/// deadline has passed.
pub open spec fn outcome_alone<T>(choice: ParkChoice<BlockResult<T>>) -> BlockResult<T> {
    match choice {
        ParkChoice::Park => Err(TimedOut),
        ParkChoice::DontPark(result) => result,
    }
}

// Decisions about an observed word.
impl Header {
    /// Decides how a thread that wants a read lock on the data under `id` proceeds from the word
    /// that it observed. If the IDs match the header must be occupied.
    pub fn lock_read_with_current(id: u32, current: u64) -> (step: ReadStep)
        requires
            id != RESERVED_ID,
            decode(current).id == id ==> decode(current).occupied(),
        ensures
            ({
                let view = decode(current);
                match step {
                    ReadStep::Mismatch => view.id != id,
                    ReadStep::WriteLocked => view.id == id && view.write_locked(),
                    ReadStep::TooManyReaders => view.id == id && view.readers()
                        == MAX_CONCURRENT_READS,
                    ReadStep::Exchange(new) => view.id == id && !view.write_locked()
                        && view.readers() != MAX_CONCURRENT_READS && decode(new)
                        == view.after_lock_read(),
                }
            }),
    {
        if Self::id_from_bits(current) != id {
            return ReadStep::Mismatch;
        }
        if Self::is_write_locked(current) {
            return ReadStep::WriteLocked;
        }
        if Self::readers_from_bits(current) == MAX_CONCURRENT_READS {
            return ReadStep::TooManyReaders;
        }
        ReadStep::Exchange(Self::increment_readers(current))
    }

    /// Decides whether a thread that wants a read lock on the data under `id` blocks, from the word
    /// that it observed.
    pub fn lock_read_choice(id: u32, current: u64) -> (choice: BlockChoice<ReadResponse>)
        ensures
            decode(current).id != id ==> choice == BlockChoice::<ReadResponse>::DontBlock(
                ReadResponse::Mismatch,
            ),
            decode(current).id == id && decode(current).write_locked() ==> choice
                == BlockChoice::<ReadResponse>::Block(current),
            decode(current).id == id && !decode(current).write_locked() ==> choice
                == BlockChoice::<ReadResponse>::DontBlock(ReadResponse::Matched(current)),
    {
        if Self::id_from_bits(current) != id {
            return BlockChoice::DontBlock(ReadResponse::Mismatch);
        }
        if Self::is_write_locked(current) {
            return BlockChoice::Block(current);
        }
        BlockChoice::DontBlock(ReadResponse::Matched(current))
    }

    /// Computes the word without one of the read locks that the observed word counts, and whether
    /// the threads that are parked on the header have to be unparked once the word is exchanged.
    pub fn unlock_read_with_current(id: u32, current: u64) -> (step: (u64, bool))
        requires
            decode(current).id == id,
            decode(current).read_locked(),
        ensures
            decode(step.0) == decode(current).after_unlock_read(),
            step.1 == decode(current).unlock_read_unparks(),
    {
        let must_unpark = Self::has_thread_blocking(current) && Self::readers_from_bits(current)
            == 1;

        let new = if must_unpark {
            Self::unmark_thread_blocking(Self::decrement_readers(current))
        } else {
            Self::decrement_readers(current)
        };

        (new, must_unpark)
    }

    /// Decides how a thread proceeds whose exchange of `expected` failed because the word was
    /// `actual`, or for no reason at all.
    pub fn transition_with_actual(expected: u64, actual: u64) -> (step: TransitionStep)
        ensures
            step == (if decode(actual).id != decode(expected).id {
                TransitionStep::Mismatch
            } else if decode(actual).locked() {
                TransitionStep::Locked
            } else {
                TransitionStep::Retry
            }),
    {
        if Self::id_from_bits(actual) == Self::id_from_bits(expected) {
            if Self::readers_from_bits(actual) > 0 {
                TransitionStep::Locked
            } else {
                TransitionStep::Retry
            }
        } else {
            TransitionStep::Mismatch
        }
    }

    /// Decides whether a thread blocks whose exchange of `expected` failed because the word was
    /// `actual`.
    pub fn transition_choice(expected: u64, actual: u64) -> (choice: BlockChoice<bool>)
        ensures
            choice == (if decode(actual).id == decode(expected).id {
                BlockChoice::Block(actual)
            } else {
                BlockChoice::DontBlock(false)
            }),
    {
        if Self::id_from_bits(actual) == Self::id_from_bits(expected) {
            BlockChoice::Block(actual)
        } else {
            BlockChoice::DontBlock(false)
        }
    }

    /// Concludes an operation that may have parked the calling thread: it fails if the thread timed
    /// out, has its result if the thread did not park, and has to be run again if the thread waited.
    pub fn block<T>(result: ParkResult<BlockResult<T>>) -> (conclusion: Option<BlockResult<T>>)
        ensures
            conclusion == (match result {
                ParkResult::Waited => None,
                ParkResult::TimedOut => Some(Err(TimedOut)),
                ParkResult::DidntPark(result) => Some(result),
            }),
    {
        match result {
            ParkResult::Waited => None,
            ParkResult::TimedOut => Some(Err(TimedOut)),
            ParkResult::DidntPark(result) => Some(result),
        }
    }
}

// Operations on a word that the caller has exclusive access to.
impl Header {
    closed spec fn bits(self) -> u64 {
        self.state.inner
    }

    pub fn new() -> (header: Self)
        ensures
            header@ == (HeaderView { id: 0, lock: None }),
    {
        let state = Self::unoccupied_bits(0);
        Self { state: Park::new(state) }
    }

    fn compare_exchange(&mut self, expected: u64, new: u64) -> (result: Result<u64, u64>)
        ensures
            old(self).bits() == expected ==> result == Ok::<u64, u64>(expected)
                && final(self).bits() == new,
            old(self).bits() != expected ==> result == Err::<u64, u64>(old(self).bits())
                && final(self).bits() == old(self).bits(),
    {
        let actual = self.state.inner;
        if actual == expected {
            self.state.inner = new;
            Ok(actual)
        } else {
            Err(actual)
        }
    }

    /// Marks the header and has the thread park if an operation decided to block on the header's
    /// current word.
    fn block_result_to_park_result<T>(&mut self, choice: BlockChoice<T>) -> (park_choice:
        ParkChoice<T>)
        requires
            choice matches BlockChoice::Block(expected) ==> expected == old(self).bits()
                && old(self)@.locked() && old(self)@.id != RESERVED_ID,
        ensures
            match choice {
                BlockChoice::Block(_) => park_choice is Park && final(self)@ == old(self)@.after_mark(),
                BlockChoice::DontBlock(result) => park_choice == ParkChoice::DontPark(result)
                    && *final(self) == *old(self),
            },
    {
        match choice {
            BlockChoice::Block(expected_state) => {
                let new_state = Self::mark_thread_blocking(expected_state);
                let _ = self.compare_exchange(expected_state, new_state);
                ParkChoice::Park
            },
            BlockChoice::DontBlock(result) => ParkChoice::DontPark(result),
        }
    }

    /// Read locks the header if its ID matches and it is not write locked, or says that the calling
    /// thread has to park. If the IDs match the header must be occupied.
    pub fn poll_lock_read(&mut self, id: u32, timeout: Timeout) -> (choice: ParkChoice<
        BlockResult<bool>,
    >)
        requires
            id != RESERVED_ID,
            old(self)@.id == id ==> old(self)@.occupied() && old(self)@.readers()
                != MAX_CONCURRENT_READS,
        ensures
            (final(self)@, choice) == old(self)@.poll_lock_read(id, timeout),
    {
        let current = self.state.inner;
        match Self::lock_read_with_current(id, current) {
            ReadStep::Mismatch => ParkChoice::DontPark(Ok(false)),
            ReadStep::TooManyReaders => vstd::pervasive::unreached(),
            ReadStep::WriteLocked => self.lock_read_slow(id, timeout),
            ReadStep::Exchange(new) => {
                let _ = self.compare_exchange(current, new);
                ParkChoice::DontPark(Ok(true))
            },
        }
    }

    fn lock_read_slow(&mut self, id: u32, timeout: Timeout) -> (choice: ParkChoice<
        BlockResult<bool>,
    >)
        requires
            id != RESERVED_ID,
            old(self)@.id == id ==> old(self)@.occupied() && old(self)@.readers()
                != MAX_CONCURRENT_READS,
        ensures
            (final(self)@, choice) == if timeout is DontBlock {
                (old(self)@, ParkChoice::DontPark(Err(TimedOut)))
            } else {
                old(self)@.poll_lock_read(id, timeout)
            },
    {
        match timeout {
            Timeout::DontBlock => {
                return ParkChoice::DontPark(Err(TimedOut));
            },
            _ => {},
        }

        let choice = Self::lock_read_choice(id, self.state.inner);
        match self.block_result_to_park_result(choice) {
            ParkChoice::Park => ParkChoice::Park,
            ParkChoice::DontPark(ReadResponse::Matched(current)) => {
                let _ = self.compare_exchange(current, Self::increment_readers(current));
                ParkChoice::DontPark(Ok(true))
            },
            ParkChoice::DontPark(ReadResponse::Mismatch) => ParkChoice::DontPark(Ok(false)),
        }
    }

    /// Read locks the header if its ID matches. If the IDs match the header must be occupied.
    ///
    /// As the caller has exclusive access, waiting for a write lock to be released is in vain: this
    /// fails, unless the timeout would have it wait forever.
    pub fn lock_read(&mut self, id: u32, timeout: Timeout) -> (result: BlockResult<bool>)
        requires
            id != RESERVED_ID,
            old(self)@.id == id ==> old(self)@.occupied() && old(self)@.readers()
                != MAX_CONCURRENT_READS,
            old(self)@.id == id && old(self)@.write_locked() ==> !(timeout is BlockIndefinitely),
        ensures
            final(self)@ == old(self)@.poll_lock_read(id, timeout).0,
            result == outcome_alone(old(self)@.poll_lock_read(id, timeout).1),
    {
        match self.poll_lock_read(id, timeout) {
            ParkChoice::Park => Err(TimedOut),
            ParkChoice::DontPark(result) => result,
        }
    }

    /// Determines whether as many read locks are held on the data under `id` as can be. If the IDs
    /// match the header must be occupied.
    pub fn has_too_many_readers(&self, id: u32) -> (too_many: bool)
        requires
            id != RESERVED_ID,
            self@.id == id ==> self@.occupied(),
        ensures
            too_many == (self@.id == id && self@.readers() == MAX_CONCURRENT_READS),
    {
        match Self::lock_read_with_current(id, self.state.inner) {
            ReadStep::TooManyReaders => true,
            _ => false,
        }
    }

    /// Read unlocks the header, and says whether the threads that are parked on it have to be
    /// unparked. The header must be currently read locked and the ID must match the header's
    /// current ID.
    pub fn unlock_read(&mut self, id: u32) -> (must_unpark: bool)
        requires
            old(self)@.id == id,
            old(self)@.read_locked(),
        ensures
            final(self)@ == old(self)@.after_unlock_read(),
            must_unpark == old(self)@.unlock_read_unparks(),
    {
        let current = self.state.inner;
        let (new, must_unpark) = Self::unlock_read_with_current(id, current);
        let _ = self.compare_exchange(current, new);
        must_unpark
    }

    /// Sets the word of the header to the new one if it is currently the expected one, which stands
    /// for unlocked data. If the data under the expected ID is locked, the calling thread has to
    /// park. If the ID of the header is different to the expected ID, this will fail.
    fn transition(&mut self, expected: u64, new: u64, timeout: Timeout) -> (choice: ParkChoice<
        BlockResult<bool>,
    >)
        requires
            decode(expected).unlocked(),
            decode(expected).id != RESERVED_ID,
            old(self)@.id == decode(expected).id ==> old(self)@.occupied(),
        ensures
            (final(self)@, choice) == old(self)@.poll_transition(
                decode(expected).id,
                decode(new),
                timeout,
            ),
    {
        proof {
            law_layout_is_unambiguous(expected, self@);
            law_layout_is_unambiguous(self.bits(), self@);
        }
        match self.compare_exchange(expected, new) {
            Ok(_) => ParkChoice::DontPark(Ok(true)),
            Err(actual) => match Self::transition_with_actual(expected, actual) {
                TransitionStep::Mismatch => ParkChoice::DontPark(Ok(false)),
                TransitionStep::Retry => vstd::pervasive::unreached(),
                TransitionStep::Locked => self.transition_slow(expected, new, timeout),
            },
        }
    }

    fn transition_slow(&mut self, expected: u64, new: u64, timeout: Timeout) -> (choice: ParkChoice<
        BlockResult<bool>,
    >)
        requires
            decode(expected).unlocked(),
            decode(expected).id != RESERVED_ID,
            old(self)@.id == decode(expected).id ==> old(self)@.occupied(),
        ensures
            (final(self)@, choice) == if timeout is DontBlock {
                (old(self)@, ParkChoice::DontPark(Err(TimedOut)))
            } else {
                old(self)@.poll_transition(decode(expected).id, decode(new), timeout)
            },
    {
        match timeout {
            Timeout::DontBlock => {
                return ParkChoice::DontPark(Err(TimedOut));
            },
            _ => {},
        }

        proof {
            law_layout_is_unambiguous(expected, self@);
            law_layout_is_unambiguous(self.bits(), self@);
        }
        let choice = match self.compare_exchange(expected, new) {
            Ok(_) => BlockChoice::DontBlock(true),
            Err(actual) => Self::transition_choice(expected, actual),
        };
        match self.block_result_to_park_result(choice) {
            ParkChoice::Park => ParkChoice::Park,
            ParkChoice::DontPark(matched) => ParkChoice::DontPark(Ok(matched)),
        }
    }

    /// Write locks the header if its ID matches and it is not locked, or says that the calling
    /// thread has to park. If the IDs match the header must be occupied.
    pub fn poll_lock_write(&mut self, id: u32, timeout: Timeout) -> (choice: ParkChoice<
        BlockResult<bool>,
    >)
        requires
            id != RESERVED_ID,
            old(self)@.id == id ==> old(self)@.occupied(),
        ensures
            (final(self)@, choice) == old(self)@.poll_lock_write(id, timeout),
    {
        self.transition(Self::occupied_unlocked_bits(id), Self::write_locked_bits(id), timeout)
    }

    /// Write locks the header if its ID matches. If the IDs match the header must be occupied.
    ///
    /// As the caller has exclusive access, waiting for a lock to be released is in vain: this fails,
    /// unless the timeout would have it wait forever.
    pub fn lock_write(&mut self, id: u32, timeout: Timeout) -> (result: BlockResult<bool>)
        requires
            id != RESERVED_ID,
            old(self)@.id == id ==> old(self)@.occupied(),
            old(self)@.id == id && old(self)@.locked() ==> !(timeout is BlockIndefinitely),
        ensures
            final(self)@ == old(self)@.poll_lock_write(id, timeout).0,
            result == outcome_alone(old(self)@.poll_lock_write(id, timeout).1),
    {
        match self.poll_lock_write(id, timeout) {
            ParkChoice::Park => Err(TimedOut),
            ParkChoice::DontPark(result) => result,
        }
    }

    /// Write unlocks the header, and says whether the threads that are parked on it have to be
    /// unparked. The header must be currently write locked and the ID must match this header's
    /// current ID.
    pub fn unlock_write(&mut self, id: u32) -> (must_unpark: bool)
        requires
            old(self)@.id == id,
            old(self)@.write_locked(),
        ensures
            final(self)@ == old(self)@.after_unlock_write(),
            must_unpark == old(self)@.unlock_write_unparks(),
    {
        let old = self.state.inner;
        self.state.inner = Self::occupied_unlocked_bits(id);
        Self::has_thread_blocking(old)
    }

    /// Moves the header from an unoccupied state into an occupied one, returning the ID of the
    /// newly occupied header. The header must be in an unoccupied state.
    pub fn occupy(&mut self) -> (id: u32)
        requires
            !old(self)@.occupied(),
            old(self)@.id != RESERVED_ID,
        ensures
            id == old(self)@.id,
            final(self)@ == old(self)@.after_insert(id),
    {
        let old = self.state.inner;
        proof {
            lemma_fields(old);
        }
        self.state.inner = old | Self::thread_notification_mask();
        Self::id_from_bits(old)
    }

    /// Moves the header from an unoccupied state into an occupied one under the given ID. The header
    /// must be in an unoccupied state.
    pub fn insert(&mut self, id: u32)
        requires
            !old(self)@.occupied(),
            id != RESERVED_ID,
        ensures
            final(self)@ == old(self)@.after_insert(id),
    {
        self.state.inner = Self::occupied_unlocked_bits(id);
    }

    /// Increments the ID of the header and moves it into the unoccupied state if the ID matches, or
    /// says that the calling thread has to park. If the IDs match, the header must be occupied.
    pub fn poll_remove(&mut self, id: u32, timeout: Timeout) -> (choice: ParkChoice<
        BlockResult<RemoveResult>,
    >)
        requires
            id != RESERVED_ID,
            old(self)@.id == id ==> old(self)@.occupied(),
        ensures
            final(self)@ == old(self)@.poll_remove(id, timeout).0,
            choice == remove_choice(id, old(self)@.poll_remove(id, timeout).1),
    {
        let next_id = id + 1;
        match self.transition(
            Self::occupied_unlocked_bits(id),
            Self::unoccupied_bits(next_id),
            timeout,
        ) {
            ParkChoice::Park => ParkChoice::Park,
            ParkChoice::DontPark(Ok(true)) => ParkChoice::DontPark(
                Ok(RemoveResult::Matched { may_reuse: next_id != RESERVED_ID }),
            ),
            ParkChoice::DontPark(Ok(false)) => ParkChoice::DontPark(Ok(RemoveResult::DidntMatch)),
            ParkChoice::DontPark(Err(error)) => ParkChoice::DontPark(Err(error)),
        }
    }

    /// Increments the ID of the header and moves it into the unoccupied state if the ID matches. If
    /// the IDs match, the header must be occupied.
    ///
    /// As the caller has exclusive access, waiting for a lock to be released is in vain: this fails,
    /// unless the timeout would have it wait forever.
    pub fn remove(&mut self, id: u32, timeout: Timeout) -> (result: BlockResult<RemoveResult>)
        requires
            id != RESERVED_ID,
            old(self)@.id == id ==> old(self)@.occupied(),
            old(self)@.id == id && old(self)@.locked() ==> !(timeout is BlockIndefinitely),
        ensures
            final(self)@ == old(self)@.poll_remove(id, timeout).0,
            result == outcome_alone(remove_choice(id, old(self)@.poll_remove(id, timeout).1)),
    {
        match self.poll_remove(id, timeout) {
            ParkChoice::Park => Err(TimedOut),
            ParkChoice::DontPark(result) => result,
        }
    }

    /// Write unlocks the header, increments the ID and moves it into the unoccupied state. The
    /// header's ID must match and it must be in the write locked state.
    pub fn remove_locked(&mut self, id: u32) -> (removal: LockedRemoval)
        requires
            id != RESERVED_ID,
            old(self)@.id == id,
            old(self)@.write_locked(),
        ensures
            final(self)@ == old(self)@.after_remove(),
            removal.may_reuse == (id + 1 != RESERVED_ID),
            removal.must_unpark == old(self)@.unlock_write_unparks(),
    {
        let next_id = id + 1;
        let old = self.state.inner;
        self.state.inner = Self::unoccupied_bits(next_id);
        LockedRemoval {
            may_reuse: next_id != RESERVED_ID,
            must_unpark: Self::has_thread_blocking(old),
        }
    }

    /// Determines whether or not the header is tracking an element.
    pub fn needs_drop(&self) -> (needs_drop: bool)
        ensures
            needs_drop == self@.occupied(),
        opens_invariants none
        no_unwind
    {
        Self::is_occupied(self.state.inner)
    }

    /// Determines the ID the header is currently tracking.
    pub fn id(&self) -> (id: u32)
        ensures
            id == self@.id,
    {
        Self::id_from_bits(self.state.inner)
    }

    pub fn id_if_occupied(&self) -> (id: Option<u32>)
        ensures
            id == if self@.occupied() {
                Some(self@.id)
            } else {
                None
            },
    {
        let state = self.state.inner;
        if Self::is_occupied(state) {
            Some(Self::id_from_bits(state))
        } else {
            None
        }
    }

    /// Puts the header into the unoccupied state, returning the header's ID if it was occupied. The
    /// header must not be locked.
    pub fn reset(&mut self) -> (id: Option<u32>)
        requires
            !old(self)@.locked(),
        ensures
            id == if old(self)@.occupied() {
                Some(old(self)@.id)
            } else {
                None
            },
            final(self)@ == (HeaderView { id: old(self)@.id, lock: None }),
    {
        let state = self.state.inner;
        if Self::is_occupied(state) {
            let id = Self::id_from_bits(state);
            self.state.inner = Self::unoccupied_bits(id);
            Some(id)
        } else {
            None
        }
    }

    /// Determines whether the header may be dropped: it must not be locked, nor may threads be
    /// blocking on it.
    pub fn may_drop(&self) -> (may_drop: bool)
        ensures
            may_drop == !self@.locked(),
    {
        let state = self.state.inner;
        Self::readers_from_bits(state) == 0 && (!Self::is_occupied(state)
            || !Self::has_thread_blocking(state))
    }
}

/// What a thread that wants to remove the data under `id` has to do, given whether the header was
/// moved.
pub open spec fn remove_choice(id: u32, choice: ParkChoice<BlockResult<bool>>) -> ParkChoice<
    BlockResult<RemoveResult>,
> {
    match choice {
        ParkChoice::Park => ParkChoice::Park,
        ParkChoice::DontPark(Err(error)) => ParkChoice::DontPark(Err(error)),
        ParkChoice::DontPark(Ok(matched)) => ParkChoice::DontPark(
            Ok(
                if matched {
                    RemoveResult::Matched { may_reuse: id + 1 != RESERVED_ID }
                } else {
                    RemoveResult::DidntMatch
                },
            ),
        ),
    }
}

/// Giving up a lock undoes taking it.
pub proof fn law_unlocking_undoes_locking(header: HeaderView)
    requires
        header.wf(),
        header.occupied(),
    ensures
        !header.write_locked() && header.readers() < MAX_CONCURRENT_READS
            ==> header.after_lock_read().read_locked() && header.after_lock_read().wf()
            && header.after_lock_read().after_unlock_read() == header,
        header.unlocked() ==> header.after_lock_write().write_locked()
            && header.after_lock_write().after_unlock_write() == header,
{
}

/// A thread that may not block gets a read lock exactly if the data is there and no write lock is
/// held, and gets a write lock or the data itself exactly if the data is there and no lock is held.
/// It is told that the data is not there exactly if the IDs differ.
pub proof fn law_locks_exclude_each_other(header: HeaderView, id: u32)
    requires
        header.id == id ==> header.occupied(),
    ensures
        ({
            let read = outcome_alone(header.poll_lock_read(id, Timeout::DontBlock).1);
            let write = outcome_alone(header.poll_lock_write(id, Timeout::DontBlock).1);
            let remove = outcome_alone(header.poll_remove(id, Timeout::DontBlock).1);
            &&& read == Ok::<bool, TimedOut>(true) <==> header.id == id && !header.write_locked()
            &&& write == Ok::<bool, TimedOut>(true) <==> header.id == id && !header.locked()
            &&& remove == Ok::<bool, TimedOut>(true) <==> header.id == id && !header.locked()
            &&& read == Err::<bool, TimedOut>(TimedOut) <==> header.id == id
                && header.write_locked()
            &&& write == Err::<bool, TimedOut>(TimedOut) <==> header.id == id && header.locked()
            &&& remove == Err::<bool, TimedOut>(TimedOut) <==> header.id == id && header.locked()
            &&& read == Ok::<bool, TimedOut>(false) <==> header.id != id
            &&& write == Ok::<bool, TimedOut>(false) <==> header.id != id
            &&& remove == Ok::<bool, TimedOut>(false) <==> header.id != id
        }),
{
}

/// Data that was removed is not found under its ID anymore, neither before the header is occupied
/// again nor after, as long as it is occupied under a later ID.
pub proof fn law_removed_data_is_gone(header: HeaderView, later_id: u32, timeout: Timeout)
    requires
        header.id < later_id,
    ensures
        ({
            let id = header.id;
            let removed = header.after_remove();
            let replaced = removed.after_insert(later_id);
            let gone = ParkChoice::<BlockResult<bool>>::DontPark(Ok(false));
            &&& removed.poll_lock_read(id, timeout) == (removed, gone)
            &&& removed.poll_lock_write(id, timeout) == (removed, gone)
            &&& removed.poll_remove(id, timeout) == (removed, gone)
            &&& replaced.poll_lock_read(id, timeout) == (replaced, gone)
            &&& replaced.poll_lock_write(id, timeout) == (replaced, gone)
            &&& replaced.poll_remove(id, timeout) == (replaced, gone)
        }),
{
}

/// Where the parts of a view are in its word: the ID in the lower half, the number of readers above
/// it, and above that a bit that is set unless threads wait.
pub proof fn law_layout(id: u32, readers: u32)
    requires
        0 < readers < 0x7fff_ffff,
    ensures
        decode(id as u64) == (HeaderView { id, lock: None }),
        decode((id + 0x8000_0000_0000_0000) as u64) == (HeaderView {
            id,
            lock: Some(Lock::Unlocked),
        }),
        decode((id + readers * 0x1_0000_0000 + 0x8000_0000_0000_0000) as u64) == (HeaderView {
            id,
            lock: Some(Lock::Read { readers, waiting: false }),
        }),
        decode((id + readers * 0x1_0000_0000) as u64) == (HeaderView {
            id,
            lock: Some(Lock::Read { readers, waiting: true }),
        }),
        decode((id + 0xffff_ffff_0000_0000) as u64) == (HeaderView {
            id,
            lock: Some(Lock::Write { waiting: false }),
        }),
        decode((id + 0x7fff_ffff_0000_0000) as u64) == (HeaderView {
            id,
            lock: Some(Lock::Write { waiting: true }),
        }),
{
}

/// What is asked of a header can be read off its lock.
pub proof fn law_headers_are_what_their_locks_are(id: u32, readers: u32, waiting: bool)
    ensures
        ({
            let header = HeaderView { id, lock: None };
            &&& !header.occupied() && !header.unlocked() && !header.locked()
            &&& !header.read_locked() && !header.write_locked() && !header.waiting()
            &&& header.readers() == 0
        }),
        ({
            let header = HeaderView { id, lock: Some(Lock::Unlocked) };
            &&& header.occupied() && header.unlocked() && !header.locked()
            &&& !header.read_locked() && !header.write_locked() && !header.waiting()
            &&& header.readers() == 0
        }),
        ({
            let header = HeaderView { id, lock: Some(Lock::Read { readers, waiting }) };
            &&& header.occupied() && !header.unlocked() && header.locked()
            &&& header.read_locked() && !header.write_locked()
            &&& header.waiting() == waiting
            &&& header.readers() == readers
            &&& header.wf() <==> 0 < readers < 0x7fff_ffff
        }),
        ({
            let header = HeaderView { id, lock: Some(Lock::Write { waiting }) };
            &&& header.occupied() && !header.unlocked() && header.locked()
            &&& !header.read_locked() && header.write_locked()
            &&& header.waiting() == waiting
            &&& header.readers() == 0
        }),
{
}

/// A read lock that is acquired is counted once, and one that is released is counted no more. Neither
/// changes the ID, and threads go on waiting until the last reader is gone.
pub proof fn law_read_locks_are_counted(header: HeaderView)
    requires
        header.wf(),
        header.occupied(),
        !header.write_locked(),
    ensures
        header.readers() < 0x7fff_fffe ==> {
            let after = header.after_lock_read();
            &&& after.wf() && after.read_locked()
            &&& after.id == header.id
            &&& after.readers() == header.readers() + 1
            &&& after.waiting() == header.waiting()
        },
        header.read_locked() ==> {
            let after = header.after_unlock_read();
            &&& after.wf() && after.occupied() && !after.write_locked()
            &&& after.id == header.id
            &&& after.readers() == header.readers() - 1
            &&& after.waiting() <==> header.waiting() && header.readers() > 1
            &&& after.unlocked() <==> header.readers() == 1
        },
{
}

/// Marking a header shows that threads wait, and changes nothing else.
pub proof fn law_marking_changes_nothing_else(header: HeaderView)
    requires
        header.locked(),
    ensures
        header.after_mark().waiting(),
        header.after_mark().id == header.id,
        header.after_mark().readers() == header.readers(),
        header.after_mark().read_locked() == header.read_locked(),
        header.after_mark().write_locked() == header.write_locked(),
{
}

/// What becomes of a header whose data is inserted, write locked, write unlocked or removed.
pub proof fn law_headers_move_between_states(header: HeaderView, id: u32)
    requires
        header.id < 0xffff_ffff,
    ensures
        header.after_insert(id) == (HeaderView { id, lock: Some(Lock::Unlocked) }),
        header.after_lock_write() == (HeaderView {
            id: header.id,
            lock: Some(Lock::Write { waiting: false }),
        }),
        header.after_unlock_write() == (HeaderView {
            id: header.id,
            lock: Some(Lock::Unlocked),
        }),
        header.after_remove().id == header.id + 1,
        header.after_remove().lock is None,
{
}

/// Releasing a lock obliges a thread to unpark the parked ones exactly if threads wait and the lock
/// is free with that.
pub proof fn law_waiting_threads_are_unparked(header: HeaderView)
    requires
        header.wf(),
    ensures
        header.read_locked() ==> (header.unlock_read_unparks() <==> header.waiting()
            && header.after_unlock_read().unlocked()),
        header.write_locked() ==> (header.unlock_write_unparks() <==> header.waiting()),
{
}

/// A thread that asks for data which is there waits exactly if a lock conflicts with what it asks for
/// and its timeout allows to block, no matter until when. It times out at once exactly if a lock
/// conflicts and it may not block, and gets what it asks for exactly if no lock conflicts. While it
/// does not get it, the header at most shows that threads wait.
pub proof fn law_threads_wait_for_conflicting_locks(header: HeaderView, id: u32, timeout: Timeout)
    requires
        header.id == id ==> header.occupied(),
    ensures
        ({
            let (after, choice) = header.poll_lock_read(id, timeout);
            let conflict = header.write_locked();
            &&& choice == ParkChoice::<BlockResult<bool>>::DontPark(Ok(false)) <==> header.id != id
            &&& choice is Park <==> header.id == id && conflict && timeout != Timeout::DontBlock
            &&& choice == ParkChoice::<BlockResult<bool>>::DontPark(Err(TimedOut)) <==> header.id
                == id && conflict && timeout == Timeout::DontBlock
            &&& choice == ParkChoice::<BlockResult<bool>>::DontPark(Ok(true)) <==> header.id == id
                && !conflict
            &&& after == if choice == ParkChoice::<BlockResult<bool>>::DontPark(Ok(true)) {
                header.after_lock_read()
            } else if choice is Park {
                header.after_mark()
            } else {
                header
            }
        }),
        ({
            let (after, choice) = header.poll_lock_write(id, timeout);
            let conflict = header.locked();
            &&& choice == ParkChoice::<BlockResult<bool>>::DontPark(Ok(false)) <==> header.id != id
            &&& choice is Park <==> header.id == id && conflict && timeout != Timeout::DontBlock
            &&& choice == ParkChoice::<BlockResult<bool>>::DontPark(Err(TimedOut)) <==> header.id
                == id && conflict && timeout == Timeout::DontBlock
            &&& choice == ParkChoice::<BlockResult<bool>>::DontPark(Ok(true)) <==> header.id == id
                && !conflict
            &&& after == if choice == ParkChoice::<BlockResult<bool>>::DontPark(Ok(true)) {
                header.after_lock_write()
            } else if choice is Park {
                header.after_mark()
            } else {
                header
            }
        }),
        ({
            let (after, choice) = header.poll_remove(id, timeout);
            let conflict = header.locked();
            &&& choice == ParkChoice::<BlockResult<bool>>::DontPark(Ok(false)) <==> header.id != id
            &&& choice is Park <==> header.id == id && conflict && timeout != Timeout::DontBlock
            &&& choice == ParkChoice::<BlockResult<bool>>::DontPark(Err(TimedOut)) <==> header.id
                == id && conflict && timeout == Timeout::DontBlock
            &&& choice == ParkChoice::<BlockResult<bool>>::DontPark(Ok(true)) <==> header.id == id
                && !conflict
            &&& after == if choice == ParkChoice::<BlockResult<bool>>::DontPark(Ok(true)) {
                header.after_remove()
            } else if choice is Park {
                header.after_mark()
            } else {
                header
            }
        }),
{
}

/// A thread that no other thread can unpark times out exactly if it would have to wait, or was told
/// to time out at once, and otherwise has its result.
pub proof fn law_waiting_alone_times_out<T>(choice: ParkChoice<BlockResult<T>>)
    ensures
        choice is Park ==> outcome_alone(choice) == Err::<T, TimedOut>(TimedOut),
        choice matches ParkChoice::DontPark(result) ==> outcome_alone(choice) == result,
{
}

/// A removal says that the header may be occupied again exactly if the data was there and the next ID
/// is not the reserved one, and otherwise says what became of it.
pub proof fn law_headers_may_be_reused(id: u32)
    ensures
        remove_choice(id, ParkChoice::DontPark(Ok(true))) == ParkChoice::<
            BlockResult<RemoveResult>,
        >::DontPark(Ok(RemoveResult::Matched { may_reuse: id != 0xffff_fffe })),
        remove_choice(id, ParkChoice::DontPark(Ok(false))) == ParkChoice::<
            BlockResult<RemoveResult>,
        >::DontPark(Ok(RemoveResult::DidntMatch)),
        remove_choice(id, ParkChoice::DontPark(Err(TimedOut))) == ParkChoice::<
            BlockResult<RemoveResult>,
        >::DontPark(Err(TimedOut)),
        remove_choice(id, ParkChoice::Park) == ParkChoice::<BlockResult<RemoveResult>>::Park,
{
}

/// A lock counts its readers one by one, is free once the last one is gone, and shows that threads wait
/// from when it is marked until it is free.
pub proof fn law_locks_count_their_readers(readers: u32, waiting: bool)
    requires
        0 < readers < 0x7fff_ffff,
    ensures
        Lock::Unlocked.readers() == 0 && !Lock::Unlocked.waiting(),
        (Lock::Write { waiting }).readers() == 0 && (Lock::Write { waiting }).waiting() == waiting,
        ({
            let lock = Lock::Read { readers, waiting };
            &&& lock.readers() == readers && lock.waiting() == waiting
            &&& lock.after_lock_read().readers() == readers + 1
            &&& lock.after_lock_read().waiting() == waiting
            &&& lock.after_lock_read().after_unlock_read() == lock
            &&& lock.after_unlock_read().readers() == readers - 1
            &&& lock.after_unlock_read() is Unlocked <==> readers == 1
            &&& lock.after_unlock_read() is Read <==> readers > 1
            &&& readers > 1 ==> lock.after_unlock_read().waiting() == waiting
            &&& lock.after_mark() == Lock::Read { readers, waiting: true }
        }),
        Lock::Unlocked.after_lock_read() == (Lock::Read { readers: 1, waiting: false }),
        Lock::Unlocked.after_lock_read().after_unlock_read() == Lock::Unlocked,
        (Lock::Write { waiting }).after_mark() == (Lock::Write { waiting: true }),
{
}

} // verus!
