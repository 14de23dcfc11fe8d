//! An unordered collection where each element has an internally generated ID and a read-write lock.
//!
//! A store has O(1) time complexity for insertion, removal and lookups, although memory allocations
//! triggered by insertion may cause a performance spike. Its elements are spread over a fixed number
//! of buckets, and those of a bucket over blocks, each of which is twice as large as the one before:
//! a lookup visits the blocks of one bucket, of which there are never more than 32.
//!
//! # Sharing
//!
//! The functions of this library have exclusive access to what they work on. What a thread does to a
//! store that it shares with others is one call of such a function while no other thread uses the
//! store, so whoever shares a store makes that so. Nothing here puts a thread to sleep, reads a
//! clock or keeps state per thread or process: where that is needed, the functions say what has to
//! be done and take what came of it.
//!
//! * A function whose name starts with `poll` either has a result or says that the calling thread
//!   has to be parked, to try again when it is unparked.
//! * A function that releases a lock says whether parked threads have to be unparked.
//! * The function of the same name without `poll` is for a caller that no other thread can unpark.
//!
//! [attempt] is for threads that share no more than the word of a header: it leads a thread through
//! the accesses to that word, one at a time, whatever other threads do to it in between.
//!
//! # Allocation behavior
//!
//! * An empty store does not require any allocation.
//! * As more space is needed, more blocks will be allocated which increase in size. All allocated
//!   blocks are used alongside all previously allocated blocks; elements are never moved.
//! * All removed elements whose space is ready for reuse are tracked, and their space is reused
//!   before any other.
//!
//! # Caveats
//!
//! * When a block of elements is allocated internally, it won't be deallocated until the store is
//!   dropped.
//! * Every element has 8 bytes of overhead for its header, and those by which an `Option` of the
//!   element is larger than the element itself.
//! * A maximum of 2<sup>32</sup> - 1 elements can ever be inserted into any given store, including
//!   elements that have been removed.
//! * An ID must only be used with the store that created it.

pub mod attempt;
pub mod block;
pub mod bucket;
pub mod header;
pub mod history;
pub mod id;
pub mod id_generator;
pub mod iter;
pub mod layout;
pub mod lock;
pub mod protocol;
pub mod rwstore_id;
pub mod store;
pub mod timeout;
pub mod util;

pub use crate::id::{Id, SlotAddress};
pub use crate::rwstore_id::RwStoreId;
pub use crate::store::RwStore;
pub use crate::timeout::{BlockResult, Instant, TimedOut, Timeout};
