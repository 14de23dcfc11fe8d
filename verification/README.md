# Read Write Store

An unordered collection where each element has an internally generated ID and a read-write lock,
with a proof in [Verus](https://github.com/verus-lang/verus) of what it does.

```rust
let store = RwStore::new();

// Inserting an element yields an ID
let id = store.insert(42);

{
    // You can read the element's value using that ID
    let read_lock = store.read(id).unwrap();
    assert_eq!(*read_lock, 42);

    // Concurrent reads are possible, but reading and writing at the same time is not
    assert!(store.read_with_timeout(id, DontBlock).is_ok());
    assert!(store.write_with_timeout(id, DontBlock).is_err());
}

*store.write(id).unwrap() = 24;

// Elements can of course be removed using their ID
assert_eq!(store.remove(id), Some(24));
assert!(store.read(id).is_none());
```

## Layout

* `src/` is the verified library. Its functions have exclusive access to what they work on, and say
  what has to be done where a thread has to wait or to be woken.
  * `store`: the store and the contracts of its operations, over a map from IDs to elements and one
    from IDs to locks.
  * `bucket`, `block`, `layout`: where the elements are.
  * `header`: the lock of an element, packed into a single word.
  * `attempt`: how a thread locks or unlocks such a word while other threads change it.
  * `protocol`: what holds of a header that many threads use at once.
  * `history`: what holds of a store over time.
  * `iter`, `lock`, `id`, `id_generator`, `rwstore_id`, `timeout`: as their names say.
  * `util`: the queue of free slots, parking decisions, places for elements, text and some arithmetic.
* `app/` is the store that threads share, as in the example above: it adds a mutex, sleeping threads,
  a clock and guards.
* `tests/` runs the library.

## What is trusted

The proofs take two things for granted: the contracts of the queue of the `crossbeam_queue` crate,
which are stated in `src/util/sync/concurrent_queue.rs`, and that of mutable access to a
`ManuallyDrop`, which is stated in `src/util/debug_check.rs`.
