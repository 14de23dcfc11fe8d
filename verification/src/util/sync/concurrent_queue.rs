//! A queue of slots that are ready for reuse.

use crossbeam_queue::SegQueue;
use vstd::prelude::*;

verus! {

/// The queue of the `crossbeam_queue` crate, whose contents are opaque.
#[verifier::external_type_specification]
#[verifier::external_body]
#[verifier::reject_recursive_types(T)]
pub struct ExSegQueue<T>(SegQueue<T>);

/// The values in a queue, from the one that was pushed first to the one that was pushed last.
pub uninterp spec fn queued(queue: SegQueue<(u32, u32)>) -> Seq<(u32, u32)>;

/// `SegQueue::new`: a new queue is empty.
#[verifier::external_body]
fn queue_new() -> (queue: SegQueue<(u32, u32)>)
    ensures
        queued(queue) == Seq::<(u32, u32)>::empty(),
{
    SegQueue::new()
}

/// `SegQueue::push`: adds a value at the tail. The queue is borrowed mutably, so no other thread
/// pushes or pops in between.
#[verifier::external_body]
fn queue_push(queue: &mut SegQueue<(u32, u32)>, value: (u32, u32))
    ensures
        queued(*final(queue)) == queued(*old(queue)).push(value),
{
    queue.push(value)
}

/// `SegQueue::pop`: takes the value at the head, if there is one. The queue is borrowed mutably, so
/// no other thread pushes or pops in between.
#[verifier::external_body]
fn queue_pop(queue: &mut SegQueue<(u32, u32)>) -> (value: Option<(u32, u32)>)
    ensures
        queued(*old(queue)).len() == 0 ==> value is None && queued(*final(queue)) == queued(
            *old(queue),
        ),
        queued(*old(queue)).len() > 0 ==> value == Some(queued(*old(queue))[0]) && queued(
            *final(queue),
        ) == queued(*old(queue)).subrange(1, queued(*old(queue)).len() as int),
{
    queue.pop()
}

/// A queue of pairs of a bucket's ID and the address of a slot in that bucket: what was pushed first
/// is popped first.
pub struct ConcurrentQueue {
    inner: SegQueue<(u32, u32)>,
}

impl View for ConcurrentQueue {
    type V = Seq<(u32, u32)>;

    closed spec fn view(&self) -> Seq<(u32, u32)> {
        queued(self.inner)
    }
}

impl ConcurrentQueue {
    pub fn new() -> (queue: Self)
        ensures
            queue@ == Seq::<(u32, u32)>::empty(),
    {
        Self { inner: queue_new() }
    }

    pub fn push(&mut self, value: (u32, u32))
        ensures
            final(self)@ == old(self)@.push(value),
    {
        queue_push(&mut self.inner, value)
    }

    pub fn pop(&mut self) -> (value: Option<(u32, u32)>)
        ensures
            old(self)@.len() == 0 ==> value is None && final(self)@ == old(self)@,
            old(self)@.len() > 0 ==> {
                &&& value == Some(old(self)@[0])
                &&& final(self)@ == old(self)@.subrange(1, old(self)@.len() as int)
            },
    {
        queue_pop(&mut self.inner)
    }
}

} // verus!
