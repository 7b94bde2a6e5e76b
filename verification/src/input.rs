//! The keyboard input buffer: keys arrive from the serial interrupt and
//! are taken out by whoever reads input. The buffer itself is crossbeam's
//! bounded lock-free queue, kept behind trusted contracts; the dropping of
//! keys on overflow and the order of delivery are decided and verified
//! here.

use crossbeam_queue::ArrayQueue;
use vstd::prelude::*;

verus! {

/// How many pending keys the buffer holds at most.
pub const INPUT_BUF_SIZE: usize = 128;

#[verifier::external_type_specification]
#[verifier::external_body]
#[verifier::reject_recursive_types(T)]
pub struct ExArrayQueue<T>(ArrayQueue<T>);

/// What a key queue holds, oldest first.
pub uninterp spec fn queue_contents(q: ArrayQueue<u8>) -> Seq<u8>;

/// The fixed capacity a key queue was created with.
pub uninterp spec fn queue_capacity(q: ArrayQueue<u8>) -> nat;

/// Relies on crossbeam's `ArrayQueue::new`: a fresh bounded queue of the
/// given capacity holds nothing. The constructor panics on a zero or
/// near-pointer-size capacity, so those are excluded.
#[verifier::external_body]
fn queue_new(capacity: usize) -> (r: ArrayQueue<u8>)
    requires
        1 <= capacity < 0x1000_0000,
    ensures
        queue_contents(r) == Seq::<u8>::empty(),
        queue_capacity(r) == capacity,
{
    ArrayQueue::new(capacity)
}

/// Relies on crossbeam's `ArrayQueue::push`: with a slot free the value is
/// appended at the tail, otherwise it comes back as the error and the
/// queue stands unchanged.
#[verifier::external_body]
fn queue_push(q: &mut ArrayQueue<u8>, key: u8) -> (r: Result<(), u8>)
    ensures
        queue_contents(*old(q)).len() < queue_capacity(*old(q)) ==> r is Ok
            && queue_contents(*final(q)) == queue_contents(*old(q)).push(key) && queue_capacity(
            *final(q),
        ) == queue_capacity(*old(q)),
        queue_contents(*old(q)).len() >= queue_capacity(*old(q)) ==> (r matches Err(k) && k
            == key && queue_contents(*final(q)) == queue_contents(*old(q)) && queue_capacity(
            *final(q),
        ) == queue_capacity(*old(q))),
{
    q.push(key)
}

/// Relies on crossbeam's `ArrayQueue::pop`: the value at the head comes
/// out, oldest first; an empty queue yields nothing and stands unchanged.
#[verifier::external_body]
fn queue_pop(q: &mut ArrayQueue<u8>) -> (r: Option<u8>)
    ensures
        queue_contents(*old(q)).len() > 0 ==> r == Option::Some(queue_contents(*old(q))[0])
            && queue_contents(*final(q)) == queue_contents(*old(q)).drop_first() && queue_capacity(
            *final(q),
        ) == queue_capacity(*old(q)),
        queue_contents(*old(q)).len() == 0 ==> r is None && queue_contents(*final(q))
            == queue_contents(*old(q)) && queue_capacity(*final(q)) == queue_capacity(*old(q)),
{
    q.pop()
}

/// The input buffer: pending keys in arrival order, bounded; keys that
/// arrive while it is full are dropped.
pub struct InputBuffer {
    queue: ArrayQueue<u8>,
}

impl InputBuffer {
    /// The pending keys, oldest first.
    pub closed spec fn contents(&self) -> Seq<u8> {
        queue_contents(self.queue)
    }

    /// How many keys fit.
    pub closed spec fn capacity(&self) -> nat {
        queue_capacity(self.queue)
    }

    /// An empty input buffer of the fixed size.
    pub fn new() -> (r: InputBuffer)
        ensures
            r.contents() == Seq::<u8>::empty(),
            r.capacity() == INPUT_BUF_SIZE,
    {
        InputBuffer { queue: queue_new(INPUT_BUF_SIZE) }
    }

    /// Take a key in. A full buffer drops it — losing a key beats
    /// stalling the interrupt handler that delivers it.
    pub fn push_key(&mut self, key: u8)
        ensures
            final(self).capacity() == old(self).capacity(),
            old(self).contents().len() < old(self).capacity() ==> final(self).contents() == old(self).contents().push(key),
            old(self).contents().len() >= old(self).capacity() ==> final(self).contents() == old(self).contents(),
    {
        let _ = queue_push(&mut self.queue, key);
    }

    /// Take the oldest pending key out, if any.
    pub fn try_pop_key(&mut self) -> (r: Option<u8>)
        ensures
            final(self).capacity() == old(self).capacity(),
            old(self).contents().len() > 0 ==> r == Option::Some(old(self).contents()[0]) && final(self).contents() == old(self).contents().drop_first(),
            old(self).contents().len() == 0 ==> r is None && final(self).contents() == old(self).contents(),
    {
        queue_pop(&mut self.queue)
    }

    /// Take the oldest pending key out. On hardware this call would spin
    /// until the next interrupt delivers a key; here the buffer is the
    /// only source, so it must not be empty.
    pub fn pop_key(&mut self) -> (r: u8)
        requires
            old(self).contents().len() > 0,
        ensures
            final(self).capacity() == old(self).capacity(),
            r == old(self).contents()[0],
            final(self).contents() == old(self).contents().drop_first(),
    {
        match self.try_pop_key() {
            Some(k) => k,
            None => 0,
        }
    }
}

} // verus!
