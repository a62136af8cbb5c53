//! The scancode channel: a fixed-capacity lock-free queue of raw scancodes
//! paired with a single-slot wake handle, bridging the interrupt-context
//! producer to the cooperative polled consumer.
//!
//! The queue and wake handle are process-wide state with an explicit
//! one-time initialization lifecycle: constructing the queue a second time
//! is rejected, and the producer reports when it runs before construction.
//! The consumer's poll follows the double-check suspend protocol: check,
//! register the waker, re-check, clear the waker on a late hit.

use vstd::prelude::*;
use vstd::math::min;

verus! {

#[verifier::external_type_specification]
#[verifier::external_body]
#[verifier::reject_recursive_types(T)]
pub struct ExArrayQueue<T>(crossbeam_queue::ArrayQueue<T>);

#[verifier::external_type_specification]
#[verifier::external_body]
pub struct ExAtomicWaker(futures_util::task::AtomicWaker);

#[verifier::external_type_specification]
#[verifier::external_body]
pub struct ExWaker(core::task::Waker);

/// The bytes a scancode queue holds, oldest first.
pub uninterp spec fn queue_contents(q: crossbeam_queue::ArrayQueue<u8>) -> Seq<u8>;

/// The fixed capacity a scancode queue was created with.
pub uninterp spec fn queue_capacity(q: crossbeam_queue::ArrayQueue<u8>) -> nat;

/// Whether a wake handle currently holds a registered waker.
pub uninterp spec fn waker_registered(w: futures_util::task::AtomicWaker) -> bool;

/// Relies on crossbeam_queue::ArrayQueue::new: creates an empty queue of the
/// given fixed capacity. It panics on zero (and on absurdly large)
/// capacities, which the precondition excludes.
#[verifier::external_body]
fn queue_new(cap: usize) -> (q: crossbeam_queue::ArrayQueue<u8>)
    requires
        1 <= cap <= 4096,
    ensures
        queue_contents(q) == Seq::<u8>::empty(),
        queue_capacity(q) == cap as nat,
{
    crossbeam_queue::ArrayQueue::new(cap)
}

/// Relies on crossbeam_queue::ArrayQueue::push: appends at the back when the
/// queue is not full, and hands the value back in `Err` when it is, never
/// blocking. The `&mut` receiver gives the verified caller exclusive access,
/// under which the effect is deterministic; interrupt-context producers
/// share the queue only outside the verified world.
#[verifier::external_body]
fn queue_push(q: &mut crossbeam_queue::ArrayQueue<u8>, value: u8) -> (r: Result<(), u8>)
    ensures
        queue_capacity(*final(q)) == queue_capacity(*old(q)),
        r is Ok <==> queue_contents(*old(q)).len() < queue_capacity(*old(q)),
        r is Ok ==> queue_contents(*final(q)) == queue_contents(*old(q)).push(value),
        r is Err ==> queue_contents(*final(q)) == queue_contents(*old(q)) && (r matches Err(v)
            && v == value),
{
    q.push(value)
}

/// Relies on crossbeam_queue::ArrayQueue::pop: removes and returns the
/// oldest element, or reports an empty queue, never blocking. As with push,
/// the `&mut` receiver makes the effect deterministic for the verified
/// caller.
#[verifier::external_body]
fn queue_pop(q: &mut crossbeam_queue::ArrayQueue<u8>) -> (r: Option<u8>)
    ensures
        queue_capacity(*final(q)) == queue_capacity(*old(q)),
        queue_contents(*old(q)).len() == 0 ==> r is None && queue_contents(*final(q))
            == queue_contents(*old(q)),
        queue_contents(*old(q)).len() > 0 ==> r == Some(queue_contents(*old(q))[0])
            && queue_contents(*final(q)) == queue_contents(*old(q)).drop_first(),
{
    q.pop()
}

/// Relies on futures_util::task::AtomicWaker::new: the slot starts with no
/// registered waker.
#[verifier::external_body]
fn waker_new() -> (w: futures_util::task::AtomicWaker)
    ensures
        !waker_registered(w),
{
    futures_util::task::AtomicWaker::new()
}

/// Relies on futures_util::task::AtomicWaker::register: stores the given
/// waker in the slot, discarding any stale one.
#[verifier::external_body]
fn waker_register(w: &mut futures_util::task::AtomicWaker, waker: &core::task::Waker)
    ensures
        waker_registered(*final(w)),
{
    w.register(waker)
}

/// Relies on futures_util::task::AtomicWaker::take: removes the registered
/// waker, if any, leaving the slot empty.
#[verifier::external_body]
fn waker_clear(w: &mut futures_util::task::AtomicWaker)
    ensures
        !waker_registered(*final(w)),
{
    let _stale = w.take();
}

/// Relies on futures_util::task::AtomicWaker::wake: wakes and removes the
/// registered waker; with no waker registered it is a no-op.
#[verifier::external_body]
fn waker_wake(w: &mut futures_util::task::AtomicWaker)
    ensures
        !waker_registered(*final(w)),
{
    w.wake()
}

/// Capacity of the scancode queue, in bytes.
pub const SCANCODE_QUEUE_CAPACITY: usize = 100;

/// Lifecycle errors of the channel singleton.
#[derive(Clone, Copy, PartialEq, Eq, Structural, Debug)]
pub enum ChannelError {
    /// The one-time queue construction was attempted a second time.
    AlreadyInitialized,
}

/// What became of one produced scancode.
#[derive(Clone, Copy, PartialEq, Eq, Structural, Debug)]
pub enum PushOutcome {
    /// Enqueued; a waiting consumer, if registered, has been woken.
    Delivered,
    /// The queue was full: the newest byte is dropped, never blocking.
    Dropped,
    /// The queue has not been constructed yet; nothing was enqueued.
    Uninitialized,
}

/// Result of one poll of the event stream.
#[derive(Clone, Copy, PartialEq, Eq, Structural, Debug)]
pub enum StreamPoll {
    /// A scancode was dequeued.
    Ready(u8),
    /// The queue is empty and the waker is registered: the consumer should
    /// suspend until a push wakes it.
    Pending,
    /// The stream has ended. The scancode stream is infinite and never
    /// reports this.
    Exhausted,
}

/// The process-wide scancode channel: the bounded queue, created exactly
/// once, and the single-slot wake handle of the one waiting consumer.
pub struct ScancodeChannel {
    queue: Option<crossbeam_queue::ArrayQueue<u8>>,
    waker: futures_util::task::AtomicWaker,
}

impl ScancodeChannel {
    /// Whether the one-time queue construction has happened.
    pub closed spec fn initialized(self) -> bool {
        self.queue is Some
    }

    /// The scancodes waiting to be consumed, oldest first.
    pub closed spec fn contents(self) -> Seq<u8> {
        match self.queue {
            Some(q) => queue_contents(q),
            None => Seq::empty(),
        }
    }

    /// The queue's fixed capacity.
    pub closed spec fn capacity(self) -> nat {
        match self.queue {
            Some(q) => queue_capacity(q),
            None => 0,
        }
    }

    /// Whether a consumer's waker is registered in the wake handle.
    pub closed spec fn waiting(self) -> bool {
        waker_registered(self.waker)
    }

    /// The queue never holds more than its capacity; every operation keeps
    /// this, so the FIFO law applies to every reachable channel state.
    pub open spec fn wf(self) -> bool {
        self.contents().len() <= self.capacity()
    }

    /// Creates the channel with its queue not yet constructed and no waiter
    /// registered.
    pub fn new() -> (c: ScancodeChannel)
        ensures
            c.wf(),
            !c.initialized(),
            !c.waiting(),
    {
        ScancodeChannel { queue: None, waker: waker_new() }
    }

    /// One-time construction of the bounded queue. A second call is the
    /// callers' error — a second consumer would break the single-consumer
    /// discipline — and is rejected, leaving the channel untouched.
    pub fn init_once(&mut self) -> (r: Result<(), ChannelError>)
        ensures
            old(self).wf() ==> final(self).wf(),
            old(self).initialized() ==> r == Err::<(), ChannelError>(
                ChannelError::AlreadyInitialized,
            ) && *final(self) == *old(self),
            !old(self).initialized() ==> r == Ok::<(), ChannelError>(()) && final(self).initialized() && final(self).contents() == Seq::<u8>::empty() && final(self).capacity() == SCANCODE_QUEUE_CAPACITY && final(self).waiting() == old(self).waiting(),
    {
        if self.queue.is_some() {
            return Err(ChannelError::AlreadyInitialized);
        }
        self.queue = Some(queue_new(SCANCODE_QUEUE_CAPACITY));
        Ok(())
    }

    /// The producer entry point, called from the interrupt handler: never
    /// blocks and never allocates. Enqueues the byte and wakes the waiting
    /// consumer; a full queue drops the newest byte and changes nothing; a
    /// channel whose queue is not yet constructed reports so and changes
    /// nothing.
    pub fn add_scancode(&mut self, scancode: u8) -> (r: PushOutcome)
        ensures
            old(self).wf() ==> final(self).wf(),
            final(self).initialized() == old(self).initialized(),
            final(self).capacity() == old(self).capacity(),
            !old(self).initialized() ==> r == PushOutcome::Uninitialized && final(self).contents()
                == old(self).contents() && final(self).waiting() == old(self).waiting(),
            old(self).initialized() ==> final(self).contents() == push_effect(
                old(self).contents(),
                old(self).capacity(),
                scancode,
            ),
            old(self).initialized() && old(self).contents().len() < old(self).capacity() ==> r
                == PushOutcome::Delivered && final(self).contents() == old(self).contents().push(
                scancode,
            ) && !final(self).waiting(),
            old(self).initialized() && old(self).contents().len() >= old(self).capacity() ==> r
                == PushOutcome::Dropped && final(self).contents() == old(self).contents() && final(self).waiting() == old(self).waiting(),
    {
        match &mut self.queue {
            None => PushOutcome::Uninitialized,
            Some(q) => {
                match queue_push(q, scancode) {
                    Ok(()) => {
                        waker_wake(&mut self.waker);
                        PushOutcome::Delivered
                    },
                    Err(_) => PushOutcome::Dropped,
                }
            },
        }
    }

    /// Non-blocking dequeue for the consumer's poll path: the oldest byte,
    /// or nothing when the queue is empty. The queue must have been
    /// constructed.
    pub fn pop(&mut self) -> (r: Option<u8>)
        requires
            old(self).initialized(),
        ensures
            old(self).wf() ==> final(self).wf(),
            final(self).initialized(),
            final(self).capacity() == old(self).capacity(),
            final(self).waiting() == old(self).waiting(),
            old(self).contents().len() == 0 ==> r is None && final(self).contents() == old(
                self,
            ).contents(),
            old(self).contents().len() > 0 ==> r == Some(old(self).contents()[0]) && final(self).contents() == old(self).contents().drop_first(),
    {
        match &mut self.queue {
            None => None,
            Some(q) => queue_pop(q),
        }
    }
}

/// The interrupt-driven event stream over the scancode channel: an infinite,
/// single-consumer sequence of raw scancodes, suspending its consumer
/// between bursts.
pub struct ScancodeStream {
    _private: (),
}

impl ScancodeStream {
    /// Creates the stream, performing the channel's one-time queue
    /// construction. A second stream over the same channel is rejected: the
    /// stream is single-consumer.
    pub fn new(channel: &mut ScancodeChannel) -> (r: Result<ScancodeStream, ChannelError>)
        ensures
            old(channel).wf() ==> final(channel).wf(),
            !old(channel).initialized() ==> r is Ok && final(channel).initialized() && final(channel).contents() == Seq::<u8>::empty() && final(channel).capacity()
                == SCANCODE_QUEUE_CAPACITY && final(channel).waiting() == old(channel).waiting(),
            old(channel).initialized() ==> r == Err::<ScancodeStream, ChannelError>(
                ChannelError::AlreadyInitialized,
            ) && *final(channel) == *old(channel),
    {
        match channel.init_once() {
            Ok(()) => Ok(ScancodeStream { _private: () }),
            Err(e) => Err(e),
        }
    }

    /// One poll of the cooperative consumer, following the double-check
    /// suspend protocol: try to dequeue; if empty, register the task's waker
    /// and try once more, which closes the race against a push that fired
    /// between the first attempt and the registration; a byte found on the
    /// second attempt clears the just-registered waker. Reports Pending —
    /// never Exhausted — only when the queue was still empty after the waker
    /// was registered, so the registered waker is guaranteed to see any later
    /// push.
    pub fn poll_next(
        &mut self,
        channel: &mut ScancodeChannel,
        waker: &core::task::Waker,
    ) -> (r: StreamPoll)
        requires
            old(channel).initialized(),
        ensures
            old(channel).wf() ==> final(channel).wf(),
            final(channel).initialized(),
            final(channel).capacity() == old(channel).capacity(),
            old(channel).contents().len() > 0 ==> r == StreamPoll::Ready(
                old(channel).contents()[0],
            ) && final(channel).contents() == old(channel).contents().drop_first() && final(channel).waiting() == old(channel).waiting(),
            old(channel).contents().len() == 0 ==> r == StreamPoll::Pending && final(channel).contents() == old(channel).contents() && final(channel).waiting(),
    {
        if let Some(scancode) = channel.pop() {
            return StreamPoll::Ready(scancode);
        }
        waker_register(&mut channel.waker, waker);
        match channel.pop() {
            Some(scancode) => {
                waker_clear(&mut channel.waker);
                StreamPoll::Ready(scancode)
            },
            None => StreamPoll::Pending,
        }
    }
}

/// The effect of one producer push on queue contents `s`: appended at the
/// back when there is room, dropped — the newest byte — when the queue is
/// full.
pub open spec fn push_effect(s: Seq<u8>, cap: nat, b: u8) -> Seq<u8> {
    if s.len() < cap {
        s.push(b)
    } else {
        s
    }
}

/// The queue contents after a burst of pushes, oldest first.
pub open spec fn pushes_effect(s: Seq<u8>, cap: nat, bytes: Seq<u8>) -> Seq<u8>
    decreases bytes.len(),
{
    if bytes.len() == 0 {
        s
    } else {
        pushes_effect(push_effect(s, cap, bytes[0]), cap, bytes.drop_first())
    }
}

/// FIFO order is kept and no byte is duplicated: a burst of pushes into a
/// queue holding `s` leaves `s` followed by the longest prefix of the pushed
/// bytes that fits, in push order; the bytes beyond that prefix — the newest
/// — are the ones dropped. Since `pop` takes from the front, the consumer
/// observes the pushed bytes in exactly their push order.
pub proof fn lemma_fifo_order(s: Seq<u8>, cap: nat, bytes: Seq<u8>)
    requires
        s.len() <= cap,
    ensures
        pushes_effect(s, cap, bytes) == s + bytes.take(
            min(bytes.len() as int, cap - s.len()),
        ),
    decreases bytes.len(),
{
    if bytes.len() == 0 {
        assert(pushes_effect(s, cap, bytes) =~= s + bytes.take(0));
    } else if s.len() < cap {
        let s1 = s.push(bytes[0]);
        let rest = bytes.drop_first();
        lemma_fifo_order(s1, cap, rest);
        let k = min(rest.len() as int, cap - s1.len());
        assert(min(bytes.len() as int, cap - s.len()) == k + 1);
        assert(s1 + rest.take(k) =~= s + bytes.take(k + 1));
    } else {
        let rest = bytes.drop_first();
        lemma_fifo_order(s, cap, rest);
        assert(s + rest.take(0) =~= s + bytes.take(0));
    }
}

/// No lost wakeup: suppose a poll's first drain attempt found the queue
/// empty, and a burst of at least one push (with its wake call) lands at any
/// point before the second attempt. The queue the second attempt sees then
/// holds the first pushed byte at its front, so the poll returns that byte
/// instead of reporting suspension.
pub proof fn lemma_no_lost_wakeup(cap: nat, bytes: Seq<u8>)
    requires
        cap >= 1,
        bytes.len() >= 1,
    ensures
        pushes_effect(Seq::empty(), cap, bytes).len() >= 1,
        pushes_effect(Seq::empty(), cap, bytes)[0] == bytes[0],
{
    lemma_fifo_order(Seq::empty(), cap, bytes);
}

} // verus!
