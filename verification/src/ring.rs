//! The ring buffer bridge between the audio callback and the socket loop.
//!
//! A session hands samples across threads through a bounded single-producer
//! single-consumer queue whose push and pop never block and never allocate.
//! The queue itself comes from the `ringbuf` crate; this module states its
//! behaviour over a mathematical model — the sequence of held samples,
//! oldest first, and the fixed capacity — and proves the bridge's two laws:
//! first-in first-out order, and the drop-newest policy on overflow.

use vstd::prelude::*;

use ringbuf::HeapConsumer;
use ringbuf::HeapProducer;
use ringbuf::HeapRb;

verus! {

/// A bounded queue of raw samples with one producing and one consuming
/// half. The two halves may serve different threads; a session owns both
/// ends of its own bridge.
#[verifier::external_body]
pub struct RingBuffer {
    producer: HeapProducer<u64>,
    consumer: HeapConsumer<u64>,
}

/// The samples the buffer holds, oldest first.
pub uninterp spec fn ring_contents(rb: RingBuffer) -> Seq<u64>;

/// The fixed number of slots the buffer was created with.
pub uninterp spec fn ring_capacity(rb: RingBuffer) -> nat;

/// What one non-blocking push does: append while there is room; when the
/// buffer is full, drop the newest sample — the pushed one — and leave the
/// prior contents untouched.
pub open spec fn ring_push_model(contents: Seq<u64>, capacity: nat, raw: u64) -> Seq<u64> {
    if contents.len() < capacity {
        contents.push(raw)
    } else {
        contents
    }
}

/// What pushing a whole sequence does, one sample at a time, oldest first.
pub open spec fn ring_push_all_model(contents: Seq<u64>, capacity: nat, samples: Seq<u64>) -> Seq<
    u64,
>
    decreases samples.len(),
{
    if samples.len() == 0 {
        contents
    } else {
        ring_push_all_model(
            ring_push_model(contents, capacity, samples.first()),
            capacity,
            samples.drop_first(),
        )
    }
}

/// While the pushed sequence fits beside the present contents, pushing is
/// plain appending.
pub proof fn lemma_ring_push_all_within(contents: Seq<u64>, capacity: nat, samples: Seq<u64>)
    requires
        contents.len() + samples.len() <= capacity,
    ensures
        ring_push_all_model(contents, capacity, samples) == contents + samples,
    decreases samples.len(),
{
    if samples.len() == 0 {
        assert(contents + samples =~= contents);
    } else {
        lemma_ring_push_all_within(
            contents.push(samples.first()),
            capacity,
            samples.drop_first(),
        );
        assert(contents.push(samples.first()) + samples.drop_first() =~= contents + samples);
    }
}

/// First-in first-out: a sample sequence that fits within the capacity,
/// pushed into an empty buffer, is stored exactly as it came, so popping
/// `samples.len()` times yields it unchanged and in order.
pub proof fn lemma_ring_fifo(samples: Seq<u64>, capacity: nat)
    requires
        samples.len() <= capacity,
    ensures
        ring_push_all_model(Seq::empty(), capacity, samples) == samples,
{
    lemma_ring_push_all_within(Seq::empty(), capacity, samples);
    assert(Seq::empty() + samples =~= samples);
}

/// Bounded capacity: a push into a full buffer drops the newest sample and
/// leaves the prior contents untouched.
pub proof fn lemma_ring_full_push_drops_newest(contents: Seq<u64>, capacity: nat, raw: u64)
    requires
        contents.len() == capacity,
    ensures
        ring_push_model(contents, capacity, raw) == contents,
{
}

/// Pushing one more sample after a pushed sequence is one more model push.
pub proof fn lemma_ring_push_all_snoc(
    contents: Seq<u64>,
    capacity: nat,
    samples: Seq<u64>,
    raw: u64,
)
    ensures
        ring_push_all_model(contents, capacity, samples.push(raw)) == ring_push_model(
            ring_push_all_model(contents, capacity, samples),
            capacity,
            raw,
        ),
    decreases samples.len(),
{
    if samples.len() == 0 {
        assert(samples.push(raw).first() == raw);
        assert(samples.push(raw).drop_first() =~= Seq::<u64>::empty());
        assert(ring_push_all_model(
            ring_push_model(contents, capacity, raw),
            capacity,
            Seq::<u64>::empty(),
        ) == ring_push_model(contents, capacity, raw));
    } else {
        assert(samples.push(raw).first() == samples.first());
        assert(samples.push(raw).drop_first() =~= samples.drop_first().push(raw));
        lemma_ring_push_all_snoc(
            ring_push_model(contents, capacity, samples.first()),
            capacity,
            samples.drop_first(),
            raw,
        );
    }
}

/// Pushing never grows the contents past the capacity.
pub proof fn lemma_ring_push_all_model_bound(contents: Seq<u64>, capacity: nat, samples: Seq<u64>)
    requires
        contents.len() <= capacity,
    ensures
        ring_push_all_model(contents, capacity, samples).len() <= capacity,
    decreases samples.len(),
{
    if samples.len() > 0 {
        lemma_ring_push_all_model_bound(
            ring_push_model(contents, capacity, samples.first()),
            capacity,
            samples.drop_first(),
        );
    }
}

/// A property that holds of every held and every pushed sample holds of
/// every sample the buffer holds afterwards.
pub proof fn lemma_ring_push_all_model_pred(
    contents: Seq<u64>,
    capacity: nat,
    samples: Seq<u64>,
    p: spec_fn(u64) -> bool,
)
    requires
        forall|i: int| 0 <= i < contents.len() ==> #[trigger] p(contents[i]),
        forall|i: int| 0 <= i < samples.len() ==> #[trigger] p(samples[i]),
    ensures
        forall|i: int|
            0 <= i < ring_push_all_model(contents, capacity, samples).len() ==> #[trigger] p(
                ring_push_all_model(contents, capacity, samples)[i],
            ),
    decreases samples.len(),
{
    if samples.len() > 0 {
        let pushed = ring_push_model(contents, capacity, samples.first());
        assert(forall|i: int| 0 <= i < pushed.len() ==> #[trigger] p(pushed[i]));
        assert(forall|i: int|
            0 <= i < samples.drop_first().len() ==> #[trigger] p(samples.drop_first()[i]));
        lemma_ring_push_all_model_pred(pushed, capacity, samples.drop_first(), p);
        let whole = ring_push_all_model(contents, capacity, samples);
        assert(whole == ring_push_all_model(pushed, capacity, samples.drop_first()));
        assert forall|i: int| 0 <= i < whole.len() implies #[trigger] p(whole[i]) by {
            assert(whole[i] == ring_push_all_model(pushed, capacity, samples.drop_first())[i]);
        }
    }
}

impl RingBuffer {
    /// Relies on ringbuf's `HeapRb::new` and `split`: a heap-allocated ring
    /// buffer with exactly `capacity` slots, empty at the start, handed out
    /// as its producing and consuming halves. `HeapRb::new` panics on a
    /// capacity of zero, which the precondition rules out.
    #[verifier::external_body]
    pub(crate) fn new(capacity: usize) -> (rb: RingBuffer)
        requires
            capacity >= 1,
        ensures
            ring_contents(rb) == Seq::<u64>::empty(),
            ring_capacity(rb) == capacity as nat,
    {
        let (producer, consumer) = HeapRb::new(capacity).split();
        RingBuffer { producer, consumer }
    }

    /// Relies on ringbuf's `Producer::push`: appends the sample when the
    /// buffer has room and reports success; hands the sample back — here,
    /// drops it — when the buffer is full.
    #[verifier::external_body]
    pub(crate) fn push(&mut self, raw: u64) -> (accepted: bool)
        ensures
            ring_capacity(*final(self)) == ring_capacity(*old(self)),
            ring_contents(*final(self)) == ring_push_model(
                ring_contents(*old(self)),
                ring_capacity(*old(self)),
                raw,
            ),
            accepted == (ring_contents(*old(self)).len() < ring_capacity(*old(self))),
    {
        self.producer.push(raw).is_ok()
    }

    /// Relies on ringbuf's `Consumer::pop`: removes and returns the oldest
    /// sample, or returns nothing when the buffer is empty.
    #[verifier::external_body]
    pub(crate) fn pop(&mut self) -> (r: Option<u64>)
        ensures
            ring_capacity(*final(self)) == ring_capacity(*old(self)),
            match r {
                Some(raw) => ring_contents(*old(self)).len() > 0 && raw == ring_contents(
                    *old(self),
                ).first() && ring_contents(*final(self)) == ring_contents(*old(self)).drop_first(),
                None => ring_contents(*old(self)).len() == 0 && ring_contents(*final(self))
                    == ring_contents(*old(self)),
            },
    {
        self.consumer.pop()
    }

    /// Pushes every sample of `samples` in order, each push non-blocking:
    /// whatever does not fit is dropped, newest first.
    pub(crate) fn push_all(&mut self, samples: &Vec<u64>)
        ensures
            ring_capacity(*final(self)) == ring_capacity(*old(self)),
            ring_contents(*final(self)) == ring_push_all_model(
                ring_contents(*old(self)),
                ring_capacity(*old(self)),
                samples@,
            ),
    {
        let ghost orig = *self;
        let mut i: usize = 0;
        proof {
            assert(samples@.take(0) =~= Seq::<u64>::empty());
        }
        while i < samples.len()
            invariant
                i <= samples@.len(),
                ring_capacity(*self) == ring_capacity(orig),
                ring_contents(*self) == ring_push_all_model(
                    ring_contents(orig),
                    ring_capacity(orig),
                    samples@.take(i as int),
                ),
            decreases samples@.len() - i,
        {
            let raw = samples[i];
            self.push(raw);
            proof {
                lemma_ring_push_all_snoc(
                    ring_contents(orig),
                    ring_capacity(orig),
                    samples@.take(i as int),
                    raw,
                );
                assert(samples@.take(i as int + 1) =~= samples@.take(i as int).push(
                    samples@[i as int],
                ));
            }
            i = i + 1;
        }
        proof {
            assert(samples@.take(samples@.len() as int) =~= samples@);
        }
    }

    /// Pops up to `max` samples, oldest first; stops early when the buffer
    /// runs empty. Returns exactly the popped prefix, in order.
    pub(crate) fn pop_up_to(&mut self, max: usize) -> (r: Vec<u64>)
        ensures
            ring_capacity(*final(self)) == ring_capacity(*old(self)),
            r@ == ring_contents(*old(self)).take(
                if max as int <= ring_contents(*old(self)).len() {
                    max as int
                } else {
                    ring_contents(*old(self)).len() as int
                },
            ),
            ring_contents(*final(self)) == ring_contents(*old(self)).skip(
                if max as int <= ring_contents(*old(self)).len() {
                    max as int
                } else {
                    ring_contents(*old(self)).len() as int
                },
            ),
    {
        let ghost orig = *self;
        let mut out: Vec<u64> = Vec::new();
        let mut count: usize = 0;
        proof {
            assert(ring_contents(orig).take(0) =~= Seq::<u64>::empty());
            assert(ring_contents(orig).skip(0) =~= ring_contents(orig));
        }
        while count < max
            invariant_except_break
                count <= max,
                ring_capacity(*self) == ring_capacity(orig),
                out@ == ring_contents(orig).take(count as int),
                out@.len() == count,
                count <= ring_contents(orig).len(),
                ring_contents(*self) == ring_contents(orig).skip(count as int),
            ensures
                ring_capacity(*self) == ring_capacity(orig),
                out@ == ring_contents(orig).take(
                    if max as int <= ring_contents(orig).len() {
                        max as int
                    } else {
                        ring_contents(orig).len() as int
                    },
                ),
                ring_contents(*self) == ring_contents(orig).skip(
                    if max as int <= ring_contents(orig).len() {
                        max as int
                    } else {
                        ring_contents(orig).len() as int
                    },
                ),
            decreases max - count,
        {
            match self.pop() {
                Some(raw) => {
                    proof {
                        assert(ring_contents(orig).skip(count as int).first() == ring_contents(
                            orig,
                        )[count as int]);
                        assert(ring_contents(orig).skip(count as int).drop_first()
                            =~= ring_contents(orig).skip(count as int + 1));
                        assert(ring_contents(orig).take(count as int + 1) =~= ring_contents(
                            orig,
                        ).take(count as int).push(ring_contents(orig)[count as int]));
                    }
                    out.push(raw);
                    count = count + 1;
                },
                None => {
                    proof {
                        assert(ring_contents(orig).len() == count);
                        assert(ring_contents(orig).take(count as int) =~= ring_contents(orig));
                    }
                    break ;
                },
            }
        }
        out
    }
}

} // verus!
