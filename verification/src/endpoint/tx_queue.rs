//! The queue of frames on their way to an endpoint: bounded, dropping the oldest.

use bytes::Bytes;
use crossbeam_queue::ArrayQueue;
use vstd::prelude::*;

use crate::endpoint::stats::EndpointStats;
use crate::mavlink::buffer;

verus! {

/// `crossbeam_queue::ArrayQueue`.
#[verifier::external_type_specification]
#[verifier::external_body]
#[verifier::reject_recursive_types(T)]
pub struct ExArrayQueue<T>(crossbeam_queue::ArrayQueue<T>);

/// The frames that a queue holds, oldest first.
pub uninterp spec fn queued(q: ArrayQueue<Bytes>) -> Seq<Seq<u8>>;

/// The number of frames that a queue has room for.
pub uninterp spec fn room(q: ArrayQueue<Bytes>) -> nat;

/// `ArrayQueue::new` makes an empty queue with room for `cap` items. It panics where
/// `cap` is 0 or the slots, each below 64 bytes, do not fit the address space.
#[verifier::external_body]
fn queue_new(cap: usize) -> (r: ArrayQueue<Bytes>)
    requires
        0 < cap <= isize::MAX / 64,
    ensures
        queued(r) == Seq::<Seq<u8>>::empty(),
        room(r) == cap,
{
    ArrayQueue::new(cap)
}

/// `ArrayQueue::force_push` appends an item. Where the queue is full, the oldest item
/// makes room and is handed back.
#[verifier::external_body]
fn queue_force_push(q: &mut ArrayQueue<Bytes>, frame: Bytes) -> (r: Option<Bytes>)
    ensures
        room(*final(q)) == room(*old(q)),
        match r {
            None => {
                &&& queued(*old(q)).len() < room(*old(q))
                &&& queued(*final(q)) == queued(*old(q)).push(buffer::content(frame))
            },
            Some(oldest) => {
                &&& queued(*old(q)).len() == room(*old(q))
                &&& queued(*old(q)).len() > 0
                &&& buffer::content(oldest) == queued(*old(q))[0]
                &&& queued(*final(q)) == queued(*old(q)).skip(1).push(buffer::content(frame))
            },
        },
{
    q.force_push(frame)
}

/// `ArrayQueue::pop` takes the oldest item out; `None` where there is none.
#[verifier::external_body]
fn queue_pop(q: &mut ArrayQueue<Bytes>) -> (r: Option<Bytes>)
    ensures
        room(*final(q)) == room(*old(q)),
        match r {
            None => queued(*old(q)).len() == 0 && queued(*final(q)) == queued(*old(q)),
            Some(oldest) => {
                &&& queued(*old(q)).len() > 0
                &&& buffer::content(oldest) == queued(*old(q))[0]
                &&& queued(*final(q)) == queued(*old(q)).skip(1)
            },
        },
{
    q.pop()
}

/// `ArrayQueue::len` is the number of items held.
#[verifier::external_body]
fn queue_len(q: &ArrayQueue<Bytes>) -> (r: usize)
    ensures
        r == queued(*q).len(),
{
    q.len()
}

/// Frames on their way to an endpoint. What does not fit pushes the oldest out.
#[derive(Debug)]
pub struct TxQueue {
    inner: ArrayQueue<Bytes>,
}

/// The view of a `TxQueue`.
#[verifier::ext_equal]
pub struct TxQueueView {
    /// Frames waiting, oldest first.
    pub frames: Seq<Seq<u8>>,
    /// Most frames that can wait.
    pub capacity: nat,
}

impl View for TxQueue {
    type V = TxQueueView;

    closed spec fn view(&self) -> TxQueueView {
        TxQueueView { frames: queued(self.inner), capacity: room(self.inner) }
    }
}

impl TxQueueView {
    /// There is room for a frame, and no more wait than fit.
    pub open spec fn wf(self) -> bool {
        self.capacity >= 1 && self.frames.len() <= self.capacity
    }

    /// The queue after a frame joined it.
    pub open spec fn pushed(self, frame: Seq<u8>) -> TxQueueView {
        TxQueueView {
            frames: if self.frames.len() < self.capacity {
                self.frames.push(frame)
            } else {
                self.frames.skip(1).push(frame)
            },
            ..self
        }
    }
}

/// `n` more frames dropped.
pub open spec fn with_dropped(stats: EndpointStats, n: nat) -> EndpointStats {
    EndpointStats { dropped_tx: stats.dropped_tx.wrapping_add(n as u64), ..stats }
}

impl TxQueue {
    /// An empty queue with room for `capacity` frames; for one where `capacity` is 0.
    pub fn new(capacity: usize) -> (r: Self)
        requires
            capacity <= isize::MAX / 64,
        ensures
            r@.wf(),
            r@ == (TxQueueView {
                frames: Seq::empty(),
                capacity: if capacity == 0 {
                    1
                } else {
                    capacity as nat
                },
            }),
    {
        let clamped: usize = if capacity == 0 {
            1
        } else {
            capacity
        };
        TxQueue { inner: queue_new(clamped) }
    }

    /// Append a frame. Where the queue is full the oldest frame is dropped and counted.
    pub fn push(&mut self, frame: Bytes, stats: &mut EndpointStats)
        requires
            old(self)@.wf(),
        ensures
            final(self)@.wf(),
            final(self)@ == old(self)@.pushed(buffer::content(frame)),
            *final(stats) == if old(self)@.frames.len() < old(self)@.capacity {
                *old(stats)
            } else {
                with_dropped(*old(stats), 1)
            },
    {
        if queue_force_push(&mut self.inner, frame).is_some() {
            stats.dropped_tx = stats.dropped_tx.wrapping_add(1);
        }
    }

    /// Take the oldest frame out.
    pub fn pop(&mut self) -> (r: Option<Bytes>)
        requires
            old(self)@.wf(),
        ensures
            final(self)@.wf(),
            match r {
                None => old(self)@.frames.len() == 0 && final(self)@ == old(self)@,
                Some(frame) => {
                    &&& old(self)@.frames.len() > 0
                    &&& buffer::content(frame) == old(self)@.frames[0]
                    &&& final(self)@ == (TxQueueView {
                        frames: old(self)@.frames.skip(1),
                        ..old(self)@
                    })
                },
            },
    {
        queue_pop(&mut self.inner)
    }

    /// Drop every frame, count them as dropped and say how many there were.
    pub fn drain_and_discard(&mut self, stats: &mut EndpointStats) -> (r: usize)
        requires
            old(self)@.wf(),
        ensures
            final(self)@.wf(),
            final(self)@ == (TxQueueView { frames: Seq::empty(), ..old(self)@ }),
            r == old(self)@.frames.len(),
            *final(stats) == with_dropped(*old(stats), old(self)@.frames.len()),
    {
        let n: usize = queue_len(&self.inner);
        let mut count: usize = 0;
        let mut more = true;
        while more
            invariant
                n == old(self)@.frames.len(),
                self@.capacity == old(self)@.capacity,
                count <= n,
                self@.frames.len() == n - count,
                !more ==> count == n,
            decreases
                self@.frames.len(),
                if more {
                    1int
                } else {
                    0int
                },
        {
            match queue_pop(&mut self.inner) {
                Some(_) => {
                    count = count + 1;
                },
                None => {
                    more = false;
                },
            }
        }
        assert(self@.frames =~= Seq::empty());
        stats.dropped_tx = stats.dropped_tx.wrapping_add(count as u64);
        count
    }

    /// The number of frames waiting.
    pub fn len(&self) -> (r: usize)
        ensures
            r == self@.frames.len(),
    {
        queue_len(&self.inner)
    }

    /// Whether no frame waits.
    pub fn is_empty(&self) -> (r: bool)
        ensures
            r == (self@.frames.len() == 0),
    {
        queue_len(&self.inner) == 0
    }
}

/// A frame that joins the queue is the newest in it, those before it keep their order,
/// and the queue never holds more than it has room for.
pub proof fn law_push_keeps_newest(q: TxQueueView, frame: Seq<u8>)
    requires
        q.wf(),
    ensures
        q.pushed(frame).wf(),
        q.pushed(frame).frames.last() == frame,
        q.frames.len() < q.capacity ==> q.pushed(frame).frames.drop_last() == q.frames,
        q.frames.len() == q.capacity ==> q.pushed(frame).frames.drop_last() == q.frames.skip(1),
{
    assert(q.pushed(frame).frames.drop_last() =~= if q.frames.len() < q.capacity {
        q.frames
    } else {
        q.frames.skip(1)
    });
}

/// The queue and the counters after frames were pushed one after the other.
pub open spec fn all_pushed(q: TxQueueView, stats: EndpointStats, frames: Seq<Seq<u8>>) -> (
    TxQueueView,
    EndpointStats,
)
    decreases frames.len(),
{
    if frames.len() == 0 {
        (q, stats)
    } else {
        let (before, counted) = all_pushed(q, stats, frames.drop_last());
        (
            before.pushed(frames.last()),
            if before.frames.len() < before.capacity {
                counted
            } else {
                with_dropped(counted, 1)
            },
        )
    }
}

/// What was handed out by `n` pops, and the queue after them.
pub open spec fn popped(q: TxQueueView, n: nat) -> (Seq<Seq<u8>>, TxQueueView)
    decreases n,
{
    if n == 0 {
        (Seq::empty(), q)
    } else {
        let (out, rest) = popped(q, (n - 1) as nat);
        if rest.frames.len() == 0 {
            (out, rest)
        } else {
            (out.push(rest.frames[0]), TxQueueView { frames: rest.frames.skip(1), ..rest })
        }
    }
}

/// Frames pushed into an empty queue: the newest of them are there, as many as there is
/// room for and in order, and the others were dropped and counted.
pub proof fn law_newest_are_kept(q: TxQueueView, stats: EndpointStats, frames: Seq<Seq<u8>>)
    requires
        q.wf(),
        q.frames.len() == 0,
        frames.len() <= u64::MAX,
        stats.dropped_tx == 0,
    ensures
        ({
            let (after, counted) = all_pushed(q, stats, frames);
            let kept = if frames.len() < q.capacity {
                frames.len()
            } else {
                q.capacity
            };
            &&& after.wf()
            &&& after.capacity == q.capacity
            &&& after.frames == frames.skip(frames.len() - kept)
            &&& counted == (EndpointStats { dropped_tx: (frames.len() - kept) as u64, ..stats })
        }),
    decreases frames.len(),
{
    if frames.len() == 0 {
        assert(q.frames =~= frames.skip(0));
    } else {
        let init = frames.drop_last();
        law_newest_are_kept(q, stats, init);
        let (before, counted) = all_pushed(q, stats, init);
        let (after, _) = all_pushed(q, stats, frames);
        if init.len() < q.capacity {
            assert(after.frames =~= frames.skip(0));
        } else {
            assert(after.frames =~= frames.skip(frames.len() - q.capacity));
        }
    }
}

/// Pops hand the frames out from the oldest on, then nothing.
pub proof fn law_pops_follow_the_order(q: TxQueueView, n: nat)
    ensures
        ({
            let taken = if n < q.frames.len() {
                n
            } else {
                q.frames.len()
            };
            popped(q, n) == (
                q.frames.take(taken as int),
                (TxQueueView { frames: q.frames.skip(taken as int), ..q }),
            )
        }),
    decreases n,
{
    if n == 0 {
        assert(q.frames.take(0) =~= Seq::empty());
        assert(q.frames.skip(0) =~= q.frames);
    } else {
        law_pops_follow_the_order(q, (n - 1) as nat);
        if n <= q.frames.len() {
            assert(q.frames.take(n as int) =~= q.frames.take(n - 1).push(q.frames[n - 1]));
            assert(q.frames.skip(n - 1).skip(1) =~= q.frames.skip(n as int));
            assert(q.frames.skip(n - 1)[0] == q.frames[n - 1]);
        }
    }
}

/// Frames that are dropped are added to the count of those, and nothing else changes.
pub proof fn law_dropped_frames_are_counted(stats: EndpointStats, n: nat)
    requires
        n <= usize::MAX,
    ensures
        with_dropped(stats, n).dropped_tx == (stats.dropped_tx + n) % 0x1_0000_0000_0000_0000,
        with_dropped(stats, n) == (EndpointStats {
            dropped_tx: with_dropped(stats, n).dropped_tx,
            ..stats
        }),
{
}

} // verus!
