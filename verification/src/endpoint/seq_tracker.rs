//! Loss estimate from gaps in the sequence numbers of each sender.

use vstd::prelude::*;

use crate::mavlink::frame::NodeId;

verus! {

/// A gap of this size or more means that the sender restarted.
pub const DEFAULT_SEQ_GAP_THRESHOLD: u8 = 64;

/// The last frame seen of one sender.
#[derive(Debug, Clone, Copy, PartialEq, Eq, Structural)]
pub struct SeqEntry {
    pub node: NodeId,
    pub last_seq: u8,
    /// When it was seen, in milliseconds.
    pub last_seen: u64,
}

/// Remembers the last sequence number of each of the most recent senders.
#[derive(Debug)]
pub struct SeqTracker {
    entries: Vec<SeqEntry>,
    capacity: usize,
    threshold: u8,
}

/// The view of a `SeqTracker`.
#[verifier::ext_equal]
pub struct SeqTrackerView {
    pub entries: Seq<SeqEntry>,
    pub capacity: nat,
    pub threshold: u8,
}

impl View for SeqTracker {
    type V = SeqTrackerView;

    closed spec fn view(&self) -> SeqTrackerView {
        SeqTrackerView {
            entries: self.entries@,
            capacity: self.capacity as nat,
            threshold: self.threshold,
        }
    }
}

/// Where the entry of `node` is; the number of entries where it has none.
pub open spec fn entry_index(entries: Seq<SeqEntry>, node: NodeId) -> nat
    decreases entries.len(),
{
    if entries.len() == 0 || entries[0].node == node {
        0
    } else {
        1 + entry_index(entries.skip(1), node)
    }
}

/// The position of the entry not seen for longest among the first `n`; the first of
/// several.
pub open spec fn oldest_index(entries: Seq<SeqEntry>, n: nat) -> int
    decreases n,
{
    if n <= 1 {
        0
    } else {
        let best = oldest_index(entries, (n - 1) as nat);
        if entries[n - 1].last_seen < entries[best].last_seen {
            n - 1
        } else {
            best
        }
    }
}

/// The entries without the one at `i`, the last one moved into its place.
pub open spec fn without_entry(entries: Seq<SeqEntry>, i: int) -> Seq<SeqEntry> {
    entries.update(i, entries.last()).drop_last()
}

/// The frames missing between sequence numbers `last` and `seq`, counting round the end.
pub open spec fn seq_gap(last: u8, seq: u8) -> u8 {
    seq.wrapping_sub(last).wrapping_sub(1)
}

impl SeqTrackerView {
    /// Every sender has one entry, and there are no more than fit.
    pub open spec fn wf(self) -> bool {
        &&& self.capacity >= 1
        &&& self.entries.len() <= self.capacity
        &&& forall|i: int, j: int|
            0 <= i < j < self.entries.len() ==> self.entries[i].node != self.entries[j].node
    }

    /// The frames lost before a frame from `node`, and the tracker after it.
    pub open spec fn observe(self, node: NodeId, seq: u8, now: u64) -> (u32, SeqTrackerView) {
        let i = entry_index(self.entries, node) as int;
        let entry = SeqEntry { node, last_seq: seq, last_seen: now };
        if i < self.entries.len() {
            let gap = seq_gap(self.entries[i].last_seq, seq);
            (
                if 0 < gap < self.threshold {
                    gap as u32
                } else {
                    0
                },
                SeqTrackerView { entries: self.entries.update(i, entry), ..self },
            )
        } else {
            let kept = if self.entries.len() >= self.capacity {
                without_entry(self.entries, oldest_index(self.entries, self.entries.len()))
            } else {
                self.entries
            };
            (0, SeqTrackerView { entries: kept.push(entry), ..self })
        }
    }
}

impl SeqTracker {
    /// A tracker for up to `capacity` senders; for one where `capacity` is 0.
    pub fn new(capacity: usize) -> (r: Self)
        ensures
            r@.wf(),
            r@ == (SeqTrackerView {
                entries: Seq::empty(),
                capacity: if capacity == 0 {
                    1
                } else {
                    capacity as nat
                },
                threshold: DEFAULT_SEQ_GAP_THRESHOLD,
            }),
    {
        SeqTracker::with_threshold(capacity, DEFAULT_SEQ_GAP_THRESHOLD)
    }

    /// A tracker that takes a gap of `threshold` or more for a restart.
    pub fn with_threshold(capacity: usize, threshold: u8) -> (r: Self)
        ensures
            r@.wf(),
            r@ == (SeqTrackerView {
                entries: Seq::empty(),
                capacity: if capacity == 0 {
                    1
                } else {
                    capacity as nat
                },
                threshold,
            }),
    {
        let clamped: usize = if capacity == 0 {
            1
        } else {
            capacity
        };
        SeqTracker { entries: Vec::new(), capacity: clamped, threshold }
    }

    /// How many senders are remembered.
    pub fn len(&self) -> (r: usize)
        ensures
            r == self@.entries.len(),
    {
        self.entries.len()
    }

    /// How many senders there is room for.
    pub fn capacity(&self) -> (r: usize)
        ensures
            r == self@.capacity,
    {
        self.capacity
    }

    /// Note a frame from `node` and say how many frames were lost before it. A sender not
    /// seen before takes the place of the one not seen for longest where there is no room.
    pub fn observe(&mut self, node: NodeId, seq: u8, now: u64) -> (r: u32)
        requires
            old(self)@.wf(),
        ensures
            final(self)@.wf(),
            (r, final(self)@) == old(self)@.observe(node, seq, now),
    {
        let ghost before = self@;
        let i: usize = self.find(node);
        if i < self.entries.len() {
            let gap: u8 = seq.wrapping_sub(self.entries[i].last_seq).wrapping_sub(1);
            self.entries.set(i, SeqEntry { node, last_seq: seq, last_seen: now });
            if gap > 0 && gap < self.threshold {
                return gap as u32;
            }
            return 0;
        }
        if self.entries.len() >= self.capacity {
            proof {
                law_oldest_is_oldest(before.entries, before.entries.len());
                lemma_without_entry(
                    before.entries,
                    oldest_index(before.entries, before.entries.len()),
                    node,
                );
            }
            self.evict_oldest();
        }
        self.entries.push(SeqEntry { node, last_seq: seq, last_seen: now });
        0
    }

    /// Where the entry of `node` is.
    fn find(&self, node: NodeId) -> (r: usize)
        ensures
            r == entry_index(self@.entries, node),
            r <= self@.entries.len(),
            r < self@.entries.len() ==> self@.entries[r as int].node == node,
            forall|j: int| 0 <= j < r ==> (#[trigger] self@.entries[j]).node != node,
    {
        let ghost all = self.entries@;
        let mut i: usize = 0;
        assert(all.skip(0) == all);
        while i < self.entries.len()
            invariant
                i <= all.len(),
                all == self.entries@,
                entry_index(all, node) == i + entry_index(all.skip(i as int), node),
                forall|j: int| 0 <= j < i ==> (#[trigger] all[j]).node != node,
            decreases all.len() - i,
        {
            proof {
                assert(all.skip(i as int)[0] == all[i as int]);
                assert(all.skip(i as int).skip(1) == all.skip(i + 1));
            }
            if self.entries[i].node == node {
                return i;
            }
            i = i + 1;
        }
        i
    }

    /// Forget the sender not seen for longest.
    fn evict_oldest(&mut self)
        requires
            old(self)@.entries.len() > 0,
        ensures
            ({
                let e = old(self)@.entries;
                final(self)@ == (SeqTrackerView {
                    entries: without_entry(e, oldest_index(e, e.len())),
                    ..old(self)@
                })
            }),
    {
        let ghost e = self.entries@;
        let mut best: usize = 0;
        let mut i: usize = 1;
        while i < self.entries.len()
            invariant
                e == self.entries@,
                1 <= i <= e.len(),
                best < i,
                best == oldest_index(e, i as nat),
            decreases e.len() - i,
        {
            if self.entries[i].last_seen < self.entries[best].last_seen {
                best = i;
            }
            i = i + 1;
        }
        self.entries.swap_remove(best);
        assert(self.entries@ =~= without_entry(e, best as int));
    }
}

/// Removing an entry keeps the senders apart and brings none in.
proof fn lemma_without_entry(e: Seq<SeqEntry>, k: int, node: NodeId)
    requires
        0 <= k < e.len(),
        forall|i: int, j: int| 0 <= i < j < e.len() ==> e[i].node != e[j].node,
        forall|j: int| 0 <= j < e.len() ==> (#[trigger] e[j]).node != node,
    ensures
        ({
            let w = without_entry(e, k);
            &&& w.len() == e.len() - 1
            &&& forall|i: int, j: int| 0 <= i < j < w.len() ==> w[i].node != w[j].node
            &&& forall|j: int| 0 <= j < w.len() ==> (#[trigger] w[j]).node != node
        }),
{
    let w = without_entry(e, k);
    assert forall|j: int| 0 <= j < w.len() implies #[trigger] w[j] == if j == k {
        e.last()
    } else {
        e[j]
    } by {}
}

/// The evicted entry is one not seen for longest.
pub proof fn law_oldest_is_oldest(entries: Seq<SeqEntry>, n: nat)
    requires
        0 < n <= entries.len(),
    ensures
        0 <= oldest_index(entries, n) < n,
        forall|i: int|
            0 <= i < n ==> entries[oldest_index(entries, n)].last_seen <= (
            #[trigger] entries[i]).last_seen,
    decreases n,
{
    if n > 1 {
        law_oldest_is_oldest(entries, (n - 1) as nat);
    }
}

/// Consecutive frames of one sender lose nothing, also where the number starts over.
pub proof fn law_consecutive_loses_nothing(t: SeqTrackerView, node: NodeId, seq: u8, now: u64)
    requires
        entry_index(t.entries, node) < t.entries.len(),
        t.entries[entry_index(t.entries, node) as int].last_seq.wrapping_add(1) == seq,
    ensures
        t.observe(node, seq, now).0 == 0,
{
}

/// The estimate never reaches the threshold.
pub proof fn law_loss_below_threshold(t: SeqTrackerView, node: NodeId, seq: u8, now: u64)
    ensures
        t.observe(node, seq, now).0 == 0 || t.observe(node, seq, now).0 < t.threshold,
{
}

/// What a frame says about loss. The first frame of a sender says nothing. After a frame
/// numbered `last`, one numbered `gap + 1` further on, counting round at 256, says that `gap`
/// frames were lost, unless the gap reaches the threshold: then the sender has restarted and
/// nothing was lost.
pub proof fn law_gap_is_what_was_lost(t: SeqTrackerView, node: NodeId, seq: u8, now: u64)
    requires
        t.wf(),
    ensures
        (forall|i: int| 0 <= i < t.entries.len() ==> (#[trigger] t.entries[i]).node != node)
            ==> t.observe(node, seq, now).0 == 0,
        forall|i: int, gap: int|
            0 <= i < t.entries.len() && (#[trigger] t.entries[i]).node == node && 0 <= gap < 256
                && seq == #[trigger] ((t.entries[i].last_seq + 1 + gap) % 256) ==> t.observe(
                node,
                seq,
                now,
            ).0 == if gap < t.threshold {
                gap
            } else {
                0
            },
{
    lemma_entry_index(t.entries, node);
    assert forall|i: int, gap: int|
        0 <= i < t.entries.len() && (#[trigger] t.entries[i]).node == node && 0 <= gap < 256
            && seq == #[trigger] ((t.entries[i].last_seq + 1 + gap) % 256) implies t.observe(
        node,
        seq,
        now,
    ).0 == if gap < t.threshold {
        gap
    } else {
        0
    } by {
        let k = entry_index(t.entries, node) as int;
        assert(k <= i);
        if k < i {
            assert(t.entries[k].node != t.entries[i].node);
        }
        assert(seq_gap(t.entries[i].last_seq, seq) == gap);
    }
}

/// Where the entry of a sender is.
proof fn lemma_entry_index(entries: Seq<SeqEntry>, node: NodeId)
    ensures
        entry_index(entries, node) <= entries.len(),
        entry_index(entries, node) < entries.len() ==> entries[entry_index(
            entries,
            node,
        ) as int].node == node,
        forall|i: int|
            0 <= i < entries.len() && (#[trigger] entries[i]).node == node ==> entry_index(
                entries,
                node,
            ) <= i,
    decreases entries.len(),
{
    if entries.len() > 0 && entries[0].node != node {
        let rest = entries.skip(1);
        lemma_entry_index(rest, node);
        assert forall|i: int|
            0 <= i < entries.len() && (#[trigger] entries[i]).node == node implies entry_index(
            entries,
            node,
        ) <= i by {
            assert(rest[i - 1] == entries[i]);
        }
    }
}

/// A frame is remembered as the last of its sender. What is remembered of other senders
/// stays, unless there is no room for a sender that is new: then one goes, and none was seen
/// less lately.
pub proof fn law_other_senders_are_left_alone(
    t: SeqTrackerView,
    node: NodeId,
    seq: u8,
    now: u64,
)
    requires
        t.wf(),
    ensures
        ({
            let after = t.observe(node, seq, now).1;
            let known = exists|i: int| 0 <= i < t.entries.len() && (#[trigger] t.entries[i]).node == node;
            &&& after.capacity == t.capacity
            &&& after.threshold == t.threshold
            &&& after.entries.contains(SeqEntry { node, last_seq: seq, last_seen: now })
            &&& known || t.entries.len() < t.capacity ==> forall|e: SeqEntry|
                t.entries.contains(e) && e.node != node ==> #[trigger] after.entries.contains(e)
            &&& !known && t.entries.len() == t.capacity ==> exists|k: int|
                0 <= k < t.entries.len() && (forall|i: int|
                    0 <= i < t.entries.len() ==> (#[trigger] t.entries[k]).last_seen <= (
                    #[trigger] t.entries[i]).last_seen) && forall|e: SeqEntry|
                    t.entries.contains(e) && e != t.entries[k]
                        ==> #[trigger] after.entries.contains(e)
        }),
{
    lemma_entry_index(t.entries, node);
    let k = entry_index(t.entries, node) as int;
    let entry = SeqEntry { node, last_seq: seq, last_seen: now };
    let after = t.observe(node, seq, now).1;
    if k < t.entries.len() {
        assert(t.entries[k].node == node);
        assert(after.entries[k] == entry);
        assert forall|e: SeqEntry| t.entries.contains(e) && e.node != node implies (
        #[trigger] after.entries.contains(e)) by {
            let i = t.entries.index_of(e);
            assert(after.entries[i] == e);
        }
    } else {
        assert(after.entries[after.entries.len() - 1] == entry);
        if t.entries.len() < t.capacity {
            assert forall|e: SeqEntry| t.entries.contains(e) && e.node != node implies (
            #[trigger] after.entries.contains(e)) by {
                let i = t.entries.index_of(e);
                assert(after.entries[i] == e);
            }
        } else {
            let n = t.entries.len();
            law_oldest_is_oldest(t.entries, n);
            let o = oldest_index(t.entries, n);
            assert forall|e: SeqEntry| t.entries.contains(e) && e != t.entries[o] implies (
            #[trigger] after.entries.contains(e)) by {
                let i = t.entries.index_of(e);
                if i == n - 1 {
                    assert(after.entries[o] == e);
                } else {
                    assert(after.entries[i] == e);
                }
            }
            assert(forall|i: int|
                0 <= i < t.entries.len() ==> (#[trigger] t.entries[o]).last_seen <= (
                #[trigger] t.entries[i]).last_seen);
        }
    }
}

} // verus!
