//! Suppression of frames that come in more than once.

use vstd::prelude::*;

verus! {

/// A frame that was seen, and until when it counts, in milliseconds.
#[derive(Debug)]
struct Seen {
    frame: Vec<u8>,
    until: u64,
}

/// The frames seen lately.
#[derive(Debug)]
pub struct DedupWindow {
    entries: Vec<Seen>,
    capacity: usize,
}

/// The view of a `DedupWindow`: the frames with their deadlines, the oldest first.
#[verifier::ext_equal]
pub struct DedupView {
    pub entries: Seq<(Seq<u8>, u64)>,
    pub capacity: nat,
}

impl View for DedupWindow {
    type V = DedupView;

    closed spec fn view(&self) -> DedupView {
        DedupView { entries: seen_views(self.entries@), capacity: self.capacity as nat }
    }
}

/// The frames and deadlines of entries.
spec fn seen_views(v: Seq<Seen>) -> Seq<(Seq<u8>, u64)> {
    Seq::new(v.len(), |i: int| (v[i].frame@, v[i].until))
}

/// The entries that still count at the time `now`.
pub open spec fn unexpired(entries: Seq<(Seq<u8>, u64)>, now: u64) -> Seq<(Seq<u8>, u64)>
    decreases entries.len(),
{
    if entries.len() == 0 {
        Seq::empty()
    } else if entries.last().1 <= now {
        unexpired(entries.drop_last(), now)
    } else {
        unexpired(entries.drop_last(), now).push(entries.last())
    }
}

/// Whether `frame` is among the entries.
pub open spec fn has_frame(entries: Seq<(Seq<u8>, u64)>, frame: Seq<u8>) -> bool {
    exists|i: int| 0 <= i < entries.len() && (#[trigger] entries[i]).0 == frame
}

impl DedupView {
    /// The window after it was asked about a frame. A frame that is new in it counts for
    /// `ttl` milliseconds from now; where there is no room the oldest is forgotten.
    pub open spec fn after(self, frame: Seq<u8>, now: u64, ttl: u64) -> DedupView {
        let fresh = unexpired(self.entries, now);
        let until = if now + ttl <= u64::MAX {
            (now + ttl) as u64
        } else {
            u64::MAX
        };
        DedupView {
            entries: if has_frame(fresh, frame) {
                fresh
            } else if fresh.len() < self.capacity {
                fresh.push((frame, until))
            } else {
                fresh.skip(1).push((frame, until))
            },
            ..self
        }
    }
}

/// Whether two frames are the same.
fn bytes_eq(a: &[u8], b: &[u8]) -> (r: bool)
    ensures
        r == (a@ == b@),
{
    if a.len() != b.len() {
        return false;
    }
    let mut i: usize = 0;
    while i < a.len()
        invariant
            i <= a@.len(),
            a@.len() == b@.len(),
            forall|j: int| 0 <= j < i ==> a@[j] == b@[j],
        decreases a@.len() - i,
    {
        if a[i] != b[i] {
            return false;
        }
        i = i + 1;
    }
    assert(a@ =~= b@);
    true
}

/// Copy a frame.
fn copy_bytes(a: &[u8]) -> (r: Vec<u8>)
    ensures
        r@ == a@,
{
    let mut v: Vec<u8> = Vec::new();
    let mut i: usize = 0;
    while i < a.len()
        invariant
            i <= a@.len(),
            v@ =~= a@.take(i as int),
        decreases a@.len() - i,
    {
        v.push(a[i]);
        i = i + 1;
    }
    assert(a@.take(a@.len() as int) =~= a@);
    v
}

impl DedupWindow {
    /// An empty window with room for `capacity` frames; for one where `capacity` is 0.
    pub fn new(capacity: usize) -> (r: Self)
        ensures
            r@.entries == Seq::<(Seq<u8>, u64)>::empty(),
            r@.capacity == if capacity == 0 {
                1
            } else {
                capacity as nat
            },
    {
        let r = DedupWindow {
            entries: Vec::new(),
            capacity: if capacity == 0 {
                1
            } else {
                capacity
            },
        };
        assert(seen_views(r.entries@) =~= Seq::empty());
        r
    }

    /// Forget what no longer counts.
    fn expire(&mut self, now: u64)
        ensures
            final(self)@ == (DedupView {
                entries: unexpired(old(self)@.entries, now),
                ..old(self)@
            }),
    {
        let ghost all = self@.entries;
        let mut rest: Vec<Seen> = Vec::new();
        std::mem::swap(&mut rest, &mut self.entries);
        assert(all.take(0) =~= Seq::empty());
        assert(seen_views(self.entries@) =~= Seq::empty());
        for seen in it: rest.into_iter()
            invariant
                all == seen_views(it.seq()),
                self.capacity == old(self).capacity,
                seen_views(self.entries@) == unexpired(all.take(it.index() as int), now),
        {
            proof {
                let i = it.index() as int;
                assert(all.take(i + 1).drop_last() =~= all.take(i));
                assert(all.take(i + 1).last() == (seen.frame@, seen.until));
            }
            if seen.until > now {
                let ghost before = seen_views(self.entries@);
                self.entries.push(seen);
                assert(seen_views(self.entries@) =~= before.push((seen.frame@, seen.until)));
            }
        }
        assert(all.take(all.len() as int) =~= all);
    }

    /// Whether `frame` came in before, less than `ttl` milliseconds ago. One that did not
    /// counts from now on.
    pub fn is_duplicate(&mut self, frame: &[u8], now: u64, ttl: u64) -> (r: bool)
        requires
            old(self)@.capacity >= 1,
        ensures
            r == has_frame(unexpired(old(self)@.entries, now), frame@),
            r == exists|i: int|
                0 <= i < old(self)@.entries.len() && (#[trigger] old(self)@.entries[i]).0
                    == frame@ && old(self)@.entries[i].1 > now,
            final(self)@ == old(self)@.after(frame@, now, ttl),
    {
        proof {
            lemma_unexpired_has(self@.entries, now, frame@);
        }
        self.expire(now);
        let ghost fresh = self@.entries;
        let mut i: usize = 0;
        while i < self.entries.len()
            invariant
                i <= self.entries@.len(),
                fresh == seen_views(self.entries@),
                fresh == self@.entries,
                fresh == unexpired(old(self)@.entries, now),
                self@ == (DedupView { entries: fresh, ..old(self)@ }),
                forall|j: int| 0 <= j < i ==> (#[trigger] fresh[j]).0 != frame@,
            decreases self.entries@.len() - i,
        {
            if bytes_eq(&self.entries[i].frame, frame) {
                assert(fresh[i as int].0 == frame@);
                proof {
                    lemma_unexpired_has(old(self)@.entries, now, frame@);
                }
                return true;
            }
            assert(fresh[i as int].0 != frame@);
            i = i + 1;
        }
        if self.entries.len() >= self.capacity {
            self.entries.remove(0);
            assert(seen_views(self.entries@) =~= fresh.skip(1));
        }
        let ghost kept = seen_views(self.entries@);
        let seen = Seen { frame: copy_bytes(frame), until: now.saturating_add(ttl) };
        self.entries.push(seen);
        assert(seen_views(self.entries@) =~= kept.push((frame@, seen.until)));
        false
    }
}

/// A frame that comes in again before its time is up is a duplicate, one that comes in
/// when its time is up is not.
pub proof fn law_repeat_is_duplicate(w: DedupView, frame: Seq<u8>, now: u64, ttl: u64, later: u64)
    requires
        w.capacity >= 1,
        !has_frame(unexpired(w.entries, now), frame),
        now <= later,
        now + ttl <= u64::MAX,
    ensures
        has_frame(unexpired(w.after(frame, now, ttl).entries, later), frame) <==> later < now + ttl,
{
    let out = w.after(frame, now, ttl).entries;
    let fresh = unexpired(w.entries, now);
    let init = out.drop_last();
    assert(init =~= fresh || init =~= fresh.skip(1));
    assert forall|i: int| 0 <= i < init.len() implies (#[trigger] init[i]).0 != frame by {
        if init.len() == fresh.len() {
            assert(init[i] == fresh[i]);
        } else {
            assert(init[i] == fresh[i + 1]);
        }
    }
    lemma_unexpired_from(init, later);
    let left = unexpired(out, later);
    let kept = unexpired(init, later);
    if later < now + ttl {
        assert(left[left.len() - 1].0 == frame);
    } else if has_frame(left, frame) {
        let i = choose|i: int| 0 <= i < left.len() && (#[trigger] left[i]).0 == frame;
        assert(init.contains(kept[i]));
        let k = init.index_of(kept[i]);
        assert(init[k].0 == frame);
    }
}

/// What is left was there.
proof fn lemma_unexpired_from(entries: Seq<(Seq<u8>, u64)>, now: u64)
    ensures
        forall|i: int|
            0 <= i < unexpired(entries, now).len() ==> entries.contains(
                #[trigger] unexpired(entries, now)[i],
            ),
    decreases entries.len(),
{
    if entries.len() > 0 {
        let init = entries.drop_last();
        lemma_unexpired_from(init, now);
        let out = unexpired(entries, now);
        assert forall|i: int| 0 <= i < out.len() implies entries.contains(#[trigger] out[i]) by {
            if i < unexpired(init, now).len() {
                assert(out[i] == unexpired(init, now)[i]);
                let k = init.index_of(out[i]);
                assert(entries[k] == out[i]);
            } else {
                assert(entries[entries.len() - 1] == out[i]);
            }
        }
    }
}

/// What still counts is what has a deadline after `now`, in the same order.
pub proof fn law_unexpired_is_what_lasts(entries: Seq<(Seq<u8>, u64)>, now: u64)
    ensures
        unexpired(entries, now) == entries.filter(|e: (Seq<u8>, u64)| e.1 > now),
    decreases entries.len(),
{
    reveal(Seq::filter);
    if entries.len() > 0 {
        law_unexpired_is_what_lasts(entries.drop_last(), now);
    } else {
        assert(entries.filter(|e: (Seq<u8>, u64)| e.1 > now) =~= Seq::<(Seq<u8>, u64)>::empty());
    }
}

/// Among what still counts is exactly what is in the window with a deadline after `now`.
pub proof fn lemma_unexpired_has(entries: Seq<(Seq<u8>, u64)>, now: u64, frame: Seq<u8>)
    ensures
        has_frame(unexpired(entries, now), frame) <==> exists|i: int|
            0 <= i < entries.len() && (#[trigger] entries[i]).0 == frame && entries[i].1 > now,
        forall|e: (Seq<u8>, u64)|
            entries.contains(e) && e.1 > now ==> #[trigger] unexpired(entries, now).contains(e),
    decreases entries.len(),
{
    if entries.len() > 0 {
        let init = entries.drop_last();
        let last = entries.last();
        lemma_unexpired_has(init, now, frame);
        let out = unexpired(entries, now);
        let before = unexpired(init, now);
        if has_frame(out, frame) {
            let k = choose|k: int| 0 <= k < out.len() && (#[trigger] out[k]).0 == frame;
            if k < before.len() {
                assert(before[k].0 == frame);
                let i = choose|i: int|
                    0 <= i < init.len() && (#[trigger] init[i]).0 == frame && init[i].1 > now;
                assert(entries[i] == init[i]);
            } else {
                assert(entries[entries.len() - 1] == last);
            }
        }
        if exists|i: int|
            0 <= i < entries.len() && (#[trigger] entries[i]).0 == frame && entries[i].1 > now {
            let i = choose|i: int|
                0 <= i < entries.len() && (#[trigger] entries[i]).0 == frame && entries[i].1 > now;
            if i < init.len() {
                assert(init[i].0 == frame);
                let k = choose|k: int| 0 <= k < before.len() && (#[trigger] before[k]).0 == frame;
                assert(out[k].0 == frame);
            } else {
                assert(out[out.len() - 1].0 == frame);
            }
        }
        assert forall|e: (Seq<u8>, u64)| entries.contains(e) && e.1 > now implies (
        #[trigger] out.contains(e)) by {
            let i = entries.index_of(e);
            if i < init.len() {
                assert(init[i] == e);
                assert(before.contains(e));
                let k = before.index_of(e);
                assert(out[k] == e);
            } else {
                assert(out[out.len() - 1] == e);
            }
        }
    }
}

/// The window after a frame came in. A frame with a deadline still ahead is a duplicate and
/// changes nothing but that what has expired is gone: its deadline stays. Any other frame is
/// the newest from then on, with a deadline `ttl` milliseconds ahead. Nothing that is not
/// expired is forgotten as long as fewer than `capacity` are; where there are as many, the
/// oldest of them goes and no other.
pub proof fn law_window_forgets_no_more_than_it_must(
    w: DedupView,
    frame: Seq<u8>,
    now: u64,
    ttl: u64,
)
    requires
        w.capacity >= 1,
    ensures
        ({
            let lasting = w.entries.filter(|e: (Seq<u8>, u64)| e.1 > now);
            let seen = exists|i: int|
                0 <= i < w.entries.len() && (#[trigger] w.entries[i]).0 == frame
                    && w.entries[i].1 > now;
            let out = w.after(frame, now, ttl);
            &&& out.capacity == w.capacity
            &&& seen ==> out.entries == lasting
            &&& !seen ==> out.entries.len() > 0 && out.entries.last().0 == frame
            &&& !seen && now + ttl <= u64::MAX ==> out.entries.last().1 == now + ttl
            &&& !seen && now + ttl > u64::MAX ==> out.entries.last().1 == u64::MAX
            &&& !seen && lasting.len() < w.capacity ==> out.entries.drop_last() == lasting
            &&& !seen && lasting.len() >= w.capacity ==> out.entries.drop_last() == lasting.skip(1)
            &&& lasting.len() < w.capacity ==> forall|e: (Seq<u8>, u64)|
                w.entries.contains(e) && e.1 > now ==> #[trigger] out.entries.contains(e)
            &&& lasting.len() <= w.capacity ==> out.entries.len() <= w.capacity
        }),
{
    law_unexpired_is_what_lasts(w.entries, now);
    lemma_unexpired_has(w.entries, now, frame);
    let lasting = w.entries.filter(|e: (Seq<u8>, u64)| e.1 > now);
    let out = w.after(frame, now, ttl);
    if !has_frame(lasting, frame) {
        if lasting.len() < w.capacity {
            assert(out.entries.drop_last() =~= lasting);
        } else {
            assert(out.entries.drop_last() =~= lasting.skip(1));
        }
    }
    assert forall|e: (Seq<u8>, u64)|
        lasting.len() < w.capacity && w.entries.contains(e) && e.1 > now implies (
    #[trigger] out.entries.contains(e)) by {
        assert(lasting.contains(e));
        let k = lasting.index_of(e);
        assert(out.entries[k] == e);
    }
}

/// The window after frames came in one after the other, each at its time, and how many of
/// them were new.
pub open spec fn all_in(w: DedupView, arrivals: Seq<(Seq<u8>, u64)>, ttl: u64) -> (DedupView, nat)
    decreases arrivals.len(),
{
    if arrivals.len() == 0 {
        (w, 0)
    } else {
        let (before, new) = all_in(w, arrivals.drop_last(), ttl);
        let (frame, now) = arrivals.last();
        (
            before.after(frame, now, ttl),
            if has_frame(unexpired(before.entries, now), frame) {
                new
            } else {
                new + 1
            },
        )
    }
}

/// The entry is in the window with at most `k` behind it.
spec fn in_with_behind(entries: Seq<(Seq<u8>, u64)>, e: (Seq<u8>, u64), k: nat) -> bool {
    exists|p: int|
        0 <= p < entries.len() && #[trigger] entries[p] == e && entries.len() - 1 - p <= k
}

/// Expiry brings no entry further to the front, counted from the end.
proof fn lemma_expiry_keeps_place(
    entries: Seq<(Seq<u8>, u64)>,
    e: (Seq<u8>, u64),
    k: nat,
    now: u64,
)
    requires
        in_with_behind(entries, e, k),
        e.1 > now,
    ensures
        in_with_behind(unexpired(entries, now), e, k),
    decreases entries.len(),
{
    let p = choose|p: int|
        0 <= p < entries.len() && #[trigger] entries[p] == e && entries.len() - 1 - p <= k;
    let out = unexpired(entries, now);
    let init = entries.drop_last();
    if p == entries.len() - 1 {
        assert(out[out.len() - 1] == e);
    } else {
        assert(init[p] == e);
        assert(in_with_behind(init, e, (k - 1) as nat));
        lemma_expiry_keeps_place(init, e, (k - 1) as nat, now);
        let before = unexpired(init, now);
        let q = choose|q: int|
            0 <= q < before.len() && #[trigger] before[q] == e && before.len() - 1 - q <= k - 1;
        assert(out[q] == e);
    }
}

/// After a new frame and then others, the frame has at most as many behind it as were new.
proof fn lemma_stays_in(
    w: DedupView,
    arrivals: Seq<(Seq<u8>, u64)>,
    ttl: u64,
    e: (Seq<u8>, u64),
)
    requires
        in_with_behind(w.entries, e, 0),
        all_in(w, arrivals, ttl).1 < w.capacity,
        forall|i: int| 0 <= i < arrivals.len() ==> (#[trigger] arrivals[i]).1 < e.1,
    ensures
        in_with_behind(all_in(w, arrivals, ttl).0.entries, e, all_in(w, arrivals, ttl).1),
        all_in(w, arrivals, ttl).0.capacity == w.capacity,
    decreases arrivals.len(),
{
    if arrivals.len() > 0 {
        let init = arrivals.drop_last();
        let (frame, now) = arrivals.last();
        let (before, new) = all_in(w, init, ttl);
        assert forall|i: int| 0 <= i < init.len() implies (#[trigger] init[i]).1 < e.1 by {
            assert(arrivals[i] == init[i]);
        }
        assert(arrivals[arrivals.len() - 1].1 < e.1);
        lemma_stays_in(w, init, ttl, e);
        lemma_expiry_keeps_place(before.entries, e, new, now);
        let fresh = unexpired(before.entries, now);
        let q = choose|q: int|
            0 <= q < fresh.len() && #[trigger] fresh[q] == e && fresh.len() - 1 - q <= new;
        let out = before.after(frame, now, ttl).entries;
        if has_frame(fresh, frame) {
            assert(out[q] == e);
        } else if fresh.len() < before.capacity {
            assert(out[q] == e);
        } else {
            assert(q >= 1);
            assert(out[q - 1] == e);
        }
    }
}

/// A frame that came in stays a duplicate until its time is up, as long as fewer than
/// `capacity` other new frames came in since, and whatever else came in.
pub proof fn law_frame_stays_a_duplicate(
    w: DedupView,
    frame: Seq<u8>,
    now: u64,
    ttl: u64,
    arrivals: Seq<(Seq<u8>, u64)>,
    later: u64,
)
    requires
        w.capacity >= 1,
        !has_frame(unexpired(w.entries, now), frame),
        now + ttl <= u64::MAX,
        later < now + ttl,
        forall|i: int| 0 <= i < arrivals.len() ==> (#[trigger] arrivals[i]).1 < now + ttl,
        all_in(w.after(frame, now, ttl), arrivals, ttl).1 < w.capacity,
    ensures
        ({
            let window = all_in(w.after(frame, now, ttl), arrivals, ttl).0;
            has_frame(unexpired(window.entries, later), frame)
        }),
{
    let first = w.after(frame, now, ttl);
    let e = (frame, (now + ttl) as u64);
    assert(first.entries[first.entries.len() - 1] == e);
    lemma_stays_in(first, arrivals, ttl, e);
    let (window, new) = all_in(first, arrivals, ttl);
    let p = choose|p: int|
        0 <= p < window.entries.len() && #[trigger] window.entries[p] == e
            && window.entries.len() - 1 - p <= new;
    assert(window.entries[p].0 == frame);
    lemma_unexpired_has(window.entries, later, frame);
}

} // verus!
