//! The way in of every endpoint, and the read-write session of stream endpoints.

use vstd::prelude::*;

use crate::endpoint::events::RouterFrame;
use crate::endpoint::filters::{Filters, FiltersView};
use crate::endpoint::id::EndpointId;
use crate::endpoint::identity_flags::SEQ_TRACKER_CAPACITY;
use crate::endpoint::seq_tracker::{SeqTracker, SeqTrackerView, DEFAULT_SEQ_GAP_THRESHOLD};
use crate::endpoint::stats;
use crate::endpoint::stats::{EndpointStats, FramerCounters};
use crate::mavlink::buffer;
use crate::mavlink::buffer::content_len;
use crate::mavlink::framer;
use crate::mavlink::framer::{Framer, FramerView};

verus! {

/// How a session ended. `Terminated` ends the endpoint too; after `Disconnected` it may
/// try again.
#[derive(Debug, Clone, Copy, PartialEq, Eq, Structural)]
pub enum SessionOutcome {
    Terminated,
    Disconnected,
}

/// The way in of one endpoint or peer: framing, loss estimate and what has been counted.
pub struct Ingress {
    pub framer: Framer,
    pub counters: FramerCounters,
    pub seq_tracker: SeqTracker,
}

/// What taking frames out of the way in leaves behind.
#[verifier::ext_equal]
pub struct IngressStep {
    pub framer: FramerView,
    pub tracker: SeqTrackerView,
    pub stats: EndpointStats,
    /// The bytes of the frame to forward.
    pub frame: Option<Seq<u8>>,
}

/// The framer after one look for a frame, and the frame.
pub open spec fn framer_step(f: FramerView) -> (FramerView, Option<Seq<u8>>) {
    let s = framer::scan(f.pending);
    let used = s.dropped + s.frame.unwrap_or(0);
    (
        FramerView {
            pending: f.pending.skip(used as int),
            resync_bytes: framer::saturated(f.resync_bytes, s.dropped),
            crc_errors: framer::saturated(f.crc_errors, s.bad_crc),
            read_capacity: f.read_capacity,
        },
        match s.frame {
            Some(_) => Some(f.pending.subrange(s.dropped as int, used as int)),
            None => None,
        },
    )
}

/// The counters after a frame of `len` bytes came in behind `lost` lost ones.
pub open spec fn counted_in(s: EndpointStats, len: usize, lost: u32) -> EndpointStats {
    EndpointStats { rx_lost_est: s.rx_lost_est.wrapping_add(lost as u64), ..s.with_rx(len) }
}

/// The counters after the filter kept a frame out.
pub open spec fn filtered_in(s: EndpointStats) -> EndpointStats {
    EndpointStats { in_filter_drops: s.in_filter_drops.wrapping_add(1), ..s }
}

/// Take frames out until one passes the filter. Each is counted and checked for lost
/// frames before it; each that the filter keeps out is counted as such.
pub open spec fn next_inbound_spec(
    f: FramerView,
    t: SeqTrackerView,
    s: EndpointStats,
    filters: FiltersView,
    now: u64,
) -> IngressStep
    decreases f.pending.len(),
{
    let (f1, found) = framer_step(f);
    match found {
        None => IngressStep { framer: f1, tracker: t, stats: s, frame: None },
        Some(frame) => {
            let h = framer::header_spec(frame);
            let (lost, t1) = t.observe(h.source_spec(), h.seq, now);
            let s1 = counted_in(s, frame.len() as usize, lost);
            if filters.passes_in(h.msgid, h.source_spec()) {
                IngressStep { framer: f1, tracker: t1, stats: s1, frame: Some(frame) }
            } else if f1.pending.len() < f.pending.len() {
                next_inbound_spec(f1, t1, filtered_in(s1), filters, now)
            } else {
                IngressStep { framer: f1, tracker: t1, stats: s1, frame: None }
            }
        },
    }
}

/// The counters after `sync`.
pub open spec fn synced(s: EndpointStats, f: FramerView, resync: u64, crc: u64) -> EndpointStats {
    EndpointStats {
        resync_bytes: s.resync_bytes.wrapping_add(stats::advance_of(f.resync_bytes, resync)),
        crc_errors: s.crc_errors.wrapping_add(stats::advance_of(f.crc_errors, crc)),
        ..s
    }
}

impl Ingress {
    /// Nothing has been received and nothing counted.
    pub open spec fn is_fresh(self) -> bool {
        &&& self.framer@ == (FramerView {
            pending: Seq::empty(),
            resync_bytes: 0,
            crc_errors: 0,
            read_capacity: framer::DEFAULT_BUF_CAPACITY,
        })
        &&& self.counters.resync() == 0
        &&& self.counters.crc() == 0
        &&& self.seq_tracker@ == (SeqTrackerView {
            entries: Seq::empty(),
            capacity: SEQ_TRACKER_CAPACITY as nat,
            threshold: DEFAULT_SEQ_GAP_THRESHOLD,
        })
        &&& self.seq_tracker@.wf()
    }

    /// Nothing received yet.
    pub fn new() -> (r: Self)
        ensures
            r.is_fresh(),
    {
        Ingress {
            framer: Framer::new(),
            counters: FramerCounters::new(),
            seq_tracker: SeqTracker::new(SEQ_TRACKER_CAPACITY),
        }
    }

    /// The next frame to forward to the router. Frames that the filter keeps out are
    /// counted and passed over. `None` once no complete frame is left.
    pub fn next_inbound(
        &mut self,
        endpoint_id: EndpointId,
        filters: &Filters,
        stats: &mut EndpointStats,
        now: u64,
    ) -> (r: Option<RouterFrame>)
        requires
            old(self).seq_tracker@.wf(),
            old(self).framer@.pending.len() + old(self).framer@.read_capacity <= isize::MAX,
        ensures
            ({
                let step = next_inbound_spec(
                    old(self).framer@,
                    old(self).seq_tracker@,
                    *old(stats),
                    filters@,
                    now,
                );
                &&& final(self).framer@ == step.framer
                &&& final(self).seq_tracker@ == step.tracker
                &&& final(self).seq_tracker@.wf()
                &&& final(self).counters == old(self).counters
                &&& final(self).framer@.pending.len() <= old(self).framer@.pending.len()
                &&& *final(stats) == step.stats
                &&& match r {
                    Some(f) => {
                        &&& step.frame == Some(buffer::content(f.frame))
                        &&& f.endpoint_id == endpoint_id
                        &&& f.header == framer::header_spec(buffer::content(f.frame))
                    },
                    None => step.frame is None,
                }
            }),
    {
        loop
            invariant
                self.seq_tracker@.wf(),
                self.counters == old(self).counters,
                self.framer@.pending.len() + self.framer@.read_capacity <= isize::MAX,
                self.framer@.pending.len() <= old(self).framer@.pending.len(),
                next_inbound_spec(
                    self.framer@,
                    self.seq_tracker@,
                    *stats,
                    filters@,
                    now,
                ) == next_inbound_spec(
                    old(self).framer@,
                    old(self).seq_tracker@,
                    *old(stats),
                    filters@,
                    now,
                ),
            decreases self.framer@.pending.len(),
        {
            let ghost b = self.framer@.pending;
            match self.framer.try_next_frame() {
                None => {
                    return None;
                },
                Some((header, frame)) => {
                    proof {
                        framer::lemma_frame_takes_bytes(b);
                    }
                    stats.add_rx_frame(content_len(&frame));
                    let lost: u32 = self.seq_tracker.observe(header.source(), header.seq, now);
                    stats.rx_lost_est = stats.rx_lost_est.wrapping_add(lost as u64);
                    if filters.passes_in_filter(header.msgid, header.source()) {
                        return Some(RouterFrame { endpoint_id, frame, header });
                    }
                    stats.in_filter_drops = stats.in_filter_drops.wrapping_add(1);
                },
            }
        }
    }

    /// Add to the counters what framing has dropped and found wrong since the last time.
    pub fn sync(&mut self, stats: &mut EndpointStats)
        ensures
            final(self).framer@ == old(self).framer@,
            final(self).seq_tracker@ == old(self).seq_tracker@,
            final(self).counters.resync() == old(self).framer@.resync_bytes,
            final(self).counters.crc() == old(self).framer@.crc_errors,
            *final(stats) == synced(
                *old(stats),
                old(self).framer@,
                old(self).counters.resync(),
                old(self).counters.crc(),
            ),
    {
        self.counters.sync(&self.framer, stats);
    }

    /// The next frame to forward. Once none is left, what framing dropped is added to the
    /// counters.
    pub fn pump(
        &mut self,
        endpoint_id: EndpointId,
        filters: &Filters,
        stats: &mut EndpointStats,
        now: u64,
    ) -> (r: Option<RouterFrame>)
        requires
            old(self).seq_tracker@.wf(),
            old(self).framer@.pending.len() + old(self).framer@.read_capacity <= isize::MAX,
        ensures
            final(self).seq_tracker@.wf(),
            final(self).framer@.pending.len() <= old(self).framer@.pending.len(),
            pumped(*old(self), *final(self), *old(stats), *final(stats), filters@, now),
            match r {
                Some(f) => is_next_frame(f, *old(self), *old(stats), endpoint_id, filters@, now),
                None => next_inbound_spec(
                    old(self).framer@,
                    old(self).seq_tracker@,
                    *old(stats),
                    filters@,
                    now,
                ).frame is None,
            },
    {
        match self.next_inbound(endpoint_id, filters, stats, now) {
            Some(f) => Some(f),
            None => {
                self.sync(stats);
                None
            },
        }
    }
}

/// The way in and the counters before and after one look for a frame to forward: where
/// none is left, what framing dropped has been added to the counters.
pub open spec fn pumped(
    i0: Ingress,
    i1: Ingress,
    s0: EndpointStats,
    s1: EndpointStats,
    filters: FiltersView,
    now: u64,
) -> bool {
    let step = next_inbound_spec(i0.framer@, i0.seq_tracker@, s0, filters, now);
    &&& i1.framer@ == step.framer
    &&& i1.seq_tracker@ == step.tracker
    &&& match step.frame {
        Some(_) => i1.counters == i0.counters && s1 == step.stats,
        None => {
            &&& i1.counters.resync() == step.framer.resync_bytes
            &&& i1.counters.crc() == step.framer.crc_errors
            &&& s1 == synced(
                step.stats,
                step.framer,
                i0.counters.resync(),
                i0.counters.crc(),
            )
        },
    }
}

/// `f` is the next frame that the way in has to forward.
pub open spec fn is_next_frame(
    f: RouterFrame,
    i0: Ingress,
    s0: EndpointStats,
    endpoint_id: EndpointId,
    filters: FiltersView,
    now: u64,
) -> bool {
    let bytes = buffer::content(f.frame);
    &&& next_inbound_spec(i0.framer@, i0.seq_tracker@, s0, filters, now).frame == Some(bytes)
    &&& f.endpoint_id == endpoint_id
    &&& f.header == framer::header_spec(bytes)
}

/// What a stream session waits for.
pub enum SessionEvent {
    /// The endpoint was told to stop.
    Cancelled,
    /// A read ended: so many bytes are in the framer's buffer now, or it failed.
    Read(Option<usize>),
    /// A frame was handed to the router; `false` where the router is gone.
    Forwarded(bool),
    /// A frame was written: so many bytes, or it failed.
    Written(Option<usize>),
}

/// What a stream session does next.
pub enum SessionAction {
    /// End with this outcome.
    Finish(SessionOutcome),
    /// Hand this frame to the router and report back.
    Forward(RouterFrame),
    /// Wait for the next event.
    Wait,
}

/// A session over a byte stream: a serial port or a TCP connection.
pub struct Session {
    pub ingress: Ingress,
}

impl Session {
    /// Nothing received yet.
    pub fn new() -> (r: Self)
        ensures
            r.ingress.is_fresh(),
    {
        Session { ingress: Ingress::new() }
    }

    /// Respond to one event.
    ///
    /// A stop request and a router that is gone end the session for good; the end of the
    /// stream and failed reads and writes end it for now. What was read is forwarded frame
    /// by frame; once no frame is left, what framing dropped is added to the counters.
    pub fn step(
        &mut self,
        event: SessionEvent,
        endpoint_id: EndpointId,
        filters: &Filters,
        stats: &mut EndpointStats,
        now: u64,
    ) -> (r: SessionAction)
        requires
            old(self).ingress.seq_tracker@.wf(),
            old(self).ingress.framer@.pending.len() + old(self).ingress.framer@.read_capacity
                <= isize::MAX,
        ensures
            final(self).ingress.seq_tracker@.wf(),
            ({
                let i0 = old(self).ingress;
                let s0 = *old(stats);
                let step = next_inbound_spec(i0.framer@, i0.seq_tracker@, s0, filters@, now);
                let unchanged = *final(self) == *old(self) && *final(stats) == s0;
                match event {
                    SessionEvent::Cancelled => unchanged && r == SessionAction::Finish(
                        SessionOutcome::Terminated,
                    ),
                    SessionEvent::Read(None) => unchanged && r == SessionAction::Finish(
                        SessionOutcome::Disconnected,
                    ),
                    SessionEvent::Forwarded(false) => unchanged && r == SessionAction::Finish(
                        SessionOutcome::Terminated,
                    ),
                    SessionEvent::Written(None) => unchanged && r == SessionAction::Finish(
                        SessionOutcome::Disconnected,
                    ),
                    SessionEvent::Written(Some(len)) => {
                        &&& *final(self) == *old(self)
                        &&& *final(stats) == s0.with_tx(len)
                        &&& r == SessionAction::Wait
                    },
                    SessionEvent::Read(Some(_)) | SessionEvent::Forwarded(true) => {
                        if event == SessionEvent::Read(Some(0)) {
                            unchanged && r == SessionAction::Finish(SessionOutcome::Disconnected)
                        } else {
                            &&& pumped(
                                i0,
                                final(self).ingress,
                                s0,
                                *final(stats),
                                filters@,
                                now,
                            )
                            &&& match r {
                                SessionAction::Forward(f) => is_next_frame(
                                    f,
                                    i0,
                                    s0,
                                    endpoint_id,
                                    filters@,
                                    now,
                                ),
                                SessionAction::Wait => step.frame is None,
                                SessionAction::Finish(_) => false,
                            }
                        }
                    },
                }
            }),
    {
        match event {
            SessionEvent::Cancelled => SessionAction::Finish(SessionOutcome::Terminated),
            SessionEvent::Read(None) => SessionAction::Finish(SessionOutcome::Disconnected),
            SessionEvent::Forwarded(false) => SessionAction::Finish(SessionOutcome::Terminated),
            SessionEvent::Written(None) => SessionAction::Finish(SessionOutcome::Disconnected),
            SessionEvent::Written(Some(len)) => {
                stats.add_tx_frame(len);
                SessionAction::Wait
            },
            SessionEvent::Read(Some(n)) => {
                if n == 0 {
                    return SessionAction::Finish(SessionOutcome::Disconnected);
                }
                self.forward_or_sync(endpoint_id, filters, stats, now)
            },
            SessionEvent::Forwarded(true) => self.forward_or_sync(endpoint_id, filters, stats, now),
        }
    }

    /// Forward the next frame, or settle the counters where none is left.
    fn forward_or_sync(
        &mut self,
        endpoint_id: EndpointId,
        filters: &Filters,
        stats: &mut EndpointStats,
        now: u64,
    ) -> (r: SessionAction)
        requires
            old(self).ingress.seq_tracker@.wf(),
            old(self).ingress.framer@.pending.len() + old(self).ingress.framer@.read_capacity
                <= isize::MAX,
        ensures
            final(self).ingress.seq_tracker@.wf(),
            ({
                let i0 = old(self).ingress;
                let s0 = *old(stats);
                &&& pumped(i0, final(self).ingress, s0, *final(stats), filters@, now)
                &&& match r {
                    SessionAction::Forward(f) => is_next_frame(
                        f,
                        i0,
                        s0,
                        endpoint_id,
                        filters@,
                        now,
                    ),
                    SessionAction::Wait => next_inbound_spec(
                        i0.framer@,
                        i0.seq_tracker@,
                        s0,
                        filters@,
                        now,
                    ).frame is None,
                    SessionAction::Finish(_) => false,
                }
            }),
    {
        match self.ingress.pump(endpoint_id, filters, stats, now) {
            Some(f) => SessionAction::Forward(f),
            None => SessionAction::Wait,
        }
    }
}

/// No frame that the ingress filter keeps out is ever forwarded.
pub proof fn law_forwarded_frames_pass(
    f: FramerView,
    t: SeqTrackerView,
    s: EndpointStats,
    filters: FiltersView,
    now: u64,
)
    ensures
        match next_inbound_spec(f, t, s, filters, now).frame {
            Some(b) => filters.passes_in(
                framer::header_spec(b).msgid,
                framer::header_spec(b).source_spec(),
            ),
            None => true,
        },
    decreases f.pending.len(),
{
    let (f1, found) = framer_step(f);
    if let Some(b) = found {
        let h = framer::header_spec(b);
        let (lost, t1) = t.observe(h.source_spec(), h.seq, now);
        let s1 = counted_in(s, b.len() as usize, lost);
        if !filters.passes_in(h.msgid, h.source_spec()) && f1.pending.len() < f.pending.len() {
            law_forwarded_frames_pass(f1, t1, filtered_in(s1), filters, now);
        }
    }
}

// ---------------------------------------------------------------- one read as a whole

/// `x` counted up by `n`, starting over past the largest number.
pub open spec fn counted_up(x: u64, n: nat) -> u64 {
    ((x + n) % 0x1_0000_0000_0000_0000) as u64
}

/// Whether the ingress filter lets a frame pass.
pub open spec fn passes(frame: Seq<u8>, filters: FiltersView) -> bool {
    let h = framer::header_spec(frame);
    filters.passes_in(h.msgid, h.source_spec())
}

/// The frames that the ingress filter lets pass, in order.
pub open spec fn passing(frames: Seq<Seq<u8>>, filters: FiltersView) -> Seq<Seq<u8>>
    decreases frames.len(),
{
    if frames.len() == 0 {
        Seq::empty()
    } else if passes(frames[0], filters) {
        seq![frames[0]] + passing(frames.skip(1), filters)
    } else {
        passing(frames.skip(1), filters)
    }
}

/// How many of the frames the ingress filter keeps out.
pub open spec fn kept_out(frames: Seq<Seq<u8>>, filters: FiltersView) -> nat
    decreases frames.len(),
{
    if frames.len() == 0 {
        0
    } else if passes(frames[0], filters) {
        kept_out(frames.skip(1), filters)
    } else {
        1 + kept_out(frames.skip(1), filters)
    }
}

/// The bytes of the frames.
pub open spec fn bytes_of(frames: Seq<Seq<u8>>) -> nat
    decreases frames.len(),
{
    if frames.len() == 0 {
        0
    } else {
        frames[0].len() + bytes_of(frames.skip(1))
    }
}

/// The frames lost before each of the frames, all together, and the tracker after the last.
/// Frames kept out count too. `clock` says what the time was at each look for a frame to
/// forward, of which `looks` have gone before.
pub open spec fn lost_before(
    t: SeqTrackerView,
    frames: Seq<Seq<u8>>,
    filters: FiltersView,
    clock: spec_fn(int) -> u64,
    looks: int,
) -> (nat, SeqTrackerView)
    decreases frames.len(),
{
    if frames.len() == 0 {
        (0, t)
    } else {
        let h = framer::header_spec(frames[0]);
        let (lost, t1) = t.observe(h.source_spec(), h.seq, clock(looks));
        let (more, last) = lost_before(
            t1,
            frames.skip(1),
            filters,
            clock,
            if passes(frames[0], filters) {
                looks + 1
            } else {
                looks
            },
        );
        (lost as nat + more, last)
    }
}

/// What a read leaves behind once every frame to forward has been taken out.
#[verifier::ext_equal]
pub struct ReadOutcome {
    pub framer: FramerView,
    pub tracker: SeqTrackerView,
    pub stats: EndpointStats,
    /// The frames that were forwarded, in order.
    pub forwarded: Seq<Seq<u8>>,
}

/// Look for a frame to forward again and again until none is left.
pub open spec fn read_out(
    f: FramerView,
    t: SeqTrackerView,
    s: EndpointStats,
    filters: FiltersView,
    clock: spec_fn(int) -> u64,
    looks: int,
) -> ReadOutcome
    decreases f.pending.len(),
{
    let step = next_inbound_spec(f, t, s, filters, clock(looks));
    let none = ReadOutcome {
        framer: step.framer,
        tracker: step.tracker,
        stats: step.stats,
        forwarded: Seq::empty(),
    };
    match step.frame {
        None => none,
        Some(frame) => if step.framer.pending.len() < f.pending.len() {
            let rest = read_out(step.framer, step.tracker, step.stats, filters, clock, looks + 1);
            ReadOutcome { forwarded: seq![frame] + rest.forwarded, ..rest }
        } else {
            none
        },
    }
}

/// What a read has to leave behind: every complete frame is counted, those kept out as such,
/// and the others are forwarded.
pub open spec fn read_totals(
    f: FramerView,
    t: SeqTrackerView,
    s: EndpointStats,
    filters: FiltersView,
    clock: spec_fn(int) -> u64,
    looks: int,
) -> ReadOutcome {
    let (frames, last) = f.emptied();
    let (lost, tracker) = lost_before(t, frames, filters, clock, looks);
    ReadOutcome {
        framer: last,
        tracker,
        stats: EndpointStats {
            rx_frames: counted_up(s.rx_frames, frames.len()),
            rx_bytes: counted_up(s.rx_bytes, bytes_of(frames)),
            rx_lost_est: counted_up(s.rx_lost_est, lost),
            in_filter_drops: counted_up(s.in_filter_drops, kept_out(frames, filters)),
            ..s
        },
        forwarded: passing(frames, filters),
    }
}

/// Counting up twice.
proof fn lemma_counted_up(x: u64, y: u64, n: nat)
    ensures
        counted_up(x, 0) == x,
        counted_up(x.wrapping_add(y), n) == counted_up(x, y as nat + n),
{
}

/// A look that finds a frame to forward takes bytes out.
proof fn lemma_look_takes_bytes(
    f: FramerView,
    t: SeqTrackerView,
    s: EndpointStats,
    filters: FiltersView,
    now: u64,
)
    ensures
        next_inbound_spec(f, t, s, filters, now).frame is Some ==> next_inbound_spec(
            f,
            t,
            s,
            filters,
            now,
        ).framer.pending.len() < f.pending.len(),
    decreases f.pending.len(),
{
    let (f1, found) = framer_step(f);
    if let Some(b) = found {
        framer::lemma_frame_takes_bytes(f.pending);
        framer::law_scan_within(f.pending);
        let h = framer::header_spec(b);
        let (lost, t1) = t.observe(h.source_spec(), h.seq, now);
        let s1 = counted_in(s, b.len() as usize, lost);
        if !filters.passes_in(h.msgid, h.source_spec()) {
            lemma_look_takes_bytes(f1, t1, filtered_in(s1), filters, now);
        }
    }
}

/// One read adds up: `rx_frames`, `rx_bytes` and `rx_lost_est` grow by what all its complete
/// frames give, those included that the filter keeps out, `in_filter_drops` grows by the
/// number of those, no other counter changes, and exactly the frames that the filter lets
/// pass are forwarded, in order.
pub proof fn law_read_adds_up(
    f: FramerView,
    t: SeqTrackerView,
    s: EndpointStats,
    filters: FiltersView,
    clock: spec_fn(int) -> u64,
    looks: int,
)
    requires
        f.pending.len() <= isize::MAX,
    ensures
        read_out(f, t, s, filters, clock, looks) == read_totals(f, t, s, filters, clock, looks),
    decreases f.pending.len(),
{
    let now = clock(looks);
    let (f1, found) = framer_step(f);
    let (frames, last) = f.emptied();
    assert(f1 =~= f.asked());
    match found {
        None => {
            assert(frames.len() == 0);
            lemma_counted_up(s.rx_frames, 0, 0);
            lemma_counted_up(s.rx_bytes, 0, 0);
            lemma_counted_up(s.rx_lost_est, 0, 0);
            lemma_counted_up(s.in_filter_drops, 0, 0);
        },
        Some(b) => {
            framer::lemma_frame_takes_bytes(f.pending);
            framer::law_scan_within(f.pending);
            let (rest, _) = f1.emptied();
            assert(frames =~= seq![b] + rest);
            assert(frames.skip(1) =~= rest);
            let h = framer::header_spec(b);
            let (lost, t1) = t.observe(h.source_spec(), h.seq, now);
            let s1 = counted_in(s, b.len() as usize, lost);
            lemma_counted_up(s.rx_frames, 1, rest.len());
            lemma_counted_up(s.rx_bytes, b.len() as u64, bytes_of(rest));
            if passes(b, filters) {
                law_read_adds_up(f1, t1, s1, filters, clock, looks + 1);
                let (more, _) = lost_before(t1, rest, filters, clock, looks + 1);
                lemma_counted_up(s.rx_lost_est, lost as u64, more);
            } else {
                let s2 = filtered_in(s1);
                law_read_adds_up(f1, t1, s2, filters, clock, looks);
                let (more, _) = lost_before(t1, rest, filters, clock, looks);
                lemma_counted_up(s.rx_lost_est, lost as u64, more);
                lemma_counted_up(s.in_filter_drops, 1, kept_out(rest, filters));
                lemma_look_takes_bytes(f1, t1, s2, filters, now);
                assert(read_out(f, t, s, filters, clock, looks) == read_out(
                    f1,
                    t1,
                    s2,
                    filters,
                    clock,
                    looks,
                ));
            }
        },
    }
}

/// What the look number `k` of a read finds.
pub open spec fn found_at(
    ins: Seq<Ingress>,
    stats: Seq<EndpointStats>,
    nows: Seq<u64>,
    filters: FiltersView,
    k: int,
) -> Option<Seq<u8>> {
    next_inbound_spec(ins[k].framer@, ins[k].seq_tracker@, stats[k], filters, nows[k]).frame
}

/// The looks for a frame to forward that follow one read, with the way in and the counters
/// before and after each: every look but the last finds a frame.
pub open spec fn is_read(
    ins: Seq<Ingress>,
    stats: Seq<EndpointStats>,
    nows: Seq<u64>,
    filters: FiltersView,
) -> bool {
    &&& nows.len() > 0
    &&& ins.len() == nows.len() + 1
    &&& stats.len() == nows.len() + 1
    &&& ins[0].framer@.pending.len() <= isize::MAX
    &&& forall|k: int|
        0 <= k < nows.len() ==> {
            &&& pumped(ins[k], ins[k + 1], stats[k], stats[k + 1], filters, #[trigger] nows[k])
            &&& found_at(ins, stats, nows, filters, k) is Some <==> k < nows.len() - 1
        }
}

/// The looks from number `k` on.
proof fn lemma_looks(
    ins: Seq<Ingress>,
    stats: Seq<EndpointStats>,
    nows: Seq<u64>,
    filters: FiltersView,
    k: int,
)
    requires
        is_read(ins, stats, nows, filters),
        0 <= k < nows.len(),
    ensures
        ({
            let n = nows.len() as int;
            let clock = |j: int| nows[j];
            let out = read_out(
                ins[k].framer@,
                ins[k].seq_tracker@,
                stats[k],
                filters,
                clock,
                k,
            );
            &&& ins[n].framer@ == out.framer
            &&& ins[n].seq_tracker@ == out.tracker
            &&& stats[n] == synced(
                out.stats,
                out.framer,
                ins[k].counters.resync(),
                ins[k].counters.crc(),
            )
            &&& out.forwarded.len() == n - 1 - k
            &&& forall|j: int|
                k <= j < n - 1 ==> #[trigger] found_at(ins, stats, nows, filters, j) == Some(
                    out.forwarded[j - k],
                )
        }),
    decreases nows.len() - k,
{
    let clock = |j: int| nows[j];
    assert(clock(k) == nows[k]);
    lemma_look_takes_bytes(ins[k].framer@, ins[k].seq_tracker@, stats[k], filters, nows[k]);
    if k < nows.len() - 1 {
        lemma_looks(ins, stats, nows, filters, k + 1);
        let out = read_out(ins[k].framer@, ins[k].seq_tracker@, stats[k], filters, clock, k);
        let rest = read_out(
            ins[k + 1].framer@,
            ins[k + 1].seq_tracker@,
            stats[k + 1],
            filters,
            clock,
            k + 1,
        );
        assert forall|j: int| k <= j < nows.len() - 1 implies #[trigger] found_at(
            ins,
            stats,
            nows,
            filters,
            j,
        ) == Some(out.forwarded[j - k]) by {
            if j > k {
                assert(out.forwarded[j - k] == rest.forwarded[j - (k + 1)]);
            }
        }
    }
}

/// A read adds up over the steps that follow it, up to the one that finds no frame: the
/// counters grow by what all complete frames give and by what framing dropped, and the steps
/// before the last forward exactly the frames that the filter lets pass, in order.
pub proof fn law_steps_of_a_read_add_up(
    ins: Seq<Ingress>,
    stats: Seq<EndpointStats>,
    nows: Seq<u64>,
    filters: FiltersView,
)
    requires
        is_read(ins, stats, nows, filters),
    ensures
        ({
            let out = read_totals(
                ins[0].framer@,
                ins[0].seq_tracker@,
                stats[0],
                filters,
                |j: int| nows[j],
                0,
            );
            &&& ins.last().framer@ == out.framer
            &&& ins.last().seq_tracker@ == out.tracker
            &&& stats.last() == synced(
                out.stats,
                out.framer,
                ins[0].counters.resync(),
                ins[0].counters.crc(),
            )
            &&& out.forwarded.len() == nows.len() - 1
            &&& forall|j: int|
                0 <= j < nows.len() - 1 ==> #[trigger] found_at(ins, stats, nows, filters, j)
                    == Some(out.forwarded[j])
        }),
{
    lemma_looks(ins, stats, nows, filters, 0);
    law_read_adds_up(
        ins[0].framer@,
        ins[0].seq_tracker@,
        stats[0],
        filters,
        |j: int| nows[j],
        0,
    );
}

/// What one frame does on the way in. It is counted with its bytes and the frames lost before
/// it; where the filter lets it pass it is the one to forward, and where not it is counted as
/// kept out and the next one is looked for.
pub proof fn law_each_frame_is_counted_once(
    f: FramerView,
    t: SeqTrackerView,
    s: EndpointStats,
    filters: FiltersView,
    now: u64,
)
    requires
        f.pending.len() <= isize::MAX,
    ensures
        ({
            let step = next_inbound_spec(f, t, s, filters, now);
            let (f1, found) = framer_step(f);
            match found {
                None => step.frame is None && step.stats == s && step.tracker == t,
                Some(frame) => {
                    let h = framer::header_spec(frame);
                    let node = crate::mavlink::frame::NodeId { sys: h.sysid, comp: h.compid };
                    let (lost, t1) = t.observe(node, h.seq, now);
                    let counted = EndpointStats {
                        rx_frames: s.rx_frames.wrapping_add(1),
                        rx_bytes: s.rx_bytes.wrapping_add(frame.len() as u64),
                        rx_lost_est: s.rx_lost_est.wrapping_add(lost as u64),
                        ..s
                    };
                    if filters.passes_in(h.msgid, node) {
                        step == (IngressStep {
                            framer: f1,
                            tracker: t1,
                            stats: counted,
                            frame: Some(frame),
                        })
                    } else {
                        step == next_inbound_spec(
                            f1,
                            t1,
                            EndpointStats {
                                in_filter_drops: s.in_filter_drops.wrapping_add(1),
                                ..counted
                            },
                            filters,
                            now,
                        )
                    }
                },
            }
        }),
{
    if let Some(b) = framer_step(f).1 {
        framer::lemma_frame_takes_bytes(f.pending);
        framer::law_scan_within(f.pending);
    }
}

/// The frames that are forwarded are those that the filter lets pass, and the others are the
/// ones kept out; the bytes are those of all frames.
pub proof fn law_frames_pass_or_are_kept_out(
    frames: Seq<Seq<u8>>,
    filters: FiltersView,
    frame: Seq<u8>,
)
    ensures
        ({
            let fits = |b: Seq<u8>|
                filters.passes_in(
                    framer::header_spec(b).msgid,
                    framer::header_spec(b).source_spec(),
                );
            &&& passing(frames, filters) == frames.filter(fits)
            &&& kept_out(frames, filters) == frames.len() - frames.filter(fits).len()
        }),
        bytes_of(frames.push(frame)) == bytes_of(frames) + frame.len(),
    decreases frames.len(),
{
    let fits = |b: Seq<u8>|
        filters.passes_in(framer::header_spec(b).msgid, framer::header_spec(b).source_spec());
    let more = frames.push(frame);
    if frames.len() == 0 {
        reveal(Seq::filter);
        reveal_with_fuel(bytes_of, 2);
        assert(more.skip(1) =~= Seq::<Seq<u8>>::empty());
    } else {
        let rest = frames.skip(1);
        law_frames_pass_or_are_kept_out(rest, filters, frame);
        assert(more.skip(1) =~= rest.push(frame));
        assert(frames =~= seq![frames[0]] + rest);
        Seq::filter_distributes_over_add(seq![frames[0]], rest, fits);
        lemma_filter_one(frames[0], fits);
        assert(Seq::<Seq<u8>>::empty() + rest.filter(fits) =~= rest.filter(fits));
    }
}

/// A single frame, filtered.
proof fn lemma_filter_one(frame: Seq<u8>, fits: spec_fn(Seq<u8>) -> bool)
    ensures
        seq![frame].filter(fits) == if fits(frame) {
            seq![frame]
        } else {
            Seq::empty()
        },
{
    reveal(Seq::filter);
    let one = seq![frame];
    assert(one.drop_last() =~= Seq::<Seq<u8>>::empty());
    assert(one.last() == frame);
    assert(one.drop_last().filter(fits) =~= Seq::<Seq<u8>>::empty());
    assert(Seq::<Seq<u8>>::empty().push(frame) =~= one);
}

/// After settling, the counters have grown by what the framer's totals have grown by since
/// the last time, and nothing else has changed.
pub proof fn law_settling_adds_the_difference(
    s: EndpointStats,
    f: FramerView,
    resync: u64,
    crc: u64,
)
    requires
        resync <= f.resync_bytes,
        crc <= f.crc_errors,
    ensures
        ({
            let after = synced(s, f, resync, crc);
            &&& after.resync_bytes == (s.resync_bytes + f.resync_bytes - resync)
                % 0x1_0000_0000_0000_0000
            &&& after.crc_errors == (s.crc_errors + f.crc_errors - crc) % 0x1_0000_0000_0000_0000
            &&& after == (EndpointStats {
                resync_bytes: after.resync_bytes,
                crc_errors: after.crc_errors,
                ..s
            })
        }),
{
}

/// A new way in waits for the first byte, has counted nothing, keeps 32 senders apart, and
/// takes a gap of 64 frames for a restart.
pub proof fn law_fresh_way_in(i: Ingress)
    requires
        i.is_fresh(),
    ensures
        i.framer@.pending.len() == 0,
        i.framer@.resync_bytes == 0,
        i.framer@.crc_errors == 0,
        i.framer@.read_capacity == 8192,
        i.counters.resync() == 0,
        i.counters.crc() == 0,
        i.seq_tracker@.entries.len() == 0,
        i.seq_tracker@.capacity == 32,
        i.seq_tracker@.threshold == 64,
{
}

} // verus!
