//! What becomes of a frame that an endpoint let in.

use vstd::prelude::*;

use crate::dedup;
use crate::dedup::{DedupView, DedupWindow};
use crate::endpoint::events::EndpointEvent;
use crate::endpoint::id::EndpointId;
use crate::endpoint::stats::EndpointStats;
use crate::mavlink::frame::ParsedHeader;
use crate::router;
use crate::router::{Router, RouterView, Verdict};

verus! {

/// The fate of a frame.
#[derive(Debug)]
pub enum Passage {
    /// It came in before and goes nowhere.
    Duplicate,
    /// What becomes of it at each destination.
    Routed(Vec<(EndpointId, Verdict)>),
}

/// The router behind the window that keeps duplicates out.
#[derive(Debug)]
pub struct Pipeline {
    router: Router,
    window: DedupWindow,
    dedup_ms: u64,
}

/// The view of a `Pipeline`.
#[verifier::ext_equal]
pub struct PipelineView {
    pub router: RouterView,
    pub window: DedupView,
    /// How long a frame keeps its duplicates out, in milliseconds; 0 lets them in.
    pub dedup_ms: u64,
}

impl View for Pipeline {
    type V = PipelineView;

    closed spec fn view(&self) -> PipelineView {
        PipelineView { router: self.router@, window: self.window@, dedup_ms: self.dedup_ms }
    }
}

impl PipelineView {
    /// There is room for a frame in the window.
    pub open spec fn wf(self) -> bool {
        self.window.capacity >= 1
    }

    /// Whether a frame is kept out at the time `now`.
    pub open spec fn keeps_out(self, frame: Seq<u8>, now: u64) -> bool {
        self.dedup_ms > 0 && dedup::has_frame(dedup::unexpired(self.window.entries, now), frame)
    }

    /// The window after a frame came in.
    pub open spec fn window_after(self, frame: Seq<u8>, now: u64) -> DedupView {
        if self.dedup_ms > 0 {
            self.window.after(frame, now, self.dedup_ms)
        } else {
            self.window
        }
    }
}

impl Pipeline {
    /// No endpoints yet; duplicates within `dedup_ms` milliseconds are kept out, as long as
    /// there is room for `window_frames` frames.
    pub fn new(dedup_ms: u64, window_frames: usize) -> (r: Self)
        ensures
            r@.wf(),
            r@.router.declared.len() == 0,
            r@.router.routes.len() == 0,
            r@.window.entries == Seq::<(Seq<u8>, u64)>::empty(),
            r@.window.capacity == if window_frames == 0 {
                1
            } else {
                window_frames as nat
            },
            r@.dedup_ms == dedup_ms,
    {
        Pipeline { router: Router::new(), window: DedupWindow::new(window_frames), dedup_ms }
    }

    /// Take note of an endpoint that came or went.
    pub fn on_event(&mut self, event: EndpointEvent)
        ensures
            final(self)@ == (PipelineView {
                router: old(self)@.router.after(event),
                ..old(self)@
            }),
    {
        self.router.on_event(event);
    }

    /// Take a frame that came in at the endpoint `src`. A duplicate goes nowhere, and
    /// nothing is learned from it.
    pub fn on_frame(&mut self, src: EndpointId, frame: &[u8], h: &ParsedHeader, now: u64) -> (r:
        Passage)
        requires
            old(self)@.wf(),
        ensures
            final(self)@.wf(),
            final(self)@.dedup_ms == old(self)@.dedup_ms,
            final(self)@.window == old(self)@.window_after(frame@, now),
            ({
                let v = old(self)@.router;
                let at = router::route_index(v.routes, src) as int;
                match r {
                    Passage::Duplicate => old(self)@.keeps_out(frame@, now)
                        && final(self)@.router == v,
                    Passage::Routed(fates) => !old(self)@.keeps_out(frame@, now)
                        && if at < v.routes.len() {
                        let source = v.routes[at];
                        let routes = v.heard(source, h.source_spec());
                        &&& final(self)@.router == (RouterView { routes, ..v })
                        &&& fates@ == router::verdicts(routes, source, *h)
                    } else {
                        final(self)@.router == v && fates@.len() == 0
                    },
                }
            }),
    {
        if self.dedup_ms > 0 && self.window.is_duplicate(frame, now, self.dedup_ms) {
            return Passage::Duplicate;
        }
        Passage::Routed(self.router.route(src, h))
    }

    /// How many nodes are known behind the endpoint `id`; `None` where it is no
    /// destination.
    pub fn learn_entries(&self, id: EndpointId) -> (r: Option<usize>)
        ensures
            ({
                let routes = self@.router.routes;
                let at = router::route_index(routes, id) as int;
                match r {
                    Some(n) => at < routes.len() && n == routes[at].learned.len(),
                    None => at >= routes.len(),
                }
            }),
    {
        self.router.learn_entries(id)
    }
}

/// Account for a duplicate at the endpoint that it came in by.
pub fn on_duplicate(stats: &mut EndpointStats)
    ensures
        *final(stats) == (EndpointStats {
            dedup_drops: old(stats).dedup_drops.wrapping_add(1),
            ..*old(stats)
        }),
{
    stats.dedup_drops = stats.dedup_drops.wrapping_add(1);
}

/// Whether a frame with this verdict is sent; what the filters of the destination keep back
/// is counted there.
pub fn on_verdict(verdict: Verdict, stats: &mut EndpointStats) -> (r: bool)
    ensures
        r == (verdict == Verdict::Forward),
        *final(stats) == if verdict == Verdict::Filtered {
            EndpointStats {
                out_filter_drops: old(stats).out_filter_drops.wrapping_add(1),
                ..*old(stats)
            }
        } else {
            *old(stats)
        },
{
    match verdict {
        Verdict::Forward => true,
        Verdict::Filtered => {
            stats.out_filter_drops = stats.out_filter_drops.wrapping_add(1);
            false
        },
        Verdict::Loop => false,
        Verdict::NotAddressee => false,
    }
}

/// The same frame again, before its time is up, is kept out wherever it comes in; once its
/// time is up it is let in.
pub proof fn law_second_copy_is_kept_out(
    v: PipelineView,
    frame: Seq<u8>,
    now: u64,
    later: u64,
)
    requires
        v.wf(),
        v.dedup_ms > 0,
        !v.keeps_out(frame, now),
        now <= later,
        now + v.dedup_ms <= u64::MAX,
    ensures
        ({
            let after = PipelineView { window: v.window_after(frame, now), ..v };
            after.keeps_out(frame, later) <==> later < now + v.dedup_ms
        }),
{
    dedup::law_repeat_is_duplicate(v.window, frame, now, v.dedup_ms, later);
}

/// Without a window nothing is kept out; with one a frame is kept out exactly where an
/// identical one came in whose time is not up. What comes in is remembered for `dedup_ms`
/// milliseconds, and only where there is a window.
pub proof fn law_window_decides(v: PipelineView, frame: Seq<u8>, now: u64)
    ensures
        v.dedup_ms == 0 ==> !v.keeps_out(frame, now) && v.window_after(frame, now) == v.window,
        v.dedup_ms > 0 ==> v.keeps_out(frame, now) == exists|i: int|
            0 <= i < v.window.entries.len() && (#[trigger] v.window.entries[i]).0 == frame
                && v.window.entries[i].1 > now,
        v.wf() && v.dedup_ms > 0 && !v.keeps_out(frame, now) && now + v.dedup_ms <= u64::MAX ==> {
            let entries = v.window_after(frame, now).entries;
            entries.len() > 0 && entries.last() == (frame, (now + v.dedup_ms) as u64)
        },
{
    dedup::lemma_unexpired_has(v.window.entries, now, frame);
    if v.wf() {
        dedup::law_window_forgets_no_more_than_it_must(v.window, frame, now, v.dedup_ms);
    }
}

/// A frame that came in is kept out until its time is up, as long as fewer other new frames
/// came in since than there is room for.
pub proof fn law_frame_is_kept_out_meanwhile(
    v: PipelineView,
    frame: Seq<u8>,
    now: u64,
    arrivals: Seq<(Seq<u8>, u64)>,
    later: u64,
)
    requires
        v.wf(),
        v.dedup_ms > 0,
        !v.keeps_out(frame, now),
        now + v.dedup_ms <= u64::MAX,
        later < now + v.dedup_ms,
        forall|i: int| 0 <= i < arrivals.len() ==> (#[trigger] arrivals[i]).1 < now + v.dedup_ms,
        dedup::all_in(v.window_after(frame, now), arrivals, v.dedup_ms).1 < v.window.capacity,
    ensures
        ({
            let window = dedup::all_in(v.window_after(frame, now), arrivals, v.dedup_ms).0;
            (PipelineView { window, ..v }).keeps_out(frame, later)
        }),
{
    dedup::law_frame_stays_a_duplicate(v.window, frame, now, v.dedup_ms, arrivals, later);
}

} // verus!
