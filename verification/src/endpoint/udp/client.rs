//! `udpc:` endpoints: send to a configured host, and latch onto the address that it
//! replies from.

use vstd::prelude::*;
use vstd::string::StringExecFns;

use crate::addr::{canonical_ip, IpAddr, Ipv4Addr, Ipv6Addr, SocketAddr};
use crate::endpoint::defaults::{
    DEFAULT_LATCH_IDLE_SECS, DEFAULT_RECONNECT_INITIAL_MS, DEFAULT_RECONNECT_MAX_MS,
    DEFAULT_TX_QUEUE_FRAMES, READ_BUF_BYTES,
};
use crate::endpoint::events::RouterFrame;
use crate::endpoint::filters::{Filters, FiltersView};
use crate::endpoint::id::EndpointId;
use crate::endpoint::identity_flags::IdentityFlags;
use crate::endpoint::session;
use crate::endpoint::session::Ingress;
use crate::endpoint::spec::endpoint_kinds::UdpClientEndpoint;
use crate::endpoint::stats::{EndpointState, EndpointStats};
use crate::mavlink::framer;
use crate::text;
use crate::text::decimal;

verus! {

/// What can be wrong with the local address of a `udpc:` endpoint.
#[derive(Debug, PartialEq, Eq)]
pub enum UdpClientError {
    Bind(String),
}

impl UdpClientError {
    /// The message for an operator.
    pub fn message(&self) -> (r: String)
        ensures
            r@ == match self {
                UdpClientError::Bind(reason) => "udpc: local bind failed: "@ + reason@,
            },
    {
        match self {
            UdpClientError::Bind(reason) => String::from_str("udpc: local bind failed: ").concat(
                reason.as_str(),
            ),
        }
    }
}

/// The adjustable settings of a `udpc:` endpoint, defaults filled in.
#[derive(Debug, Clone, Copy, PartialEq, Eq, Structural)]
pub struct UdpClientConfig {
    pub latch_idle_secs: u64,
    pub tx_queue_frames: usize,
    pub read_buf_bytes: usize,
}

impl Default for UdpClientConfig {
    fn default() -> (r: Self)
        ensures
            r == (UdpClientConfig {
                latch_idle_secs: DEFAULT_LATCH_IDLE_SECS,
                tx_queue_frames: DEFAULT_TX_QUEUE_FRAMES,
                read_buf_bytes: READ_BUF_BYTES,
            }),
    {
        UdpClientConfig {
            latch_idle_secs: DEFAULT_LATCH_IDLE_SECS,
            tx_queue_frames: DEFAULT_TX_QUEUE_FRAMES,
            read_buf_bytes: READ_BUF_BYTES,
        }
    }
}

impl UdpClientConfig {
    /// The settings of an endpoint, with defaults for what it leaves open.
    pub fn from_endpoint(ep: &UdpClientEndpoint) -> (r: Self)
        ensures
            r == (UdpClientConfig {
                latch_idle_secs: ep.latch_idle_secs.unwrap_or(DEFAULT_LATCH_IDLE_SECS),
                tx_queue_frames: ep.common.tx_queue_frames.unwrap_or(DEFAULT_TX_QUEUE_FRAMES),
                read_buf_bytes: ep.common.read_buf_bytes.unwrap_or(READ_BUF_BYTES),
            }),
    {
        UdpClientConfig {
            latch_idle_secs: ep.latch_idle_secs.unwrap_or(DEFAULT_LATCH_IDLE_SECS),
            tx_queue_frames: ep.common.tx_queue_frames.unwrap_or(DEFAULT_TX_QUEUE_FRAMES),
            read_buf_bytes: ep.common.read_buf_bytes.unwrap_or(READ_BUF_BYTES),
        }
    }
}

/// A `udpc:` endpoint ready to run.
#[derive(Debug)]
pub struct UdpClientSpec {
    pub host: String,
    pub port: u16,
    pub endpoint_id: EndpointId,
    pub name: String,
    pub latch_idle_secs: u64,
    pub reconnect_initial_ms: u64,
    pub reconnect_max_ms: u64,
    pub identity: IdentityFlags,
}

impl UdpClientSpec {
    /// `endpoint` with its defaults filled in.
    pub open spec fn of(
        endpoint: UdpClientEndpoint,
        endpoint_id: EndpointId,
        name: String,
    ) -> UdpClientSpec {
        UdpClientSpec {
            host: endpoint.host,
            port: endpoint.port,
            endpoint_id,
            name,
            latch_idle_secs: endpoint.latch_idle_secs.unwrap_or(DEFAULT_LATCH_IDLE_SECS),
            reconnect_initial_ms: DEFAULT_RECONNECT_INITIAL_MS,
            reconnect_max_ms: DEFAULT_RECONNECT_MAX_MS,
            identity: endpoint.identity,
        }
    }

    /// Fill in the defaults of an endpoint.
    pub fn from_endpoint(endpoint: UdpClientEndpoint, endpoint_id: EndpointId, name: String) -> (r:
        Self)
        ensures
            r == UdpClientSpec::of(endpoint, endpoint_id, name),
    {
        UdpClientSpec {
            host: endpoint.host,
            port: endpoint.port,
            endpoint_id,
            name,
            latch_idle_secs: endpoint.latch_idle_secs.unwrap_or(DEFAULT_LATCH_IDLE_SECS),
            reconnect_initial_ms: DEFAULT_RECONNECT_INITIAL_MS,
            reconnect_max_ms: DEFAULT_RECONNECT_MAX_MS,
            identity: endpoint.identity,
        }
    }
}

/// The address that the peer replied from, and when it last did, in milliseconds.
#[derive(Debug, Clone, Copy, PartialEq, Eq, Structural)]
pub struct LatchInfo {
    pub addr: SocketAddr,
    pub last_inbound: u64,
}

/// Where frames go and whom they are accepted from. A latch overrides the addresses that
/// the host resolved to.
#[derive(Debug)]
pub struct Destination {
    pub host: String,
    pub port: u16,
    pub resolved_ips: Vec<IpAddr>,
    pub latch: Option<LatchInfo>,
}

/// What becomes of a datagram.
#[derive(Debug, Clone, Copy, PartialEq, Eq, Structural)]
pub enum InboundDecision {
    /// Accept it and latch onto its sender.
    AcceptAndLatch,
    /// Accept it and refresh the latch; the port may have changed.
    AcceptUpdate,
    /// Drop it and count it.
    Reject,
}

/// What becomes of a datagram from `src`.
pub open spec fn classify_spec(
    latch: Option<LatchInfo>,
    resolved: Seq<IpAddr>,
    src: IpAddr,
) -> InboundDecision {
    match latch {
        Some(l) => if l.addr.ip_spec().canonical() == src.canonical() {
            InboundDecision::AcceptUpdate
        } else {
            InboundDecision::Reject
        },
        None => if exists|i: int|
            0 <= i < resolved.len() && (#[trigger] resolved[i]).canonical() == src.canonical() {
            InboundDecision::AcceptAndLatch
        } else {
            InboundDecision::Reject
        },
    }
}

/// Judge a datagram from `src_ip`: while latched only the latched address counts,
/// otherwise any address that the host resolved to. An IPv4-mapped address counts as its
/// IPv4 address.
pub fn classify_inbound(dest: &Destination, src_ip: IpAddr) -> (r: InboundDecision)
    ensures
        r == classify_spec(dest.latch, dest.resolved_ips@, src_ip),
{
    let src = canonical_ip(src_ip);
    if let Some(latch) = &dest.latch {
        if canonical_ip(latch.addr.ip()) == src {
            return InboundDecision::AcceptUpdate;
        }
        return InboundDecision::Reject;
    }
    let mut i: usize = 0;
    while i < dest.resolved_ips.len()
        invariant
            i <= dest.resolved_ips@.len(),
            src == src_ip.canonical(),
            dest.latch is None,
            forall|j: int|
                0 <= j < i ==> (#[trigger] dest.resolved_ips@[j]).canonical() != src_ip.canonical(),
        decreases dest.resolved_ips@.len() - i,
    {
        if canonical_ip(dest.resolved_ips[i]) == src {
            assert(dest.resolved_ips@[i as int].canonical() == src_ip.canonical());
            return InboundDecision::AcceptAndLatch;
        }
        i = i + 1;
    }
    InboundDecision::Reject
}

/// The local address to bind for reaching `ips`.
pub open spec fn local_bind_spec(ips: Seq<IpAddr>) -> SocketAddr {
    if ips.len() == 0 || exists|i: int| 0 <= i < ips.len() && (#[trigger] ips[i]) is V6 {
        SocketAddr::of(IpAddr::V6(Ipv6Addr::unspecified_spec()), 0)
    } else {
        SocketAddr::of(IpAddr::V4(Ipv4Addr::unspecified_spec()), 0)
    }
}

/// The local address to bind: dual-stack where any address is IPv6 or none is known yet,
/// plain IPv4 otherwise.
pub fn pick_local_bind(resolved_ips: &[IpAddr]) -> (r: SocketAddr)
    ensures
        r == local_bind_spec(resolved_ips@),
{
    let mut v6 = resolved_ips.len() == 0;
    let mut i: usize = 0;
    while i < resolved_ips.len()
        invariant
            i <= resolved_ips@.len(),
            v6 == (resolved_ips@.len() == 0 || exists|j: int|
                0 <= j < i && (#[trigger] resolved_ips@[j]) is V6),
        decreases resolved_ips@.len() - i,
    {
        if resolved_ips[i].is_ipv6() {
            assert(resolved_ips@[i as int] is V6);
            v6 = true;
        }
        i = i + 1;
    }
    if v6 {
        SocketAddr::new(
            IpAddr::V6(Ipv6Addr { s0: 0, s1: 0, s2: 0, s3: 0, s4: 0, s5: 0, s6: 0, s7: 0 }),
            0,
        )
    } else {
        SocketAddr::new(IpAddr::V4(Ipv4Addr { a: 0, b: 0, c: 0, d: 0 }), 0)
    }
}

/// What is handed to name resolution.
pub open spec fn lookup_text(host: Seq<char>, port: u16) -> Seq<char> {
    host + ":"@ + text::decimal_spec(port as nat)
}

/// What is handed to name resolution: `host:port`.
pub fn lookup_target(host: &str, port: u16) -> (r: String)
    ensures
        r@ == lookup_text(host@, port),
{
    String::from_str(host).concat(":").concat(decimal(port as u64).as_str())
}

/// The address that frames go to now.
pub open spec fn target_spec(
    latch: Option<LatchInfo>,
    resolved: Seq<IpAddr>,
    port: u16,
) -> Option<SocketAddr> {
    match latch {
        Some(l) => Some(l.addr),
        None => if resolved.len() > 0 {
            Some(SocketAddr::of(resolved[0], port))
        } else {
            None
        },
    }
}

/// The addresses after another resolution: the fresh ones, or the old where it gave none.
pub open spec fn refreshed(old_ips: Seq<IpAddr>, fresh: Seq<IpAddr>) -> Seq<IpAddr> {
    if fresh.len() > 0 {
        fresh
    } else {
        old_ips
    }
}

/// Whether a latch refreshed at `last` has been idle for `idle_secs` at `now`.
pub open spec fn idle_for(last: u64, now: u64, idle_secs: u64) -> bool {
    now - last >= idle_secs * 1000 || idle_secs == 0
}

impl Destination {
    /// Not latched.
    pub fn new(host: String, port: u16, resolved_ips: Vec<IpAddr>) -> (r: Self)
        ensures
            r == (Destination { host, port, resolved_ips, latch: None }),
    {
        Destination { host, port, resolved_ips, latch: None }
    }

    /// The address that frames go to now: the latched one, else the first that the host
    /// resolved to.
    pub fn current_target(&self) -> (r: Option<SocketAddr>)
        ensures
            r == target_spec(self.latch, self.resolved_ips@, self.port),
    {
        if let Some(latch) = &self.latch {
            return Some(latch.addr);
        }
        if self.resolved_ips.len() > 0 {
            Some(SocketAddr::new(self.resolved_ips[0], self.port))
        } else {
            None
        }
    }

    /// Take over fresh addresses where there are any.
    pub fn refresh(&mut self, fresh: Vec<IpAddr>)
        ensures
            final(self).resolved_ips@ == refreshed(old(self).resolved_ips@, fresh@),
            final(self).latch == old(self).latch,
            final(self).host == old(self).host,
            final(self).port == old(self).port,
    {
        if fresh.len() > 0 {
            self.resolved_ips = fresh;
        }
    }

    /// Judge a datagram and move the latch accordingly. An accepted datagram shows that
    /// the peer can be reached; a rejected one is counted and changes nothing else.
    pub fn on_inbound(&mut self, src: SocketAddr, now: u64, stats: &mut EndpointStats) -> (r: bool)
        ensures
            final(self).host == old(self).host,
            final(self).port == old(self).port,
            final(self).resolved_ips == old(self).resolved_ips,
            ({
                let decision = classify_spec(
                    old(self).latch,
                    old(self).resolved_ips@,
                    src.ip_spec(),
                );
                if decision == InboundDecision::Reject {
                    &&& !r
                    &&& final(self).latch == old(self).latch
                    &&& *final(stats) == session::filtered_in(*old(stats))
                } else {
                    &&& r
                    &&& final(self).latch == Some(LatchInfo { addr: src, last_inbound: now })
                    &&& *final(stats) == old(stats).with_state(EndpointState::Connected)
                }
            }),
    {
        match classify_inbound(self, src.ip()) {
            InboundDecision::Reject => {
                stats.in_filter_drops = stats.in_filter_drops.wrapping_add(1);
                false
            },
            InboundDecision::AcceptAndLatch => {
                self.latch = Some(LatchInfo { addr: src, last_inbound: now });
                stats.store_state(EndpointState::Connected);
                true
            },
            InboundDecision::AcceptUpdate => {
                self.latch = Some(LatchInfo { addr: src, last_inbound: now });
                stats.store_state(EndpointState::Connected);
                true
            },
        }
    }

    /// Whether the latch has been idle for `idle_secs` and the host is to be resolved
    /// again.
    pub fn latch_expired(&self, idle_secs: u64, now: u64) -> (r: bool)
        ensures
            r == match self.latch {
                Some(l) => idle_for(l.last_inbound, now, idle_secs),
                None => false,
            },
            self.latch is None ==> !r,
            self.latch is Some && idle_secs > 0 ==> r == (now
                >= self.latch.unwrap().last_inbound + 1000 * idle_secs),
    {
        match &self.latch {
            Some(latch) => {
                let idle: u64 = now.saturating_sub(latch.last_inbound);
                idle as u128 >= idle_secs as u128 * 1000
            },
            None => false,
        }
    }

    /// Give the latch up for the configured host, resolved anew.
    pub fn revert(&mut self, fresh: Vec<IpAddr>)
        ensures
            final(self).latch is None,
            final(self).resolved_ips@ == refreshed(old(self).resolved_ips@, fresh@),
            final(self).host == old(self).host,
            final(self).port == old(self).port,
    {
        self.refresh(fresh);
        self.latch = None;
    }

    /// Account for a frame that had no address to go to. The host was resolved again;
    /// where there is still no address the endpoint counts as reconnecting.
    pub fn on_no_target(&mut self, fresh: Vec<IpAddr>, stats: &mut EndpointStats)
        ensures
            final(self).latch == old(self).latch,
            final(self).host == old(self).host,
            final(self).port == old(self).port,
            final(self).resolved_ips@ == refreshed(old(self).resolved_ips@, fresh@),
            *final(stats) == if target_spec(
                final(self).latch,
                final(self).resolved_ips@,
                final(self).port,
            ) is None {
                old(stats).with_state(EndpointState::Reconnecting)
            } else {
                *old(stats)
            },
    {
        self.refresh(fresh);
        if self.current_target().is_none() {
            stats.store_state(EndpointState::Reconnecting);
        }
    }

    /// Account for a frame of `bytes` bytes that was sent.
    pub fn on_sent(bytes: usize, stats: &mut EndpointStats)
        ensures
            *final(stats) == old(stats).with_tx(bytes).with_state(EndpointState::Connected),
    {
        stats.add_tx_frame(bytes);
        stats.store_state(EndpointState::Connected);
    }

    /// Account for a frame that could not be sent. The host was resolved again for the
    /// next one.
    pub fn on_send_failed(&mut self, fresh: Vec<IpAddr>, stats: &mut EndpointStats)
        ensures
            final(self).latch == old(self).latch,
            final(self).host == old(self).host,
            final(self).port == old(self).port,
            final(self).resolved_ips@ == refreshed(old(self).resolved_ips@, fresh@),
            *final(stats) == old(stats).with_state(EndpointState::Reconnecting),
    {
        self.refresh(fresh);
        stats.store_state(EndpointState::Reconnecting);
    }
}

/// What a `udpc:` task waits for.
pub enum UdpClientEvent<'a> {
    /// The endpoint was told to stop.
    Cancelled,
    /// The once-a-second tick.
    Tick,
    /// A datagram arrived.
    Datagram(&'a [u8], SocketAddr),
    /// Receiving failed.
    RecvFailed,
    /// A frame was handed to the router; `false` where the router is gone.
    Forwarded(bool),
    /// A frame waits to be sent.
    FrameReady,
    /// A frame was sent: so many bytes, or it failed.
    Sent(Option<usize>),
    /// The host was resolved to these addresses, perhaps none.
    Resolved(Vec<IpAddr>),
}

/// What a `udpc:` task does next.
pub enum UdpClientAction {
    /// Discard what is queued and end.
    Stop,
    /// Wait for the next event.
    Wait,
    /// Hand this frame to the router and report back.
    Forward(RouterFrame),
    /// Send the waiting frame to this address and report back.
    Send(SocketAddr),
    /// Resolve the host and report back. Without an address the waiting frame is dropped.
    Resolve,
}

/// Why the host is being resolved.
#[derive(Debug, Clone, Copy, PartialEq, Eq, Structural)]
pub enum ResolveReason {
    /// It is not.
    NotResolving,
    /// The latch was idle for too long.
    Revert,
    /// There was no address to send to.
    NoTarget,
    /// A send failed.
    SendFailed,
}

/// The state of a running `udpc:` endpoint.
pub struct UdpClientTask {
    pub dest: Destination,
    pub ingress: Ingress,
    pub resolving: ResolveReason,
}

impl UdpClientTask {
    /// Nothing received yet, not latched.
    pub fn new(dest: Destination) -> (r: Self)
        ensures
            r.dest == dest,
            r.resolving == ResolveReason::NotResolving,
            r.ingress.is_fresh(),
    {
        UdpClientTask { dest, ingress: Ingress::new(), resolving: ResolveReason::NotResolving }
    }

    /// The same destination but for the latch and the addresses.
    pub open spec fn same_host(self, before: UdpClientTask) -> bool {
        self.dest.host == before.dest.host && self.dest.port == before.dest.port
    }

    /// Respond to one event. A datagram from anyone but the peer is counted and dropped;
    /// an accepted one moves the latch and is forwarded frame by frame. An idle latch is
    /// given up for the configured host, resolved anew. A frame goes to the latched
    /// address, else to the first resolved one; without any, and after a failed send, the
    /// host is resolved again.
    pub fn step(
        &mut self,
        event: UdpClientEvent,
        endpoint_id: EndpointId,
        filters: &Filters,
        latch_idle_secs: u64,
        stats: &mut EndpointStats,
        now: u64,
    ) -> (r: UdpClientAction)
        requires
            old(self).ingress.seq_tracker@.wf(),
            old(self).ingress.framer@.pending.len() + old(self).ingress.framer@.read_capacity
                <= isize::MAX,
            event matches UdpClientEvent::Datagram(data, _) ==> old(
                self,
            ).ingress.framer@.pending.len() + data@.len() + old(self).ingress.framer@.read_capacity
                <= isize::MAX,
        ensures
            final(self).ingress.seq_tracker@.wf(),
            final(self).same_host(*old(self)),
            ({
                let t0 = *old(self);
                let s0 = *old(stats);
                let unchanged = *final(self) == t0 && *final(stats) == s0;
                match event {
                    UdpClientEvent::Cancelled => unchanged && r == UdpClientAction::Stop,
                    UdpClientEvent::RecvFailed => unchanged && r == UdpClientAction::Wait,
                    UdpClientEvent::Forwarded(false) => unchanged && r == UdpClientAction::Wait,
                    UdpClientEvent::Tick => {
                        let expired = match t0.dest.latch {
                            Some(l) => idle_for(l.last_inbound, now, latch_idle_secs),
                            None => false,
                        };
                        if expired {
                            &&& *final(self) == (UdpClientTask {
                                resolving: ResolveReason::Revert,
                                ..t0
                            })
                            &&& *final(stats) == s0
                            &&& r == UdpClientAction::Resolve
                        } else {
                            unchanged && r == UdpClientAction::Wait
                        }
                    },
                    UdpClientEvent::FrameReady => match target_spec(
                        t0.dest.latch,
                        t0.dest.resolved_ips@,
                        t0.dest.port,
                    ) {
                        Some(target) => unchanged && r == UdpClientAction::Send(target),
                        None => {
                            &&& *final(self) == (UdpClientTask {
                                resolving: ResolveReason::NoTarget,
                                ..t0
                            })
                            &&& *final(stats) == s0
                            &&& r == UdpClientAction::Resolve
                        },
                    },
                    UdpClientEvent::Sent(Some(n)) => {
                        &&& *final(self) == t0
                        &&& *final(stats) == s0.with_tx(n).with_state(EndpointState::Connected)
                        &&& r == UdpClientAction::Wait
                    },
                    UdpClientEvent::Sent(None) => {
                        &&& *final(self) == (UdpClientTask {
                            resolving: ResolveReason::SendFailed,
                            ..t0
                        })
                        &&& *final(stats) == s0
                        &&& r == UdpClientAction::Resolve
                    },
                    UdpClientEvent::Resolved(fresh) => {
                        let ips = refreshed(t0.dest.resolved_ips@, fresh@);
                        &&& r == UdpClientAction::Wait
                        &&& final(self).ingress == t0.ingress
                        &&& final(self).resolving == ResolveReason::NotResolving
                        &&& final(self).dest.resolved_ips@ == ips
                        &&& final(self).dest.latch == if t0.resolving == ResolveReason::Revert {
                            None
                        } else {
                            t0.dest.latch
                        }
                        &&& *final(stats) == if t0.resolving == ResolveReason::SendFailed || (
                        t0.resolving == ResolveReason::NoTarget && target_spec(
                            t0.dest.latch,
                            ips,
                            t0.dest.port,
                        ) is None) {
                            s0.with_state(EndpointState::Reconnecting)
                        } else {
                            s0
                        }
                    },
                    UdpClientEvent::Datagram(data, src) => {
                        let decision = classify_spec(
                            t0.dest.latch,
                            t0.dest.resolved_ips@,
                            src.ip_spec(),
                        );
                        if decision == InboundDecision::Reject {
                            &&& *final(self) == t0
                            &&& *final(stats) == session::filtered_in(s0)
                            &&& r == UdpClientAction::Wait
                        } else {
                            &&& final(self).dest == (Destination {
                                latch: Some(LatchInfo { addr: src, last_inbound: now }),
                                ..t0.dest
                            })
                            &&& final(self).resolving == t0.resolving
                            &&& exists|fed: Ingress|
                                {
                                    &&& #[trigger] is_fed(fed, t0.ingress, data@)
                                    &&& forwards(
                                        r,
                                        fed,
                                        final(self).ingress,
                                        s0.with_state(EndpointState::Connected),
                                        *final(stats),
                                        endpoint_id,
                                        filters@,
                                        now,
                                    )
                                }
                        }
                    },
                    UdpClientEvent::Forwarded(true) => {
                        &&& final(self).dest == t0.dest
                        &&& final(self).resolving == t0.resolving
                        &&& forwards(
                            r,
                            t0.ingress,
                            final(self).ingress,
                            s0,
                            *final(stats),
                            endpoint_id,
                            filters@,
                            now,
                        )
                    },
                }
            }),
    {
        match event {
            UdpClientEvent::Cancelled => UdpClientAction::Stop,
            UdpClientEvent::RecvFailed => UdpClientAction::Wait,
            UdpClientEvent::Forwarded(false) => UdpClientAction::Wait,
            UdpClientEvent::Forwarded(true) => self.pump(endpoint_id, filters, stats, now),
            UdpClientEvent::Tick => {
                if self.dest.latch_expired(latch_idle_secs, now) {
                    self.resolving = ResolveReason::Revert;
                    UdpClientAction::Resolve
                } else {
                    UdpClientAction::Wait
                }
            },
            UdpClientEvent::FrameReady => match self.dest.current_target() {
                Some(target) => UdpClientAction::Send(target),
                None => {
                    self.resolving = ResolveReason::NoTarget;
                    UdpClientAction::Resolve
                },
            },
            UdpClientEvent::Sent(Some(n)) => {
                Destination::on_sent(n, stats);
                UdpClientAction::Wait
            },
            UdpClientEvent::Sent(None) => {
                self.resolving = ResolveReason::SendFailed;
                UdpClientAction::Resolve
            },
            UdpClientEvent::Resolved(fresh) => {
                match self.resolving {
                    ResolveReason::Revert => self.dest.revert(fresh),
                    ResolveReason::NoTarget => self.dest.on_no_target(fresh, stats),
                    ResolveReason::SendFailed => self.dest.on_send_failed(fresh, stats),
                    ResolveReason::NotResolving => self.dest.refresh(fresh),
                }
                self.resolving = ResolveReason::NotResolving;
                UdpClientAction::Wait
            },
            UdpClientEvent::Datagram(data, src) => {
                if !self.dest.on_inbound(src, now, stats) {
                    return UdpClientAction::Wait;
                }
                self.ingress.framer.feed(data);
                assert(is_fed(self.ingress, old(self).ingress, data@));
                self.pump(endpoint_id, filters, stats, now)
            },
        }
    }

    /// Forward the next frame, or settle the counters where none is left.
    fn pump(
        &mut self,
        endpoint_id: EndpointId,
        filters: &Filters,
        stats: &mut EndpointStats,
        now: u64,
    ) -> (r: UdpClientAction)
        requires
            old(self).ingress.seq_tracker@.wf(),
            old(self).ingress.framer@.pending.len() + old(self).ingress.framer@.read_capacity
                <= isize::MAX,
        ensures
            final(self).ingress.seq_tracker@.wf(),
            final(self).dest == old(self).dest,
            final(self).resolving == old(self).resolving,
            forwards(
                r,
                old(self).ingress,
                final(self).ingress,
                *old(stats),
                *final(stats),
                endpoint_id,
                filters@,
                now,
            ),
    {
        match self.ingress.pump(endpoint_id, filters, stats, now) {
            Some(f) => UdpClientAction::Forward(f),
            None => UdpClientAction::Wait,
        }
    }
}

/// `fed` is the way in `before` with `data` appended to what waits in its framer.
pub open spec fn is_fed(fed: Ingress, before: Ingress, data: Seq<u8>) -> bool {
    &&& fed.framer@ == (framer::FramerView {
        pending: before.framer@.pending + data,
        ..before.framer@
    })
    &&& fed.seq_tracker == before.seq_tracker
    &&& fed.counters == before.counters
}

/// The task forwards the next frame of the way in, or waits where none is left.
pub open spec fn forwards(
    action: UdpClientAction,
    i0: Ingress,
    i1: Ingress,
    s0: EndpointStats,
    s1: EndpointStats,
    endpoint_id: EndpointId,
    filters: FiltersView,
    now: u64,
) -> bool {
    &&& session::pumped(i0, i1, s0, s1, filters, now)
    &&& match action {
        UdpClientAction::Forward(f) => session::is_next_frame(
            f,
            i0,
            s0,
            endpoint_id,
            filters,
            now,
        ),
        UdpClientAction::Wait => session::next_inbound_spec(
            i0.framer@,
            i0.seq_tracker@,
            s0,
            filters,
            now,
        ).frame is None,
        _ => false,
    }
}

/// While latched, no other address is accepted, not even one that the host resolved to.
pub proof fn law_latch_is_a_lock(latch: LatchInfo, resolved: Seq<IpAddr>, src: IpAddr)
    requires
        src.canonical() != latch.addr.ip_spec().canonical(),
    ensures
        classify_spec(Some(latch), resolved, src) == InboundDecision::Reject,
{
}

/// A datagram that was accepted makes its sender the one that is accepted from then on
/// and the one that frames go to.
pub proof fn law_accepted_sender_is_latched(
    resolved: Seq<IpAddr>,
    src: SocketAddr,
    port: u16,
    now: u64,
)
    ensures
        ({
            let latch = Some(LatchInfo { addr: src, last_inbound: now });
            &&& classify_spec(latch, resolved, src.ip_spec()) == InboundDecision::AcceptUpdate
            &&& target_spec(latch, resolved, port) == Some(src)
        }),
{
}

/// With times in milliseconds, something heard of at `last` is idle at `now` exactly where
/// `idle_secs` seconds have gone by: `now >= last + 1000 * idle_secs`. A limit of 0 seconds
/// is over at once.
pub proof fn law_idle_is_counted_in_seconds(last: u64, now: u64, idle_secs: u64)
    ensures
        idle_secs > 0 ==> (idle_for(last, now, idle_secs) <==> now >= last + 1000 * idle_secs),
        idle_secs == 0 ==> idle_for(last, now, idle_secs),
{
}

/// While latched, a datagram is accepted exactly where it comes from the latched IP address,
/// whatever its port; while not latched, exactly where it comes from an address that the
/// host resolved to. An IPv4-mapped address counts as its IPv4 address.
pub proof fn law_only_the_peer_is_accepted(
    latch: Option<LatchInfo>,
    resolved: Seq<IpAddr>,
    src: IpAddr,
)
    ensures
        latch matches Some(l) ==> {
            let peer = match l.addr {
                SocketAddr::V4 { ip, .. } => IpAddr::V4(ip),
                SocketAddr::V6 { ip, .. } => IpAddr::V6(ip),
            };
            &&& classify_spec(latch, resolved, src) != InboundDecision::AcceptAndLatch
            &&& classify_spec(latch, resolved, src) == InboundDecision::AcceptUpdate
                <==> peer.canonical() == src.canonical()
        },
        latch is None ==> {
            &&& classify_spec(latch, resolved, src) != InboundDecision::AcceptUpdate
            &&& classify_spec(latch, resolved, src) == InboundDecision::AcceptAndLatch
                <==> exists|i: int|
                0 <= i < resolved.len() && (#[trigger] resolved[i]).canonical() == src.canonical()
        },
{
}

/// Frames go to the latched address as it is; while not latched to the first address that
/// the host resolved to, at the configured port; and nowhere while there is neither.
pub proof fn law_frames_go_to_the_peer(
    latch: Option<LatchInfo>,
    resolved: Seq<IpAddr>,
    port: u16,
)
    ensures
        latch matches Some(l) ==> target_spec(latch, resolved, port) == Some(l.addr),
        latch is None && resolved.len() == 0 ==> target_spec(latch, resolved, port) is None,
        latch is None && resolved.len() > 0 ==> {
            let target = target_spec(latch, resolved, port);
            &&& target is Some
            &&& target.unwrap() == match resolved[0] {
                IpAddr::V4(ip) => SocketAddr::V4 { ip, port },
                IpAddr::V6(ip) => SocketAddr::V6 { ip, port, flowinfo: 0, scope_id: 0 },
            }
        },
{
}

/// A resolution that gives no address leaves the known ones in place; any other replaces
/// them all.
pub proof fn law_failed_resolution_keeps_addresses(old_ips: Seq<IpAddr>, fresh: Seq<IpAddr>)
    ensures
        fresh.len() == 0 ==> refreshed(old_ips, fresh) == old_ips,
        fresh.len() > 0 ==> refreshed(old_ips, fresh) == fresh,
{
}

/// The local address has port 0 and no host. It is IPv4 exactly where every address to be
/// reached is, and there is one.
pub proof fn law_local_address_reaches_all(ips: Seq<IpAddr>)
    ensures
        ips.len() > 0 && (forall|i: int| 0 <= i < ips.len() ==> (#[trigger] ips[i]) is V4)
            ==> local_bind_spec(ips) == (SocketAddr::V4 {
            ip: Ipv4Addr { a: 0, b: 0, c: 0, d: 0 },
            port: 0,
        }),
        ips.len() == 0 || (exists|i: int| 0 <= i < ips.len() && (#[trigger] ips[i]) is V6)
            ==> local_bind_spec(ips) == (SocketAddr::V6 {
            ip: Ipv6Addr { s0: 0, s1: 0, s2: 0, s3: 0, s4: 0, s5: 0, s6: 0, s7: 0 },
            port: 0,
            flowinfo: 0,
            scope_id: 0,
        }),
{
}

/// What is resolved is the host and the port with a colon between them.
pub proof fn law_host_and_port_are_resolved(host: Seq<char>, port: u16)
    ensures
        lookup_text(host, port) == host + seq![':'] + text::decimal_spec(port as nat),
{
    reveal_strlit(":");
    assert(":"@ =~= seq![':']);
}

} // verus!
