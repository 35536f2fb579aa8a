//! `tcpc:` endpoints: dial a host, and dial again when the connection is lost.

use vstd::prelude::*;

use crate::addr;
use crate::addr::{parse_ip, SocketAddr};
use crate::endpoint::backoff;
use crate::endpoint::backoff::{Backoff, BackoffView};
use crate::endpoint::defaults::{
    DEFAULT_RECONNECT_INITIAL_MS, DEFAULT_RECONNECT_MAX_MS, DEFAULT_TX_QUEUE_FRAMES, READ_BUF_BYTES,
};
use crate::endpoint::id::EndpointId;
use crate::endpoint::identity_flags::IdentityFlags;
use crate::endpoint::session::SessionOutcome;
use crate::endpoint::spec::endpoint_kinds::TcpClientEndpoint;
use crate::endpoint::stats::{EndpointState, EndpointStats};

verus! {

/// Longest wait for one connection, in milliseconds.
pub const CONNECT_TIMEOUT_MS: u64 = 10_000;

/// The adjustable settings of a `tcpc:` endpoint, defaults filled in.
#[derive(Debug, Clone, Copy, PartialEq, Eq, Structural)]
pub struct TcpClientConfig {
    pub reconnect_initial_ms: u64,
    pub reconnect_max_ms: u64,
    pub read_buf_bytes: usize,
    pub tx_queue_frames: usize,
}

impl Default for TcpClientConfig {
    fn default() -> (r: Self)
        ensures
            r == (TcpClientConfig {
                reconnect_initial_ms: DEFAULT_RECONNECT_INITIAL_MS,
                reconnect_max_ms: DEFAULT_RECONNECT_MAX_MS,
                read_buf_bytes: READ_BUF_BYTES,
                tx_queue_frames: DEFAULT_TX_QUEUE_FRAMES,
            }),
    {
        TcpClientConfig {
            reconnect_initial_ms: DEFAULT_RECONNECT_INITIAL_MS,
            reconnect_max_ms: DEFAULT_RECONNECT_MAX_MS,
            read_buf_bytes: READ_BUF_BYTES,
            tx_queue_frames: DEFAULT_TX_QUEUE_FRAMES,
        }
    }
}

impl TcpClientConfig {
    /// The settings of an endpoint, with defaults for what it leaves open.
    pub fn from_endpoint(ep: &TcpClientEndpoint) -> (r: Self)
        ensures
            r == (TcpClientConfig {
                reconnect_initial_ms: ep.reconnect_initial_ms.unwrap_or(
                    DEFAULT_RECONNECT_INITIAL_MS,
                ),
                reconnect_max_ms: ep.reconnect_max_ms.unwrap_or(DEFAULT_RECONNECT_MAX_MS),
                read_buf_bytes: ep.common.read_buf_bytes.unwrap_or(READ_BUF_BYTES),
                tx_queue_frames: ep.common.tx_queue_frames.unwrap_or(DEFAULT_TX_QUEUE_FRAMES),
            }),
    {
        TcpClientConfig {
            reconnect_initial_ms: ep.reconnect_initial_ms.unwrap_or(DEFAULT_RECONNECT_INITIAL_MS),
            reconnect_max_ms: ep.reconnect_max_ms.unwrap_or(DEFAULT_RECONNECT_MAX_MS),
            read_buf_bytes: ep.common.read_buf_bytes.unwrap_or(READ_BUF_BYTES),
            tx_queue_frames: ep.common.tx_queue_frames.unwrap_or(DEFAULT_TX_QUEUE_FRAMES),
        }
    }
}

/// A `tcpc:` endpoint ready to run.
#[derive(Debug)]
pub struct TcpClientSpec {
    pub host: String,
    pub port: u16,
    pub endpoint_id: EndpointId,
    pub name: String,
    pub reconnect_initial_ms: u64,
    pub reconnect_max_ms: u64,
    pub identity: IdentityFlags,
}

impl TcpClientSpec {
    /// `endpoint` with its defaults filled in.
    pub open spec fn of(
        endpoint: TcpClientEndpoint,
        endpoint_id: EndpointId,
        name: String,
    ) -> TcpClientSpec {
        TcpClientSpec {
            host: endpoint.host,
            port: endpoint.port,
            endpoint_id,
            name,
            reconnect_initial_ms: endpoint.reconnect_initial_ms.unwrap_or(
                DEFAULT_RECONNECT_INITIAL_MS,
            ),
            reconnect_max_ms: endpoint.reconnect_max_ms.unwrap_or(DEFAULT_RECONNECT_MAX_MS),
            identity: endpoint.identity,
        }
    }

    /// Fill in the defaults of an endpoint.
    pub fn from_endpoint(endpoint: TcpClientEndpoint, endpoint_id: EndpointId, name: String) -> (r:
        Self)
        ensures
            r == TcpClientSpec::of(endpoint, endpoint_id, name),
    {
        let config = TcpClientConfig::from_endpoint(&endpoint);
        TcpClientSpec {
            host: endpoint.host,
            port: endpoint.port,
            endpoint_id,
            name,
            reconnect_initial_ms: config.reconnect_initial_ms,
            reconnect_max_ms: config.reconnect_max_ms,
            identity: endpoint.identity,
        }
    }
}

// ---------------------------------------------------------------- whom to dial

/// The addresses of one kind, in order.
pub open spec fn of_kind(addrs: Seq<SocketAddr>, v6: bool) -> Seq<SocketAddr>
    decreases addrs.len(),
{
    if addrs.len() == 0 {
        Seq::empty()
    } else if (addrs.last() is V6) == v6 {
        of_kind(addrs.drop_last(), v6).push(addrs.last())
    } else {
        of_kind(addrs.drop_last(), v6)
    }
}

/// The addresses in the order in which they are dialled: IPv4 first, otherwise as
/// resolved.
pub open spec fn dial_order(addrs: Seq<SocketAddr>) -> Seq<SocketAddr> {
    of_kind(addrs, false) + of_kind(addrs, true)
}

/// Collect the addresses of one kind behind `out`.
fn push_kind(out: &mut Vec<SocketAddr>, addrs: &[SocketAddr], v6: bool)
    ensures
        final(out)@ == old(out)@ + of_kind(addrs@, v6),
{
    let mut i: usize = 0;
    assert(addrs@.take(0) =~= Seq::empty());
    while i < addrs.len()
        invariant
            i <= addrs@.len(),
            out@ =~= old(out)@ + of_kind(addrs@.take(i as int), v6),
        decreases addrs@.len() - i,
    {
        let addr: SocketAddr = addrs[i];
        proof {
            assert(addrs@.take(i + 1).drop_last() =~= addrs@.take(i as int));
            assert(addrs@.take(i + 1).last() == addr);
        }
        let is_v6 = matches!(addr, SocketAddr::V6 { .. });
        if is_v6 == v6 {
            out.push(addr);
        }
        i = i + 1;
    }
    assert(addrs@.take(addrs@.len() as int) =~= addrs@);
}

/// Put resolved addresses in the order in which they are dialled.
pub fn order_targets(addrs: &[SocketAddr]) -> (r: Vec<SocketAddr>)
    ensures
        r@ == dial_order(addrs@),
{
    let mut out: Vec<SocketAddr> = Vec::new();
    push_kind(&mut out, addrs, false);
    push_kind(&mut out, addrs, true);
    assert(out@ =~= dial_order(addrs@));
    out
}

/// The address of a host given as an IP literal, which needs no name resolution.
pub fn literal_target(host: &str, port: u16) -> (r: Option<SocketAddr>)
    ensures
        r == match addr::ip_text_spec(host@) {
            Some(ip) => Some(SocketAddr::of(ip, port)),
            None => None,
        },
{
    match parse_ip(host) {
        Some(ip) => Some(SocketAddr::new(ip, port)),
        None => None,
    }
}

/// The addresses to dial are those that were resolved, none twice and none left out.
pub proof fn law_dial_order_is_complete(addrs: Seq<SocketAddr>, a: SocketAddr)
    ensures
        dial_order(addrs).len() == addrs.len(),
        dial_order(addrs).to_multiset().count(a) == addrs.to_multiset().count(a),
    decreases addrs.len(),
{
    lemma_kinds(addrs, a);
    let x = of_kind(addrs, false);
    let y = of_kind(addrs, true);
    vstd::seq_lib::lemma_multiset_commutative(x, y);
}

/// The two kinds together are everything.
proof fn lemma_kinds(addrs: Seq<SocketAddr>, a: SocketAddr)
    ensures
        of_kind(addrs, false).len() + of_kind(addrs, true).len() == addrs.len(),
        of_kind(addrs, false).to_multiset().count(a) + of_kind(addrs, true).to_multiset().count(a)
            == addrs.to_multiset().count(a),
    decreases addrs.len(),
{
    broadcast use vstd::seq_lib::group_to_multiset_ensures;

    if addrs.len() > 0 {
        let init = addrs.drop_last();
        lemma_kinds(init, a);
        assert(addrs =~= init.push(addrs.last()));
    }
}

/// How one attempt to connect ended.
#[derive(Debug, Clone, Copy, PartialEq, Eq, Structural)]
pub enum DialOutcome {
    Connected,
    Cancelled,
    Failed,
}

/// What a round of dialling does next.
#[derive(Debug, Clone, Copy, PartialEq, Eq, Structural)]
pub enum DialStep {
    /// Dial this address.
    Dial(SocketAddr),
    /// The round has ended.
    Done(DialOutcome),
}

/// Addresses to dial one after the other.
pub struct Dialer {
    targets: Vec<SocketAddr>,
    next: usize,
}

impl View for Dialer {
    type V = Seq<SocketAddr>;

    /// The addresses not dialled yet.
    closed spec fn view(&self) -> Seq<SocketAddr> {
        if self.next <= self.targets@.len() {
            self.targets@.skip(self.next as int)
        } else {
            Seq::empty()
        }
    }
}

impl Dialer {
    /// Dial the resolved addresses, IPv4 first.
    pub fn new(resolved: &[SocketAddr]) -> (r: Self)
        ensures
            r@ == dial_order(resolved@),
    {
        let r = Dialer { targets: order_targets(resolved), next: 0 };
        assert(r.targets@.skip(0) =~= r.targets@);
        r
    }

    /// The next address to dial. After the last one the round has failed.
    pub fn next_target(&mut self) -> (r: Option<SocketAddr>)
        ensures
            match r {
                Some(a) => {
                    &&& old(self)@.len() > 0
                    &&& a == old(self)@[0]
                    &&& final(self)@ == old(self)@.skip(1)
                },
                None => old(self)@.len() == 0 && final(self)@ == old(self)@,
            },
    {
        if self.next < self.targets.len() {
            let a: SocketAddr = self.targets[self.next];
            let ghost before = self@;
            self.next = self.next + 1;
            assert(self@ =~= before.skip(1));
            Some(a)
        } else {
            None
        }
    }

    /// What follows the attempt that ended with `last`, or the beginning of the round. A
    /// connection and a cancellation end the round; a failure leads to the next address, and
    /// with no address left the round has failed.
    pub fn step(&mut self, last: Option<DialOutcome>) -> (r: DialStep)
        ensures
            match last {
                Some(DialOutcome::Connected) | Some(DialOutcome::Cancelled) => {
                    r == DialStep::Done(last.unwrap()) && final(self)@ == old(self)@
                },
                Some(DialOutcome::Failed) | None => if old(self)@.len() == 0 {
                    r == DialStep::Done(DialOutcome::Failed) && final(self)@ == old(self)@
                } else {
                    r == DialStep::Dial(old(self)@[0]) && final(self)@ == old(self)@.skip(1)
                },
            },
    {
        match last {
            Some(DialOutcome::Connected) => DialStep::Done(DialOutcome::Connected),
            Some(DialOutcome::Cancelled) => DialStep::Done(DialOutcome::Cancelled),
            Some(DialOutcome::Failed) | None => match self.next_target() {
                Some(a) => DialStep::Dial(a),
                None => DialStep::Done(DialOutcome::Failed),
            },
        }
    }
}

// ---------------------------------------------------------------- the task

/// What a `tcpc:` task waits for.
#[derive(Debug, Clone, Copy, PartialEq, Eq, Structural)]
pub enum TcpClientEvent {
    /// The task begins.
    Begin,
    /// A round of dialling ended.
    Dialed(DialOutcome),
    /// The wait is over; `false` where the endpoint was told to stop meanwhile.
    Waited(bool),
    /// A session ended.
    SessionEnded(SessionOutcome),
}

/// What a `tcpc:` task does next.
#[derive(Debug, Clone, Copy, PartialEq, Eq, Structural)]
pub enum TcpClientAction {
    /// Discard what is queued and end.
    Stop,
    /// Resolve the host and dial its addresses.
    Dial,
    /// Wait this many milliseconds.
    Wait(u64),
    /// Discard what is queued, which is stale, and run a session.
    Session,
}

/// The state of a `tcpc:` task.
pub struct TcpClientTask {
    pub backoff: Backoff,
}

/// What the task does at the top of its loop.
pub open spec fn dial_or_stop(cancelled: bool) -> TcpClientAction {
    if cancelled {
        TcpClientAction::Stop
    } else {
        TcpClientAction::Dial
    }
}

impl TcpClientTask {
    /// A task with the reconnect delays of `spec`.
    pub fn new(spec: &TcpClientSpec) -> (r: Self)
        requires
            spec.reconnect_initial_ms + spec.reconnect_initial_ms / 5 <= i64::MAX,
            spec.reconnect_max_ms + spec.reconnect_max_ms / 5 <= i64::MAX,
        ensures
            r.backoff@.wf(),
            r.backoff@.initial == if spec.reconnect_initial_ms == 0 {
                1
            } else {
                spec.reconnect_initial_ms
            },
            r.backoff@.max == if spec.reconnect_max_ms < r.backoff@.initial {
                r.backoff@.initial
            } else {
                spec.reconnect_max_ms
            },
            r.backoff@.current == r.backoff@.initial,
            r.backoff@.rng != 0,
    {
        TcpClientTask { backoff: Backoff::new(spec.reconnect_initial_ms, spec.reconnect_max_ms) }
    }

    /// Respond to one event. `cancelled` says whether the endpoint has been told to stop.
    /// A connection starts the delays over and counts as connected, a lost one counts as
    /// reconnecting, and a failed round of dialling is followed by the next delay.
    pub fn step(&mut self, event: TcpClientEvent, cancelled: bool, stats: &mut EndpointStats) -> (r:
        TcpClientAction)
        requires
            old(self).backoff@.wf(),
        ensures
            final(self).backoff@.wf(),
            ({
                let b = old(self).backoff@;
                let s = *old(stats);
                match event {
                    TcpClientEvent::Begin | TcpClientEvent::Waited(true) => {
                        &&& r == dial_or_stop(cancelled)
                        &&& final(self).backoff@ == b
                        &&& *final(stats) == s
                    },
                    TcpClientEvent::Waited(false)
                    | TcpClientEvent::Dialed(DialOutcome::Cancelled)
                    | TcpClientEvent::SessionEnded(SessionOutcome::Terminated) => {
                        &&& r == TcpClientAction::Stop
                        &&& final(self).backoff@ == b
                        &&& *final(stats) == s
                    },
                    TcpClientEvent::Dialed(DialOutcome::Connected) => {
                        &&& r == TcpClientAction::Session
                        &&& final(self).backoff@ == (BackoffView { current: b.initial, ..b })
                        &&& *final(stats) == s.with_state(EndpointState::Connected)
                    },
                    TcpClientEvent::Dialed(DialOutcome::Failed) => {
                        &&& r == TcpClientAction::Wait(
                            backoff::spread_delay(b.current, backoff::xorshift_spec(b.rng)) as u64,
                        )
                        &&& final(self).backoff@ == (BackoffView {
                            current: b.doubled(),
                            rng: backoff::xorshift_spec(b.rng),
                            ..b
                        })
                        &&& *final(stats) == s
                    },
                    TcpClientEvent::SessionEnded(SessionOutcome::Disconnected) => {
                        &&& r == dial_or_stop(cancelled)
                        &&& final(self).backoff@ == b
                        &&& *final(stats) == s.with_state(EndpointState::Reconnecting)
                    },
                }
            }),
    {
        match event {
            TcpClientEvent::Begin | TcpClientEvent::Waited(true) => {},
            TcpClientEvent::Waited(false)
            | TcpClientEvent::Dialed(DialOutcome::Cancelled)
            | TcpClientEvent::SessionEnded(SessionOutcome::Terminated) => {
                return TcpClientAction::Stop;
            },
            TcpClientEvent::Dialed(DialOutcome::Connected) => {
                self.backoff.reset();
                stats.store_state(EndpointState::Connected);
                return TcpClientAction::Session;
            },
            TcpClientEvent::Dialed(DialOutcome::Failed) => {
                return TcpClientAction::Wait(self.backoff.next_delay());
            },
            TcpClientEvent::SessionEnded(SessionOutcome::Disconnected) => {
                stats.store_state(EndpointState::Reconnecting);
            },
        }
        if cancelled {
            TcpClientAction::Stop
        } else {
            TcpClientAction::Dial
        }
    }
}

/// IPv4 addresses are dialled before IPv6 addresses, and those of one kind in the order in
/// which they were resolved.
pub proof fn law_ipv4_is_dialled_first(addrs: Seq<SocketAddr>)
    ensures
        dial_order(addrs) == addrs.filter(|a: SocketAddr| a is V4) + addrs.filter(
            |a: SocketAddr| a is V6,
        ),
{
    lemma_kind_is_filter(addrs);
}

/// The addresses of each kind.
proof fn lemma_kind_is_filter(addrs: Seq<SocketAddr>)
    ensures
        of_kind(addrs, false) == addrs.filter(|a: SocketAddr| a is V4),
        of_kind(addrs, true) == addrs.filter(|a: SocketAddr| a is V6),
    decreases addrs.len(),
{
    reveal(Seq::filter);
    if addrs.len() > 0 {
        lemma_kind_is_filter(addrs.drop_last());
    }
}

/// At the top of its loop a task that was told to stop ends; any other dials.
pub proof fn law_told_to_stop_it_stops(cancelled: bool)
    ensures
        cancelled ==> dial_or_stop(cancelled) == TcpClientAction::Stop,
        !cancelled ==> dial_or_stop(cancelled) == TcpClientAction::Dial,
{
}

} // verus!
