//! `udps:` endpoints: a listener whose peers are learned from the datagrams they send.

use vstd::prelude::*;
use vstd::string::StringExecFns;

use crate::addr::SocketAddr;
use crate::endpoint::defaults::{
    DEFAULT_IDLE_SECS, DEFAULT_PEER_CAPACITY, DEFAULT_RECONNECT_INITIAL_MS,
    DEFAULT_RECONNECT_MAX_MS, DEFAULT_TX_QUEUE_FRAMES, READ_BUF_BYTES,
};
use crate::endpoint::events::{peer_added, EndpointEvent, RouterFrame};
use crate::endpoint::filters::{Filters, FiltersView};
use crate::endpoint::id;
use crate::endpoint::id::{EndpointId, EndpointIdAllocator};
use crate::endpoint::identity_flags::IdentityFlags;
use crate::endpoint::session;
use crate::endpoint::session::Ingress;
use crate::endpoint::spec::endpoint_kinds::UdpServerEndpoint;
use crate::endpoint::spec::query;
use crate::endpoint::stats::{EndpointState, EndpointStats};
use crate::endpoint::tcp::server::AcceptedClient;
use crate::endpoint::tx_queue::{TxQueue, TxQueueView};
use crate::endpoint::udp::client;
use crate::text;
use crate::text::{parse_unsigned, text_eq};

verus! {

// ---------------------------------------------------------------- settings

/// The adjustable settings of a `udps:` endpoint.
#[derive(Debug, Clone, Copy, PartialEq, Eq, Structural)]
pub struct UdpServerConfig {
    pub idle_secs: u64,
    pub peer_capacity: usize,
    pub read_buf_bytes: usize,
    pub tx_queue_frames: usize,
}

impl UdpServerConfig {
    /// The settings where nothing is set.
    pub open spec fn defaults() -> UdpServerConfig {
        UdpServerConfig {
            idle_secs: DEFAULT_IDLE_SECS,
            peer_capacity: DEFAULT_PEER_CAPACITY,
            read_buf_bytes: READ_BUF_BYTES,
            tx_queue_frames: DEFAULT_TX_QUEUE_FRAMES,
        }
    }
}

impl Default for UdpServerConfig {
    fn default() -> (r: Self)
        ensures
            r == UdpServerConfig::defaults(),
    {
        UdpServerConfig {
            idle_secs: DEFAULT_IDLE_SECS,
            peer_capacity: DEFAULT_PEER_CAPACITY,
            read_buf_bytes: READ_BUF_BYTES,
            tx_queue_frames: DEFAULT_TX_QUEUE_FRAMES,
        }
    }
}

/// What can be wrong with the settings or the address of a `udps:` endpoint.
#[derive(Debug, PartialEq, Eq)]
pub enum UdpServerError {
    InvalidQuery(String),
    Bind { addr: SocketAddr, reason: String },
}

/// The view of a `UdpServerError`.
pub enum UdpServerErrorView {
    InvalidQuery(Seq<char>),
    Bind { addr: SocketAddr, reason: Seq<char> },
}

impl View for UdpServerError {
    type V = UdpServerErrorView;

    open spec fn view(&self) -> UdpServerErrorView {
        match self {
            UdpServerError::InvalidQuery(t) => UdpServerErrorView::InvalidQuery(t@),
            UdpServerError::Bind { addr, reason } => UdpServerErrorView::Bind {
                addr: *addr,
                reason: reason@,
            },
        }
    }
}

impl UdpServerErrorView {
    /// The message for an operator.
    pub open spec fn message(self) -> Seq<char> {
        match self {
            UdpServerErrorView::InvalidQuery(t) => "invalid udps: query: "@ + t,
            UdpServerErrorView::Bind { addr, reason } => "udps: bind "@ + crate::addr::socket_text(
                addr,
            ) + " failed: "@ + reason,
        }
    }
}

impl UdpServerError {
    /// The message for an operator.
    pub fn message(&self) -> (r: String)
        ensures
            r@ == self@.message(),
    {
        match self {
            UdpServerError::InvalidQuery(t) => String::from_str("invalid udps: query: ").concat(
                t.as_str(),
            ),
            UdpServerError::Bind { addr, reason } => String::from_str("udps: bind ").concat(
                addr.to_text().as_str(),
            ).concat(" failed: ").concat(reason.as_str()),
        }
    }
}

/// The value of the first pair with the key `key`.
pub open spec fn value_of(pairs: Seq<(Seq<char>, Seq<char>)>, key: Seq<char>) -> Option<Seq<char>>
    decreases pairs.len(),
{
    if pairs.len() == 0 {
        None
    } else if pairs[0].0 == key {
        Some(pairs[0].1)
    } else {
        value_of(pairs.skip(1), key)
    }
}

/// The positive number that a setting spells, or `default` where it is not set.
pub open spec fn positive_spec(
    pairs: Seq<(Seq<char>, Seq<char>)>,
    key: Seq<char>,
    max: nat,
    default: nat,
) -> Result<nat, UdpServerErrorView> {
    match value_of(pairs, key) {
        None => Ok(default),
        Some(v) => match text::unsigned_spec(v, max) {
            None => Err(
                UdpServerErrorView::InvalidQuery(
                    key + " must be a non-negative integer, got '"@ + v + "'"@,
                ),
            ),
            Some(n) => if n == 0 {
                Err(UdpServerErrorView::InvalidQuery(key + " must be > 0"@))
            } else {
                Ok(n)
            },
        },
    }
}

/// The settings that the pairs of a query spell; the first bad one decides the error.
pub open spec fn config_spec(pairs: Seq<(Seq<char>, Seq<char>)>) -> Result<
    UdpServerConfig,
    UdpServerErrorView,
> {
    let umax = usize::MAX as nat;
    match positive_spec(pairs, "idle_secs"@, u64::MAX as nat, DEFAULT_IDLE_SECS as nat) {
        Err(e) => Err(e),
        Ok(idle) => match positive_spec(
            pairs,
            "udps_peer_capacity"@,
            umax,
            DEFAULT_PEER_CAPACITY as nat,
        ) {
            Err(e) => Err(e),
            Ok(peers) => match positive_spec(
                pairs,
                "read_buf_bytes"@,
                umax,
                READ_BUF_BYTES as nat,
            ) {
                Err(e) => Err(e),
                Ok(read) => match positive_spec(
                    pairs,
                    "tx_queue_frames"@,
                    umax,
                    DEFAULT_TX_QUEUE_FRAMES as nat,
                ) {
                    Err(e) => Err(e),
                    Ok(tx) => Ok(
                        UdpServerConfig {
                            idle_secs: idle as u64,
                            peer_capacity: peers as usize,
                            read_buf_bytes: read as usize,
                            tx_queue_frames: tx as usize,
                        },
                    ),
                },
            },
        },
    }
}

/// The value of the first pair with the key `key`.
fn find_value<'a>(pairs: &'a [(String, String)], key: &str) -> (r: Option<&'a str>)
    ensures
        match r {
            Some(v) => value_of(query::pair_texts(pairs@), key@) == Some(v@),
            None => value_of(query::pair_texts(pairs@), key@) is None,
        },
{
    let ghost all = query::pair_texts(pairs@);
    let mut i: usize = 0;
    assert(all.skip(0) == all);
    while i < pairs.len()
        invariant
            i <= pairs@.len(),
            all == query::pair_texts(pairs@),
            value_of(all, key@) == value_of(all.skip(i as int), key@),
        decreases pairs@.len() - i,
    {
        proof {
            assert(all.skip(i as int)[0] == (pairs@[i as int].0@, pairs@[i as int].1@));
            assert(all.skip(i as int).skip(1) == all.skip(i + 1));
        }
        if text_eq(pairs[i].0.as_str(), key) {
            return Some(pairs[i].1.as_str());
        }
        i = i + 1;
    }
    assert(all.skip(all.len() as int).len() == 0);
    None
}

/// Read a positive number, or take `default` where it is not set.
fn positive(pairs: &[(String, String)], key: &str, max: u64, default: u64) -> (r: Result<
    u64,
    UdpServerError,
>)
    requires
        default <= max,
    ensures
        match r {
            Ok(n) => n <= max && positive_spec(
                query::pair_texts(pairs@),
                key@,
                max as nat,
                default as nat,
            ) == Ok::<nat, UdpServerErrorView>(n as nat),
            Err(e) => positive_spec(
                query::pair_texts(pairs@),
                key@,
                max as nat,
                default as nat,
            ) == Err::<nat, _>(e@),
        },
{
    match find_value(pairs, key) {
        None => Ok(default),
        Some(v) => match parse_unsigned(v, max) {
            None => Err(
                UdpServerError::InvalidQuery(
                    String::from_str(key).concat(" must be a non-negative integer, got '").concat(
                        v,
                    ).concat("'"),
                ),
            ),
            Some(n) => if n == 0 {
                Err(UdpServerError::InvalidQuery(String::from_str(key).concat(" must be > 0")))
            } else {
                Ok(n)
            },
        },
    }
}

impl UdpServerConfig {
    /// Read the settings from the pairs of a query. Other keys are ignored.
    pub fn from_query(q: &[(String, String)]) -> (r: Result<Self, UdpServerError>)
        ensures
            match r {
                Ok(c) => config_spec(query::pair_texts(q@)) == Ok::<_, UdpServerErrorView>(c),
                Err(e) => config_spec(query::pair_texts(q@)) == Err::<UdpServerConfig, _>(e@),
            },
    {
        let umax: u64 = usize::MAX as u64;
        let idle_secs: u64 = match positive(q, "idle_secs", u64::MAX, DEFAULT_IDLE_SECS) {
            Ok(n) => n,
            Err(e) => {
                return Err(e);
            },
        };
        let peer_capacity: u64 = match positive(
            q,
            "udps_peer_capacity",
            umax,
            DEFAULT_PEER_CAPACITY as u64,
        ) {
            Ok(n) => n,
            Err(e) => {
                return Err(e);
            },
        };
        let read_buf_bytes: u64 = match positive(q, "read_buf_bytes", umax, READ_BUF_BYTES as u64) {
            Ok(n) => n,
            Err(e) => {
                return Err(e);
            },
        };
        let tx_queue_frames: u64 = match positive(
            q,
            "tx_queue_frames",
            umax,
            DEFAULT_TX_QUEUE_FRAMES as u64,
        ) {
            Ok(n) => n,
            Err(e) => {
                return Err(e);
            },
        };
        Ok(
            UdpServerConfig {
                idle_secs,
                peer_capacity: peer_capacity as usize,
                read_buf_bytes: read_buf_bytes as usize,
                tx_queue_frames: tx_queue_frames as usize,
            },
        )
    }
}

/// A `udps:` listener ready to run.
#[derive(Debug)]
pub struct UdpServerSpec {
    pub listen_addr: SocketAddr,
    pub parent_id: EndpointId,
    pub parent_name: String,
    pub idle_secs: u64,
    pub peer_capacity: usize,
    pub reconnect_initial_ms: u64,
    pub reconnect_max_ms: u64,
    pub identity: IdentityFlags,
}

impl UdpServerSpec {
    /// `ep` with its defaults filled in.
    pub open spec fn of(
        ep: UdpServerEndpoint,
        parent_id: EndpointId,
        parent_name: String,
    ) -> UdpServerSpec {
        UdpServerSpec {
            listen_addr: ep.bind_addr,
            parent_id,
            parent_name,
            idle_secs: ep.idle_secs.unwrap_or(DEFAULT_IDLE_SECS),
            peer_capacity: DEFAULT_PEER_CAPACITY,
            reconnect_initial_ms: DEFAULT_RECONNECT_INITIAL_MS,
            reconnect_max_ms: DEFAULT_RECONNECT_MAX_MS,
            identity: ep.identity,
        }
    }

    /// Fill in the defaults of an endpoint.
    pub fn from_endpoint(ep: UdpServerEndpoint, parent_id: EndpointId, parent_name: String) -> (r:
        Self)
        ensures
            r == UdpServerSpec::of(ep, parent_id, parent_name),
    {
        UdpServerSpec {
            listen_addr: ep.bind_addr,
            parent_id,
            parent_name,
            idle_secs: ep.idle_secs.unwrap_or(DEFAULT_IDLE_SECS),
            peer_capacity: DEFAULT_PEER_CAPACITY,
            reconnect_initial_ms: DEFAULT_RECONNECT_INITIAL_MS,
            reconnect_max_ms: DEFAULT_RECONNECT_MAX_MS,
            identity: ep.identity,
        }
    }
}

// ---------------------------------------------------------------- peers

/// A learned peer.
pub struct Peer {
    pub addr: SocketAddr,
    pub child_id: EndpointId,
    /// When it last sent something, in milliseconds.
    pub last_seen: u64,
    pub ingress: Ingress,
}

/// The peers of a listener.
pub struct PeerTable {
    pub peers: Vec<Peer>,
}

/// Where the peer with the address `addr` is; the number of peers where there is none.
pub open spec fn peer_index(peers: Seq<Peer>, addr: SocketAddr) -> nat
    decreases peers.len(),
{
    if peers.len() == 0 || peers[0].addr == addr {
        0
    } else {
        1 + peer_index(peers.skip(1), addr)
    }
}

/// The position of the peer not heard of for longest among the first `n`; the first of
/// several.
pub open spec fn stalest(peers: Seq<Peer>, n: nat) -> int
    decreases n,
{
    if n <= 1 {
        0
    } else {
        let best = stalest(peers, (n - 1) as nat);
        if peers[n - 1].last_seen < peers[best].last_seen {
            n - 1
        } else {
            best
        }
    }
}

/// The peers that are not idle yet, in order.
pub open spec fn still_active(peers: Seq<Peer>, idle_secs: u64, now: u64) -> Seq<Peer>
    decreases peers.len(),
{
    if peers.len() == 0 {
        Seq::empty()
    } else if client::idle_for(peers.last().last_seen, now, idle_secs) {
        still_active(peers.drop_last(), idle_secs, now)
    } else {
        still_active(peers.drop_last(), idle_secs, now).push(peers.last())
    }
}

/// The ids of the peers that have become idle, in order.
pub open spec fn gone_idle(peers: Seq<Peer>, idle_secs: u64, now: u64) -> Seq<EndpointId>
    decreases peers.len(),
{
    if peers.len() == 0 {
        Seq::empty()
    } else if client::idle_for(peers.last().last_seen, now, idle_secs) {
        gone_idle(peers.drop_last(), idle_secs, now).push(peers.last().child_id)
    } else {
        gone_idle(peers.drop_last(), idle_secs, now)
    }
}

/// Set up a peer whose first datagram came from `src`. It gets an id of its own, counts as
/// connected from the start and takes over the identity of the listener.
pub fn new_peer(
    spec: &UdpServerSpec,
    src: SocketAddr,
    allocator: &mut EndpointIdAllocator,
) -> (r: AcceptedClient)
    ensures
        r.child_id == EndpointId(old(allocator)@),
        final(allocator)@ == old(allocator)@.wrapping_add(1),
        r.stats == EndpointStats::fresh(EndpointState::Connected),
        r.tx_queue@ == (TxQueueView {
            frames: Seq::empty(),
            capacity: DEFAULT_TX_QUEUE_FRAMES as nat,
        }),
        r.event matches EndpointEvent::PeerAdded { parent_id, child_id, name, identity }
            && parent_id == spec.parent_id && child_id == r.child_id && name@
            == id::peer_name_spec(spec.parent_name@, src) && identity@ == spec.identity@,
{
    let child_id = allocator.allocate();
    AcceptedClient {
        child_id,
        stats: EndpointStats::new(EndpointState::Connected),
        tx_queue: TxQueue::new(DEFAULT_TX_QUEUE_FRAMES),
        event: peer_added(
            spec.parent_id,
            spec.parent_name.as_str(),
            &spec.identity,
            child_id,
            src,
        ),
    }
}

/// What admitting a peer makes of the table `p`: where it is full, the peer not heard of for
/// longest is `gone`; the new peer comes last.
pub open spec fn admits(
    p: Seq<Peer>,
    after: Seq<Peer>,
    addr: SocketAddr,
    child_id: EndpointId,
    now: u64,
    capacity: usize,
    gone: Option<EndpointId>,
) -> bool {
    let k = stalest(p, p.len());
    let full = p.len() >= capacity && p.len() > 0;
    let kept = if full {
        p.remove(k)
    } else {
        p
    };
    &&& gone == if full {
        Some(p[k].child_id)
    } else {
        None
    }
    &&& after.len() == kept.len() + 1
    &&& after.drop_last() == kept
    &&& after.last().addr == addr
    &&& after.last().child_id == child_id
    &&& after.last().last_seen == now
    &&& after.last().ingress.is_fresh()
}

impl PeerTable {
    /// No address occurs twice, and every loss estimate is in order.
    pub open spec fn wf(self) -> bool {
        &&& forall|i: int, j: int|
            0 <= i < j < self.peers@.len() ==> self.peers@[i].addr != self.peers@[j].addr
        &&& forall|i: int|
            0 <= i < self.peers@.len() ==> (#[trigger] self.peers@[i]).ingress.seq_tracker@.wf()
    }

    /// Whether a peer has the address `addr`.
    pub open spec fn has(self, addr: SocketAddr) -> bool {
        exists|i: int| 0 <= i < self.peers@.len() && (#[trigger] self.peers@[i]).addr == addr
    }

    /// No peers.
    pub fn new() -> (r: Self)
        ensures
            r.wf(),
            r.peers@.len() == 0,
    {
        PeerTable { peers: Vec::new() }
    }

    /// Where the peer with the address `addr` is.
    pub fn find(&self, addr: SocketAddr) -> (r: Option<usize>)
        ensures
            match r {
                Some(i) => {
                    &&& i < self.peers@.len()
                    &&& i == peer_index(self.peers@, addr)
                    &&& self.peers@[i as int].addr == addr
                },
                None => !self.has(addr),
            },
    {
        let ghost all = self.peers@;
        let mut i: usize = 0;
        assert(all.skip(0) == all);
        while i < self.peers.len()
            invariant
                all == self.peers@,
                i <= all.len(),
                peer_index(all, addr) == i + peer_index(all.skip(i as int), addr),
                forall|j: int| 0 <= j < i ==> (#[trigger] all[j]).addr != addr,
            decreases all.len() - i,
        {
            proof {
                assert(all.skip(i as int)[0] == all[i as int]);
                assert(all.skip(i as int).skip(1) == all.skip(i + 1));
            }
            if self.peers[i].addr == addr {
                return Some(i);
            }
            i = i + 1;
        }
        None
    }

    /// Forget the peer not heard of for longest and say which it was.
    pub fn evict_lru(&mut self) -> (r: Option<EndpointId>)
        requires
            old(self).wf(),
        ensures
            final(self).wf(),
            ({
                let p = old(self).peers@;
                let k = stalest(p, p.len());
                if p.len() == 0 {
                    r is None && final(self).peers@ == p
                } else {
                    r == Some(p[k].child_id) && final(self).peers@ == p.remove(k)
                }
            }),
    {
        let ghost p = self.peers@;
        if self.peers.len() == 0 {
            return None;
        }
        let mut best: usize = 0;
        let mut i: usize = 1;
        while i < self.peers.len()
            invariant
                p == self.peers@,
                1 <= i <= p.len(),
                best < i,
                best == stalest(p, i as nat),
            decreases p.len() - i,
        {
            if self.peers[i].last_seen < self.peers[best].last_seen {
                best = i;
            }
            i = i + 1;
        }
        let gone = self.peers.remove(best);
        Some(gone.child_id)
    }

    /// Take in a new peer that was announced to the router. Where the table is full, the
    /// peer not heard of for longest makes room; its id is handed back.
    pub fn admit_new_peer(
        &mut self,
        addr: SocketAddr,
        child_id: EndpointId,
        now: u64,
        capacity: usize,
    ) -> (r: Option<EndpointId>)
        requires
            old(self).wf(),
            !old(self).has(addr),
        ensures
            final(self).wf(),
            admits(old(self).peers@, final(self).peers@, addr, child_id, now, capacity, r),
            1 <= capacity && old(self).peers@.len() <= capacity ==> final(self).peers@.len()
                <= capacity,
    {
        let ghost p = self.peers@;
        let gone: Option<EndpointId> = if self.peers.len() >= capacity {
            proof {
                if p.len() > 0 {
                    law_stalest_is_stalest(p, p.len());
                }
            }
            self.evict_lru()
        } else {
            None
        };
        let ghost kept = self.peers@;
        self.peers.push(Peer { addr, child_id, last_seen: now, ingress: Ingress::new() });
        assert(self.peers@.drop_last() =~= kept);
        gone
    }

    /// What follows the announcement of a new peer to the router. Where the router has
    /// `heard` it, the peer is taken in, and the one that made room is handed back. Where it
    /// has not, the peer is not taken in and nobody makes room: no peer is evicted for one
    /// that nobody hears of.
    pub fn on_announced(
        &mut self,
        heard: bool,
        addr: SocketAddr,
        child_id: EndpointId,
        now: u64,
        capacity: usize,
    ) -> (r: Option<Option<EndpointId>>)
        requires
            old(self).wf(),
            heard ==> !old(self).has(addr),
        ensures
            final(self).wf(),
            r is Some <==> heard,
            !heard ==> final(self).peers@ == old(self).peers@,
            r matches Some(gone) ==> admits(
                old(self).peers@,
                final(self).peers@,
                addr,
                child_id,
                now,
                capacity,
                gone,
            ),
            1 <= capacity && old(self).peers@.len() <= capacity ==> final(self).peers@.len()
                <= capacity,
    {
        if heard {
            Some(self.admit_new_peer(addr, child_id, now, capacity))
        } else {
            None
        }
    }

    /// Forget every peer that has been idle for `idle_secs` and say which they were.
    pub fn reap_idle(&mut self, idle_secs: u64, now: u64) -> (r: Vec<EndpointId>)
        requires
            old(self).wf(),
        ensures
            final(self).wf(),
            final(self).peers@ == still_active(old(self).peers@, idle_secs, now),
            r@ == gone_idle(old(self).peers@, idle_secs, now),
            idle_secs > 0 ==> {
                &&& final(self).peers@ == old(self).peers@.filter(
                    |p: Peer| now < p.last_seen + 1000 * idle_secs,
                )
                &&& r@ == old(self).peers@.filter(
                    |p: Peer| now >= p.last_seen + 1000 * idle_secs,
                ).map_values(|p: Peer| p.child_id)
            },
    {
        let ghost all = self.peers@;
        let mut gone: Vec<EndpointId> = Vec::new();
        let mut i: usize = 0;
        let ghost mut j: int = 0;
        assert(all.take(0) =~= Seq::empty());
        assert(still_active(all.take(0), idle_secs, now) + all.skip(0) =~= all);
        while i < self.peers.len()
            invariant
                0 <= j <= all.len(),
                self.peers@ == still_active(all.take(j), idle_secs, now) + all.skip(j),
                i == still_active(all.take(j), idle_secs, now).len(),
                gone@ == gone_idle(all.take(j), idle_secs, now),
                self.wf(),
            decreases all.len() - j,
        {
            let ghost active = still_active(all.take(j), idle_secs, now);
            proof {
                assert(all.take(j + 1).drop_last() =~= all.take(j));
                assert(all.take(j + 1).last() == all[j]);
                assert(self.peers@[i as int] == all[j]);
                assert(all.skip(j) =~= seq![all[j]] + all.skip(j + 1));
            }
            let last_seen: u64 = self.peers[i].last_seen;
            let idle: u64 = now.saturating_sub(last_seen);
            if idle as u128 >= idle_secs as u128 * 1000 {
                let ghost before = self.peers@;
                let peer = self.peers.remove(i);
                gone.push(peer.child_id);
                proof {
                    assert(self.peers@ =~= active + all.skip(j + 1));
                    assert(forall|k: int|
                        0 <= k < self.peers@.len() ==> #[trigger] self.peers@[k] == if k < i {
                            before[k]
                        } else {
                            before[k + 1]
                        });
                }
            } else {
                proof {
                    assert(self.peers@ =~= active.push(all[j]) + all.skip(j + 1));
                }
                i = i + 1;
            }
            proof {
                j = j + 1;
            }
        }
        proof {
            assert(all.skip(j).len() == 0);
            assert(all.take(all.len() as int) =~= all);
            assert(self.peers@ =~= still_active(all, idle_secs, now));
            if idle_secs > 0 {
                law_silence_is_counted_in_seconds(all, idle_secs, now);
            }
        }
        gone
    }

    /// Forget every peer and say which they were, in order.
    pub fn shutdown(&mut self) -> (r: Vec<EndpointId>)
        ensures
            final(self).peers@.len() == 0,
            final(self).wf(),
            r@ == old(self).peers@.map_values(|p: Peer| p.child_id),
    {
        let mut gone: Vec<EndpointId> = Vec::new();
        let mut i: usize = 0;
        while i < self.peers.len()
            invariant
                i <= self.peers@.len(),
                *self == *old(self),
                gone@ == self.peers@.take(i as int).map_values(|p: Peer| p.child_id),
            decreases self.peers@.len() - i,
        {
            gone.push(self.peers[i].child_id);
            i = i + 1;
            assert(gone@ =~= self.peers@.take(i as int).map_values(|p: Peer| p.child_id));
        }
        assert(self.peers@.take(i as int) =~= self.peers@);
        self.peers = Vec::new();
        gone
    }
}

/// What a listener does with a datagram.
pub enum PacketStep {
    /// Its sender is new: announce it to the router first.
    Announce,
    /// Its sender is the peer at this position.
    Deliver(usize),
}

impl PeerTable {
    /// Look up the sender of a datagram.
    pub fn on_packet(&self, src: SocketAddr) -> (r: PacketStep)
        ensures
            match r {
                PacketStep::Announce => !self.has(src) && forall|i: int|
                    0 <= i < self.peers@.len() ==> (#[trigger] self.peers@[i]).addr != src,
                PacketStep::Deliver(i) => i < self.peers@.len() && self.peers@[i as int].addr == src,
            },
    {
        match self.find(src) {
            Some(i) => PacketStep::Deliver(i),
            None => PacketStep::Announce,
        }
    }

    /// Hand the bytes of a datagram to the peer at position `i`, which was heard of now,
    /// and give the first frame to forward. The filters are those of the listener.
    pub fn deliver(
        &mut self,
        i: usize,
        data: &[u8],
        filters: &Filters,
        stats: &mut EndpointStats,
        now: u64,
    ) -> (r: Option<RouterFrame>)
        requires
            old(self).wf(),
            i < old(self).peers@.len(),
            old(self).peers@[i as int].ingress.framer@.pending.len() + data@.len() + old(
                self,
            ).peers@[i as int].ingress.framer@.read_capacity <= isize::MAX,
        ensures
            final(self).wf(),
            ({
                let p0 = old(self).peers@[i as int];
                let p1 = final(self).peers@[i as int];
                &&& final(self).peers@ == old(self).peers@.update(i as int, p1)
                &&& p1.addr == p0.addr
                &&& p1.child_id == p0.child_id
                &&& p1.last_seen == now
                &&& exists|fed: Ingress|
                    {
                        &&& #[trigger] client::is_fed(fed, p0.ingress, data@)
                        &&& gives(
                            r,
                            fed,
                            p1.ingress,
                            *old(stats),
                            *final(stats),
                            p0.child_id,
                            filters@,
                            now,
                        )
                    }
            }),
    {
        let mut peer = self.peers.remove(i);
        let ghost rest = self.peers@;
        peer.last_seen = now;
        let ghost before = peer.ingress;
        peer.ingress.framer.feed(data);
        assert(client::is_fed(peer.ingress, before, data@));
        let r = peer.ingress.pump(peer.child_id, filters, stats, now);
        let ghost done = peer;
        self.peers.insert(i, peer);
        proof {
            assert(self.peers@ =~= old(self).peers@.update(i as int, done));
        }
        r
    }

    /// The next frame to forward of the peer at position `i`.
    pub fn next_frame(
        &mut self,
        i: usize,
        filters: &Filters,
        stats: &mut EndpointStats,
        now: u64,
    ) -> (r: Option<RouterFrame>)
        requires
            old(self).wf(),
            i < old(self).peers@.len(),
            old(self).peers@[i as int].ingress.framer@.pending.len() + old(
                self,
            ).peers@[i as int].ingress.framer@.read_capacity <= isize::MAX,
        ensures
            final(self).wf(),
            ({
                let p0 = old(self).peers@[i as int];
                let p1 = final(self).peers@[i as int];
                &&& final(self).peers@ == old(self).peers@.update(i as int, p1)
                &&& p1 == (Peer { ingress: p1.ingress, ..p0 })
                &&& gives(
                    r,
                    p0.ingress,
                    p1.ingress,
                    *old(stats),
                    *final(stats),
                    p0.child_id,
                    filters@,
                    now,
                )
            }),
    {
        let mut peer = self.peers.remove(i);
        let r = peer.ingress.pump(peer.child_id, filters, stats, now);
        let ghost done = peer;
        self.peers.insert(i, peer);
        proof {
            assert(self.peers@ =~= old(self).peers@.update(i as int, done));
        }
        r
    }
}

/// The next frame of a peer's way in, or nothing where none is left.
pub open spec fn gives(
    r: Option<RouterFrame>,
    i0: Ingress,
    i1: Ingress,
    s0: EndpointStats,
    s1: EndpointStats,
    child_id: EndpointId,
    filters: FiltersView,
    now: u64,
) -> bool {
    &&& session::pumped(i0, i1, s0, s1, filters, now)
    &&& match r {
        Some(f) => session::is_next_frame(f, i0, s0, child_id, filters, now),
        None => session::next_inbound_spec(
            i0.framer@,
            i0.seq_tracker@,
            s0,
            filters,
            now,
        ).frame is None,
    }
}

/// Account for a frame sent to a peer: so many bytes, or it failed and was dropped.
pub fn on_peer_send(sent: Option<usize>, stats: &mut EndpointStats)
    ensures
        *final(stats) == match sent {
            Some(n) => old(stats).with_tx(n),
            None => crate::endpoint::tx_queue::with_dropped(*old(stats), 1),
        },
{
    match sent {
        Some(n) => stats.add_tx_frame(n),
        None => {
            stats.dropped_tx = stats.dropped_tx.wrapping_add(1);
        },
    }
}

/// Reaping removes the peers that are idle and no others.
pub proof fn law_reap_is_exact(peers: Seq<Peer>, idle_secs: u64, now: u64, p: Peer)
    ensures
        still_active(peers, idle_secs, now).contains(p) <==> peers.contains(p)
            && !client::idle_for(p.last_seen, now, idle_secs),
        still_active(peers, idle_secs, now).len() + gone_idle(peers, idle_secs, now).len()
            == peers.len(),
    decreases peers.len(),
{
    if peers.len() > 0 {
        let init = peers.drop_last();
        law_reap_is_exact(init, idle_secs, now, p);
        let kept = still_active(init, idle_secs, now);
        assert(peers =~= init.push(peers.last()));
        if peers.contains(p) && p != peers.last() {
            let i = choose|i: int| 0 <= i < peers.len() && peers[i] == p;
            assert(init[i] == p);
        }
        if init.contains(p) {
            let i = choose|i: int| 0 <= i < init.len() && init[i] == p;
            assert(peers[i] == p);
        }
        if p == peers.last() {
            assert(peers[peers.len() - 1] == p);
        }
        let all = still_active(peers, idle_secs, now);
        if !client::idle_for(peers.last().last_seen, now, idle_secs) {
            assert(all =~= kept.push(peers.last()));
            assert(all[all.len() - 1] == peers.last());
            if kept.contains(p) {
                let i = choose|i: int| 0 <= i < kept.len() && kept[i] == p;
                assert(all[i] == p);
            }
            if all.contains(p) && p != peers.last() {
                let i = choose|i: int| 0 <= i < all.len() && all[i] == p;
                assert(kept[i] == p);
            }
        }
    }
}

/// The evicted peer is one not heard of for longest.
pub proof fn law_stalest_is_stalest(peers: Seq<Peer>, n: nat)
    requires
        0 < n <= peers.len(),
    ensures
        0 <= stalest(peers, n) < n,
        forall|i: int|
            0 <= i < n ==> peers[stalest(peers, n)].last_seen <= (#[trigger] peers[i]).last_seen,
    decreases n,
{
    if n > 1 {
        law_stalest_is_stalest(peers, (n - 1) as nat);
    }
}

/// With times in milliseconds, reaping keeps the peers that were heard of less than
/// `idle_secs` seconds ago, in order, and hands out the ids of all others.
pub proof fn law_silence_is_counted_in_seconds(peers: Seq<Peer>, idle_secs: u64, now: u64)
    requires
        idle_secs > 0,
    ensures
        still_active(peers, idle_secs, now) == peers.filter(
            |p: Peer| now < p.last_seen + 1000 * idle_secs,
        ),
        gone_idle(peers, idle_secs, now) == peers.filter(
            |p: Peer| now >= p.last_seen + 1000 * idle_secs,
        ).map_values(|p: Peer| p.child_id),
    decreases peers.len(),
{
    reveal(Seq::filter);
    let active = |p: Peer| now < p.last_seen + 1000 * idle_secs;
    let silent = |p: Peer| now >= p.last_seen + 1000 * idle_secs;
    let id = |p: Peer| p.child_id;
    if peers.len() > 0 {
        law_silence_is_counted_in_seconds(peers.drop_last(), idle_secs, now);
        client::law_idle_is_counted_in_seconds(peers.last().last_seen, now, idle_secs);
        let before = peers.drop_last().filter(silent);
        assert(before.push(peers.last()).map_values(id) =~= before.map_values(id).push(
            peers.last().child_id,
        ));
    } else {
        assert(peers.filter(active) =~= Seq::<Peer>::empty());
        assert(peers.filter(silent).map_values(id) =~= Seq::<EndpointId>::empty());
    }
}

/// A peer is taken in at the end, under its own address and id and heard of now. Nobody goes
/// while there is room; without room exactly one peer goes, and none was heard of less
/// lately.
pub proof fn law_admission_evicts_the_stalest_only(
    p: Seq<Peer>,
    after: Seq<Peer>,
    addr: SocketAddr,
    child_id: EndpointId,
    now: u64,
    capacity: usize,
    gone: Option<EndpointId>,
)
    requires
        admits(p, after, addr, child_id, now, capacity, gone),
    ensures
        after.len() > 0,
        after.last().addr == addr,
        after.last().child_id == child_id,
        after.last().last_seen == now,
        p.len() < capacity || p.len() == 0 ==> gone is None && after.drop_last() == p,
        p.len() >= capacity && p.len() > 0 ==> exists|k: int|
            0 <= k < p.len() && gone == Some((#[trigger] p[k]).child_id) && after.drop_last()
                == p.remove(k) && forall|i: int|
                0 <= i < p.len() ==> p[k].last_seen <= (#[trigger] p[i]).last_seen,
{
    if p.len() > 0 {
        law_stalest_is_stalest(p, p.len());
        let k = stalest(p, p.len());
        assert(p[k].last_seen <= p[k].last_seen);
    }
}

/// A peer is found at the first place that holds its address, or at the end.
pub proof fn law_peer_is_found(peers: Seq<Peer>, addr: SocketAddr)
    ensures
        peer_index(peers, addr) <= peers.len(),
        peer_index(peers, addr) < peers.len() ==> peers[peer_index(peers, addr) as int].addr
            == addr,
        forall|i: int|
            0 <= i < peer_index(peers, addr) && i < peers.len() ==> (#[trigger] peers[i]).addr
                != addr,
    decreases peers.len(),
{
    if peers.len() > 0 && peers[0].addr != addr {
        let rest = peers.skip(1);
        law_peer_is_found(rest, addr);
        assert forall|i: int|
            0 <= i < peer_index(peers, addr) && i < peers.len() implies (
        #[trigger] peers[i]).addr != addr by {
            if i > 0 {
                assert(rest[i - 1] == peers[i]);
            }
        }
    }
}

/// The value of a key is that of the first pair with it; there is none exactly where no pair
/// has it.
pub proof fn law_first_pair_counts(pairs: Seq<(Seq<char>, Seq<char>)>, key: Seq<char>)
    ensures
        match value_of(pairs, key) {
            Some(v) => exists|i: int|
                0 <= i < pairs.len() && #[trigger] pairs[i] == (key, v) && forall|j: int|
                    0 <= j < i ==> (#[trigger] pairs[j]).0 != key,
            None => forall|i: int| 0 <= i < pairs.len() ==> (#[trigger] pairs[i]).0 != key,
        },
    decreases pairs.len(),
{
    if pairs.len() > 0 {
        if pairs[0].0 == key {
            assert(pairs[0] == (key, pairs[0].1));
        } else {
            let rest = pairs.skip(1);
            law_first_pair_counts(rest, key);
            match value_of(rest, key) {
                Some(v) => {
                    let i = choose|i: int|
                        0 <= i < rest.len() && #[trigger] rest[i] == (key, v) && forall|j: int|
                            0 <= j < i ==> (#[trigger] rest[j]).0 != key;
                    assert(pairs[i + 1] == (key, v));
                    assert forall|j: int| 0 <= j < i + 1 implies (#[trigger] pairs[j]).0
                        != key by {
                        if j > 0 {
                            assert(rest[j - 1] == pairs[j]);
                        }
                    }
                },
                None => {
                    assert forall|i: int| 0 <= i < pairs.len() implies (#[trigger] pairs[i]).0
                        != key by {
                        if i > 0 {
                            assert(rest[i - 1] == pairs[i]);
                        }
                    }
                },
            }
        }
    }
}

/// What a query sets: each of the four settings to the positive number that its own key
/// spells, and to its default where the key is not there. A query is refused exactly where
/// one of the keys is there and spells no positive number that fits.
pub proof fn law_query_sets_the_listener(pairs: Seq<(Seq<char>, Seq<char>)>)
    ensures
        ({
            let spells = |key: Seq<char>, max: nat, default: nat, n: nat|
                match value_of(pairs, key) {
                    Some(v) => n > 0 && text::unsigned_spec(v, max) == Some(n),
                    None => n == default,
                };
            let wrong = |key: Seq<char>, max: nat|
                value_of(pairs, key) matches Some(v) && (text::unsigned_spec(v, max) is None
                    || text::unsigned_spec(v, max) == Some(0nat));
            let (u, w) = (u64::MAX as nat, usize::MAX as nat);
            match config_spec(pairs) {
                Ok(c) => {
                    &&& spells("idle_secs"@, u, 60, c.idle_secs as nat)
                    &&& spells("udps_peer_capacity"@, w, 256, c.peer_capacity as nat)
                    &&& spells("read_buf_bytes"@, w, 8192, c.read_buf_bytes as nat)
                    &&& spells("tx_queue_frames"@, w, 256, c.tx_queue_frames as nat)
                },
                Err(_) => wrong("idle_secs"@, u) || wrong("udps_peer_capacity"@, w) || wrong(
                    "read_buf_bytes"@,
                    w,
                ) || wrong("tx_queue_frames"@, w),
            }
        }),
{
}

} // verus!
