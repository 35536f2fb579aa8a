//! `tcps:` endpoints: a listener whose clients are endpoints of their own.

use vstd::prelude::*;

use crate::addr::SocketAddr;
use crate::endpoint::defaults::{
    DEFAULT_RECONNECT_INITIAL_MS, DEFAULT_RECONNECT_MAX_MS, DEFAULT_TX_QUEUE_FRAMES,
};
use crate::endpoint::events::{peer_added, peer_removed, EndpointEvent, PeerRemovalReason};
use crate::endpoint::id;
use crate::endpoint::id::{EndpointId, EndpointIdAllocator};
use crate::endpoint::identity_flags::IdentityFlags;
use crate::endpoint::session::SessionOutcome;
use crate::endpoint::spec::endpoint_kinds::TcpServerEndpoint;
use crate::endpoint::stats::{EndpointState, EndpointStats};
use crate::endpoint::tx_queue;
use crate::endpoint::tx_queue::{TxQueue, TxQueueView};

verus! {

/// A `tcps:` listener ready to run.
#[derive(Debug)]
pub struct TcpServerSpec {
    pub listen_addr: SocketAddr,
    pub parent_id: EndpointId,
    pub parent_name: String,
    pub reconnect_initial_ms: u64,
    pub reconnect_max_ms: u64,
    pub identity: IdentityFlags,
}

impl TcpServerSpec {
    /// `ep` with its defaults filled in.
    pub open spec fn of(
        ep: TcpServerEndpoint,
        parent_id: EndpointId,
        parent_name: String,
    ) -> TcpServerSpec {
        TcpServerSpec {
            listen_addr: ep.bind_addr,
            parent_id,
            parent_name,
            reconnect_initial_ms: DEFAULT_RECONNECT_INITIAL_MS,
            reconnect_max_ms: DEFAULT_RECONNECT_MAX_MS,
            identity: ep.identity,
        }
    }

    /// Fill in the defaults of an endpoint.
    pub fn from_endpoint(ep: TcpServerEndpoint, parent_id: EndpointId, parent_name: String) -> (r:
        Self)
        ensures
            r == TcpServerSpec::of(ep, parent_id, parent_name),
    {
        TcpServerSpec {
            listen_addr: ep.bind_addr,
            parent_id,
            parent_name,
            reconnect_initial_ms: DEFAULT_RECONNECT_INITIAL_MS,
            reconnect_max_ms: DEFAULT_RECONNECT_MAX_MS,
            identity: ep.identity,
        }
    }
}

/// Why a client went away whose session ended with `outcome`.
pub open spec fn removal_reason_spec(outcome: SessionOutcome) -> PeerRemovalReason {
    match outcome {
        SessionOutcome::Terminated => PeerRemovalReason::ListenerShutdown,
        SessionOutcome::Disconnected => PeerRemovalReason::Disconnected,
    }
}

/// Why a client went away whose session ended with `outcome`.
pub fn removal_reason(outcome: SessionOutcome) -> (r: PeerRemovalReason)
    ensures
        r == removal_reason_spec(outcome),
{
    match outcome {
        SessionOutcome::Terminated => PeerRemovalReason::ListenerShutdown,
        SessionOutcome::Disconnected => PeerRemovalReason::Disconnected,
    }
}

/// What a newly accepted client of a listener, or a new peer, starts with.
pub struct AcceptedClient {
    pub child_id: EndpointId,
    pub stats: EndpointStats,
    pub tx_queue: TxQueue,
    /// To be announced before any frame of the client.
    pub event: EndpointEvent,
}

/// Set up a client that connected from `peer_addr`. It gets an id of its own, counts as
/// connected from the start and takes over the identity of the listener.
pub fn accept_client(
    spec: &TcpServerSpec,
    peer_addr: SocketAddr,
    allocator: &mut EndpointIdAllocator,
) -> (r: AcceptedClient)
    ensures
        r.child_id == EndpointId(old(allocator)@),
        final(allocator)@ == old(allocator)@.wrapping_add(1),
        r.stats == EndpointStats::fresh(EndpointState::Connected),
        r.tx_queue@ == (TxQueueView {
            frames: Seq::empty(),
            capacity: DEFAULT_TX_QUEUE_FRAMES as nat,
        }),
        r.event matches EndpointEvent::PeerAdded { parent_id, child_id, name, identity }
            && parent_id == spec.parent_id && child_id == r.child_id && name@
            == id::peer_name_spec(spec.parent_name@, peer_addr) && identity@ == spec.identity@,
{
    let child_id = allocator.allocate();
    AcceptedClient {
        child_id,
        stats: EndpointStats::new(EndpointState::Connected),
        tx_queue: TxQueue::new(DEFAULT_TX_QUEUE_FRAMES),
        event: peer_added(
            spec.parent_id,
            spec.parent_name.as_str(),
            &spec.identity,
            child_id,
            peer_addr,
        ),
    }
}

/// Wind up a client whose session ended with `outcome`: what is still queued is
/// discarded, and the number discarded comes with the announcement.
pub fn client_gone(
    parent_id: EndpointId,
    child_id: EndpointId,
    outcome: SessionOutcome,
    queue: &mut TxQueue,
    stats: &mut EndpointStats,
) -> (r: (usize, EndpointEvent))
    requires
        old(queue)@.wf(),
    ensures
        final(queue)@ == (TxQueueView { frames: Seq::empty(), ..old(queue)@ }),
        *final(stats) == tx_queue::with_dropped(*old(stats), old(queue)@.frames.len()),
        r.0 == old(queue)@.frames.len(),
        r.1 == (EndpointEvent::PeerRemoved {
            parent_id,
            child_id,
            reason: removal_reason_spec(outcome),
        }),
{
    let drained: usize = queue.drain_and_discard(stats);
    (drained, peer_removed(parent_id, child_id, removal_reason(outcome)))
}

/// A client goes away with its listener where its session was told to end, and on its own
/// where the connection was lost.
pub proof fn law_clients_go_for_a_reason(outcome: SessionOutcome)
    ensures
        outcome is Terminated ==> removal_reason_spec(outcome) is ListenerShutdown,
        outcome is Disconnected ==> removal_reason_spec(outcome) is Disconnected,
{
}

} // verus!
