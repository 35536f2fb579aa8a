//! What endpoints tell the router.

use bytes::Bytes;
use vstd::prelude::*;

use crate::addr::SocketAddr;
use crate::endpoint::id;
use crate::endpoint::id::{peer_endpoint_name, EndpointId};
use crate::endpoint::identity_flags::IdentityFlags;
use crate::endpoint::stats::EndpointState;
use crate::mavlink::frame::ParsedHeader;

verus! {

/// A frame that an endpoint received, with the header that was decoded on the way in.
#[derive(Debug)]
pub struct RouterFrame {
    pub endpoint_id: EndpointId,
    pub frame: Bytes,
    pub header: ParsedHeader,
}

/// The comings and goings of endpoints. An identity comes with every endpoint that
/// frames can be sent to; a listener has none, since its peers register on their own.
#[allow(inconsistent_fields)]
#[derive(Debug)]
pub enum EndpointEvent {
    EndpointAdded { id: EndpointId, name: String, identity: Option<IdentityFlags> },
    PeerAdded {
        parent_id: EndpointId,
        child_id: EndpointId,
        name: String,
        identity: IdentityFlags,
    },
    PeerRemoved { parent_id: EndpointId, child_id: EndpointId, reason: PeerRemovalReason },
}

/// Why a peer went away.
#[derive(Debug, Clone, Copy, PartialEq, Eq, Structural)]
pub enum PeerRemovalReason {
    Idle,
    LruEvicted,
    Disconnected,
    ListenerShutdown,
}

impl PeerRemovalReason {
    /// The health that a peer ends with.
    pub open spec fn final_state(self) -> EndpointState {
        match self {
            PeerRemovalReason::Idle => EndpointState::Idle,
            _ => EndpointState::Down,
        }
    }

    /// The health that a peer ends with.
    pub fn terminal_state(self) -> (r: EndpointState)
        ensures
            r == self.final_state(),
    {
        match self {
            PeerRemovalReason::Idle => EndpointState::Idle,
            PeerRemovalReason::LruEvicted => EndpointState::Down,
            PeerRemovalReason::Disconnected => EndpointState::Down,
            PeerRemovalReason::ListenerShutdown => EndpointState::Down,
        }
    }
}

/// The announcement of a new peer: it takes over the identity of its listener.
pub fn peer_added(
    parent_id: EndpointId,
    parent_name: &str,
    identity: &IdentityFlags,
    child_id: EndpointId,
    src: SocketAddr,
) -> (r: EndpointEvent)
    ensures
        r matches EndpointEvent::PeerAdded { parent_id: p, child_id: c, name, identity: i } && p
            == parent_id && c == child_id && name@ == id::peer_name_spec(parent_name@, src) && i@
            == identity@,
{
    EndpointEvent::PeerAdded {
        parent_id,
        child_id,
        name: peer_endpoint_name(parent_name, src),
        identity: identity.clone(),
    }
}

/// The announcement that a peer is gone.
pub fn peer_removed(
    parent_id: EndpointId,
    child_id: EndpointId,
    reason: PeerRemovalReason,
) -> (r: EndpointEvent)
    ensures
        r == (EndpointEvent::PeerRemoved { parent_id, child_id, reason }),
{
    EndpointEvent::PeerRemoved { parent_id, child_id, reason }
}

/// What comes of `task` once it has been announced to the router. It starts where the router
/// has `heard`; where the router is gone it is dropped, so that no frame ever comes from an
/// endpoint that was not announced.
pub fn start_announced<T>(heard: bool, task: T) -> (r: Option<T>)
    ensures
        r == if heard {
            Some(task)
        } else {
            None
        },
{
    if heard {
        Some(task)
    } else {
        None
    }
}

/// A peer that fell silent ends as idle, any other as down.
pub proof fn law_silent_peers_end_idle(reason: PeerRemovalReason)
    ensures
        reason is Idle ==> reason.final_state() is Idle,
        !(reason is Idle) ==> reason.final_state() is Down,
{
}

} // verus!
