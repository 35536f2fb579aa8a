//! What each configured endpoint starts with.

use vstd::prelude::*;

use crate::endpoint::defaults::DEFAULT_TX_QUEUE_FRAMES;
use crate::endpoint::events::EndpointEvent;
use crate::endpoint::id::{EndpointId, EndpointIdAllocator};
use crate::endpoint::serial::SerialSpec;
use crate::endpoint::spec::endpoint_kinds::EndpointKind;
use crate::endpoint::spec::parse::EndpointSpec;
use crate::endpoint::stats::{EndpointState, EndpointStats};
use crate::endpoint::tcp::client::TcpClientSpec;
use crate::endpoint::tcp::server::TcpServerSpec;
use crate::endpoint::tx_queue::{TxQueue, TxQueueView};
use crate::endpoint::udp::client::UdpClientSpec;
use crate::endpoint::udp::server::UdpServerSpec;

verus! {

/// The task that serves an endpoint.
#[derive(Debug)]
pub enum EndpointTask {
    Serial(SerialSpec),
    UdpServer(UdpServerSpec),
    UdpClient(UdpClientSpec),
    TcpServer(TcpServerSpec),
    TcpClient(TcpClientSpec),
}

/// An endpoint about to start.
pub struct SpawnPlan {
    pub id: EndpointId,
    pub stats: EndpointStats,
    /// The queue of an endpoint that frames can be sent to; a listener has none.
    pub tx_queue: Option<TxQueue>,
    /// To be announced before the task starts, so that no frame of an unknown endpoint
    /// ever reaches the router.
    pub event: EndpointEvent,
    pub task: EndpointTask,
}

/// The task that serves an endpoint of the given kind.
pub open spec fn task_of(kind: EndpointKind, id: EndpointId, name: String) -> EndpointTask {
    match kind {
        EndpointKind::Serial(ep) => EndpointTask::Serial(SerialSpec::of(ep, id, name)),
        EndpointKind::UdpServer(ep) => EndpointTask::UdpServer(UdpServerSpec::of(ep, id, name)),
        EndpointKind::UdpClient(ep) => EndpointTask::UdpClient(UdpClientSpec::of(ep, id, name)),
        EndpointKind::TcpServer(ep) => EndpointTask::TcpServer(TcpServerSpec::of(ep, id, name)),
        EndpointKind::TcpClient(ep) => EndpointTask::TcpClient(TcpClientSpec::of(ep, id, name)),
    }
}

/// Whether an endpoint only listens, and frames go to its peers.
pub open spec fn is_listener(kind: EndpointKind) -> bool {
    kind is UdpServer || kind is TcpServer
}

/// How many frames the queue of an endpoint has room for.
pub open spec fn queue_frames(kind: EndpointKind) -> usize {
    match kind {
        EndpointKind::Serial(ep) => ep.common.tx_queue_frames,
        EndpointKind::UdpServer(ep) => ep.common.tx_queue_frames,
        EndpointKind::UdpClient(ep) => ep.common.tx_queue_frames,
        EndpointKind::TcpServer(ep) => ep.common.tx_queue_frames,
        EndpointKind::TcpClient(ep) => ep.common.tx_queue_frames,
    }.unwrap_or(DEFAULT_TX_QUEUE_FRAMES)
}

/// Set up the endpoint `spec` under the next id. Its link is down at first. A leaf gets a
/// queue and is announced with its identity; a listener is announced without.
pub fn plan_endpoint(spec: EndpointSpec, allocator: &mut EndpointIdAllocator) -> (r: SpawnPlan)
    requires
        !is_listener(spec.kind) ==> queue_frames(spec.kind) <= isize::MAX / 64,
    ensures
        r.id == EndpointId(old(allocator)@),
        final(allocator)@ == old(allocator)@.wrapping_add(1),
        r.stats == EndpointStats::fresh(EndpointState::Reconnecting),
        r.task == task_of(spec.kind, r.id, spec.name),
        match r.tx_queue {
            Some(q) => !is_listener(spec.kind) && q@ == (TxQueueView {
                frames: Seq::empty(),
                capacity: if queue_frames(spec.kind) == 0 {
                    1
                } else {
                    queue_frames(spec.kind) as nat
                },
            }),
            None => is_listener(spec.kind),
        },
        r.event matches EndpointEvent::EndpointAdded { id, name, identity } && id == r.id && name@
            == spec.name@ && match identity {
            Some(i) => !is_listener(spec.kind) && i@ == spec.kind@.identity(),
            None => is_listener(spec.kind),
        },
{
    let id = allocator.allocate();
    let stats = EndpointStats::new(EndpointState::Reconnecting);
    let announced: String = spec.name.clone();
    let name: String = spec.name;
    match spec.kind {
        EndpointKind::Serial(ep) => {
            let frames: usize = ep.common.tx_queue_frames.unwrap_or(DEFAULT_TX_QUEUE_FRAMES);
            let identity = ep.identity.clone();
            SpawnPlan {
                id,
                stats,
                tx_queue: Some(TxQueue::new(frames)),
                event: EndpointEvent::EndpointAdded {
                    id,
                    name: announced,
                    identity: Some(identity),
                },
                task: EndpointTask::Serial(SerialSpec::from_endpoint(ep, id, name)),
            }
        },
        EndpointKind::UdpClient(ep) => {
            let frames: usize = ep.common.tx_queue_frames.unwrap_or(DEFAULT_TX_QUEUE_FRAMES);
            let identity = ep.identity.clone();
            SpawnPlan {
                id,
                stats,
                tx_queue: Some(TxQueue::new(frames)),
                event: EndpointEvent::EndpointAdded {
                    id,
                    name: announced,
                    identity: Some(identity),
                },
                task: EndpointTask::UdpClient(UdpClientSpec::from_endpoint(ep, id, name)),
            }
        },
        EndpointKind::TcpClient(ep) => {
            let frames: usize = ep.common.tx_queue_frames.unwrap_or(DEFAULT_TX_QUEUE_FRAMES);
            let identity = ep.identity.clone();
            SpawnPlan {
                id,
                stats,
                tx_queue: Some(TxQueue::new(frames)),
                event: EndpointEvent::EndpointAdded {
                    id,
                    name: announced,
                    identity: Some(identity),
                },
                task: EndpointTask::TcpClient(TcpClientSpec::from_endpoint(ep, id, name)),
            }
        },
        EndpointKind::UdpServer(ep) => SpawnPlan {
            id,
            stats,
            tx_queue: None,
            event: EndpointEvent::EndpointAdded { id, name: announced, identity: None },
            task: EndpointTask::UdpServer(UdpServerSpec::from_endpoint(ep, id, name)),
        },
        EndpointKind::TcpServer(ep) => SpawnPlan {
            id,
            stats,
            tx_queue: None,
            event: EndpointEvent::EndpointAdded { id, name: announced, identity: None },
            task: EndpointTask::TcpServer(TcpServerSpec::from_endpoint(ep, id, name)),
        },
    }
}

/// Every kind of endpoint is served by the task of its kind, with the address, the id, the
/// name and the identity that it was given, and with the documented defaults for what it
/// leaves open.
pub proof fn law_tasks_take_over_the_settings(kind: EndpointKind, id: EndpointId, name: String)
    ensures
        match kind {
            EndpointKind::Serial(ep) => task_of(kind, id, name) matches EndpointTask::Serial(t)
                && t.path == ep.path && t.baud == ep.baud && t.flow_control == ep.flow_control
                && t.endpoint_id == id && t.name == name && t.identity == ep.identity,
            EndpointKind::UdpServer(ep) => task_of(kind, id, name) matches EndpointTask::UdpServer(
                t,
            ) && t.listen_addr == ep.bind_addr && t.parent_id == id && t.parent_name == name
                && t.identity == ep.identity && t.idle_secs == (match ep.idle_secs {
                Some(v) => v,
                None => 60,
            }) && t.peer_capacity == 256 && t.reconnect_initial_ms == 250 && t.reconnect_max_ms
                == 30000,
            EndpointKind::UdpClient(ep) => task_of(kind, id, name) matches EndpointTask::UdpClient(
                t,
            ) && t.host == ep.host && t.port == ep.port && t.endpoint_id == id && t.name == name
                && t.identity == ep.identity && t.latch_idle_secs == (match ep.latch_idle_secs {
                Some(v) => v,
                None => 30,
            }) && t.reconnect_initial_ms == 250 && t.reconnect_max_ms == 30000,
            EndpointKind::TcpServer(ep) => task_of(kind, id, name) matches EndpointTask::TcpServer(
                t,
            ) && t.listen_addr == ep.bind_addr && t.parent_id == id && t.parent_name == name
                && t.identity == ep.identity && t.reconnect_initial_ms == 250
                && t.reconnect_max_ms == 30000,
            EndpointKind::TcpClient(ep) => task_of(kind, id, name) matches EndpointTask::TcpClient(
                t,
            ) && t.host == ep.host && t.port == ep.port && t.endpoint_id == id && t.name == name
                && t.identity == ep.identity && t.reconnect_initial_ms == (
            match ep.reconnect_initial_ms {
                Some(v) => v,
                None => 250,
            }) && t.reconnect_max_ms == (match ep.reconnect_max_ms {
                Some(v) => v,
                None => 30000,
            }),
        },
{
}

/// A queue has room for as many frames as the endpoint asks for, for 256 where it does not
/// say; the endpoints that only listen are those of `udps:` and `tcps:`.
pub proof fn law_queue_has_the_room_asked_for(kind: EndpointKind)
    ensures
        is_listener(kind) <==> kind is UdpServer || kind is TcpServer,
        ({
            let asked = match kind {
                EndpointKind::Serial(ep) => ep.common.tx_queue_frames,
                EndpointKind::UdpServer(ep) => ep.common.tx_queue_frames,
                EndpointKind::UdpClient(ep) => ep.common.tx_queue_frames,
                EndpointKind::TcpServer(ep) => ep.common.tx_queue_frames,
                EndpointKind::TcpClient(ep) => ep.common.tx_queue_frames,
            };
            queue_frames(kind) == (match asked {
                Some(n) => n,
                None => 256,
            })
        }),
{
}

} // verus!
