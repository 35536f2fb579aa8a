//! `serial:` endpoints: open a device, and open it again when it was unplugged.

use vstd::prelude::*;

use crate::endpoint::id::EndpointId;
use crate::endpoint::identity_flags::IdentityFlags;
use crate::endpoint::session::SessionOutcome;
use crate::endpoint::spec::endpoint_kinds::{SerialEndpoint, SerialFlowControl};
use crate::endpoint::stats::{EndpointState, EndpointStats};

verus! {

/// Wait between two attempts to open the device, in milliseconds. It does not grow: a
/// missing device does not come back sooner for being polled less.
pub const REOPEN_DELAY_MS: u64 = 1000;

/// A `serial:` endpoint ready to run.
#[derive(Debug)]
pub struct SerialSpec {
    pub path: String,
    pub baud: u32,
    pub flow_control: SerialFlowControl,
    pub endpoint_id: EndpointId,
    pub name: String,
    pub identity: IdentityFlags,
}

impl SerialSpec {
    /// `ep` under an id and a name.
    pub open spec fn of(ep: SerialEndpoint, endpoint_id: EndpointId, name: String) -> SerialSpec {
        SerialSpec {
            path: ep.path,
            baud: ep.baud,
            flow_control: ep.flow_control,
            endpoint_id,
            name,
            identity: ep.identity,
        }
    }

    /// Give an endpoint its id and name.
    pub fn from_endpoint(ep: SerialEndpoint, endpoint_id: EndpointId, name: String) -> (r: Self)
        ensures
            r == SerialSpec::of(ep, endpoint_id, name),
    {
        SerialSpec {
            path: ep.path,
            baud: ep.baud,
            flow_control: ep.flow_control,
            endpoint_id,
            name,
            identity: ep.identity,
        }
    }
}

/// What a `serial:` task waits for.
#[derive(Debug, Clone, Copy, PartialEq, Eq, Structural)]
pub enum SerialEvent {
    /// The task begins.
    Begin,
    /// An attempt to open the device succeeded or failed.
    Opened(bool),
    /// The wait is over; `false` where the endpoint was told to stop meanwhile.
    Waited(bool),
    /// A session ended.
    SessionEnded(SessionOutcome),
}

/// What a `serial:` task does next.
#[derive(Debug, Clone, Copy, PartialEq, Eq, Structural)]
pub enum SerialAction {
    /// Discard what is queued and end.
    DiscardAndStop,
    /// End; the queue has been discarded already.
    Stop,
    /// Try to open the device.
    Open,
    /// Wait this many milliseconds.
    Wait(u64),
    /// Discard what is queued, then wait this many milliseconds.
    DiscardAndWait(u64),
    /// Discard what is queued, which is stale, and run a session.
    Session,
}

/// Why a `serial:` task waits.
#[derive(Debug, Clone, Copy, PartialEq, Eq, Structural)]
pub enum SerialPause {
    /// The device could not be opened.
    OpenFailed,
    /// The device went away in the middle of a session.
    Lost,
}

/// The state of a `serial:` task.
#[derive(Debug, Clone, Copy, PartialEq, Eq, Structural)]
pub struct SerialTask {
    pub pause: SerialPause,
}

/// What the task does at the top of its loop.
pub open spec fn open_or_stop(cancelled: bool) -> SerialAction {
    if cancelled {
        SerialAction::DiscardAndStop
    } else {
        SerialAction::Open
    }
}

impl SerialTask {
    /// A task that has not opened its device yet.
    pub fn new() -> (r: Self)
        ensures
            r.pause == SerialPause::OpenFailed,
    {
        SerialTask { pause: SerialPause::OpenFailed }
    }

    /// Respond to one event. `cancelled` says whether the endpoint has been told to stop.
    /// An open device counts as connected, a lost one as reconnecting.
    pub fn step(&mut self, event: SerialEvent, cancelled: bool, stats: &mut EndpointStats) -> (r:
        SerialAction)
        ensures
            match event {
                SerialEvent::Begin | SerialEvent::Waited(true) => {
                    &&& r == open_or_stop(cancelled)
                    &&& *final(self) == *old(self)
                    &&& *final(stats) == *old(stats)
                },
                SerialEvent::Opened(true) => {
                    &&& r == SerialAction::Session
                    &&& *final(self) == *old(self)
                    &&& *final(stats) == old(stats).with_state(EndpointState::Connected)
                },
                SerialEvent::Opened(false) => {
                    &&& r == SerialAction::Wait(REOPEN_DELAY_MS)
                    &&& final(self).pause == SerialPause::OpenFailed
                    &&& *final(stats) == *old(stats)
                },
                SerialEvent::Waited(false) => {
                    &&& r == match old(self).pause {
                        SerialPause::OpenFailed => SerialAction::DiscardAndStop,
                        SerialPause::Lost => SerialAction::Stop,
                    }
                    &&& *final(self) == *old(self)
                    &&& *final(stats) == *old(stats)
                },
                SerialEvent::SessionEnded(SessionOutcome::Terminated) => {
                    &&& r == SerialAction::DiscardAndStop
                    &&& *final(self) == *old(self)
                    &&& *final(stats) == *old(stats)
                },
                SerialEvent::SessionEnded(SessionOutcome::Disconnected) => {
                    &&& r == SerialAction::DiscardAndWait(REOPEN_DELAY_MS)
                    &&& final(self).pause == SerialPause::Lost
                    &&& *final(stats) == old(stats).with_state(EndpointState::Reconnecting)
                },
            },
    {
        match event {
            SerialEvent::Begin | SerialEvent::Waited(true) => {
                if cancelled {
                    SerialAction::DiscardAndStop
                } else {
                    SerialAction::Open
                }
            },
            SerialEvent::Opened(true) => {
                stats.store_state(EndpointState::Connected);
                SerialAction::Session
            },
            SerialEvent::Opened(false) => {
                self.pause = SerialPause::OpenFailed;
                SerialAction::Wait(REOPEN_DELAY_MS)
            },
            SerialEvent::Waited(false) => {
                match self.pause {
                    SerialPause::OpenFailed => SerialAction::DiscardAndStop,
                    SerialPause::Lost => SerialAction::Stop,
                }
            },
            SerialEvent::SessionEnded(SessionOutcome::Terminated) => SerialAction::DiscardAndStop,
            SerialEvent::SessionEnded(SessionOutcome::Disconnected) => {
                stats.store_state(EndpointState::Reconnecting);
                self.pause = SerialPause::Lost;
                SerialAction::DiscardAndWait(REOPEN_DELAY_MS)
            },
        }
    }
}

/// At the top of its loop a task that was told to stop discards what is queued and ends; any
/// other opens its device.
pub proof fn law_told_to_stop_it_stops(cancelled: bool)
    ensures
        cancelled ==> open_or_stop(cancelled) == SerialAction::DiscardAndStop,
        !cancelled ==> open_or_stop(cancelled) == SerialAction::Open,
{
}

} // verus!
