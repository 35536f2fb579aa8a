//! Counters and health of an endpoint.

use vstd::prelude::*;

use crate::mavlink::framer::Framer;

verus! {

/// The health of an endpoint. Endpoint tasks report `Connected` and `Reconnecting`, the
/// router reports `Idle` and `Down`. `Unknown` is what an unreadable slot reads as.
#[derive(Debug, Clone, Copy, PartialEq, Eq, Structural)]
pub enum EndpointState {
    Reconnecting,
    Connected,
    Idle,
    Down,
    Unknown,
}

impl Default for EndpointState {
    fn default() -> (r: Self)
        ensures
            r == EndpointState::Reconnecting,
    {
        EndpointState::Reconnecting
    }
}

/// The state that a slot value stands for.
pub open spec fn state_of(value: u8) -> EndpointState {
    if value == 0 {
        EndpointState::Reconnecting
    } else if value == 1 {
        EndpointState::Connected
    } else if value == 2 {
        EndpointState::Idle
    } else if value == 3 {
        EndpointState::Down
    } else {
        EndpointState::Unknown
    }
}

impl EndpointState {
    /// The slot value of the state.
    pub open spec fn code(self) -> u8 {
        match self {
            EndpointState::Reconnecting => 0,
            EndpointState::Connected => 1,
            EndpointState::Idle => 2,
            EndpointState::Down => 3,
            EndpointState::Unknown => 4,
        }
    }

    /// The slot value of the state.
    pub fn as_u8(self) -> (r: u8)
        ensures
            r == self.code(),
    {
        match self {
            EndpointState::Reconnecting => 0,
            EndpointState::Connected => 1,
            EndpointState::Idle => 2,
            EndpointState::Down => 3,
            EndpointState::Unknown => 4,
        }
    }

    /// The state that a slot value stands for.
    pub fn from_u8(value: u8) -> (r: Self)
        ensures
            r == state_of(value),
    {
        match value {
            0 => EndpointState::Reconnecting,
            1 => EndpointState::Connected,
            2 => EndpointState::Idle,
            3 => EndpointState::Down,
            _ => EndpointState::Unknown,
        }
    }
}

/// A state is found again under its slot value.
pub proof fn law_state_reads_back(state: EndpointState)
    ensures
        state_of(state.code()) == state,
{
}

/// What an endpoint has counted since it was made, and its health. Counters wrap.
#[derive(Debug, Clone, Copy, PartialEq, Eq, Structural)]
pub struct EndpointStats {
    pub rx_frames: u64,
    pub tx_frames: u64,
    pub rx_bytes: u64,
    pub tx_bytes: u64,
    pub dropped_tx: u64,
    pub crc_errors: u64,
    pub resync_bytes: u64,
    pub in_filter_drops: u64,
    pub out_filter_drops: u64,
    pub dedup_drops: u64,
    pub rx_lost_est: u64,
    pub learn_entries: u64,
    pub state: u8,
}

impl EndpointStats {
    /// Nothing counted, health `state`.
    pub open spec fn fresh(state: EndpointState) -> EndpointStats {
        EndpointStats {
            rx_frames: 0,
            tx_frames: 0,
            rx_bytes: 0,
            tx_bytes: 0,
            dropped_tx: 0,
            crc_errors: 0,
            resync_bytes: 0,
            in_filter_drops: 0,
            out_filter_drops: 0,
            dedup_drops: 0,
            rx_lost_est: 0,
            learn_entries: 0,
            state: state.code(),
        }
    }

    /// One more frame of `bytes` bytes received.
    pub open spec fn with_rx(self, bytes: usize) -> EndpointStats {
        EndpointStats {
            rx_frames: self.rx_frames.wrapping_add(1),
            rx_bytes: self.rx_bytes.wrapping_add(bytes as u64),
            ..self
        }
    }

    /// One more frame of `bytes` bytes sent.
    pub open spec fn with_tx(self, bytes: usize) -> EndpointStats {
        EndpointStats {
            tx_frames: self.tx_frames.wrapping_add(1),
            tx_bytes: self.tx_bytes.wrapping_add(bytes as u64),
            ..self
        }
    }

    /// The same with another health.
    pub open spec fn with_state(self, state: EndpointState) -> EndpointStats {
        EndpointStats { state: state.code(), ..self }
    }

    /// Nothing counted, health `state`.
    pub fn new(state: EndpointState) -> (r: Self)
        ensures
            r == EndpointStats::fresh(state),
    {
        EndpointStats {
            rx_frames: 0,
            tx_frames: 0,
            rx_bytes: 0,
            tx_bytes: 0,
            dropped_tx: 0,
            crc_errors: 0,
            resync_bytes: 0,
            in_filter_drops: 0,
            out_filter_drops: 0,
            dedup_drops: 0,
            rx_lost_est: 0,
            learn_entries: 0,
            state: state.as_u8(),
        }
    }

    /// The health.
    pub fn load_state(&self) -> (r: EndpointState)
        ensures
            r == state_of(self.state),
    {
        EndpointState::from_u8(self.state)
    }

    /// Report another health.
    pub fn store_state(&mut self, state: EndpointState)
        ensures
            *final(self) == old(self).with_state(state),
    {
        self.state = state.as_u8();
    }

    /// Count a frame received.
    pub fn add_rx_frame(&mut self, bytes: usize)
        ensures
            *final(self) == old(self).with_rx(bytes),
    {
        self.rx_frames = self.rx_frames.wrapping_add(1);
        self.rx_bytes = self.rx_bytes.wrapping_add(bytes as u64);
    }

    /// Count a frame sent.
    pub fn add_tx_frame(&mut self, bytes: usize)
        ensures
            *final(self) == old(self).with_tx(bytes),
    {
        self.tx_frames = self.tx_frames.wrapping_add(1);
        self.tx_bytes = self.tx_bytes.wrapping_add(bytes as u64);
    }
}

impl Default for EndpointStats {
    fn default() -> (r: Self)
        ensures
            r == EndpointStats::fresh(EndpointState::Reconnecting),
    {
        EndpointStats::new(EndpointState::Reconnecting)
    }
}

/// The framer totals that have been added to the counters already.
#[derive(Debug, Clone, Copy, PartialEq, Eq, Structural)]
pub struct FramerCounters {
    last_resync_total: u64,
    last_crc_total: u64,
}

/// `now` less `last`, not below zero.
pub open spec fn advance_of(now: u64, last: u64) -> u64 {
    if now > last {
        (now - last) as u64
    } else {
        0
    }
}

impl FramerCounters {
    /// The dropped bytes that have been added already.
    pub closed spec fn resync(self) -> u64 {
        self.last_resync_total
    }

    /// The failed checksums that have been added already.
    pub closed spec fn crc(self) -> u64 {
        self.last_crc_total
    }

    /// Nothing has been added yet.
    pub fn new() -> (r: Self)
        ensures
            r.resync() == 0,
            r.crc() == 0,
    {
        FramerCounters { last_resync_total: 0, last_crc_total: 0 }
    }

    /// Add to the counters what the framer has dropped and found wrong since the last
    /// time.
    pub fn sync(&mut self, framer: &Framer, stats: &mut EndpointStats)
        ensures
            final(self).resync() == framer@.resync_bytes,
            final(self).crc() == framer@.crc_errors,
            *final(stats) == (EndpointStats {
                resync_bytes: old(stats).resync_bytes.wrapping_add(
                    advance_of(framer@.resync_bytes, old(self).resync()),
                ),
                crc_errors: old(stats).crc_errors.wrapping_add(
                    advance_of(framer@.crc_errors, old(self).crc()),
                ),
                ..*old(stats)
            }),
    {
        let now_resync: u64 = framer.resync_bytes();
        let now_crc: u64 = framer.crc_errors();
        let resync_delta: u64 = now_resync.saturating_sub(self.last_resync_total);
        let crc_delta: u64 = now_crc.saturating_sub(self.last_crc_total);
        stats.resync_bytes = stats.resync_bytes.wrapping_add(resync_delta);
        stats.crc_errors = stats.crc_errors.wrapping_add(crc_delta);
        self.last_resync_total = now_resync;
        self.last_crc_total = now_crc;
    }
}

impl Default for FramerCounters {
    fn default() -> (r: Self)
        ensures
            r.resync() == 0,
            r.crc() == 0,
    {
        FramerCounters::new()
    }
}

/// Counting a frame adds one frame and its bytes to the two counters of its direction, and
/// changes nothing else.
pub proof fn law_frames_are_counted(s: EndpointStats, bytes: usize)
    ensures
        s.with_rx(bytes) == (EndpointStats {
            rx_frames: s.with_rx(bytes).rx_frames,
            rx_bytes: s.with_rx(bytes).rx_bytes,
            ..s
        }),
        s.with_rx(bytes).rx_frames == (s.rx_frames + 1) % 0x1_0000_0000_0000_0000,
        s.with_rx(bytes).rx_bytes == (s.rx_bytes + bytes) % 0x1_0000_0000_0000_0000,
        s.with_tx(bytes) == (EndpointStats {
            tx_frames: s.with_tx(bytes).tx_frames,
            tx_bytes: s.with_tx(bytes).tx_bytes,
            ..s
        }),
        s.with_tx(bytes).tx_frames == (s.tx_frames + 1) % 0x1_0000_0000_0000_0000,
        s.with_tx(bytes).tx_bytes == (s.tx_bytes + bytes) % 0x1_0000_0000_0000_0000,
{
}

/// Reporting a health changes the health alone, and it is the one that is read next; a new
/// endpoint has counted nothing.
pub proof fn law_health_is_what_was_reported(s: EndpointStats, state: EndpointState)
    ensures
        state_of(s.with_state(state).state) == state,
        s.with_state(state) == (EndpointStats { state: s.with_state(state).state, ..s }),
        state_of(EndpointStats::fresh(state).state) == state,
        EndpointStats::fresh(state) == (EndpointStats {
            rx_frames: 0,
            tx_frames: 0,
            rx_bytes: 0,
            tx_bytes: 0,
            dropped_tx: 0,
            crc_errors: 0,
            resync_bytes: 0,
            in_filter_drops: 0,
            out_filter_drops: 0,
            dedup_drops: 0,
            rx_lost_est: 0,
            learn_entries: 0,
            state: EndpointStats::fresh(state).state,
        }),
{
}

/// What a total has advanced by, added to what it was, is what it is.
pub proof fn law_advance_closes_the_gap(now: u64, last: u64)
    ensures
        last <= now ==> last + advance_of(now, last) == now,
        last > now ==> advance_of(now, last) == 0,
{
}

} // verus!
