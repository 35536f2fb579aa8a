//! Fixed settings of the router and the bounds of the adjustable ones.

use vstd::prelude::*;

verus! {

/// Size of a stream read buffer.
pub const READ_BUF_BYTES: usize = 8192;

/// Frames that a transmit queue holds unless told otherwise.
pub const DEFAULT_TX_QUEUE_FRAMES: usize = 256;

/// Fewest frames that a transmit queue may be set to hold.
pub const MIN_TX_QUEUE_FRAMES: usize = 1;

/// Most frames that a transmit queue may be set to hold.
pub const MAX_TX_QUEUE_FRAMES: usize = 65_536;

/// First reconnect delay in milliseconds.
pub const DEFAULT_RECONNECT_INITIAL_MS: u64 = 250;

/// Longest reconnect delay in milliseconds.
pub const DEFAULT_RECONNECT_MAX_MS: u64 = 30_000;

/// Frames that the duplicate filter remembers.
pub const DEFAULT_DEDUP_WINDOW_CAPACITY: usize = 4096;

/// Pause after a failed socket operation, in milliseconds.
pub const SOCKET_ERROR_RETRY_DELAY_MS: u64 = 10;

/// Seconds without traffic after which a `udps:` peer is dropped, unless told otherwise.
pub const DEFAULT_IDLE_SECS: u64 = 60;

/// Shortest `idle_secs`.
pub const MIN_IDLE_SECS: u64 = 1;

/// Longest `idle_secs`: a day.
pub const MAX_IDLE_SECS: u64 = 86_400;

/// Peers that one `udps:` listener tracks.
pub const DEFAULT_PEER_CAPACITY: usize = 256;

/// Seconds without a reply after which a `udpc:` endpoint forgets the address that its
/// peer replied from, unless told otherwise.
pub const DEFAULT_LATCH_IDLE_SECS: u64 = 30;

/// Shortest `latch_idle_secs`.
pub const MIN_LATCH_IDLE_SECS: u64 = 1;

/// Longest `latch_idle_secs`: a day.
pub const MAX_LATCH_IDLE_SECS: u64 = 86_400;

/// Size of a datagram buffer: the largest IP payload fits.
pub const MAX_DATAGRAM_BYTES: usize = 65_536;

} // verus!
