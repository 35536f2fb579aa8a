//! MAVLink wire format: checksums, headers, the message table and the framer.

pub mod buffer;
pub mod crc;
pub mod crc_extra;
pub mod frame;
pub mod framer;
pub mod msgid_table;
