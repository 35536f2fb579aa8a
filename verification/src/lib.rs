//! MAVLink routing library.

pub mod addr;
pub mod config;
pub mod dedup;
pub mod dialect;
pub mod endpoint;
pub mod error;
pub mod mavlink;
pub mod parsers;
pub mod pipeline;
pub mod router;
pub mod startup;
pub mod stats_line;
pub mod text;
