//! TCP endpoints.

pub mod client;
pub mod server;
