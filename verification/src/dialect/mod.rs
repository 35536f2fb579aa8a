//! Reading MAVLink dialect definitions: field types, the message table they add up to,
//! and the order in which a dialect pulls in others.

pub mod dialect_parse;
pub mod xml_loader;
