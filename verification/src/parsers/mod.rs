//! The two sources of a configuration.

pub mod cli;
pub mod toml;
