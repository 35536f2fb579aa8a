//! Endpoint specifications: one command-line string or configuration entry becomes one
//! typed endpoint.

pub mod bounds;
pub mod describe;
pub mod distance;
pub mod endpoint_kinds;
pub mod error;
pub mod names;
pub mod parse;
pub mod query;
pub mod scheme;

pub use endpoint_kinds::{
    CommonQuery, EndpointKind, SerialEndpoint, SerialFlowControl, TcpClientEndpoint,
    TcpServerEndpoint, UdpClientEndpoint, UdpServerEndpoint,
};
pub use error::SpecError;
pub use names::{name_matches_regex, sanitize_for_name, validate_name};
pub use parse::EndpointSpec;
pub use scheme::Scheme;
