//! The typed endpoints.

use vstd::prelude::*;
use vstd::string::StringExecFns;

use crate::addr;
use crate::addr::{Ipv4Addr, SocketAddr};
use crate::endpoint::identity_flags::{IdentityFlags, IdentityView};
use crate::endpoint::spec::names;
use crate::endpoint::spec::names::sanitize_for_name;
use crate::endpoint::spec::scheme::Scheme;
use crate::text;
use crate::text::decimal;

verus! {

/// Hardware flow control of a serial port.
#[derive(Debug, Clone, Copy, PartialEq, Eq, Structural)]
pub enum SerialFlowControl {
    Off,
    RtsCts,
}

impl Default for SerialFlowControl {
    fn default() -> (r: Self)
        ensures
            r == SerialFlowControl::Off,
    {
        SerialFlowControl::Off
    }
}

/// Settings that every endpoint has. `read_buf_bytes` has no query key; an embedder sets
/// it.
#[derive(Debug, Clone, Copy, PartialEq, Eq, Structural)]
pub struct CommonQuery {
    pub tx_queue_frames: Option<usize>,
    pub read_buf_bytes: Option<usize>,
}

impl CommonQuery {
    /// Nothing is set.
    pub open spec fn unset() -> CommonQuery {
        CommonQuery { tx_queue_frames: None, read_buf_bytes: None }
    }
}

impl Default for CommonQuery {
    fn default() -> (r: Self)
        ensures
            r == CommonQuery::unset(),
    {
        CommonQuery { tx_queue_frames: None, read_buf_bytes: None }
    }
}

/// `serial:` endpoint.
#[derive(Debug, PartialEq, Eq)]
pub struct SerialEndpoint {
    pub path: String,
    pub baud: u32,
    pub flow_control: SerialFlowControl,
    pub identity: IdentityFlags,
    pub common: CommonQuery,
}

/// The view of `SerialEndpoint`.
#[verifier::ext_equal]
pub struct SerialView {
    pub path: Seq<char>,
    pub baud: u32,
    pub flow_control: SerialFlowControl,
    pub identity: IdentityView,
    pub common: CommonQuery,
}

impl View for SerialEndpoint {
    type V = SerialView;

    open spec fn view(&self) -> SerialView {
        SerialView {
            path: self.path@,
            baud: self.baud,
            flow_control: self.flow_control,
            identity: self.identity@,
            common: self.common,
        }
    }
}

impl SerialView {
    /// Nothing is set.
    pub open spec fn unset() -> SerialView {
        SerialView {
            path: Seq::empty(),
            baud: 0,
            flow_control: SerialFlowControl::Off,
            identity: IdentityView::plain(),
            common: CommonQuery::unset(),
        }
    }
}

impl Default for SerialEndpoint {
    fn default() -> (r: Self)
        ensures
            r@ == SerialView::unset(),
    {
        SerialEndpoint {
            path: String::new(),
            baud: 0,
            flow_control: SerialFlowControl::Off,
            identity: IdentityFlags::default(),
            common: CommonQuery::default(),
        }
    }
}

impl Clone for SerialEndpoint {
    fn clone(&self) -> (r: Self)
        ensures
            r@ == self@,
    {
        SerialEndpoint {
            path: self.path.clone(),
            baud: self.baud,
            flow_control: self.flow_control,
            identity: self.identity.clone(),
            common: self.common,
        }
    }
}

/// `udps:` endpoint. The bind address is resolved when the specification is read.
#[derive(Debug, PartialEq, Eq)]
pub struct UdpServerEndpoint {
    pub bind_addr: SocketAddr,
    pub idle_secs: Option<u64>,
    pub identity: IdentityFlags,
    pub common: CommonQuery,
}

/// The view of `UdpServerEndpoint`.
#[verifier::ext_equal]
pub struct UdpServerView {
    pub bind_addr: SocketAddr,
    pub idle_secs: Option<u64>,
    pub identity: IdentityView,
    pub common: CommonQuery,
}

impl View for UdpServerEndpoint {
    type V = UdpServerView;

    open spec fn view(&self) -> UdpServerView {
        UdpServerView {
            bind_addr: self.bind_addr,
            idle_secs: self.idle_secs,
            identity: self.identity@,
            common: self.common,
        }
    }
}

impl UdpServerView {
    /// Nothing is set.
    pub open spec fn unset() -> UdpServerView {
        UdpServerView {
            bind_addr: SocketAddr::V4 { ip: Ipv4Addr { a: 0, b: 0, c: 0, d: 0 }, port: 0 },
            idle_secs: None,
            identity: IdentityView::plain(),
            common: CommonQuery::unset(),
        }
    }
}

impl Default for UdpServerEndpoint {
    fn default() -> (r: Self)
        ensures
            r@ == UdpServerView::unset(),
    {
        UdpServerEndpoint {
            bind_addr: SocketAddr::V4 { ip: Ipv4Addr { a: 0, b: 0, c: 0, d: 0 }, port: 0 },
            idle_secs: None,
            identity: IdentityFlags::default(),
            common: CommonQuery::default(),
        }
    }
}

impl Clone for UdpServerEndpoint {
    fn clone(&self) -> (r: Self)
        ensures
            r@ == self@,
    {
        UdpServerEndpoint {
            bind_addr: self.bind_addr,
            idle_secs: self.idle_secs,
            identity: self.identity.clone(),
            common: self.common,
        }
    }
}

/// `udpc:` endpoint.
#[derive(Debug, PartialEq, Eq)]
pub struct UdpClientEndpoint {
    pub host: String,
    pub port: u16,
    pub latch_idle_secs: Option<u64>,
    pub identity: IdentityFlags,
    pub common: CommonQuery,
}

/// The view of `UdpClientEndpoint`.
#[verifier::ext_equal]
pub struct UdpClientView {
    pub host: Seq<char>,
    pub port: u16,
    pub latch_idle_secs: Option<u64>,
    pub identity: IdentityView,
    pub common: CommonQuery,
}

impl View for UdpClientEndpoint {
    type V = UdpClientView;

    open spec fn view(&self) -> UdpClientView {
        UdpClientView {
            host: self.host@,
            port: self.port,
            latch_idle_secs: self.latch_idle_secs,
            identity: self.identity@,
            common: self.common,
        }
    }
}

impl UdpClientView {
    /// Nothing is set.
    pub open spec fn unset() -> UdpClientView {
        UdpClientView {
            host: Seq::empty(),
            port: 0,
            latch_idle_secs: None,
            identity: IdentityView::plain(),
            common: CommonQuery::unset(),
        }
    }
}

impl Default for UdpClientEndpoint {
    fn default() -> (r: Self)
        ensures
            r@ == UdpClientView::unset(),
    {
        UdpClientEndpoint {
            host: String::new(),
            port: 0,
            latch_idle_secs: None,
            identity: IdentityFlags::default(),
            common: CommonQuery::default(),
        }
    }
}

impl Clone for UdpClientEndpoint {
    fn clone(&self) -> (r: Self)
        ensures
            r@ == self@,
    {
        UdpClientEndpoint {
            host: self.host.clone(),
            port: self.port,
            latch_idle_secs: self.latch_idle_secs,
            identity: self.identity.clone(),
            common: self.common,
        }
    }
}

/// `tcps:` endpoint. The bind address is resolved when the specification is read.
#[derive(Debug, PartialEq, Eq)]
pub struct TcpServerEndpoint {
    pub bind_addr: SocketAddr,
    pub identity: IdentityFlags,
    pub common: CommonQuery,
}

/// The view of `TcpServerEndpoint`.
#[verifier::ext_equal]
pub struct TcpServerView {
    pub bind_addr: SocketAddr,
    pub identity: IdentityView,
    pub common: CommonQuery,
}

impl View for TcpServerEndpoint {
    type V = TcpServerView;

    open spec fn view(&self) -> TcpServerView {
        TcpServerView {
            bind_addr: self.bind_addr,
            identity: self.identity@,
            common: self.common,
        }
    }
}

impl TcpServerView {
    /// Nothing is set.
    pub open spec fn unset() -> TcpServerView {
        TcpServerView {
            bind_addr: SocketAddr::V4 { ip: Ipv4Addr { a: 0, b: 0, c: 0, d: 0 }, port: 0 },
            identity: IdentityView::plain(),
            common: CommonQuery::unset(),
        }
    }
}

impl Default for TcpServerEndpoint {
    fn default() -> (r: Self)
        ensures
            r@ == TcpServerView::unset(),
    {
        TcpServerEndpoint {
            bind_addr: SocketAddr::V4 { ip: Ipv4Addr { a: 0, b: 0, c: 0, d: 0 }, port: 0 },
            identity: IdentityFlags::default(),
            common: CommonQuery::default(),
        }
    }
}

impl Clone for TcpServerEndpoint {
    fn clone(&self) -> (r: Self)
        ensures
            r@ == self@,
    {
        TcpServerEndpoint {
            bind_addr: self.bind_addr,
            identity: self.identity.clone(),
            common: self.common,
        }
    }
}

/// `tcpc:` endpoint. The reconnect delays have no query key; an embedder sets them.
#[derive(Debug, PartialEq, Eq)]
pub struct TcpClientEndpoint {
    pub host: String,
    pub port: u16,
    pub reconnect_initial_ms: Option<u64>,
    pub reconnect_max_ms: Option<u64>,
    pub identity: IdentityFlags,
    pub common: CommonQuery,
}

/// The view of `TcpClientEndpoint`.
#[verifier::ext_equal]
pub struct TcpClientView {
    pub host: Seq<char>,
    pub port: u16,
    pub reconnect_initial_ms: Option<u64>,
    pub reconnect_max_ms: Option<u64>,
    pub identity: IdentityView,
    pub common: CommonQuery,
}

impl View for TcpClientEndpoint {
    type V = TcpClientView;

    open spec fn view(&self) -> TcpClientView {
        TcpClientView {
            host: self.host@,
            port: self.port,
            reconnect_initial_ms: self.reconnect_initial_ms,
            reconnect_max_ms: self.reconnect_max_ms,
            identity: self.identity@,
            common: self.common,
        }
    }
}

impl TcpClientView {
    /// Nothing is set.
    pub open spec fn unset() -> TcpClientView {
        TcpClientView {
            host: Seq::empty(),
            port: 0,
            reconnect_initial_ms: None,
            reconnect_max_ms: None,
            identity: IdentityView::plain(),
            common: CommonQuery::unset(),
        }
    }
}

impl Default for TcpClientEndpoint {
    fn default() -> (r: Self)
        ensures
            r@ == TcpClientView::unset(),
    {
        TcpClientEndpoint {
            host: String::new(),
            port: 0,
            reconnect_initial_ms: None,
            reconnect_max_ms: None,
            identity: IdentityFlags::default(),
            common: CommonQuery::default(),
        }
    }
}

impl Clone for TcpClientEndpoint {
    fn clone(&self) -> (r: Self)
        ensures
            r@ == self@,
    {
        TcpClientEndpoint {
            host: self.host.clone(),
            port: self.port,
            reconnect_initial_ms: self.reconnect_initial_ms,
            reconnect_max_ms: self.reconnect_max_ms,
            identity: self.identity.clone(),
            common: self.common,
        }
    }
}

/// An endpoint of any scheme.
#[derive(Debug, PartialEq, Eq)]
pub enum EndpointKind {
    Serial(SerialEndpoint),
    UdpServer(UdpServerEndpoint),
    UdpClient(UdpClientEndpoint),
    TcpServer(TcpServerEndpoint),
    TcpClient(TcpClientEndpoint),
}

/// The view of `EndpointKind`.
#[verifier::ext_equal]
pub enum EndpointKindView {
    Serial(SerialView),
    UdpServer(UdpServerView),
    UdpClient(UdpClientView),
    TcpServer(TcpServerView),
    TcpClient(TcpClientView),
}

impl View for EndpointKind {
    type V = EndpointKindView;

    open spec fn view(&self) -> EndpointKindView {
        match self {
            EndpointKind::Serial(e) => EndpointKindView::Serial(e@),
            EndpointKind::UdpServer(e) => EndpointKindView::UdpServer(e@),
            EndpointKind::UdpClient(e) => EndpointKindView::UdpClient(e@),
            EndpointKind::TcpServer(e) => EndpointKindView::TcpServer(e@),
            EndpointKind::TcpClient(e) => EndpointKindView::TcpClient(e@),
        }
    }
}

impl Clone for EndpointKind {
    fn clone(&self) -> (r: Self)
        ensures
            r@ == self@,
    {
        match self {
            EndpointKind::Serial(e) => EndpointKind::Serial(e.clone()),
            EndpointKind::UdpServer(e) => EndpointKind::UdpServer(e.clone()),
            EndpointKind::UdpClient(e) => EndpointKind::UdpClient(e.clone()),
            EndpointKind::TcpServer(e) => EndpointKind::TcpServer(e.clone()),
            EndpointKind::TcpClient(e) => EndpointKind::TcpClient(e.clone()),
        }
    }
}

impl EndpointKindView {
    /// The scheme of the endpoint.
    pub open spec fn scheme(self) -> Scheme {
        match self {
            EndpointKindView::Serial(_) => Scheme::Serial,
            EndpointKindView::UdpServer(_) => Scheme::UdpServer,
            EndpointKindView::UdpClient(_) => Scheme::UdpClient,
            EndpointKindView::TcpServer(_) => Scheme::TcpServer,
            EndpointKindView::TcpClient(_) => Scheme::TcpClient,
        }
    }

    /// The identity of the endpoint.
    pub open spec fn identity(self) -> IdentityView {
        match self {
            EndpointKindView::Serial(e) => e.identity,
            EndpointKindView::UdpServer(e) => e.identity,
            EndpointKindView::UdpClient(e) => e.identity,
            EndpointKindView::TcpServer(e) => e.identity,
            EndpointKindView::TcpClient(e) => e.identity,
        }
    }

    /// The part of the automatic name that tells endpoints of one scheme apart: device
    /// path or address, in name characters.
    pub open spec fn place(self) -> Seq<char> {
        match self {
            EndpointKindView::Serial(e) => names::sanitized(e.path),
            EndpointKindView::UdpServer(e) => names::sanitized(addr::ip_text(e.bind_addr.ip_spec())),
            EndpointKindView::UdpClient(e) => names::sanitized(e.host),
            EndpointKindView::TcpServer(e) => names::sanitized(addr::ip_text(e.bind_addr.ip_spec())),
            EndpointKindView::TcpClient(e) => names::sanitized(e.host),
        }
    }

    /// The number that ends the automatic name: baud rate or port.
    pub open spec fn number(self) -> nat {
        match self {
            EndpointKindView::Serial(e) => e.baud as nat,
            EndpointKindView::UdpServer(e) => e.bind_addr.port_spec() as nat,
            EndpointKindView::UdpClient(e) => e.port as nat,
            EndpointKindView::TcpServer(e) => e.bind_addr.port_spec() as nat,
            EndpointKindView::TcpClient(e) => e.port as nat,
        }
    }

    /// The name of an endpoint that was given none.
    pub open spec fn default_name(self) -> Seq<char> {
        self.scheme().text() + "-"@ + self.place() + "-"@ + text::decimal_spec(self.number())
    }
}

impl EndpointKind {
    /// The scheme of the endpoint.
    pub fn scheme(&self) -> (r: Scheme)
        ensures
            r == self@.scheme(),
    {
        match self {
            EndpointKind::Serial(_) => Scheme::Serial,
            EndpointKind::UdpServer(_) => Scheme::UdpServer,
            EndpointKind::UdpClient(_) => Scheme::UdpClient,
            EndpointKind::TcpServer(_) => Scheme::TcpServer,
            EndpointKind::TcpClient(_) => Scheme::TcpClient,
        }
    }

    /// The identity of the endpoint.
    pub fn identity(&self) -> (r: &IdentityFlags)
        ensures
            r@ == self@.identity(),
    {
        match self {
            EndpointKind::Serial(e) => &e.identity,
            EndpointKind::UdpServer(e) => &e.identity,
            EndpointKind::UdpClient(e) => &e.identity,
            EndpointKind::TcpServer(e) => &e.identity,
            EndpointKind::TcpClient(e) => &e.identity,
        }
    }

    /// The name of an endpoint that was given none: scheme, address and port, in name
    /// characters.
    pub fn default_name(&self) -> (r: String)
        ensures
            r@ == self@.default_name(),
    {
        let place: String = match self {
            EndpointKind::Serial(e) => sanitize_for_name(e.path.as_str()),
            EndpointKind::UdpServer(e) => sanitize_for_name(e.bind_addr.ip().to_text().as_str()),
            EndpointKind::UdpClient(e) => sanitize_for_name(e.host.as_str()),
            EndpointKind::TcpServer(e) => sanitize_for_name(e.bind_addr.ip().to_text().as_str()),
            EndpointKind::TcpClient(e) => sanitize_for_name(e.host.as_str()),
        };
        let number: u64 = match self {
            EndpointKind::Serial(e) => e.baud as u64,
            EndpointKind::UdpServer(e) => e.bind_addr.port() as u64,
            EndpointKind::UdpClient(e) => e.port as u64,
            EndpointKind::TcpServer(e) => e.bind_addr.port() as u64,
            EndpointKind::TcpClient(e) => e.port as u64,
        };
        String::from_str(self.scheme().as_str()).concat("-").concat(place.as_str()).concat(
            "-",
        ).concat(decimal(number).as_str())
    }
}

/// The identity of an endpoint is the one that it was given, whatever its kind, and its scheme
/// is that of its kind.
pub proof fn law_identity_of_every_kind(kind: EndpointKindView)
    ensures
        match kind {
            EndpointKindView::Serial(e) => kind.identity() == e.identity && kind.scheme() is Serial,
            EndpointKindView::UdpServer(e) => kind.identity() == e.identity
                && kind.scheme() is UdpServer,
            EndpointKindView::UdpClient(e) => kind.identity() == e.identity
                && kind.scheme() is UdpClient,
            EndpointKindView::TcpServer(e) => kind.identity() == e.identity
                && kind.scheme() is TcpServer,
            EndpointKindView::TcpClient(e) => kind.identity() == e.identity
                && kind.scheme() is TcpClient,
        },
{
}

} // verus!
