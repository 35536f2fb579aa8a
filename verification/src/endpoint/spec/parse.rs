//! The text form of an endpoint: `scheme:body#name?query`.

use vstd::prelude::*;
use vstd::string::{StrSliceExecFns, StringExecFns};

use crate::addr;
use crate::addr::{parse_ip, Ipv4Addr, SocketAddr};
use crate::endpoint::identity_flags::IdentityView;
use crate::endpoint::spec::endpoint_kinds::{
    CommonQuery, EndpointKind, EndpointKindView, SerialEndpoint, SerialFlowControl, SerialView,
    TcpClientEndpoint, TcpClientView, TcpServerEndpoint, TcpServerView, UdpClientEndpoint,
    UdpClientView, UdpServerEndpoint, UdpServerView,
};
use crate::endpoint::spec::error::{SpecError, SpecErrorView};
use crate::endpoint::spec::names;
use crate::endpoint::spec::names::validate_name;
use crate::endpoint::spec::query;
use crate::endpoint::spec::query::{
    apply_pairs, parse_query_pairs, SerialApplier, TcpClientApplier, TcpServerApplier,
    UdpClientApplier, UdpServerApplier,
};
use crate::endpoint::spec::scheme;
use crate::endpoint::spec::scheme::Scheme;
use crate::text;
use crate::text::{
    contains_char, parse_unsigned, prefix, rfind_char, rsplit_once_char, split_once_char, suffix,
};

verus! {

// ---------------------------------------------------------------- parts

/// The body, the name and the query of what follows the scheme. The name comes before
/// the query.
pub open spec fn parts_spec(rest: Seq<char>) -> (Seq<char>, Option<Seq<char>>, Option<Seq<char>>) {
    match text::split_once_spec(rest, '#') {
        Some((body, after)) => match text::split_once_spec(after, '?') {
            Some((name, query)) => (body, Some(name), Some(query)),
            None => (body, Some(after), None),
        },
        None => match text::split_once_spec(rest, '?') {
            Some((body, query)) => (body, None, Some(query)),
            None => (rest, None, None),
        },
    }
}

/// The characters of the three parts.
pub open spec fn parts_view(p: (&str, Option<&str>, Option<&str>)) -> (
    Seq<char>,
    Option<Seq<char>>,
    Option<Seq<char>>,
) {
    (
        p.0@,
        match p.1 {
            Some(s) => Some(s@),
            None => None,
        },
        match p.2 {
            Some(s) => Some(s@),
            None => None,
        },
    )
}

/// Split what follows the scheme into body, name and query.
pub fn split_body_name_query(rest: &str) -> (r: (&str, Option<&str>, Option<&str>))
    ensures
        parts_view(r) == parts_spec(rest@),
{
    match split_once_char(rest, '#') {
        Some((body, after)) => match split_once_char(after, '?') {
            Some((name, query)) => (body, Some(name), Some(query)),
            None => (body, Some(after), None),
        },
        None => match split_once_char(rest, '?') {
            Some((body, query)) => (body, None, Some(query)),
            None => (rest, None, None),
        },
    }
}

// ---------------------------------------------------------------- bodies

/// What a body should look like, for messages.
pub open spec fn grammar_text(scheme: Scheme) -> Seq<char> {
    match scheme {
        Scheme::Serial => "expected 'serial:<path>:<baud>' or 'serial:<path>,<baud>', e.g. 'serial:/dev/ttyUSB0:115200'"@,
        Scheme::UdpServer | Scheme::TcpServer => "expected '<ip>:<port>', e.g. '0.0.0.0:14550' or '[::]:5760' (hostnames are not resolved for listen-side endpoints)"@,
        Scheme::UdpClient | Scheme::TcpClient => "expected '<host>:<port>', e.g. '192.168.1.5:14550' or 'gcs.example:5760'"@,
    }
}

/// What a body should look like, for messages.
pub fn body_grammar(scheme: Scheme) -> (r: &'static str)
    ensures
        r@ == grammar_text(scheme),
{
    match scheme {
        Scheme::Serial => "expected 'serial:<path>:<baud>' or 'serial:<path>,<baud>', e.g. 'serial:/dev/ttyUSB0:115200'",
        Scheme::UdpServer | Scheme::TcpServer => "expected '<ip>:<port>', e.g. '0.0.0.0:14550' or '[::]:5760' (hostnames are not resolved for listen-side endpoints)",
        Scheme::UdpClient | Scheme::TcpClient => "expected '<host>:<port>', e.g. '192.168.1.5:14550' or 'gcs.example:5760'",
    }
}

/// The error for a malformed body: what is wrong, and what is expected in brackets.
pub open spec fn bad_body(scheme: Scheme, body: Seq<char>, what: Seq<char>) -> SpecErrorView {
    SpecErrorView::MalformedBody {
        scheme,
        body,
        reason: what + " ("@ + grammar_text(scheme) + ")"@,
    }
}

/// The error for a malformed body. What is wrong is `a`, `b`, `c` in a row.
fn malformed(scheme: Scheme, body: &str, a: &str, b: &str, c: &str) -> (r: SpecError)
    ensures
        r@ == bad_body(scheme, body@, a@ + b@ + c@),
{
    SpecError::MalformedBody {
        scheme,
        body: body.to_owned(),
        reason: String::from_str(a).concat(b).concat(c).concat(" (").concat(
            body_grammar(scheme),
        ).concat(")"),
    }
}

/// The error for a malformed body.
fn malformed_plain(scheme: Scheme, body: &str, what: &str) -> (r: SpecError)
    ensures
        r@ == bad_body(scheme, body@, what@),
{
    SpecError::MalformedBody {
        scheme,
        body: body.to_owned(),
        reason: String::from_str(what).concat(" (").concat(body_grammar(scheme)).concat(")"),
    }
}

/// Where the path of a serial body ends: at the last colon or comma.
pub open spec fn serial_separator(body: Seq<char>) -> Option<int> {
    match (body.index_of_last(':'), body.index_of_last(',')) {
        (Some(a), Some(b)) => Some(
            if a > b {
                a
            } else {
                b
            },
        ),
        (Some(a), None) => Some(a),
        (None, Some(b)) => Some(b),
        (None, None) => None,
    }
}

/// The device path and the baud rate of a serial body.
pub open spec fn serial_body_spec(body: Seq<char>) -> Result<(Seq<char>, u32), SpecErrorView> {
    let bad = |what: Seq<char>| bad_body(Scheme::Serial, body, what);
    if body.len() == 0 {
        Err(bad("empty body"@))
    } else {
        match serial_separator(body) {
            None => Err(bad("no ':' or ',' separator between path and baud"@)),
            Some(at) => {
                let path = body.take(at);
                let baud = body.skip(at + 1);
                if path.len() == 0 {
                    Err(bad("empty device path"@))
                } else {
                    match text::unsigned_spec(baud, u32::MAX as nat) {
                        None => Err(bad("baud '"@ + baud + "' is not a valid u32"@)),
                        Some(n) => if n == 0 {
                            Err(bad("baud must be > 0"@))
                        } else {
                            Ok((path, n as u32))
                        },
                    }
                }
            },
        }
    }
}

/// Read the body of a `serial:` endpoint: device path and baud rate.
pub fn parse_serial_body(body: &str) -> (r: Result<(String, u32), SpecError>)
    ensures
        match r {
            Ok((path, baud)) => serial_body_spec(body@) == Ok::<_, SpecErrorView>((path@, baud)),
            Err(e) => serial_body_spec(body@) == Err::<(Seq<char>, u32), _>(e@),
        },
{
    if body.is_empty() {
        return Err(malformed_plain(Scheme::Serial, body, "empty body"));
    }
    let pos: usize = match (rfind_char(body, ':'), rfind_char(body, ',')) {
        (Some(a), Some(b)) => if a > b {
            a
        } else {
            b
        },
        (Some(a), None) => a,
        (None, Some(b)) => b,
        (None, None) => {
            return Err(
                malformed_plain(
                    Scheme::Serial,
                    body,
                    "no ':' or ',' separator between path and baud",
                ),
            );
        },
    };
    let path = prefix(body, pos);
    let baud_str = suffix(body, pos + 1);
    if path.is_empty() {
        return Err(malformed_plain(Scheme::Serial, body, "empty device path"));
    }
    let baud: u64 = match parse_unsigned(baud_str, u32::MAX as u64) {
        Some(n) => n,
        None => {
            return Err(malformed(Scheme::Serial, body, "baud '", baud_str, "' is not a valid u32"));
        },
    };
    if baud == 0 {
        return Err(malformed_plain(Scheme::Serial, body, "baud must be > 0"));
    }
    Ok((path.to_owned(), baud as u32))
}

/// The host and the port texts of an address body. A host in brackets ends at the first
/// closing bracket, any other at the last colon.
pub open spec fn host_port_texts(body: Seq<char>, scheme: Scheme) -> Result<
    (Seq<char>, Seq<char>),
    SpecErrorView,
> {
    if body.len() == 0 {
        Err(bad_body(scheme, body, "empty body"@))
    } else if body[0] == '[' {
        match text::split_once_spec(body.skip(1), ']') {
            None => Err(bad_body(scheme, body, "unclosed '[' in IPv6 literal"@)),
            Some((host, after)) => if after.len() > 0 && after[0] == ':' {
                Ok((host, after.skip(1)))
            } else {
                Err(bad_body(scheme, body, "expected ':<port>' after ']'"@))
            },
        }
    } else {
        match text::rsplit_once_spec(body, ':') {
            None => Err(bad_body(scheme, body, "no ':' between host and port"@)),
            Some((host, port)) => Ok((host, port)),
        }
    }
}

/// The host and the port of an address body.
pub open spec fn host_port_spec(body: Seq<char>, scheme: Scheme) -> Result<
    (Seq<char>, u16),
    SpecErrorView,
> {
    match host_port_texts(body, scheme) {
        Err(e) => Err(e),
        Ok((host, port)) => if host.len() == 0 {
            Err(bad_body(scheme, body, "empty host"@))
        } else {
            match text::unsigned_spec(port, u16::MAX as nat) {
                None => Err(
                    bad_body(scheme, body, "port '"@ + port + "' is not a valid u16"@),
                ),
                Some(n) => Ok((host, n as u16)),
            }
        },
    }
}

/// Split an address body into host and port texts.
fn split_host_port(body: &str, scheme: Scheme) -> (r: Result<(&str, &str), SpecError>)
    ensures
        match r {
            Ok((host, port)) => host_port_texts(body@, scheme) == Ok::<_, SpecErrorView>(
                (host@, port@),
            ),
            Err(e) => host_port_texts(body@, scheme) == Err::<(Seq<char>, Seq<char>), _>(e@),
        },
{
    if body.is_empty() {
        return Err(malformed_plain(scheme, body, "empty body"));
    }
    if body.get_char(0) == '[' {
        match split_once_char(suffix(body, 1), ']') {
            None => Err(malformed_plain(scheme, body, "unclosed '[' in IPv6 literal")),
            Some((host, after)) => {
                if !after.is_empty() && after.get_char(0) == ':' {
                    Ok((host, suffix(after, 1)))
                } else {
                    Err(malformed_plain(scheme, body, "expected ':<port>' after ']'"))
                }
            },
        }
    } else {
        match rsplit_once_char(body, ':') {
            None => Err(malformed_plain(scheme, body, "no ':' between host and port")),
            Some((host, port)) => Ok((host, port)),
        }
    }
}

/// Read an address body: host and port. An IPv6 literal stands in brackets.
pub fn parse_host_port(body: &str, scheme: Scheme) -> (r: Result<(String, u16), SpecError>)
    ensures
        match r {
            Ok((host, port)) => host_port_spec(body@, scheme) == Ok::<_, SpecErrorView>(
                (host@, port),
            ),
            Err(e) => host_port_spec(body@, scheme) == Err::<(Seq<char>, u16), _>(e@),
        },
{
    let (host, port_str) = match split_host_port(body, scheme) {
        Ok(p) => p,
        Err(e) => {
            return Err(e);
        },
    };
    if host.is_empty() {
        return Err(malformed_plain(scheme, body, "empty host"));
    }
    match parse_unsigned(port_str, u16::MAX as u64) {
        Some(port) => Ok((host.to_owned(), port as u16)),
        None => Err(malformed(scheme, body, "port '", port_str, "' is not a valid u16")),
    }
}

/// The address that a listening endpoint binds.
pub open spec fn listen_spec(body: Seq<char>, scheme: Scheme) -> Result<SocketAddr, SpecErrorView> {
    match host_port_spec(body, scheme) {
        Err(e) => Err(e),
        Ok((host, port)) => match addr::ip_text_spec(host) {
            Some(ip) => Ok(SocketAddr::of(ip, port)),
            None => Err(
                SpecErrorView::MalformedBody {
                    scheme,
                    body,
                    reason: "listen host '"@ + host
                        + "' must be an IP literal (e.g. '0.0.0.0', '[::]', '[::1]'); hostnames are not resolved for "@
                        + scheme.text() + ": endpoints"@,
                },
            ),
        },
    }
}

/// Read the body of a listening endpoint: an IP literal and a port.
pub fn parse_listen_addr(body: &str, scheme: Scheme) -> (r: Result<SocketAddr, SpecError>)
    ensures
        match r {
            Ok(addr) => listen_spec(body@, scheme) == Ok::<_, SpecErrorView>(addr),
            Err(e) => listen_spec(body@, scheme) == Err::<SocketAddr, _>(e@),
        },
{
    let (host, port) = match parse_host_port(body, scheme) {
        Ok(p) => p,
        Err(e) => {
            return Err(e);
        },
    };
    match parse_ip(host.as_str()) {
        Some(ip) => Ok(SocketAddr::new(ip, port)),
        None => Err(
            SpecError::MalformedBody {
                scheme,
                body: body.to_owned(),
                reason: String::from_str("listen host '").concat(host.as_str()).concat(
                    "' must be an IP literal (e.g. '0.0.0.0', '[::]', '[::1]'); hostnames are not resolved for ",
                ).concat(scheme.as_str()).concat(": endpoints"),
            },
        ),
    }
}

// ---------------------------------------------------------------- whole endpoints

/// The endpoint that a scheme, a body and settings describe.
pub open spec fn kind_spec(
    scheme: Scheme,
    body: Seq<char>,
    pairs: Seq<(Seq<char>, Seq<char>)>,
) -> Result<EndpointKindView, SpecErrorView> {
    match scheme {
        Scheme::Serial => match serial_body_spec(body) {
            Err(e) => Err(e),
            Ok((path, baud)) => match query::apply_pairs_spec::<SerialApplier>(
                SerialView { path, baud, ..SerialView::unset() },
                scheme,
                pairs,
            ) {
                (e, Ok(())) => Ok(EndpointKindView::Serial(e)),
                (_, Err(err)) => Err(err),
            },
        },
        Scheme::UdpServer => match listen_spec(body, scheme) {
            Err(e) => Err(e),
            Ok(bind_addr) => match query::apply_pairs_spec::<UdpServerApplier>(
                UdpServerView { bind_addr, ..UdpServerView::unset() },
                scheme,
                pairs,
            ) {
                (e, Ok(())) => Ok(EndpointKindView::UdpServer(e)),
                (_, Err(err)) => Err(err),
            },
        },
        Scheme::UdpClient => match host_port_spec(body, scheme) {
            Err(e) => Err(e),
            Ok((host, port)) => match query::apply_pairs_spec::<UdpClientApplier>(
                UdpClientView { host, port, ..UdpClientView::unset() },
                scheme,
                pairs,
            ) {
                (e, Ok(())) => Ok(EndpointKindView::UdpClient(e)),
                (_, Err(err)) => Err(err),
            },
        },
        Scheme::TcpServer => match listen_spec(body, scheme) {
            Err(e) => Err(e),
            Ok(bind_addr) => match query::apply_pairs_spec::<TcpServerApplier>(
                TcpServerView { bind_addr, ..TcpServerView::unset() },
                scheme,
                pairs,
            ) {
                (e, Ok(())) => Ok(EndpointKindView::TcpServer(e)),
                (_, Err(err)) => Err(err),
            },
        },
        Scheme::TcpClient => match host_port_spec(body, scheme) {
            Err(e) => Err(e),
            Ok((host, port)) => match query::apply_pairs_spec::<TcpClientApplier>(
                TcpClientView { host, port, ..TcpClientView::unset() },
                scheme,
                pairs,
            ) {
                (e, Ok(())) => Ok(EndpointKindView::TcpClient(e)),
                (_, Err(err)) => Err(err),
            },
        },
    }
}

/// Build the endpoint that a scheme, a body and settings describe.
pub fn parse_kind(scheme: Scheme, body: &str, pairs: &[(String, String)]) -> (r: Result<
    EndpointKind,
    SpecError,
>)
    ensures
        match r {
            Ok(kind) => kind_spec(scheme, body@, query::pair_texts(pairs@)) == Ok::<_, SpecErrorView>(
                kind@,
            ),
            Err(e) => kind_spec(scheme, body@, query::pair_texts(pairs@)) == Err::<EndpointKindView, _>(e@),
        },
{
    match scheme {
        Scheme::Serial => {
            let (path, baud) = match parse_serial_body(body) {
                Ok(p) => p,
                Err(e) => {
                    return Err(e);
                },
            };
            let mut endpoint = SerialEndpoint::default();
            endpoint.path = path;
            endpoint.baud = baud;
            let mut applier = SerialApplier(endpoint);
            match apply_pairs(&mut applier, scheme, pairs) {
                Ok(()) => Ok(EndpointKind::Serial(applier.0)),
                Err(e) => Err(e),
            }
        },
        Scheme::UdpServer => {
            let bind_addr = match parse_listen_addr(body, scheme) {
                Ok(a) => a,
                Err(e) => {
                    return Err(e);
                },
            };
            let mut endpoint = UdpServerEndpoint::default();
            endpoint.bind_addr = bind_addr;
            let mut applier = UdpServerApplier(endpoint);
            match apply_pairs(&mut applier, scheme, pairs) {
                Ok(()) => Ok(EndpointKind::UdpServer(applier.0)),
                Err(e) => Err(e),
            }
        },
        Scheme::UdpClient => {
            let (host, port) = match parse_host_port(body, scheme) {
                Ok(p) => p,
                Err(e) => {
                    return Err(e);
                },
            };
            let mut endpoint = UdpClientEndpoint::default();
            endpoint.host = host;
            endpoint.port = port;
            let mut applier = UdpClientApplier(endpoint);
            match apply_pairs(&mut applier, scheme, pairs) {
                Ok(()) => Ok(EndpointKind::UdpClient(applier.0)),
                Err(e) => Err(e),
            }
        },
        Scheme::TcpServer => {
            let bind_addr = match parse_listen_addr(body, scheme) {
                Ok(a) => a,
                Err(e) => {
                    return Err(e);
                },
            };
            let mut endpoint = TcpServerEndpoint::default();
            endpoint.bind_addr = bind_addr;
            let mut applier = TcpServerApplier(endpoint);
            match apply_pairs(&mut applier, scheme, pairs) {
                Ok(()) => Ok(EndpointKind::TcpServer(applier.0)),
                Err(e) => Err(e),
            }
        },
        Scheme::TcpClient => {
            let (host, port) = match parse_host_port(body, scheme) {
                Ok(p) => p,
                Err(e) => {
                    return Err(e);
                },
            };
            let mut endpoint = TcpClientEndpoint::default();
            endpoint.host = host;
            endpoint.port = port;
            let mut applier = TcpClientApplier(endpoint);
            match apply_pairs(&mut applier, scheme, pairs) {
                Ok(()) => Ok(EndpointKind::TcpClient(applier.0)),
                Err(e) => Err(e),
            }
        },
    }
}

/// One endpoint as declared: what it is and what it is called.
#[derive(Debug, PartialEq, Eq)]
pub struct EndpointSpec {
    pub kind: EndpointKind,
    /// The explicit name, or one made from scheme and address.
    pub name: String,
}

/// The view of `EndpointSpec`.
#[verifier::ext_equal]
pub struct EndpointSpecView {
    pub kind: EndpointKindView,
    pub name: Seq<char>,
}

impl View for EndpointSpec {
    type V = EndpointSpecView;

    open spec fn view(&self) -> EndpointSpecView {
        EndpointSpecView { kind: self.kind@, name: self.name@ }
    }
}

impl Clone for EndpointSpec {
    fn clone(&self) -> (r: Self)
        ensures
            r@ == self@,
    {
        EndpointSpec { kind: self.kind.clone(), name: self.name.clone() }
    }
}

/// The endpoint that tokens describe.
pub open spec fn build_spec(
    scheme: Scheme,
    body: Seq<char>,
    explicit_name: Option<Seq<char>>,
    pairs: Seq<(Seq<char>, Seq<char>)>,
) -> Result<EndpointSpecView, SpecErrorView> {
    match kind_spec(scheme, body, pairs) {
        Err(e) => Err(e),
        Ok(kind) => match explicit_name {
            Some(name) => if names::is_name(name) {
                Ok(EndpointSpecView { kind, name })
            } else {
                Err(SpecErrorView::InvalidName(name))
            },
            None => Ok(EndpointSpecView { kind, name: kind.default_name() }),
        },
    }
}

/// The endpoint that a text describes.
pub open spec fn endpoint_spec(input: Seq<char>) -> Result<EndpointSpecView, SpecErrorView> {
    match text::split_once_spec(input, ':') {
        None => Err(SpecErrorView::MissingScheme(input)),
        Some((scheme_text, rest)) => if scheme_text.len() == 0 {
            Err(SpecErrorView::MissingScheme(input))
        } else {
            let (body, name, query) = parts_spec(rest);
            if body.contains('?') {
                Err(
                    SpecErrorView::MalformedQuery(
                        "'?' must follow '#name' (got '"@ + body + "')"@,
                    ),
                )
            } else {
                match query::query_spec(query.unwrap_or(Seq::empty())) {
                    Err(e) => Err(e),
                    Ok(pairs) => match scheme::scheme_spec(scheme_text) {
                        None => Err(SpecErrorView::UnknownScheme(scheme_text)),
                        Some(scheme) => build_spec(scheme, body, name, pairs),
                    },
                }
            }
        },
    }
}

impl EndpointSpec {
    /// Read an endpoint from its text form.
    pub fn parse(input: &str) -> (r: Result<Self, SpecError>)
        ensures
            match r {
                Ok(spec) => endpoint_spec(input@) == Ok::<_, SpecErrorView>(spec@),
                Err(e) => endpoint_spec(input@) == Err::<EndpointSpecView, _>(e@),
            },
    {
        let (scheme_str, rest) = match split_once_char(input, ':') {
            Some(p) => p,
            None => {
                return Err(SpecError::MissingScheme(input.to_owned()));
            },
        };
        if scheme_str.is_empty() {
            return Err(SpecError::MissingScheme(input.to_owned()));
        }
        let (body, explicit_name, query_str) = split_body_name_query(rest);
        if contains_char(body, '?') {
            return Err(
                SpecError::MalformedQuery(
                    String::from_str("'?' must follow '#name' (got '").concat(body).concat("')"),
                ),
            );
        }
        proof {
            reveal_strlit("");
            assert(""@ =~= Seq::empty());
        }
        let query = match query_str {
            Some(q) => q,
            None => "",
        };
        let pairs = match parse_query_pairs(query) {
            Ok(p) => p,
            Err(e) => {
                return Err(e);
            },
        };
        let scheme = match Scheme::from_cli_prefix(scheme_str) {
            Ok(s) => s,
            Err(e) => {
                return Err(e);
            },
        };
        EndpointSpec::build(scheme, body, explicit_name, &pairs)
    }

    /// Build an endpoint from tokens. Text form and configuration entries both end here.
    pub fn build(
        scheme: Scheme,
        body: &str,
        explicit_name: Option<&str>,
        pairs: &[(String, String)],
    ) -> (r: Result<Self, SpecError>)
        ensures
            ({
                let name = match explicit_name {
                    Some(n) => Some(n@),
                    None => None,
                };
                let spec = build_spec(scheme, body@, name, query::pair_texts(pairs@));
                match r {
                    Ok(s) => spec == Ok::<_, SpecErrorView>(s@),
                    Err(e) => spec == Err::<EndpointSpecView, _>(e@),
                }
            }),
    {
        let kind = match parse_kind(scheme, body, pairs) {
            Ok(k) => k,
            Err(e) => {
                return Err(e);
            },
        };
        let name = match explicit_name {
            Some(n) => {
                match validate_name(n) {
                    Ok(()) => {},
                    Err(e) => {
                        return Err(e);
                    },
                }
                n.to_owned()
            },
            None => kind.default_name(),
        };
        Ok(EndpointSpec { kind, name })
    }
}

// ---------------------------------------------------------------- laws

/// The automatic name of an endpoint holds name characters only, and where it has at most 64
/// of them it is a name that could have been given explicitly. A long path or host gives a
/// longer name: automatic names are not cut.
pub proof fn law_default_name_is_name_text(kind: EndpointKindView)
    ensures
        names::is_name_text(kind.default_name()),
        kind.default_name().len() <= 64 ==> names::is_name(kind.default_name()),
{
    reveal_strlit("serial");
    reveal_strlit("udps");
    reveal_strlit("udpc");
    reveal_strlit("tcps");
    reveal_strlit("tcpc");
    reveal_strlit("-");
    let a = kind.scheme().text();
    let b = kind.place();
    let c = text::decimal_spec(kind.number());
    text::lemma_decimal_chars(kind.number());
    let s = kind.default_name();
    assert(s =~= a + "-"@ + b + "-"@ + c);
    assert forall|i: int| 0 <= i < s.len() implies names::is_name_char(#[trigger] s[i]) by {
        let la = a.len() as int;
        let lb = b.len() as int;
        if i < la {
            assert(s[i] == a[i]);
        } else if i == la {
            assert(s[i] == '-');
        } else if i < la + 1 + lb {
            assert(s[i] == b[i - la - 1]);
        } else if i == la + 1 + lb {
            assert(s[i] == '-');
        } else {
            assert(s[i] == c[i - la - lb - 2]);
        }
    }
}

/// Every accepted endpoint has a name of name characters, whether it was given one or
/// not, and where it is no longer than 64 it is a valid explicit name.
pub proof fn law_endpoint_name_is_name_text(input: Seq<char>)
    requires
        endpoint_spec(input) is Ok,
    ensures
        names::is_name_text(endpoint_spec(input)->Ok_0.name),
        endpoint_spec(input)->Ok_0.name.len() <= 64 ==> names::is_name(
            endpoint_spec(input)->Ok_0.name,
        ),
{
    law_default_name_is_name_text(endpoint_spec(input)->Ok_0.kind);
}

/// The text form of an endpoint.
pub open spec fn spec_text(
    scheme: Scheme,
    body: Seq<char>,
    name: Seq<char>,
    pairs: Seq<(Seq<char>, Seq<char>)>,
) -> Seq<char> {
    scheme.text().push(':') + body.push('#') + name.push('?') + query::query_text(pairs)
}

/// Scheme, body, name and settings written as text describe the endpoint that they build.
pub proof fn law_text_form_builds(
    scheme: Scheme,
    body: Seq<char>,
    name: Seq<char>,
    pairs: Seq<(Seq<char>, Seq<char>)>,
)
    requires
        !body.contains('#'),
        !body.contains('?'),
        !name.contains('?'),
        query::keys_unique(pairs),
        forall|i: int| 0 <= i < pairs.len() ==> query::is_writable(#[trigger] pairs[i]),
    ensures
        endpoint_spec(spec_text(scheme, body, name, pairs)) == build_spec(
            scheme,
            body,
            Some(name),
            pairs,
        ),
{
    reveal_strlit("serial");
    reveal_strlit("udps");
    reveal_strlit("udpc");
    reveal_strlit("tcps");
    reveal_strlit("tcpc");
    let input = spec_text(scheme, body, name, pairs);
    let head = scheme.text();
    let query = query::query_text(pairs);
    let rest = body.push('#') + name.push('?') + query;
    let after = name.push('?') + query;
    let n = head.len() as int;
    assert forall|j: int| 0 <= j < n implies input[j] != ':' by {
        assert(input[j] == head[j]);
    }
    text::lemma_first_index(input, ':', n);
    assert(input.take(n) =~= head);
    assert(input.skip(n + 1) =~= rest);
    let b = body.len() as int;
    assert forall|j: int| 0 <= j < b implies rest[j] != '#' by {
        assert(rest[j] == body[j]);
    }
    text::lemma_first_index(rest, '#', b);
    assert(rest.take(b) =~= body);
    assert(rest.skip(b + 1) =~= after);
    let m = name.len() as int;
    assert forall|j: int| 0 <= j < m implies after[j] != '?' by {
        assert(after[j] == name[j]);
    }
    text::lemma_first_index(after, '?', m);
    assert(after.take(m) =~= name);
    assert(after.skip(m + 1) =~= query);
    query::law_query_reads_back(pairs);
    scheme::law_scheme_name_reads_back(scheme);
}

/// A device path and a baud rate, joined by a colon or a comma, read back as themselves.
pub proof fn law_serial_body_reads_back(path: Seq<char>, baud: u32)
    requires
        path.len() > 0,
        baud > 0,
    ensures
        ({
            let d = text::decimal_spec(baud as nat);
            &&& serial_body_spec(path.push(':') + d) == Ok::<_, SpecErrorView>((path, baud))
            &&& serial_body_spec(path.push(',') + d) == Ok::<_, SpecErrorView>((path, baud))
        }),
{
    lemma_serial_body(path, ':', baud);
    lemma_serial_body(path, ',', baud);
}

/// With one of the separators.
proof fn lemma_serial_body(path: Seq<char>, separator: char, baud: u32)
    requires
        path.len() > 0,
        baud > 0,
        separator == ':' || separator == ',',
    ensures
        serial_body_spec(path.push(separator) + text::decimal_spec(baud as nat)) == Ok::<
            _,
            SpecErrorView,
        >((path, baud)),
{
    let d = text::decimal_spec(baud as nat);
    let body = path.push(separator) + d;
    let at = path.len() as int;
    text::lemma_decimal_chars(baud as nat);
    text::lemma_unsigned_reads_back(baud as nat, u32::MAX as nat);
    assert forall|j: int| at < j < body.len() implies body[j] != ':' && body[j] != ',' by {
        assert(body[j] == d[j - at - 1]);
    }
    text::lemma_last_index(body, separator, at);
    body.index_of_last_ensures(':');
    body.index_of_last_ensures(',');
    assert(body.take(at) =~= path);
    assert(body.skip(at + 1) =~= d);
}

/// A host without brackets and a port, joined by a colon, read back as themselves; so
/// does a host in brackets, which may hold colons then.
pub proof fn law_host_port_reads_back(host: Seq<char>, port: u16, scheme: Scheme)
    requires
        host.len() > 0,
    ensures
        host[0] != '[' ==> host_port_spec(host.push(':') + text::decimal_spec(port as nat), scheme) == Ok::<
            _,
            SpecErrorView,
        >((host, port)),
        !host.contains(']') ==> host_port_spec(
            seq!['['] + host + seq![']', ':'] + text::decimal_spec(port as nat),
            scheme,
        ) == Ok::<_, SpecErrorView>((host, port)),
{
    let d = text::decimal_spec(port as nat);
    let n = host.len() as int;
    text::lemma_decimal_chars(port as nat);
    text::lemma_unsigned_reads_back(port as nat, u16::MAX as nat);
    if host[0] != '[' {
        let body = host.push(':') + d;
        assert forall|j: int| n < j < body.len() implies body[j] != ':' by {
            assert(body[j] == d[j - n - 1]);
        }
        text::lemma_last_index(body, ':', n);
        assert(body[0] == host[0]);
        assert(body.take(n) =~= host);
        assert(body.skip(n + 1) =~= d);
    }
    if !host.contains(']') {
        let body = seq!['['] + host + seq![']', ':'] + d;
        let rest = body.skip(1);
        assert(rest =~= host + seq![']', ':'] + d);
        assert forall|j: int| 0 <= j < n implies rest[j] != ']' by {
            assert(rest[j] == host[j]);
        }
        assert(rest[n] == ']');
        text::lemma_first_index(rest, ']', n);
        assert(rest.take(n) =~= host);
        let after = rest.skip(n + 1);
        assert(after =~= seq![':'] + d);
        assert(after[0] == ':');
        assert(after.skip(1) =~= d);
    }
}

/// Without a name, without settings, or without either, a text describes the endpoint that
/// the rest of it builds.
pub proof fn law_parts_may_be_left_out(
    scheme: Scheme,
    body: Seq<char>,
    name: Seq<char>,
    pairs: Seq<(Seq<char>, Seq<char>)>,
)
    requires
        !body.contains('#'),
        !body.contains('?'),
        !name.contains('?'),
        query::keys_unique(pairs),
        forall|i: int| 0 <= i < pairs.len() ==> query::is_writable(#[trigger] pairs[i]),
        !query::query_text(pairs).contains('#'),
    ensures
        endpoint_spec(scheme.text().push(':') + body) == build_spec(
            scheme,
            body,
            None,
            Seq::empty(),
        ),
        endpoint_spec(scheme.text().push(':') + body.push('#') + name) == build_spec(
            scheme,
            body,
            Some(name),
            Seq::empty(),
        ),
        endpoint_spec(scheme.text().push(':') + body.push('?') + query::query_text(pairs))
            == build_spec(scheme, body, None, pairs),
{
    let empty = Seq::<(Seq<char>, Seq<char>)>::empty();
    let query = query::query_text(pairs);
    query::law_query_reads_back(pairs);
    query::law_query_reads_back(empty);
    assert(query::query_text(empty) =~= Seq::empty());
    let rest = body;
    lemma_head(scheme, rest);
    rest.index_of_first_ensures('#');
    rest.index_of_first_ensures('?');
    let rest = body.push('#') + name;
    assert(scheme.text().push(':') + body.push('#') + name =~= scheme.text().push(':') + rest);
    lemma_head(scheme, rest);
    let b = body.len() as int;
    assert forall|j: int| 0 <= j < b implies rest[j] != '#' by {
        assert(rest[j] == body[j]);
    }
    text::lemma_first_index(rest, '#', b);
    assert(rest.take(b) =~= body);
    assert(rest.skip(b + 1) =~= name);
    name.index_of_first_ensures('?');
    let rest = body.push('?') + query;
    assert(scheme.text().push(':') + body.push('?') + query =~= scheme.text().push(':') + rest);
    lemma_head(scheme, rest);
    assert forall|j: int| 0 <= j < rest.len() implies rest[j] != '#' by {
        if j < b {
            assert(rest[j] == body[j]);
        } else if j > b {
            assert(rest[j] == query[j - b - 1]);
        }
    }
    rest.index_of_first_ensures('#');
    assert forall|j: int| 0 <= j < b implies rest[j] != '?' by {
        assert(rest[j] == body[j]);
    }
    text::lemma_first_index(rest, '?', b);
    assert(rest.take(b) =~= body);
    assert(rest.skip(b + 1) =~= query);
}

/// The scheme at the beginning of a text.
proof fn lemma_head(scheme: Scheme, rest: Seq<char>)
    ensures
        text::split_once_spec(scheme.text().push(':') + rest, ':') == Some((scheme.text(), rest)),
        scheme::scheme_spec(scheme.text()) == Some(scheme),
        scheme.text().len() > 0,
{
    reveal_strlit("serial");
    reveal_strlit("udps");
    reveal_strlit("udpc");
    reveal_strlit("tcps");
    reveal_strlit("tcpc");
    let head = scheme.text();
    let input = head.push(':') + rest;
    let n = head.len() as int;
    assert forall|j: int| 0 <= j < n implies input[j] != ':' by {
        assert(input[j] == head[j]);
    }
    text::lemma_first_index(input, ':', n);
    assert(input.take(n) =~= head);
    assert(input.skip(n + 1) =~= rest);
    scheme::law_scheme_name_reads_back(scheme);
}

/// A question mark before the name is refused, whatever the rest of the text is.
pub proof fn law_settings_follow_the_name(scheme: Scheme, body: Seq<char>, rest: Seq<char>)
    requires
        body.contains('?'),
        !body.contains('#'),
    ensures
        endpoint_spec(scheme.text().push(':') + body.push('#') + rest) matches Err(e)
            && e is MalformedQuery,
{
    let after = body.push('#') + rest;
    assert(scheme.text().push(':') + body.push('#') + rest =~= scheme.text().push(':') + after);
    lemma_head(scheme, after);
    let b = body.len() as int;
    assert forall|j: int| 0 <= j < b implies after[j] != '#' by {
        assert(after[j] == body[j]);
    }
    text::lemma_first_index(after, '#', b);
    assert(after.take(b) =~= body);
}

/// A name that is not 1 to 64 letters, digits, underscores and hyphens is refused.
pub proof fn law_bad_names_are_refused(
    scheme: Scheme,
    body: Seq<char>,
    name: Seq<char>,
    pairs: Seq<(Seq<char>, Seq<char>)>,
)
    ensures
        build_spec(scheme, body, Some(name), pairs) matches Ok(s) ==> s.name == name && 1
            <= name.len() <= 64 && names::is_name_text(name),
        kind_spec(scheme, body, pairs) is Ok && !names::is_name(name) ==> build_spec(
            scheme,
            body,
            Some(name),
            pairs,
        ) == Err::<EndpointSpecView, _>(SpecErrorView::InvalidName(name)),
{
}

/// A `serial:` endpoint without settings: the device and the speed that it was given, no flow
/// control, no filters, no group, no sniffer, and the default queue.
pub proof fn law_plain_serial_endpoint(path: Seq<char>, baud: u32)
    requires
        path.len() > 0,
        baud > 0,
    ensures
        kind_spec(
            Scheme::Serial,
            path.push(':') + text::decimal_spec(baud as nat),
            Seq::empty(),
        ) == Ok::<_, SpecErrorView>(
            EndpointKindView::Serial(
                SerialView {
                    path,
                    baud,
                    flow_control: SerialFlowControl::Off,
                    identity: IdentityView::plain(),
                    common: CommonQuery { tx_queue_frames: None, read_buf_bytes: None },
                },
            ),
        ),
{
    law_serial_body_reads_back(path, baud);
}

/// A `udpc:` or `tcpc:` endpoint without settings: the host and the port that it was given,
/// and nothing else.
pub proof fn law_plain_client_endpoint(host: Seq<char>, port: u16)
    requires
        host.len() > 0,
        host[0] != '[',
    ensures
        ({
            let body = host.push(':') + text::decimal_spec(port as nat);
            &&& kind_spec(Scheme::UdpClient, body, Seq::empty()) == Ok::<_, SpecErrorView>(
                EndpointKindView::UdpClient(
                    UdpClientView {
                        host,
                        port,
                        latch_idle_secs: None,
                        identity: IdentityView::plain(),
                        common: CommonQuery { tx_queue_frames: None, read_buf_bytes: None },
                    },
                ),
            )
            &&& kind_spec(Scheme::TcpClient, body, Seq::empty()) == Ok::<_, SpecErrorView>(
                EndpointKindView::TcpClient(
                    TcpClientView {
                        host,
                        port,
                        reconnect_initial_ms: None,
                        reconnect_max_ms: None,
                        identity: IdentityView::plain(),
                        common: CommonQuery { tx_queue_frames: None, read_buf_bytes: None },
                    },
                ),
            )
        }),
{
    law_host_port_reads_back(host, port, Scheme::UdpClient);
    law_host_port_reads_back(host, port, Scheme::TcpClient);
}

/// A `udps:` or `tcps:` endpoint without settings: it listens at the address and the port that
/// it was given; a host that is no address is refused.
pub proof fn law_plain_listener_endpoint(ip: Ipv4Addr, host: Seq<char>, port: u16)
    requires
        host.len() > 0,
        host[0] != '[',
    ensures
        ({
            let body = addr::ipv4_text(ip).push(':') + text::decimal_spec(port as nat);
            &&& kind_spec(Scheme::UdpServer, body, Seq::empty()) == Ok::<_, SpecErrorView>(
                EndpointKindView::UdpServer(
                    UdpServerView {
                        bind_addr: SocketAddr::V4 { ip, port },
                        idle_secs: None,
                        identity: IdentityView::plain(),
                        common: CommonQuery { tx_queue_frames: None, read_buf_bytes: None },
                    },
                ),
            )
            &&& kind_spec(Scheme::TcpServer, body, Seq::empty()) == Ok::<_, SpecErrorView>(
                EndpointKindView::TcpServer(
                    TcpServerView {
                        bind_addr: SocketAddr::V4 { ip, port },
                        identity: IdentityView::plain(),
                        common: CommonQuery { tx_queue_frames: None, read_buf_bytes: None },
                    },
                ),
            )
        }),
        ({
            let body = host.push(':') + text::decimal_spec(port as nat);
            addr::ip_text_spec(host) is None ==> kind_spec(Scheme::UdpServer, body, Seq::empty()) is Err
                && kind_spec(Scheme::TcpServer, body, Seq::empty()) is Err
        }),
{
    let t = addr::ipv4_text(ip);
    addr::law_ipv4_text_reads_back(ip);
    text::lemma_decimal_chars(ip.a as nat);
    assert(t[0] == text::decimal_spec(ip.a as nat)[0]);
    law_host_port_reads_back(t, port, Scheme::UdpServer);
    law_host_port_reads_back(t, port, Scheme::TcpServer);
    law_host_port_reads_back(host, port, Scheme::UdpServer);
    law_host_port_reads_back(host, port, Scheme::TcpServer);
}

/// The automatic name: the scheme, the device or the address, and the speed or the port, with
/// hyphens between them.
pub proof fn law_automatic_name(kind: EndpointKindView)
    ensures
        kind matches EndpointKindView::Serial(e) ==> kind.default_name() == "serial"@ + seq!['-']
            + names::sanitized(e.path) + seq!['-'] + text::decimal_spec(e.baud as nat),
        kind matches EndpointKindView::UdpClient(e) ==> kind.default_name() == "udpc"@ + seq!['-']
            + names::sanitized(e.host) + seq!['-'] + text::decimal_spec(e.port as nat),
        kind matches EndpointKindView::TcpClient(e) ==> kind.default_name() == "tcpc"@ + seq!['-']
            + names::sanitized(e.host) + seq!['-'] + text::decimal_spec(e.port as nat),
        kind matches EndpointKindView::UdpServer(e) ==> (e.bind_addr matches SocketAddr::V4 {
            ip,
            port,
        } ==> kind.default_name() == "udps"@ + seq!['-'] + names::sanitized(addr::ipv4_text(ip))
            + seq!['-'] + text::decimal_spec(port as nat)),
        kind matches EndpointKindView::TcpServer(e) ==> (e.bind_addr matches SocketAddr::V4 {
            ip,
            port,
        } ==> kind.default_name() == "tcps"@ + seq!['-'] + names::sanitized(addr::ipv4_text(ip))
            + seq!['-'] + text::decimal_spec(port as nat)),
{
    reveal_strlit("-");
    assert("-"@ =~= seq!['-']);
}

} // verus!
