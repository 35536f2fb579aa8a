//! Endpoints as one line of text for logs. Settings at their default are left out.

use vstd::prelude::*;
use vstd::string::StringExecFns;

use crate::addr;
use crate::endpoint::filters::{Filters, FiltersView, MsgIdRange, U8Range};
use crate::endpoint::identity_flags::{IdentityFlags, IdentityView};
use crate::endpoint::spec::endpoint_kinds::{
    EndpointKind, EndpointKindView, SerialEndpoint, SerialFlowControl, SerialView,
    TcpClientEndpoint, TcpClientView, TcpServerEndpoint, TcpServerView, UdpClientEndpoint,
    UdpClientView, UdpServerEndpoint, UdpServerView,
};
use crate::text;
use crate::text::{decimal, list_strings};

verus! {

// ---------------------------------------------------------------- pieces

/// A text in quotes, as `Debug` of `str` writes it: quotes, backslashes and characters
/// that do not print are escaped.
pub uninterp spec fn quoted(s: Seq<char>) -> Seq<char>;

/// `Debug` of `str`, through `format!`. Nothing is claimed but that the result is a
/// function of the text.
#[verifier::external_body]
fn quote(s: &str) -> (r: String)
    ensures
        r@ == quoted(s@),
{
    format!("{:?}", s)
}

/// A record: its name, and its fields in braces where it has any.
pub open spec fn record_text(name: Seq<char>, fields: Seq<Seq<char>>) -> Seq<char> {
    if fields.len() == 0 {
        name
    } else {
        name + " { "@ + text::listed(fields) + " }"@
    }
}

/// Write a record.
fn record(name: &str, fields: &[String]) -> (r: String)
    ensures
        r@ == record_text(name@, text::texts(fields@)),
{
    if fields.len() == 0 {
        String::from_str(name)
    } else {
        String::from_str(name).concat(" { ").concat(list_strings(fields).as_str()).concat(" }")
    }
}

/// A field of a record.
pub open spec fn field_text(name: Seq<char>, value: Seq<char>) -> Seq<char> {
    name + ": "@ + value
}

/// Append a field.
fn push_field(fields: &mut Vec<String>, name: &str, value: &str)
    ensures
        text::texts(final(fields)@) == text::texts(old(fields)@).push(field_text(name@, value@)),
{
    let ghost before = text::texts(fields@);
    fields.push(String::from_str(name).concat(": ").concat(value));
    assert(text::texts(fields@) =~= before.push(field_text(name@, value@)));
}

/// A list in brackets.
pub open spec fn list_text(items: Seq<Seq<char>>) -> Seq<char> {
    "["@ + text::listed(items) + "]"@
}

/// A field that holds a list; left out where the list is empty.
pub open spec fn list_field(name: Seq<char>, items: Seq<Seq<char>>) -> Seq<Seq<char>> {
    if items.len() == 0 {
        Seq::empty()
    } else {
        seq![field_text(name, list_text(items))]
    }
}

/// Append a field that holds a list, unless it is empty.
fn push_list(fields: &mut Vec<String>, name: &str, items: &[String])
    ensures
        text::texts(final(fields)@) == text::texts(old(fields)@) + list_field(
            name@,
            text::texts(items@),
        ),
{
    if items.len() > 0 {
        let value = String::from_str("[").concat(list_strings(items).as_str()).concat("]");
        push_field(fields, name, value.as_str());
    }
    assert(text::texts(fields@) =~= text::texts(old(fields)@) + list_field(
        name@,
        text::texts(items@),
    ));
}

/// A field that holds a number; left out where there is none.
pub open spec fn number_field(name: Seq<char>, value: Option<u64>) -> Seq<Seq<char>> {
    match value {
        Some(n) => seq![field_text(name, text::decimal_spec(n as nat))],
        None => Seq::empty(),
    }
}

/// Append a field that holds a number, if there is one.
fn push_number(fields: &mut Vec<String>, name: &str, value: Option<u64>)
    ensures
        text::texts(final(fields)@) == text::texts(old(fields)@) + number_field(name@, value),
{
    match value {
        Some(n) => {
            push_field(fields, name, decimal(n).as_str());
        },
        None => {},
    }
    assert(text::texts(fields@) =~= text::texts(old(fields)@) + number_field(name@, value));
}

// ---------------------------------------------------------------- filters

/// A range of message ids.
pub open spec fn msgid_range_text(r: MsgIdRange) -> Seq<char> {
    record_text(
        "MsgIdRange"@,
        seq![
            field_text("lo"@, text::decimal_spec(r.lo as nat)),
            field_text("hi"@, text::decimal_spec(r.hi as nat)),
        ],
    )
}

/// A range of system or component ids.
pub open spec fn u8_range_text(r: U8Range) -> Seq<char> {
    record_text(
        "U8Range"@,
        seq![
            field_text("lo"@, text::decimal_spec(r.lo as nat)),
            field_text("hi"@, text::decimal_spec(r.hi as nat)),
        ],
    )
}

/// Ranges of message ids.
pub open spec fn msgid_texts(v: Seq<MsgIdRange>) -> Seq<Seq<char>> {
    Seq::new(v.len(), |i: int| msgid_range_text(v[i]))
}

/// Ranges of system or component ids.
pub open spec fn u8_texts(v: Seq<U8Range>) -> Seq<Seq<char>> {
    Seq::new(v.len(), |i: int| u8_range_text(v[i]))
}

/// Endpoint names in quotes.
pub open spec fn name_texts(v: Seq<Seq<char>>) -> Seq<Seq<char>> {
    Seq::new(v.len(), |i: int| quoted(v[i]))
}

/// Write a range.
fn range(name: &str, lo: u64, hi: u64) -> (r: String)
    ensures
        r@ == record_text(
            name@,
            seq![
                field_text("lo"@, text::decimal_spec(lo as nat)),
                field_text("hi"@, text::decimal_spec(hi as nat)),
            ],
        ),
{
    let mut fields: Vec<String> = Vec::new();
    assert(text::texts(fields@) =~= Seq::empty());
    push_field(&mut fields, "lo", decimal(lo).as_str());
    push_field(&mut fields, "hi", decimal(hi).as_str());
    assert(text::texts(fields@) =~= seq![
        field_text("lo"@, text::decimal_spec(lo as nat)),
        field_text("hi"@, text::decimal_spec(hi as nat)),
    ]);
    record(name, &fields)
}

/// Write ranges of message ids.
fn msgid_list(v: &[MsgIdRange]) -> (r: Vec<String>)
    ensures
        text::texts(r@) == msgid_texts(v@),
{
    let mut out: Vec<String> = Vec::new();
    let mut i: usize = 0;
    while i < v.len()
        invariant
            i <= v@.len(),
            out@.len() == i,
            forall|j: int| 0 <= j < i ==> (#[trigger] out@[j])@ == msgid_range_text(v@[j]),
        decreases v@.len() - i,
    {
        out.push(range("MsgIdRange", v[i].lo as u64, v[i].hi as u64));
        i = i + 1;
    }
    assert(text::texts(out@) =~= msgid_texts(v@));
    out
}

/// Write ranges of system or component ids.
fn u8_list(v: &[U8Range]) -> (r: Vec<String>)
    ensures
        text::texts(r@) == u8_texts(v@),
{
    let mut out: Vec<String> = Vec::new();
    let mut i: usize = 0;
    while i < v.len()
        invariant
            i <= v@.len(),
            out@.len() == i,
            forall|j: int| 0 <= j < i ==> (#[trigger] out@[j])@ == u8_range_text(v@[j]),
        decreases v@.len() - i,
    {
        out.push(range("U8Range", v[i].lo as u64, v[i].hi as u64));
        i = i + 1;
    }
    assert(text::texts(out@) =~= u8_texts(v@));
    out
}

/// Write endpoint names in quotes.
fn name_list(v: &[String]) -> (r: Vec<String>)
    ensures
        text::texts(r@) == name_texts(text::texts(v@)),
{
    let mut out: Vec<String> = Vec::new();
    let mut i: usize = 0;
    while i < v.len()
        invariant
            i <= v@.len(),
            out@.len() == i,
            forall|j: int| 0 <= j < i ==> (#[trigger] out@[j])@ == quoted(v@[j]@),
        decreases v@.len() - i,
    {
        out.push(quote(v[i].as_str()));
        i = i + 1;
    }
    assert(text::texts(out@) =~= name_texts(text::texts(v@)));
    out
}

/// The lists that are not empty.
pub open spec fn filter_fields(f: FiltersView) -> Seq<Seq<char>> {
    list_field("allow_msgid_in"@, msgid_texts(f.allow_msgid_in))
        + list_field("block_msgid_in"@, msgid_texts(f.block_msgid_in))
        + list_field("allow_msgid_out"@, msgid_texts(f.allow_msgid_out))
        + list_field("block_msgid_out"@, msgid_texts(f.block_msgid_out))
        + list_field("allow_src_sys_in"@, u8_texts(f.allow_src_sys_in))
        + list_field("block_src_sys_in"@, u8_texts(f.block_src_sys_in))
        + list_field("allow_src_sys_out"@, u8_texts(f.allow_src_sys_out))
        + list_field("block_src_sys_out"@, u8_texts(f.block_src_sys_out))
        + list_field("allow_src_comp_in"@, u8_texts(f.allow_src_comp_in))
        + list_field("block_src_comp_in"@, u8_texts(f.block_src_comp_in))
        + list_field("allow_src_comp_out"@, u8_texts(f.allow_src_comp_out))
        + list_field("block_src_comp_out"@, u8_texts(f.block_src_comp_out))
        + list_field("allow_src_endpoint_out"@, name_texts(f.allow_src_endpoint_out))
        + list_field("block_src_endpoint_out"@, name_texts(f.block_src_endpoint_out))
}

/// The filters of an endpoint.
pub open spec fn filters_text(f: FiltersView) -> Seq<char> {
    record_text("Filters"@, filter_fields(f))
}

impl Filters {
    /// The lists that are not empty.
    pub fn describe(&self) -> (r: String)
        ensures
            r@ == filters_text(self@),
    {
        let mut fields: Vec<String> = Vec::new();
        push_list(&mut fields, "allow_msgid_in", &msgid_list(&self.allow_msgid_in));
        push_list(&mut fields, "block_msgid_in", &msgid_list(&self.block_msgid_in));
        push_list(&mut fields, "allow_msgid_out", &msgid_list(&self.allow_msgid_out));
        push_list(&mut fields, "block_msgid_out", &msgid_list(&self.block_msgid_out));
        push_list(&mut fields, "allow_src_sys_in", &u8_list(&self.allow_src_sys_in));
        push_list(&mut fields, "block_src_sys_in", &u8_list(&self.block_src_sys_in));
        push_list(&mut fields, "allow_src_sys_out", &u8_list(&self.allow_src_sys_out));
        push_list(&mut fields, "block_src_sys_out", &u8_list(&self.block_src_sys_out));
        push_list(&mut fields, "allow_src_comp_in", &u8_list(&self.allow_src_comp_in));
        push_list(&mut fields, "block_src_comp_in", &u8_list(&self.block_src_comp_in));
        push_list(&mut fields, "allow_src_comp_out", &u8_list(&self.allow_src_comp_out));
        push_list(&mut fields, "block_src_comp_out", &u8_list(&self.block_src_comp_out));
        push_list(&mut fields, "allow_src_endpoint_out", &name_list(&self.allow_src_endpoint_out));
        push_list(&mut fields, "block_src_endpoint_out", &name_list(&self.block_src_endpoint_out));
        assert(text::texts(fields@) =~= filter_fields(self@));
        record("Filters", &fields)
    }

    /// Whether every list is empty.
    pub fn is_unrestricted(&self) -> (r: bool)
        ensures
            r == (self@ == FiltersView::unrestricted()),
    {
        let r = self.allow_msgid_in.is_empty()
            && self.block_msgid_in.is_empty()
            && self.allow_msgid_out.is_empty()
            && self.block_msgid_out.is_empty()
            && self.allow_src_sys_in.is_empty()
            && self.block_src_sys_in.is_empty()
            && self.allow_src_sys_out.is_empty()
            && self.block_src_sys_out.is_empty()
            && self.allow_src_comp_in.is_empty()
            && self.block_src_comp_in.is_empty()
            && self.allow_src_comp_out.is_empty()
            && self.block_src_comp_out.is_empty()
            && self.allow_src_endpoint_out.is_empty()
            && self.block_src_endpoint_out.is_empty();
        proof {
            let f = self@;
            assert(f.allow_src_endpoint_out.len() == self.allow_src_endpoint_out@.len());
            assert(f.block_src_endpoint_out.len() == self.block_src_endpoint_out@.len());
            if r {
                assert(f =~= FiltersView::unrestricted());
            }
        }
        r
    }
}

// ---------------------------------------------------------------- identity

/// The settings that are not at their default.
pub open spec fn identity_fields(i: IdentityView) -> Seq<Seq<char>> {
    (if i.filters != FiltersView::unrestricted() {
        seq![field_text("filters"@, filters_text(i.filters))]
    } else {
        Seq::empty()
    }) + (if i.sniffer {
        seq![field_text("sniffer"@, "true"@)]
    } else {
        Seq::empty()
    }) + (match i.group {
        Some(g) => seq![field_text("group"@, quoted(g))],
        None => Seq::empty(),
    })
}

/// The identity of an endpoint.
pub open spec fn identity_text(i: IdentityView) -> Seq<char> {
    record_text("IdentityFlags"@, identity_fields(i))
}

impl IdentityFlags {
    /// The settings that are not at their default.
    fn described_fields(&self) -> (r: Vec<String>)
        ensures
            text::texts(r@) == identity_fields(self@),
    {
        let mut fields: Vec<String> = Vec::new();
        if !self.filters.is_unrestricted() {
            push_field(&mut fields, "filters", self.filters.describe().as_str());
        }
        if self.sniffer {
            push_field(&mut fields, "sniffer", "true");
        }
        match &self.group {
            Some(g) => {
                push_field(&mut fields, "group", quote(g.as_str()).as_str());
            },
            None => {},
        }
        assert(text::texts(fields@) =~= identity_fields(self@));
        fields
    }

    /// The settings that are not at their default.
    pub fn describe(&self) -> (r: String)
        ensures
            r@ == identity_text(self@),
    {
        record("IdentityFlags", &self.described_fields())
    }
}

/// The identity as a field; left out where it is plain.
pub open spec fn identity_field(i: IdentityView) -> Seq<Seq<char>> {
    if identity_fields(i).len() == 0 {
        Seq::empty()
    } else {
        seq![field_text("identity"@, identity_text(i))]
    }
}

/// Append the identity, unless it is plain.
fn push_identity(fields: &mut Vec<String>, identity: &IdentityFlags)
    ensures
        text::texts(final(fields)@) == text::texts(old(fields)@) + identity_field(identity@),
{
    let own: Vec<String> = identity.described_fields();
    assert(own@.len() == text::texts(own@).len());
    if own.len() > 0 {
        push_field(fields, "identity", identity.describe().as_str());
    }
    assert(text::texts(fields@) =~= text::texts(old(fields)@) + identity_field(identity@));
}

/// A plain identity is the one that is left out.
pub proof fn law_plain_identity_is_left_out(i: IdentityView)
    ensures
        identity_field(i).len() == 0 <==> i == IdentityView::plain(),
{
}

// ---------------------------------------------------------------- endpoints

/// The depth of the queue, where it was set.
pub open spec fn queue_field(frames: Option<usize>) -> Seq<Seq<char>> {
    number_field(
        "tx_queue_frames"@,
        match frames {
            Some(n) => Some(n as u64),
            None => None,
        },
    )
}

/// Append the depth of the queue, where it was set.
fn push_queue(fields: &mut Vec<String>, frames: Option<usize>)
    ensures
        text::texts(final(fields)@) == text::texts(old(fields)@) + queue_field(frames),
{
    let value: Option<u64> = match frames {
        Some(n) => Some(n as u64),
        None => None,
    };
    push_number(fields, "tx_queue_frames", value);
}

/// A `serial:` endpoint.
#[verifier::opaque]
pub open spec fn serial_text(e: SerialView) -> Seq<char> {
    record_text(
        "SerialEndpoint"@,
        seq![
            field_text("path"@, quoted(e.path)),
            field_text("baud"@, text::decimal_spec(e.baud as nat)),
        ] + (match e.flow_control {
            SerialFlowControl::Off => Seq::empty(),
            SerialFlowControl::RtsCts => seq![field_text("flow_control"@, "RtsCts"@)],
        }) + queue_field(e.common.tx_queue_frames) + identity_field(e.identity),
    )
}

/// A listener.
pub open spec fn listener_fields(bind_addr: addr::SocketAddr) -> Seq<Seq<char>> {
    seq![field_text("bind_addr"@, addr::socket_text(bind_addr))]
}

/// A host to talk to.
pub open spec fn host_fields(host: Seq<char>, port: u16) -> Seq<Seq<char>> {
    seq![
        field_text("host"@, quoted(host)),
        field_text("port"@, text::decimal_spec(port as nat)),
    ]
}

/// A `udps:` endpoint.
#[verifier::opaque]
pub open spec fn udp_server_text(e: UdpServerView) -> Seq<char> {
    record_text(
        "UdpServerEndpoint"@,
        listener_fields(e.bind_addr) + number_field("idle_secs"@, e.idle_secs) + queue_field(
            e.common.tx_queue_frames,
        ) + identity_field(e.identity),
    )
}

/// A `udpc:` endpoint.
#[verifier::opaque]
pub open spec fn udp_client_text(e: UdpClientView) -> Seq<char> {
    record_text(
        "UdpClientEndpoint"@,
        host_fields(e.host, e.port) + number_field("latch_idle_secs"@, e.latch_idle_secs)
            + queue_field(e.common.tx_queue_frames) + identity_field(e.identity),
    )
}

/// A `tcps:` endpoint.
#[verifier::opaque]
pub open spec fn tcp_server_text(e: TcpServerView) -> Seq<char> {
    record_text(
        "TcpServerEndpoint"@,
        listener_fields(e.bind_addr) + queue_field(e.common.tx_queue_frames) + identity_field(
            e.identity,
        ),
    )
}

/// A `tcpc:` endpoint.
#[verifier::opaque]
pub open spec fn tcp_client_text(e: TcpClientView) -> Seq<char> {
    record_text(
        "TcpClientEndpoint"@,
        host_fields(e.host, e.port) + queue_field(e.common.tx_queue_frames) + identity_field(
            e.identity,
        ),
    )
}

/// An endpoint.
pub open spec fn kind_text(kind: EndpointKindView) -> Seq<char> {
    match kind {
        EndpointKindView::Serial(e) => serial_text(e),
        EndpointKindView::UdpServer(e) => udp_server_text(e),
        EndpointKindView::UdpClient(e) => udp_client_text(e),
        EndpointKindView::TcpServer(e) => tcp_server_text(e),
        EndpointKindView::TcpClient(e) => tcp_client_text(e),
    }
}

/// Start with a host to talk to.
fn host_start(host: &str, port: u16) -> (r: Vec<String>)
    ensures
        text::texts(r@) == host_fields(host@, port),
{
    let mut fields: Vec<String> = Vec::new();
    push_field(&mut fields, "host", quote(host).as_str());
    push_field(&mut fields, "port", decimal(port as u64).as_str());
    assert(text::texts(fields@) =~= host_fields(host@, port));
    fields
}

/// Start with an address to listen at.
fn listener_start(bind_addr: addr::SocketAddr) -> (r: Vec<String>)
    ensures
        text::texts(r@) == listener_fields(bind_addr),
{
    let mut fields: Vec<String> = Vec::new();
    push_field(&mut fields, "bind_addr", bind_addr.to_text().as_str());
    assert(text::texts(fields@) =~= listener_fields(bind_addr));
    fields
}

impl SerialEndpoint {
    /// The endpoint as text.
    pub fn describe(&self) -> (r: String)
        ensures
            r@ == serial_text(self@),
    {
        reveal(serial_text);
        let mut fields: Vec<String> = Vec::new();
        push_field(&mut fields, "path", quote(self.path.as_str()).as_str());
        push_field(&mut fields, "baud", decimal(self.baud as u64).as_str());
        let ghost start = seq![
            field_text("path"@, quoted(self.path@)),
            field_text("baud"@, text::decimal_spec(self.baud as nat)),
        ];
        assert(text::texts(fields@) =~= start);
        match self.flow_control {
            SerialFlowControl::Off => {
                assert(start + Seq::empty() =~= start);
            },
            SerialFlowControl::RtsCts => {
                push_field(&mut fields, "flow_control", "RtsCts");
                assert(text::texts(fields@) =~= start + seq![
                    field_text("flow_control"@, "RtsCts"@),
                ]);
            },
        }
        push_queue(&mut fields, self.common.tx_queue_frames);
        push_identity(&mut fields, &self.identity);
        record("SerialEndpoint", &fields)
    }
}

impl UdpServerEndpoint {
    /// The endpoint as text.
    pub fn describe(&self) -> (r: String)
        ensures
            r@ == udp_server_text(self@),
    {
        reveal(udp_server_text);
        let mut fields: Vec<String> = listener_start(self.bind_addr);
        push_number(&mut fields, "idle_secs", self.idle_secs);
        push_queue(&mut fields, self.common.tx_queue_frames);
        push_identity(&mut fields, &self.identity);
        record("UdpServerEndpoint", &fields)
    }
}

impl UdpClientEndpoint {
    /// The endpoint as text.
    pub fn describe(&self) -> (r: String)
        ensures
            r@ == udp_client_text(self@),
    {
        reveal(udp_client_text);
        let mut fields: Vec<String> = host_start(self.host.as_str(), self.port);
        push_number(&mut fields, "latch_idle_secs", self.latch_idle_secs);
        push_queue(&mut fields, self.common.tx_queue_frames);
        push_identity(&mut fields, &self.identity);
        record("UdpClientEndpoint", &fields)
    }
}

impl TcpServerEndpoint {
    /// The endpoint as text.
    pub fn describe(&self) -> (r: String)
        ensures
            r@ == tcp_server_text(self@),
    {
        reveal(tcp_server_text);
        let mut fields: Vec<String> = listener_start(self.bind_addr);
        push_queue(&mut fields, self.common.tx_queue_frames);
        push_identity(&mut fields, &self.identity);
        record("TcpServerEndpoint", &fields)
    }
}

impl TcpClientEndpoint {
    /// The endpoint as text.
    pub fn describe(&self) -> (r: String)
        ensures
            r@ == tcp_client_text(self@),
    {
        reveal(tcp_client_text);
        let mut fields: Vec<String> = host_start(self.host.as_str(), self.port);
        push_queue(&mut fields, self.common.tx_queue_frames);
        push_identity(&mut fields, &self.identity);
        record("TcpClientEndpoint", &fields)
    }
}

impl EndpointKind {
    /// The endpoint as text.
    pub fn describe(&self) -> (r: String)
        ensures
            r@ == kind_text(self@),
    {
        match self {
            EndpointKind::Serial(e) => e.describe(),
            EndpointKind::UdpServer(e) => e.describe(),
            EndpointKind::UdpClient(e) => e.describe(),
            EndpointKind::TcpServer(e) => e.describe(),
            EndpointKind::TcpClient(e) => e.describe(),
        }
    }
}

/// One more list.
proof fn lemma_list_field(
    fields: Seq<Seq<char>>,
    name: Seq<char>,
    items: Seq<Seq<char>>,
    field: Seq<char>,
)
    ensures
        (fields + list_field(name, items)).contains(field) <==> fields.contains(field) || (
        items.len() > 0 && field == field_text(name, list_text(items))),
{
    let all = fields + list_field(name, items);
    if fields.contains(field) {
        assert(all[fields.index_of(field)] == field);
    }
    if items.len() > 0 {
        assert(all[fields.len() as int] == field_text(name, list_text(items)));
    }
    if all.contains(field) {
        let i = all.index_of(field);
        if i < fields.len() {
            assert(fields[i] == field);
        }
    }
}

/// Every filter list that is not empty is told under its own name, and no other is told.
pub proof fn law_lists_are_told_under_their_names(f: FiltersView, field: Seq<char>)
    ensures
        filter_fields(f).contains(field) <==> {
            ||| f.allow_msgid_in.len() > 0 && field == "allow_msgid_in"@ + ": "@ + list_text(
                msgid_texts(f.allow_msgid_in),
            )
            ||| f.block_msgid_in.len() > 0 && field == "block_msgid_in"@ + ": "@ + list_text(
                msgid_texts(f.block_msgid_in),
            )
            ||| f.allow_msgid_out.len() > 0 && field == "allow_msgid_out"@ + ": "@ + list_text(
                msgid_texts(f.allow_msgid_out),
            )
            ||| f.block_msgid_out.len() > 0 && field == "block_msgid_out"@ + ": "@ + list_text(
                msgid_texts(f.block_msgid_out),
            )
            ||| f.allow_src_sys_in.len() > 0 && field == "allow_src_sys_in"@ + ": "@ + list_text(
                u8_texts(f.allow_src_sys_in),
            )
            ||| f.block_src_sys_in.len() > 0 && field == "block_src_sys_in"@ + ": "@ + list_text(
                u8_texts(f.block_src_sys_in),
            )
            ||| f.allow_src_sys_out.len() > 0 && field == "allow_src_sys_out"@ + ": "@ + list_text(
                u8_texts(f.allow_src_sys_out),
            )
            ||| f.block_src_sys_out.len() > 0 && field == "block_src_sys_out"@ + ": "@ + list_text(
                u8_texts(f.block_src_sys_out),
            )
            ||| f.allow_src_comp_in.len() > 0 && field == "allow_src_comp_in"@ + ": "@ + list_text(
                u8_texts(f.allow_src_comp_in),
            )
            ||| f.block_src_comp_in.len() > 0 && field == "block_src_comp_in"@ + ": "@ + list_text(
                u8_texts(f.block_src_comp_in),
            )
            ||| f.allow_src_comp_out.len() > 0 && field == "allow_src_comp_out"@ + ": "@ + list_text(
                u8_texts(f.allow_src_comp_out),
            )
            ||| f.block_src_comp_out.len() > 0 && field == "block_src_comp_out"@ + ": "@ + list_text(
                u8_texts(f.block_src_comp_out),
            )
            ||| f.allow_src_endpoint_out.len() > 0 && field == "allow_src_endpoint_out"@ + ": "@ + list_text(
                name_texts(f.allow_src_endpoint_out),
            )
            ||| f.block_src_endpoint_out.len() > 0 && field == "block_src_endpoint_out"@ + ": "@ + list_text(
                name_texts(f.block_src_endpoint_out),
            )
        },
{
    let p0 = Seq::<Seq<char>>::empty();
    lemma_list_field(p0, "allow_msgid_in"@, msgid_texts(f.allow_msgid_in), field);
    let p1 = list_field("allow_msgid_in"@, msgid_texts(f.allow_msgid_in));
    assert(p0 + p1 =~= p1);
    lemma_list_field(p1, "block_msgid_in"@, msgid_texts(f.block_msgid_in), field);
    let p2 = p1 + list_field("block_msgid_in"@, msgid_texts(f.block_msgid_in));
    lemma_list_field(p2, "allow_msgid_out"@, msgid_texts(f.allow_msgid_out), field);
    let p3 = p2 + list_field("allow_msgid_out"@, msgid_texts(f.allow_msgid_out));
    lemma_list_field(p3, "block_msgid_out"@, msgid_texts(f.block_msgid_out), field);
    let p4 = p3 + list_field("block_msgid_out"@, msgid_texts(f.block_msgid_out));
    lemma_list_field(p4, "allow_src_sys_in"@, u8_texts(f.allow_src_sys_in), field);
    let p5 = p4 + list_field("allow_src_sys_in"@, u8_texts(f.allow_src_sys_in));
    lemma_list_field(p5, "block_src_sys_in"@, u8_texts(f.block_src_sys_in), field);
    let p6 = p5 + list_field("block_src_sys_in"@, u8_texts(f.block_src_sys_in));
    lemma_list_field(p6, "allow_src_sys_out"@, u8_texts(f.allow_src_sys_out), field);
    let p7 = p6 + list_field("allow_src_sys_out"@, u8_texts(f.allow_src_sys_out));
    lemma_list_field(p7, "block_src_sys_out"@, u8_texts(f.block_src_sys_out), field);
    let p8 = p7 + list_field("block_src_sys_out"@, u8_texts(f.block_src_sys_out));
    lemma_list_field(p8, "allow_src_comp_in"@, u8_texts(f.allow_src_comp_in), field);
    let p9 = p8 + list_field("allow_src_comp_in"@, u8_texts(f.allow_src_comp_in));
    lemma_list_field(p9, "block_src_comp_in"@, u8_texts(f.block_src_comp_in), field);
    let p10 = p9 + list_field("block_src_comp_in"@, u8_texts(f.block_src_comp_in));
    lemma_list_field(p10, "allow_src_comp_out"@, u8_texts(f.allow_src_comp_out), field);
    let p11 = p10 + list_field("allow_src_comp_out"@, u8_texts(f.allow_src_comp_out));
    lemma_list_field(p11, "block_src_comp_out"@, u8_texts(f.block_src_comp_out), field);
    let p12 = p11 + list_field("block_src_comp_out"@, u8_texts(f.block_src_comp_out));
    lemma_list_field(p12, "allow_src_endpoint_out"@, name_texts(f.allow_src_endpoint_out), field);
    let p13 = p12 + list_field("allow_src_endpoint_out"@, name_texts(f.allow_src_endpoint_out));
    lemma_list_field(p13, "block_src_endpoint_out"@, name_texts(f.block_src_endpoint_out), field);
    let p14 = p13 + list_field("block_src_endpoint_out"@, name_texts(f.block_src_endpoint_out));
}

} // verus!
