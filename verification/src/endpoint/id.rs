//! Endpoint ids and the names of learned peers.

use vstd::prelude::*;
use vstd::string::StringExecFns;

use crate::addr;
use crate::addr::SocketAddr;
use crate::text;
use crate::text::decimal;

verus! {

/// Identifies a routing endpoint for as long as the process runs. Ids are not used again.
#[derive(Debug, Clone, Copy, PartialEq, Eq, Hash, PartialOrd, Ord, Structural)]
pub struct EndpointId(pub u64);

impl EndpointId {
    /// The id in decimal.
    pub fn to_text(&self) -> (r: String)
        ensures
            r@ == text::decimal_spec(self.0 as nat),
    {
        decimal(self.0)
    }
}

/// Hands out endpoint ids, counting up from zero.
#[derive(Debug)]
pub struct EndpointIdAllocator {
    next: u64,
}

impl View for EndpointIdAllocator {
    type V = u64;

    /// The id that comes next.
    closed spec fn view(&self) -> u64 {
        self.next
    }
}

impl Default for EndpointIdAllocator {
    fn default() -> (r: Self)
        ensures
            r@ == 0,
    {
        EndpointIdAllocator::new()
    }
}

impl EndpointIdAllocator {
    /// An allocator that starts at zero.
    pub fn new() -> (r: Self)
        ensures
            r@ == 0,
    {
        EndpointIdAllocator { next: 0 }
    }

    /// The next id.
    pub fn allocate(&mut self) -> (r: EndpointId)
        ensures
            r == EndpointId(old(self)@),
            final(self)@ == old(self)@.wrapping_add(1),
    {
        let id: u64 = self.next;
        self.next = id.wrapping_add(1);
        EndpointId(id)
    }
}

/// The allocator after `n` more ids.
pub open spec fn after_allocs(next: u64, n: nat) -> u64
    decreases n,
{
    if n == 0 {
        next
    } else {
        after_allocs(next, (n - 1) as nat).wrapping_add(1)
    }
}

/// Ids do not repeat: as long as fewer than 2^64 have been handed out, the next id
/// differs from every one before.
pub proof fn law_ids_are_unique(next: u64, i: nat, j: nat)
    requires
        i < j < 0x1_0000_0000_0000_0000,
    ensures
        after_allocs(next, i) != after_allocs(next, j),
{
    lemma_after_allocs(next, i);
    lemma_after_allocs(next, j);
}

/// `n` ids further on, modulo 2^64.
proof fn lemma_after_allocs(next: u64, n: nat)
    ensures
        after_allocs(next, n) == (next + n) % 0x1_0000_0000_0000_0000,
    decreases n,
{
    if n > 0 {
        lemma_after_allocs(next, (n - 1) as nat);
    }
}

/// The name of a peer learned on the endpoint `parent`.
pub open spec fn peer_name_spec(parent: Seq<char>, addr: SocketAddr) -> Seq<char> {
    match addr {
        SocketAddr::V4 { ip, port } => parent + "/"@ + addr::ipv4_text(ip) + "-"@
            + text::decimal_spec(port as nat),
        SocketAddr::V6 { ip, port, .. } => parent + "/["@ + addr::ipv6_text(ip) + "]-"@
            + text::decimal_spec(port as nat),
    }
}

/// The name of a peer: `<parent>/<ip>-<port>`, an IPv6 address in brackets.
pub fn peer_endpoint_name(parent_name: &str, addr: SocketAddr) -> (r: String)
    ensures
        r@ == peer_name_spec(parent_name@, addr),
{
    match addr {
        SocketAddr::V4 { ip, port } => String::from_str(parent_name).concat("/").concat(
            ip.to_text().as_str(),
        ).concat("-").concat(decimal(port as u64).as_str()),
        SocketAddr::V6 { ip, port, .. } => String::from_str(parent_name).concat("/[").concat(
            ip.to_text().as_str(),
        ).concat("]-").concat(decimal(port as u64).as_str()),
    }
}

/// Peers of one endpoint at different IPv4 addresses or ports have different names, which
/// begin with the name of the endpoint and end with the port.
pub proof fn law_peer_names_tell_peers_apart(
    parent: Seq<char>,
    ip: addr::Ipv4Addr,
    port: u16,
    other_ip: addr::Ipv4Addr,
    other_port: u16,
)
    ensures
        peer_name_spec(parent, SocketAddr::V4 { ip, port }) == parent + seq!['/'] + addr::ipv4_text(
            ip,
        ) + seq!['-'] + text::decimal_spec(port as nat),
        peer_name_spec(parent, SocketAddr::V4 { ip, port }) == peer_name_spec(
            parent,
            SocketAddr::V4 { ip: other_ip, port: other_port },
        ) ==> ip == other_ip && port == other_port,
{
    reveal_strlit("/");
    reveal_strlit("-");
    assert("/"@ =~= seq!['/']);
    assert("-"@ =~= seq!['-']);
    let a = addr::ipv4_text(ip);
    let b = addr::ipv4_text(other_ip);
    let p = text::decimal_spec(port as nat);
    let q = text::decimal_spec(other_port as nat);
    let x = parent + seq!['/'] + a + seq!['-'] + p;
    let y = parent + seq!['/'] + b + seq!['-'] + q;
    text::lemma_decimal_chars(port as nat);
    text::lemma_decimal_chars(other_port as nat);
    if x == y {
        let n = parent.len() + 1;
        let i = (n + a.len()) as int;
        let j = (n + b.len()) as int;
        assert(x[i] == '-' && y[j] == '-');
        assert(p =~= x.skip(i + 1));
        assert(q =~= y.skip(j + 1));
        if i < j {
            assert(x.skip(i + 1)[j - i - 1] == x[j]);
            assert('0' <= p[j - i - 1] <= '9');
        }
        if j < i {
            assert(y.skip(j + 1)[i - j - 1] == y[i]);
            assert('0' <= q[i - j - 1] <= '9');
        }
        assert(i == j);
        assert(a =~= x.subrange(n as int, i));
        assert(b =~= y.subrange(n as int, j));
        addr::law_ipv4_text_reads_back(ip);
        addr::law_ipv4_text_reads_back(other_ip);
        text::law_decimal_reads_back(port as nat);
        text::law_decimal_reads_back(other_port as nat);
    }
}

} // verus!
