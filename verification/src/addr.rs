//! IP and socket addresses: plain values, the text forms they are read from and written
//! as, and the identification of IPv4-mapped IPv6 addresses with their IPv4 address.

use vstd::prelude::*;
use vstd::string::StringExecFns;

use crate::text;
use crate::text::{chars_of, decimal, parse_unsigned, prefix, split_char, suffix};

verus! {

/// An IPv4 address, most significant octet first.
#[derive(Debug, Clone, Copy, PartialEq, Eq, Hash, Structural)]
pub struct Ipv4Addr {
    pub a: u8,
    pub b: u8,
    pub c: u8,
    pub d: u8,
}

/// An IPv6 address, most significant segment first.
#[derive(Debug, Clone, Copy, PartialEq, Eq, Hash, Structural)]
pub struct Ipv6Addr {
    pub s0: u16,
    pub s1: u16,
    pub s2: u16,
    pub s3: u16,
    pub s4: u16,
    pub s5: u16,
    pub s6: u16,
    pub s7: u16,
}

/// An IP address.
#[derive(Debug, Clone, Copy, PartialEq, Eq, Hash, Structural)]
pub enum IpAddr {
    V4(Ipv4Addr),
    V6(Ipv6Addr),
}

/// An address and a port. Flow information and scope belong to IPv6 only.
#[allow(inconsistent_fields)]
#[derive(Debug, Clone, Copy, PartialEq, Eq, Hash, Structural)]
pub enum SocketAddr {
    V4 { ip: Ipv4Addr, port: u16 },
    V6 { ip: Ipv6Addr, port: u16, flowinfo: u32, scope_id: u32 },
}

impl Ipv4Addr {
    /// `0.0.0.0`.
    pub open spec fn unspecified_spec() -> Ipv4Addr {
        Ipv4Addr { a: 0, b: 0, c: 0, d: 0 }
    }

    /// The address `a.b.c.d`.
    pub fn new(a: u8, b: u8, c: u8, d: u8) -> (r: Self)
        ensures
            r == (Ipv4Addr { a, b, c, d }),
    {
        Ipv4Addr { a, b, c, d }
    }
}

impl Ipv6Addr {
    /// The eight segments in a row.
    pub open spec fn segments_spec(self) -> Seq<u16> {
        seq![self.s0, self.s1, self.s2, self.s3, self.s4, self.s5, self.s6, self.s7]
    }

    /// The address of eight segments in a row.
    pub open spec fn of(s: Seq<u16>) -> Ipv6Addr {
        Ipv6Addr {
            s0: s[0],
            s1: s[1],
            s2: s[2],
            s3: s[3],
            s4: s[4],
            s5: s[5],
            s6: s[6],
            s7: s[7],
        }
    }

    /// `::`.
    pub open spec fn unspecified_spec() -> Ipv6Addr {
        Ipv6Addr { s0: 0, s1: 0, s2: 0, s3: 0, s4: 0, s5: 0, s6: 0, s7: 0 }
    }

    /// The address of eight segments in a row.
    pub fn from_segments(s: [u16; 8]) -> (r: Self)
        ensures
            r == Ipv6Addr::of(s@),
            r.segments_spec() == s@,
    {
        let r = Ipv6Addr {
            s0: s[0],
            s1: s[1],
            s2: s[2],
            s3: s[3],
            s4: s[4],
            s5: s[5],
            s6: s[6],
            s7: s[7],
        };
        assert(r.segments_spec() =~= s@);
        r
    }

    /// The eight segments in a row.
    pub fn segments(&self) -> (r: [u16; 8])
        ensures
            r@ == self.segments_spec(),
    {
        let r: [u16; 8] = [
            self.s0,
            self.s1,
            self.s2,
            self.s3,
            self.s4,
            self.s5,
            self.s6,
            self.s7,
        ];
        assert(r@ =~= self.segments_spec());
        r
    }

    /// The IPv4 address inside an IPv4-mapped address, `::ffff:a.b.c.d`.
    pub open spec fn mapped_spec(self) -> Option<Ipv4Addr> {
        if self.s0 == 0 && self.s1 == 0 && self.s2 == 0 && self.s3 == 0 && self.s4 == 0 && self.s5
            == 0xFFFF {
            Some(
                Ipv4Addr {
                    a: (self.s6 / 256) as u8,
                    b: (self.s6 % 256) as u8,
                    c: (self.s7 / 256) as u8,
                    d: (self.s7 % 256) as u8,
                },
            )
        } else {
            None
        }
    }

    /// The IPv4 address inside an IPv4-mapped address.
    pub fn to_ipv4_mapped(&self) -> (r: Option<Ipv4Addr>)
        ensures
            r == self.mapped_spec(),
    {
        if self.s0 == 0 && self.s1 == 0 && self.s2 == 0 && self.s3 == 0 && self.s4 == 0 && self.s5
            == 0xFFFF {
            Some(
                Ipv4Addr {
                    a: (self.s6 / 256) as u8,
                    b: (self.s6 % 256) as u8,
                    c: (self.s7 / 256) as u8,
                    d: (self.s7 % 256) as u8,
                },
            )
        } else {
            None
        }
    }
}

impl IpAddr {
    /// An IPv4-mapped address as its IPv4 address; any other as it is.
    pub open spec fn canonical(self) -> IpAddr {
        match self {
            IpAddr::V6(v6) => match v6.mapped_spec() {
                Some(v4) => IpAddr::V4(v4),
                None => IpAddr::V6(v6),
            },
            IpAddr::V4(v4) => IpAddr::V4(v4),
        }
    }

    /// Whether this is an IPv6 address.
    pub fn is_ipv6(&self) -> (r: bool)
        ensures
            r == (self is V6),
    {
        matches!(self, IpAddr::V6(_))
    }
}

/// An IPv4-mapped address as its IPv4 address; any other as it is.
pub fn canonical_ip(ip: IpAddr) -> (r: IpAddr)
    ensures
        r == ip.canonical(),
{
    match ip {
        IpAddr::V6(v6) => match v6.to_ipv4_mapped() {
            Some(v4) => IpAddr::V4(v4),
            None => IpAddr::V6(v6),
        },
        IpAddr::V4(v4) => IpAddr::V4(v4),
    }
}

/// Canonical addresses stay as they are.
pub proof fn law_canonical_is_stable(ip: IpAddr)
    ensures
        ip.canonical().canonical() == ip.canonical(),
{
}

impl SocketAddr {
    /// The address `ip` with the port `port`.
    pub open spec fn of(ip: IpAddr, port: u16) -> SocketAddr {
        match ip {
            IpAddr::V4(ip) => SocketAddr::V4 { ip, port },
            IpAddr::V6(ip) => SocketAddr::V6 { ip, port, flowinfo: 0, scope_id: 0 },
        }
    }

    /// The address `ip` with the port `port`.
    pub fn new(ip: IpAddr, port: u16) -> (r: Self)
        ensures
            r == SocketAddr::of(ip, port),
    {
        match ip {
            IpAddr::V4(ip) => SocketAddr::V4 { ip, port },
            IpAddr::V6(ip) => SocketAddr::V6 { ip, port, flowinfo: 0, scope_id: 0 },
        }
    }

    /// The IP address.
    pub open spec fn ip_spec(self) -> IpAddr {
        match self {
            SocketAddr::V4 { ip, .. } => IpAddr::V4(ip),
            SocketAddr::V6 { ip, .. } => IpAddr::V6(ip),
        }
    }

    /// The port.
    pub open spec fn port_spec(self) -> u16 {
        match self {
            SocketAddr::V4 { port, .. } => port,
            SocketAddr::V6 { port, .. } => port,
        }
    }

    /// The IP address.
    pub fn ip(&self) -> (r: IpAddr)
        ensures
            r == self.ip_spec(),
    {
        match self {
            SocketAddr::V4 { ip, .. } => IpAddr::V4(*ip),
            SocketAddr::V6 { ip, .. } => IpAddr::V6(*ip),
        }
    }

    /// The port.
    pub fn port(&self) -> (r: u16)
        ensures
            r == self.port_spec(),
    {
        match self {
            SocketAddr::V4 { port, .. } => *port,
            SocketAddr::V6 { port, .. } => *port,
        }
    }
}

// ---------------------------------------------------------------- reading

/// The value of an octet in decimal: one to three digits, no leading zero, at most 255.
pub open spec fn octet_spec(s: Seq<char>) -> Option<u8> {
    if text::is_decimal(s) && s.len() <= 3 && (s[0] != '0' || s.len() == 1)
        && text::decimal_value(s) <= 255 {
        Some(text::decimal_value(s) as u8)
    } else {
        None
    }
}

/// The IPv4 address that `s` spells: four octets with dots between them.
pub open spec fn ipv4_spec(s: Seq<char>) -> Option<Ipv4Addr> {
    let p = text::split_spec(s, '.');
    if p.len() == 4 {
        match (octet_spec(p[0]), octet_spec(p[1]), octet_spec(p[2]), octet_spec(p[3])) {
            (Some(a), Some(b), Some(c), Some(d)) => Some(Ipv4Addr { a, b, c, d }),
            _ => None,
        }
    } else {
        None
    }
}

/// Whether `c` is a hexadecimal digit.
pub open spec fn is_hex(c: char) -> bool {
    ('0' <= c <= '9') || ('a' <= c <= 'f') || ('A' <= c <= 'F')
}

/// The value of a hexadecimal digit.
pub open spec fn hex_value(c: char) -> nat {
    if '0' <= c <= '9' {
        (c as u32 - '0' as u32) as nat
    } else if 'a' <= c <= 'f' {
        (c as u32 - 'a' as u32 + 10) as nat
    } else {
        (c as u32 - 'A' as u32 + 10) as nat
    }
}

/// The number that a string of hexadecimal digits denotes.
pub open spec fn hex_number(s: Seq<char>) -> nat
    decreases s.len(),
{
    if s.len() == 0 {
        0
    } else {
        hex_number(s.drop_last()) * 16 + hex_value(s.last())
    }
}

/// The segment that `s` spells: one to four hexadecimal digits.
pub open spec fn segment_spec(s: Seq<char>) -> Option<u16> {
    if 1 <= s.len() <= 4 && forall|i: int| 0 <= i < s.len() ==> is_hex(#[trigger] s[i]) {
        Some(hex_number(s) as u16)
    } else {
        None
    }
}

/// The two segments that an IPv4 address fills.
pub open spec fn v4_segments(v4: Ipv4Addr) -> Seq<u16> {
    seq![(v4.a * 256 + v4.b) as u16, (v4.c * 256 + v4.d) as u16]
}

/// The segments that colon-separated pieces spell. With `v4_tail` the last piece may be
/// an IPv4 address, which counts for two segments.
pub open spec fn segments_of(pieces: Seq<Seq<char>>, v4_tail: bool) -> Option<Seq<u16>>
    decreases pieces.len(),
{
    if pieces.len() == 0 {
        Some(Seq::empty())
    } else if pieces.len() == 1 && v4_tail && ipv4_spec(pieces[0]) is Some {
        Some(v4_segments(ipv4_spec(pieces[0]).unwrap()))
    } else {
        match (segment_spec(pieces[0]), segments_of(pieces.skip(1), v4_tail)) {
            (Some(g), Some(rest)) => Some(seq![g] + rest),
            _ => None,
        }
    }
}

/// The segments that a part of an IPv6 address spells; none for an empty part.
pub open spec fn part_spec(s: Seq<char>, v4_tail: bool) -> Option<Seq<u16>> {
    if s.len() == 0 {
        Some(Seq::empty())
    } else {
        segments_of(text::split_spec(s, ':'), v4_tail)
    }
}

/// Where the first `::` of `s` stands, looking from position `i` on.
pub open spec fn gap_from(s: Seq<char>, i: int) -> Option<int>
    decreases s.len() - i,
{
    if i + 1 >= s.len() {
        None
    } else if s[i] == ':' && s[i + 1] == ':' {
        Some(i)
    } else {
        gap_from(s, i + 1)
    }
}

/// `n` zero segments.
pub open spec fn zeros(n: int) -> Seq<u16> {
    Seq::new(n as nat, |i: int| 0u16)
}

/// The IPv6 address that `s` spells: eight segments with colons between them, or fewer
/// with one `::` that stands for the missing ones, all zero.
pub open spec fn ipv6_spec(s: Seq<char>) -> Option<Ipv6Addr> {
    match gap_from(s, 0) {
        None => match part_spec(s, true) {
            Some(g) => if g.len() == 8 {
                Some(Ipv6Addr::of(g))
            } else {
                None
            },
            None => None,
        },
        Some(i) => match (part_spec(s.take(i), false), part_spec(s.skip(i + 2), true)) {
            (Some(head), Some(tail)) => if head.len() + tail.len() <= 7 {
                Some(Ipv6Addr::of(head + zeros(8 - head.len() - tail.len()) + tail))
            } else {
                None
            },
            _ => None,
        },
    }
}

/// The IP address that `s` spells.
pub open spec fn ip_text_spec(s: Seq<char>) -> Option<IpAddr> {
    match ipv4_spec(s) {
        Some(v4) => Some(IpAddr::V4(v4)),
        None => match ipv6_spec(s) {
            Some(v6) => Some(IpAddr::V6(v6)),
            None => None,
        },
    }
}

/// Read an octet in decimal.
fn parse_octet(s: &str) -> (r: Option<u8>)
    ensures
        r == octet_spec(s@),
{
    let cs = chars_of(s);
    if cs.len() == 0 || cs.len() > 3 {
        return None;
    }
    if cs[0] == '+' || (cs[0] == '0' && cs.len() != 1) {
        return None;
    }
    match parse_unsigned(s, 255) {
        Some(n) => Some(n as u8),
        None => None,
    }
}

/// Read an IPv4 address.
pub fn parse_ipv4(s: &str) -> (r: Option<Ipv4Addr>)
    ensures
        r == ipv4_spec(s@),
{
    let p = split_char(s, '.');
    if p.len() != 4 {
        assert(text::slice_texts(p@).len() != 4);
        return None;
    }
    proof {
        let t = text::slice_texts(p@);
        assert(t[0] == p@[0]@ && t[1] == p@[1]@ && t[2] == p@[2]@ && t[3] == p@[3]@);
    }
    match (parse_octet(p[0]), parse_octet(p[1]), parse_octet(p[2]), parse_octet(p[3])) {
        (Some(a), Some(b), Some(c), Some(d)) => Some(Ipv4Addr { a, b, c, d }),
        _ => None,
    }
}

/// A number of four hexadecimal digits fits a segment.
proof fn lemma_hex_bound(s: Seq<char>)
    requires
        forall|i: int| 0 <= i < s.len() ==> is_hex(#[trigger] s[i]),
        s.len() <= 4,
    ensures
        s.len() == 0 ==> hex_number(s) == 0,
        s.len() == 1 ==> hex_number(s) < 0x10,
        s.len() == 2 ==> hex_number(s) < 0x100,
        s.len() == 3 ==> hex_number(s) < 0x1000,
        hex_number(s) < 0x1_0000,
    decreases s.len(),
{
    if s.len() > 0 {
        assert(is_hex(s.last()));
        lemma_hex_bound(s.drop_last());
    }
}

/// Read a segment in hexadecimal.
fn parse_segment(s: &str) -> (r: Option<u16>)
    ensures
        r == segment_spec(s@),
{
    let cs = chars_of(s);
    if cs.len() == 0 || cs.len() > 4 {
        return None;
    }
    let mut n: u32 = 0;
    let mut i: usize = 0;
    assert(s@.take(0).len() == 0);
    while i < cs.len()
        invariant
            i <= cs@.len() <= 4,
            cs@ == s@,
            n == hex_number(s@.take(i as int)),
            forall|j: int| 0 <= j < i ==> is_hex(#[trigger] s@[j]),
        decreases cs@.len() - i,
    {
        let c = cs[i];
        let v: u32 = if c >= '0' && c <= '9' {
            c as u32 - 48
        } else if c >= 'a' && c <= 'f' {
            c as u32 - 87
        } else if c >= 'A' && c <= 'F' {
            c as u32 - 55
        } else {
            assert(!is_hex(s@[i as int]));
            return None;
        };
        proof {
            lemma_hex_bound(s@.take(i as int));
            assert(s@.take(i + 1).drop_last() == s@.take(i as int));
            assert(s@.take(i + 1).last() == c);
        }
        n = n * 16 + v;
        i = i + 1;
    }
    proof {
        assert(s@.take(s@.len() as int) == s@);
        lemma_hex_bound(s@);
    }
    Some(n as u16)
}

/// `done` in front of the segments of the remaining pieces.
spec fn seg_behind(done: Seq<u16>, rest: Option<Seq<u16>>) -> Option<Seq<u16>> {
    match rest {
        Some(g) => Some(done + g),
        None => None,
    }
}

/// Read a part of an IPv6 address.
fn parse_part(s: &str, v4_tail: bool) -> (r: Option<Vec<u16>>)
    ensures
        match r {
            Some(g) => part_spec(s@, v4_tail) == Some(g@),
            None => part_spec(s@, v4_tail) is None,
        },
{
    let mut out: Vec<u16> = Vec::new();
    if s.is_empty() {
        return Some(out);
    }
    let pieces = split_char(s, ':');
    let ghost all = text::split_spec(s@, ':');
    let mut i: usize = 0;
    assert(all.skip(0) == all);
    assert(seg_behind(out@, segments_of(all, v4_tail)) == segments_of(all, v4_tail)) by {
        if let Some(g) = segments_of(all, v4_tail) {
            assert(Seq::<u16>::empty() + g =~= g);
        }
    }
    while i < pieces.len()
        invariant
            i <= pieces@.len(),
            text::slice_texts(pieces@) == all,
            seg_behind(out@, segments_of(all.skip(i as int), v4_tail)) == segments_of(all, v4_tail),
            segments_of(all, v4_tail) == part_spec(s@, v4_tail),
        decreases pieces@.len() - i,
    {
        let ghost rest = all.skip(i as int);
        proof {
            assert(rest[0] == pieces@[i as int]@);
            assert(rest.skip(1) == all.skip(i + 1));
        }
        let ghost before = out@;
        if i + 1 == pieces.len() && v4_tail {
            if let Some(v4) = parse_ipv4(pieces[i]) {
                out.push(v4.a as u16 * 256 + v4.b as u16);
                out.push(v4.c as u16 * 256 + v4.d as u16);
                assert(out@ =~= before + v4_segments(v4));
                return Some(out);
            }
        }
        match parse_segment(pieces[i]) {
            Some(g) => {
                out.push(g);
                proof {
                    if let Some(more) = segments_of(all.skip(i + 1), v4_tail) {
                        assert(before + (seq![g] + more) =~= out@ + more);
                    }
                }
            },
            None => {
                return None;
            },
        }
        i = i + 1;
    }
    assert(all.skip(all.len() as int).len() == 0);
    assert(out@ + Seq::<u16>::empty() =~= out@);
    Some(out)
}

/// Find the first `::`.
fn find_gap(s: &str) -> (r: Option<usize>)
    ensures
        match r {
            Some(i) => gap_from(s@, 0) == Some(i as int) && i + 2 <= s@.len() && i + 2
                <= usize::MAX,
            None => gap_from(s@, 0) is None,
        },
{
    let cs = chars_of(s);
    let n: usize = cs.len();
    let mut i: usize = 0;
    while n - i > 1
        invariant
            cs@ == s@,
            n == cs@.len(),
            i <= n,
            gap_from(s@, 0) == gap_from(s@, i as int),
        decreases n - i,
    {
        if cs[i] == ':' && cs[i + 1] == ':' {
            return Some(i);
        }
        i = i + 1;
    }
    None
}

/// Read an IPv6 address.
pub fn parse_ipv6(s: &str) -> (r: Option<Ipv6Addr>)
    ensures
        r == ipv6_spec(s@),
{
    match find_gap(s) {
        None => match parse_part(s, true) {
            Some(g) => if g.len() == 8 {
                Some(
                    Ipv6Addr {
                        s0: g[0],
                        s1: g[1],
                        s2: g[2],
                        s3: g[3],
                        s4: g[4],
                        s5: g[5],
                        s6: g[6],
                        s7: g[7],
                    },
                )
            } else {
                None
            },
            None => None,
        },
        Some(i) => {
            let head = parse_part(prefix(s, i), false);
            let tail = parse_part(suffix(s, i + 2), true);
            match (head, tail) {
                (Some(head), Some(tail)) => {
                    if head.len() > 7 || tail.len() > 7 || head.len() + tail.len() > 7 {
                        return None;
                    }
                    let ghost all = head@ + zeros(8 - head@.len() - tail@.len()) + tail@;
                    let mut g: [u16; 8] = [0, 0, 0, 0, 0, 0, 0, 0];
                    let mut k: usize = 0;
                    while k < head.len()
                        invariant
                            k <= head@.len() <= 7,
                            g@.len() == 8,
                            forall|j: int| 0 <= j < k ==> g@[j] == head@[j],
                            forall|j: int| k <= j < 8 ==> g@[j] == 0,
                        decreases head@.len() - k,
                    {
                        g[k] = head[k];
                        k = k + 1;
                    }
                    let first: usize = 8 - tail.len();
                    let mut m: usize = 0;
                    while m < tail.len()
                        invariant
                            m <= tail@.len() <= 7,
                            first == 8 - tail@.len(),
                            head@.len() + tail@.len() <= 7,
                            g@.len() == 8,
                            forall|j: int| 0 <= j < head@.len() ==> g@[j] == head@[j],
                            forall|j: int| head@.len() <= j < first ==> g@[j] == 0,
                            forall|j: int| first <= j < first + m ==> g@[j] == tail@[j - first],
                        decreases tail@.len() - m,
                    {
                        g[first + m] = tail[m];
                        m = m + 1;
                    }
                    assert(g@ =~= all);
                    Some(Ipv6Addr::from_segments(g))
                },
                _ => None,
            }
        },
    }
}

/// Read an IP address.
pub fn parse_ip(s: &str) -> (r: Option<IpAddr>)
    ensures
        r == ip_text_spec(s@),
{
    match parse_ipv4(s) {
        Some(v4) => Some(IpAddr::V4(v4)),
        None => match parse_ipv6(s) {
            Some(v6) => Some(IpAddr::V6(v6)),
            None => None,
        },
    }
}

// ---------------------------------------------------------------- writing

/// An IPv4 address in dotted decimal.
pub open spec fn ipv4_text(ip: Ipv4Addr) -> Seq<char> {
    text::decimal_spec(ip.a as nat) + "."@ + text::decimal_spec(ip.b as nat) + "."@
        + text::decimal_spec(ip.c as nat)
        + "."@ + text::decimal_spec(ip.d as nat)
}

/// The hexadecimal digit for `d`.
pub open spec fn hex_char(d: nat) -> char {
    if d < 10 {
        ('0' as u32 + d) as char
    } else {
        ('a' as u32 + (d - 10)) as char
    }
}

/// `n` in lower-case hexadecimal without leading zeros.
pub open spec fn hex_text(n: nat) -> Seq<char>
    decreases n,
{
    if n < 16 {
        seq![hex_char(n)]
    } else {
        hex_text(n / 16).push(hex_char(n % 16))
    }
}

/// Segments in hexadecimal with colons between them.
pub open spec fn segments_text(g: Seq<u16>) -> Seq<char>
    decreases g.len(),
{
    if g.len() == 0 {
        Seq::empty()
    } else if g.len() == 1 {
        hex_text(g[0] as nat)
    } else {
        segments_text(g.drop_last()) + ":"@ + hex_text(g.last() as nat)
    }
}

/// How many zero segments stand in a row from position `i` on.
pub open spec fn zero_run(g: Seq<u16>, i: int) -> nat
    decreases g.len() - i,
{
    if 0 <= i < g.len() && g[i] == 0 {
        1 + zero_run(g, i + 1)
    } else {
        0
    }
}

/// Where the longest row of zero segments begins among the first `n` positions; the
/// first of several.
pub open spec fn longest_zero_run(g: Seq<u16>, n: int) -> int
    decreases n,
{
    if n <= 1 {
        0
    } else {
        let best = longest_zero_run(g, n - 1);
        if zero_run(g, n - 1) > zero_run(g, best) {
            n - 1
        } else {
            best
        }
    }
}

/// An IPv6 address in its short form: the longest row of two or more zero segments as
/// `::`, an IPv4-mapped address with its IPv4 part in dotted decimal.
pub open spec fn ipv6_text(ip: Ipv6Addr) -> Seq<char> {
    match ip.mapped_spec() {
        Some(v4) => "::ffff:"@ + ipv4_text(v4),
        None => {
            let g = ip.segments_spec();
            let at = longest_zero_run(g, 8);
            let n = zero_run(g, at);
            if n > 1 {
                segments_text(g.take(at)) + "::"@ + segments_text(g.skip(at + n))
            } else {
                segments_text(g)
            }
        },
    }
}

/// An IP address as text.
pub open spec fn ip_text(ip: IpAddr) -> Seq<char> {
    match ip {
        IpAddr::V4(v4) => ipv4_text(v4),
        IpAddr::V6(v6) => ipv6_text(v6),
    }
}

/// A socket address as text: an IPv6 address in brackets, its scope behind `%` where
/// there is one.
pub open spec fn socket_text(addr: SocketAddr) -> Seq<char> {
    match addr {
        SocketAddr::V4 { ip, port } => ipv4_text(ip) + ":"@ + text::decimal_spec(port as nat),
        SocketAddr::V6 { ip, port, scope_id, .. } => "["@ + ipv6_text(ip) + (if scope_id == 0 {
            Seq::empty()
        } else {
            "%"@ + text::decimal_spec(scope_id as nat)
        }) + "]:"@ + text::decimal_spec(port as nat),
    }
}

impl Ipv4Addr {
    /// Dotted decimal.
    pub fn to_text(&self) -> (r: String)
        ensures
            r@ == ipv4_text(*self),
    {
        decimal(self.a as u64).concat(".").concat(decimal(self.b as u64).as_str()).concat(
            ".",
        ).concat(decimal(self.c as u64).as_str()).concat(".").concat(
            decimal(self.d as u64).as_str(),
        )
    }
}

/// Write `n` in hexadecimal.
fn hex(n: u16) -> (r: String)
    ensures
        r@ == hex_text(n as nat),
    decreases n,
{
    let d: u8 = (n % 16) as u8;
    let c: char = if d < 10 {
        (48 + d) as char
    } else {
        (87 + d) as char
    };
    let mut out: String = if n < 16 {
        String::new()
    } else {
        hex(n / 16)
    };
    out.push(c);
    assert(n < 16 ==> out@ == seq![hex_char(n as nat)]);
    out
}

/// Write the segments from `from` to `to` with colons between them.
fn write_segments(g: &[u16; 8], from: usize, to: usize) -> (r: String)
    requires
        from <= to <= 8,
    ensures
        r@ == segments_text(g@.subrange(from as int, to as int)),
{
    let mut out = String::new();
    let mut i: usize = from;
    assert(g@.subrange(from as int, from as int).len() == 0);
    while i < to
        invariant
            from <= i <= to <= 8,
            out@ == segments_text(g@.subrange(from as int, i as int)),
        decreases to - i,
    {
        proof {
            let t = g@.subrange(from as int, i + 1);
            assert(t.drop_last() == g@.subrange(from as int, i as int));
            assert(t.last() == g@[i as int]);
        }
        if i > from {
            out.append(":");
        }
        out.append(hex(g[i]).as_str());
        proof {
            if i == from {
                assert(Seq::<char>::empty() + hex_text(g@[i as int] as nat) =~= hex_text(
                    g@[i as int] as nat,
                ));
            }
        }
        i = i + 1;
    }
    out
}

/// Count the zero segments in a row from position `i` on.
fn count_zero_run(g: &[u16; 8], i: usize) -> (r: usize)
    requires
        i <= 8,
    ensures
        r == zero_run(g@, i as int),
        i + r <= 8,
    decreases 8 - i,
{
    if i < 8 && g[i] == 0 {
        1 + count_zero_run(g, i + 1)
    } else {
        0
    }
}

impl Ipv6Addr {
    /// The short form.
    pub fn to_text(&self) -> (r: String)
        ensures
            r@ == ipv6_text(*self),
    {
        if let Some(v4) = self.to_ipv4_mapped() {
            return String::from_str("::ffff:").concat(v4.to_text().as_str());
        }
        let g = self.segments();
        let mut at: usize = 0;
        let mut n: usize = count_zero_run(&g, 0);
        let mut i: usize = 1;
        while i < 8
            invariant
                1 <= i <= 8,
                at < i,
                at == longest_zero_run(g@, i as int),
                n == zero_run(g@, at as int),
                at + n <= 8,
            decreases 8 - i,
        {
            let m: usize = count_zero_run(&g, i);
            if m > n {
                at = i;
                n = m;
            }
            i = i + 1;
        }
        if n > 1 {
            proof {
                assert(g@.subrange(0, at as int) == g@.take(at as int));
                assert(g@.subrange(at + n, 8) == g@.skip(at + n));
            }
            write_segments(&g, 0, at).concat("::").concat(write_segments(&g, at + n, 8).as_str())
        } else {
            assert(g@.subrange(0, 8) == g@);
            write_segments(&g, 0, 8)
        }
    }
}

impl IpAddr {
    /// The address as text.
    pub fn to_text(&self) -> (r: String)
        ensures
            r@ == ip_text(*self),
    {
        match self {
            IpAddr::V4(v4) => v4.to_text(),
            IpAddr::V6(v6) => v6.to_text(),
        }
    }
}

impl SocketAddr {
    /// The address as text.
    pub fn to_text(&self) -> (r: String)
        ensures
            r@ == socket_text(*self),
    {
        match self {
            SocketAddr::V4 { ip, port } => ip.to_text().concat(":").concat(
                decimal(*port as u64).as_str(),
            ),
            SocketAddr::V6 { ip, port, scope_id, .. } => {
                let mut out = String::from_str("[").concat(ip.to_text().as_str());
                if *scope_id != 0 {
                    let scope = String::from_str("%").concat(decimal(*scope_id as u64).as_str());
                    out.append(scope.as_str());
                } else {
                    assert(out@ + Seq::<char>::empty() =~= out@);
                }
                out.concat("]:").concat(decimal(*port as u64).as_str())
            },
        }
    }
}

/// An octet in decimal reads back as itself and holds no dot.
proof fn lemma_octet_reads_back(n: u8)
    ensures
        octet_spec(text::decimal_spec(n as nat)) == Some(n),
        !text::decimal_spec(n as nat).contains('.'),
{
    reveal_with_fuel(text::decimal_spec, 3);
    text::law_decimal_reads_back(n as nat);
    let s = text::decimal_spec(n as nat);
    assert(s.len() <= 3);
    assert forall|i: int| 0 <= i < s.len() implies s[i] != '.' by {
        assert(text::is_digit(s[i]));
    }
}

/// Splitting behind a piece without a dot.
proof fn lemma_split_piece(piece: Seq<char>, rest: Seq<char>)
    requires
        !piece.contains('.'),
    ensures
        text::split_spec(piece.push('.') + rest, '.') == seq![piece] + text::split_spec(rest, '.'),
{
    let whole = piece.push('.') + rest;
    let n = piece.len() as int;
    assert forall|j: int| 0 <= j < n implies whole[j] != '.' by {
        assert(whole[j] == piece[j]);
    }
    text::lemma_first_index(whole, '.', n);
    assert(whole.take(n) =~= piece);
    assert(whole.skip(n + 1) =~= rest);
}

/// Four pieces with dots between them.
proof fn lemma_split_four(a: Seq<char>, b: Seq<char>, c: Seq<char>, d: Seq<char>)
    requires
        !a.contains('.'),
        !b.contains('.'),
        !c.contains('.'),
        !d.contains('.'),
    ensures
        text::split_spec(a + "."@ + b + "."@ + c + "."@ + d, '.') == seq![a, b, c, d],
{
    reveal_strlit(".");
    let cd = c.push('.') + d;
    let bcd = b.push('.') + cd;
    assert(a + "."@ + b + "."@ + c + "."@ + d =~= a.push('.') + bcd);
    lemma_split_piece(a, bcd);
    lemma_split_piece(b, cd);
    lemma_split_piece(c, d);
    d.index_of_first_ensures('.');
    assert(text::split_spec(d, '.') == seq![d]);
    assert(seq![a] + (seq![b] + (seq![c] + seq![d])) =~= seq![a, b, c, d]);
}

/// An IPv4 address in its text form reads back as itself.
pub proof fn law_ipv4_text_reads_back(ip: Ipv4Addr)
    ensures
        ipv4_spec(ipv4_text(ip)) == Some(ip),
{
    lemma_octet_reads_back(ip.a);
    lemma_octet_reads_back(ip.b);
    lemma_octet_reads_back(ip.c);
    lemma_octet_reads_back(ip.d);
    lemma_split_four(
        text::decimal_spec(ip.a as nat),
        text::decimal_spec(ip.b as nat),
        text::decimal_spec(ip.c as nat),
        text::decimal_spec(ip.d as nat),
    );
}

/// An IPv4 address and the IPv6 address that maps it, `::ffff:a.b.c.d`, count as one; an
/// IPv6 address of any other form counts as itself only, and so do two IPv4 addresses that
/// differ.
pub proof fn law_mapped_address_is_its_ipv4_address(v4: Ipv4Addr, v6: Ipv6Addr)
    ensures
        ({
            let mapped = Ipv6Addr {
                s0: 0,
                s1: 0,
                s2: 0,
                s3: 0,
                s4: 0,
                s5: 0xFFFF,
                s6: (v4.a * 256 + v4.b) as u16,
                s7: (v4.c * 256 + v4.d) as u16,
            };
            &&& IpAddr::V4(v4).canonical() == IpAddr::V4(v4)
            &&& IpAddr::V6(mapped).canonical() == IpAddr::V4(v4)
            &&& IpAddr::V6(v6).canonical() == IpAddr::V4(v4) <==> v6 == mapped
            &&& v6.s0 != 0 || v6.s1 != 0 || v6.s2 != 0 || v6.s3 != 0 || v6.s4 != 0 || v6.s5
                != 0xFFFF ==> IpAddr::V6(v6).canonical() == IpAddr::V6(v6)
        }),
{
}

/// An address and a port make a socket address that has both.
pub proof fn law_socket_address_has_its_parts(ip: IpAddr, port: u16)
    ensures
        SocketAddr::of(ip, port).ip_spec() == ip,
        SocketAddr::of(ip, port).port_spec() == port,
        ip matches IpAddr::V4(v4) ==> SocketAddr::of(ip, port) == (SocketAddr::V4 {
            ip: v4,
            port,
        }),
        ip matches IpAddr::V6(v6) ==> SocketAddr::of(ip, port) == (SocketAddr::V6 {
            ip: v6,
            port,
            flowinfo: 0,
            scope_id: 0,
        }),
{
}

/// A hexadecimal digit reads back as itself.
proof fn lemma_hex_digit(d: nat)
    requires
        d < 16,
    ensures
        is_hex(hex_char(d)),
        hex_value(hex_char(d)) == d,
        hex_char(d) != ':',
        hex_char(d) != '.',
{
}

/// A number in hexadecimal has a digit at least and reads back as itself.
proof fn lemma_hex_text(n: nat)
    ensures
        hex_number(hex_text(n)) == n,
        hex_text(n).len() >= 1,
        forall|i: int| 0 <= i < hex_text(n).len() ==> is_hex(#[trigger] hex_text(n)[i]),
    decreases n,
{
    let s = hex_text(n);
    lemma_hex_digit(n % 16);
    if n < 16 {
        lemma_hex_digit(n);
        assert(s.drop_last() =~= Seq::<char>::empty());
        reveal_with_fuel(hex_number, 2);
    } else {
        lemma_hex_text(n / 16);
        assert(s.drop_last() =~= hex_text(n / 16));
        assert forall|i: int| 0 <= i < s.len() implies is_hex(#[trigger] s[i]) by {
            if i < s.len() - 1 {
                assert(s[i] == hex_text(n / 16)[i]);
            }
        }
    }
}

/// A segment in hexadecimal reads back as itself, holds neither colon nor dot, and is no IPv4
/// address.
proof fn lemma_segment_reads_back(g: u16)
    ensures
        segment_spec(hex_text(g as nat)) == Some(g),
        hex_text(g as nat).len() >= 1,
        !hex_text(g as nat).contains(':'),
        !hex_text(g as nat).contains('.'),
        ipv4_spec(hex_text(g as nat)) is None,
{
    let s = hex_text(g as nat);
    lemma_hex_text(g as nat);
    reveal_with_fuel(hex_text, 5);
    assert(s.len() <= 4);
    assert forall|i: int| 0 <= i < s.len() implies s[i] != ':' && s[i] != '.' by {
        assert(is_hex(s[i]));
    }
    lemma_no_dot(s);
}

/// A text without a dot is no IPv4 address.
proof fn lemma_no_dot(s: Seq<char>)
    requires
        !s.contains('.'),
    ensures
        ipv4_spec(s) is None,
{
    s.index_of_first_ensures('.');
    assert(text::split_spec(s, '.') =~= seq![s]);
}

/// The texts of segments.
spec fn segment_texts(g: Seq<u16>) -> Seq<Seq<char>> {
    g.map_values(|s: u16| hex_text(s as nat))
}

/// Texts with a character between each and the next, by the last of them.
proof fn lemma_joined_last(parts: Seq<Seq<char>>, c: char)
    requires
        parts.len() > 1,
    ensures
        text::joined(parts, c) == text::joined(parts.drop_last(), c) + seq![c] + parts.last(),
    decreases parts.len(),
{
    let rest = parts.skip(1);
    if parts.len() == 2 {
        assert(text::joined(rest, c) == parts[1]);
        assert(text::joined(parts.drop_last(), c) == parts[0]);
    } else {
        lemma_joined_last(rest, c);
        assert(rest.drop_last() =~= parts.drop_last().skip(1));
        assert(rest.last() == parts.last());
        assert(parts[0] + seq![c] + (text::joined(rest.drop_last(), c) + seq![c] + rest.last())
            =~= parts[0] + seq![c] + text::joined(rest.drop_last(), c) + seq![c] + rest.last());
    }
}

/// Segments in a row: they are their texts with colons between them, without two colons side
/// by side, without a colon at either end, and without a dot.
proof fn lemma_segments_text(g: Seq<u16>)
    requires
        g.len() > 0,
    ensures
        segments_text(g) == text::joined(segment_texts(g), ':'),
        segments_text(g).len() >= 1,
        segments_text(g)[0] != ':',
        segments_text(g).last() != ':',
        !segments_text(g).contains('.'),
        forall|i: int|
            0 <= i < segments_text(g).len() - 1 ==> !(#[trigger] segments_text(g)[i] == ':'
                && segments_text(g)[i + 1] == ':'),
    decreases g.len(),
{
    reveal_strlit(":");
    let s = segments_text(g);
    let t = hex_text(g.last() as nat);
    lemma_segment_reads_back(g.last());
    assert forall|i: int| 0 <= i < t.len() implies t[i] != ':' && t[i] != '.' by {
        assert(t.contains(t[i]));
    }
    if g.len() == 1 {
        assert(segment_texts(g) =~= seq![t]);
    } else {
        let init = g.drop_last();
        let a = segments_text(init);
        lemma_segments_text(init);
        assert(segment_texts(g).drop_last() =~= segment_texts(init));
        lemma_joined_last(segment_texts(g), ':');
        assert(":"@ =~= seq![':']);
        assert(s == a + seq![':'] + t);
        let n = a.len() as int;
        assert forall|i: int| 0 <= i < s.len() - 1 implies !(#[trigger] s[i] == ':' && s[i + 1]
            == ':') by {
            if i < n - 1 {
                assert(s[i] == a[i] && s[i + 1] == a[i + 1]);
            } else if i == n - 1 {
                assert(s[i] == a.last());
            } else if i == n {
                assert(s[i + 1] == t[0]);
            } else {
                assert(s[i] == t[i - n - 1]);
            }
        }
        assert(s[0] == a[0]);
        assert(s.last() == t.last());
        assert forall|i: int| 0 <= i < s.len() implies s[i] != '.' by {
            if i < n {
                assert(s[i] == a[i]);
                assert(a.contains(a[i]));
            } else if i > n {
                assert(s[i] == t[i - n - 1]);
            }
        }
    }
}

/// The texts of segments read back as the segments.
proof fn lemma_segments_read_back(g: Seq<u16>, v4_tail: bool)
    ensures
        segments_of(segment_texts(g), v4_tail) == Some(g),
    decreases g.len(),
{
    let pieces = segment_texts(g);
    if g.len() == 0 {
        assert(g =~= Seq::empty());
    } else {
        lemma_segment_reads_back(g[0]);
        lemma_segments_read_back(g.skip(1), v4_tail);
        assert(pieces[0] == hex_text(g[0] as nat));
        assert(pieces.skip(1) =~= segment_texts(g.skip(1)));
        assert(seq![g[0]] + g.skip(1) =~= g);
    }
}

/// A part of an IPv6 address reads back as its segments.
proof fn lemma_part_reads_back(g: Seq<u16>, v4_tail: bool)
    ensures
        part_spec(segments_text(g), v4_tail) == Some(g),
{
    if g.len() == 0 {
        assert(g =~= Seq::empty());
    } else {
        let pieces = segment_texts(g);
        lemma_segments_text(g);
        assert forall|i: int| 0 <= i < pieces.len() implies !(#[trigger] pieces[i]).contains(
            ':',
        ) by {
            lemma_segment_reads_back(g[i]);
        }
        text::law_joined_texts_split(pieces, ':');
        lemma_segments_read_back(g, v4_tail);
    }
}

/// Where the first two colons side by side stand.
proof fn lemma_gap(s: Seq<char>, at: int, i: int)
    requires
        0 <= i <= at,
        at + 1 < s.len() ==> s[at] == ':' && s[at + 1] == ':',
        forall|j: int| 0 <= j < at && j + 1 < s.len() ==> !(#[trigger] s[j] == ':' && s[j + 1] == ':'),
    ensures
        gap_from(s, i) == if at + 1 < s.len() {
            Some(at)
        } else {
            None
        },
    decreases s.len() - i,
{
    if i + 1 < s.len() && i < at {
        assert(!(s[i] == ':' && s[i + 1] == ':'));
        lemma_gap(s, at, i + 1);
    }
}

/// The row of zero segments from a position on.
proof fn lemma_zero_run(g: Seq<u16>, i: int)
    requires
        0 <= i <= g.len(),
    ensures
        i + zero_run(g, i) <= g.len(),
        forall|j: int| i <= j < i + zero_run(g, i) ==> #[trigger] g[j] == 0,
    decreases g.len() - i,
{
    if i < g.len() && g[i] == 0 {
        lemma_zero_run(g, i + 1);
    }
}

/// Where the longest row begins.
proof fn lemma_longest_zero_run(g: Seq<u16>, n: int)
    requires
        0 < n,
    ensures
        0 <= longest_zero_run(g, n) < n,
        forall|i: int|
            0 <= i < n ==> #[trigger] zero_run(g, i) <= zero_run(g, longest_zero_run(g, n)),
        forall|i: int|
            0 <= i < longest_zero_run(g, n) ==> #[trigger] zero_run(g, i) < zero_run(
                g,
                longest_zero_run(g, n),
            ),
    decreases n,
{
    if n > 1 {
        lemma_longest_zero_run(g, n - 1);
    }
}

/// The longest row of zero segments is left out of the text of an IPv6 address, the first one
/// of several, where it is of two segments at least.
pub proof fn law_longest_zero_run_is_longest(g: Seq<u16>)
    requires
        g.len() == 8,
    ensures
        ({
            let at = longest_zero_run(g, 8);
            &&& 0 <= at < 8
            &&& at + zero_run(g, at) <= 8
            &&& forall|j: int| at <= j < at + zero_run(g, at) ==> #[trigger] g[j] == 0
            &&& forall|i: int| 0 <= i < 8 ==> #[trigger] zero_run(g, i) <= zero_run(g, at)
            &&& forall|i: int| 0 <= i < at ==> #[trigger] zero_run(g, i) < zero_run(g, at)
        }),
{
    lemma_longest_zero_run(g, 8);
    lemma_zero_run(g, longest_zero_run(g, 8));
}

/// Two parts of an IPv6 address with two colons between them.
proof fn lemma_gapped_text(head: Seq<u16>, tail: Seq<u16>)
    ensures
        ({
            let s = segments_text(head) + "::"@ + segments_text(tail);
            let k = segments_text(head).len() as int;
            &&& gap_from(s, 0) == Some(k)
            &&& s.take(k) == segments_text(head)
            &&& s.skip(k + 2) == segments_text(tail)
            &&& !s.contains('.')
        }),
{
    reveal_strlit("::");
    let a = segments_text(head);
    let b = segments_text(tail);
    let s = a + "::"@ + b;
    let k = a.len() as int;
    if head.len() > 0 {
        lemma_segments_text(head);
    }
    if tail.len() > 0 {
        lemma_segments_text(tail);
    }
    assert(s[k] == ':' && s[k + 1] == ':');
    assert forall|j: int| 0 <= j < k && j + 1 < s.len() implies !(#[trigger] s[j] == ':' && s[j
        + 1] == ':') by {
        if j < k - 1 {
            assert(s[j] == a[j] && s[j + 1] == a[j + 1]);
        } else {
            assert(s[j] == a.last());
        }
    }
    lemma_gap(s, k, 0);
    assert(s.take(k) =~= a);
    assert(s.skip(k + 2) =~= b);
    assert forall|j: int| 0 <= j < s.len() implies s[j] != '.' by {
        if j < k {
            assert(s[j] == a[j]);
            assert(a.contains(a[j]));
        } else if j >= k + 2 {
            assert(s[j] == b[j - k - 2]);
            assert(b.contains(b[j - k - 2]));
        }
    }
}

/// The text of eight segments without two colons side by side.
proof fn lemma_plain_text(g: Seq<u16>)
    requires
        g.len() == 8,
    ensures
        ipv6_spec(segments_text(g)) == Some(Ipv6Addr::of(g)),
        !segments_text(g).contains('.'),
{
    let s = segments_text(g);
    lemma_segments_text(g);
    lemma_part_reads_back(g, true);
    assert forall|j: int| 0 <= j < s.len() && j + 1 < s.len() implies !(#[trigger] s[j] == ':'
        && s[j + 1] == ':') by {}
    lemma_gap(s, s.len() as int, 0);
}

/// The text of eight segments of which a row of zeros is left out.
proof fn lemma_short_text(g: Seq<u16>, at: int, n: int)
    requires
        g.len() == 8,
        0 <= at,
        1 < n,
        at + n <= 8,
        forall|j: int| at <= j < at + n ==> #[trigger] g[j] == 0,
    ensures
        ({
            let s = segments_text(g.take(at)) + "::"@ + segments_text(g.skip(at + n));
            ipv6_spec(s) == Some(Ipv6Addr::of(g)) && !s.contains('.')
        }),
{
    let head = g.take(at);
    let tail = g.skip(at + n);
    lemma_gapped_text(head, tail);
    lemma_part_reads_back(head, false);
    lemma_part_reads_back(tail, true);
    assert(head + zeros(8 - head.len() - tail.len()) + tail =~= g);
}

/// An IPv6 address in its text form reads back as itself.
pub proof fn law_ipv6_text_reads_back(ip: Ipv6Addr)
    ensures
        ipv6_spec(ipv6_text(ip)) == Some(ip),
        ip_text_spec(ipv6_text(ip)) == Some(IpAddr::V6(ip)),
{
    match ip.mapped_spec() {
        Some(v4) => {
            lemma_mapped_text(ip, v4);
        },
        None => {
            let g = ip.segments_spec();
            let at = longest_zero_run(g, 8);
            let n = zero_run(g, at);
            law_longest_zero_run_is_longest(g);
            assert(Ipv6Addr::of(g) == ip);
            if n > 1 {
                lemma_short_text(g, at, n as int);
            } else {
                lemma_plain_text(g);
            }
            lemma_no_dot(ipv6_text(ip));
        },
    }
}

/// The text of an IPv6 address that maps an IPv4 address.
proof fn lemma_mapped_text(ip: Ipv6Addr, v4: Ipv4Addr)
    requires
        ip.mapped_spec() == Some(v4),
    ensures
        ipv6_spec(ipv6_text(ip)) == Some(ip),
        ipv4_spec(ipv6_text(ip)) is None,
{
    reveal_strlit("::ffff:");
    reveal_strlit(".");
    let s = ipv6_text(ip);
    let t = ipv4_text(v4);
    assert(s == "::ffff:"@ + t);
    lemma_gap(s, 0, 0);
    assert(s.take(0) =~= Seq::<char>::empty());
    let f = seq!['f', 'f', 'f', 'f'];
    let tail = s.skip(2);
    assert(tail =~= f + seq![':'] + t);
    let a = text::decimal_spec(v4.a as nat);
    let b = text::decimal_spec(v4.b as nat);
    let c = text::decimal_spec(v4.c as nat);
    let d = text::decimal_spec(v4.d as nat);
    text::lemma_decimal_chars(v4.a as nat);
    text::lemma_decimal_chars(v4.b as nat);
    text::lemma_decimal_chars(v4.c as nat);
    text::lemma_decimal_chars(v4.d as nat);
    assert forall|i: int| 0 <= i < t.len() implies t[i] != ':' by {
        let p = a.len() as int;
        let q = p + 1 + b.len();
        let r = q + 1 + c.len();
        if i < p {
            assert(t[i] == a[i]);
        } else if p < i < q {
            assert(t[i] == b[i - p - 1]);
        } else if q < i < r {
            assert(t[i] == c[i - q - 1]);
        } else if i > r {
            assert(t[i] == d[i - r - 1]);
        }
    }
    let pieces = seq![f, t];
    assert(text::joined(pieces, ':') =~= tail) by {
        assert(pieces.skip(1) =~= seq![t]);
        assert(text::joined(pieces.skip(1), ':') == t);
    }
    assert forall|i: int| 0 <= i < pieces.len() implies !(#[trigger] pieces[i]).contains(':') by {}
    text::law_joined_texts_split(pieces, ':');
    law_ipv4_text_reads_back(v4);
    assert(f =~= hex_text(0xFFFF)) by {
        reveal_with_fuel(hex_text, 5);
    }
    lemma_segment_reads_back(0xFFFF);
    assert(pieces.skip(1) =~= seq![t]);
    reveal_with_fuel(segments_of, 3);
    assert(segments_of(pieces, true) == Some(seq![0xFFFFu16] + v4_segments(v4)));
    let g = Seq::<u16>::empty() + zeros(5) + (seq![0xFFFFu16] + v4_segments(v4));
    assert(g =~= ip.segments_spec());
    assert(Ipv6Addr::of(ip.segments_spec()) == ip);
    lemma_split_four(seq![':', ':', 'f', 'f', 'f', 'f', ':'] + a, b, c, d);
    assert(s =~= (seq![':', ':', 'f', 'f', 'f', 'f', ':'] + a) + "."@ + b + "."@ + c + "."@ + d);
    let first = seq![':', ':', 'f', 'f', 'f', 'f', ':'] + a;
    assert(first[0] == ':');
    assert(!text::is_digit(first[0]));
}

/// Digits without a leading zero are how their number is written.
proof fn lemma_written_one_way(s: Seq<char>)
    requires
        text::is_decimal(s),
        s[0] != '0' || s.len() == 1,
    ensures
        text::decimal_spec(text::decimal_value(s)) == s,
        s[0] != '0' ==> text::decimal_value(s) > 0,
    decreases s.len(),
{
    let init = s.drop_last();
    let c = s.last();
    assert(text::is_digit(s[s.len() - 1]));
    assert(text::digit_char(text::digit_value(c)) == c);
    if s.len() == 1 {
        reveal_with_fuel(text::decimal_value, 2);
        assert(init =~= Seq::<char>::empty());
        assert(s =~= seq![c]);
    } else {
        assert forall|i: int| 0 <= i < init.len() implies text::is_digit(#[trigger] init[i]) by {
            assert(init[i] == s[i]);
        }
        assert(init[0] == s[0]);
        lemma_written_one_way(init);
        let v = text::decimal_value(init);
        let d = text::digit_value(c);
        assert(v > 0);
        assert((v * 10 + d) / 10 == v && (v * 10 + d) % 10 == d);
        assert(init.push(c) =~= s);
    }
}

/// There is one text for every IPv4 address: four numbers of at most 255 without leading
/// zeros, with dots between them. Nothing else is read as one.
pub proof fn law_ipv4_is_written_one_way(s: Seq<char>, ip: Ipv4Addr)
    ensures
        ipv4_spec(s) == Some(ip) <==> s == text::decimal_spec(ip.a as nat) + seq!['.']
            + text::decimal_spec(ip.b as nat) + seq!['.'] + text::decimal_spec(ip.c as nat) + seq![
            '.',
        ] + text::decimal_spec(ip.d as nat),
{
    reveal_strlit(".");
    assert("."@ =~= seq!['.']);
    law_ipv4_text_reads_back(ip);
    if ipv4_spec(s) == Some(ip) {
        let p = text::split_spec(s, '.');
        text::law_pieces_join(s, '.');
        lemma_written_one_way(p[0]);
        lemma_written_one_way(p[1]);
        lemma_written_one_way(p[2]);
        lemma_written_one_way(p[3]);
        let p1 = p.skip(1);
        let p2 = p1.skip(1);
        let p3 = p2.skip(1);
        assert(p1[0] == p[1] && p2[0] == p[2] && p3[0] == p[3]);
        assert(p3.len() == 1);
        assert(text::joined(p3, '.') == p[3]);
        assert(text::joined(p2, '.') == p[2] + seq!['.'] + p[3]);
        assert(text::joined(p1, '.') == p[1] + seq!['.'] + (p[2] + seq!['.'] + p[3]));
        assert(s =~= p[0] + seq!['.'] + p[1] + seq!['.'] + p[2] + seq!['.'] + p[3]);
    }
}

} // verus!
