//! The framer: raw transport bytes in, complete MAVLink frames out.

use bytes::{Bytes, BytesMut};
use vstd::prelude::*;
use vstd::slice::slice_subrange;

use crate::mavlink::buffer;
use crate::mavlink::buffer::{
    buffer_advance, buffer_bytes, buffer_clear, buffer_extend, buffer_freeze, buffer_reserve,
    buffer_split_to, buffer_with_capacity,
};
use crate::mavlink::crc;
use crate::mavlink::crc::{Crc16, CRC_INIT};
use crate::mavlink::frame;
use crate::mavlink::frame::{
    ParsedHeader, Stx, Version, CRC_LEN, STX_V1, STX_V2, V1_HEADER_LEN, V2_HEADER_LEN,
    V2_IFLAG_SIGNED, V2_SIGNATURE_LEN,
};
use crate::mavlink::msgid_table;
use crate::mavlink::msgid_table::{lookup, MsgEntry};

verus! {

/// Room that a framer keeps for the next read unless told otherwise.
pub const DEFAULT_BUF_CAPACITY: usize = 8192;

// ---------------------------------------------------------------- what a frame is

/// Bytes before the first start byte of `b`; all of `b` where it has none.
pub open spec fn garbage_len(b: Seq<u8>) -> nat
    decreases b.len(),
{
    if b.len() == 0 || frame::stx_spec(b[0]) is Some {
        0
    } else {
        1 + garbage_len(b.skip(1))
    }
}

/// Whether the header at the front of `b` is complete. `b` begins with a start byte.
pub open spec fn header_complete(b: Seq<u8>) -> bool {
    b.len() >= frame::stx_spec(b[0]).unwrap().header_len_spec()
}

/// Whether the complete header at the front of `b` carries an incompatibility flag that
/// this framer does not know, so that the length of the frame cannot be known either.
pub open spec fn unknown_flags(b: Seq<u8>) -> bool {
    b[0] == STX_V2 && b[2] & !V2_IFLAG_SIGNED != 0
}

/// The length of the frame whose complete header is at the front of `b`.
pub open spec fn frame_len_spec(b: Seq<u8>) -> int {
    if b[0] == STX_V1 {
        V1_HEADER_LEN + b[1] + CRC_LEN
    } else {
        V2_HEADER_LEN + b[1] + CRC_LEN + (if b[2] & V2_IFLAG_SIGNED != 0 {
            V2_SIGNATURE_LEN as int
        } else {
            0
        })
    }
}

/// Two bytes as a little-endian number.
pub open spec fn le16(lo: u8, hi: u8) -> u16 {
    (lo as u16) | ((hi as u16) << 8)
}

/// Three bytes as a little-endian number.
pub open spec fn le24(lo: u8, mid: u8, hi: u8) -> u32 {
    (lo as u32) | ((mid as u32) << 8) | ((hi as u32) << 16)
}

/// The header of the frame `f`, its targets aside.
pub open spec fn bare_header(f: Seq<u8>) -> ParsedHeader {
    if f[0] == STX_V1 {
        ParsedHeader {
            version: Version::V1,
            sysid: f[3],
            compid: f[4],
            msgid: f[5] as u32,
            seq: f[2],
            payload_len: f[1],
            incompat_flags: 0,
            compat_flags: 0,
            target_system: None,
            target_component: None,
        }
    } else {
        ParsedHeader {
            version: Version::V2,
            sysid: f[5],
            compid: f[6],
            msgid: le24(f[7], f[8], f[9]),
            seq: f[4],
            payload_len: f[1],
            incompat_flags: f[2],
            compat_flags: f[3],
            target_system: None,
            target_component: None,
        }
    }
}

/// The payload byte at `offset`, if the message has such a field and the payload
/// reaches it.
pub open spec fn payload_byte(f: Seq<u8>, offset: Option<u8>) -> Option<u8> {
    match offset {
        Some(off) => if off < f[1] {
            Some(f[bare_header(f).payload_start_spec() + off])
        } else {
            None
        },
        None => None,
    }
}

/// The full header of the frame `f`.
pub open spec fn header_spec(f: Seq<u8>) -> ParsedHeader {
    let h = bare_header(f);
    match msgid_table::lookup_spec(h.msgid) {
        Some(e) => ParsedHeader {
            target_system: payload_byte(f, e.target_sys_offset),
            target_component: payload_byte(f, e.target_comp_offset),
            ..h
        },
        None => h,
    }
}

/// Whether the checksum at `end` is right for the seed `crc_extra`: it covers everything
/// between the start byte and itself, then the seed.
pub open spec fn checksum_matches(f: Seq<u8>, end: int, crc_extra: u8) -> bool {
    crc::crc_over(CRC_INIT, f.subrange(1, end).push(crc_extra)) == le16(f[end], f[end + 1])
}

/// Whether the checksum of the frame `f` is right for the seed `crc_extra`.
pub open spec fn crc_matches(f: Seq<u8>, crc_extra: u8) -> bool {
    checksum_matches(f, bare_header(f).payload_start_spec() + f[1], crc_extra)
}

/// Whether the frame `f` may be forwarded: its message is unknown or its checksum is
/// right.
#[verifier::opaque]
pub open spec fn frame_valid(f: Seq<u8>) -> bool {
    match msgid_table::lookup_spec(bare_header(f).msgid) {
        Some(e) => crc_matches(f, e.crc_extra),
        None => true,
    }
}

// ---------------------------------------------------------------- what a scan finds

/// The outcome of looking for one frame at the front of a buffer.
#[verifier::ext_equal]
pub struct Scan {
    /// Bytes dropped before the frame, or before the scan stopped.
    pub dropped: nat,
    /// Candidate frames among them whose checksum was wrong.
    pub bad_crc: nat,
    /// The length of the frame found.
    pub frame: Option<nat>,
}

/// The scan of `b` after `dropped` more bytes, `bad` of them a wrong checksum.
pub open spec fn after(dropped: nat, bad: nat, s: Scan) -> Scan {
    Scan { dropped: dropped + s.dropped, bad_crc: bad + s.bad_crc, frame: s.frame }
}

/// Look for one frame in `b`: skip to a start byte; stop where the frame there is not
/// complete yet; step past the start byte where the frame cannot be accepted.
pub open spec fn scan(b: Seq<u8>) -> Scan
    decreases b.len(),
{
    let p = garbage_len(b);
    if p >= b.len() {
        Scan { dropped: b.len(), bad_crc: 0, frame: None }
    } else {
        let f = b.skip(p as int);
        if !header_complete(f) {
            Scan { dropped: p, bad_crc: 0, frame: None }
        } else if unknown_flags(f) {
            after(p + 1, 0, scan(b.skip(p as int + 1)))
        } else if f.len() < frame_len_spec(f) {
            Scan { dropped: p, bad_crc: 0, frame: None }
        } else if frame_valid(f.take(frame_len_spec(f))) {
            Scan { dropped: p, bad_crc: 0, frame: Some(frame_len_spec(f) as nat) }
        } else {
            after(p + 1, 1, scan(b.skip(p as int + 1)))
        }
    }
}

/// `a + n`, held at the largest counter value.
pub open spec fn saturated(a: u64, n: nat) -> u64 {
    if a + n <= u64::MAX {
        (a + n) as u64
    } else {
        u64::MAX
    }
}

// ---------------------------------------------------------------- the framer

/// Per-endpoint framing state. Callers append transport bytes through `buffer_mut` and
/// take complete frames out with `try_next_frame`. Bytes that belong to no frame and
/// failed checksums are counted.
pub struct Framer {
    buf: BytesMut,
    resync_bytes: u64,
    crc_errors: u64,
    read_capacity: usize,
}

/// The state of a framer.
#[verifier::ext_equal]
pub struct FramerView {
    /// Bytes received and not yet consumed.
    pub pending: Seq<u8>,
    /// Bytes dropped so far, held at the largest value.
    pub resync_bytes: u64,
    /// Failed checksums so far, held at the largest value.
    pub crc_errors: u64,
    /// Room reserved for the next read after each frame.
    pub read_capacity: usize,
}

impl View for Framer {
    type V = FramerView;

    closed spec fn view(&self) -> FramerView {
        FramerView {
            pending: buffer::buffered(self.buf),
            resync_bytes: self.resync_bytes,
            crc_errors: self.crc_errors,
            read_capacity: self.read_capacity,
        }
    }
}

impl FramerView {
    /// With more bytes received.
    pub open spec fn fed(self, data: Seq<u8>) -> FramerView {
        FramerView { pending: self.pending + data, ..self }
    }

    /// After one frame was asked for.
    pub open spec fn asked(self) -> FramerView {
        let s = scan(self.pending);
        FramerView {
            pending: self.pending.skip((s.dropped + s.frame.unwrap_or(0)) as int),
            resync_bytes: saturated(self.resync_bytes, s.dropped),
            crc_errors: saturated(self.crc_errors, s.bad_crc),
            ..self
        }
    }
}

/// What is known once a start byte has been read and its header is complete.
enum FrameLen {
    Ready(usize),
    UnknownIncompatFlag,
}

/// The judgement on one candidate frame.
enum Attempt {
    Frame(ParsedHeader, Bytes),
    Incomplete,
    UnknownFlags,
    BadCrc,
}

impl Default for Framer {
    fn default() -> (r: Self)
        ensures
            r@ == (FramerView {
                pending: Seq::empty(),
                resync_bytes: 0,
                crc_errors: 0,
                read_capacity: DEFAULT_BUF_CAPACITY,
            }),
    {
        Framer::new()
    }
}

impl Framer {
    /// An empty framer with the default read room.
    pub fn new() -> (r: Self)
        ensures
            r@ == (FramerView {
                pending: Seq::empty(),
                resync_bytes: 0,
                crc_errors: 0,
                read_capacity: DEFAULT_BUF_CAPACITY,
            }),
    {
        Framer::with_capacity(DEFAULT_BUF_CAPACITY)
    }

    /// An empty framer that keeps room for `cap` bytes.
    pub fn with_capacity(cap: usize) -> (r: Self)
        requires
            cap <= isize::MAX,
        ensures
            r@ == (FramerView {
                pending: Seq::empty(),
                resync_bytes: 0,
                crc_errors: 0,
                read_capacity: cap,
            }),
    {
        Framer {
            buf: buffer_with_capacity(cap),
            resync_bytes: 0,
            crc_errors: 0,
            read_capacity: cap,
        }
    }

    /// The accumulator, for a transport to append to.
    pub fn buffer_mut(&mut self) -> (r: &mut BytesMut)
        ensures
            buffer::buffered(*r) == old(self)@.pending,
            final(self)@ == (FramerView { pending: buffer::buffered(*final(r)), ..old(self)@ }),
    {
        &mut self.buf
    }

    /// Append received bytes.
    pub fn feed(&mut self, data: &[u8])
        requires
            old(self)@.pending.len() + data@.len() <= isize::MAX,
        ensures
            final(self)@ == old(self)@.fed(data@),
    {
        buffer_extend(&mut self.buf, data);
    }

    /// Bytes dropped so far.
    pub fn resync_bytes(&self) -> (r: u64)
        ensures
            r == self@.resync_bytes,
    {
        self.resync_bytes
    }

    /// Failed checksums so far.
    pub fn crc_errors(&self) -> (r: u64)
        ensures
            r == self@.crc_errors,
    {
        self.crc_errors
    }

    /// Take one complete frame out of the buffer. `None` where what is left is not a
    /// complete frame yet. Bytes that cannot belong to a frame are dropped and counted
    /// on the way, and so are frames whose checksum is wrong.
    pub fn try_next_frame(&mut self) -> (r: Option<(ParsedHeader, Bytes)>)
        requires
            old(self)@.pending.len() + old(self)@.read_capacity <= isize::MAX,
        ensures
            ({
                let b = old(self)@.pending;
                let s = scan(b);
                let used = s.dropped + s.frame.unwrap_or(0);
                &&& used <= b.len()
                &&& final(self)@ == old(self)@.asked()
                &&& match r {
                    Some((header, frame)) => {
                        let f = b.subrange(s.dropped as int, used as int);
                        &&& s.frame is Some
                        &&& buffer::content(frame) == f
                        &&& header == header_spec(f)
                    },
                    None => s.frame is None,
                }
            }),
    {
        let ghost b0 = self@.pending;
        let ghost mut d: nat = 0;
        let ghost mut c: nat = 0;
        assert(b0.skip(0) == b0);
        loop
            invariant
                b0 == old(self)@.pending,
                b0.len() + self@.read_capacity <= isize::MAX,
                d <= b0.len(),
                self@ == (FramerView {
                    pending: b0.skip(d as int),
                    resync_bytes: saturated(old(self)@.resync_bytes, d),
                    crc_errors: saturated(old(self)@.crc_errors, c),
                    read_capacity: old(self)@.read_capacity,
                }),
                scan(b0) == after(d, c, scan(self@.pending)),
            decreases self@.pending.len(),
        {
            let ghost b1 = self@.pending;
            let ghost p = garbage_len(b1);
            match self.try_once() {
                Attempt::Frame(header, frame) => {
                    proof {
                        let n = scan(b1).frame.unwrap();
                        let used = d + p + n;
                        assert(self@.pending == b0.skip(used as int));
                        assert(b1.subrange(p as int, (p + n) as int) == b0.subrange(
                            (d + p) as int,
                            used as int,
                        ));
                    }
                    return Some((header, frame));
                },
                Attempt::Incomplete => {
                    proof {
                        assert(self@.pending == b0.skip((d + p) as int));
                    }
                    return None;
                },
                Attempt::UnknownFlags => {
                    proof {
                        assert(self@.pending == b0.skip((d + p + 1) as int));
                        d = d + p + 1;
                    }
                },
                Attempt::BadCrc => {
                    proof {
                        assert(self@.pending == b0.skip((d + p + 1) as int));
                        d = d + p + 1;
                        c = c + 1;
                    }
                },
            }
        }
    }

    /// Judge the first candidate frame in the buffer: take it out, leave it there where
    /// it is not complete yet, or drop its start byte.
    fn try_once(&mut self) -> (r: Attempt)
        requires
            old(self)@.pending.len() + old(self)@.read_capacity <= isize::MAX,
        ensures
            ({
                let b = old(self)@.pending;
                let p = garbage_len(b);
                let resync = old(self)@.resync_bytes;
                match r {
                    Attempt::Frame(header, frame) => {
                        let n = scan(b).frame.unwrap();
                        let f = b.subrange(p as int, (p + n) as int);
                        &&& scan(b) == (Scan { dropped: p, bad_crc: 0, frame: Some(n) })
                        &&& p + n <= b.len()
                        &&& buffer::content(frame) == f
                        &&& header == header_spec(f)
                        &&& final(self)@ == (FramerView {
                            pending: b.skip((p + n) as int),
                            resync_bytes: saturated(resync, p),
                            ..old(self)@
                        })
                    },
                    Attempt::Incomplete => {
                        &&& p <= b.len()
                        &&& scan(b) == (Scan { dropped: p, bad_crc: 0, frame: None })
                        &&& final(self)@ == (FramerView {
                            pending: b.skip(p as int),
                            resync_bytes: saturated(resync, p),
                            ..old(self)@
                        })
                    },
                    Attempt::UnknownFlags => {
                        &&& p < b.len()
                        &&& scan(b) == after(p + 1, 0, scan(b.skip(p as int + 1)))
                        &&& final(self)@ == (FramerView {
                            pending: b.skip(p as int + 1),
                            resync_bytes: saturated(resync, p + 1),
                            ..old(self)@
                        })
                    },
                    Attempt::BadCrc => {
                        &&& p < b.len()
                        &&& scan(b) == after(p + 1, 1, scan(b.skip(p as int + 1)))
                        &&& final(self)@ == (FramerView {
                            pending: b.skip(p as int + 1),
                            resync_bytes: saturated(resync, p + 1),
                            crc_errors: saturated(old(self)@.crc_errors, 1),
                            ..old(self)@
                        })
                    },
                }
            }),
    {
        let ghost b = self@.pending;
        let ghost p = garbage_len(b);
        let stx = match self.align_to_stx() {
            Some(stx) => stx,
            None => {
                return Attempt::Incomplete;
            },
        };
        let ghost f = self@.pending;
        assert(f[0] == b[p as int]);
        assert(f.skip(1) == b.skip(p as int + 1));
        if buffer_bytes(&self.buf).len() < stx.header_len() {
            return Attempt::Incomplete;
        }
        let frame_len: usize = match self.decide_frame_len(stx) {
            FrameLen::Ready(n) => n,
            FrameLen::UnknownIncompatFlag => {
                self.discard_byte();
                return Attempt::UnknownFlags;
            },
        };
        if buffer_bytes(&self.buf).len() < frame_len {
            return Attempt::Incomplete;
        }
        match self.try_validate_and_emit(frame_len) {
            Some((header, frame)) => {
                proof {
                    let n = frame_len as int;
                    assert(f.take(n) == b.subrange(p as int, p + n));
                    assert(f.skip(n) == b.skip(p + n));
                }
                Attempt::Frame(header, frame)
            },
            None => Attempt::BadCrc,
        }
    }

    /// Drop bytes up to the first start byte and say which it is; drop everything where
    /// there is none.
    fn align_to_stx(&mut self) -> (r: Option<Stx>)
        ensures
            ({
                let b = old(self)@.pending;
                let p = garbage_len(b);
                &&& p <= b.len()
                &&& final(self)@ == (FramerView {
                    pending: b.skip(p as int),
                    resync_bytes: saturated(old(self)@.resync_bytes, p),
                    ..old(self)@
                })
                &&& match r {
                    Some(stx) => p < b.len() && frame::stx_spec(b[p as int]) == Some(stx),
                    None => p == b.len(),
                }
            }),
    {
        let ghost b = self@.pending;
        let mut pos: usize = 0;
        let mut found: Option<Stx> = None;
        {
            let bytes = buffer_bytes(&self.buf);
            assert(b.skip(0) == b);
            while pos < bytes.len() && found.is_none()
                invariant
                    bytes@ == b,
                    pos <= b.len(),
                    garbage_len(b) == pos + garbage_len(b.skip(pos as int)),
                    match found {
                        Some(stx) => pos < b.len() && frame::stx_spec(b[pos as int]) == Some(stx),
                        None => true,
                    },
                decreases
                    b.len() - pos,
                    if found is None {
                        1int
                    } else {
                        0int
                    },
            {
                proof {
                    assert(b.skip(pos as int)[0] == b[pos as int]);
                    assert(b.skip(pos as int).skip(1) == b.skip(pos + 1));
                }
                found = Stx::from_byte(bytes[pos]);
                if found.is_none() {
                    pos = pos + 1;
                }
            }
            proof {
                if pos < b.len() {
                    assert(b.skip(pos as int)[0] == b[pos as int]);
                }
            }
        }
        match found {
            Some(stx) => {
                if pos > 0 {
                    self.add_resync(pos as u64);
                    buffer_advance(&mut self.buf, pos);
                } else {
                    assert(b.skip(0) == b);
                }
                Some(stx)
            },
            None => {
                self.add_resync(pos as u64);
                buffer_clear(&mut self.buf);
                assert(b.skip(b.len() as int) == Seq::<u8>::empty());
                None
            },
        }
    }

    /// The length of the frame at the front of the buffer, whose header is complete.
    fn decide_frame_len(&self, stx: Stx) -> (r: FrameLen)
        requires
            self@.pending.len() > 0,
            frame::stx_spec(self@.pending[0]) == Some(stx),
            header_complete(self@.pending),
        ensures
            match r {
                FrameLen::Ready(n) => !unknown_flags(self@.pending) && n == frame_len_spec(
                    self@.pending,
                ),
                FrameLen::UnknownIncompatFlag => unknown_flags(self@.pending),
            },
    {
        let bytes = buffer_bytes(&self.buf);
        let payload_len: usize = bytes[1] as usize;
        match stx {
            Stx::V1 => FrameLen::Ready(V1_HEADER_LEN + payload_len + CRC_LEN),
            Stx::V2 => {
                let iflags: u8 = bytes[2];
                if iflags & !V2_IFLAG_SIGNED != 0 {
                    return FrameLen::UnknownIncompatFlag;
                }
                let signed_extra: usize = if iflags & V2_IFLAG_SIGNED != 0 {
                    V2_SIGNATURE_LEN
                } else {
                    0
                };
                FrameLen::Ready(V2_HEADER_LEN + payload_len + CRC_LEN + signed_extra)
            },
        }
    }

    /// Take the frame of `frame_len` bytes at the front of the buffer out if it may be
    /// forwarded; otherwise count a failed checksum and drop one byte.
    fn try_validate_and_emit(&mut self, frame_len: usize) -> (r: Option<(ParsedHeader, Bytes)>)
        requires
            old(self)@.pending.len() > 0,
            frame::stx_spec(old(self)@.pending[0]) is Some,
            header_complete(old(self)@.pending),
            frame_len == frame_len_spec(old(self)@.pending),
            frame_len <= old(self)@.pending.len(),
            old(self)@.pending.len() + old(self)@.read_capacity <= isize::MAX,
        ensures
            ({
                let b = old(self)@.pending;
                let f = b.take(frame_len as int);
                match r {
                    Some((header, frame)) => {
                        &&& frame_valid(f)
                        &&& header == header_spec(f)
                        &&& buffer::content(frame) == f
                        &&& final(self)@ == (FramerView {
                            pending: b.skip(frame_len as int),
                            ..old(self)@
                        })
                    },
                    None => {
                        &&& !frame_valid(f)
                        &&& final(self)@ == (FramerView {
                            pending: b.skip(1),
                            resync_bytes: saturated(old(self)@.resync_bytes, 1),
                            crc_errors: saturated(old(self)@.crc_errors, 1),
                            ..old(self)@
                        })
                    },
                }
            }),
    {
        let ghost b = self@.pending;
        let ghost f = b.take(frame_len as int);
        reveal(frame_valid);
        let full_header: Option<ParsedHeader>;
        {
            let frame = slice_subrange(buffer_bytes(&self.buf), 0, frame_len);
            assert(frame@ == f);
            let header = parse_header(frame);
            let entry: Option<MsgEntry> = lookup(header.msgid);
            let crc_ok = match entry {
                Some(e) => validate_crc(frame, &header, e.crc_extra),
                None => true,
            };
            if crc_ok {
                let (target_system, target_component) = extract_targets(frame, &header, entry);
                full_header = Some(ParsedHeader { target_system, target_component, ..header });
            } else {
                full_header = None;
            }
        }
        match full_header {
            None => {
                self.crc_errors = self.crc_errors.saturating_add(1);
                self.discard_byte();
                None
            },
            Some(header) => {
                let frame = buffer_freeze(buffer_split_to(&mut self.buf, frame_len));
                buffer_reserve(&mut self.buf, self.read_capacity);
                Some((header, frame))
            },
        }
    }

    /// Count `n` dropped bytes.
    fn add_resync(&mut self, n: u64)
        ensures
            final(self)@ == (FramerView {
                resync_bytes: saturated(old(self)@.resync_bytes, n as nat),
                ..old(self)@
            }),
    {
        self.resync_bytes = self.resync_bytes.saturating_add(n);
    }

    /// Drop the first byte of the buffer and count it.
    fn discard_byte(&mut self)
        requires
            old(self)@.pending.len() > 0,
        ensures
            final(self)@ == (FramerView {
                pending: old(self)@.pending.skip(1),
                resync_bytes: saturated(old(self)@.resync_bytes, 1),
                ..old(self)@
            }),
    {
        self.add_resync(1);
        buffer_advance(&mut self.buf, 1);
    }
}

/// There is a start byte right behind the garbage, or nothing is left.
proof fn lemma_garbage_len(b: Seq<u8>)
    ensures
        garbage_len(b) <= b.len(),
        garbage_len(b) < b.len() ==> frame::stx_spec(b[garbage_len(b) as int]) is Some,
        forall|i: int| 0 <= i < garbage_len(b) ==> frame::stx_spec(#[trigger] b[i]) is None,
    decreases b.len(),
{
    if b.len() > 0 && frame::stx_spec(b[0]) is None {
        lemma_garbage_len(b.skip(1));
        assert forall|i: int| 0 <= i < garbage_len(b) implies frame::stx_spec(#[trigger] b[i]) is None by {
            if i > 0 {
                assert(b[i] == b.skip(1)[i - 1]);
            }
        }
    }
}

/// Decode the header of a complete frame, its targets aside.
fn parse_header(frame: &[u8]) -> (r: ParsedHeader)
    requires
        frame@.len() > 0,
        frame::stx_spec(frame@[0]) is Some,
        header_complete(frame@),
    ensures
        r == bare_header(frame@),
{
    if frame[0] == STX_V1 {
        ParsedHeader {
            version: Version::V1,
            sysid: frame[3],
            compid: frame[4],
            msgid: frame[5] as u32,
            seq: frame[2],
            payload_len: frame[1],
            incompat_flags: 0,
            compat_flags: 0,
            target_system: None,
            target_component: None,
        }
    } else {
        ParsedHeader {
            version: Version::V2,
            sysid: frame[5],
            compid: frame[6],
            msgid: (frame[7] as u32) | ((frame[8] as u32) << 8) | ((frame[9] as u32) << 16),
            seq: frame[4],
            payload_len: frame[1],
            incompat_flags: frame[2],
            compat_flags: frame[3],
            target_system: None,
            target_component: None,
        }
    }
}

/// Check the checksum of a complete frame.
pub fn validate_crc(frame: &[u8], header: &ParsedHeader, crc_extra: u8) -> (r: bool)
    requires
        header.payload_start_spec() + header.payload_len + CRC_LEN <= frame@.len(),
    ensures
        r == checksum_matches(
            frame@,
            header.payload_start_spec() + header.payload_len,
            crc_extra,
        ),
{
    let payload_end: usize = header.payload_start() + header.payload_len as usize;
    let covered = slice_subrange(frame, 1, payload_end);
    let mut crc = Crc16::new();
    crc.update_slice(covered);
    crc.update(crc_extra);
    proof {
        let s = frame@.subrange(1, payload_end as int);
        assert(covered@ == s);
        assert(s.push(crc_extra).drop_last() == s);
    }
    let expected: u16 = (frame[payload_end] as u16) | ((frame[payload_end + 1] as u16) << 8);
    crc.finalize() == expected
}

/// Read the payload byte at `offset` where the payload reaches it.
fn read_payload(frame: &[u8], header: &ParsedHeader, offset: Option<u8>) -> (r: Option<u8>)
    requires
        frame@.len() > 1,
        *header == bare_header(frame@),
        header.payload_start_spec() + frame@[1] <= frame@.len(),
    ensures
        r == payload_byte(frame@, offset),
{
    match offset {
        Some(off) => if off < header.payload_len {
            Some(frame[header.payload_start() + off as usize])
        } else {
            None
        },
        None => None,
    }
}

/// Read the target system and component of a complete frame.
fn extract_targets(frame: &[u8], header: &ParsedHeader, entry: Option<MsgEntry>) -> (r: (
    Option<u8>,
    Option<u8>,
))
    requires
        frame@.len() > 1,
        *header == bare_header(frame@),
        header.payload_start_spec() + frame@[1] <= frame@.len(),
        entry == msgid_table::lookup_spec(header.msgid),
    ensures
        r == (header_spec(frame@).target_system, header_spec(frame@).target_component),
{
    match entry {
        Some(e) => (
            read_payload(frame, header, e.target_sys_offset),
            read_payload(frame, header, e.target_comp_offset),
        ),
        None => (None, None),
    }
}

// ---------------------------------------------------------------- laws

/// The garbage at the front of a concatenation.
proof fn lemma_garbage_concat(a: Seq<u8>, b: Seq<u8>)
    ensures
        garbage_len(a + b) == if garbage_len(a) < a.len() {
            garbage_len(a)
        } else {
            a.len() + garbage_len(b)
        },
        garbage_len(a) <= a.len(),
    decreases a.len(),
{
    lemma_garbage_len(a);
    if a.len() == 0 {
        assert(a + b == b);
    } else {
        assert((a + b)[0] == a[0]);
        assert((a + b).skip(1) == a.skip(1) + b);
        lemma_garbage_concat(a.skip(1), b);
    }
}

/// A scan stays within the buffer.
pub proof fn law_scan_within(b: Seq<u8>)
    ensures
        scan(b).dropped + scan(b).frame.unwrap_or(0) <= b.len(),
        scan(b).bad_crc <= scan(b).dropped,
    decreases b.len(),
{
    lemma_garbage_len(b);
    let p = garbage_len(b);
    if p < b.len() {
        law_scan_within(b.skip(p as int + 1));
    }
}

/// A frame takes at least its header out of the buffer.
pub proof fn lemma_frame_takes_bytes(b: Seq<u8>)
    requires
        scan(b).frame is Some,
    ensures
        scan(b).frame.unwrap() > 0,
    decreases b.len(),
{
    let p = garbage_len(b);
    law_scan_within(b);
    if p < b.len() && scan(b.skip(p as int + 1)).frame is Some {
        lemma_frame_takes_bytes(b.skip(p as int + 1));
    }
}

/// A frame that a scan has found stays found, whatever arrives behind it.
pub proof fn law_scan_found_is_stable(a: Seq<u8>, b: Seq<u8>)
    requires
        scan(a).frame is Some,
    ensures
        scan(a + b) == scan(a),
    decreases a.len(),
{
    lemma_garbage_concat(a, b);
    lemma_garbage_len(a);
    let p = garbage_len(a);
    let f = a.skip(p as int);
    let fb = (a + b).skip(p as int);
    assert(fb == f + b);
    assert(fb[0] == f[0]);
    if header_complete(f) {
        assert(fb[1] == f[1] && fb[2] == f[2]);
        let n = frame_len_spec(f);
        if !unknown_flags(f) && f.len() >= n {
            assert(fb.take(n) == f.take(n));
        }
        assert((a + b).skip(p as int + 1) == a.skip(p as int + 1) + b);
        if unknown_flags(f) || !frame_valid(f.take(n)) {
            law_scan_found_is_stable(a.skip(p as int + 1), b);
        }
    }
}

/// Splitting the input makes no difference: where the first part holds no frame, what it
/// leaves behind and the second part together give the rest of the scan of the whole.
pub proof fn law_scan_resumes(a: Seq<u8>, b: Seq<u8>)
    requires
        scan(a).frame is None,
    ensures
        scan(a + b) == after(
            scan(a).dropped,
            scan(a).bad_crc,
            scan(a.skip(scan(a).dropped as int) + b),
        ),
    decreases a.len(),
{
    lemma_garbage_concat(a, b);
    lemma_garbage_len(a);
    law_scan_within(a);
    let p = garbage_len(a);
    if p >= a.len() {
        assert(a.skip(a.len() as int) + b == b);
        law_garbage_is_skipped(a, b);
    } else {
        let f = a.skip(p as int);
        let fb = (a + b).skip(p as int);
        assert(fb == f + b);
        assert(fb[0] == f[0]);
        if !header_complete(f) {
            law_garbage_is_skipped(a.take(p as int), f + b);
            assert(a.take(p as int) + (f + b) == a + b);
        } else {
            assert(fb[1] == f[1] && fb[2] == f[2]);
            let n = frame_len_spec(f);
            let rest = a.skip(p as int + 1);
            assert((a + b).skip(p as int + 1) == rest + b);
            if unknown_flags(f) {
                law_scan_resumes(rest, b);
                assert(a.skip((p + 1 + scan(rest).dropped) as int) == rest.skip(
                    scan(rest).dropped as int,
                ));
            } else if f.len() < n {
                law_garbage_is_skipped(a.take(p as int), f + b);
                assert(a.take(p as int) + (f + b) == a + b);
            } else {
                assert(fb.take(n) == f.take(n));
                law_scan_resumes(rest, b);
                assert(a.skip((p + 1 + scan(rest).dropped) as int) == rest.skip(
                    scan(rest).dropped as int,
                ));
            }
        }
    }
}

/// Bytes without a start byte among them are dropped, and what follows is scanned as if
/// it came first.
pub proof fn law_garbage_is_skipped(g: Seq<u8>, b: Seq<u8>)
    requires
        forall|i: int| 0 <= i < g.len() ==> frame::stx_spec(#[trigger] g[i]) is None,
    ensures
        scan(g + b) == after(g.len(), 0, scan(b)),
{
    lemma_garbage_len(g);
    lemma_garbage_concat(g, b);
    lemma_garbage_len(b);
    let p = garbage_len(b);
    let q = (g.len() + p) as int;
    if p < b.len() {
        assert((g + b).skip(q) == b.skip(p as int));
        assert((g + b).skip(q + 1) == b.skip(p as int + 1));
    }
}

/// A frame that is complete and valid is taken out whole and at once, with nothing
/// dropped, whatever follows it.
pub proof fn law_valid_frame_is_emitted(f: Seq<u8>, rest: Seq<u8>)
    requires
        f.len() > 0,
        frame::stx_spec(f[0]) is Some,
        header_complete(f),
        !unknown_flags(f),
        f.len() == frame_len_spec(f),
        frame_valid(f),
    ensures
        scan(f + rest) == (Scan { dropped: 0, bad_crc: 0, frame: Some(f.len()) }),
{
    assert(f.skip(0) == f);
    assert(f.take(f.len() as int) == f);
    assert(scan(f) == (Scan { dropped: 0, bad_crc: 0, frame: Some(f.len()) }));
    law_scan_found_is_stable(f, rest);
}

/// The longest frame: a signed version 2 frame with a full payload.
pub const MAX_FRAME_LEN: usize = 280;

/// Once no frame is left, what waits in the buffer is shorter than the longest frame.
pub proof fn law_remainder_is_short(b: Seq<u8>)
    requires
        scan(b).frame is None,
    ensures
        scan(b).dropped <= b.len() < scan(b).dropped + MAX_FRAME_LEN,
    decreases b.len(),
{
    lemma_garbage_len(b);
    let p = garbage_len(b);
    if p < b.len() {
        let f = b.skip(p as int);
        if header_complete(f) && (unknown_flags(f) || (f.len() >= frame_len_spec(f) && !frame_valid(
            f.take(frame_len_spec(f)),
        ))) {
            law_remainder_is_short(b.skip(p as int + 1));
        }
    }
}

/// The checksum notices a change of any one byte that it covers, of one of its own two
/// bytes, and of the seed. The start byte and what follows the checksum do not matter.
pub proof fn law_checksum_notices_one_byte(f: Seq<u8>, end: int, crc_extra: u8, i: int, y: u8)
    requires
        1 <= end,
        end + CRC_LEN <= f.len(),
        checksum_matches(f, end, crc_extra),
        0 <= i < f.len(),
    ensures
        1 <= i < end + CRC_LEN && y != f[i] ==> !checksum_matches(f.update(i, y), end, crc_extra),
        i == 0 || i >= end + CRC_LEN ==> checksum_matches(f.update(i, y), end, crc_extra),
        y != crc_extra ==> !checksum_matches(f, end, y),
{
    let g = f.update(i, y);
    let covered = f.subrange(1, end);
    if 1 <= i < end && y != f[i] {
        let a = f.subrange(1, i);
        let b = f.subrange(i + 1, end).push(crc_extra);
        assert(covered.push(crc_extra) =~= a.push(f[i]) + b);
        assert(g.subrange(1, end).push(crc_extra) =~= a.push(y) + b);
        crc::law_crc_detects_one_byte(CRC_INIT, a, f[i], y, b);
    } else {
        assert(g.subrange(1, end) =~= covered);
        lemma_le16_differs(f[end], f[end + 1], y);
    }
    if y != crc_extra {
        let none = Seq::<u8>::empty();
        assert(covered.push(crc_extra) + none =~= covered.push(crc_extra));
        assert(covered.push(y) + none =~= covered.push(y));
        crc::law_crc_detects_one_byte(CRC_INIT, covered, crc_extra, y, none);
    }
}

/// A number differs from one with another low or another high byte.
proof fn lemma_le16_differs(lo: u8, hi: u8, y: u8)
    ensures
        y != lo ==> le16(y, hi) != le16(lo, hi),
        y != hi ==> le16(lo, y) != le16(lo, hi),
{
    assert(y != lo ==> (y as u16) | ((hi as u16) << 8) != (lo as u16) | ((hi as u16) << 8))
        by (bit_vector);
    assert(y != hi ==> (lo as u16) | ((y as u16) << 8) != (lo as u16) | ((hi as u16) << 8))
        by (bit_vector);
}

/// A frame of a known message that was changed in one byte, behind its start byte and
/// before its signature, is not accepted as long as the length and the message are still
/// the same.
pub proof fn law_corrupt_frame_is_rejected(f: Seq<u8>, i: int, y: u8)
    requires
        f.len() > 0,
        frame::stx_spec(f[0]) is Some,
        header_complete(f),
        f.len() == frame_len_spec(f),
        frame_valid(f),
        msgid_table::lookup_spec(bare_header(f).msgid) is Some,
        1 <= i < bare_header(f).payload_start_spec() + f[1] + CRC_LEN,
        y != f[i],
        f.update(i, y)[1] == f[1],
        bare_header(f.update(i, y)).msgid == bare_header(f).msgid,
    ensures
        !frame_valid(f.update(i, y)),
{
    reveal(frame_valid);
    let end = bare_header(f).payload_start_spec() + f[1];
    let e = msgid_table::lookup_spec(bare_header(f).msgid).unwrap();
    law_checksum_notices_one_byte(f, end, e.crc_extra, i, y);
}

// ---------------------------------------------------------------- streams

impl FramerView {
    /// After frames were asked for until none was left: the frames, and the framer.
    pub open spec fn emptied(self) -> (Seq<Seq<u8>>, FramerView)
        decreases self.pending.len(),
    {
        let s = scan(self.pending);
        let next = self.asked();
        match s.frame {
            Some(n) => if next.pending.len() < self.pending.len() {
                let f = self.pending.subrange(s.dropped as int, (s.dropped + n) as int);
                let (frames, last) = next.emptied();
                (seq![f] + frames, last)
            } else {
                (Seq::empty(), next)
            },
            None => (Seq::empty(), next),
        }
    }

    /// After each piece of a stream was received, and the frames taken out that were
    /// complete by then: the frames of all pieces, and the framer.
    pub open spec fn fed_in_pieces(self, pieces: Seq<Seq<u8>>) -> (Seq<Seq<u8>>, FramerView)
        decreases pieces.len(),
    {
        if pieces.len() == 0 {
            (Seq::empty(), self)
        } else {
            let (before, framer) = self.fed_in_pieces(pieces.drop_last());
            let (frames, last) = framer.fed(pieces.last()).emptied();
            (before + frames, last)
        }
    }
}

/// The pieces of a stream put together.
pub open spec fn whole(pieces: Seq<Seq<u8>>) -> Seq<u8>
    decreases pieces.len(),
{
    if pieces.len() == 0 {
        Seq::empty()
    } else {
        whole(pieces.drop_last()) + pieces.last()
    }
}

/// How a stream is cut makes no difference: a new framer hands out the same frames, counts
/// the same bytes and checksums, and keeps the same bytes whether it gets the stream in
/// pieces or at once.
pub proof fn law_cuts_make_no_difference(framer: FramerView, pieces: Seq<Seq<u8>>)
    requires
        framer.pending.len() == 0,
    ensures
        framer.fed_in_pieces(pieces) == framer.fed(whole(pieces)).emptied(),
    decreases pieces.len(),
{
    if pieces.len() == 0 {
        let same = framer.fed(whole(pieces));
        assert(same =~= framer);
        assert(same.asked() =~= framer);
    } else {
        let init = pieces.drop_last();
        let last = pieces.last();
        law_cuts_make_no_difference(framer, init);
        lemma_emptied_in_two(framer.fed(whole(init)), last);
        assert(framer.fed(whole(init)).fed(last) =~= framer.fed(whole(pieces)));
    }
}

/// In two pieces.
proof fn lemma_emptied_in_two(v: FramerView, b: Seq<u8>)
    ensures
        ({
            let (first, between) = v.emptied();
            let (second, last) = between.fed(b).emptied();
            v.fed(b).emptied() == (first + second, last)
        }),
    decreases v.pending.len(),
{
    let a = v.pending;
    let s = scan(a);
    law_scan_within(a);
    let next = v.asked();
    match s.frame {
        Some(n) => {
            let used = (s.dropped + n) as int;
            law_scan_found_is_stable(a, b);
            lemma_frame_takes_bytes(a);
            assert((a + b).skip(used) =~= a.skip(used) + b);
            assert((a + b).subrange(s.dropped as int, used) =~= a.subrange(s.dropped as int, used));
            assert(v.fed(b).asked() =~= next.fed(b));
            lemma_emptied_in_two(next, b);
            let f = a.subrange(s.dropped as int, used);
            let (first, between) = next.emptied();
            let (second, last) = between.fed(b).emptied();
            assert(seq![f] + (first + second) =~= (seq![f] + first) + second);
        },
        None => {
            let d = s.dropped as int;
            law_scan_resumes(a, b);
            let r = next.fed(b);
            assert(r.pending =~= a.skip(d) + b);
            law_scan_within(r.pending);
            let s2 = scan(r.pending);
            let used = (s2.dropped + s2.frame.unwrap_or(0)) as int;
            assert((a + b).skip(d + used) =~= r.pending.skip(used));
            assert(v.fed(b).asked() =~= r.asked());
            if let Some(n) = s2.frame {
                lemma_frame_takes_bytes(r.pending);
                assert((a + b).subrange(d + s2.dropped, d + used) =~= r.pending.subrange(
                    s2.dropped as int,
                    used,
                ));
            }
            let (second, last) = r.emptied();
            assert(Seq::<Seq<u8>>::empty() + second =~= second);
        },
    }
}

// ---------------------------------------------------------------- the wire layout

/// A version 1 frame as it goes over the wire.
pub open spec fn v1_on_wire(
    seq: u8,
    sysid: u8,
    compid: u8,
    msgid: u8,
    payload: Seq<u8>,
    checksum: u16,
) -> Seq<u8> {
    seq![0xFEu8, payload.len() as u8, seq, sysid, compid, msgid] + payload + seq![
        (checksum % 256) as u8,
        (checksum / 256) as u8,
    ]
}

/// A version 2 frame as it goes over the wire. Its signature is empty or has 13 bytes.
pub open spec fn v2_on_wire(
    incompat_flags: u8,
    compat_flags: u8,
    seq: u8,
    sysid: u8,
    compid: u8,
    msgid: u32,
    payload: Seq<u8>,
    checksum: u16,
    signature: Seq<u8>,
) -> Seq<u8> {
    seq![
        0xFDu8,
        payload.len() as u8,
        incompat_flags,
        compat_flags,
        seq,
        sysid,
        compid,
        (msgid % 256) as u8,
        (msgid / 256 % 256) as u8,
        (msgid / 65536) as u8,
    ] + payload + seq![(checksum % 256) as u8, (checksum / 256) as u8] + signature
}

/// The target field at `offset` of a payload: nothing where the message has no such field
/// and where the payload ends before it.
pub open spec fn target_in(payload: Seq<u8>, offset: Option<u8>) -> Option<u8> {
    match offset {
        Some(o) => if o < payload.len() {
            Some(payload[o as int])
        } else {
            None
        },
        None => None,
    }
}

/// Little-endian numbers, in arithmetic.
proof fn lemma_little_endian(a: u8, b: u8, c: u8)
    ensures
        le16(a, b) == a + 256 * b,
        le24(a, b, c) == a + 256 * b + 65536 * c,
{
    assert((a as u16) | ((b as u16) << 8) == (a as u16) + 256 * (b as u16)) by (bit_vector);
    assert((a as u32) | ((b as u32) << 8) | ((c as u32) << 16) == (a as u32) + 256 * (b as u32)
        + 65536 * (c as u32)) by (bit_vector);
}

/// A version 1 frame that was put on the wire is read back field by field: who sent it, its
/// message, number and length, and the targets where its message has them. It has 8 bytes
/// more than its payload. It is valid exactly where its message is unknown or its checksum
/// is that of everything behind the start byte followed by the seed of its message.
pub proof fn law_v1_frame_reads_back(
    seq: u8,
    sysid: u8,
    compid: u8,
    msgid: u8,
    payload: Seq<u8>,
    checksum: u16,
)
    requires
        payload.len() <= 255,
    ensures
        ({
            let f = v1_on_wire(seq, sysid, compid, msgid, payload, checksum);
            let h = header_spec(f);
            let known = msgid_table::lookup_spec(msgid as u32);
            &&& f.len() == payload.len() + 8
            &&& frame_len_spec(f) == f.len()
            &&& header_complete(f)
            &&& !unknown_flags(f)
            &&& h.version == Version::V1
            &&& h.sysid == sysid
            &&& h.compid == compid
            &&& h.source_spec() == (frame::NodeId { sys: sysid, comp: compid })
            &&& h.seq == seq
            &&& h.msgid == msgid
            &&& h.payload_len == payload.len()
            &&& h.incompat_flags == 0
            &&& h.compat_flags == 0
            &&& h.payload_start_spec() == 6
            &&& known is None ==> h.target_system is None && h.target_component is None
            &&& known matches Some(e) ==> h.target_system == target_in(
                payload,
                e.target_sys_offset,
            ) && h.target_component == target_in(payload, e.target_comp_offset)
            &&& frame_valid(f) <==> (known matches Some(e) ==> crc::crc_over(
                0xFFFF,
                (seq![payload.len() as u8, seq, sysid, compid, msgid] + payload).push(e.crc_extra),
            ) == checksum)
        }),
{
    reveal(frame_valid);
    let f = v1_on_wire(seq, sysid, compid, msgid, payload, checksum);
    let n = payload.len() as int;
    assert(f.subrange(1, 6 + n) =~= seq![payload.len() as u8, seq, sysid, compid, msgid] + payload);
    lemma_little_endian(f[6 + n], f[7 + n], 0);
    assert(f[6 + n] == checksum % 256);
    assert(f[7 + n] == checksum / 256);
    assert forall|o: int| 0 <= o < n implies f[6 + o] == payload[o] by {}
}

/// A version 2 frame that was put on the wire is read back field by field. It has 12 bytes
/// more than its payload, and 13 more where it is signed. It is valid exactly where its
/// message is unknown or its checksum is that of everything behind the start byte and up to
/// the payload's end, followed by the seed of its message; the signature has no part in it.
pub proof fn law_v2_frame_reads_back(
    incompat_flags: u8,
    compat_flags: u8,
    seq: u8,
    sysid: u8,
    compid: u8,
    msgid: u32,
    payload: Seq<u8>,
    checksum: u16,
    signature: Seq<u8>,
)
    requires
        payload.len() <= 255,
        msgid < 0x100_0000,
        incompat_flags == 0 && signature.len() == 0 || incompat_flags == 1 && signature.len()
            == 13,
    ensures
        ({
            let f = v2_on_wire(
                incompat_flags,
                compat_flags,
                seq,
                sysid,
                compid,
                msgid,
                payload,
                checksum,
                signature,
            );
            let h = header_spec(f);
            let known = msgid_table::lookup_spec(msgid);
            &&& f.len() == payload.len() + 12 + signature.len()
            &&& frame_len_spec(f) == f.len()
            &&& header_complete(f)
            &&& !unknown_flags(f)
            &&& h.version == Version::V2
            &&& h.sysid == sysid
            &&& h.compid == compid
            &&& h.source_spec() == (frame::NodeId { sys: sysid, comp: compid })
            &&& h.seq == seq
            &&& h.msgid == msgid
            &&& h.payload_len == payload.len()
            &&& h.incompat_flags == incompat_flags
            &&& h.compat_flags == compat_flags
            &&& h.payload_start_spec() == 10
            &&& known is None ==> h.target_system is None && h.target_component is None
            &&& known matches Some(e) ==> h.target_system == target_in(
                payload,
                e.target_sys_offset,
            ) && h.target_component == target_in(payload, e.target_comp_offset)
            &&& frame_valid(f) <==> (known matches Some(e) ==> crc::crc_over(
                0xFFFF,
                f.subrange(1, 10 + payload.len() as int).push(e.crc_extra),
            ) == checksum)
        }),
{
    reveal(frame_valid);
    let f = v2_on_wire(
        incompat_flags,
        compat_flags,
        seq,
        sysid,
        compid,
        msgid,
        payload,
        checksum,
        signature,
    );
    let n = payload.len() as int;
    assert(incompat_flags == 0 ==> incompat_flags & 1 == 0) by (bit_vector);
    assert(incompat_flags == 1 ==> incompat_flags & 1 != 0) by (bit_vector);
    assert(incompat_flags <= 1 ==> incompat_flags & !1u8 == 0) by (bit_vector);
    lemma_little_endian(f[7], f[8], f[9]);
    lemma_little_endian(f[10 + n], f[11 + n], 0);
    assert(f[10 + n] == checksum % 256);
    assert(f[11 + n] == checksum / 256);
    assert forall|o: int| 0 <= o < n implies f[10 + o] == payload[o] by {}
}

/// The framer hands out a valid frame that comes next whole, whatever follows it, and
/// nothing of it is counted as dropped.
pub proof fn law_v1_frame_comes_out(
    framer: FramerView,
    seq: u8,
    sysid: u8,
    compid: u8,
    msgid: u8,
    payload: Seq<u8>,
    checksum: u16,
    rest: Seq<u8>,
)
    requires
        payload.len() <= 255,
        frame_valid(v1_on_wire(seq, sysid, compid, msgid, payload, checksum)),
        framer.pending == v1_on_wire(seq, sysid, compid, msgid, payload, checksum) + rest,
    ensures
        scan(framer.pending).frame == Some((payload.len() + 8) as nat),
        framer.asked() == (FramerView { pending: rest, ..framer }),
{
    let f = v1_on_wire(seq, sysid, compid, msgid, payload, checksum);
    law_v1_frame_reads_back(seq, sysid, compid, msgid, payload, checksum);
    law_valid_frame_is_emitted(f, rest);
    assert((f + rest).skip(f.len() as int) =~= rest);
}

/// The same for version 2, signed or not.
pub proof fn law_v2_frame_comes_out(
    framer: FramerView,
    incompat_flags: u8,
    compat_flags: u8,
    seq: u8,
    sysid: u8,
    compid: u8,
    msgid: u32,
    payload: Seq<u8>,
    checksum: u16,
    signature: Seq<u8>,
    rest: Seq<u8>,
)
    requires
        payload.len() <= 255,
        msgid < 0x100_0000,
        incompat_flags == 0 && signature.len() == 0 || incompat_flags == 1 && signature.len()
            == 13,
        frame_valid(
            v2_on_wire(
                incompat_flags,
                compat_flags,
                seq,
                sysid,
                compid,
                msgid,
                payload,
                checksum,
                signature,
            ),
        ),
        framer.pending == v2_on_wire(
            incompat_flags,
            compat_flags,
            seq,
            sysid,
            compid,
            msgid,
            payload,
            checksum,
            signature,
        ) + rest,
    ensures
        scan(framer.pending).frame == Some((payload.len() + 12 + signature.len()) as nat),
        framer.asked() == (FramerView { pending: rest, ..framer }),
{
    let f = v2_on_wire(
        incompat_flags,
        compat_flags,
        seq,
        sysid,
        compid,
        msgid,
        payload,
        checksum,
        signature,
    );
    law_v2_frame_reads_back(
        incompat_flags,
        compat_flags,
        seq,
        sysid,
        compid,
        msgid,
        payload,
        checksum,
        signature,
    );
    law_valid_frame_is_emitted(f, rest);
    assert((f + rest).skip(f.len() as int) =~= rest);
}

/// A frame whose checksum is wrong is not handed out: its start byte is dropped, one failed
/// checksum is counted, and the search goes on right behind it.
pub proof fn law_wrong_checksum_is_counted(f: Seq<u8>, rest: Seq<u8>)
    requires
        f.len() > 0,
        f[0] == 0xFE || f[0] == 0xFD,
        header_complete(f),
        !unknown_flags(f),
        f.len() == frame_len_spec(f),
        !frame_valid(f),
    ensures
        ({
            let s = scan(f + rest);
            let next = scan((f + rest).skip(1));
            &&& s.dropped == 1 + next.dropped
            &&& s.bad_crc == 1 + next.bad_crc
            &&& s.frame == next.frame
        }),
{
    let b = f + rest;
    assert(b[0] == f[0]);
    assert(garbage_len(b) == 0);
    assert(b.skip(0) =~= b);
    assert(b.take(f.len() as int) =~= f);
}

/// What may still become a frame is left alone: a start byte with less behind it than its
/// header, or less than the frame that its header announces, waits and nothing is dropped.
pub proof fn law_incomplete_frame_waits(b: Seq<u8>)
    requires
        b.len() > 0,
        ({
            ||| b[0] == 0xFE && b.len() < 6
            ||| b[0] == 0xFE && b.len() >= 6 && b.len() < 8 + b[1]
            ||| b[0] == 0xFD && b.len() < 10
            ||| b[0] == 0xFD && b.len() >= 10 && b[2] == 0 && b.len() < 12 + b[1]
            ||| b[0] == 0xFD && b.len() >= 10 && b[2] == 1 && b.len() < 25 + b[1]
        }),
    ensures
        scan(b) == (Scan { dropped: 0, bad_crc: 0, frame: None }),
{
    assert(garbage_len(b) == 0);
    assert(b.skip(0) =~= b);
    let flags = b[2];
    assert(flags == 0 ==> flags & 1 == 0) by (bit_vector);
    assert(flags == 1 ==> flags & 1 != 0) by (bit_vector);
    assert(flags <= 1 ==> flags & !1u8 == 0) by (bit_vector);
}

/// A version 2 header with a flag other than that of a signature belongs to no frame that
/// can be read: its start byte is dropped, no checksum is counted, and the search goes on
/// right behind it.
pub proof fn law_unknown_flags_are_passed_over(b: Seq<u8>)
    requires
        b.len() >= 10,
        b[0] == 0xFD,
        b[2] > 1,
    ensures
        ({
            let next = scan(b.skip(1));
            &&& scan(b).dropped == 1 + next.dropped
            &&& scan(b).bad_crc == next.bad_crc
            &&& scan(b).frame == next.frame
        }),
{
    assert(garbage_len(b) == 0);
    assert(b.skip(0) =~= b);
    let flags = b[2];
    assert(flags > 1 ==> flags & !1u8 != 0) by (bit_vector);
}

/// A byte that is neither 0xFE nor 0xFD begins no frame: it is dropped, and the search goes
/// on behind it.
pub proof fn law_noise_is_dropped(x: u8, b: Seq<u8>)
    requires
        x != 0xFE,
        x != 0xFD,
    ensures
        ({
            let s = scan(seq![x] + b);
            &&& s.dropped == 1 + scan(b).dropped
            &&& s.bad_crc == scan(b).bad_crc
            &&& s.frame == scan(b).frame
        }),
{
    law_garbage_is_skipped(seq![x], b);
}

/// Asking for a frame takes what was dropped and the frame out of the buffer, counts the
/// dropped bytes and the failed checksums, and holds the counters at their largest value.
pub proof fn law_asking_counts_what_is_dropped(framer: FramerView)
    ensures
        ({
            let s = scan(framer.pending);
            let after = framer.asked();
            &&& s.frame matches Some(n) ==> after.pending == framer.pending.skip(
                (s.dropped + n) as int,
            )
            &&& s.frame is None ==> after.pending == framer.pending.skip(s.dropped as int)
            &&& framer.resync_bytes + s.dropped <= u64::MAX ==> after.resync_bytes
                == framer.resync_bytes + s.dropped
            &&& framer.resync_bytes + s.dropped > u64::MAX ==> after.resync_bytes == u64::MAX
            &&& framer.crc_errors + s.bad_crc <= u64::MAX ==> after.crc_errors
                == framer.crc_errors + s.bad_crc
            &&& framer.crc_errors + s.bad_crc > u64::MAX ==> after.crc_errors == u64::MAX
            &&& after.read_capacity == framer.read_capacity
        }),
{
}

} // verus!
