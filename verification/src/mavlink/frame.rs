//! Frame layout: start bytes, header lengths, flags and the decoded header.

use vstd::prelude::*;

verus! {

/// The two wire versions.
#[derive(Debug, Clone, Copy, PartialEq, Eq, Structural)]
pub enum Version {
    V1,
    V2,
}

/// Start-of-frame byte of version 1.
pub const STX_V1: u8 = 0xFE;

/// Start-of-frame byte of version 2.
pub const STX_V2: u8 = 0xFD;

/// Incompatibility flag of version 2: the frame carries a signature.
pub const V2_IFLAG_SIGNED: u8 = 0x01;

/// Length of a version 2 signature.
pub const V2_SIGNATURE_LEN: usize = 13;

/// Length of a version 1 header, the start byte counted.
pub const V1_HEADER_LEN: usize = 6;

/// Length of a version 2 header, the start byte counted.
pub const V2_HEADER_LEN: usize = 10;

/// Length of the checksum that follows the payload.
pub const CRC_LEN: usize = 2;

/// A MAVLink node: system id and component id.
#[derive(Debug, Clone, Copy, PartialEq, Eq, Hash, Structural)]
pub struct NodeId {
    pub sys: u8,
    pub comp: u8,
}

impl NodeId {
    pub fn new(sys: u8, comp: u8) -> (r: Self)
        ensures
            r == (NodeId { sys, comp }),
    {
        NodeId { sys, comp }
    }
}

/// The start byte of a frame.
#[derive(Debug, Clone, Copy, PartialEq, Eq, Structural)]
pub enum Stx {
    V1,
    V2,
}

/// The start byte that `b` is, if it is one.
pub open spec fn stx_spec(b: u8) -> Option<Stx> {
    if b == STX_V1 {
        Some(Stx::V1)
    } else if b == STX_V2 {
        Some(Stx::V2)
    } else {
        None
    }
}

impl Stx {
    /// Classify a byte.
    pub fn from_byte(b: u8) -> (r: Option<Stx>)
        ensures
            r == stx_spec(b),
    {
        if b == STX_V1 {
            Some(Stx::V1)
        } else if b == STX_V2 {
            Some(Stx::V2)
        } else {
            None
        }
    }

    /// The header length that a start byte announces.
    pub open spec fn header_len_spec(self) -> int {
        match self {
            Stx::V1 => V1_HEADER_LEN as int,
            Stx::V2 => V2_HEADER_LEN as int,
        }
    }

    /// The header length that a start byte announces.
    pub fn header_len(self) -> (r: usize)
        ensures
            r == self.header_len_spec(),
    {
        match self {
            Stx::V1 => V1_HEADER_LEN,
            Stx::V2 => V2_HEADER_LEN,
        }
    }
}

/// The fields of a frame that routing reads. The payload itself stays in the frame.
#[derive(Debug, Clone, Copy, PartialEq, Eq, Structural)]
pub struct ParsedHeader {
    pub version: Version,
    pub sysid: u8,
    pub compid: u8,
    pub msgid: u32,
    pub seq: u8,
    pub payload_len: u8,
    pub incompat_flags: u8,
    pub compat_flags: u8,
    /// `None` where the message has no target field, the message is unknown, or the
    /// field lies past the payload, whose trailing zeros version 2 leaves out. The
    /// router treats all three as broadcast.
    pub target_system: Option<u8>,
    pub target_component: Option<u8>,
}

impl ParsedHeader {
    /// Where the payload begins in the frame.
    pub open spec fn payload_start_spec(self) -> int {
        match self.version {
            Version::V1 => V1_HEADER_LEN as int,
            Version::V2 => V2_HEADER_LEN as int,
        }
    }

    /// Where the payload begins in the frame.
    pub fn payload_start(&self) -> (r: usize)
        ensures
            r == self.payload_start_spec(),
    {
        match self.version {
            Version::V1 => V1_HEADER_LEN,
            Version::V2 => V2_HEADER_LEN,
        }
    }

    /// Whether the frame carries a signature.
    pub fn is_signed(&self) -> (r: bool)
        ensures
            r == (self.version == Version::V2 && self.incompat_flags & V2_IFLAG_SIGNED != 0),
    {
        self.version == Version::V2 && (self.incompat_flags & V2_IFLAG_SIGNED) != 0
    }

    /// The node that sent the frame.
    pub open spec fn source_spec(self) -> NodeId {
        NodeId { sys: self.sysid, comp: self.compid }
    }

    /// The node that sent the frame.
    pub fn source(&self) -> (r: NodeId)
        ensures
            r == self.source_spec(),
    {
        NodeId::new(self.sysid, self.compid)
    }
}

/// A frame of version 1 begins with `0xFE` and has a header of 6 bytes, one of version 2
/// begins with `0xFD` and has a header of 10 bytes; no frame begins with another byte.
pub proof fn law_start_bytes(b: u8, h: ParsedHeader)
    ensures
        stx_spec(b) == Some(Stx::V1) <==> b == 0xFE,
        stx_spec(b) == Some(Stx::V2) <==> b == 0xFD,
        stx_spec(b) is None <==> b != 0xFE && b != 0xFD,
        stx_spec(b) matches Some(s) ==> s.header_len_spec() == if b == 0xFE {
            6int
        } else {
            10
        },
        h.payload_start_spec() == if h.version is V1 {
            6int
        } else {
            10
        },
        h.source_spec().sys == h.sysid,
        h.source_spec().comp == h.compid,
{
}

} // verus!
