//! Packet format of the jamjam protocol (12-byte header):
//! version (1 byte), type (1 byte), sequence (4 bytes, big-endian),
//! timestamp (4 bytes, big-endian, in samples), flags (2 bytes), payload.
use vstd::prelude::*;
use crate::bytes::{
    be16, be32, lemma_be16_roundtrip, lemma_be32_roundtrip, push_all, push_be16, push_be32,
    read_be16, read_be16_at, read_be32, read_be32_at, copy_from,
};

verus! {

/// Protocol version
pub const PROTOCOL_VERSION: u8 = 1;

/// Header size in bytes
pub const HEADER_SIZE: usize = 12;

/// Maximum payload size (MTU - IP header - UDP header - our header)
pub const MAX_PAYLOAD_SIZE: usize = 1460;

/// Packet types
#[derive(Debug, Clone, Copy, PartialEq, Eq, Structural)]
pub enum PacketType {
    /// Audio data (0x01)
    Audio,
    /// FEC redundancy data (0x02)
    Fec,
    /// Control message (0x03)
    Control,
    /// Keep-alive ping (0x04)
    KeepAlive,
}

/// The wire code of a packet type.
pub open spec fn packet_type_code(t: PacketType) -> u8 {
    match t {
        PacketType::Audio => 0x01,
        PacketType::Fec => 0x02,
        PacketType::Control => 0x03,
        PacketType::KeepAlive => 0x04,
    }
}

/// The packet type with wire code `value`, if any.
pub open spec fn packet_type_of(value: u8) -> Option<PacketType> {
    if value == 0x01 {
        Some(PacketType::Audio)
    } else if value == 0x02 {
        Some(PacketType::Fec)
    } else if value == 0x03 {
        Some(PacketType::Control)
    } else if value == 0x04 {
        Some(PacketType::KeepAlive)
    } else {
        None
    }
}

impl PacketType {
    /// The wire code of this packet type.
    pub fn to_u8(self) -> (r: u8)
        ensures
            r == packet_type_code(self),
    {
        match self {
            PacketType::Audio => 0x01,
            PacketType::Fec => 0x02,
            PacketType::Control => 0x03,
            PacketType::KeepAlive => 0x04,
        }
    }

    /// Decodes a wire code; codes other than 0x01..=0x04 are refused.
    pub fn try_from(value: u8) -> (r: Result<PacketType, ()>)
        ensures
            r matches Ok(t) ==> packet_type_of(value) == Some(t),
            r is Err <==> packet_type_of(value) is None,
    {
        match value {
            0x01 => Ok(PacketType::Audio),
            0x02 => Ok(PacketType::Fec),
            0x03 => Ok(PacketType::Control),
            0x04 => Ok(PacketType::KeepAlive),
            _ => Err(()),
        }
    }
}

/// Packet flags
#[derive(Debug, Clone, Copy, PartialEq, Eq, Structural)]
pub struct PacketFlags {
    /// Packet is encrypted
    pub encrypted: bool,
    /// Packet contains FEC info
    pub has_fec: bool,
}

/// The 16-bit encoding of flags: bit 0 is `encrypted`, bit 1 is `has_fec`.
pub open spec fn flags_code(f: PacketFlags) -> u16 {
    (if f.encrypted { 1u16 } else { 0u16 }) | (if f.has_fec { 2u16 } else { 0u16 })
}

/// The flags that a 16-bit value encodes; other bits are ignored.
pub open spec fn flags_of(value: u16) -> PacketFlags {
    PacketFlags { encrypted: value & 1u16 != 0, has_fec: value & 2u16 != 0 }
}

impl Default for PacketFlags {
    fn default() -> (r: Self)
        ensures
            !r.encrypted && !r.has_fec,
    {
        PacketFlags { encrypted: false, has_fec: false }
    }
}

impl PacketFlags {
    pub fn to_u16(self) -> (r: u16)
        ensures
            r == flags_code(self),
    {
        let encrypted: u16 = if self.encrypted {
            0x0001
        } else {
            0
        };
        let has_fec: u16 = if self.has_fec {
            0x0002
        } else {
            0
        };
        encrypted | has_fec
    }

    pub fn from_u16(value: u16) -> (r: Self)
        ensures
            r == flags_of(value),
    {
        PacketFlags { encrypted: (value & 0x0001) != 0, has_fec: (value & 0x0002) != 0 }
    }
}

/// A network packet
#[derive(Debug, Clone)]
pub struct Packet {
    pub version: u8,
    pub packet_type: PacketType,
    pub sequence: u32,
    pub timestamp: u32,
    pub flags: PacketFlags,
    pub payload: Vec<u8>,
}

/// The fields of a packet as plain values: version, type, sequence,
/// timestamp, flags, payload.
pub type PacketFields = (u8, PacketType, u32, u32, PacketFlags, Seq<u8>);

impl View for Packet {
    type V = PacketFields;

    open spec fn view(&self) -> PacketFields {
        (self.version, self.packet_type, self.sequence, self.timestamp, self.flags, self.payload@)
    }
}

/// The wire bytes of a packet with the given fields.
pub open spec fn packet_bytes(p: PacketFields) -> Seq<u8> {
    seq![p.0, packet_type_code(p.1)] + be32(p.2) + be32(p.3) + be16(flags_code(p.4)) + p.5
}

/// What `data` decodes to: nothing when it is shorter than the header, when its
/// version byte is not `PROTOCOL_VERSION`, or when its type byte is no known type.
pub open spec fn parse_packet(data: Seq<u8>) -> Option<PacketFields> {
    if data.len() < HEADER_SIZE || data[0] != PROTOCOL_VERSION || packet_type_of(data[1]) is None {
        None
    } else {
        Some(
            (
                data[0],
                packet_type_of(data[1])->0,
                read_be32_at(data, 2),
                read_be32_at(data, 6),
                flags_of(read_be16_at(data, 10)),
                data.subrange(HEADER_SIZE as int, data.len() as int),
            ),
        )
    }
}

impl Packet {
    /// Create a new audio packet
    pub fn audio(sequence: u32, timestamp: u32, payload: Vec<u8>) -> (r: Self)
        ensures
            r@ == (PROTOCOL_VERSION, PacketType::Audio, sequence, timestamp, PacketFlags {
                encrypted: false,
                has_fec: false,
            }, payload@),
    {
        Packet {
            version: PROTOCOL_VERSION,
            packet_type: PacketType::Audio,
            sequence,
            timestamp,
            flags: PacketFlags::default(),
            payload,
        }
    }

    /// Create a new keep-alive packet
    pub fn keep_alive(sequence: u32) -> (r: Self)
        ensures
            r@ == (PROTOCOL_VERSION, PacketType::KeepAlive, sequence, 0u32, PacketFlags {
                encrypted: false,
                has_fec: false,
            }, Seq::<u8>::empty()),
    {
        Packet {
            version: PROTOCOL_VERSION,
            packet_type: PacketType::KeepAlive,
            sequence,
            timestamp: 0,
            flags: PacketFlags::default(),
            payload: Vec::new(),
        }
    }

    /// Serialize the packet to bytes
    pub fn to_bytes(&self) -> (r: Vec<u8>)
        ensures
            r@ == packet_bytes(self@),
            r@.len() == HEADER_SIZE + self.payload@.len(),
    {
        let mut buf: Vec<u8> = Vec::new();
        buf.push(self.version);
        buf.push(self.packet_type.to_u8());
        push_be32(&mut buf, self.sequence);
        push_be32(&mut buf, self.timestamp);
        push_be16(&mut buf, self.flags.to_u16());
        push_all(&mut buf, self.payload.as_slice());
        assert(buf@ =~= packet_bytes(self@));
        buf
    }

    /// Deserialize a packet from bytes
    pub fn from_bytes(data: &[u8]) -> (r: Option<Self>)
        ensures
            r matches Some(p) ==> parse_packet(data@) == Some(p@),
            r is None <==> parse_packet(data@) is None,
    {
        if data.len() < HEADER_SIZE {
            return None;
        }
        let version = data[0];
        if version != PROTOCOL_VERSION {
            return None;
        }
        let packet_type = match PacketType::try_from(data[1]) {
            Ok(t) => t,
            Err(_) => {
                return None;
            },
        };
        let sequence = read_be32(data, 2);
        let timestamp = read_be32(data, 6);
        let flags = PacketFlags::from_u16(read_be16(data, 10));
        let payload = copy_from(data, HEADER_SIZE);
        let p = Packet { version, packet_type, sequence, timestamp, flags, payload };
        assert(parse_packet(data@) == Some(p@));
        Some(p)
    }
}

/// Decoding the encoding of flags gives the same flags back.
pub proof fn lemma_flags_roundtrip(f: PacketFlags)
    ensures
        flags_of(flags_code(f)) == f,
{
    assert((0u16 | 0u16) & 1u16 == 0 && (0u16 | 0u16) & 2u16 == 0) by (bit_vector);
    assert((1u16 | 0u16) & 1u16 != 0 && (1u16 | 0u16) & 2u16 == 0) by (bit_vector);
    assert((0u16 | 2u16) & 1u16 == 0 && (0u16 | 2u16) & 2u16 != 0) by (bit_vector);
    assert((1u16 | 2u16) & 1u16 != 0 && (1u16 | 2u16) & 2u16 != 0) by (bit_vector);
}

/// Decoding the wire code of a packet type gives the same type back.
pub proof fn lemma_packet_type_roundtrip(t: PacketType)
    ensures
        packet_type_of(packet_type_code(t)) == Some(t),
{
}

/// A packet of the current protocol version decodes from its own encoding to
/// the same fields: the same version, type, sequence, timestamp, flags and payload.
pub proof fn lemma_packet_roundtrip(p: PacketFields)
    requires
        p.0 == PROTOCOL_VERSION,
    ensures
        parse_packet(packet_bytes(p)) == Some(p),
{
    let b = packet_bytes(p);
    lemma_be32_roundtrip(p.2);
    lemma_be32_roundtrip(p.3);
    lemma_be16_roundtrip(flags_code(p.4));
    lemma_flags_roundtrip(p.4);
    lemma_packet_type_roundtrip(p.1);
    assert(b.len() == HEADER_SIZE + p.5.len());
    assert(b[1] == packet_type_code(p.1));
    assert(read_be32_at(b, 2) == p.2);
    assert(read_be32_at(b, 6) == p.3);
    assert(read_be16_at(b, 10) == flags_code(p.4));
    assert(b.subrange(HEADER_SIZE as int, b.len() as int) =~= p.5);
}

} // verus!
