//! STUN (RFC 5389) messages for NAT traversal: the binding request that asks
//! a STUN server for the public address, and the parsing of its response.
use vstd::prelude::*;
use crate::bytes::{be16, be32, push_all, push_be16, push_be32, read_be16, read_be16_at, read_be32, read_be32_at};

verus! {

/// STUN message types
pub const BINDING_REQUEST: u16 = 0x0001;

pub const BINDING_RESPONSE: u16 = 0x0101;

/// STUN attribute types
pub const MAPPED_ADDRESS: u16 = 0x0001;

pub const XOR_MAPPED_ADDRESS: u16 = 0x0020;

/// STUN magic cookie (RFC 5389)
pub const MAGIC_COOKIE: u32 = 0x2112A442;

/// Address families of the address attributes
pub const FAMILY_IPV4: u8 = 0x01;

pub const FAMILY_IPV6: u8 = 0x02;

/// An IP socket address: the address bytes and the port
#[derive(Debug, Clone, Copy)]
pub enum SocketAddress {
    V4 { ip: [u8; 4], port: u16 },
    V6 { ip: [u8; 16], port: u16 },
}

/// Why a STUN response was refused
#[derive(Debug, Clone, Copy, PartialEq, Eq, Structural)]
pub enum StunError {
    ResponseTooShort,
    UnexpectedMessageType(u16),
    InvalidMagicCookie,
    TransactionIdMismatch,
    MessageTruncated,
    NoMappedAddress,
    XorMappedAddressTooShort,
    XorMappedAddressIpv6TooShort,
    MappedAddressTooShort,
    MappedAddressIpv6TooShort,
    UnknownAddressFamily(u8),
}

/// An address as plain values: the address bytes (4 for IPv4, 16 for IPv6)
/// and the port.
pub type AddressFields = (Seq<u8>, u16);

pub open spec fn address_view(a: SocketAddress) -> AddressFields {
    match a {
        SocketAddress::V4 { ip, port } => (ip@, port),
        SocketAddress::V6 { ip, port } => (ip@, port),
    }
}

impl SocketAddress {
    /// The port.
    pub fn port(&self) -> (r: u16)
        ensures
            r == address_view(*self).1,
    {
        match self {
            SocketAddress::V4 { port, .. } => *port,
            SocketAddress::V6 { port, .. } => *port,
        }
    }
}

/// Whether two addresses are the same address and port.
pub fn same_address(a: &SocketAddress, b: &SocketAddress) -> (r: bool)
    ensures
        r == (address_view(*a) == address_view(*b)),
{
    match (a, b) {
        (SocketAddress::V4 { ip: x, port: p }, SocketAddress::V4 { ip: y, port: q }) => {
            if *p != *q {
                return false;
            }
            let mut i: usize = 0;
            while i < 4
                invariant
                    i <= 4,
                    *a == (SocketAddress::V4 { ip: *x, port: *p }),
                    *b == (SocketAddress::V4 { ip: *y, port: *q }),
                    forall|j: int| 0 <= j < i ==> x@[j] == y@[j],
                decreases 4 - i,
            {
                if x[i] != y[i] {
                    assert(x@[i as int] != y@[i as int]);
                    return false;
                }
                i = i + 1;
            }
            assert(x@ =~= y@);
            true
        },
        (SocketAddress::V6 { ip: x, port: p }, SocketAddress::V6 { ip: y, port: q }) => {
            if *p != *q {
                return false;
            }
            let mut i: usize = 0;
            while i < 16
                invariant
                    i <= 16,
                    *a == (SocketAddress::V6 { ip: *x, port: *p }),
                    *b == (SocketAddress::V6 { ip: *y, port: *q }),
                    forall|j: int| 0 <= j < i ==> x@[j] == y@[j],
                decreases 16 - i,
            {
                if x[i] != y[i] {
                    assert(x@[i as int] != y@[i as int]);
                    return false;
                }
                i = i + 1;
            }
            assert(x@ =~= y@);
            true
        },
        (SocketAddress::V4 { ip: x, .. }, SocketAddress::V6 { ip: y, .. }) => {
            assert(x@.len() != y@.len());
            false
        },
        (SocketAddress::V6 { ip: x, .. }, SocketAddress::V4 { ip: y, .. }) => {
            assert(x@.len() != y@.len());
            false
        },
    }
}

pub open spec fn result_view(r: Result<SocketAddress, StunError>) -> Result<AddressFields, StunError> {
    match r {
        Ok(a) => Ok(address_view(a)),
        Err(e) => Err(e),
    }
}

/// The bytes of a binding request with the given transaction id.
pub open spec fn binding_request_bytes(txn: Seq<u8>) -> Seq<u8> {
    be16(BINDING_REQUEST) + be16(0) + be32(MAGIC_COOKIE) + txn
}

/// The 16-byte XOR mask of IPv6 addresses: the cookie, then the transaction id.
pub open spec fn xor_mask(txn: Seq<u8>) -> Seq<u8> {
    be32(MAGIC_COOKIE) + txn
}

/// What an XOR-MAPPED-ADDRESS attribute value decodes to.
pub open spec fn parse_xor_mapped_spec(d: Seq<u8>, txn: Seq<u8>) -> Result<AddressFields, StunError> {
    if d.len() < 8 {
        Err(StunError::XorMappedAddressTooShort)
    } else {
        let port = read_be16_at(d, 2) ^ 0x2112u16;
        if d[1] == FAMILY_IPV4 {
            Ok((be32(read_be32_at(d, 4) ^ MAGIC_COOKIE), port))
        } else if d[1] == FAMILY_IPV6 {
            if d.len() < 20 {
                Err(StunError::XorMappedAddressIpv6TooShort)
            } else {
                Ok((Seq::new(16, |i: int| d[4 + i] ^ xor_mask(txn)[i]), port))
            }
        } else {
            Err(StunError::UnknownAddressFamily(d[1]))
        }
    }
}

/// What a MAPPED-ADDRESS attribute value decodes to.
pub open spec fn parse_mapped_spec(d: Seq<u8>) -> Result<AddressFields, StunError> {
    if d.len() < 8 {
        Err(StunError::MappedAddressTooShort)
    } else {
        let port = read_be16_at(d, 2);
        if d[1] == FAMILY_IPV4 {
            Ok((d.subrange(4, 8), port))
        } else if d[1] == FAMILY_IPV6 {
            if d.len() < 20 {
                Err(StunError::MappedAddressIpv6TooShort)
            } else {
                Ok((d.subrange(4, 20), port))
            }
        } else {
            Err(StunError::UnknownAddressFamily(d[1]))
        }
    }
}

/// `l` rounded up to a multiple of 4.
pub open spec fn pad4(l: int) -> int {
    (l + 3) - (l + 3) % 4
}

/// The attributes from `offset` up to `end`: the first XOR-MAPPED-ADDRESS or
/// MAPPED-ADDRESS decides; an attribute that overruns the data ends the walk.
pub open spec fn walk_attributes(d: Seq<u8>, txn: Seq<u8>, offset: int, end: int) -> Result<
    AddressFields,
    StunError,
>
    decreases d.len() + 4 - offset,
{
    if offset < 0 || offset + 4 > end || end > d.len() {
        Err(StunError::NoMappedAddress)
    } else {
        let attr_type = read_be16_at(d, offset);
        let attr_len = read_be16_at(d, offset + 2) as int;
        if offset + 4 + attr_len > d.len() {
            Err(StunError::NoMappedAddress)
        } else {
            let value = d.subrange(offset + 4, offset + 4 + attr_len);
            proof {
                assert(attr_len >= 0);
                assert((attr_len + 3) % 4 <= 3);
            }
            if attr_type == XOR_MAPPED_ADDRESS {
                parse_xor_mapped_spec(value, txn)
            } else if attr_type == MAPPED_ADDRESS {
                parse_mapped_spec(value)
            } else {
                walk_attributes(d, txn, offset + 4 + pad4(attr_len), end)
            }
        }
    }
}

/// What a binding response decodes to.
pub open spec fn parse_response_spec(d: Seq<u8>, txn: Seq<u8>) -> Result<AddressFields, StunError> {
    if d.len() < 20 {
        Err(StunError::ResponseTooShort)
    } else if read_be16_at(d, 0) != BINDING_RESPONSE {
        Err(StunError::UnexpectedMessageType(read_be16_at(d, 0)))
    } else if read_be32_at(d, 4) != MAGIC_COOKIE {
        Err(StunError::InvalidMagicCookie)
    } else if d.subrange(8, 20) != txn {
        Err(StunError::TransactionIdMismatch)
    } else if d.len() < 20 + read_be16_at(d, 2) {
        Err(StunError::MessageTruncated)
    } else {
        walk_attributes(d, txn, 20, 20 + read_be16_at(d, 2))
    }
}

/// Build a STUN binding request message
pub fn build_binding_request(transaction_id: &[u8; 12]) -> (r: Vec<u8>)
    ensures
        r@ == binding_request_bytes(transaction_id@),
        r@.len() == 20,
{
    let mut msg: Vec<u8> = Vec::new();
    push_be16(&mut msg, BINDING_REQUEST);
    push_be16(&mut msg, 0);
    push_be32(&mut msg, MAGIC_COOKIE);
    push_all(&mut msg, transaction_id.as_slice());
    msg
}

/// `rand::random` for a 12-byte array: a fresh random transaction id.
#[verifier::external_body]
fn random_transaction_id() -> [u8; 12] {
    rand::random()
}

/// A binding request under a fresh random transaction id: the id, to match
/// the response against, and the request bytes.
pub fn new_binding_request() -> (r: ([u8; 12], Vec<u8>))
    ensures
        r.1@ == binding_request_bytes(r.0@),
        r.1@.len() == 20,
{
    let transaction_id = random_transaction_id();
    let request = build_binding_request(&transaction_id);
    (transaction_id, request)
}

/// Parse XOR-MAPPED-ADDRESS attribute (RFC 5389)
pub fn parse_xor_mapped_address(data: &[u8], transaction_id: &[u8; 12]) -> (r: Result<
    SocketAddress,
    StunError,
>)
    ensures
        result_view(r) == parse_xor_mapped_spec(data@, transaction_id@),
{
    if data.len() < 8 {
        return Err(StunError::XorMappedAddressTooShort);
    }
    let family = data[1];
    let xor_port = read_be16(data, 2);
    let port = xor_port ^ 0x2112u16;
    if family == FAMILY_IPV4 {
        let addr = read_be32(data, 4) ^ MAGIC_COOKIE;
        let ip = [
            (addr >> 24u32) as u8,
            ((addr >> 16u32) & 0xffu32) as u8,
            ((addr >> 8u32) & 0xffu32) as u8,
            (addr & 0xffu32) as u8,
        ];
        assert(ip@ =~= be32(addr));
        Ok(SocketAddress::V4 { ip, port })
    } else if family == FAMILY_IPV6 {
        if data.len() < 20 {
            return Err(StunError::XorMappedAddressIpv6TooShort);
        }
        // XOR mask: magic cookie + transaction ID
        let cookie = [0x21u8, 0x12u8, 0xA4u8, 0x42u8];
        assert(cookie@ =~= be32(MAGIC_COOKIE)) by {
            assert((MAGIC_COOKIE >> 24u32) as u8 == 0x21u8 && ((MAGIC_COOKIE >> 16u32) & 0xffu32) as u8
                == 0x12u8 && ((MAGIC_COOKIE >> 8u32) & 0xffu32) as u8 == 0xA4u8 && (MAGIC_COOKIE
                & 0xffu32) as u8 == 0x42u8) by (bit_vector);
        }
        let ghost mask = xor_mask(transaction_id@);
        let mut ip = [0u8; 16];
        let mut i: usize = 0;
        while i < 16
            invariant
                i <= 16,
                data@.len() >= 20,
                mask == cookie@ + transaction_id@,
                forall|k: int| 0 <= k < i ==> ip@[k] == data@[4 + k] ^ mask[k],
            decreases 16 - i,
        {
            let m = if i < 4 {
                cookie[i]
            } else {
                transaction_id[i - 4]
            };
            ip[i] = data[4 + i] ^ m;
            i = i + 1;
        }
        assert(ip@ =~= Seq::new(16, |k: int| data@[4 + k] ^ mask[k]));
        Ok(SocketAddress::V6 { ip, port })
    } else {
        Err(StunError::UnknownAddressFamily(family))
    }
}

/// Parse MAPPED-ADDRESS attribute (legacy, non-XOR)
pub fn parse_mapped_address(data: &[u8]) -> (r: Result<SocketAddress, StunError>)
    ensures
        result_view(r) == parse_mapped_spec(data@),
{
    if data.len() < 8 {
        return Err(StunError::MappedAddressTooShort);
    }
    let family = data[1];
    let port = read_be16(data, 2);
    if family == FAMILY_IPV4 {
        let ip = [data[4], data[5], data[6], data[7]];
        assert(ip@ =~= data@.subrange(4, 8));
        Ok(SocketAddress::V4 { ip, port })
    } else if family == FAMILY_IPV6 {
        if data.len() < 20 {
            return Err(StunError::MappedAddressIpv6TooShort);
        }
        let mut ip = [0u8; 16];
        let mut i: usize = 0;
        while i < 16
            invariant
                i <= 16,
                data@.len() >= 20,
                forall|k: int| 0 <= k < i ==> ip@[k] == data@[4 + k],
            decreases 16 - i,
        {
            ip[i] = data[4 + i];
            i = i + 1;
        }
        assert(ip@ =~= data@.subrange(4, 20));
        Ok(SocketAddress::V6 { ip, port })
    } else {
        Err(StunError::UnknownAddressFamily(family))
    }
}

/// Copies `data[start..end]`.
fn slice_of(data: &[u8], start: usize, end: usize) -> (r: Vec<u8>)
    requires
        start <= end <= data.len(),
    ensures
        r@ == data@.subrange(start as int, end as int),
{
    let mut out: Vec<u8> = Vec::new();
    let mut i: usize = start;
    while i < end
        invariant
            start <= i <= end <= data.len(),
            out@ == data@.subrange(start as int, i as int),
        decreases end - i,
    {
        out.push(data[i]);
        i = i + 1;
        assert(out@ =~= data@.subrange(start as int, i as int));
    }
    out
}

/// Parse a STUN binding response: checks the message type, the magic cookie
/// and the transaction id, then takes the first address attribute.
pub fn parse_binding_response(data: &[u8], expected_txn_id: &[u8; 12]) -> (r: Result<
    SocketAddress,
    StunError,
>)
    ensures
        result_view(r) == parse_response_spec(data@, expected_txn_id@),
{
    if data.len() < 20 {
        return Err(StunError::ResponseTooShort);
    }
    let msg_type = read_be16(data, 0);
    if msg_type != BINDING_RESPONSE {
        return Err(StunError::UnexpectedMessageType(msg_type));
    }
    let cookie = read_be32(data, 4);
    if cookie != MAGIC_COOKIE {
        return Err(StunError::InvalidMagicCookie);
    }
    let mut k: usize = 0;
    while k < 12
        invariant
            k <= 12,
            data@.len() >= 20,
            read_be16_at(data@, 0) == BINDING_RESPONSE,
            read_be32_at(data@, 4) == MAGIC_COOKIE,
            forall|j: int| 0 <= j < k ==> data@[8 + j] == expected_txn_id@[j],
        decreases 12 - k,
    {
        if data[8 + k] != expected_txn_id[k] {
            assert(data@.subrange(8, 20)[k as int] != expected_txn_id@[k as int]);
            assert(data@.subrange(8, 20) != expected_txn_id@);

            return Err(StunError::TransactionIdMismatch);
        }
        k = k + 1;
    }
    assert(data@.subrange(8, 20) =~= expected_txn_id@);
    let msg_len = read_be16(data, 2) as usize;
    if data.len() < 20 + msg_len {
        return Err(StunError::MessageTruncated);
    }
    let end = 20 + msg_len;
    let mut offset: usize = 20;
    while offset + 4 <= end
        invariant
            20 <= offset,
            end == 20 + msg_len,
            msg_len <= u16::MAX,
            end <= data@.len(),
            offset <= end + 65540,
            read_be16_at(data@, 0) == BINDING_RESPONSE,
            read_be32_at(data@, 4) == MAGIC_COOKIE,
            parse_response_spec(data@, expected_txn_id@) == walk_attributes(
                data@,
                expected_txn_id@,
                offset as int,
                end as int,
            ),
        decreases end + 65540 - offset,
    {
        let attr_type = read_be16(data, offset);
        let attr_len = read_be16(data, offset + 2) as usize;
        if offset + 4 + attr_len > data.len() {
            return Err(StunError::NoMappedAddress);
        }
        let value = slice_of(data, offset + 4, offset + 4 + attr_len);
        if attr_type == XOR_MAPPED_ADDRESS {
            return parse_xor_mapped_address(value.as_slice(), expected_txn_id);
        } else if attr_type == MAPPED_ADDRESS {
            return parse_mapped_address(value.as_slice());
        }
        // Align to 4-byte boundary
        offset = offset + 4 + ((attr_len + 3) - (attr_len + 3) % 4);
    }
    Err(StunError::NoMappedAddress)
}

/// The XOR-MAPPED-ADDRESS value that a server sends for an IPv4 address.
pub open spec fn xor_mapped_ipv4_value(ip: Seq<u8>, port: u16) -> Seq<u8> {
    seq![0u8, FAMILY_IPV4] + be16(port ^ 0x2112u16) + be32(
        crate::bytes::from_be32(ip[0], ip[1], ip[2], ip[3]) ^ MAGIC_COOKIE,
    )
}

/// The XOR-MAPPED-ADDRESS value that a server sends for an IPv6 address.
pub open spec fn xor_mapped_ipv6_value(ip: Seq<u8>, port: u16, txn: Seq<u8>) -> Seq<u8> {
    seq![0u8, FAMILY_IPV6] + be16(port ^ 0x2112u16) + Seq::new(16, |i: int| ip[i] ^ xor_mask(txn)[i])
}

/// XOR-mapping an IPv4 address and decoding it gives the address back.
pub proof fn lemma_xor_ipv4_roundtrip(ip: Seq<u8>, port: u16, txn: Seq<u8>)
    requires
        ip.len() == 4,
    ensures
        parse_xor_mapped_spec(xor_mapped_ipv4_value(ip, port), txn) == Ok::<AddressFields, StunError>((ip, port)),
{
    let d = xor_mapped_ipv4_value(ip, port);
    let p = port ^ 0x2112u16;
    let a = crate::bytes::from_be32(ip[0], ip[1], ip[2], ip[3]);
    crate::bytes::lemma_be16_roundtrip(p);
    crate::bytes::lemma_be32_roundtrip(a ^ MAGIC_COOKIE);
    assert(read_be16_at(d, 2) == p);
    assert(read_be32_at(d, 4) == a ^ MAGIC_COOKIE);
    assert((p ^ 0x2112u16) == port) by (bit_vector)
        requires
            p == port ^ 0x2112u16,
    ;
    assert(((a ^ MAGIC_COOKIE) ^ MAGIC_COOKIE) == a) by (bit_vector);
    crate::bytes::lemma_be32_of_bytes(ip[0], ip[1], ip[2], ip[3]);
    assert(seq![ip[0], ip[1], ip[2], ip[3]] =~= ip);
}

/// XOR-mapping an IPv6 address with a transaction id and decoding it with
/// the same id gives the address back.
pub proof fn lemma_xor_ipv6_roundtrip(ip: Seq<u8>, port: u16, txn: Seq<u8>)
    requires
        ip.len() == 16,
        txn.len() == 12,
    ensures
        parse_xor_mapped_spec(xor_mapped_ipv6_value(ip, port, txn), txn) == Ok::<AddressFields, StunError>((ip, port)),
{
    let d = xor_mapped_ipv6_value(ip, port, txn);
    let p = port ^ 0x2112u16;
    crate::bytes::lemma_be16_roundtrip(p);
    assert(read_be16_at(d, 2) == p);
    assert((p ^ 0x2112u16) == port) by (bit_vector)
        requires
            p == port ^ 0x2112u16,
    ;
    let m = xor_mask(txn);
    assert forall|i: int| 0 <= i < 16 implies d[4 + i] ^ m[i] == ip[i] by {
        let x = ip[i];
        let y = m[i];
        assert((x ^ y) ^ y == x) by (bit_vector);
    }
    assert(Seq::new(16, |i: int| d[4 + i] ^ m[i]) =~= ip);
}

/// A MAPPED-ADDRESS value carries the address as it is: an IPv4 value
/// (a reserved byte, family 1, the port big-endian and the four address
/// bytes) decodes to those four bytes and that port, whatever follows.
pub proof fn lemma_mapped_ipv4_plain(reserved: u8, port: u16, ip: Seq<u8>, rest: Seq<u8>)
    requires
        ip.len() == 4,
    ensures
        parse_mapped_spec(seq![reserved, FAMILY_IPV4] + be16(port) + ip + rest) == Ok::<
            AddressFields,
            StunError,
        >((ip, port)),
{
    let d = seq![reserved, FAMILY_IPV4] + be16(port) + ip + rest;
    crate::bytes::lemma_be16_roundtrip(port);
    assert(d[2] == be16(port)[0] && d[3] == be16(port)[1]);
    assert(d.subrange(4, 8) =~= ip);
}

/// An IPv6 MAPPED-ADDRESS value decodes to its sixteen address bytes as they
/// are, and its port.
pub proof fn lemma_mapped_ipv6_plain(reserved: u8, port: u16, ip: Seq<u8>, rest: Seq<u8>)
    requires
        ip.len() == 16,
    ensures
        parse_mapped_spec(seq![reserved, FAMILY_IPV6] + be16(port) + ip + rest) == Ok::<
            AddressFields,
            StunError,
        >((ip, port)),
{
    let d = seq![reserved, FAMILY_IPV6] + be16(port) + ip + rest;
    crate::bytes::lemma_be16_roundtrip(port);
    assert(d[2] == be16(port)[0] && d[3] == be16(port)[1]);
    assert(d.subrange(4, 20) =~= ip);
}

} // verus!
