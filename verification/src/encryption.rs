//! Encryption of packet payloads between two peers.
//!
//! The peers agree on a secret by X25519. From it, HKDF-SHA256 derives an
//! AES-256-GCM key and a 4-byte nonce prefix; each payload is sealed under the
//! nonce `prefix ++ sequence (big-endian) ++ 0000`, so no two packets of one
//! sender share a nonce.
use vstd::prelude::*;
use vstd::utf8::encode_utf8;
use aes_gcm::aead::{Aead, KeyInit};
use aes_gcm::{Aes256Gcm, Key, Nonce};
use hkdf::Hkdf;
use rand::rngs::OsRng;
use rand::RngCore;
use sha2::Sha256;
use crate::bytes::{be32, lemma_be32_roundtrip};
use crate::errors::NetworkError;
use crate::packet::{Packet, PacketFields, PacketFlags};

verus! {

/// Size of the authentication tag that sealing appends
pub const TAG_SIZE: usize = 16;

/// Size of a nonce (96 bits)
pub const NONCE_SIZE: usize = 12;

/// Longest plaintext AES-GCM seals: 2^36 bytes
pub const MAX_PLAINTEXT_LEN: u64 = 68719476736;

#[verifier::external_type_specification]
#[verifier::external_body]
pub struct ExAeadError(aes_gcm::Error);

/// The X25519 function of RFC 7748 on a secret scalar `k` and the
/// u-coordinate `u`, both as 32 bytes: the u-coordinate of the clamped
/// multiple of the point.
pub uninterp spec fn x25519_of(k: Seq<u8>, u: Seq<u8>) -> Seq<u8>;

/// The u-coordinate of the X25519 base point: 9, little-endian.
pub open spec fn basepoint() -> Seq<u8> {
    seq![9u8] + Seq::new(31, |i: int| 0u8)
}

/// The `len` bytes HKDF-SHA256 expands from input key material `ikm`, with
/// no salt, for context `info`.
pub uninterp spec fn hkdf_sha256(ikm: Seq<u8>, info: Seq<u8>, len: nat) -> Seq<u8>;

/// The AES-256-GCM sealing of `plaintext` under `key` and `nonce`, without
/// associated data: the ciphertext followed by the tag.
pub uninterp spec fn aes256gcm_seal(key: Seq<u8>, nonce: Seq<u8>, plaintext: Seq<u8>) -> Seq<u8>;

/// The AES-256-GCM opening of `ciphertext` under `key` and `nonce`: the
/// plaintext when the tag checks out.
pub uninterp spec fn aes256gcm_open(key: Seq<u8>, nonce: Seq<u8>, ciphertext: Seq<u8>) -> Option<
    Seq<u8>,
>;

/// `hkdf::Hkdf::<Sha256>::new(None, ikm)` followed by `expand(info, ..)`
/// into `len` bytes. The expansion only fails above 255 blocks of 32 bytes.
#[verifier::external_body]
fn hkdf_expand(ikm: &[u8], info: &[u8], len: usize) -> (r: Vec<u8>)
    requires
        len <= 255 * 32,
    ensures
        r@ == hkdf_sha256(ikm@, info@, len as nat),
        r@.len() == len,
{
    let hk = Hkdf::<Sha256>::new(None, ikm);
    let mut out = vec![0u8; len];
    hk.expand(info, &mut out).unwrap();
    out
}

/// `aes_gcm::Aes256Gcm::encrypt` of `plaintext` under `key` and `nonce`.
/// It succeeds exactly on plaintexts of at most 2^36 bytes; the result is
/// the ciphertext and a 16-byte tag, and opening it under the same key and
/// nonce gives the plaintext back.
#[verifier::external_body]
fn aes_gcm_seal(key: &[u8; 32], nonce: &[u8; 12], plaintext: &[u8]) -> (r: Result<
    Vec<u8>,
    aes_gcm::Error,
>)
    ensures
        r is Ok <==> plaintext@.len() <= MAX_PLAINTEXT_LEN,
        r matches Ok(c) ==> c@ == aes256gcm_seal(key@, nonce@, plaintext@),
        r matches Ok(c) ==> c@.len() == plaintext@.len() + TAG_SIZE,
        r matches Ok(c) ==> aes256gcm_open(key@, nonce@, c@) == Some(plaintext@),
{
    let cipher = Aes256Gcm::new(Key::<Aes256Gcm>::from_slice(key));
    cipher.encrypt(Nonce::from_slice(nonce), plaintext)
}

/// `aes_gcm::Aes256Gcm::decrypt` of `ciphertext` under `key` and `nonce`:
/// the plaintext when the tag checks out, an error otherwise.
#[verifier::external_body]
fn aes_gcm_open(key: &[u8; 32], nonce: &[u8; 12], ciphertext: &[u8]) -> (r: Result<
    Vec<u8>,
    aes_gcm::Error,
>)
    ensures
        r is Ok <==> aes256gcm_open(key@, nonce@, ciphertext@) is Some,
        r matches Ok(p) ==> aes256gcm_open(key@, nonce@, ciphertext@) == Some(p@),
{
    let cipher = Aes256Gcm::new(Key::<Aes256Gcm>::from_slice(key));
    cipher.decrypt(Nonce::from_slice(nonce), ciphertext)
}

/// `rand_core::RngCore::fill_bytes` of the operating system's generator
/// (`OsRng`) on 32 bytes: a fresh random secret, as x25519-dalek draws one.
#[verifier::external_body]
fn random_secret_bytes() -> [u8; 32] {
    let mut bytes = [0u8; 32];
    OsRng.fill_bytes(&mut bytes);
    bytes
}

/// `x25519_dalek::x25519`: the X25519 function on secret `k` and
/// u-coordinate `u`. On the base point it gives the public key of `k`, and
/// then, as the crate documents for the exchange, any other secret `b`
/// applied to that public key gives what `k` gives applied to the public key
/// of `b`.
#[verifier::external_body]
fn x25519_bytes(k: [u8; 32], u: [u8; 32]) -> (r: [u8; 32])
    ensures
        r@ == x25519_of(k@, u@),
        u@ == basepoint() ==> forall|b: Seq<u8>|
            b.len() == 32 ==> #[trigger] x25519_of(b, r@) == x25519_of(k@, x25519_of(b, basepoint())),
{
    x25519_dalek::x25519(k, u)
}

/// A key pair for one X25519 exchange.
pub struct KeyPair {
    secret: [u8; 32],
    public: [u8; 32],
}

impl KeyPair {
    /// The secret half.
    pub closed spec fn secret_bytes(&self) -> Seq<u8> {
        self.secret@
    }

    /// The public half, as the bytes to send to the other peer.
    pub closed spec fn public_bytes(&self) -> Seq<u8> {
        self.public@
    }

    /// The public half is the X25519 multiple of the base point by the secret
    /// half, and so agrees with every other secret.
    pub closed spec fn wf(&self) -> bool {
        &&& self.public@ == x25519_of(self.secret@, basepoint())
        &&& forall|b: Seq<u8>|
            b.len() == 32 ==> #[trigger] x25519_of(b, self.public@) == x25519_of(
                self.secret@,
                x25519_of(b, basepoint()),
            )
    }

    /// A new random key pair: a secret drawn from the operating system's
    /// generator and its public key.
    pub fn generate() -> (k: Self)
        ensures
            k.wf(),
            k.public_bytes() == x25519_of(k.secret_bytes(), basepoint()),
            k.secret_bytes().len() == 32,
    {
        let secret = random_secret_bytes();
        let base: [u8; 32] = [
            9, 0, 0, 0, 0, 0, 0, 0, 0, 0, 0, 0, 0, 0, 0, 0, 0, 0, 0, 0, 0, 0, 0, 0, 0, 0, 0, 0, 0,
            0, 0, 0,
        ];
        assert(base@ =~= basepoint());
        let public = x25519_bytes(secret, base);
        KeyPair { secret, public }
    }

    /// The public key bytes, for the other peer.
    pub fn public_key_bytes(&self) -> (r: [u8; 32])
        ensures
            r@ == self.public_bytes(),
    {
        self.public
    }

    /// The secret shared with the peer whose public key is `peer_public`;
    /// this uses up the key pair.
    pub fn derive_shared_secret(self, peer_public: &[u8; 32]) -> (shared: [u8; 32])
        ensures
            shared@ == x25519_of(self.secret_bytes(), peer_public@),
    {
        x25519_bytes(self.secret, *peer_public)
    }
}

/// Key agreement: each side's secret applied to the other's public key gives
/// the same shared secret.
pub proof fn lemma_key_agreement(a: KeyPair, b: KeyPair)
    requires
        a.wf(),
        b.wf(),
    ensures
        x25519_of(a.secret_bytes(), b.public_bytes()) == x25519_of(
            b.secret_bytes(),
            a.public_bytes(),
        ),
{
    assert(a.secret_bytes().len() == 32);
    assert(x25519_of(a.secret_bytes(), b.public_bytes()) == x25519_of(
        b.secret_bytes(),
        x25519_of(a.secret_bytes(), basepoint()),
    ));
}

/// The context strings of the derivations, by role.
pub open spec fn key_info(initiator: bool) -> Seq<u8> {
    if initiator {
        encode_utf8("jamjam-session-key-initiator"@)
    } else {
        encode_utf8("jamjam-session-key-responder"@)
    }
}

pub open spec fn nonce_info(initiator: bool) -> Seq<u8> {
    if initiator {
        encode_utf8("jamjam-nonce-prefix-initiator"@)
    } else {
        encode_utf8("jamjam-nonce-prefix-responder"@)
    }
}

/// The nonce of the packet with sequence number `sequence`: the 4-byte
/// prefix, the sequence number big-endian, and four zero bytes.
pub open spec fn nonce_of(prefix: Seq<u8>, sequence: u32) -> Seq<u8> {
    prefix + be32(sequence) + seq![0u8, 0u8, 0u8, 0u8]
}

/// Different sequence numbers give different nonces under one prefix.
pub proof fn lemma_nonces_distinct(prefix: Seq<u8>, a: u32, b: u32)
    requires
        prefix.len() == 4,
        a != b,
    ensures
        nonce_of(prefix, a) != nonce_of(prefix, b),
{
    lemma_be32_roundtrip(a);
    lemma_be32_roundtrip(b);
    if nonce_of(prefix, a) == nonce_of(prefix, b) {
        assert(nonce_of(prefix, a).subrange(4, 8) =~= be32(a));
        assert(nonce_of(prefix, b).subrange(4, 8) =~= be32(b));
    }
}

/// The key and nonce prefix of one direction of a session.
pub struct EncryptionContext {
    key: [u8; 32],
    nonce_prefix: [u8; 4],
}

/// A context as plain values: the key and the nonce prefix.
pub type ContextModel = (Seq<u8>, Seq<u8>);

impl View for EncryptionContext {
    type V = ContextModel;

    closed spec fn view(&self) -> ContextModel {
        (self.key@, self.nonce_prefix@)
    }
}

/// What decrypting `ciphertext` of packet `sequence` gives under a context.
pub open spec fn open_payload(c: ContextModel, sequence: u32, ciphertext: Seq<u8>) -> Option<
    Seq<u8>,
> {
    aes256gcm_open(c.0, nonce_of(c.1, sequence), ciphertext)
}

fn to_array32(v: &Vec<u8>) -> (r: [u8; 32])
    requires
        v@.len() == 32,
    ensures
        r@ == v@,
{
    let mut a = [0u8; 32];
    let mut i: usize = 0;
    while i < 32
        invariant
            i <= 32,
            v@.len() == 32,
            forall|j: int| 0 <= j < i ==> a@[j] == v@[j],
        decreases 32 - i,
    {
        a[i] = v[i];
        i = i + 1;
    }
    assert(a@ =~= v@);
    a
}

impl EncryptionContext {
    /// The context derived from `shared_secret` for one role: the key is the
    /// 32 bytes HKDF expands for the role's key context, the nonce prefix the
    /// 4 bytes it expands for the role's nonce context.
    pub fn from_shared_secret(shared_secret: &[u8], is_initiator: bool) -> (c: Self)
        ensures
            c@.0 == hkdf_sha256(shared_secret@, key_info(is_initiator), 32),
            c@.1 == hkdf_sha256(shared_secret@, nonce_info(is_initiator), 4),
    {
        let info = if is_initiator {
            "jamjam-session-key-initiator".as_bytes()
        } else {
            "jamjam-session-key-responder".as_bytes()
        };
        let key_bytes = hkdf_expand(shared_secret, info, 32);
        let nonce_info = if is_initiator {
            "jamjam-nonce-prefix-initiator".as_bytes()
        } else {
            "jamjam-nonce-prefix-responder".as_bytes()
        };
        let prefix_bytes = hkdf_expand(shared_secret, nonce_info, 4);
        let key = to_array32(&key_bytes);
        let nonce_prefix: [u8; 4] = [prefix_bytes[0], prefix_bytes[1], prefix_bytes[2], prefix_bytes[3]];
        assert(nonce_prefix@ =~= prefix_bytes@);
        EncryptionContext { key, nonce_prefix }
    }

    /// The nonce of packet `sequence`.
    fn derive_nonce(&self, sequence: u32) -> (n: [u8; 12])
        ensures
            n@ == nonce_of(self@.1, sequence),
    {
        let p = self.nonce_prefix;
        let n: [u8; 12] = [
            p[0],
            p[1],
            p[2],
            p[3],
            (sequence >> 24u32) as u8,
            ((sequence >> 16u32) & 0xffu32) as u8,
            ((sequence >> 8u32) & 0xffu32) as u8,
            (sequence & 0xffu32) as u8,
            0,
            0,
            0,
            0,
        ];
        assert(n@ =~= nonce_of(self@.1, sequence));
        n
    }

    /// Seals the payload of packet `sequence`. Decrypting the result with
    /// the same context and sequence number gives `plaintext` back.
    pub fn encrypt(&self, sequence: u32, plaintext: &[u8]) -> (r: Result<Vec<u8>, NetworkError>)
        ensures
            r is Ok <==> plaintext@.len() <= MAX_PLAINTEXT_LEN,
            r matches Ok(c) ==> c@ == aes256gcm_seal(self@.0, nonce_of(self@.1, sequence), plaintext@),
            r matches Ok(c) ==> open_payload(self@, sequence, c@) == Some(plaintext@),
            r matches Err(e) ==> e matches NetworkError::EncryptionError(m) && m@
                == "Encryption failed"@,
    {
        let nonce = self.derive_nonce(sequence);
        match aes_gcm_seal(&self.key, &nonce, plaintext) {
            Ok(c) => Ok(c),
            Err(_) => Err(NetworkError::EncryptionError("Encryption failed".to_string())),
        }
    }

    /// Opens the payload of packet `sequence`; fails unless the tag checks out.
    pub fn decrypt(&self, sequence: u32, ciphertext: &[u8]) -> (r: Result<Vec<u8>, NetworkError>)
        ensures
            r is Ok <==> open_payload(self@, sequence, ciphertext@) is Some,
            r matches Ok(p) ==> open_payload(self@, sequence, ciphertext@) == Some(p@),
            r matches Err(e) ==> e matches NetworkError::EncryptionError(m) && m@
                == "Decryption failed"@,
    {
        let nonce = self.derive_nonce(sequence);
        match aes_gcm_open(&self.key, &nonce, ciphertext) {
            Ok(p) => Ok(p),
            Err(_) => Err(NetworkError::EncryptionError("Decryption failed".to_string())),
        }
    }
}


/// `p` with its encrypted flag set to `on` and payload `payload`.
pub open spec fn with_payload(p: PacketFields, on: bool, payload: Seq<u8>) -> PacketFields {
    (p.0, p.1, p.2, p.3, PacketFlags { encrypted: on, ..p.4 }, payload)
}

/// What opening a sealed packet gives: the packet with the payload opened
/// and the encrypted flag cleared, when the tag checks out.
pub open spec fn opened_packet(c: ContextModel, p: PacketFields) -> Option<PacketFields> {
    match open_payload(c, p.2, p.5) {
        Some(plain) => Some(with_payload(p, false, plain)),
        None => None,
    }
}

impl EncryptionContext {
    /// The packet to send for `packet`: the same header with the encrypted
    /// flag set, and the payload sealed under the packet's sequence number.
    /// Opening the result gives `packet` back with the flag cleared.
    pub fn encrypt_packet(&self, packet: &Packet) -> (r: Result<Packet, NetworkError>)
        ensures
            r is Ok <==> packet.payload@.len() <= MAX_PLAINTEXT_LEN,
            r matches Ok(q) ==> q@ == with_payload(
                packet@,
                true,
                aes256gcm_seal(self@.0, nonce_of(self@.1, packet.sequence), packet.payload@),
            ),
            r matches Ok(q) ==> opened_packet(self@, q@) == Some(with_payload(packet@, false, packet.payload@)),
            r matches Err(e) ==> e matches NetworkError::EncryptionError(_),
    {
        let sealed = self.encrypt(packet.sequence, packet.payload.as_slice())?;
        Ok(
            Packet {
                version: packet.version,
                packet_type: packet.packet_type,
                sequence: packet.sequence,
                timestamp: packet.timestamp,
                flags: PacketFlags { encrypted: true, has_fec: packet.flags.has_fec },
                payload: sealed,
            },
        )
    }

    /// The packet a received sealed packet carries: the payload opened and
    /// the encrypted flag cleared; fails unless the tag checks out.
    pub fn decrypt_packet(&self, packet: &Packet) -> (r: Result<Packet, NetworkError>)
        ensures
            match r {
                Ok(q) => opened_packet(self@, packet@) == Some(q@),
                Err(e) => opened_packet(self@, packet@) is None && e matches NetworkError::EncryptionError(
                    _,
                ),
            },
    {
        let plain = self.decrypt(packet.sequence, packet.payload.as_slice())?;
        Ok(
            Packet {
                version: packet.version,
                packet_type: packet.packet_type,
                sequence: packet.sequence,
                timestamp: packet.timestamp,
                flags: PacketFlags { encrypted: false, has_fec: packet.flags.has_fec },
                payload: plain,
            },
        )
    }
}

/// The message that carries a public key during the key exchange.
#[derive(Debug, Clone, Copy)]
pub struct KeyExchangeMessage {
    pub public_key: [u8; 32],
}

impl KeyExchangeMessage {
    pub fn new(public_key: [u8; 32]) -> (m: Self)
        ensures
            m.public_key == public_key,
    {
        KeyExchangeMessage { public_key }
    }
}

} // verus!
