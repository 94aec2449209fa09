use jamjam::encryption::{EncryptionContext, KeyExchangeMessage, KeyPair};
use jamjam::errors::NetworkError;
use jamjam::packet::Packet;

#[test]
fn test_key_exchange() {
    let alice = KeyPair::generate();
    let bob = KeyPair::generate();

    let alice_public = alice.public_key_bytes();
    let bob_public = bob.public_key_bytes();

    let alice_shared = alice.derive_shared_secret(&bob_public);
    let bob_shared = bob.derive_shared_secret(&alice_public);

    assert_eq!(alice_shared, bob_shared);
}

#[test]
fn test_encryption_roundtrip() {
    let shared_secret = [0x42u8; 32];

    let sender_ctx = EncryptionContext::from_shared_secret(&shared_secret, true);
    let _receiver_ctx = EncryptionContext::from_shared_secret(&shared_secret, false);

    let plaintext = b"Hello, encrypted world!";
    let sequence = 12345u32;

    let sender_ctx2 = EncryptionContext::from_shared_secret(&shared_secret, true);

    let ciphertext = sender_ctx.encrypt(sequence, plaintext).unwrap();
    let decrypted = sender_ctx2.decrypt(sequence, &ciphertext).unwrap();

    assert_eq!(plaintext.as_slice(), decrypted.as_slice());
}

#[test]
fn test_different_sequences_different_ciphertext() {
    let shared_secret = [0x42u8; 32];
    let ctx = EncryptionContext::from_shared_secret(&shared_secret, true);

    let plaintext = b"Same plaintext";

    let ct1 = ctx.encrypt(1, plaintext).unwrap();
    let ct2 = ctx.encrypt(2, plaintext).unwrap();

    assert_ne!(ct1, ct2);
}

#[test]
fn ciphertext_is_plaintext_plus_tag() {
    let ctx = EncryptionContext::from_shared_secret(&[7u8; 32], false);
    let ct = ctx.encrypt(3, &[1, 2, 3]).unwrap();
    assert_eq!(ct.len(), 3 + 16);
    assert_ne!(&ct[..3], &[1, 2, 3]);
}

#[test]
fn tampered_or_misplaced_ciphertext_is_refused() {
    let ctx = EncryptionContext::from_shared_secret(&[9u8; 32], true);
    let mut ct = ctx.encrypt(5, b"audio").unwrap();
    match ctx.decrypt(6, &ct) {
        Err(NetworkError::EncryptionError(m)) => assert_eq!(m, "Decryption failed"),
        other => panic!("Expected a decryption failure, got {:?}", other),
    }
    ct[0] ^= 1;
    assert!(ctx.decrypt(5, &ct).is_err());
    let other_role = EncryptionContext::from_shared_secret(&[9u8; 32], false);
    let ct = ctx.encrypt(5, b"audio").unwrap();
    assert!(other_role.decrypt(5, &ct).is_err());
}

#[test]
fn packet_encryption_roundtrip() {
    let ctx = EncryptionContext::from_shared_secret(&[1u8; 32], true);
    let packet = Packet::audio(77, 1000, vec![5, 6, 7, 8]);
    let sealed = ctx.encrypt_packet(&packet).unwrap();
    assert!(sealed.flags.encrypted);
    assert_eq!(sealed.sequence, 77);
    assert_eq!(sealed.payload.len(), 4 + 16);
    let opened = ctx.decrypt_packet(&sealed).unwrap();
    assert!(!opened.flags.encrypted);
    assert_eq!(opened.payload, vec![5, 6, 7, 8]);
    assert_eq!((opened.sequence, opened.timestamp), (77, 1000));
}

#[test]
fn key_exchange_message_carries_key() {
    let m = KeyExchangeMessage::new([3u8; 32]);
    assert_eq!(m.public_key, [3u8; 32]);
}
