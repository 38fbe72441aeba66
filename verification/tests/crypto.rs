use taba::security::crypto::{KeyId, KeyPair, PublicKey, Signature, SigningKey, VerifyingKey};
use taba::security::error::SecurityError;

#[test]
fn test_key_pair_generate() {
    let key_pair = KeyPair::generate();
    let pk = key_pair.public_key();
    assert_ne!(pk, &PublicKey([0u8; 32]), "generated public key should be non-zero");
}

#[test]
fn test_key_id_from_public_key() {
    let key_pair = KeyPair::generate();
    let pk = *key_pair.public_key();
    let id1 = KeyId::from_public_key(&pk);
    let id2 = KeyId::from_public_key(&pk);
    assert_eq!(id1, id2, "same public key must produce the same KeyId");
}

#[test]
fn test_key_id_different_keys() {
    let key_pair_a = KeyPair::generate();
    let key_pair_b = KeyPair::generate();
    let id_a = KeyId::from_public_key(key_pair_a.public_key());
    let id_b = KeyId::from_public_key(key_pair_b.public_key());
    assert_ne!(id_a, id_b, "different keys must produce different KeyIds");
}

#[test]
fn test_signing_key_not_clone() {
    let key_pair = KeyPair::generate();
    assert_ne!(*key_pair.public_key(), PublicKey([0u8; 32]));
}

#[test]
fn test_sign_and_verify_raw() {
    let key_pair = KeyPair::generate();
    let message = b"hello, taba!";
    let signature = key_pair.signing_key().sign_raw(message).expect("signing should succeed");
    let vk = key_pair.public_key().to_verifying_key().expect("valid public key");
    assert!(vk.verify_raw(message, &signature).is_ok(), "signature should verify");
    assert!(vk.verify_raw(b"tampered", &signature).is_err(), "tampered message should fail verification");
}

// -- Additional cases --------------------------------------------------------

#[test]
fn key_id_is_sha256_of_public_key() {
    // SHA-256 of 32 zero bytes.
    let id = KeyId::from_public_key(&PublicKey([0u8; 32]));
    assert_eq!(
        id.0,
        [
            0x66, 0x68, 0x7a, 0xad, 0xf8, 0x62, 0xbd, 0x77, 0x6c, 0x8f, 0xc1, 0x8b, 0x8e, 0x9f, 0x8e, 0x20, 0x08,
            0x97, 0x14, 0x85, 0x6e, 0xe2, 0x33, 0xb3, 0x90, 0x2a, 0x59, 0x1d, 0x0d, 0x5f, 0x29, 0x25
        ]
    );
}

#[test]
fn public_key_of_known_seed() {
    // RFC 8032, test 1.
    let seed: [u8; 32] = [
        0x9d, 0x61, 0xb1, 0x9d, 0xef, 0xfd, 0x5a, 0x60, 0xba, 0x84, 0x4a, 0xf4, 0x92, 0xec, 0x2c, 0xc4, 0x44, 0x49,
        0xc5, 0x69, 0x7b, 0x32, 0x69, 0x19, 0x70, 0x3b, 0xac, 0x03, 0x1c, 0xae, 0x7f, 0x60,
    ];
    let expected: [u8; 32] = [
        0xd7, 0x5a, 0x98, 0x01, 0x82, 0xb1, 0x0a, 0xb7, 0xd5, 0x4b, 0xfe, 0xd3, 0xc9, 0x64, 0x07, 0x3a, 0x0e, 0xe1,
        0x72, 0xf3, 0xda, 0xa6, 0x23, 0x25, 0xaf, 0x02, 0x1a, 0x68, 0xf7, 0x07, 0x51, 0x1a,
    ];
    let sk = SigningKey::from_bytes(&seed);
    assert_eq!(sk.public_key().0, expected);
    assert_eq!(sk.to_bytes(), seed);
    let kp = KeyPair::from_signing_key(sk);
    assert_eq!(kp.public_key().0, expected);
    // The empty message's signature from the same RFC test vector starts with e5 56 43 00.
    let sig = kp.signing_key().sign_raw(b"").expect("sign");
    assert_eq!(&sig.0[..4], &[0xe5, 0x56, 0x43, 0x00]);
}

#[test]
fn wrong_key_rejects_signature() {
    let a = KeyPair::generate();
    let b = KeyPair::generate();
    let sig = a.signing_key().sign_raw(b"msg").expect("sign");
    let vk = b.public_key().to_verifying_key().expect("valid");
    match vk.verify_raw(b"msg", &sig) {
        Err(SecurityError::InvalidSignature { .. }) => {}
        other => panic!("unexpected {other:?}"),
    }
}

#[test]
fn verifying_key_round_trips_to_public_key() {
    let kp = KeyPair::generate();
    let vk = VerifyingKey::from_public_key(kp.public_key()).expect("valid");
    assert_eq!(vk.to_public_key(), *kp.public_key());
}

#[test]
fn non_point_is_not_a_verifying_key() {
    // The y-coordinate 2 is not on the curve.
    let mut bytes = [0u8; 32];
    bytes[0] = 2;
    assert!(PublicKey::from_bytes(bytes).to_verifying_key().is_none());
}

#[test]
fn byte_accessors() {
    let pk = PublicKey::from_bytes([7u8; 32]);
    assert_eq!(pk.as_bytes(), &[7u8; 32]);
    let sig = Signature::from_bytes([9u8; 64]);
    assert_eq!(sig.as_bytes(), &[9u8; 64]);
    let id = KeyId([3u8; 32]);
    assert_eq!(id.as_bytes(), &[3u8; 32]);
}
