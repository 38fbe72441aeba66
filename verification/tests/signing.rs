use taba::common::{AuthorId, ClusterId, LogicalClock, TrustDomainId, ValidityWindow, WallTime};
use taba::security::crypto::{KeyPair, PublicKey};
use taba::security::error::SecurityError;
use taba::security::signing::{encode_context, signing_payload, DefaultSigner, SignatureContext, SignedUnit};
use taba::security::verification::DefaultVerifier;

fn id() -> u128 {
    uuid::Uuid::new_v4().as_u128()
}

const UNIT: &[u8] = b"{\"kind\":\"workload\",\"state\":\"Declared\",\"provides\":[\"compute:http\"]}";
const TAMPERED: &[u8] = b"{\"kind\":\"workload\",\"state\":\"Running\",\"provides\":[\"compute:http\"]}";

fn test_validity() -> ValidityWindow {
    ValidityWindow { lc_range: Some((LogicalClock(1), LogicalClock(100))), wall_time_deadline: None }
}

#[test]
fn test_sign_and_verify_unit() {
    let key_pair = KeyPair::generate();
    let public_key = *key_pair.public_key();
    let signer = DefaultSigner::new(key_pair);
    let author = AuthorId(id());
    let trust_domain = TrustDomainId(id());
    let cluster = ClusterId(id());
    let validity = test_validity();
    let signature = signer.sign(UNIT, &trust_domain, &cluster, &validity).expect("signing should succeed");
    let mut verifier = DefaultVerifier::new();
    verifier.add_key(author, public_key, None);
    verifier
        .verify(&author, UNIT, &signature, &trust_domain, &cluster, &LogicalClock(1), Some(&validity))
        .expect("verification should succeed");
}

#[test]
fn test_sign_with_wrong_key_fails() {
    let key_pair_a = KeyPair::generate();
    let key_pair_b = KeyPair::generate();
    let public_key_b = *key_pair_b.public_key();
    let signer = DefaultSigner::new(key_pair_a);
    let author = AuthorId(id());
    let trust_domain = TrustDomainId(id());
    let cluster = ClusterId(id());
    let validity = test_validity();
    let signature = signer.sign(UNIT, &trust_domain, &cluster, &validity).expect("signing should succeed");
    let mut verifier = DefaultVerifier::new();
    verifier.add_key(author, public_key_b, None);
    let result = verifier.verify(&author, UNIT, &signature, &trust_domain, &cluster, &LogicalClock(1), Some(&validity));
    assert!(
        matches!(result, Err(SecurityError::InvalidSignature { .. })),
        "verification with wrong key should fail with InvalidSignature, got: {result:?}"
    );
}

#[test]
fn test_sign_tampered_unit_fails() {
    let key_pair = KeyPair::generate();
    let public_key = *key_pair.public_key();
    let signer = DefaultSigner::new(key_pair);
    let author = AuthorId(id());
    let trust_domain = TrustDomainId(id());
    let cluster = ClusterId(id());
    let validity = test_validity();
    let signature = signer.sign(UNIT, &trust_domain, &cluster, &validity).expect("signing should succeed");
    let mut verifier = DefaultVerifier::new();
    verifier.add_key(author, public_key, None);
    let result =
        verifier.verify(&author, TAMPERED, &signature, &trust_domain, &cluster, &LogicalClock(1), Some(&validity));
    assert!(
        matches!(result, Err(SecurityError::InvalidSignature { .. })),
        "tampered unit should fail verification, got: {result:?}"
    );
}

#[test]
fn test_sign_different_context_different_signature() {
    let signer = DefaultSigner::new(KeyPair::generate());
    let trust_domain_a = TrustDomainId(id());
    let trust_domain_b = TrustDomainId(id());
    let cluster = ClusterId(id());
    let validity = test_validity();
    let sig_a = signer.sign(UNIT, &trust_domain_a, &cluster, &validity).expect("signing A should succeed");
    let sig_b = signer.sign(UNIT, &trust_domain_b, &cluster, &validity).expect("signing B should succeed");
    assert_ne!(sig_a, sig_b, "same unit signed with different trust domains must produce different signatures");
}

// -- Additional cases --------------------------------------------------------

#[test]
fn context_encoding_is_ids_then_window_json() {
    let td = TrustDomainId(0x0102030405060708090a0b0c0d0e0f10);
    let cl = ClusterId(0x1112131415161718191a1b1c1d1e1f20);
    let w = ValidityWindow {
        lc_range: Some((LogicalClock(1), LogicalClock(100))),
        wall_time_deadline: Some(WallTime { millis: 42 }),
    };
    let bytes = encode_context(&td, &cl, Some(&w));
    let mut expected: Vec<u8> = (1u8..=32).collect();
    expected.extend_from_slice(b"{\"lc_range\":[1,100],\"wall_time_deadline\":{\"millis\":42}}");
    assert_eq!(bytes, expected);
    let none = ValidityWindow { lc_range: None, wall_time_deadline: None };
    let bytes = encode_context(&td, &cl, Some(&none));
    assert_eq!(&bytes[32..], b"{\"lc_range\":null,\"wall_time_deadline\":null}");
    assert_eq!(encode_context(&td, &cl, None).len(), 32);
}

#[test]
fn payload_is_sha256_of_unit_and_context() {
    let td = TrustDomainId(0);
    let cl = ClusterId(0);
    let p = signing_payload(b"", &td, &cl, None);
    assert_eq!(p.len(), 32);
    // SHA-256 of 32 zero bytes.
    assert_eq!(&p[..4], &[0x66, 0x68, 0x7a, 0xad]);
}

#[test]
fn signed_unit_holds_its_parts() {
    let signer = DefaultSigner::generate();
    let td = TrustDomainId(id());
    let cl = ClusterId(id());
    let validity = test_validity();
    let signature = signer.sign(UNIT, &td, &cl, &validity).expect("sign");
    let su = SignedUnit {
        unit: UNIT.to_vec(),
        signature,
        context: SignatureContext { trust_domain_id: td, cluster_id: cl, validity_window: validity },
        signer: *signer.public_key(),
    };
    assert_eq!(su.signature, signature);
    assert_ne!(su.signer, PublicKey([0u8; 32]));
}
