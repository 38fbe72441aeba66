use taba::common::{AuthorId, ClusterId, LogicalClock, TrustDomainId, ValidityWindow};
use taba::security::crypto::{KeyId, KeyPair, PublicKey};
use taba::security::error::SecurityError;
use taba::security::signing::DefaultSigner;
use taba::security::verification::DefaultVerifier;

fn id() -> u128 {
    uuid::Uuid::new_v4().as_u128()
}

const UNIT: &[u8] = b"{\"kind\":\"workload\",\"lc\":10}";

fn test_validity() -> ValidityWindow {
    ValidityWindow { lc_range: Some((LogicalClock(1), LogicalClock(100))), wall_time_deadline: None }
}

#[test]
fn test_verify_valid_signature() {
    let key_pair = KeyPair::generate();
    let public_key = *key_pair.public_key();
    let signer = DefaultSigner::new(key_pair);
    let author = AuthorId(id());
    let trust_domain = TrustDomainId(id());
    let cluster = ClusterId(id());
    let validity = test_validity();
    let signature = signer.sign(UNIT, &trust_domain, &cluster, &validity).expect("signing should succeed");
    let mut verifier = DefaultVerifier::new();
    verifier.add_key(author, public_key, None);
    verifier
        .verify(&author, UNIT, &signature, &trust_domain, &cluster, &LogicalClock(10), Some(&validity))
        .expect("valid signature should verify");
}

#[test]
fn test_verify_invalid_signature() {
    let key_pair_a = KeyPair::generate();
    let key_pair_b = KeyPair::generate();
    let public_key_b = *key_pair_b.public_key();
    let signer = DefaultSigner::new(key_pair_a);
    let author = AuthorId(id());
    let trust_domain = TrustDomainId(id());
    let cluster = ClusterId(id());
    let validity = test_validity();
    let signature = signer.sign(UNIT, &trust_domain, &cluster, &validity).expect("signing should succeed");
    let mut verifier = DefaultVerifier::new();
    verifier.add_key(author, public_key_b, None);
    let result =
        verifier.verify(&author, UNIT, &signature, &trust_domain, &cluster, &LogicalClock(10), Some(&validity));
    assert!(
        matches!(result, Err(SecurityError::InvalidSignature { .. })),
        "verification with wrong key should fail with InvalidSignature, got: {result:?}"
    );
}

#[test]
fn test_verify_revoked_key() {
    let key_pair = KeyPair::generate();
    let public_key = *key_pair.public_key();
    let signer = DefaultSigner::new(key_pair);
    let author = AuthorId(id());
    let trust_domain = TrustDomainId(id());
    let cluster = ClusterId(id());
    let validity = test_validity();
    let signature = signer.sign(UNIT, &trust_domain, &cluster, &validity).expect("signing should succeed");
    let mut verifier = DefaultVerifier::new();
    verifier.add_key(author, public_key, Some(5));
    let result =
        verifier.verify(&author, UNIT, &signature, &trust_domain, &cluster, &LogicalClock(10), Some(&validity));
    assert!(
        matches!(result, Err(SecurityError::KeyRevoked { revoked_at: 5, .. })),
        "revoked key should fail with KeyRevoked, got: {result:?}"
    );
}

#[test]
fn test_verify_context_mismatch() {
    let key_pair = KeyPair::generate();
    let public_key = *key_pair.public_key();
    let signer = DefaultSigner::new(key_pair);
    let author = AuthorId(id());
    let trust_domain_a = TrustDomainId(id());
    let trust_domain_b = TrustDomainId(id());
    let cluster = ClusterId(id());
    let validity = test_validity();
    let signature = signer.sign(UNIT, &trust_domain_a, &cluster, &validity).expect("signing should succeed");
    let mut verifier = DefaultVerifier::new();
    verifier.add_key(author, public_key, None);
    let result =
        verifier.verify(&author, UNIT, &signature, &trust_domain_b, &cluster, &LogicalClock(10), Some(&validity));
    assert!(
        matches!(result, Err(SecurityError::InvalidSignature { .. })),
        "context mismatch should fail with InvalidSignature, got: {result:?}"
    );
}

#[test]
fn test_verify_key_not_found() {
    let signer = DefaultSigner::new(KeyPair::generate());
    let author = AuthorId(id());
    let trust_domain = TrustDomainId(id());
    let cluster = ClusterId(id());
    let validity = test_validity();
    let signature = signer.sign(UNIT, &trust_domain, &cluster, &validity).expect("signing should succeed");
    let verifier = DefaultVerifier::new();
    let result =
        verifier.verify(&author, UNIT, &signature, &trust_domain, &cluster, &LogicalClock(10), Some(&validity));
    assert!(
        matches!(result, Err(SecurityError::KeyNotFound { .. })),
        "unknown signer should fail with KeyNotFound, got: {result:?}"
    );
}

#[test]
fn test_is_revoked_after_revoke() {
    let key_pair = KeyPair::generate();
    let public_key = *key_pair.public_key();
    let key_id = KeyId::from_public_key(&public_key);
    let author_id = AuthorId(id());
    let mut verifier = DefaultVerifier::new();
    verifier.add_key(author_id, public_key, None);
    assert!(!verifier.is_revoked(&author_id), "key should not be revoked before revoke()");
    verifier.revoke(&key_id);
    assert!(verifier.is_revoked(&author_id), "key should be revoked after revoke()");
}

// -- Additional cases --------------------------------------------------------

#[test]
fn revocation_applies_from_its_clock_on() {
    let key_pair = KeyPair::generate();
    let public_key = *key_pair.public_key();
    let signer = DefaultSigner::new(key_pair);
    let author = AuthorId(id());
    let td = TrustDomainId(id());
    let cl = ClusterId(id());
    let sig = signer.sign(UNIT, &td, &cl, &test_validity()).expect("sign");
    let mut verifier = DefaultVerifier::new();
    verifier.add_key(author, public_key, Some(10));
    // Before the revocation clock the unit is accepted.
    assert!(verifier.verify(&author, UNIT, &sig, &td, &cl, &LogicalClock(9), Some(&test_validity())).is_ok());
    // At the clock it is rejected.
    assert!(matches!(
        verifier.verify(&author, UNIT, &sig, &td, &cl, &LogicalClock(10), Some(&test_validity())),
        Err(SecurityError::KeyRevoked { revoked_at: 10, .. })
    ));
}

#[test]
fn revoke_keeps_an_earlier_clock() {
    let key_pair = KeyPair::generate();
    let public_key = *key_pair.public_key();
    let signer = DefaultSigner::new(key_pair);
    let author = AuthorId(id());
    let td = TrustDomainId(id());
    let cl = ClusterId(id());
    let sig = signer.sign(UNIT, &td, &cl, &test_validity()).expect("sign");
    let mut verifier = DefaultVerifier::new();
    verifier.add_key(author, public_key, Some(50));
    verifier.revoke(&KeyId::from_public_key(&public_key));
    // The key stays revoked at 50, not 0.
    assert!(verifier.verify(&author, UNIT, &sig, &td, &cl, &LogicalClock(49), Some(&test_validity())).is_ok());
}

#[test]
fn non_canonical_key_is_a_key_error() {
    let author = AuthorId(0x00112233445566778899aabbccddeeff);
    let mut bytes = [0u8; 32];
    bytes[0] = 2;
    let mut verifier = DefaultVerifier::new();
    verifier.add_key(author, PublicKey(bytes), None);
    let sig = DefaultSigner::generate().sign(UNIT, &TrustDomainId(1), &ClusterId(2), &test_validity()).expect("sign");
    match verifier.verify(&author, UNIT, &sig, &TrustDomainId(1), &ClusterId(2), &LogicalClock(1), None) {
        Err(SecurityError::KeyError { reason }) => assert_eq!(
            reason,
            "author AuthorId(00112233-4455-6677-8899-aabbccddeeff) has a non-canonical public key"
        ),
        other => panic!("unexpected {other:?}"),
    }
}

#[test]
fn missing_key_reports_zero_key_id() {
    let verifier = DefaultVerifier::new();
    let sig = DefaultSigner::generate().sign(UNIT, &TrustDomainId(1), &ClusterId(2), &test_validity()).expect("sign");
    match verifier.verify(&AuthorId(5), UNIT, &sig, &TrustDomainId(1), &ClusterId(2), &LogicalClock(1), None) {
        Err(SecurityError::KeyNotFound { key }) => assert_eq!(key, KeyId([0u8; 32])),
        other => panic!("unexpected {other:?}"),
    }
}

#[test]
fn window_is_part_of_the_signed_context() {
    let key_pair = KeyPair::generate();
    let public_key = *key_pair.public_key();
    let signer = DefaultSigner::new(key_pair);
    let author = AuthorId(id());
    let td = TrustDomainId(id());
    let cl = ClusterId(id());
    let sig = signer.sign(UNIT, &td, &cl, &test_validity()).expect("sign");
    let mut verifier = DefaultVerifier::new();
    verifier.add_key(author, public_key, None);
    let other = ValidityWindow { lc_range: Some((LogicalClock(1), LogicalClock(101))), wall_time_deadline: None };
    assert!(verifier.verify(&author, UNIT, &sig, &td, &cl, &LogicalClock(1), Some(&other)).is_err());
    assert!(verifier.verify(&author, UNIT, &sig, &td, &cl, &LogicalClock(1), None).is_err());
}
