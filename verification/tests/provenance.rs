use taba::security::crypto::KeyPair;
use taba::security::error::SecurityError;
use taba::security::provenance::{provenance_payload, sign_provenance, DefaultProvenanceVerifier, MinSlsaLevel, SlsaProvenance};

fn valid_provenance() -> SlsaProvenance {
    SlsaProvenance {
        builder: "github-actions/v3".to_string(),
        source_repo: "github.com/acme/service".to_string(),
        source_digest: "sha256:abc123def456".to_string(),
        slsa_level: 1,
        build_timestamp: 1_735_689_600_000,
        builder_signature: Vec::new(),
        build_parameters: vec![("env".to_string(), "production".to_string())],
    }
}

fn signed_level3_provenance() -> (SlsaProvenance, KeyPair) {
    let key_pair = KeyPair::generate();
    let mut provenance = SlsaProvenance { slsa_level: 3, ..valid_provenance() };
    sign_provenance(&mut provenance, key_pair.signing_key()).expect("sign should succeed");
    (provenance, key_pair)
}

#[test]
fn test_verify_no_minimum() {
    let provenance = valid_provenance();
    let verifier = DefaultProvenanceVerifier::new();
    verifier.verify(&provenance, MinSlsaLevel::default(), None).expect("verify with no minimum should succeed");
}

#[test]
fn test_verify_slsa_level_meets_minimum() {
    let (provenance, _) = signed_level3_provenance();
    let verifier = DefaultProvenanceVerifier::new();
    verifier.verify(&provenance, MinSlsaLevel(2), None).expect("SLSA level 3 >= 2 should succeed");
}

#[test]
fn test_verify_slsa_level_below_minimum() {
    let provenance = SlsaProvenance { slsa_level: 1, ..valid_provenance() };
    let verifier = DefaultProvenanceVerifier::new();
    let result = verifier.verify(&provenance, MinSlsaLevel(2), None);
    assert!(result.is_err(), "SLSA level 1 < 2 should fail");
}

#[test]
fn test_verify_source_digest_match() {
    let provenance = valid_provenance();
    let verifier = DefaultProvenanceVerifier::new();
    verifier.verify(&provenance, MinSlsaLevel(0), Some("sha256:abc123def456")).expect("matching digest should succeed");
}

#[test]
fn test_verify_source_digest_mismatch() {
    let provenance = valid_provenance();
    let verifier = DefaultProvenanceVerifier::new();
    let result = verifier.verify(&provenance, MinSlsaLevel(0), Some("sha256:wrong"));
    assert!(result.is_err(), "mismatched digest should fail");
}

#[test]
fn test_verify_empty_builder() {
    let provenance = SlsaProvenance { builder: String::new(), ..valid_provenance() };
    let verifier = DefaultProvenanceVerifier::new();
    let result = verifier.verify(&provenance, MinSlsaLevel(0), None);
    assert!(result.is_err(), "empty builder should fail");
}

#[test]
fn test_verify_empty_source_repo() {
    let provenance = SlsaProvenance { source_repo: String::new(), ..valid_provenance() };
    let verifier = DefaultProvenanceVerifier::new();
    let result = verifier.verify(&provenance, MinSlsaLevel(0), None);
    assert!(result.is_err(), "empty source_repo should fail");
}

#[test]
fn test_verify_empty_source_digest() {
    let provenance = SlsaProvenance { source_digest: String::new(), ..valid_provenance() };
    let verifier = DefaultProvenanceVerifier::new();
    let result = verifier.verify(&provenance, MinSlsaLevel(0), None);
    assert!(result.is_err(), "empty source_digest should fail");
}

#[test]
fn test_sign_and_verify_provenance() {
    let key_pair = KeyPair::generate();
    let public_key = *key_pair.public_key();
    let mut provenance = SlsaProvenance { slsa_level: 3, ..valid_provenance() };
    sign_provenance(&mut provenance, key_pair.signing_key()).expect("sign should succeed");
    let verifier = DefaultProvenanceVerifier::new();
    verifier.verify(&provenance, MinSlsaLevel(3), None).expect("verify without trusted builder should succeed");
    let verifier = DefaultProvenanceVerifier::new().with_trusted_builder("github-actions/v3", public_key.0);
    verifier.verify(&provenance, MinSlsaLevel(3), None).expect("verify with valid signature should succeed");
}

#[test]
fn test_verify_wrong_builder_signature() {
    let key_pair_a = KeyPair::generate();
    let key_pair_b = KeyPair::generate();
    let mut provenance = SlsaProvenance { slsa_level: 3, ..valid_provenance() };
    sign_provenance(&mut provenance, key_pair_a.signing_key()).expect("sign should succeed");
    let verifier = DefaultProvenanceVerifier::new().with_trusted_builder("github-actions/v3", key_pair_b.public_key().0);
    let result = verifier.verify(&provenance, MinSlsaLevel(3), None);
    assert!(result.is_err(), "verification with wrong key should fail");
}

#[test]
fn test_verify_tampered_provenance() {
    let key_pair = KeyPair::generate();
    let public_key = *key_pair.public_key();
    let mut provenance = SlsaProvenance { slsa_level: 3, ..valid_provenance() };
    sign_provenance(&mut provenance, key_pair.signing_key()).expect("sign should succeed");
    provenance.source_repo = "github.com/evil/repo".to_string();
    let verifier = DefaultProvenanceVerifier::new().with_trusted_builder("github-actions/v3", public_key.0);
    let result = verifier.verify(&provenance, MinSlsaLevel(3), None);
    assert!(result.is_err(), "verification of tampered provenance should fail");
}

#[test]
fn test_min_slsa_level_default() {
    assert_eq!(MinSlsaLevel::default(), MinSlsaLevel(0));
}

#[test]
fn test_min_slsa_level_ordering() {
    assert!(MinSlsaLevel(3) > MinSlsaLevel(2));
    assert!(MinSlsaLevel(1) < MinSlsaLevel(2));
}

#[test]
fn test_verify_empty_signature_slsa_level2_rejected() {
    let provenance = SlsaProvenance { slsa_level: 2, ..valid_provenance() };
    let verifier = DefaultProvenanceVerifier::new();
    let result = verifier.verify(&provenance, MinSlsaLevel(0), None);
    assert!(result.is_err(), "empty signature at SLSA level 2 should be rejected");
    assert!(
        matches!(result, Err(SecurityError::InvalidSignature { .. })),
        "expected InvalidSignature for empty signature at SLSA level 2, got: {result:?}"
    );
}

#[test]
fn test_verify_empty_signature_slsa_level3_rejected() {
    let provenance = SlsaProvenance { slsa_level: 3, ..valid_provenance() };
    let verifier = DefaultProvenanceVerifier::new();
    let result = verifier.verify(&provenance, MinSlsaLevel(0), None);
    assert!(result.is_err(), "empty signature at SLSA level 3 should be rejected");
}

#[test]
fn test_verify_empty_signature_slsa_level1_allowed() {
    let provenance = valid_provenance();
    let verifier = DefaultProvenanceVerifier::new();
    verifier.verify(&provenance, MinSlsaLevel(0), None).expect("empty signature at SLSA level 1 should be allowed");
}

#[test]
fn test_verify_untrusted_builder_rejected() {
    let key_pair = KeyPair::generate();
    let mut provenance = SlsaProvenance { slsa_level: 3, ..valid_provenance() };
    sign_provenance(&mut provenance, key_pair.signing_key()).expect("sign should succeed");
    let other_key = *KeyPair::generate().public_key();
    let verifier = DefaultProvenanceVerifier::new().with_trusted_builder("different-builder/v1", other_key.0);
    let result = verifier.verify(&provenance, MinSlsaLevel(3), None);
    assert!(result.is_err(), "untrusted builder should be rejected when trusted_builders is non-empty");
    assert!(
        matches!(result, Err(SecurityError::InvalidSignature { .. })),
        "expected InvalidSignature for untrusted builder, got: {result:?}"
    );
}

// -- Additional cases --------------------------------------------------------

#[test]
fn payload_is_compact_json_without_signature() {
    let p = SlsaProvenance {
        builder: "b\"q".to_string(),
        source_repo: "r".to_string(),
        source_digest: "d".to_string(),
        slsa_level: 2,
        build_timestamp: 17,
        builder_signature: vec![1, 2, 3],
        build_parameters: vec![("k".to_string(), "v".to_string()), ("a".to_string(), "b".to_string())],
    };
    let bytes = provenance_payload(&p);
    assert_eq!(
        String::from_utf8(bytes).unwrap(),
        "{\"builder\":\"b\\\"q\",\"source_repo\":\"r\",\"source_digest\":\"d\",\"slsa_level\":2,\"build_timestamp\":17,\"build_parameters\":[[\"k\",\"v\"],[\"a\",\"b\"]]}"
    );
}

#[test]
fn signature_is_sixty_four_bytes() {
    let (p, _) = signed_level3_provenance();
    assert_eq!(p.builder_signature.len(), 64);
}

#[test]
fn payload_matches_serde_json_encoding() {
    let p = SlsaProvenance {
        builder: "b\"\\/\u{1}\u{8}\t\n\u{c}\r\u{1f}\u{7f}é✓🦀".to_string(),
        source_repo: "https://example.com/r?x=1&y=<2>".to_string(),
        source_digest: "sha256:00ff".to_string(),
        slsa_level: 255,
        build_timestamp: u64::MAX,
        builder_signature: vec![9; 64],
        build_parameters: vec![("k\u{0}".to_string(), "v\"".to_string()), (String::new(), "\\".to_string())],
    };
    let expected = format!(
        "{{\"builder\":{},\"source_repo\":{},\"source_digest\":{},\"slsa_level\":{},\"build_timestamp\":{},\"build_parameters\":{}}}",
        serde_json::to_string(&p.builder).unwrap(),
        serde_json::to_string(&p.source_repo).unwrap(),
        serde_json::to_string(&p.source_digest).unwrap(),
        serde_json::to_string(&p.slsa_level).unwrap(),
        serde_json::to_string(&p.build_timestamp).unwrap(),
        serde_json::to_string(&p.build_parameters).unwrap(),
    );
    assert_eq!(String::from_utf8(provenance_payload(&p)).unwrap(), expected);
}
