use taba::common::NodeId;
use taba::security::attestation::{verify_software_attestation, AttestationProvider, AttestationProviderTrait, SoftwareAttestation};

fn node() -> NodeId {
    NodeId(uuid::Uuid::new_v4().as_u128())
}

#[test]
fn test_software_attestation_roundtrip() {
    let node_id = node();
    let nonce = b"test-nonce-12345";
    let provider = SoftwareAttestation::new();
    let result = provider.attest(&node_id, nonce, "linux", "x86_64").expect("attestation should succeed");
    assert_eq!(result.node_id, node_id);
    assert_eq!(result.provider, AttestationProvider::Software);
    assert!(!result.quote.is_empty());
    verify_software_attestation(&result, nonce).expect("verification should succeed");
}

#[test]
fn test_software_attestation_wrong_nonce() {
    let provider = SoftwareAttestation::new();
    let result = provider.attest(&node(), b"correct-nonce", "linux", "x86_64").expect("attestation should succeed");
    let verify_result = verify_software_attestation(&result, b"wrong-nonce");
    assert!(verify_result.is_err(), "verification with wrong nonce should fail");
}

#[test]
fn test_software_attestation_tampered_quote() {
    let nonce = b"test-nonce";
    let provider = SoftwareAttestation::new();
    let mut result = provider.attest(&node(), nonce, "linux", "x86_64").expect("attestation should succeed");
    result.quote[0] ^= 0xFF;
    let verify_result = verify_software_attestation(&result, nonce);
    assert!(verify_result.is_err(), "verification of tampered quote should fail");
}

#[test]
fn test_software_attestation_tampered_signature() {
    let nonce = b"test-nonce";
    let provider = SoftwareAttestation::new();
    let mut result = provider.attest(&node(), nonce, "linux", "x86_64").expect("attestation should succeed");
    result.signature[0] ^= 0xFF;
    let verify_result = verify_software_attestation(&result, nonce);
    assert!(verify_result.is_err(), "verification of tampered signature should fail");
}

#[test]
fn test_with_binary_hash_override() {
    let custom_hash = [0xAB; 32];
    let provider = SoftwareAttestation::with_binary_hash(custom_hash);
    let result = provider.attest(&node(), b"test", "linux", "x86_64").expect("attestation should succeed");
    assert_eq!(result.binary_hash, custom_hash);
}

#[test]
fn test_provider_type() {
    assert_eq!(SoftwareAttestation::new().provider_type(), AttestationProvider::Software);
}

// -- Additional cases --------------------------------------------------------

#[test]
fn quote_depends_on_platform() {
    let provider = SoftwareAttestation::with_binary_hash([1u8; 32]);
    let n = node();
    let a = provider.attest(&n, b"n", "linux", "x86_64").expect("attest");
    let b = provider.attest(&n, b"n", "linux", "aarch64").expect("attest");
    assert_ne!(a.quote, b.quote);
    assert_eq!(a.os, "linux");
    assert_eq!(b.arch, "aarch64");
    assert_eq!(a.quote.len(), 32);
}

fn attest_through<P: AttestationProviderTrait>(provider: &P, node: &NodeId, nonce: &[u8]) -> (AttestationProvider, NodeId) {
    let result = provider.attest(node, nonce, "linux", "x86_64").expect("attest");
    (provider.provider_type(), result.node_id)
}

#[test]
fn software_attestation_serves_as_a_provider() {
    let node = NodeId(42);
    let provider = SoftwareAttestation::with_binary_hash([7u8; 32]);
    let (kind, attested) = attest_through(&provider, &node, b"nonce");
    assert_eq!(kind, AttestationProvider::Software);
    assert_eq!(attested, node);
    let direct = provider.attest(&node, b"nonce", "linux", "x86_64").expect("attest");
    let generic = AttestationProviderTrait::attest(&provider, &node, b"nonce", "linux", "x86_64").expect("attest");
    assert_eq!(direct.quote, generic.quote);
}
