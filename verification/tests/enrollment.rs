use taba::common::{AuthorId, NodeId, TrustDomainId};
use taba::security::attestation::{AttestationProvider, AttestationResult};
use taba::security::crypto::KeyId;
use taba::security::enrollment::{DefaultEnrollmentCeremony, EnrollmentId, EnrollmentState};
use taba::security::error::SecurityError;

fn id() -> u128 {
    uuid::Uuid::new_v4().as_u128()
}

fn ids() -> (NodeId, TrustDomainId, AuthorId) {
    (NodeId(id()), TrustDomainId(id()), AuthorId(id()))
}

#[test]
fn test_initiate_and_complete() {
    let mut ceremony = DefaultEnrollmentCeremony::new();
    let (node_id, trust_domain, author) = ids();
    let (enrollment_id, shares) =
        ceremony.initiate(&node_id, &trust_domain, &author, 5, 3, None).expect("initiate should succeed");
    assert_eq!(shares.len(), 5);
    for share in shares.into_iter().take(3) {
        let state = ceremony.contribute(&enrollment_id, share).expect("contribute should succeed");
        match state {
            EnrollmentState::Collecting { shares_received, .. } => assert!(shares_received <= 3),
            _ => panic!("should be Collecting"),
        }
    }
    let result = ceremony.complete(&enrollment_id).expect("complete should succeed");
    assert_eq!(result.node_id, node_id);
    assert_eq!(result.trust_domain, trust_domain);
    assert_ne!(result.key_id, KeyId([0u8; 32]));
}

#[test]
fn test_initiate_threshold_too_low() {
    let mut ceremony = DefaultEnrollmentCeremony::new();
    let (node_id, trust_domain, author) = ids();
    let result = ceremony.initiate(&node_id, &trust_domain, &author, 5, 1, None);
    assert!(result.is_err());
}

#[test]
fn test_initiate_threshold_exceeds_total() {
    let mut ceremony = DefaultEnrollmentCeremony::new();
    let (node_id, trust_domain, author) = ids();
    let result = ceremony.initiate(&node_id, &trust_domain, &author, 5, 6, None);
    assert!(result.is_err());
}

#[test]
fn test_complete_below_threshold() {
    let mut ceremony = DefaultEnrollmentCeremony::new();
    let (node_id, trust_domain, author) = ids();
    let (enrollment_id, shares) =
        ceremony.initiate(&node_id, &trust_domain, &author, 5, 3, None).expect("initiate should succeed");
    for share in shares.into_iter().take(2) {
        ceremony.contribute(&enrollment_id, share).expect("contribute should succeed");
    }
    let result = ceremony.complete(&enrollment_id);
    assert!(result.is_err(), "complete below threshold should fail");
}

#[test]
fn test_cancel() {
    let mut ceremony = DefaultEnrollmentCeremony::new();
    let (node_id, trust_domain, author) = ids();
    let (enrollment_id, shares) =
        ceremony.initiate(&node_id, &trust_domain, &author, 5, 3, None).expect("initiate should succeed");
    ceremony.contribute(&enrollment_id, shares.into_iter().next().unwrap()).expect("contribute should succeed");
    ceremony.cancel(&enrollment_id).expect("cancel should succeed");
    let state = ceremony.state(&enrollment_id).expect("state should succeed");
    assert!(matches!(state, EnrollmentState::Failed { .. }));
    let result = ceremony.complete(&enrollment_id);
    assert!(result.is_err());
}

#[test]
fn test_duplicate_share_index() {
    let mut ceremony = DefaultEnrollmentCeremony::new();
    let (node_id, trust_domain, author) = ids();
    let (enrollment_id, shares) =
        ceremony.initiate(&node_id, &trust_domain, &author, 5, 3, None).expect("initiate should succeed");
    ceremony.contribute(&enrollment_id, shares[0].clone()).expect("contribute should succeed");
    let result = ceremony.contribute(&enrollment_id, shares[0].clone());
    assert!(result.is_err(), "duplicate share should be rejected");
}

#[test]
fn test_state_not_found() {
    let ceremony = DefaultEnrollmentCeremony::new();
    let unknown = EnrollmentId::new();
    let result = ceremony.state(&unknown);
    assert!(result.is_err());
}

#[test]
fn test_state_initiated() {
    let mut ceremony = DefaultEnrollmentCeremony::new();
    let (node_id, trust_domain, author) = ids();
    let (enrollment_id, _shares) =
        ceremony.initiate(&node_id, &trust_domain, &author, 5, 3, None).expect("initiate should succeed");
    let state = ceremony.state(&enrollment_id).expect("state should succeed");
    assert!(matches!(state, EnrollmentState::Initiated { .. }));
}

#[test]
fn test_state_complete() {
    let mut ceremony = DefaultEnrollmentCeremony::new();
    let (node_id, trust_domain, author) = ids();
    let (enrollment_id, shares) =
        ceremony.initiate(&node_id, &trust_domain, &author, 5, 3, None).expect("initiate should succeed");
    for share in shares.into_iter().take(3) {
        ceremony.contribute(&enrollment_id, share).expect("contribute should succeed");
    }
    ceremony.complete(&enrollment_id).expect("complete should succeed");
    let state = ceremony.state(&enrollment_id).expect("state should succeed");
    assert!(matches!(state, EnrollmentState::Complete { .. }));
}

#[test]
fn test_with_attestation() {
    let mut ceremony = DefaultEnrollmentCeremony::new();
    let (node_id, trust_domain, author) = ids();
    let attestation = AttestationResult {
        node_id,
        binary_hash: [0u8; 32],
        os: "linux".to_string(),
        arch: "x86_64".to_string(),
        quote: vec![1u8; 32],
        signature: vec![2u8; 64],
        provider: AttestationProvider::Software,
    };
    let (enrollment_id, shares) = ceremony
        .initiate(&node_id, &trust_domain, &author, 5, 3, Some(&attestation))
        .expect("initiate with attestation should succeed");
    for share in shares.into_iter().take(3) {
        ceremony.contribute(&enrollment_id, share).expect("contribute should succeed");
    }
    let result = ceremony.complete(&enrollment_id).expect("complete should succeed");
    assert!(result.attestation.is_some());
}

#[test]
fn test_enrollment_id_new() {
    let id1 = EnrollmentId::new();
    let id2 = EnrollmentId::new();
    assert_ne!(id1, id2, "enrollment IDs should be unique");
}

// -- Additional cases --------------------------------------------------------

#[test]
fn any_three_shares_in_any_order_complete() {
    let mut ceremony = DefaultEnrollmentCeremony::new();
    let (node_id, trust_domain, author) = ids();
    let (eid, shares) = ceremony.initiate(&node_id, &trust_domain, &author, 5, 3, None).expect("initiate");
    for i in [4usize, 1, 3] {
        ceremony.contribute(&eid, shares[i].clone()).expect("contribute");
    }
    let result = ceremony.complete(&eid).expect("complete");
    assert_eq!(result.key_id, KeyId::from_public_key(&result.public_key.to_public_key()));
}

#[test]
fn error_reasons() {
    let mut ceremony = DefaultEnrollmentCeremony::new();
    let (node_id, trust_domain, author) = ids();
    match ceremony.initiate(&node_id, &trust_domain, &author, 5, 1, None) {
        Err(SecurityError::CeremonyError { reason }) => assert_eq!(reason, "enrollment threshold must be at least 2"),
        other => panic!("unexpected {other:?}"),
    }
    match ceremony.initiate(&node_id, &trust_domain, &author, 5, 6, None) {
        Err(SecurityError::CeremonyError { reason }) => {
            assert_eq!(reason, "enrollment threshold cannot exceed total_shares")
        }
        other => panic!("unexpected {other:?}"),
    }
    let (eid, shares) = ceremony.initiate(&node_id, &trust_domain, &author, 4, 2, None).expect("initiate");
    ceremony.contribute(&eid, shares[0].clone()).expect("contribute");
    match ceremony.contribute(&eid, shares[0].clone()) {
        Err(SecurityError::CeremonyError { reason }) => assert_eq!(reason, "duplicate share index: 1"),
        other => panic!("unexpected {other:?}"),
    }
    match ceremony.complete(&eid) {
        Err(SecurityError::CeremonyError { reason }) => assert_eq!(reason, "threshold not met: need 2, have 1"),
        other => panic!("unexpected {other:?}"),
    }
    ceremony.contribute(&eid, shares[1].clone()).expect("contribute");
    ceremony.complete(&eid).expect("complete");
    match ceremony.complete(&eid) {
        Err(SecurityError::CeremonyError { reason }) => assert_eq!(reason, "enrollment already complete"),
        other => panic!("unexpected {other:?}"),
    }
    match ceremony.cancel(&eid) {
        Err(SecurityError::CeremonyError { reason }) => assert_eq!(reason, "cannot cancel completed enrollment"),
        other => panic!("unexpected {other:?}"),
    }
    let unknown = EnrollmentId(0x00112233445566778899aabbccddeeff);
    match ceremony.state(&unknown) {
        Err(SecurityError::CeremonyError { reason }) => {
            assert_eq!(reason, "enrollment EnrollmentId(00112233-4455-6677-8899-aabbccddeeff) not found")
        }
        other => panic!("unexpected {other:?}"),
    }
}

#[test]
fn cancelled_enrollment_refuses_shares() {
    let mut ceremony = DefaultEnrollmentCeremony::new();
    let (node_id, trust_domain, author) = ids();
    let (eid, shares) = ceremony.initiate(&node_id, &trust_domain, &author, 3, 2, None).expect("initiate");
    ceremony.cancel(&eid).expect("cancel");
    match ceremony.contribute(&eid, shares[0].clone()) {
        Err(SecurityError::CeremonyError { reason }) => assert_eq!(reason, "enrollment was cancelled"),
        other => panic!("unexpected {other:?}"),
    }
    match ceremony.state(&eid) {
        Ok(EnrollmentState::Failed { reason, .. }) => assert_eq!(reason, "cancelled"),
        other => panic!("unexpected {other:?}"),
    }
}

#[test]
fn collecting_state_counts_shares() {
    let mut ceremony = DefaultEnrollmentCeremony::new();
    let (node_id, trust_domain, author) = ids();
    let (eid, shares) = ceremony.initiate(&node_id, &trust_domain, &author, 5, 3, None).expect("initiate");
    ceremony.contribute(&eid, shares[0].clone()).expect("contribute");
    ceremony.contribute(&eid, shares[1].clone()).expect("contribute");
    match ceremony.state(&eid) {
        Ok(EnrollmentState::Collecting { shares_received, total_shares, threshold, .. }) => {
            assert_eq!((shares_received, total_shares, threshold), (2, 5, 3));
        }
        other => panic!("unexpected {other:?}"),
    }
}

#[test]
fn completed_state_reports_the_membership_unit() {
    let mut ceremony = DefaultEnrollmentCeremony::new();
    let (node_id, trust_domain, author) = ids();
    let (eid, shares) = ceremony.initiate(&node_id, &trust_domain, &author, 3, 2, None).expect("initiate");
    for share in shares.into_iter().take(2) {
        ceremony.contribute(&eid, share).expect("contribute");
    }
    let result = ceremony.complete(&eid).expect("complete");
    match ceremony.state(&eid).expect("state") {
        EnrollmentState::Complete { node_id: n, membership_unit_id } => {
            assert_eq!(n, node_id);
            assert_eq!(membership_unit_id, result.membership_unit_id);
        }
        other => panic!("unexpected {other:?}"),
    }
}
