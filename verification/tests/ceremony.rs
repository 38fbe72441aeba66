use taba::common::{CeremonyId, TrustDomainId, UnitId};
use taba::security::ceremony::{DefaultCeremonyManager, DefaultSoloBootstrap, ShamirShare};
use taba::security::crypto::KeyId;
use taba::security::error::SecurityError;

#[test]
fn test_solo_bootstrap() {
    let bootstrap = DefaultSoloBootstrap::new();
    let result = bootstrap.solo_init().expect("solo bootstrap should succeed");
    assert_ne!(result.key_id, KeyId([0u8; 32]), "key ID should be non-zero");
    assert_ne!(result.trust_domain, TrustDomainId(0), "trust domain should be non-zero");
    assert_ne!(result.governance_unit_id, UnitId(0), "governance unit ID should be non-zero");
    assert_ne!(result.role_assignment_id, UnitId(0), "role assignment ID should be non-zero");
    assert_ne!(
        result.governance_unit_id, result.role_assignment_id,
        "governance unit ID and role assignment ID should be different"
    );
    let pk = result.public_key.to_public_key();
    assert_eq!(KeyId::from_public_key(&pk), result.key_id);
}

#[test]
fn test_ceremony_manager_not_implemented() {
    let manager = DefaultCeremonyManager;
    let ceremony_id = CeremonyId(uuid::Uuid::new_v4().as_u128());
    let witness = KeyId([0u8; 32]);
    let share = ShamirShare { index: 1, data: vec![0u8; 32], ceremony_id, encrypted: false };
    assert!(matches!(manager.start(5, 3), Err(SecurityError::CeremonyError { .. })));
    assert!(matches!(manager.add_share(&ceremony_id, share), Err(SecurityError::CeremonyError { .. })));
    assert!(matches!(manager.complete(&ceremony_id, &witness), Err(SecurityError::CeremonyError { .. })));
    assert!(matches!(manager.cancel(&ceremony_id), Err(SecurityError::CeremonyError { .. })));
    assert!(matches!(manager.state(&ceremony_id), Err(SecurityError::CeremonyError { .. })));
}

// -- Additional cases --------------------------------------------------------

#[test]
fn ceremony_refusal_reason() {
    match DefaultCeremonyManager.start(5, 3) {
        Err(SecurityError::CeremonyError { reason }) => assert_eq!(reason, "Not implemented until M6 (Hardened)."),
        other => panic!("unexpected {other:?}"),
    }
}
