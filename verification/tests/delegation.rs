use taba::common::{DelegationTokenId, LogicalClock, NodeId, TrustDomainId, UnitId};
use taba::security::crypto::KeyPair;
use taba::security::delegation::{DefaultDelegationManager, DefaultDelegationValidator, DelegationToken};
use taba::security::error::SecurityError;

fn id() -> u128 {
    uuid::Uuid::new_v4().as_u128()
}

fn test_setup() -> (KeyPair, DefaultDelegationManager, DefaultDelegationValidator) {
    (KeyPair::generate(), DefaultDelegationManager::new(), DefaultDelegationValidator::new())
}

fn test_params() -> (UnitId, NodeId, TrustDomainId, LogicalClock, LogicalClock, u32) {
    (UnitId(id()), NodeId(id()), TrustDomainId(id()), LogicalClock(10), LogicalClock(100), 50)
}

fn make(manager: &mut DefaultDelegationManager, key_pair: &KeyPair, max_spawns: u32) -> DelegationToken {
    let (service_id, node_id, trust_domain, lc_start, lc_end, _) = test_params();
    manager
        .create_token(key_pair.signing_key(), &service_id, &node_id, &trust_domain, &lc_start, &lc_end, max_spawns)
        .expect("token creation should succeed")
}

#[test]
fn test_create_and_validate_token() {
    let (key_pair, mut manager, mut validator) = test_setup();
    let token = make(&mut manager, &key_pair, 50);
    validator.add_token(token.copy(), *key_pair.public_key());
    validator.validate(&token, &LogicalClock(50)).expect("token should be valid within its LC range");
}

#[test]
fn test_validate_token_expired() {
    let (key_pair, mut manager, mut validator) = test_setup();
    let token = make(&mut manager, &key_pair, 50);
    validator.add_token(token.copy(), *key_pair.public_key());
    let result = validator.validate(&token, &LogicalClock(200));
    assert!(
        matches!(result, Err(SecurityError::DelegationExpired { .. })),
        "token with LC outside range should fail with DelegationExpired, got: {result:?}"
    );
    let result = validator.validate(&token, &LogicalClock(5));
    assert!(
        matches!(result, Err(SecurityError::DelegationExpired { .. })),
        "token with LC before range should fail with DelegationExpired, got: {result:?}"
    );
}

#[test]
fn test_validate_token_revoked() {
    let (key_pair, mut manager, mut validator) = test_setup();
    let token = make(&mut manager, &key_pair, 50);
    validator.add_token(token.copy(), *key_pair.public_key());
    validator.revoke(&token.id);
    let result = validator.validate(&token, &LogicalClock(50));
    assert!(
        matches!(result, Err(SecurityError::DelegationTokenForged { .. })),
        "revoked token should fail with DelegationTokenForged, got: {result:?}"
    );
}

#[test]
fn test_validate_token_governance_block() {
    let (key_pair, mut manager, validator) = test_setup();
    let token = make(&mut manager, &key_pair, 50);
    let result = validator.check_governance_block(&token, "policy");
    assert!(matches!(result, Err(SecurityError::DelegationGovernanceBlocked { .. })), "got: {result:?}");
    let result = validator.check_governance_block(&token, "governance");
    assert!(matches!(result, Err(SecurityError::DelegationGovernanceBlocked { .. })), "got: {result:?}");
    let result = validator.check_governance_block(&token, "declassification");
    assert!(matches!(result, Err(SecurityError::DelegationGovernanceBlocked { .. })), "got: {result:?}");
    let result = validator.check_governance_block(&token, "workload");
    assert!(result.is_ok(), "non-governance type should be allowed, got: {result:?}");
}

#[test]
fn test_revoke_token() {
    let (key_pair, mut manager, _validator) = test_setup();
    let token = make(&mut manager, &key_pair, 50);
    manager.revoke_token(&token.id).expect("revocation should succeed");
    let unknown_id = DelegationTokenId(id());
    let result = manager.revoke_token(&unknown_id);
    assert!(
        matches!(result, Err(SecurityError::DelegationTokenForged { .. })),
        "revoking unknown token should fail, got: {result:?}"
    );
}

#[test]
fn test_validate_token_wrong_signature() {
    let (key_pair_a, _manager, mut validator) = test_setup();
    let (key_pair_b, mut manager, _validator2) = test_setup();
    let token = make(&mut manager, &key_pair_a, 50);
    validator.add_token(token.copy(), *key_pair_b.public_key());
    let result = validator.validate(&token, &LogicalClock(50));
    assert!(
        matches!(result, Err(SecurityError::DelegationTokenForged { .. })),
        "token with wrong author key should fail with DelegationTokenForged, got: {result:?}"
    );
}

#[test]
fn test_validate_token_spawn_limit() {
    let (key_pair, mut manager, _validator) = test_setup();
    let mut token = make(&mut manager, &key_pair, 1);
    token.current_spawns = 1;
    let validator = DefaultDelegationValidator::new();
    let result = validator.validate(&token, &LogicalClock(50));
    assert!(
        matches!(result, Err(SecurityError::DelegationSpawnLimitExceeded { .. })),
        "token at spawn limit should fail with DelegationSpawnLimitExceeded, got: {result:?}"
    );
}

// -- Additional cases --------------------------------------------------------

#[test]
fn range_bounds_are_inclusive() {
    let (key_pair, mut manager, mut validator) = test_setup();
    let token = make(&mut manager, &key_pair, 50);
    validator.add_token(token.copy(), *key_pair.public_key());
    assert!(validator.validate(&token, &LogicalClock(10)).is_ok());
    assert!(validator.validate(&token, &LogicalClock(100)).is_ok());
}

#[test]
fn tampered_token_is_forged() {
    let (key_pair, mut manager, mut validator) = test_setup();
    let token = make(&mut manager, &key_pair, 50);
    validator.add_token(token.copy(), *key_pair.public_key());
    let mut tampered = token.copy();
    tampered.max_spawns = 500;
    assert!(matches!(
        validator.validate(&tampered, &LogicalClock(50)),
        Err(SecurityError::DelegationTokenForged { .. })
    ));
}

#[test]
fn token_signature_is_sixty_four_bytes() {
    let (key_pair, mut manager, _v) = test_setup();
    let token = make(&mut manager, &key_pair, 3);
    assert_eq!(token.author_signature.len(), 64);
    assert_eq!(token.current_spawns, 0);
    assert!(!token.revoked);
}

#[test]
fn manager_revocation_is_seen_by_its_validator() {
    let (key_pair, mut manager, _) = test_setup();
    let token = make(&mut manager, &key_pair, 50);
    assert_eq!(token.author_signature.len(), 64);
    manager.validator().validate(&token, &LogicalClock(50)).expect("fresh token should be valid");
    manager.revoke_token(&token.id).expect("revocation should succeed");
    let result = manager.validator().validate(&token, &LogicalClock(50));
    assert!(matches!(result, Err(SecurityError::DelegationTokenForged { .. })), "got {result:?}");
}
