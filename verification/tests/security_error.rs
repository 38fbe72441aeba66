use taba::common::{AuthorId, UnitId};
use taba::security::crypto::KeyId;
use taba::security::error::SecurityError;

#[test]
fn test_error_display() {
    let err = SecurityError::InvalidSignature { reason: "bad bytes".to_string() };
    assert_eq!(err.message(), "invalid signature: bad bytes");
    let err = SecurityError::CapabilityDenied { capability: "storage".to_string(), reason: "not granted".to_string() };
    assert_eq!(err.message(), "capability denied: storage — not granted");
    let err = SecurityError::CeremonyError { reason: "quorum not met".to_string() };
    assert_eq!(err.message(), "ceremony error: quorum not met");
}

// -- Additional cases --------------------------------------------------------

#[test]
fn key_messages_show_key_bytes() {
    let mut bytes = [0u8; 32];
    bytes[0] = 255;
    bytes[31] = 7;
    let err = SecurityError::KeyRevoked { key: KeyId(bytes), revoked_at: 12 };
    let expected = format!("key KeyId({:?}) revoked at logical clock 12", bytes);
    assert_eq!(err.message(), expected);
    let err = SecurityError::KeyNotFound { key: KeyId([1u8; 32]) };
    assert_eq!(err.message(), format!("key not found: KeyId({:?})", [1u8; 32]));
}

#[test]
fn id_messages_show_uuids() {
    let err = SecurityError::ScopeViolation {
        author: AuthorId(0x00112233445566778899aabbccddeeff),
        reason: "no".to_string(),
    };
    assert_eq!(err.message(), "scope violation by author AuthorId(00112233-4455-6677-8899-aabbccddeeff): no");
    let err = SecurityError::BrokenProvenance { unit: UnitId(1), reason: "gone".to_string() };
    assert_eq!(err.message(), "broken provenance for unit UnitId(00000000-0000-0000-0000-000000000001): gone");
}

#[test]
fn delegation_messages() {
    let cases = [
        (SecurityError::DelegationExpired { reason: "r".to_string() }, "delegation expired: r"),
        (SecurityError::DelegationScopeViolation { reason: "r".to_string() }, "delegation scope violation: r"),
        (SecurityError::DelegationTokenForged { reason: "r".to_string() }, "delegation token forged: r"),
        (SecurityError::DelegationSpawnLimitExceeded { reason: "r".to_string() }, "delegation spawn limit exceeded: r"),
        (SecurityError::DelegationGovernanceBlocked { reason: "r".to_string() }, "delegation governance blocked: r"),
        (SecurityError::KeyError { reason: "r".to_string() }, "key error: r"),
        (SecurityError::DeclassificationDenied { reason: "r".to_string() }, "declassification denied: r"),
    ];
    for (e, m) in cases {
        assert_eq!(e.message(), m);
    }
}
