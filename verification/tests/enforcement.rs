use taba::common::UnitId;
use taba::model::Capability;
use taba::security::enforcement::DefaultCapabilityEnforcer;
use taba::security::error::SecurityError;

fn id() -> u128 {
    uuid::Uuid::new_v4().as_u128()
}

#[test]
fn test_check_access_allowed() {
    let unit = UnitId(id());
    let cap = Capability::new("storage", "postgres");
    let mut enforcer = DefaultCapabilityEnforcer::new();
    enforcer.grant(unit, cap.clone());
    assert!(enforcer.check_access(&unit, &cap).is_ok(), "capability in granted set should be allowed");
}

#[test]
fn test_check_access_denied() {
    let unit = UnitId(id());
    let granted_cap = Capability::new("storage", "postgres");
    let denied_cap = Capability::new("compute", "cpu");
    let mut enforcer = DefaultCapabilityEnforcer::new();
    enforcer.grant(unit, granted_cap);
    let result = enforcer.check_access(&unit, &denied_cap);
    assert!(matches!(result, Err(SecurityError::CapabilityDenied { .. })), "got: {result:?}");
}

#[test]
fn test_check_access_unknown_unit_fail_closed() {
    let unit = UnitId(id());
    let cap = Capability::new("storage", "postgres");
    let enforcer = DefaultCapabilityEnforcer::new();
    let result = enforcer.check_access(&unit, &cap);
    assert!(matches!(result, Err(SecurityError::CapabilityDenied { .. })), "got: {result:?}");
}

#[test]
fn test_check_all_all_allowed() {
    let unit = UnitId(id());
    let caps = vec![
        Capability::new("storage", "postgres"),
        Capability::new("compute", "cpu"),
        Capability::new("network", "http"),
    ];
    let mut enforcer = DefaultCapabilityEnforcer::new();
    enforcer.grant_all(unit, caps.clone());
    assert!(enforcer.check_all(&unit, &caps).is_ok(), "all granted capabilities should be allowed");
}

#[test]
fn test_check_all_first_denial() {
    let unit = UnitId(id());
    let cap_ok = Capability::new("storage", "postgres");
    let cap_denied = Capability::new("compute", "cpu");
    let cap_unchecked = Capability::new("network", "http");
    let mut enforcer = DefaultCapabilityEnforcer::new();
    enforcer.grant(unit, cap_ok.clone());
    let caps = vec![cap_ok, cap_denied, cap_unchecked];
    let result = enforcer.check_all(&unit, &caps);
    assert!(
        matches!(result, Err(SecurityError::CapabilityDenied { ref capability, .. }) if capability == "compute:cpu"),
        "check_all should short-circuit on first denial (compute:cpu), got: {result:?}"
    );
}

// -- Additional cases --------------------------------------------------------

#[test]
fn denial_reasons_distinguish_unknown_units() {
    let unit = UnitId(id());
    let cap = Capability::new("storage", "postgres");
    let mut enforcer = DefaultCapabilityEnforcer::new();
    match enforcer.check_access(&unit, &cap) {
        Err(SecurityError::CapabilityDenied { capability, reason }) => {
            assert_eq!(capability, "storage:postgres");
            assert_eq!(reason, "unit unknown — no capabilities granted (fail closed, INV-S2)");
        }
        other => panic!("unexpected {other:?}"),
    }
    enforcer.grant_all(unit, Vec::new());
    match enforcer.check_access(&unit, &cap) {
        Err(SecurityError::CapabilityDenied { reason, .. }) => assert_eq!(reason, "capability not in granted set"),
        other => panic!("unexpected {other:?}"),
    }
}

#[test]
fn purpose_is_part_of_the_capability() {
    let unit = UnitId(id());
    let mut with_purpose = Capability::new("storage", "postgres");
    with_purpose.purpose = Some("analytics".to_string());
    let mut enforcer = DefaultCapabilityEnforcer::new();
    enforcer.grant(unit, with_purpose.clone());
    assert!(enforcer.check_access(&unit, &with_purpose).is_ok());
    assert!(enforcer.check_access(&unit, &Capability::new("storage", "postgres")).is_err());
}

#[test]
fn grants_are_per_unit() {
    let a = UnitId(id());
    let b = UnitId(id());
    let cap = Capability::new("compute", "cpu");
    let mut enforcer = DefaultCapabilityEnforcer::new();
    enforcer.grant(a, cap.clone());
    assert!(enforcer.check_access(&a, &cap).is_ok());
    assert!(enforcer.check_access(&b, &cap).is_err());
    assert!(enforcer.check_all(&b, &[]).is_ok());
}
