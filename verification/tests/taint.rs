use taba::common::{AuthorId, TrustDomainId, UnitId};
use taba::model::{Capability, Classification, DataUnit, Provenance, Unit, UnitHeader};
use taba::security::error::SecurityError;
use taba::security::taint::DefaultTaintComputer;

fn id() -> u128 {
    uuid::Uuid::new_v4().as_u128()
}

fn data_unit(id: UnitId, classification: Classification, provenance: Option<Provenance>) -> Unit {
    Unit::Data(DataUnit {
        header: UnitHeader { id, author: AuthorId(self::id()), trust_domain: TrustDomainId(self::id()) },
        needs: Vec::new(),
        provides: vec![Capability::new("storage", "dataset-x")],
        classification,
        provenance,
        parent: None,
    })
}

fn from_unit(unit: Unit) -> DefaultTaintComputer {
    let mut computer = DefaultTaintComputer::new();
    computer.add_unit(unit);
    computer
}

#[test]
fn test_compute_taint_single_unit() {
    let uid = UnitId(id());
    let computer = from_unit(data_unit(uid, Classification::Internal, None));
    let result = computer.compute_taint(&uid).expect("taint should compute");
    assert_eq!(result, Classification::Internal, "data unit with no provenance should have its own classification");
}

#[test]
fn test_compute_taint_multi_input() {
    let id_a = UnitId(id());
    let id_b = UnitId(id());
    let id_d = UnitId(id());
    let provenance = Provenance { produced_by: UnitId(id()), inputs: vec![id_a, id_b] };
    let mut computer = DefaultTaintComputer::new();
    computer.add_unit(data_unit(id_a, Classification::Public, None));
    computer.add_unit(data_unit(id_b, Classification::Pii, None));
    computer.add_unit(data_unit(id_d, Classification::Internal, Some(provenance)));
    let result = computer.compute_taint(&id_d).expect("taint should compute");
    assert_eq!(result, Classification::Pii, "multi-input taint should be the most restrictive (PII)");
}

#[test]
fn test_compute_taint_broken_provenance() {
    let missing_id = UnitId(id());
    let id_d = UnitId(id());
    let provenance = Provenance { produced_by: UnitId(id()), inputs: vec![missing_id] };
    let mut computer = DefaultTaintComputer::new();
    computer.add_unit(data_unit(id_d, Classification::Public, Some(provenance)));
    let result = computer.compute_taint(&id_d);
    assert!(
        matches!(result, Err(SecurityError::BrokenProvenance { unit, .. }) if unit == missing_id),
        "missing reference should fail with BrokenProvenance, got: {result:?}"
    );
}

#[test]
fn test_validate_declassification_valid() {
    let policy_id = UnitId(id());
    let signers = vec![AuthorId(id()), AuthorId(id())];
    let mut computer = DefaultTaintComputer::new();
    computer.add_declassification_signers(policy_id, signers);
    assert!(computer.validate_declassification(&policy_id).is_ok(), "declassification with 2 distinct signers should be valid");
}

#[test]
fn test_validate_declassification_insufficient_signers() {
    let policy_id = UnitId(id());
    let signers = vec![AuthorId(id())];
    let mut computer = DefaultTaintComputer::new();
    computer.add_declassification_signers(policy_id, signers);
    let result = computer.validate_declassification(&policy_id);
    assert!(
        matches!(result, Err(SecurityError::DeclassificationDenied { .. })),
        "declassification with 1 signer should be denied, got: {result:?}"
    );
}

// -- Additional cases --------------------------------------------------------

#[test]
fn taint_propagates_through_chains() {
    let a = UnitId(id());
    let b = UnitId(id());
    let c = UnitId(id());
    let mut computer = DefaultTaintComputer::new();
    computer.add_unit(data_unit(a, Classification::Confidential, None));
    computer.add_unit(data_unit(b, Classification::Public, Some(Provenance { produced_by: UnitId(id()), inputs: vec![a] })));
    computer.add_unit(data_unit(c, Classification::Internal, Some(Provenance { produced_by: UnitId(id()), inputs: vec![b] })));
    assert_eq!(computer.compute_taint(&c).expect("taint"), Classification::Confidential);
}

#[test]
fn duplicate_signers_count_once() {
    let policy_id = UnitId(id());
    let signer = AuthorId(id());
    let mut computer = DefaultTaintComputer::new();
    computer.add_declassification_signers(policy_id, vec![signer, signer]);
    assert!(matches!(
        computer.validate_declassification(&policy_id),
        Err(SecurityError::DeclassificationDenied { .. })
    ));
}

#[test]
fn unknown_policy_is_denied() {
    let computer = DefaultTaintComputer::new();
    assert!(matches!(
        computer.validate_declassification(&UnitId(id())),
        Err(SecurityError::DeclassificationDenied { .. })
    ));
}

#[test]
fn unknown_unit_is_broken_provenance() {
    let computer = DefaultTaintComputer::new();
    let u = UnitId(id());
    assert!(matches!(computer.compute_taint(&u), Err(SecurityError::BrokenProvenance { unit, .. }) if unit == u));
}

#[test]
fn checked_taint_refuses_a_provenance_cycle() {
    let (a, b, c) = (UnitId(id()), UnitId(id()), UnitId(id()));
    let mut computer = DefaultTaintComputer::new();
    computer.add_unit(data_unit(a, Classification::Public, Some(Provenance { produced_by: UnitId(id()), inputs: vec![b] })));
    computer.add_unit(data_unit(b, Classification::Internal, Some(Provenance { produced_by: UnitId(id()), inputs: vec![a] })));
    computer.add_unit(data_unit(c, Classification::Pii, None));
    match computer.compute_taint_checked(&a) {
        Err(SecurityError::BrokenProvenance { unit, reason }) => {
            assert_eq!(unit, a);
            assert_eq!(reason, "provenance cycle");
        }
        other => panic!("unexpected {other:?}"),
    }
    // A unit that reaches no cycle is computed as usual.
    assert_eq!(computer.compute_taint_checked(&c).expect("taint"), Classification::Pii);
}

#[test]
fn checked_taint_agrees_on_an_acyclic_store() {
    let (a, b, d) = (UnitId(id()), UnitId(id()), UnitId(id()));
    let mut computer = DefaultTaintComputer::new();
    computer.add_unit(data_unit(a, Classification::Public, None));
    computer.add_unit(data_unit(b, Classification::Pii, None));
    computer.add_unit(data_unit(d, Classification::Internal, Some(Provenance { produced_by: UnitId(id()), inputs: vec![a, b] })));
    assert_eq!(computer.compute_taint_checked(&d).expect("taint"), Classification::Pii);
    assert_eq!(computer.compute_taint_checked(&d).expect("taint"), computer.compute_taint(&d).expect("taint"));
    match computer.compute_taint_checked(&UnitId(id())) {
        Err(SecurityError::BrokenProvenance { reason, .. }) => assert_eq!(reason, "data unit not found in local store"),
        other => panic!("unexpected {other:?}"),
    }
}
