use taba::common::{AuthorId, TrustDomainId, UnitId};
use taba::model::{UnitHeader, UnitKind};
use taba::security::error::SecurityError;
use taba::security::scope::{DefaultScopeChecker, RoleAssignment, UnitTypeScope};

fn id() -> u128 {
    uuid::Uuid::new_v4().as_u128()
}

fn test_header() -> UnitHeader {
    UnitHeader { id: UnitId(id()), author: AuthorId(id()), trust_domain: TrustDomainId(id()) }
}

fn role_assignment(author: AuthorId, type_scopes: Vec<UnitTypeScope>, domain_scopes: Vec<TrustDomainId>) -> RoleAssignment {
    RoleAssignment { header: test_header(), assignee: author, unit_type_scope: type_scopes, trust_domain_scope: domain_scopes }
}

#[test]
fn test_scope_check_correct() {
    let author = AuthorId(id());
    let domain = TrustDomainId(id());
    let checker =
        DefaultScopeChecker::from_assignments(vec![role_assignment(author, vec![UnitTypeScope::Workload], vec![domain])]);
    assert!(checker.check_author_scope(&author, UnitKind::Workload, &domain).is_ok(), "author with correct scope should pass");
}

#[test]
fn test_scope_check_wrong_type() {
    let author = AuthorId(id());
    let domain = TrustDomainId(id());
    let checker =
        DefaultScopeChecker::from_assignments(vec![role_assignment(author, vec![UnitTypeScope::Workload], vec![domain])]);
    let result = checker.check_author_scope(&author, UnitKind::Policy, &domain);
    assert!(matches!(result, Err(SecurityError::ScopeViolation { .. })), "got: {result:?}");
}

#[test]
fn test_scope_check_wrong_domain() {
    let author = AuthorId(id());
    let domain_a = TrustDomainId(id());
    let domain_b = TrustDomainId(id());
    let checker =
        DefaultScopeChecker::from_assignments(vec![role_assignment(author, vec![UnitTypeScope::Workload], vec![domain_a])]);
    let result = checker.check_author_scope(&author, UnitKind::Workload, &domain_b);
    assert!(matches!(result, Err(SecurityError::ScopeViolation { .. })), "got: {result:?}");
}

#[test]
fn test_scope_uniqueness_violation() {
    let author1 = AuthorId(id());
    let author2 = AuthorId(id());
    let domain = TrustDomainId(id());
    let assignments = vec![
        role_assignment(author1, vec![UnitTypeScope::Workload], vec![domain]),
        role_assignment(author2, vec![UnitTypeScope::Workload], vec![domain]),
    ];
    let checker = DefaultScopeChecker::new();
    let result = checker.validate_scope_uniqueness(&assignments, UnitKind::Workload);
    assert!(matches!(result, Err(SecurityError::ScopeViolation { .. })), "got: {result:?}");
}

#[test]
fn test_scope_uniqueness_allowed_for_policy() {
    let author1 = AuthorId(id());
    let author2 = AuthorId(id());
    let domain = TrustDomainId(id());
    let assignments = vec![
        role_assignment(author1, vec![UnitTypeScope::Policy], vec![domain]),
        role_assignment(author2, vec![UnitTypeScope::Policy], vec![domain]),
    ];
    let checker = DefaultScopeChecker::new();
    let result = checker.validate_scope_uniqueness(&assignments, UnitKind::Policy);
    assert!(result.is_ok(), "overlapping scopes for policy should be allowed, got: {result:?}");
}

// -- Additional cases --------------------------------------------------------

#[test]
fn added_assignment_grants_scope() {
    let author = AuthorId(id());
    let domain = TrustDomainId(id());
    let mut checker = DefaultScopeChecker::new();
    assert!(checker.check_author_scope(&author, UnitKind::Data, &domain).is_err());
    checker.add_assignment(role_assignment(author, vec![UnitTypeScope::Data], vec![domain]));
    assert!(checker.check_author_scope(&author, UnitKind::Data, &domain).is_ok());
}

#[test]
fn same_author_twice_is_not_a_violation() {
    let author = AuthorId(id());
    let domain = TrustDomainId(id());
    let assignments = vec![
        role_assignment(author, vec![UnitTypeScope::Data], vec![domain]),
        role_assignment(author, vec![UnitTypeScope::Data], vec![domain]),
    ];
    assert!(DefaultScopeChecker::new().validate_scope_uniqueness(&assignments, UnitKind::Data).is_ok());
}

#[test]
fn uniqueness_reason_names_the_kind() {
    let domain = TrustDomainId(id());
    let assignments = vec![
        role_assignment(AuthorId(1), vec![UnitTypeScope::Data], vec![domain]),
        role_assignment(AuthorId(2), vec![UnitTypeScope::Data], vec![domain]),
    ];
    match DefaultScopeChecker::new().validate_scope_uniqueness(&assignments, UnitKind::Data) {
        Err(SecurityError::ScopeViolation { author, reason }) => {
            assert_eq!(author, AuthorId(1));
            assert!(reason.contains("state-producing unit type data"), "{reason}");
        }
        other => panic!("unexpected {other:?}"),
    }
}

#[test]
fn uniqueness_reason_shows_the_scope_tuple() {
    let domain = TrustDomainId(0x0123456789abcdef0123456789abcdef);
    let assignments = vec![
        role_assignment(AuthorId(7), vec![UnitTypeScope::Workload, UnitTypeScope::Data, UnitTypeScope::Workload], vec![domain, domain]),
        role_assignment(AuthorId(3), vec![UnitTypeScope::Data, UnitTypeScope::Workload], vec![domain]),
    ];
    match DefaultScopeChecker::new().validate_scope_uniqueness(&assignments, UnitKind::Workload) {
        Err(SecurityError::ScopeViolation { author, reason }) => {
            assert_eq!(author, AuthorId(3));
            assert_eq!(
                reason,
                "two or more distinct authors have identical scope tuple (unit_type_scope={Workload, Data}, \
                 trust_domain_scope={TrustDomainId(01234567-89ab-cdef-0123-456789abcdef)}) for state-producing \
                 unit type workload (INV-S8)"
            );
        }
        other => panic!("unexpected {other:?}"),
    }
}
