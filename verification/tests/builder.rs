use taba::common::UnitId;
use taba::harness::builder::{sorted_unique_capabilities, CapabilityBuilder, DataUnitBuilder, NodeCapabilitySetBuilder, WorkloadUnitBuilder};
use taba::model::{Capability, Classification, ClockQuality, PrivilegeLevel, RuntimeCapability, WorkloadKind};

#[test]
fn test_workload_builder_with_needs() {
    let needs = vec![Capability::new("storage", "redis")];
    let unit = WorkloadUnitBuilder::new().with_needs(needs.clone()).build();
    assert_eq!(unit.needs, needs, "custom needs should be reflected");
}

#[test]
fn test_workload_builder_with_scaling() {
    let unit = WorkloadUnitBuilder::new().with_scaling(5, 10).build();
    assert_eq!(unit.scaling.min_instances, 5);
    assert_eq!(unit.scaling.max_instances, 10);
}

#[test]
fn test_workload_builder_with_id() {
    let id = UnitId(uuid::Uuid::new_v4().as_u128());
    let unit = WorkloadUnitBuilder::new().with_id(id).build();
    assert_eq!(unit.header.id, id);
}

#[test]
fn workload_builder_with_kind() {
    let unit = WorkloadUnitBuilder::new().with_kind(WorkloadKind::BoundedTask).build();
    assert_eq!(unit.kind, WorkloadKind::BoundedTask);
    assert_eq!(WorkloadUnitBuilder::new().build().kind, WorkloadKind::Service);
}

#[test]
fn test_data_builder_with_classification() {
    let unit = DataUnitBuilder::new().with_classification(Classification::Pii).build();
    assert_eq!(unit.classification, Classification::Pii);
}

#[test]
fn test_data_builder_with_parent() {
    let parent = UnitId(uuid::Uuid::new_v4().as_u128());
    let unit = DataUnitBuilder::new().with_parent(parent).build();
    assert_eq!(unit.parent, Some(parent));
}

#[test]
fn test_capability_builder_default() {
    let cap = CapabilityBuilder::new().build();
    assert_eq!(cap.cap_type, "compute");
    assert_eq!(cap.name, "http");
    assert!(cap.purpose.is_none());
}

#[test]
fn test_capability_builder_with_purpose() {
    let cap = CapabilityBuilder::new().with_purpose("analytics").build();
    assert_eq!(cap.cap_type, "compute");
    assert_eq!(cap.name, "http");
    assert_eq!(cap.purpose.as_deref(), Some("analytics"));
}

#[test]
fn test_capability_builder_full() {
    let cap = CapabilityBuilder::new()
        .with_cap_type("storage")
        .with_name("postgres-compatible")
        .with_purpose("analytics")
        .build();
    assert_eq!(cap.cap_type, "storage");
    assert_eq!(cap.name, "postgres-compatible");
    assert_eq!(cap.purpose.as_deref(), Some("analytics"));
}

#[test]
fn test_node_capability_set_builder_default() {
    let caps = NodeCapabilitySetBuilder::new().build();
    assert_eq!(caps.arch, "x86_64");
    assert_eq!(caps.os, "linux");
    assert_eq!(caps.privilege, PrivilegeLevel::User);
    assert_eq!(caps.runtimes, vec![RuntimeCapability::Oci]);
    assert!(!caps.ports_privileged);
    assert_eq!(caps.environment.as_deref(), Some("env:dev"));
    assert!(caps.author_affinity.is_none());
    assert_eq!(caps.clock_quality, ClockQuality::Ntp);
}

#[test]
fn test_node_capability_set_builder_custom() {
    let caps = NodeCapabilitySetBuilder::new()
        .with_arch("aarch64")
        .with_os("darwin")
        .with_privilege(PrivilegeLevel::Root)
        .with_runtimes(vec![RuntimeCapability::Wasm, RuntimeCapability::Native])
        .with_ports_privileged(true)
        .with_environment(Some("env:prod".to_string()))
        .with_clock_quality(ClockQuality::Gps)
        .build();
    assert_eq!(caps.arch, "aarch64");
    assert_eq!(caps.os, "darwin");
    assert_eq!(caps.privilege, PrivilegeLevel::Root);
    assert_eq!(caps.runtimes, vec![RuntimeCapability::Wasm, RuntimeCapability::Native]);
    assert!(caps.ports_privileged);
    assert_eq!(caps.environment.as_deref(), Some("env:prod"));
    assert_eq!(caps.clock_quality, ClockQuality::Gps);
}

#[test]
fn test_builder_default_matches_new() {
    let a = WorkloadUnitBuilder::new().build();
    let b = WorkloadUnitBuilder::default().build();
    assert_eq!(a.kind, b.kind);
    assert_eq!(a.scaling, b.scaling);
    assert_eq!(a.provides, b.provides);
}

#[test]
fn builder_defaults_of_other_builders_match_new() {
    assert_eq!(CapabilityBuilder::default().build(), CapabilityBuilder::new().build());
    assert_eq!(NodeCapabilitySetBuilder::default().build(), NodeCapabilitySetBuilder::new().build());
    let d = DataUnitBuilder::default().build();
    assert_eq!(d.classification, Classification::Public);
    assert!(d.parent.is_none());
    assert!(d.provenance.is_none());
}

#[test]
fn sorted_unique_capabilities_sorts_and_drops_repeats() {
    let caps = vec![
        Capability::new("storage", "redis"),
        Capability::new("compute", "http"),
        Capability::new("storage", "redis"),
        Capability::with_purpose("compute", "http", "analytics"),
        Capability::new("compute", "grpc"),
    ];
    let r = sorted_unique_capabilities(&caps);
    assert_eq!(
        r,
        vec![
            Capability::new("compute", "grpc"),
            Capability::new("compute", "http"),
            Capability::with_purpose("compute", "http", "analytics"),
            Capability::new("storage", "redis"),
        ]
    );
}
