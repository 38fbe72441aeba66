use taba::common::{AuthorId, NodeId, TrustDomainId, UnitId};
use taba::harness::builder::{NodeCapabilitySetBuilder, WorkloadUnitBuilder};
use taba::model::{ArtifactType, PlainUnit, PrivilegeLevel, PromotionPolicy, RuntimeCapability, Unit, UnitHeader};
use taba::solver::filter::DefaultCapabilityFilter;

fn id() -> u128 {
    uuid::Uuid::new_v4().as_u128()
}

fn test_node_id() -> NodeId {
    NodeId(id())
}

fn test_unit() -> Unit {
    Unit::Workload(WorkloadUnitBuilder::new().build())
}

fn header() -> UnitHeader {
    UnitHeader { id: UnitId(id()), author: AuthorId(id()), trust_domain: TrustDomainId(id()) }
}

#[test]
fn test_filter_exact_match() {
    let node_id = test_node_id();
    let caps = NodeCapabilitySetBuilder::new().with_runtimes(vec![RuntimeCapability::Oci]).build();
    let result = DefaultCapabilityFilter::new().filter(&test_unit(), &vec![(node_id, caps)], &vec![]);
    assert_eq!(result, vec![node_id]);
}

#[test]
fn test_filter_no_match() {
    let node_id = test_node_id();
    let caps = NodeCapabilitySetBuilder::new().with_runtimes(vec![RuntimeCapability::Wasm]).build();
    let result = DefaultCapabilityFilter::new().filter(&test_unit(), &vec![(node_id, caps)], &vec![]);
    assert!(result.is_empty(), "node without Oci should be excluded");
}

#[test]
fn test_filter_multiple_nodes() {
    let oci_node = test_node_id();
    let wasm_node = test_node_id();
    let oci_caps = NodeCapabilitySetBuilder::new().with_runtimes(vec![RuntimeCapability::Oci]).build();
    let wasm_caps = NodeCapabilitySetBuilder::new().with_runtimes(vec![RuntimeCapability::Wasm]).build();
    let mut nodes = vec![(oci_node, oci_caps), (wasm_node, wasm_caps)];
    nodes.sort_by_key(|(id, _)| *id);
    let result = DefaultCapabilityFilter::new().filter(&test_unit(), &nodes, &vec![]);
    assert_eq!(result, vec![oci_node]);
}

#[test]
fn test_filter_environment_tag() {
    let node_id = test_node_id();
    let caps = NodeCapabilitySetBuilder::new()
        .with_runtimes(vec![RuntimeCapability::Oci])
        .with_environment(Some("env:prod".to_string()))
        .build();
    let unit = test_unit();
    let filter = DefaultCapabilityFilter::new();
    let result = filter.filter(&unit, &vec![(node_id, caps.clone())], &vec![]);
    assert!(result.is_empty(), "prod node without promotion policy should be excluded");
    let promotion = PromotionPolicy {
        header: header(),
        unit_ref: unit.id(),
        target_environment: "env:prod".to_string(),
        version: "v1".to_string(),
    };
    let result = filter.filter(&unit, &vec![(node_id, caps)], &vec![promotion]);
    assert_eq!(result, vec![node_id]);
}

#[test]
fn test_filter_env_dev_author_affinity() {
    let author = AuthorId(id());
    let node_id = test_node_id();
    let caps = NodeCapabilitySetBuilder::new()
        .with_runtimes(vec![RuntimeCapability::Oci])
        .with_environment(Some("env:dev".to_string()))
        .with_author_affinity(author)
        .build();
    let unit_match = Unit::Workload(WorkloadUnitBuilder::new().with_author(author).build());
    let filter = DefaultCapabilityFilter::new();
    let result = filter.filter(&unit_match, &vec![(node_id, caps.clone())], &vec![]);
    assert_eq!(result, vec![node_id]);
    let unit_other = Unit::Workload(WorkloadUnitBuilder::new().with_author(AuthorId(id())).build());
    let result = filter.filter(&unit_other, &vec![(node_id, caps)], &vec![]);
    assert!(result.is_empty(), "dev node with affinity should exclude other authors");
}

#[test]
fn test_filter_env_dev_no_affinity() {
    let node_id = test_node_id();
    let caps = NodeCapabilitySetBuilder::new()
        .with_runtimes(vec![RuntimeCapability::Oci])
        .with_environment(Some("env:dev".to_string()))
        .build();
    let result = DefaultCapabilityFilter::new().filter(&test_unit(), &vec![(node_id, caps)], &vec![]);
    assert_eq!(result, vec![node_id]);
}

#[test]
fn test_filter_no_environment() {
    let node_id = test_node_id();
    let caps = NodeCapabilitySetBuilder::new().with_runtimes(vec![RuntimeCapability::Oci]).with_environment(None).build();
    let result = DefaultCapabilityFilter::new().filter(&test_unit(), &vec![(node_id, caps)], &vec![]);
    assert_eq!(result, vec![node_id]);
}

#[test]
fn test_filter_oci_rootless_satisfies_oci() {
    let node_id = test_node_id();
    let caps = NodeCapabilitySetBuilder::new().with_runtimes(vec![RuntimeCapability::OciRootless]).build();
    let result = DefaultCapabilityFilter::new().filter(&test_unit(), &vec![(node_id, caps)], &vec![]);
    assert_eq!(result, vec![node_id], "OciRootless should satisfy Oci artifact");
}

#[test]
fn test_filter_requires_arch() {
    let node_id = test_node_id();
    let caps = NodeCapabilitySetBuilder::new().with_runtimes(vec![RuntimeCapability::Oci]).with_arch("aarch64").build();
    let mut workload = WorkloadUnitBuilder::new().build();
    workload.artifact.requires = vec!["aarch64".to_string()];
    let filter = DefaultCapabilityFilter::new();
    let result = filter.filter(&Unit::Workload(workload), &vec![(node_id, caps)], &vec![]);
    assert_eq!(result, vec![node_id]);
    let mut workload2 = WorkloadUnitBuilder::new().build();
    workload2.artifact.requires = vec!["x86_64".to_string()];
    let caps_x86 = NodeCapabilitySetBuilder::new().with_runtimes(vec![RuntimeCapability::Oci]).with_arch("aarch64").build();
    let result2 = filter.filter(&Unit::Workload(workload2), &vec![(node_id, caps_x86)], &vec![]);
    assert!(result2.is_empty(), "arch mismatch should exclude node");
}

#[test]
fn test_filter_requires_privileged() {
    let node_id = test_node_id();
    let caps_user = NodeCapabilitySetBuilder::new()
        .with_runtimes(vec![RuntimeCapability::Oci])
        .with_privilege(PrivilegeLevel::User)
        .build();
    let mut workload = WorkloadUnitBuilder::new().build();
    workload.artifact.requires = vec!["root".to_string()];
    let unit = Unit::Workload(workload);
    let filter = DefaultCapabilityFilter::new();
    let result = filter.filter(&unit, &vec![(node_id, caps_user)], &vec![]);
    assert!(result.is_empty(), "non-root node should be excluded for root requirement");
    let caps_root = NodeCapabilitySetBuilder::new()
        .with_runtimes(vec![RuntimeCapability::Oci])
        .with_privilege(PrivilegeLevel::Root)
        .build();
    let result = filter.filter(&unit, &vec![(node_id, caps_root)], &vec![]);
    assert_eq!(result, vec![node_id]);
}

#[test]
fn test_filter_non_workload_all_nodes() {
    let mut nodes = vec![
        (test_node_id(), NodeCapabilitySetBuilder::new().build()),
        (test_node_id(), NodeCapabilitySetBuilder::new().build()),
    ];
    nodes.sort_by_key(|(id, _)| *id);
    let policy = PlainUnit { header: header(), needs: vec![], provides: vec![] };
    let result = DefaultCapabilityFilter::new().filter(&Unit::Policy(policy), &nodes, &vec![]);
    assert_eq!(result.len(), 2, "non-workload should be eligible on all nodes");
}

#[test]
fn test_filter_sorted_output() {
    let id_high = NodeId(999);
    let id_low = NodeId(1);
    let caps_high = NodeCapabilitySetBuilder::new().with_runtimes(vec![RuntimeCapability::Oci]).build();
    let caps_low = NodeCapabilitySetBuilder::new().with_runtimes(vec![RuntimeCapability::Oci]).build();
    let result =
        DefaultCapabilityFilter::new().filter(&test_unit(), &vec![(id_high, caps_high), (id_low, caps_low)], &vec![]);
    assert_eq!(result, vec![id_low, id_high], "output should be sorted by NodeId");
}

#[test]
fn test_filter_microvm_match() {
    let node_id = test_node_id();
    let caps = NodeCapabilitySetBuilder::new().with_runtimes(vec![RuntimeCapability::MicroVm]).build();
    let mut unit = WorkloadUnitBuilder::new().build();
    unit.artifact.artifact_type = ArtifactType::MicroVm;
    let result = DefaultCapabilityFilter::new().filter(&Unit::Workload(unit), &vec![(node_id, caps)], &vec![]);
    assert!(result.contains(&node_id), "node with MicroVm runtime should be eligible for MicroVm workload");
}

#[test]
fn test_filter_microvm_no_match() {
    let node_id = test_node_id();
    let caps = NodeCapabilitySetBuilder::new().with_runtimes(vec![RuntimeCapability::Oci]).build();
    let mut unit = WorkloadUnitBuilder::new().build();
    unit.artifact.artifact_type = ArtifactType::MicroVm;
    let result = DefaultCapabilityFilter::new().filter(&Unit::Workload(unit), &vec![(node_id, caps)], &vec![]);
    assert!(!result.contains(&node_id), "node without MicroVm runtime should not be eligible for MicroVm workload");
}

// -- Additional cases --------------------------------------------------------

#[test]
fn wasm_native_and_manifest_runtimes() {
    let filter = DefaultCapabilityFilter::new();
    let n = NodeId(1);
    for (artifact, runtime) in [
        (ArtifactType::Wasm, RuntimeCapability::Wasm),
        (ArtifactType::Native, RuntimeCapability::Native),
        (ArtifactType::K8sManifest, RuntimeCapability::K8s),
    ] {
        let mut w = WorkloadUnitBuilder::new().build();
        w.artifact.artifact_type = artifact;
        let caps = NodeCapabilitySetBuilder::new().with_runtimes(vec![runtime]).build();
        assert_eq!(filter.filter(&Unit::Workload(w), &vec![(n, caps)], &vec![]), vec![n]);
    }
}

#[test]
fn os_and_tag_requirements() {
    let filter = DefaultCapabilityFilter::new();
    let n = NodeId(1);
    let mut w = WorkloadUnitBuilder::new().build();
    w.artifact.requires = vec!["linux".to_string()];
    let caps = NodeCapabilitySetBuilder::new().build();
    assert_eq!(filter.filter(&Unit::Workload(w.clone()), &vec![(n, caps.clone())], &vec![]), vec![n]);
    w.artifact.requires = vec!["gpu".to_string()];
    assert!(filter.filter(&Unit::Workload(w.clone()), &vec![(n, caps)], &vec![]).is_empty());
    let tagged = NodeCapabilitySetBuilder::new().with_custom_tags(vec![("gpu".to_string(), "a100".to_string())]).build();
    assert_eq!(filter.filter(&Unit::Workload(w), &vec![(n, tagged)], &vec![]), vec![n]);
}
