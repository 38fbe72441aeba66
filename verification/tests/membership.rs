use taba::common::NodeId;
use taba::harness::builder::NodeCapabilitySetBuilder;
use taba::model::NodeCapabilitySet;
use taba::solver::membership::{MembershipSnapshot, NodeHealth};

fn test_caps() -> NodeCapabilitySet {
    NodeCapabilitySetBuilder::new().build()
}

fn nid() -> NodeId {
    NodeId(uuid::Uuid::new_v4().as_u128())
}

#[test]
fn test_node_health_variants() {
    assert_ne!(NodeHealth::Active, NodeHealth::Suspected);
}

#[test]
fn test_membership_snapshot_empty() {
    let snapshot = MembershipSnapshot::empty(0);
    assert!(snapshot.is_empty());
    assert_eq!(snapshot.len(), 0);
    assert_eq!(snapshot.generation, 0);
}

#[test]
fn test_membership_snapshot_single_node() {
    let node_id = nid();
    let caps = test_caps();
    let snapshot = MembershipSnapshot::single_node(node_id, caps.clone());
    assert_eq!(snapshot.nodes.len(), 1);
    assert_eq!(snapshot.generation, 1);
    assert!(!snapshot.is_empty());
    let (id, node_caps, health) = &snapshot.nodes[0];
    assert_eq!(*id, node_id);
    assert_eq!(*node_caps, caps);
    assert_eq!(*health, NodeHealth::Active);
}

#[test]
fn test_membership_snapshot_get() {
    let node_id = nid();
    let snapshot = MembershipSnapshot::single_node(node_id, test_caps());
    assert!(snapshot.get(&node_id).is_some());
    assert!(snapshot.get(&nid()).is_none());
}

#[test]
fn test_membership_snapshot_is_active() {
    let node_id = nid();
    let snapshot = MembershipSnapshot::single_node(node_id, test_caps());
    assert!(snapshot.is_active(&node_id));
    let mut snapshot = snapshot;
    snapshot.add_node(node_id, test_caps(), NodeHealth::Suspected);
    assert!(!snapshot.is_active(&node_id));
}

#[test]
fn test_membership_snapshot_node_ids() {
    let id1 = NodeId(1);
    let id2 = NodeId(2);
    let id3 = NodeId(3);
    let mut snapshot = MembershipSnapshot::empty(1);
    snapshot.add_node(id3, test_caps(), NodeHealth::Active);
    snapshot.add_node(id1, test_caps(), NodeHealth::Active);
    snapshot.add_node(id2, test_caps(), NodeHealth::Active);
    let ids: Vec<_> = snapshot.node_ids();
    assert_eq!(ids, vec![id1, id2, id3]);
}

#[test]
fn test_membership_snapshot_add_node_replaces() {
    let node_id = nid();
    let mut snapshot = MembershipSnapshot::single_node(node_id, test_caps());
    assert_eq!(snapshot.len(), 1);
    assert!(snapshot.is_active(&node_id));
    snapshot.add_node(node_id, test_caps(), NodeHealth::Suspected);
    assert_eq!(snapshot.len(), 1, "replacing should not add a duplicate");
    assert!(!snapshot.is_active(&node_id));
}

#[test]
fn test_membership_snapshot_multiple_nodes() {
    let id1 = NodeId(100);
    let id2 = NodeId(200);
    let mut snapshot = MembershipSnapshot::empty(1);
    snapshot.add_node(id1, test_caps(), NodeHealth::Active);
    snapshot.add_node(id2, test_caps(), NodeHealth::Suspected);
    assert_eq!(snapshot.len(), 2);
    assert!(snapshot.is_active(&id1));
    assert!(!snapshot.is_active(&id2));
}

// -- Additional cases --------------------------------------------------------

#[test]
fn add_node_keeps_generation_and_order() {
    let mut snapshot = MembershipSnapshot::empty(7);
    snapshot.add_node(NodeId(9), test_caps(), NodeHealth::Active);
    snapshot.add_node(NodeId(4), test_caps(), NodeHealth::Suspected);
    snapshot.add_node(NodeId(9), test_caps(), NodeHealth::Suspected);
    assert_eq!(snapshot.generation, 7);
    assert_eq!(snapshot.node_ids(), vec![NodeId(4), NodeId(9)]);
    assert!(!snapshot.is_active(&NodeId(9)));
    assert!(!snapshot.is_active(&NodeId(1)));
}
