use taba::common::{NodeId, Ppm};
use taba::harness::builder::WorkloadUnitBuilder;
use taba::model::{ResourceSnapshot, Unit};
use taba::solver::resource::DefaultResourceRanker;

const GIB: u64 = 1024 * 1024 * 1024;

fn test_node_id() -> NodeId {
    NodeId(uuid::Uuid::new_v4().as_u128())
}

fn resource_snapshot(memory_total: u64, memory_available: u64, cpu_load: Ppm, gpu_available: u32) -> ResourceSnapshot {
    ResourceSnapshot {
        memory_available_bytes: memory_available,
        memory_total_bytes: memory_total,
        cpu_load_ppm: cpu_load,
        gpu_available,
    }
}

fn test_unit() -> Unit {
    Unit::Workload(WorkloadUnitBuilder::new().build())
}

#[test]
fn test_rank_higher_resources_better() {
    let node_rich = test_node_id();
    let node_poor = test_node_id();
    let rs_rich = resource_snapshot(16 * GIB, 12 * GIB, Ppm(100_000), 2);
    let rs_poor = resource_snapshot(8 * GIB, 2 * GIB, Ppm(800_000), 0);
    let ranked = DefaultResourceRanker::new().rank(
        &test_unit(),
        &vec![node_rich, node_poor],
        &vec![(node_rich, rs_rich), (node_poor, rs_poor)],
    );
    assert_eq!(ranked[0].0, node_rich, "node with more resources should rank first");
    assert!(ranked[0].1 > ranked[1].1);
}

#[test]
fn test_rank_tiebreak() {
    let id_low = NodeId(1);
    let id_high = NodeId(2);
    let rs = resource_snapshot(8 * GIB, 4 * GIB, Ppm(500_000), 1);
    let ranked = DefaultResourceRanker::new().rank(&test_unit(), &vec![id_high, id_low], &vec![(id_low, rs), (id_high, rs)]);
    assert_eq!(ranked[0].1, ranked[1].1, "scores should be equal");
    assert_eq!(ranked[0].0, id_low, "lower NodeId should come first");
    assert_eq!(ranked[1].0, id_high);
}

#[test]
fn test_rank_empty() {
    let ranked = DefaultResourceRanker::new().rank(&test_unit(), &vec![], &vec![]);
    assert!(ranked.is_empty());
}

#[test]
fn test_rank_node_without_snapshot() {
    let node_with = test_node_id();
    let node_without = test_node_id();
    let rs = resource_snapshot(8 * GIB, 4 * GIB, Ppm(500_000), 1);
    let ranked = DefaultResourceRanker::new().rank(&test_unit(), &vec![node_with, node_without], &vec![(node_with, rs)]);
    assert_eq!(ranked.len(), 2);
    assert_eq!(ranked[0].0, node_with, "node with snapshot should rank first");
    assert!(ranked[0].1 > ranked[1].1, "node without snapshot should have lower score");
    assert_eq!(ranked[1].1, Ppm(0), "missing snapshot should score zero");
}

#[test]
fn test_rank_cpu_load_inverse() {
    let node_idle = test_node_id();
    let node_busy = test_node_id();
    let ranked = DefaultResourceRanker::new().rank(
        &test_unit(),
        &vec![node_idle, node_busy],
        &vec![
            (node_idle, resource_snapshot(8 * GIB, 4 * GIB, Ppm(0), 0)),
            (node_busy, resource_snapshot(8 * GIB, 4 * GIB, Ppm(900_000), 0)),
        ],
    );
    assert_eq!(ranked[0].0, node_idle, "idle CPU should rank higher");
}

#[test]
fn test_rank_gpu_available() {
    let node_with_gpu = test_node_id();
    let node_no_gpu = test_node_id();
    let ranked = DefaultResourceRanker::new().rank(
        &test_unit(),
        &vec![node_with_gpu, node_no_gpu],
        &vec![
            (node_with_gpu, resource_snapshot(8 * GIB, 4 * GIB, Ppm(500_000), 4)),
            (node_no_gpu, resource_snapshot(8 * GIB, 4 * GIB, Ppm(500_000), 0)),
        ],
    );
    assert_eq!(ranked[0].0, node_with_gpu, "node with GPUs should rank higher");
}

#[test]
fn test_rank_sorted_descending() {
    let nodes: Vec<_> = (0u32..5).map(|i| NodeId(u128::from(i))).collect();
    let resources: Vec<_> = nodes
        .iter()
        .enumerate()
        .map(|(i, &node_id)| (node_id, resource_snapshot(8 * GIB, (i as u64 + 1) * GIB, Ppm(500_000), 0)))
        .collect();
    let ranked = DefaultResourceRanker::new().rank(&test_unit(), &nodes, &resources);
    for i in 0..ranked.len() - 1 {
        assert!(ranked[i].1 >= ranked[i + 1].1, "scores should be non-increasing at index {i}");
    }
}

#[test]
fn test_memory_score_zero_total() {
    let rs = resource_snapshot(0, 0, Ppm(500_000), 0);
    assert_eq!(DefaultResourceRanker::memory_score(&rs), Ppm(0), "zero total memory should score zero");
}

#[test]
fn scenario_16gb_vs_8gb_available_ranks_higher() {
    let node_16gb = test_node_id();
    let node_8gb = test_node_id();
    let ranked = DefaultResourceRanker::new().rank(
        &test_unit(),
        &vec![node_16gb, node_8gb],
        &vec![
            (node_16gb, resource_snapshot(32 * GIB, 16 * GIB, Ppm(500_000), 0)),
            (node_8gb, resource_snapshot(32 * GIB, 8 * GIB, Ppm(500_000), 0)),
        ],
    );
    assert_eq!(ranked[0].0, node_16gb, "node with 16 GiB available should rank higher than 8 GiB");
    assert!(ranked[0].1 > ranked[1].1);
}

#[test]
fn scenario_no_resources_ranks_lowest() {
    let node_rich = test_node_id();
    let node_empty = test_node_id();
    let ranked = DefaultResourceRanker::new().rank(
        &test_unit(),
        &vec![node_rich, node_empty],
        &vec![
            (node_rich, resource_snapshot(16 * GIB, 12 * GIB, Ppm(100_000), 2)),
            (node_empty, resource_snapshot(0, 0, Ppm(1_000_000), 0)),
        ],
    );
    assert_eq!(ranked[0].0, node_rich, "node with resources should rank first");
    assert_eq!(ranked[1].0, node_empty, "node with no resources should rank last");
    assert_eq!(ranked[1].1, Ppm(0));
}

// -- Additional cases --------------------------------------------------------

#[test]
fn score_formula_values() {
    let rs = resource_snapshot(32 * GIB, 3 * GIB + 5, Ppm(250_000), 3);
    assert_eq!(DefaultResourceRanker::memory_score(&rs), Ppm(150_000));
    assert_eq!(DefaultResourceRanker::cpu_score(&rs), Ppm(750_000));
    assert_eq!(DefaultResourceRanker::gpu_score(&rs), Ppm(300_000));
    assert_eq!(DefaultResourceRanker::total_score(&rs), Ppm(1_200_000));
    // Memory saturates at 20 GiB.
    let big = resource_snapshot(64 * GIB, 40 * GIB, Ppm(0), 0);
    assert_eq!(DefaultResourceRanker::memory_score(&big), Ppm(1_000_000));
}

#[test]
fn duplicate_eligible_nodes_rank_once() {
    let n = NodeId(3);
    let ranked = DefaultResourceRanker::new().rank(&test_unit(), &vec![n, n], &vec![]);
    assert_eq!(ranked, vec![(n, Ppm(0))]);
}
