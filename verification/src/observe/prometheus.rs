//! Prometheus text exposition of node metrics.
//!
//! Each metric is rendered as a block of three lines:
//! `# HELP <name> <help>`, `# TYPE <name> <gauge|counter>` and
//! `<name> <value>`, in a fixed order.

use vstd::prelude::*;
use crate::common::Ppm;
use crate::text::{decimal, push_decimal};

verus! {

/// Point-in-time metrics of a node.
#[derive(Clone, Copy, Debug, PartialEq, Eq)]
pub struct NodeMetrics {
    /// Memory available in bytes.
    pub memory_available_bytes: u64,
    /// CPU load in parts per million.
    pub cpu_load_ppm: Ppm,
    /// Number of workloads currently running on this node.
    pub workloads_running: u32,
    /// Cumulative total of solver runs since node start.
    pub solver_runs_total: u64,
    /// Cumulative total of gossip messages sent and received.
    pub gossip_messages_total: u64,
    /// Size of the artifact cache in bytes.
    pub artifact_cache_size_bytes: u64,
    /// Number of decision trails currently stored.
    pub decision_trails_stored: u64,
    /// Cumulative total of graph compactions since node start.
    pub compactions_total: u64,
}

/// One metric block in exposition format.
pub open spec fn metric_block(name: Seq<char>, help: Seq<char>, kind: Seq<char>, value: nat) -> Seq<char> {
    "# HELP "@ + name + " "@ + help + "\n"@ + "# TYPE "@ + name + " "@ + kind + "\n"@ + name + " "@
        + decimal(value) + "\n"@
}

/// The full exposition of a metrics snapshot.
pub open spec fn exposition(m: NodeMetrics) -> Seq<char> {
    metric_block("taba_memory_available_bytes"@, "Memory available in bytes"@, "gauge"@, m.memory_available_bytes as nat)
        + metric_block("taba_cpu_load_ppm"@, "CPU load in parts per million"@, "gauge"@, m.cpu_load_ppm.0 as nat)
        + metric_block("taba_workloads_running"@, "Number of workloads currently running"@, "gauge"@, m.workloads_running as nat)
        + metric_block("taba_solver_runs_total"@, "Total solver runs since node start"@, "counter"@, m.solver_runs_total as nat)
        + metric_block("taba_gossip_messages_total"@, "Total gossip messages sent and received"@, "counter"@, m.gossip_messages_total as nat)
        + metric_block("taba_artifact_cache_size_bytes"@, "Size of the artifact cache in bytes"@, "gauge"@, m.artifact_cache_size_bytes as nat)
        + metric_block("taba_decision_trails_stored"@, "Number of decision trails currently stored"@, "gauge"@, m.decision_trails_stored as nat)
        + metric_block("taba_compactions_total"@, "Total graph compactions since node start"@, "counter"@, m.compactions_total as nat)
}

fn push_metric(out: &mut String, name: &str, help: &str, kind: &str, value: u64)
    ensures final(out)@ == old(out)@ + metric_block(name@, help@, kind@, value as nat),
{
    proof {
        reveal_strlit("# HELP ");
        reveal_strlit("# TYPE ");
        reveal_strlit(" ");
        reveal_strlit("\n");
    }
    out.append("# HELP ");
    out.append(name);
    out.append(" ");
    out.append(help);
    out.append("\n");
    out.append("# TYPE ");
    out.append(name);
    out.append(" ");
    out.append(kind);
    out.append("\n");
    out.append(name);
    out.append(" ");
    push_decimal(out, value);
    out.append("\n");
    assert(out@ =~= old(out)@ + metric_block(name@, help@, kind@, value as nat));
}

/// Renders a metrics snapshot in Prometheus text exposition format.
pub struct DefaultPrometheusExporter {
    metrics: NodeMetrics,
}

/// Renders node metrics in the Prometheus text exposition format.
pub trait PrometheusExporter {
    /// The metrics snapshot rendered.
    spec fn metrics_view(&self) -> NodeMetrics;

    /// Renders all metrics: for each, its `# HELP`, `# TYPE` and value
    /// lines, in a fixed order.
    fn render_metrics(&self) -> (r: String)
        ensures
            r@ == exposition(self.metrics_view());
}

impl PrometheusExporter for DefaultPrometheusExporter {
    open spec fn metrics_view(&self) -> NodeMetrics {
        self.snapshot()
    }

    fn render_metrics(&self) -> (r: String) {
        DefaultPrometheusExporter::render_metrics(self)
    }
}

impl DefaultPrometheusExporter {
    /// The snapshot this exporter renders.
    pub closed spec fn snapshot(&self) -> NodeMetrics {
        self.metrics
    }

    /// Creates an exporter for the given snapshot.
    pub fn new(metrics: NodeMetrics) -> (r: Self)
        ensures r.snapshot() == metrics,
    {
        DefaultPrometheusExporter { metrics }
    }

    /// Renders all metrics: for each, its `# HELP`, `# TYPE` and value
    /// lines, in a fixed order.
    pub fn render_metrics(&self) -> (r: String)
        ensures r@ == exposition(self.snapshot()),
    {
        let m = &self.metrics;
        let mut out = String::new();
        push_metric(&mut out, "taba_memory_available_bytes", "Memory available in bytes", "gauge", m.memory_available_bytes);
        push_metric(&mut out, "taba_cpu_load_ppm", "CPU load in parts per million", "gauge", m.cpu_load_ppm.0);
        push_metric(&mut out, "taba_workloads_running", "Number of workloads currently running", "gauge", m.workloads_running as u64);
        push_metric(&mut out, "taba_solver_runs_total", "Total solver runs since node start", "counter", m.solver_runs_total);
        push_metric(&mut out, "taba_gossip_messages_total", "Total gossip messages sent and received", "counter", m.gossip_messages_total);
        push_metric(&mut out, "taba_artifact_cache_size_bytes", "Size of the artifact cache in bytes", "gauge", m.artifact_cache_size_bytes);
        push_metric(&mut out, "taba_decision_trails_stored", "Number of decision trails currently stored", "gauge", m.decision_trails_stored);
        push_metric(&mut out, "taba_compactions_total", "Total graph compactions since node start", "counter", m.compactions_total);
        assert(out@ =~= exposition(self.snapshot()));
        out
    }
}

} // verus!
