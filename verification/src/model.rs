//! The unit and graph model that the solver reads: units with their
//! declared capabilities, tolerances, scaling and recovery relationships;
//! node capability sets; and the composition-graph snapshot.
//!
//! Only the fields that the solving logic reads are held, as plain values.

use vstd::prelude::*;
use crate::common::{AuthorId, Ppm, TrustDomainId, UnitId};
use crate::text::{debug_str, str_debug};
use crate::order::copy_vec;

verus! {

/// A capability that a unit needs or provides: a type, a name and an
/// optional purpose qualifier.
#[derive(Clone, Debug, PartialEq, Eq, Hash, PartialOrd, Ord)]
pub struct Capability {
    /// Capability type (e.g. `"storage"`, `"compute"`).
    pub cap_type: String,
    /// Capability name (e.g. `"postgres-compatible"`, `"http"`).
    pub name: String,
    /// Optional purpose qualifier.
    pub purpose: Option<String>,
}

impl Capability {
    /// A copy of this capability.
    pub fn copy(&self) -> (r: Capability)
        ensures r == *self,
    {
        let purpose = match &self.purpose {
            Some(p) => Some(p.clone()),
            None => None,
        };
        Capability { cap_type: self.cap_type.clone(), name: self.name.clone(), purpose }
    }

    /// A copy of a list of capabilities.
    pub fn copy_all(v: &Vec<Capability>) -> (r: Vec<Capability>)
        ensures r@ == v@,
    {
        let mut out: Vec<Capability> = Vec::new();
        let mut i: usize = 0;
        while i < v.len()
            invariant
                i <= v@.len(),
                out@ == v@.subrange(0, i as int),
            decreases v@.len() - i,
        {
            out.push(v[i].copy());
            i = i + 1;
            proof {
                assert(out@ =~= v@.subrange(0, i as int));
            }
        }
        assert(v@.subrange(0, v@.len() as int) =~= v@);
        out
    }

    /// A capability with no purpose.
    pub fn new(cap_type: &str, name: &str) -> (r: Capability)
        ensures r.cap_type@ == cap_type@, r.name@ == name@, r.purpose is None,
    {
        Capability { cap_type: cap_type.to_string(), name: name.to_string(), purpose: None }
    }

    /// A capability with a purpose qualifier.
    pub fn with_purpose(cap_type: &str, name: &str, purpose: &str) -> (r: Capability)
        ensures r.cap_type@ == cap_type@, r.name@ == name@, r.purpose matches Some(p) && p@ == purpose@,
    {
        Capability { cap_type: cap_type.to_string(), name: name.to_string(), purpose: Some(purpose.to_string()) }
    }
}

/// The `Debug` text of a capability: a struct with fields `cap_type`,
/// `name` and `purpose`.
pub open spec fn capability_debug(c: Capability) -> Seq<char> {
    "Capability { cap_type: "@ + str_debug(c.cap_type@) + ", name: "@ + str_debug(c.name@)
        + ", purpose: "@ + match c.purpose {
        Some(p) => "Some("@ + str_debug(p@) + ")"@,
        None => "None"@,
    } + " }"@
}

/// The `Debug` text of a capability.
pub fn capability_text(c: &Capability) -> (r: String)
    ensures r@ == capability_debug(*c),
{
    proof {
        reveal_strlit("Capability { cap_type: ");
        reveal_strlit(", name: ");
        reveal_strlit(", purpose: ");
        reveal_strlit("Some(");
        reveal_strlit(")");
        reveal_strlit("None");
        reveal_strlit(" }");
    }
    let mut s = String::new();
    s.append("Capability { cap_type: ");
    let t = debug_str(c.cap_type.as_str());
    s.append(t.as_str());
    s.append(", name: ");
    let n = debug_str(c.name.as_str());
    s.append(n.as_str());
    s.append(", purpose: ");
    match &c.purpose {
        Some(p) => {
            s.append("Some(");
            let d = debug_str(p.as_str());
            s.append(d.as_str());
            s.append(")");
        },
        None => {
            s.append("None");
        },
    }
    s.append(" }");
    assert(s@ =~= capability_debug(*c));
    s
}

/// Kind of a workload artifact.
#[derive(Clone, Copy, Debug, PartialEq, Eq, Structural, Hash)]
pub enum ArtifactType {
    Oci,
    Native,
    Wasm,
    K8sManifest,
    MicroVm,
    /// Any other artifact kind; no runtime hosts it.
    Other,
}

/// Runtime that a node offers.
#[derive(Clone, Copy, Debug, PartialEq, Eq, Structural, Hash)]
pub enum RuntimeCapability {
    Oci,
    OciRootless,
    Native,
    Wasm,
    K8s,
    MicroVm,
}

/// Privilege level of a node's runtime.
#[derive(Clone, Copy, Debug, PartialEq, Eq, Structural, Hash)]
pub enum PrivilegeLevel {
    User,
    Root,
}

/// Quality of a node's clock source.
#[derive(Clone, Copy, Debug, PartialEq, Eq, Structural, Hash)]
pub enum ClockQuality {
    Gps,
    Ntp,
}

/// Capabilities advertised by a node.
#[derive(Clone, Debug, PartialEq, Eq)]
pub struct NodeCapabilitySet {
    /// CPU architecture (e.g. `"x86_64"`).
    pub arch: String,
    /// Operating system (e.g. `"linux"`).
    pub os: String,
    /// Privilege level.
    pub privilege: PrivilegeLevel,
    /// Offered runtimes.
    pub runtimes: Vec<RuntimeCapability>,
    /// Whether privileged ports may be bound.
    pub ports_privileged: bool,
    /// Environment tag (e.g. `"env:dev"`).
    pub environment: Option<String>,
    /// Author this node is dedicated to, in a dev environment.
    pub author_affinity: Option<AuthorId>,
    /// Free-form key/value tags.
    pub custom_tags: Vec<(String, String)>,
    /// Quality of the node's clock source.
    pub clock_quality: ClockQuality,
}

impl NodeCapabilitySet {
    /// The two sets hold the same values.
    pub open spec fn same_as(self, other: NodeCapabilitySet) -> bool {
        &&& self.arch@ == other.arch@
        &&& self.os@ == other.os@
        &&& self.privilege == other.privilege
        &&& self.runtimes@ == other.runtimes@
        &&& self.ports_privileged == other.ports_privileged
        &&& self.environment == other.environment
        &&& self.author_affinity == other.author_affinity
        &&& self.custom_tags@ == other.custom_tags@
        &&& self.clock_quality == other.clock_quality
    }

    /// A copy of this capability set.
    pub fn copy(&self) -> (r: NodeCapabilitySet)
        ensures r.same_as(*self),
    {
        let mut runtimes: Vec<RuntimeCapability> = Vec::new();
        let mut i: usize = 0;
        while i < self.runtimes.len()
            invariant
                i <= self.runtimes@.len(),
                runtimes@ == self.runtimes@.subrange(0, i as int),
            decreases self.runtimes@.len() - i,
        {
            runtimes.push(self.runtimes[i]);
            i = i + 1;
            proof {
                assert(runtimes@ =~= self.runtimes@.subrange(0, i as int));
            }
        }
        let mut custom_tags: Vec<(String, String)> = Vec::new();
        let mut i: usize = 0;
        while i < self.custom_tags.len()
            invariant
                i <= self.custom_tags@.len(),
                custom_tags@ == self.custom_tags@.subrange(0, i as int),
            decreases self.custom_tags@.len() - i,
        {
            custom_tags.push((self.custom_tags[i].0.clone(), self.custom_tags[i].1.clone()));
            i = i + 1;
            proof {
                assert(custom_tags@ =~= self.custom_tags@.subrange(0, i as int));
            }
        }
        assert(runtimes@ =~= self.runtimes@);
        assert(custom_tags@ =~= self.custom_tags@);
        let environment = match &self.environment {
            Some(e) => Some(e.clone()),
            None => None,
        };
        NodeCapabilitySet {
            arch: self.arch.clone(),
            os: self.os.clone(),
            privilege: self.privilege,
            runtimes,
            ports_privileged: self.ports_privileged,
            environment,
            author_affinity: self.author_affinity,
            custom_tags,
            clock_quality: self.clock_quality,
        }
    }
}

/// Header common to every unit.
#[derive(Clone, Copy, Debug, PartialEq, Eq, Structural)]
pub struct UnitHeader {
    /// Unit identifier.
    pub id: UnitId,
    /// Authoring identity.
    pub author: AuthorId,
    /// Trust domain of the unit.
    pub trust_domain: TrustDomainId,
}

/// A workload's artifact: its type and the node properties it requires.
#[derive(Clone, Debug, PartialEq, Eq)]
pub struct Artifact {
    /// Artifact type.
    pub artifact_type: ArtifactType,
    /// Required node properties (arch, os, privilege or tags).
    pub requires: Vec<String>,
}

/// Tolerances declared by a workload.
#[derive(Clone, Debug, PartialEq, Eq)]
pub struct Tolerances {
    /// Maximum tolerated latency in milliseconds.
    pub max_latency_ms: Option<u128>,
    /// Tolerated failure modes.
    pub failure_modes: Vec<String>,
}

/// Direction of a scaling trigger.
#[derive(Clone, Copy, Debug, PartialEq, Eq, Structural, Hash)]
pub enum ScaleDirection {
    Up,
    Down,
}

/// A declared scaling trigger.
#[derive(Clone, Debug, PartialEq, Eq)]
pub struct ScalingTrigger {
    /// Trigger name.
    pub name: String,
    /// Metric the trigger reads.
    pub metric: String,
    /// Threshold in ppm.
    pub threshold: Ppm,
    /// Direction.
    pub direction: ScaleDirection,
}

/// Declared scaling parameters.
#[derive(Clone, Debug, PartialEq, Eq)]
pub struct Scaling {
    /// Minimum instance count.
    pub min_instances: u32,
    /// Maximum instance count.
    pub max_instances: u32,
    /// Triggers.
    pub triggers: Vec<ScalingTrigger>,
}

/// A recovery dependency on another unit.
#[derive(Clone, Copy, Debug, PartialEq, Eq, Structural)]
pub struct RecoveryRelationship {
    /// The unit depended on.
    pub depends_on: UnitId,
}

/// Whether a workload runs indefinitely or to completion.
#[derive(Clone, Copy, Debug, PartialEq, Eq, Structural, Hash)]
pub enum WorkloadKind {
    Service,
    BoundedTask,
}

/// A workload unit.
#[derive(Clone, Debug, PartialEq, Eq)]
pub struct WorkloadUnit {
    /// Header.
    pub header: UnitHeader,
    /// Service or bounded task.
    pub kind: WorkloadKind,
    /// Artifact.
    pub artifact: Artifact,
    /// Needed capabilities.
    pub needs: Vec<Capability>,
    /// Provided capabilities.
    pub provides: Vec<Capability>,
    /// Tolerances.
    pub tolerates: Tolerances,
    /// Scaling parameters.
    pub scaling: Scaling,
    /// Recovery dependencies.
    pub recovery_relationships: Vec<RecoveryRelationship>,
}

/// Sensitivity of data, least to most restrictive.
#[derive(Clone, Copy, Debug, PartialEq, Eq, Structural, Hash)]
pub enum Classification {
    /// Public data.
    Public,
    /// Internal data.
    Internal,
    /// Confidential data.
    Confidential,
    /// Personal data.
    Pii,
}

/// Rank of a classification in restrictiveness.
pub open spec fn class_rank(c: Classification) -> nat {
    match c {
        Classification::Public => 0,
        Classification::Internal => 1,
        Classification::Confidential => 2,
        Classification::Pii => 3,
    }
}

impl Classification {
    /// The more restrictive of the two.
    pub open spec fn join(self, other: Classification) -> Classification {
        if class_rank(self) >= class_rank(other) { self } else { other }
    }

    /// The more restrictive of the two.
    pub fn union(self, other: Classification) -> (r: Classification)
        ensures r == self.join(other),
    {
        let a: u8 = match self {
            Classification::Public => 0,
            Classification::Internal => 1,
            Classification::Confidential => 2,
            Classification::Pii => 3,
        };
        let b: u8 = match other {
            Classification::Public => 0,
            Classification::Internal => 1,
            Classification::Confidential => 2,
            Classification::Pii => 3,
        };
        if a >= b { self } else { other }
    }
}

/// Joining classifications takes the most restrictive in the order
/// Public < Internal < Confidential < Pii: the join is one of its two
/// arguments, does not depend on their order or grouping, is Pii whenever
/// either is Pii, is the other argument when one is Public, and is
/// Confidential for Internal and Confidential.
pub proof fn lemma_join_most_restrictive(x: Classification, y: Classification, z: Classification)
    ensures
        x.join(y) == x || x.join(y) == y,
        x.join(y) == y.join(x),
        x.join(y.join(z)) == x.join(y).join(z),
        x.join(Classification::Pii) == Classification::Pii,
        x.join(Classification::Public) == x,
        Classification::Internal.join(Classification::Confidential) == Classification::Confidential,
        x.join(y) == Classification::Public ==> x == Classification::Public && y == Classification::Public,
{
}

/// Where a data unit came from: the workload that produced it and the data
/// it read.
#[derive(Clone, Debug, PartialEq, Eq)]
pub struct Provenance {
    /// The producing workload.
    pub produced_by: UnitId,
    /// The input data units.
    pub inputs: Vec<UnitId>,
}

/// A data unit: its header, capabilities, classification and provenance.
#[derive(Clone, Debug, PartialEq, Eq)]
pub struct DataUnit {
    /// Header.
    pub header: UnitHeader,
    /// Needed capabilities.
    pub needs: Vec<Capability>,
    /// Provided capabilities.
    pub provides: Vec<Capability>,
    /// Classification.
    pub classification: Classification,
    /// Provenance, if derived.
    pub provenance: Option<Provenance>,
    /// Parent data unit, for hierarchical data.
    pub parent: Option<UnitId>,
}

/// A policy or governance unit: its header and its declared capabilities.
#[derive(Clone, Debug, PartialEq, Eq)]
pub struct PlainUnit {
    /// Header.
    pub header: UnitHeader,
    /// Needed capabilities.
    pub needs: Vec<Capability>,
    /// Provided capabilities.
    pub provides: Vec<Capability>,
}

/// Kind of a unit.
#[derive(Clone, Copy, Debug, PartialEq, Eq, Structural, Hash)]
pub enum UnitKind {
    Workload,
    Data,
    Policy,
    Governance,
}

/// A unit of the composition graph.
#[derive(Clone, Debug, PartialEq, Eq)]
pub enum Unit {
    Workload(WorkloadUnit),
    Data(DataUnit),
    Policy(PlainUnit),
    Governance(PlainUnit),
}

impl Unit {
    pub open spec fn header_spec(&self) -> UnitHeader {
        match self {
            Unit::Workload(w) => w.header,
            Unit::Data(u) => u.header,
            Unit::Policy(u) => u.header,
            Unit::Governance(u) => u.header,
        }
    }

    pub open spec fn needs_spec(&self) -> Seq<Capability> {
        match self {
            Unit::Workload(w) => w.needs@,
            Unit::Data(u) => u.needs@,
            Unit::Policy(u) => u.needs@,
            Unit::Governance(u) => u.needs@,
        }
    }

    pub open spec fn provides_spec(&self) -> Seq<Capability> {
        match self {
            Unit::Workload(w) => w.provides@,
            Unit::Data(u) => u.provides@,
            Unit::Policy(u) => u.provides@,
            Unit::Governance(u) => u.provides@,
        }
    }

    pub open spec fn kind_spec(&self) -> UnitKind {
        match self {
            Unit::Workload(_) => UnitKind::Workload,
            Unit::Data(_) => UnitKind::Data,
            Unit::Policy(_) => UnitKind::Policy,
            Unit::Governance(_) => UnitKind::Governance,
        }
    }

    /// The unit's header.
    pub fn header(&self) -> (r: &UnitHeader)
        ensures *r == self.header_spec(),
    {
        match self {
            Unit::Workload(w) => &w.header,
            Unit::Data(u) => &u.header,
            Unit::Policy(u) => &u.header,
            Unit::Governance(u) => &u.header,
        }
    }

    /// The unit's identifier.
    pub fn id(&self) -> (r: UnitId)
        ensures r == self.header_spec().id,
    {
        self.header().id
    }

    /// The unit's kind.
    pub fn kind(&self) -> (r: UnitKind)
        ensures r == self.kind_spec(),
    {
        match self {
            Unit::Workload(_) => UnitKind::Workload,
            Unit::Data(_) => UnitKind::Data,
            Unit::Policy(_) => UnitKind::Policy,
            Unit::Governance(_) => UnitKind::Governance,
        }
    }

    /// Needed capabilities.
    pub fn needs(&self) -> (r: &Vec<Capability>)
        ensures r@ == self.needs_spec(),
    {
        match self {
            Unit::Workload(w) => &w.needs,
            Unit::Data(u) => &u.needs,
            Unit::Policy(u) => &u.needs,
            Unit::Governance(u) => &u.needs,
        }
    }

    /// Provided capabilities.
    pub fn provides(&self) -> (r: &Vec<Capability>)
        ensures r@ == self.provides_spec(),
    {
        match self {
            Unit::Workload(w) => &w.provides,
            Unit::Data(u) => &u.provides,
            Unit::Policy(u) => &u.provides,
            Unit::Governance(u) => &u.provides,
        }
    }
}

/// A copy of a list of strings.
fn copy_strings(v: &Vec<String>) -> (r: Vec<String>)
    ensures r@ == v@,
{
    let r = v.clone();
    assert(r@ =~= v@) by {
        assert forall|i: int| 0 <= i < v@.len() implies r@[i] == v@[i] by {
            assert(cloned::<String>(v[i], r[i]));
        }
    }
    r
}

impl ScalingTrigger {
    /// A copy of this trigger.
    pub fn copy(&self) -> (r: ScalingTrigger)
        ensures r == *self,
    {
        ScalingTrigger { name: self.name.clone(), metric: self.metric.clone(), threshold: self.threshold, direction: self.direction }
    }
}

impl WorkloadUnit {
    /// The two workloads hold the same values.
    pub open spec fn same_as(self, other: WorkloadUnit) -> bool {
        &&& self.header == other.header
        &&& self.kind == other.kind
        &&& self.artifact.artifact_type == other.artifact.artifact_type
        &&& self.artifact.requires@ == other.artifact.requires@
        &&& self.needs@ == other.needs@
        &&& self.provides@ == other.provides@
        &&& self.tolerates.max_latency_ms == other.tolerates.max_latency_ms
        &&& self.tolerates.failure_modes@ == other.tolerates.failure_modes@
        &&& self.scaling.min_instances == other.scaling.min_instances
        &&& self.scaling.max_instances == other.scaling.max_instances
        &&& self.scaling.triggers@ == other.scaling.triggers@
        &&& self.recovery_relationships@ == other.recovery_relationships@
    }

    /// A copy of this workload.
    pub fn copy(&self) -> (r: WorkloadUnit)
        ensures r.same_as(*self),
    {
        let mut triggers: Vec<ScalingTrigger> = Vec::new();
        let mut i: usize = 0;
        while i < self.scaling.triggers.len()
            invariant
                i <= self.scaling.triggers@.len(),
                triggers@ == self.scaling.triggers@.subrange(0, i as int),
            decreases self.scaling.triggers@.len() - i,
        {
            triggers.push(self.scaling.triggers[i].copy());
            i = i + 1;
            proof {
                assert(triggers@ =~= self.scaling.triggers@.subrange(0, i as int));
            }
        }
        assert(triggers@ =~= self.scaling.triggers@);
        WorkloadUnit {
            header: self.header,
            kind: self.kind,
            artifact: Artifact { artifact_type: self.artifact.artifact_type, requires: copy_strings(&self.artifact.requires) },
            needs: Capability::copy_all(&self.needs),
            provides: Capability::copy_all(&self.provides),
            tolerates: Tolerances {
                max_latency_ms: self.tolerates.max_latency_ms,
                failure_modes: copy_strings(&self.tolerates.failure_modes),
            },
            scaling: Scaling {
                min_instances: self.scaling.min_instances,
                max_instances: self.scaling.max_instances,
                triggers,
            },
            recovery_relationships: copy_vec(&self.recovery_relationships),
        }
    }
}

impl DataUnit {
    /// The two data units hold the same values.
    pub open spec fn same_as(self, other: DataUnit) -> bool {
        &&& self.header == other.header
        &&& self.needs@ == other.needs@
        &&& self.provides@ == other.provides@
        &&& self.classification == other.classification
        &&& match (self.provenance, other.provenance) {
            (Some(p), Some(q)) => p.produced_by == q.produced_by && p.inputs@ == q.inputs@,
            (None, None) => true,
            _ => false,
        }
        &&& self.parent == other.parent
    }

    /// A copy of this data unit.
    pub fn copy(&self) -> (r: DataUnit)
        ensures r.same_as(*self),
    {
        let provenance = match &self.provenance {
            Some(p) => Some(Provenance { produced_by: p.produced_by, inputs: copy_vec(&p.inputs) }),
            None => None,
        };
        DataUnit {
            header: self.header,
            needs: Capability::copy_all(&self.needs),
            provides: Capability::copy_all(&self.provides),
            classification: self.classification,
            provenance,
            parent: self.parent,
        }
    }
}

impl PlainUnit {
    /// The two units hold the same values.
    pub open spec fn same_as(self, other: PlainUnit) -> bool {
        &&& self.header == other.header
        &&& self.needs@ == other.needs@
        &&& self.provides@ == other.provides@
    }

    /// A copy of this unit.
    pub fn copy(&self) -> (r: PlainUnit)
        ensures r.same_as(*self),
    {
        PlainUnit { header: self.header, needs: Capability::copy_all(&self.needs), provides: Capability::copy_all(&self.provides) }
    }
}

impl Unit {
    /// The two units are of the same kind and hold the same values.
    pub open spec fn same_as(self, other: Unit) -> bool {
        match (self, other) {
            (Unit::Workload(a), Unit::Workload(b)) => a.same_as(b),
            (Unit::Data(a), Unit::Data(b)) => a.same_as(b),
            (Unit::Policy(a), Unit::Policy(b)) => a.same_as(b),
            (Unit::Governance(a), Unit::Governance(b)) => a.same_as(b),
            _ => false,
        }
    }

    /// A copy of this unit.
    pub fn copy(&self) -> (r: Unit)
        ensures r.same_as(*self),
    {
        match self {
            Unit::Workload(w) => Unit::Workload(w.copy()),
            Unit::Data(u) => Unit::Data(u.copy()),
            Unit::Policy(u) => Unit::Policy(u.copy()),
            Unit::Governance(u) => Unit::Governance(u.copy()),
        }
    }
}

/// A unit in the graph snapshot, with its archival flag.
#[derive(Clone, Debug, PartialEq, Eq)]
pub struct GraphEntry {
    /// The unit.
    pub unit: Unit,
    /// Archived units take no part in solving.
    pub archived: bool,
}

/// The key of a policy chain: the set of units in conflict (sorted, without
/// repetition) and a capability type.
#[derive(Clone, Debug, PartialEq, Eq)]
pub struct ConflictTuple {
    /// Units in conflict, in increasing order.
    pub unit_ids: Vec<UnitId>,
    /// Capability type in conflict.
    pub capability_name: String,
}

/// One version of a resolving policy.
#[derive(Clone, Copy, Debug, PartialEq, Eq, Structural)]
pub struct PolicyVersion {
    /// The policy unit.
    pub policy_id: UnitId,
    /// Whether this version was revoked.
    pub revoked: bool,
}

/// The versions of the policies resolving one conflict tuple.
#[derive(Clone, Debug, PartialEq, Eq)]
pub struct PolicyChain {
    /// Versions in supersession order.
    pub versions: Vec<PolicyVersion>,
}

/// A point-in-time snapshot of the composition graph.
#[derive(Clone, Debug, PartialEq, Eq)]
pub struct GraphSnapshot {
    /// Units, at most one entry per unit identifier.
    pub entries: Vec<GraphEntry>,
    /// Policy chains, at most one per conflict tuple.
    pub policy_chains: Vec<(ConflictTuple, PolicyChain)>,
}

impl GraphSnapshot {
    /// No two entries share a unit identifier.
    pub open spec fn wf(&self) -> bool {
        forall|i: int, j: int|
            0 <= i < j < self.entries@.len() ==> #[trigger] self.entries@[i].unit.header_spec().id
                != #[trigger] self.entries@[j].unit.header_spec().id
    }
}

/// Mode of a promotion transition.
#[derive(Clone, Copy, Debug, PartialEq, Eq, Structural, Hash)]
pub enum PromotionMode {
    Auto,
    HumanApproval,
}

/// One transition of a promotion gate.
#[derive(Clone, Debug, PartialEq, Eq)]
pub struct PromotionTransition {
    /// Target environment.
    pub to_env: String,
    /// Mode.
    pub mode: PromotionMode,
}

/// A promotion gate definition.
#[derive(Clone, Debug, PartialEq, Eq)]
pub struct PromotionGateDef {
    /// Transitions.
    pub transitions: Vec<PromotionTransition>,
}

/// A promotion policy: promote a unit to an environment at a version.
#[derive(Clone, Debug, PartialEq, Eq)]
pub struct PromotionPolicy {
    /// Header of the policy unit.
    pub header: UnitHeader,
    /// The unit promoted.
    pub unit_ref: UnitId,
    /// Target environment.
    pub target_environment: String,
    /// Version promoted.
    pub version: String,
}

/// Versioned dynamic resource availability of a node.
#[derive(Clone, Copy, Debug, PartialEq, Eq, Structural)]
pub struct ResourceSnapshot {
    /// Available memory in bytes.
    pub memory_available_bytes: u64,
    /// Total memory in bytes.
    pub memory_total_bytes: u64,
    /// CPU load in ppm.
    pub cpu_load_ppm: Ppm,
    /// Number of available GPUs.
    pub gpu_available: u32,
}

} // verus!
