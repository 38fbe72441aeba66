//! Builders of valid test data with sensible defaults.
//!
//! Each builder starts from defaults that describe a realistic value and
//! lets every modelled field be overridden.

use vstd::prelude::*;
use crate::common::{random_id, AuthorId, TrustDomainId, UnitId};
use crate::order::{sort_le, sorted_le, lemma_map_perm, lemma_perm_no_duplicates, lemma_perm_contains, lemma_push_contains};
use crate::security::enforcement::{cap_key, same_capability};
use crate::model::{
    Artifact, ArtifactType, Capability, Classification, DataUnit, NodeCapabilitySet, PrivilegeLevel,
    Provenance, RecoveryRelationship, RuntimeCapability, Scaling, Tolerances, UnitHeader, WorkloadUnit, ClockQuality,
    WorkloadKind,
};

verus! {

/// The keys of a list of capabilities.
pub open spec fn cap_keys(s: Seq<Capability>) -> Seq<(Seq<char>, Seq<char>, Option<Seq<char>>)> {
    s.map_values(|c: Capability| cap_key(c))
}

/// The distinct capabilities of a list (by type, name and purpose), each
/// once, in capability order.
pub fn sorted_unique_capabilities(caps: &Vec<Capability>) -> (r: Vec<Capability>)
    ensures
        sorted_le(r@),
        cap_keys(r@).no_duplicates(),
        forall|k: (Seq<char>, Seq<char>, Option<Seq<char>>)| #[trigger] cap_keys(r@).contains(k)
            <==> cap_keys(caps@).contains(k),
{
    let mut out: Vec<Capability> = Vec::new();
    let mut i: usize = 0;
    while i < caps.len()
        invariant
            i <= caps@.len(),
            cap_keys(out@).no_duplicates(),
            forall|k: (Seq<char>, Seq<char>, Option<Seq<char>>)| #[trigger] cap_keys(out@).contains(k)
                <==> cap_keys(caps@.subrange(0, i as int)).contains(k),
        decreases caps@.len() - i,
    {
        let ghost before = out@;
        let mut found = false;
        let mut j: usize = 0;
        while j < out.len()
            invariant
                j <= out@.len(),
                i < caps@.len(),
                found == exists|q: int| 0 <= q < j && cap_key(#[trigger] out@[q]) == cap_key(caps@[i as int]),
            decreases out@.len() - j,
        {
            if same_capability(&out[j], &caps[i]) {
                found = true;
            }
            j = j + 1;
        }
        let ghost key = cap_key(caps@[i as int]);
        proof {
            assert(cap_keys(caps@.subrange(0, i + 1))
                =~= cap_keys(caps@.subrange(0, i as int)).push(key));
            if found {
                let q = choose|q: int| 0 <= q < out@.len() && cap_key(#[trigger] out@[q]) == key;
                assert(cap_keys(out@)[q] == key);
            }
        }
        if !found {
            out.push(caps[i].copy());
            proof {
                let m0 = cap_keys(before);
                assert(cap_keys(out@) =~= m0.push(key));
                assert(!m0.contains(key)) by {
                    if m0.contains(key) {
                        let q = choose|q: int| 0 <= q < m0.len() && m0[q] == key;
                        assert(cap_key(before[q]) == key);
                    }
                }
                lemma_push_contains(m0, key, key);
                assert forall|a: int, b: int| 0 <= a < b < m0.push(key).len() implies m0.push(key)[a] != m0.push(key)[b] by {
                    if b == m0.len() {
                        assert(m0.contains(m0[a]));
                    }
                }
            }
        }
        proof {
            let m = cap_keys(out@);
            let pre = cap_keys(caps@.subrange(0, i as int));
            assert forall|k: (Seq<char>, Seq<char>, Option<Seq<char>>)| #[trigger] m.contains(k) <==> pre.push(key).contains(k) by {
                lemma_push_contains(pre, key, k);
                lemma_push_contains(cap_keys(before), key, k);
                if found {
                    assert(out@ == before);
                } else {
                    assert(m =~= cap_keys(before).push(key));
                }
            }
        }
        i = i + 1;
    }
    proof {
        assert(caps@.subrange(0, caps@.len() as int) =~= caps@);
    }
    let ghost unsorted = out@;
    let r = sort_le(out);
    proof {
        lemma_map_perm(unsorted, r@, |c: Capability| cap_key(c));
        assert(cap_keys(unsorted) =~= unsorted.map_values(|c: Capability| cap_key(c)));
        assert(cap_keys(r@) =~= r@.map_values(|c: Capability| cap_key(c)));
        lemma_perm_no_duplicates(cap_keys(unsorted), cap_keys(r@));
        lemma_perm_contains(cap_keys(unsorted), cap_keys(r@));
    }
    r
}

fn fresh_header() -> (r: UnitHeader) {
    UnitHeader { id: UnitId(random_id()), author: AuthorId(random_id()), trust_domain: TrustDomainId(random_id()) }
}

// ---------------------------------------------------------------------------
// CapabilityBuilder
// ---------------------------------------------------------------------------

/// Builds a [`Capability`]; defaults: type `"compute"`, name `"http"`, no
/// purpose.
#[derive(Clone, Debug)]
pub struct CapabilityBuilder {
    cap_type: String,
    name: String,
    purpose: Option<String>,
}

impl CapabilityBuilder {
    /// The capability this builder would build.
    pub closed spec fn target(&self) -> (Seq<char>, Seq<char>, Option<Seq<char>>) {
        (
            self.cap_type@,
            self.name@,
            match self.purpose {
                Some(p) => Some(p@),
                None => None,
            },
        )
    }

    /// A builder with the defaults.
    pub fn new() -> (r: Self)
        ensures r.target() == ("compute"@, "http"@, None::<Seq<char>>),
    {
        CapabilityBuilder { cap_type: "compute".to_string(), name: "http".to_string(), purpose: None }
    }
}

impl Default for CapabilityBuilder {
    /// The builder with the defaults.
    fn default() -> (r: Self)
        ensures r.target() == ("compute"@, "http"@, None::<Seq<char>>),
    {
        CapabilityBuilder::new()
    }
}

impl CapabilityBuilder {

    /// Sets the capability type.
    pub fn with_cap_type(self, cap_type: &str) -> (r: Self)
        ensures r.target() == (cap_type@, self.target().1, self.target().2),
    {
        CapabilityBuilder { cap_type: cap_type.to_string(), ..self }
    }

    /// Sets the capability name.
    pub fn with_name(self, name: &str) -> (r: Self)
        ensures r.target() == (self.target().0, name@, self.target().2),
    {
        CapabilityBuilder { name: name.to_string(), ..self }
    }

    /// Sets the purpose qualifier.
    pub fn with_purpose(self, purpose: &str) -> (r: Self)
        ensures r.target() == (self.target().0, self.target().1, Some(purpose@)),
    {
        CapabilityBuilder { purpose: Some(purpose.to_string()), ..self }
    }

    /// Builds the capability.
    pub fn build(self) -> (r: Capability)
        ensures
            r.cap_type@ == self.target().0,
            r.name@ == self.target().1,
            match (r.purpose, self.target().2) {
                (Some(p), Some(q)) => p@ == q,
                (None, None) => true,
                _ => false,
            },
    {
        Capability { cap_type: self.cap_type, name: self.name, purpose: self.purpose }
    }
}

// ---------------------------------------------------------------------------
// NodeCapabilitySetBuilder
// ---------------------------------------------------------------------------

/// The node capability defaults.
pub open spec fn default_node_caps(c: NodeCapabilitySet) -> bool {
    &&& c.arch@ == "x86_64"@
    &&& c.os@ == "linux"@
    &&& c.privilege == PrivilegeLevel::User
    &&& c.runtimes@ == seq![RuntimeCapability::Oci]
    &&& !c.ports_privileged
    &&& c.environment matches Some(e) && e@ == "env:dev"@
    &&& c.author_affinity is None
    &&& c.custom_tags@.len() == 0
    &&& c.clock_quality == ClockQuality::Ntp
}

/// Builds a [`NodeCapabilitySet`]; defaults: `x86_64`/`linux`, user
/// privilege, the OCI runtime, no privileged ports, environment
/// `"env:dev"`, no author affinity, no tags, an NTP clock.
#[derive(Clone, Debug)]
pub struct NodeCapabilitySetBuilder {
    set: NodeCapabilitySet,
}

impl Default for NodeCapabilitySetBuilder {
    /// The builder with the defaults.
    fn default() -> (r: Self)
        ensures default_node_caps(r.target()),
    {
        NodeCapabilitySetBuilder::new()
    }
}

impl NodeCapabilitySetBuilder {
    /// The capability set this builder would build.
    pub closed spec fn target(&self) -> NodeCapabilitySet {
        self.set
    }

    /// A builder with the defaults.
    pub fn new() -> (r: Self)
        ensures default_node_caps(r.target()),
    {
        let mut runtimes: Vec<RuntimeCapability> = Vec::new();
        runtimes.push(RuntimeCapability::Oci);
        assert(runtimes@ =~= seq![RuntimeCapability::Oci]);
        NodeCapabilitySetBuilder {
            set: NodeCapabilitySet {
                arch: "x86_64".to_string(),
                os: "linux".to_string(),
                privilege: PrivilegeLevel::User,
                runtimes,
                ports_privileged: false,
                environment: Some("env:dev".to_string()),
                author_affinity: None,
                custom_tags: Vec::new(),
                clock_quality: ClockQuality::Ntp,
            },
        }
    }

    /// Sets the CPU architecture.
    pub fn with_arch(self, arch: &str) -> (r: Self)
        ensures r.target() == (NodeCapabilitySet { arch: r.target().arch, ..self.target() }), r.target().arch@ == arch@,
    {
        NodeCapabilitySetBuilder { set: NodeCapabilitySet { arch: arch.to_string(), ..self.set } }
    }

    /// Sets the operating system.
    pub fn with_os(self, os: &str) -> (r: Self)
        ensures r.target() == (NodeCapabilitySet { os: r.target().os, ..self.target() }), r.target().os@ == os@,
    {
        NodeCapabilitySetBuilder { set: NodeCapabilitySet { os: os.to_string(), ..self.set } }
    }

    /// Sets the privilege level.
    pub fn with_privilege(self, privilege: PrivilegeLevel) -> (r: Self)
        ensures r.target() == (NodeCapabilitySet { privilege, ..self.target() }),
    {
        NodeCapabilitySetBuilder { set: NodeCapabilitySet { privilege, ..self.set } }
    }

    /// Sets the runtimes.
    pub fn with_runtimes(self, runtimes: Vec<RuntimeCapability>) -> (r: Self)
        ensures r.target() == (NodeCapabilitySet { runtimes, ..self.target() }),
    {
        NodeCapabilitySetBuilder { set: NodeCapabilitySet { runtimes, ..self.set } }
    }

    /// Sets whether privileged ports may be bound.
    pub fn with_ports_privileged(self, ports_privileged: bool) -> (r: Self)
        ensures r.target() == (NodeCapabilitySet { ports_privileged, ..self.target() }),
    {
        NodeCapabilitySetBuilder { set: NodeCapabilitySet { ports_privileged, ..self.set } }
    }

    /// Sets the environment tag.
    pub fn with_environment(self, environment: Option<String>) -> (r: Self)
        ensures r.target() == (NodeCapabilitySet { environment, ..self.target() }),
    {
        NodeCapabilitySetBuilder { set: NodeCapabilitySet { environment, ..self.set } }
    }

    /// Sets the author affinity.
    pub fn with_author_affinity(self, author: AuthorId) -> (r: Self)
        ensures r.target() == (NodeCapabilitySet { author_affinity: Some(author), ..self.target() }),
    {
        NodeCapabilitySetBuilder { set: NodeCapabilitySet { author_affinity: Some(author), ..self.set } }
    }

    /// Sets the custom tags.
    pub fn with_custom_tags(self, tags: Vec<(String, String)>) -> (r: Self)
        ensures r.target() == (NodeCapabilitySet { custom_tags: tags, ..self.target() }),
    {
        NodeCapabilitySetBuilder { set: NodeCapabilitySet { custom_tags: tags, ..self.set } }
    }

    /// Sets the clock quality.
    pub fn with_clock_quality(self, clock_quality: ClockQuality) -> (r: Self)
        ensures r.target() == (NodeCapabilitySet { clock_quality, ..self.target() }),
    {
        NodeCapabilitySetBuilder { set: NodeCapabilitySet { clock_quality, ..self.set } }
    }

    /// Builds the capability set.
    pub fn build(self) -> (r: NodeCapabilitySet)
        ensures r == self.target(),
    {
        self.set
    }
}

// ---------------------------------------------------------------------------
// WorkloadUnitBuilder
// ---------------------------------------------------------------------------

/// The workload defaults (identifiers aside).
pub open spec fn default_workload(w: WorkloadUnit) -> bool {
    &&& w.kind == WorkloadKind::Service
    &&& w.artifact.artifact_type == ArtifactType::Oci
    &&& w.artifact.requires@.len() == 0
    &&& w.needs@.len() == 0
    &&& w.provides@.len() == 1
    &&& w.provides@[0].cap_type@ == "compute"@
    &&& w.provides@[0].name@ == "http"@
    &&& w.provides@[0].purpose is None
    &&& w.tolerates.max_latency_ms == Some(100u128)
    &&& w.tolerates.failure_modes@.len() == 1
    &&& w.tolerates.failure_modes@[0]@ == "timeout"@
    &&& w.scaling.min_instances == 1
    &&& w.scaling.max_instances == 3
    &&& w.scaling.triggers@.len() == 0
    &&& w.recovery_relationships@.len() == 0
}

/// Builds a [`WorkloadUnit`]; defaults: fresh random identifiers, a service with an OCI
/// artifact with no requirements, no needs, provides `compute:http`,
/// tolerates 100 ms latency and `"timeout"`, scales between 1 and 3, no
/// recovery dependencies.
#[derive(Clone, Debug)]
pub struct WorkloadUnitBuilder {
    unit: WorkloadUnit,
}

impl Default for WorkloadUnitBuilder {
    /// The builder with the defaults.
    fn default() -> (r: Self)
        ensures default_workload(r.target()),
    {
        WorkloadUnitBuilder::new()
    }
}

impl WorkloadUnitBuilder {
    /// The workload this builder would build.
    pub closed spec fn target(&self) -> WorkloadUnit {
        self.unit
    }

    /// A builder with the defaults.
    pub fn new() -> (r: Self)
        ensures default_workload(r.target()),
    {
        let mut provides: Vec<Capability> = Vec::new();
        provides.push(Capability::new("compute", "http"));
        let mut failure_modes: Vec<String> = Vec::new();
        failure_modes.push("timeout".to_string());
        WorkloadUnitBuilder {
            unit: WorkloadUnit {
                header: fresh_header(),
                kind: WorkloadKind::Service,
                artifact: Artifact { artifact_type: ArtifactType::Oci, requires: Vec::new() },
                needs: Vec::new(),
                provides,
                tolerates: Tolerances { max_latency_ms: Some(100), failure_modes },
                scaling: Scaling { min_instances: 1, max_instances: 3, triggers: Vec::new() },
                recovery_relationships: Vec::new(),
            },
        }
    }

    /// Sets the unit identifier.
    pub fn with_id(self, id: UnitId) -> (r: Self)
        ensures r.target() == (WorkloadUnit { header: UnitHeader { id, ..self.target().header }, ..self.target() }),
    {
        let header = UnitHeader { id, ..self.unit.header };
        WorkloadUnitBuilder { unit: WorkloadUnit { header, ..self.unit } }
    }

    /// Sets the author.
    pub fn with_author(self, author: AuthorId) -> (r: Self)
        ensures r.target() == (WorkloadUnit { header: UnitHeader { author, ..self.target().header }, ..self.target() }),
    {
        let header = UnitHeader { author, ..self.unit.header };
        WorkloadUnitBuilder { unit: WorkloadUnit { header, ..self.unit } }
    }

    /// Sets the trust domain.
    pub fn with_trust_domain(self, td: TrustDomainId) -> (r: Self)
        ensures
            r.target() == (WorkloadUnit { header: UnitHeader { trust_domain: td, ..self.target().header }, ..self.target() }),
    {
        let header = UnitHeader { trust_domain: td, ..self.unit.header };
        WorkloadUnitBuilder { unit: WorkloadUnit { header, ..self.unit } }
    }

    /// Sets the workload kind.
    pub fn with_kind(self, kind: WorkloadKind) -> (r: Self)
        ensures r.target() == (WorkloadUnit { kind, ..self.target() }),
    {
        WorkloadUnitBuilder { unit: WorkloadUnit { kind, ..self.unit } }
    }

    /// Sets the needed capabilities.
    pub fn with_needs(self, needs: Vec<Capability>) -> (r: Self)
        ensures r.target() == (WorkloadUnit { needs, ..self.target() }),
    {
        WorkloadUnitBuilder { unit: WorkloadUnit { needs, ..self.unit } }
    }

    /// Sets the provided capabilities.
    pub fn with_provides(self, provides: Vec<Capability>) -> (r: Self)
        ensures r.target() == (WorkloadUnit { provides, ..self.target() }),
    {
        WorkloadUnitBuilder { unit: WorkloadUnit { provides, ..self.unit } }
    }

    /// Sets the minimum and maximum instance counts.
    pub fn with_scaling(self, min: u32, max: u32) -> (r: Self)
        ensures
            r.target().scaling.min_instances == min,
            r.target().scaling.max_instances == max,
            r.target().scaling.triggers == self.target().scaling.triggers,
            r.target() == (WorkloadUnit { scaling: r.target().scaling, ..self.target() }),
    {
        let WorkloadUnit { header, kind, artifact, needs, provides, tolerates, scaling, recovery_relationships } = self.unit;
        let scaling = Scaling { min_instances: min, max_instances: max, triggers: scaling.triggers };
        WorkloadUnitBuilder {
            unit: WorkloadUnit { header, kind, artifact, needs, provides, tolerates, scaling, recovery_relationships },
        }
    }

    /// Sets the recovery dependencies.
    pub fn with_recovery_relationships(self, rels: Vec<RecoveryRelationship>) -> (r: Self)
        ensures r.target() == (WorkloadUnit { recovery_relationships: rels, ..self.target() }),
    {
        WorkloadUnitBuilder { unit: WorkloadUnit { recovery_relationships: rels, ..self.unit } }
    }

    /// Builds the workload unit.
    pub fn build(self) -> (r: WorkloadUnit)
        ensures r == self.target(),
    {
        self.unit
    }
}

// ---------------------------------------------------------------------------
// DataUnitBuilder
// ---------------------------------------------------------------------------

/// The data unit defaults (identifiers aside).
pub open spec fn default_data(d: DataUnit) -> bool {
    &&& d.needs@.len() == 0
    &&& d.provides@.len() == 1
    &&& d.provides@[0].cap_type@ == "storage"@
    &&& d.provides@[0].name@ == "dataset-x"@
    &&& d.provides@[0].purpose is None
    &&& d.classification == Classification::Public
    &&& d.provenance is None
    &&& d.parent is None
}

/// Builds a [`DataUnit`]; defaults: fresh random identifiers, no needs,
/// provides `storage:dataset-x`, public classification, no provenance, no
/// parent.
#[derive(Clone, Debug)]
pub struct DataUnitBuilder {
    unit: DataUnit,
}

impl Default for DataUnitBuilder {
    /// The builder with the defaults.
    fn default() -> (r: Self)
        ensures default_data(r.target()),
    {
        DataUnitBuilder::new()
    }
}

impl DataUnitBuilder {
    /// The data unit this builder would build.
    pub closed spec fn target(&self) -> DataUnit {
        self.unit
    }

    /// A builder with the defaults.
    pub fn new() -> (r: Self)
        ensures default_data(r.target()),
    {
        let mut provides: Vec<Capability> = Vec::new();
        provides.push(Capability::new("storage", "dataset-x"));
        DataUnitBuilder {
            unit: DataUnit {
                header: fresh_header(),
                needs: Vec::new(),
                provides,
                classification: Classification::Public,
                provenance: None,
                parent: None,
            },
        }
    }

    /// Sets the unit identifier.
    pub fn with_id(self, id: UnitId) -> (r: Self)
        ensures r.target() == (DataUnit { header: UnitHeader { id, ..self.target().header }, ..self.target() }),
    {
        let header = UnitHeader { id, ..self.unit.header };
        DataUnitBuilder { unit: DataUnit { header, ..self.unit } }
    }

    /// Sets the classification.
    pub fn with_classification(self, classification: Classification) -> (r: Self)
        ensures r.target() == (DataUnit { classification, ..self.target() }),
    {
        DataUnitBuilder { unit: DataUnit { classification, ..self.unit } }
    }

    /// Sets the provenance.
    pub fn with_provenance(self, provenance: Provenance) -> (r: Self)
        ensures r.target() == (DataUnit { provenance: Some(provenance), ..self.target() }),
    {
        DataUnitBuilder { unit: DataUnit { provenance: Some(provenance), ..self.unit } }
    }

    /// Sets the parent data unit.
    pub fn with_parent(self, parent: UnitId) -> (r: Self)
        ensures r.target() == (DataUnit { parent: Some(parent), ..self.target() }),
    {
        DataUnitBuilder { unit: DataUnit { parent: Some(parent), ..self.unit } }
    }

    /// Sets the provided capabilities.
    pub fn with_provides(self, provides: Vec<Capability>) -> (r: Self)
        ensures r.target() == (DataUnit { provides, ..self.target() }),
    {
        DataUnitBuilder { unit: DataUnit { provides, ..self.unit } }
    }

    /// Builds the data unit.
    pub fn build(self) -> (r: DataUnit)
        ensures r == self.target(),
    {
        self.unit
    }
}

} // verus!
