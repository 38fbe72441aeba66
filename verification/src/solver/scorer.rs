//! Placement scoring: deterministic node scoring in fixed-point ppm.
//!
//! A node's score is the sum of a base value and factors for capability
//! match quality, node health, resources, latency tolerance and
//! failure-mode tolerance, minus a penalty for suspected nodes.

use vstd::prelude::*;
use vstd::utf8::encode_utf8;
use crate::common::{NodeId, Ppm, id_text, id_to_text};
use crate::model::{ArtifactType, Capability, GraphSnapshot, NodeCapabilitySet, RuntimeCapability, Unit};
use crate::order::{Ordered, sort_le, sorted_le};
use crate::solver::error::SolverError;
use crate::solver::membership::{MembershipSnapshot, NodeHealth, first_node};
use crate::solver::placement::PlacementScore;
use crate::text::str_eq;

verus! {

// ---------------------------------------------------------------------------
// Runtime matching
// ---------------------------------------------------------------------------

/// The runtime that exactly matches an artifact type, if any.
pub open spec fn exact_runtime(at: ArtifactType) -> Option<RuntimeCapability> {
    match at {
        ArtifactType::Oci => Some(RuntimeCapability::Oci),
        ArtifactType::Native => Some(RuntimeCapability::Native),
        ArtifactType::Wasm => Some(RuntimeCapability::Wasm),
        ArtifactType::K8sManifest => Some(RuntimeCapability::K8s),
        ArtifactType::MicroVm => Some(RuntimeCapability::MicroVm),
        ArtifactType::Other => None,
    }
}

/// Whether runtime `r` can run an artifact of type `at`, exactly or
/// compatibly (a rootless OCI runtime runs OCI artifacts).
pub open spec fn hosts(at: ArtifactType, r: RuntimeCapability) -> bool {
    exact_runtime(at) == Some(r) || (at == ArtifactType::Oci && r == RuntimeCapability::OciRootless)
}

/// Whether the runtimes include the exact match of `at`.
pub open spec fn exact_match_spec(at: ArtifactType, runtimes: Seq<RuntimeCapability>) -> bool {
    exists|i: int| 0 <= i < runtimes.len() && exact_runtime(at) == Some(#[trigger] runtimes[i])
}

/// Whether some runtime can run an artifact of type `at`.
pub open spec fn can_host_spec(at: ArtifactType, runtimes: Seq<RuntimeCapability>) -> bool {
    exists|i: int| 0 <= i < runtimes.len() && hosts(at, #[trigger] runtimes[i])
}

fn exact_runtime_exec(at: ArtifactType) -> (r: Option<RuntimeCapability>)
    ensures r == exact_runtime(at),
{
    match at {
        ArtifactType::Oci => Some(RuntimeCapability::Oci),
        ArtifactType::Native => Some(RuntimeCapability::Native),
        ArtifactType::Wasm => Some(RuntimeCapability::Wasm),
        ArtifactType::K8sManifest => Some(RuntimeCapability::K8s),
        ArtifactType::MicroVm => Some(RuntimeCapability::MicroVm),
        ArtifactType::Other => None,
    }
}

fn hosts_exec(at: ArtifactType, r: RuntimeCapability) -> (b: bool)
    ensures b == hosts(at, r),
{
    match exact_runtime_exec(at) {
        Some(e) => e == r || (at == ArtifactType::Oci && r == RuntimeCapability::OciRootless),
        None => false,
    }
}

// ---------------------------------------------------------------------------
// Latency parsing
// ---------------------------------------------------------------------------

/// Whether `b` is an ASCII decimal digit.
pub open spec fn is_digit_byte(b: u8) -> bool {
    48 <= b <= 57
}

/// The value of a string of decimal digits.
pub open spec fn digits_value(d: Seq<u8>) -> nat
    decreases d.len(),
{
    if d.len() == 0 {
        0
    } else {
        digits_value(d.drop_last()) * 10 + (d.last() - 48) as nat
    }
}

/// The digits of an unsigned number: one leading `+` is dropped.
pub open spec fn unsigned_digits(b: Seq<u8>) -> Seq<u8> {
    if b.len() > 0 && b[0] == 43 { b.drop_first() } else { b }
}

/// What `str::parse::<u128>` gives, as an option: an optional `+`, then at
/// least one decimal digit and nothing else, with a value that fits.
pub open spec fn parse_u128_spec(b: Seq<u8>) -> Option<u128> {
    let d = unsigned_digits(b);
    if d.len() > 0 && (forall|i: int| 0 <= i < d.len() ==> is_digit_byte(#[trigger] d[i]))
        && digits_value(d) <= u128::MAX {
        Some(digits_value(d) as u128)
    } else {
        None
    }
}

/// Saturating multiplication by 1000.
pub open spec fn times_thousand(v: u128) -> u128 {
    if v * 1000 > u128::MAX { u128::MAX } else { (v * 1000) as u128 }
}

/// A latency in milliseconds: `"<n>ms"`, `"<n>s"` (times 1000, saturating),
/// or a bare number of milliseconds.
pub open spec fn latency_ms_spec(b: Seq<u8>) -> Option<u128> {
    let n = b.len();
    if n >= 2 && b[n - 2] == 109 && b[n - 1] == 115 {
        parse_u128_spec(b.subrange(0, n - 2))
    } else if n >= 1 && b[n - 1] == 115 {
        match parse_u128_spec(b.subrange(0, n - 1)) {
            Some(v) => Some(times_thousand(v)),
            None => None,
        }
    } else {
        parse_u128_spec(b)
    }
}

proof fn lemma_digits_value_prefix(d: Seq<u8>, k: int)
    requires
        0 <= k <= d.len(),
        forall|i: int| 0 <= i < d.len() ==> is_digit_byte(#[trigger] d[i]),
    ensures
        digits_value(d.subrange(0, k)) <= digits_value(d),
    decreases d.len(),
{
    if k < d.len() {
        let e = d.drop_last();
        assert(e.subrange(0, k) =~= d.subrange(0, k));
        assert(forall|i: int| 0 <= i < e.len() ==> e[i] == d[i]);
        lemma_digits_value_prefix(e, k);
        assert(is_digit_byte(d[d.len() - 1]));
    } else {
        assert(d.subrange(0, k) =~= d);
    }
}

/// Parses the first `len` bytes of `b` as `str::parse::<u128>` does.
fn parse_u128_prefix(b: &[u8], len: usize) -> (r: Option<u128>)
    requires
        len <= b@.len(),
    ensures
        r == parse_u128_spec(b@.subrange(0, len as int)),
{
    let ghost whole = b@.subrange(0, len as int);
    let mut start: usize = 0;
    if len > 0 && b[0] == 43 {
        start = 1;
    }
    let ghost d = unsigned_digits(whole);
    assert(d =~= b@.subrange(start as int, len as int));
    if start >= len {
        return None;
    }
    let mut acc: u128 = 0;
    let mut i: usize = start;
    while i < len
        invariant
            start <= i <= len,
            len <= b@.len(),
            d =~= b@.subrange(start as int, len as int),
            d == unsigned_digits(b@.subrange(0, len as int)),
            forall|j: int| start <= j < i ==> is_digit_byte(#[trigger] b@[j]),
            acc == digits_value(b@.subrange(start as int, i as int)),
        decreases len - i,
    {
        let c = b[i];
        if c < 48 || c > 57 {
            assert(!is_digit_byte(d[i - start]));
            return None;
        }
        proof {
            let p = b@.subrange(start as int, i + 1);
            assert(p.drop_last() =~= b@.subrange(start as int, i as int));
        }
        match acc.checked_mul(10) {
            Some(m) => match m.checked_add((c - 48) as u128) {
                Some(v) => {
                    acc = v;
                }
                None => {
                    proof {
                        let p = b@.subrange(start as int, i + 1);
                        if forall|j: int| 0 <= j < d.len() ==> is_digit_byte(#[trigger] d[j]) {
                            assert(p =~= d.subrange(0, i + 1 - start));
                            lemma_digits_value_prefix(d, i + 1 - start);
                        }
                    }
                    return None;
                }
            },
            None => {
                proof {
                    let p = b@.subrange(start as int, i + 1);
                    if forall|j: int| 0 <= j < d.len() ==> is_digit_byte(#[trigger] d[j]) {
                        assert(p =~= d.subrange(0, i + 1 - start));
                        lemma_digits_value_prefix(d, i + 1 - start);
                    }
                }
                return None;
            }
        }
        i = i + 1;
    }
    assert(b@.subrange(start as int, len as int) =~= d);
    Some(acc)
}

// ---------------------------------------------------------------------------
// Node tags
// ---------------------------------------------------------------------------

/// The tag key under which a node advertises its latency.
pub open spec fn latency_key() -> Seq<char> {
    seq!['l', 'a', 't', 'e', 'n', 'c', 'y']
}

/// The tag key under which a node advertises a failure mode it supports.
pub open spec fn failure_key() -> Seq<char> {
    seq!['s', 'u', 'p', 'p', 'o', 'r', 't', 's', '_', 'f', 'a', 'i', 'l', 'u', 'r', 'e']
}

/// `i` is the first tag with key `key`.
pub open spec fn first_tag_at(tags: Seq<(String, String)>, key: Seq<char>, i: int) -> bool {
    &&& 0 <= i < tags.len()
    &&& tags[i].0@ == key
    &&& forall|j: int| 0 <= j < i ==> (#[trigger] tags[j]).0@ != key
}

/// Some tag has key `key`.
pub open spec fn has_tag(tags: Seq<(String, String)>, key: Seq<char>) -> bool {
    exists|i: int| 0 <= i < tags.len() && (#[trigger] tags[i]).0@ == key
}

/// The latency a node advertises: the value of its first latency tag,
/// parsed; none if there is no such tag or it does not parse.
pub open spec fn node_latency_spec(tags: Seq<(String, String)>) -> Option<u128> {
    if exists|i: int| first_tag_at(tags, latency_key(), i) {
        let i = choose|i: int| first_tag_at(tags, latency_key(), i);
        latency_ms_spec(encode_utf8(tags[i].1@))
    } else {
        None
    }
}

/// Latency factor: 150,000 when the node's latency meets the tolerance,
/// 50,000 when it exceeds it, 100,000 when either side declares nothing.
pub open spec fn latency_score_spec(max_latency_ms: Option<u128>, tags: Seq<(String, String)>) -> u64 {
    match max_latency_ms {
        None => 100_000,
        Some(max) => match node_latency_spec(tags) {
            None => 100_000,
            Some(l) => if l <= max { 150_000 } else { 50_000 },
        },
    }
}

/// The node supports failure mode `m`.
pub open spec fn supports_mode(tags: Seq<(String, String)>, m: Seq<char>) -> bool {
    exists|t: int| 0 <= t < tags.len() && (#[trigger] tags[t]).0@ == failure_key() && tags[t].1@ == m
}

/// Failure-mode factor: 150,000 when the node supports one of the declared
/// modes, 50,000 when it supports none of them, 100,000 when either side
/// declares nothing.
pub open spec fn failure_score_spec(modes: Seq<String>, tags: Seq<(String, String)>) -> u64 {
    if modes.len() == 0 || !has_tag(tags, failure_key()) {
        100_000
    } else if exists|m: int| 0 <= m < modes.len() && supports_mode(tags, (#[trigger] modes[m])@) {
        150_000
    } else {
        50_000
    }
}

// ---------------------------------------------------------------------------
// Score
// ---------------------------------------------------------------------------

/// Capability factor: none when a workload's artifact has no runtime on the
/// node; 200,000 for an exact runtime or a unit that is not a workload;
/// 100,000 for a compatible runtime.
pub open spec fn cap_bonus_spec(unit: Unit, caps: NodeCapabilitySet) -> Option<u64> {
    match unit {
        Unit::Workload(w) => {
            let at = w.artifact.artifact_type;
            if !can_host_spec(at, caps.runtimes@) {
                None
            } else if exact_match_spec(at, caps.runtimes@) {
                Some(200_000)
            } else {
                Some(100_000)
            }
        },
        _ => Some(200_000),
    }
}

/// Health factor.
pub open spec fn health_score_spec(h: NodeHealth) -> u64 {
    match h {
        NodeHealth::Active => 200_000,
        NodeHealth::Suspected => 50_000,
    }
}

/// Penalty of a suspected node.
pub open spec fn penalty_spec(h: NodeHealth) -> u64 {
    match h {
        NodeHealth::Active => 0,
        NodeHealth::Suspected => 150_000,
    }
}

/// Latency factor of a unit on a node (neutral for non-workloads).
pub open spec fn unit_latency_spec(unit: Unit, caps: NodeCapabilitySet) -> u64 {
    match unit {
        Unit::Workload(w) => latency_score_spec(w.tolerates.max_latency_ms, caps.custom_tags@),
        _ => 100_000,
    }
}

/// Failure-mode factor of a unit on a node (neutral for non-workloads).
pub open spec fn unit_affinity_spec(unit: Unit, caps: NodeCapabilitySet) -> u64 {
    match unit {
        Unit::Workload(w) => failure_score_spec(w.tolerates.failure_modes@, caps.custom_tags@),
        _ => 100_000,
    }
}

/// The score breakdown of `unit` on a node with `caps` and `health`:
/// base 500,000 plus the capability, health, resource (100,000), latency
/// and failure-mode factors, minus the suspected penalty. None when the
/// node cannot host the unit.
pub open spec fn score_spec(unit: Unit, caps: NodeCapabilitySet, health: NodeHealth) -> Option<PlacementScore> {
    match cap_bonus_spec(unit, caps) {
        None => None,
        Some(bonus) => {
            let lat = unit_latency_spec(unit, caps);
            let aff = unit_affinity_spec(unit, caps);
            Some(PlacementScore {
                total: Ppm((500_000 + bonus + health_score_spec(health) + 100_000 + lat + aff
                    - penalty_spec(health)) as u64),
                resource_score: Ppm(100_000),
                latency_score: Ppm(lat),
                affinity_score: Ppm(aff),
                health_score: Ppm(health_score_spec(health)),
                suspected_penalty: Ppm(penalty_spec(health)),
            })
        },
    }
}

/// The reason text of a node missing from the membership snapshot.
pub open spec fn missing_node_reason(node: NodeId) -> Seq<char> {
    seq!['n', 'o', 'd', 'e', ' ', 'N', 'o', 'd', 'e', 'I', 'd', '('] + id_text(node.0)
        + seq![')', ' ', 'n', 'o', 't', ' ', 'i', 'n', ' ', 'm', 'e', 'm', 'b', 'e', 'r', 's', 'h',
        'i', 'p', ' ', 's', 'n', 'a', 'p', 's', 'h', 'o', 't']
}

/// The scoring outcome of `unit` on `node`: the total score, an internal
/// error when the node is not in the snapshot, or no capable node (with the
/// workload's needs as unmet) when the node cannot host the unit.
pub open spec fn score_result_spec(unit: Unit, node: NodeId, membership: Seq<(NodeId, NodeCapabilitySet, NodeHealth)>) -> Option<Option<Ppm>> {
    match first_node(membership, node) {
        None => None,
        Some(i) => match score_spec(unit, membership[i].1, membership[i].2) {
            Some(s) => Some(Some(s.total)),
            None => Some(None),
        },
    }
}

/// The capabilities reported unmet when a unit cannot be placed.
pub open spec fn unmet_spec(unit: Unit) -> Seq<Capability> {
    match unit {
        Unit::Workload(w) => w.needs@,
        _ => Seq::empty(),
    }
}

/// Ranking order: higher score first, then lower node identifier.
impl Ordered for (NodeId, Ppm) {
    open spec fn le_spec(self, other: Self) -> bool {
        self.1.0 > other.1.0 || (self.1.0 == other.1.0 && self.0.0 <= other.0.0)
    }

    proof fn lemma_le_total(a: Self, b: Self) {
    }

    proof fn lemma_le_trans(a: Self, b: Self, c: Self) {
    }

    fn le(&self, other: &Self) -> (r: bool) {
        self.1.0 > other.1.0 || (self.1.0 == other.1.0 && self.0.0 <= other.0.0)
    }
}

/// The scored candidates among the first `n` nodes of the snapshot, in
/// snapshot order: each node that can host the unit, with its score.
pub open spec fn scored_prefix(unit: Unit, nodes: Seq<(NodeId, NodeCapabilitySet, NodeHealth)>, n: int) -> Seq<(NodeId, Ppm)>
    decreases n,
{
    if n <= 0 {
        Seq::empty()
    } else {
        let rest = scored_prefix(unit, nodes, n - 1);
        match score_result_spec(unit, nodes[n - 1].0, nodes) {
            Some(Some(total)) => rest.push((nodes[n - 1].0, total)),
            _ => rest,
        }
    }
}

/// Default, stateless placement scorer.
#[derive(Clone, Copy, Debug, Default, PartialEq, Eq)]
pub struct DefaultPlacementScorer;

impl DefaultPlacementScorer {
    /// Creates a scorer.
    pub fn new() -> (r: Self)
        ensures r == DefaultPlacementScorer,
    {
        DefaultPlacementScorer
    }

    /// Whether the runtimes include the exact match of the artifact type
    /// (a rootless OCI runtime is only compatible).
    pub fn is_exact_runtime_match(artifact_type: ArtifactType, runtimes: &Vec<RuntimeCapability>) -> (r: bool)
        ensures r == exact_match_spec(artifact_type, runtimes@),
    {
        let target = match exact_runtime_exec(artifact_type) {
            Some(t) => t,
            None => return false,
        };
        let mut i: usize = 0;
        while i < runtimes.len()
            invariant
                i <= runtimes@.len(),
                exact_runtime(artifact_type) == Some(target),
                forall|j: int| 0 <= j < i ==> runtimes@[j] != target,
            decreases runtimes@.len() - i,
        {
            if runtimes[i] == target {
                return true;
            }
            i = i + 1;
        }
        false
    }

    /// Whether some runtime can run the artifact, exactly or compatibly.
    pub fn can_host(artifact_type: ArtifactType, runtimes: &Vec<RuntimeCapability>) -> (r: bool)
        ensures r == can_host_spec(artifact_type, runtimes@),
    {
        let mut i: usize = 0;
        while i < runtimes.len()
            invariant
                i <= runtimes@.len(),
                forall|j: int| 0 <= j < i ==> !hosts(artifact_type, #[trigger] runtimes@[j]),
            decreases runtimes@.len() - i,
        {
            if hosts_exec(artifact_type, runtimes[i]) {
                return true;
            }
            i = i + 1;
        }
        false
    }

    /// Parses a latency: `"50ms"`, `"1s"` (1000 ms, saturating) or a bare
    /// number of milliseconds.
    pub fn parse_latency_ms(s: &str) -> (r: Option<u128>)
        ensures r == latency_ms_spec(encode_utf8(s@)),
    {
        let b = s.as_bytes();
        let n = b.len();
        if n >= 2 && b[n - 2] == 109 && b[n - 1] == 115 {
            return parse_u128_prefix(b, n - 2);
        }
        if n >= 1 && b[n - 1] == 115 {
            return match parse_u128_prefix(b, n - 1) {
                Some(v) => Some(match v.checked_mul(1000) {
                    Some(m) => m,
                    None => u128::MAX,
                }),
                None => None,
            };
        }
        assert(b@.subrange(0, n as int) =~= b@);
        parse_u128_prefix(b, n)
    }

    /// The latency a node advertises under its first latency tag.
    pub fn node_latency_ms(caps: &NodeCapabilitySet) -> (r: Option<u128>)
        ensures r == node_latency_spec(caps.custom_tags@),
    {
        let tags = &caps.custom_tags;
        proof {
            reveal_strlit("latency");
        }
        let mut i: usize = 0;
        while i < tags.len()
            invariant
                i <= tags@.len(),
                "latency"@ == latency_key(),
                tags@ == caps.custom_tags@,
                forall|j: int| 0 <= j < i ==> (#[trigger] tags@[j]).0@ != latency_key(),
            decreases tags@.len() - i,
        {
            if str_eq(tags[i].0.as_str(), "latency") {
                proof {
                    assert(first_tag_at(tags@, latency_key(), i as int));
                    let c = choose|c: int| first_tag_at(tags@, latency_key(), c);
                    if c < i {
                        assert(tags@[c].0@ != latency_key());
                    }
                    if c > i {
                        assert(tags@[i as int].0@ != latency_key());
                    }
                    assert(c == i as int);
                }
                return Self::parse_latency_ms(tags[i].1.as_str());
            }
            i = i + 1;
        }
        proof {
            if exists|c: int| first_tag_at(tags@, latency_key(), c) {
                let c = choose|c: int| first_tag_at(tags@, latency_key(), c);
                assert(tags@[c].0@ != latency_key());
            }
        }
        None
    }

    /// Latency factor for a tolerance and a node.
    pub fn latency_tolerance_score(max_latency_ms: Option<u128>, caps: &NodeCapabilitySet) -> (r: Ppm)
        ensures r == Ppm(latency_score_spec(max_latency_ms, caps.custom_tags@)),
    {
        let max = match max_latency_ms {
            Some(m) => m,
            None => return Ppm(100_000),
        };
        match Self::node_latency_ms(caps) {
            None => Ppm(100_000),
            Some(l) => if l <= max { Ppm(150_000) } else { Ppm(50_000) },
        }
    }

    /// Failure-mode factor for the declared modes and a node.
    pub fn failure_mode_tolerance_score(modes: &Vec<String>, caps: &NodeCapabilitySet) -> (r: Ppm)
        ensures r == Ppm(failure_score_spec(modes@, caps.custom_tags@)),
    {
        if modes.len() == 0 {
            return Ppm(100_000);
        }
        let tags = &caps.custom_tags;
        proof {
            reveal_strlit("supports_failure");
        }
        let mut any_tag = false;
        let mut t: usize = 0;
        while t < tags.len()
            invariant
                t <= tags@.len(),
                "supports_failure"@ == failure_key(),
                tags@ == caps.custom_tags@,
                any_tag == exists|j: int| 0 <= j < t && (#[trigger] tags@[j]).0@ == failure_key(),
            decreases tags@.len() - t,
        {
            if str_eq(tags[t].0.as_str(), "supports_failure") {
                any_tag = true;
            }
            t = t + 1;
        }
        if !any_tag {
            return Ppm(100_000);
        }
        let mut m: usize = 0;
        while m < modes.len()
            invariant
                m <= modes@.len(),
                "supports_failure"@ == failure_key(),
                tags@ == caps.custom_tags@,
                has_tag(tags@, failure_key()),
                modes@.len() > 0,
                forall|k: int| 0 <= k < m ==> !supports_mode(tags@, (#[trigger] modes@[k])@),
            decreases modes@.len() - m,
        {
            let mut t: usize = 0;
            while t < tags.len()
                invariant
                    t <= tags@.len(),
                    m < modes@.len(),
                    has_tag(tags@, failure_key()),
                    "supports_failure"@ == failure_key(),
                    tags@ == caps.custom_tags@,
                tags@ == caps.custom_tags@,
                    forall|j: int| 0 <= j < t ==> !((#[trigger] tags@[j]).0@ == failure_key() && tags@[j].1@ == modes@[m as int]@),
                decreases tags@.len() - t,
            {
                if str_eq(tags[t].0.as_str(), "supports_failure") && str_eq(tags[t].1.as_str(), modes[m].as_str()) {
                    proof {
                        assert(tags@[t as int].0@ == failure_key());
                        assert(tags@[t as int].1@ == modes@[m as int]@);
                        assert(supports_mode(tags@, modes@[m as int]@));
                        assert(0 <= m < modes@.len());
                        assert(exists|k: int| 0 <= k < modes@.len() && supports_mode(tags@, (#[trigger] modes@[k])@));
                    }
                    return Ppm(150_000);
                }
                t = t + 1;
            }
            m = m + 1;
        }
        Ppm(50_000)
    }

    /// The full score breakdown of `unit` on a node; none when the node
    /// cannot host the unit.
    pub fn compute_score(unit: &Unit, caps: &NodeCapabilitySet, health: NodeHealth) -> (r: Option<PlacementScore>)
        ensures r == score_spec(*unit, *caps, health),
    {
        let cap_bonus: u64 = match unit {
            Unit::Workload(w) => {
                let at = w.artifact.artifact_type;
                if !Self::can_host(at, &caps.runtimes) {
                    return None;
                }
                if Self::is_exact_runtime_match(at, &caps.runtimes) { 200_000 } else { 100_000 }
            },
            _ => 200_000,
        };
        let (health_score, suspected_penalty): (u64, u64) = match health {
            NodeHealth::Active => (200_000, 0),
            NodeHealth::Suspected => (50_000, 150_000),
        };
        let (latency_score, affinity_score) = match unit {
            Unit::Workload(w) => (
                Self::latency_tolerance_score(w.tolerates.max_latency_ms, caps),
                Self::failure_mode_tolerance_score(&w.tolerates.failure_modes, caps),
            ),
            _ => (Ppm(100_000), Ppm(100_000)),
        };
        let resource_score: u64 = 100_000;
        let total = Ppm(500_000).saturating_add(Ppm(cap_bonus)).saturating_add(Ppm(health_score))
            .saturating_add(Ppm(resource_score)).saturating_add(latency_score)
            .saturating_add(affinity_score).saturating_sub(Ppm(suspected_penalty));
        Some(PlacementScore {
            total,
            resource_score: Ppm(resource_score),
            latency_score,
            affinity_score,
            health_score: Ppm(health_score),
            suspected_penalty: Ppm(suspected_penalty),
        })
    }

    /// Scores `node` for `unit`: its total score; an internal error when the
    /// node is not in the snapshot; no capable node when it cannot host the
    /// unit.
    pub fn score(&self, unit: &Unit, node: &NodeId, graph: &GraphSnapshot, membership: &MembershipSnapshot) -> (r: Result<Ppm, SolverError>)
        ensures
            match score_result_spec(*unit, *node, membership.nodes@) {
                None => r matches Err(SolverError::InternalError { reason }) && reason@ == missing_node_reason(*node),
                Some(None) => r matches Err(SolverError::NoCapableNode { unit: u, unmet })
                    && u == unit.header_spec().id && unmet@ == unmet_spec(*unit),
                Some(Some(total)) => r == Ok::<Ppm, SolverError>(total),
            },
    {
        let entry = match membership.get(node) {
            Some(e) => e,
            None => {
                let mut reason = String::new();
                proof {
                    reveal_strlit("node NodeId(");
                    reveal_strlit(") not in membership snapshot");
                }
                reason.append("node NodeId(");
                let id = id_to_text(node.0);
                reason.append(id.as_str());
                reason.append(") not in membership snapshot");
                assert(reason@ =~= missing_node_reason(*node));
                return Err(SolverError::InternalError { reason });
            },
        };
        match Self::compute_score(unit, &entry.1, entry.2) {
            Some(s) => Ok(s.total),
            None => {
                let unmet = match unit {
                    Unit::Workload(w) => Capability::copy_all(&w.needs),
                    _ => Vec::new(),
                };
                Err(SolverError::NoCapableNode { unit: unit.id(), unmet })
            },
        }
    }

    /// Scores every node of the snapshot and returns those that can host
    /// the unit, by score descending and then node identifier ascending.
    pub fn rank_nodes(&self, unit: &Unit, graph: &GraphSnapshot, membership: &MembershipSnapshot) -> (r: Vec<(NodeId, Ppm)>)
        ensures
            sorted_le(r@),
            r@.to_multiset() == scored_prefix(*unit, membership.nodes@, membership.nodes@.len() as int).to_multiset(),
    {
        let mut scored: Vec<(NodeId, Ppm)> = Vec::new();
        let mut i: usize = 0;
        while i < membership.nodes.len()
            invariant
                i <= membership.nodes@.len(),
                scored@ == scored_prefix(*unit, membership.nodes@, i as int),
            decreases membership.nodes@.len() - i,
        {
            let id = membership.nodes[i].0;
            match self.score(unit, &id, graph, membership) {
                Ok(s) => {
                    scored.push((id, s));
                },
                Err(_) => {},
            }
            i = i + 1;
        }
        sort_le(scored)
    }
}

/// The failure-mode factor: 150,000 when the node has a `supports_failure`
/// tag naming any of the declared modes, wherever it stands in the list;
/// 50,000 when the node has `supports_failure` tags but none names a
/// declared mode; 100,000 when no mode is declared or the node has no
/// `supports_failure` tag.
pub proof fn lemma_failure_score(modes: Seq<String>, tags: Seq<(String, String)>)
    ensures
        (exists|m: int, t: int| 0 <= m < modes.len() && 0 <= t < tags.len() && (#[trigger] tags[t]).0@ == "supports_failure"@
            && tags[t].1@ == (#[trigger] modes[m])@) ==> failure_score_spec(modes, tags) == 150_000,
        modes.len() > 0 && (exists|t: int| 0 <= t < tags.len() && (#[trigger] tags[t]).0@ == "supports_failure"@)
            && !(exists|m: int, t: int| 0 <= m < modes.len() && 0 <= t < tags.len() && (#[trigger] tags[t]).0@ == "supports_failure"@
            && tags[t].1@ == (#[trigger] modes[m])@) ==> failure_score_spec(modes, tags) == 50_000,
        modes.len() == 0 || !(exists|t: int| 0 <= t < tags.len() && (#[trigger] tags[t]).0@ == "supports_failure"@)
            ==> failure_score_spec(modes, tags) == 100_000,
{
    reveal_strlit("supports_failure");
    assert("supports_failure"@ =~= failure_key());
    if exists|m: int, t: int| 0 <= m < modes.len() && 0 <= t < tags.len() && (#[trigger] tags[t]).0@ == "supports_failure"@
        && tags[t].1@ == (#[trigger] modes[m])@ {
        let (m, t) = choose|m: int, t: int| 0 <= m < modes.len() && 0 <= t < tags.len() && (#[trigger] tags[t]).0@ == "supports_failure"@
            && tags[t].1@ == (#[trigger] modes[m])@;
        assert(supports_mode(tags, modes[m]@));
        assert(has_tag(tags, failure_key()));
    }
    if exists|m: int| 0 <= m < modes.len() && supports_mode(tags, (#[trigger] modes[m])@) {
        let m = choose|m: int| 0 <= m < modes.len() && supports_mode(tags, (#[trigger] modes[m])@);
        let t = choose|t: int| 0 <= t < tags.len() && (#[trigger] tags[t]).0@ == failure_key() && tags[t].1@ == modes[m]@;
        assert(tags[t].0@ == "supports_failure"@ && tags[t].1@ == modes[m]@);
    }
    if has_tag(tags, failure_key()) {
        let t = choose|t: int| 0 <= t < tags.len() && (#[trigger] tags[t]).0@ == failure_key();
        assert(tags[t].0@ == "supports_failure"@);
    }
}

/// The failure-mode factor does not depend on the order in which the
/// modes are declared.
pub proof fn lemma_failure_score_order(m1: Seq<String>, m2: Seq<String>, tags: Seq<(String, String)>)
    requires
        m1.to_multiset() == m2.to_multiset(),
    ensures
        failure_score_spec(m1, tags) == failure_score_spec(m2, tags),
{
    crate::order::lemma_perm_contains(m1, m2);
    m1.to_multiset_ensures();
    m2.to_multiset_ensures();
    if exists|m: int| 0 <= m < m1.len() && supports_mode(tags, (#[trigger] m1[m])@) {
        let m = choose|m: int| 0 <= m < m1.len() && supports_mode(tags, (#[trigger] m1[m])@);
        assert(m1.contains(m1[m]));
        let q = choose|q: int| 0 <= q < m2.len() && m2[q] == m1[m];
        assert(supports_mode(tags, m2[q]@));
    }
    if exists|m: int| 0 <= m < m2.len() && supports_mode(tags, (#[trigger] m2[m])@) {
        let m = choose|m: int| 0 <= m < m2.len() && supports_mode(tags, (#[trigger] m2[m])@);
        assert(m2.contains(m2[m]));
        let q = choose|q: int| 0 <= q < m1.len() && m1[q] == m2[m];
        assert(supports_mode(tags, m1[q]@));
    }
}

} // verus!
