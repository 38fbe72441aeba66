//! Node enrollment: multi-party distribution of a new node's key.
//!
//! Initiation generates an Ed25519 key pair for the new node and splits its
//! 32-byte secret seed into `n` Shamir shares with threshold `k`; the
//! caller hands the shares to existing nodes. Those nodes contribute their
//! shares back (a repeated index is refused). Once `k` shares are in,
//! completion reconstructs the seed from the first `k` of them, erases it,
//! and returns the node's public key; only the public key persists.

use vstd::prelude::*;
use crate::common::{id_text, id_to_text, random_id, AuthorId, NodeId, TrustDomainId, UnitId};
use crate::security::attestation::AttestationResult;
use crate::security::crypto::{ed25519_key_valid, ed25519_public_spec, sha256_spec, KeyId, KeyPair, PublicKey, VerifyingKey};
use crate::security::error::SecurityError;
use crate::security::shamir::{indices_distinct, reconstruct_refusal, reconstruct_secret, reconstructible, reconstructed, share_on_polys, shares_encode, split_secret, lemma_shares_reconstruct_secret, Share};
use crate::text::{decimal, push_decimal};

verus! {

/// Wraps `zeroize::Zeroize::zeroize` for a byte vector: the bytes are
/// overwritten with zeros and the vector is left empty.
#[verifier::external_body]
fn zeroize_bytes(bytes: &mut Vec<u8>)
    ensures final(bytes)@.len() == 0,
{
    zeroize::Zeroize::zeroize(bytes);
}

/// Unique identifier of an enrollment ceremony.
#[derive(Clone, Copy, Debug, PartialEq, Eq, Structural, Hash)]
pub struct EnrollmentId(pub u128);

impl EnrollmentId {
    /// A fresh random enrollment identifier (nothing is stated of its value).
    pub fn new() -> (r: Self) {
        EnrollmentId(random_id())
    }
}

/// Result of a successful node enrollment.
#[derive(Clone, Debug)]
pub struct EnrollmentResult {
    /// The newly enrolled node's ID.
    pub node_id: NodeId,
    /// The node's public key.
    pub public_key: VerifyingKey,
    /// Key ID (SHA-256 of the public key).
    pub key_id: KeyId,
    /// The trust domain the node belongs to.
    pub trust_domain: TrustDomainId,
    /// The governance unit granting the node membership.
    pub membership_unit_id: UnitId,
    /// The attestation result, if one was given at initiation.
    pub attestation: Option<AttestationResult>,
}

/// State of an enrollment ceremony.
#[derive(Clone, Debug)]
pub enum EnrollmentState {
    /// Enrollment has been initiated; no share received yet.
    Initiated {
        /// The node being enrolled.
        node_id: NodeId,
        /// Total shares to collect.
        total_shares: u8,
        /// Threshold for completion.
        threshold: u8,
        /// Who authorized the enrollment.
        authorized_by: AuthorId,
    },
    /// Shares are being collected.
    Collecting {
        /// The node being enrolled.
        node_id: NodeId,
        /// Shares received so far (at most 255 is reported).
        shares_received: u8,
        /// Total expected.
        total_shares: u8,
        /// Threshold for completion.
        threshold: u8,
    },
    /// Enrollment completed successfully.
    Complete {
        /// The enrolled node.
        node_id: NodeId,
        /// The membership governance unit.
        membership_unit_id: UnitId,
    },
    /// Enrollment failed.
    Failed {
        /// The node that failed enrollment.
        node_id: NodeId,
        /// Why enrollment failed.
        reason: String,
    },
}

/// The record kept for one enrollment.
#[derive(Debug)]
pub struct EnrollmentData {
    /// The node being enrolled.
    pub node_id: NodeId,
    /// The trust domain.
    pub trust_domain: TrustDomainId,
    /// Who authorized the enrollment.
    pub authorized_by: AuthorId,
    /// Total shares expected.
    pub total_shares: u8,
    /// Threshold for reconstruction.
    pub threshold: u8,
    /// Shares contributed so far.
    pub shares: Vec<Share>,
    /// The node's public key.
    pub public_key: PublicKey,
    /// Attestation result, if one was given.
    pub attestation: Option<AttestationResult>,
    /// Whether the enrollment is complete.
    pub complete: bool,
    /// Whether the enrollment was cancelled.
    pub cancelled: bool,
    /// The membership unit created when the enrollment completed.
    pub membership_unit_id: Option<UnitId>,
}

// ---------------------------------------------------------------------------
// Model
// ---------------------------------------------------------------------------

/// Entry `i` is the record of enrollment `id`.
pub open spec fn recorded_at(s: Seq<(EnrollmentId, EnrollmentData)>, id: EnrollmentId, i: int) -> bool {
    0 <= i < s.len() && s[i].0 == id
}

/// Records have distinct identifiers.
pub open spec fn enrollment_ids_unique(s: Seq<(EnrollmentId, EnrollmentData)>) -> bool {
    forall|i: int, j: int| 0 <= i < j < s.len() ==> (#[trigger] s[i]).0 != (#[trigger] s[j]).0
}

/// The record of enrollment `id`, if any.
pub open spec fn record_of(s: Seq<(EnrollmentId, EnrollmentData)>, id: EnrollmentId) -> Option<EnrollmentData> {
    if exists|i: int| recorded_at(s, id, i) {
        Some(s[choose|i: int| recorded_at(s, id, i)].1)
    } else {
        None
    }
}

/// Every record has a threshold of at least two and shares with distinct
/// indices.
pub open spec fn records_valid(s: Seq<(EnrollmentId, EnrollmentData)>) -> bool {
    forall|i: int|
        0 <= i < s.len() ==> (#[trigger] s[i]).1.threshold >= 2 && indices_distinct(s[i].1.shares@)
}

/// Two records agree on everything but shares and flags.
pub open spec fn same_enrollment(a: EnrollmentData, b: EnrollmentData) -> bool {
    &&& a.node_id == b.node_id
    &&& a.trust_domain == b.trust_domain
    &&& a.authorized_by == b.authorized_by
    &&& a.total_shares == b.total_shares
    &&& a.threshold == b.threshold
    &&& a.public_key == b.public_key
    &&& a.attestation == b.attestation
}

/// `shares` are the `n = shares.len()` shares, indexed `1..=n`, of a
/// 32-byte seed whose public key is `public_key`, with threshold `k`.
pub open spec fn key_shares(public_key: PublicKey, shares: Seq<Share>, k: nat) -> bool {
    &&& forall|j: int| 0 <= j < shares.len() ==> (#[trigger] shares[j]).index == j + 1
    &&& ed25519_key_valid(public_key.0@)
    &&& exists|seed: Seq<u8>, polys: Seq<Seq<u8>>|
        seed.len() == 32 && public_key.0@ == ed25519_public_spec(seed) && #[trigger] shares_encode(
            shares,
            seed,
            k,
            polys,
        )
}

/// The reason given for an unknown enrollment.
pub open spec fn not_found_reason(id: EnrollmentId) -> Seq<char> {
    "enrollment EnrollmentId("@ + id_text(id.0) + ") not found"@
}

/// The reason given when too few shares were contributed.
pub open spec fn threshold_not_met_reason(threshold: nat, have: nat) -> Seq<char> {
    "threshold not met: need "@ + decimal(threshold) + ", have "@ + decimal(have)
}

/// The reason given for a share whose index was already contributed.
pub open spec fn duplicate_share_reason(index: u8) -> Seq<char> {
    "duplicate share index: "@ + decimal(index as nat)
}

/// `r` is a `CeremonyError` with the given reason.
pub open spec fn ceremony_error<T>(r: Result<T, SecurityError>, reason: Seq<char>) -> bool {
    r matches Err(SecurityError::CeremonyError { reason: got }) && got@ == reason
}

/// The number of received shares as reported (saturated at 255).
pub open spec fn reported_count(n: nat) -> u8 {
    if n > 255 { 255u8 } else { n as u8 }
}

/// The membership unit recorded for an enrollment (the nil identifier
/// while none was created).
pub open spec fn stored_membership(d: EnrollmentData) -> UnitId {
    match d.membership_unit_id {
        Some(u) => u,
        None => UnitId(0),
    }
}

/// The state reported for a record.
pub open spec fn reported_state(d: EnrollmentData, st: EnrollmentState) -> bool {
    if d.complete {
        st == EnrollmentState::Complete { node_id: d.node_id, membership_unit_id: stored_membership(d) }
    } else if d.cancelled {
        st matches EnrollmentState::Failed { node_id, reason } && node_id == d.node_id && reason@
            == "cancelled"@
    } else if d.shares@.len() == 0 {
        st == EnrollmentState::Initiated {
            node_id: d.node_id,
            total_shares: d.total_shares,
            threshold: d.threshold,
            authorized_by: d.authorized_by,
        }
    } else {
        st == EnrollmentState::Collecting {
            node_id: d.node_id,
            shares_received: reported_count(d.shares@.len()),
            total_shares: d.total_shares,
            threshold: d.threshold,
        }
    }
}

proof fn lemma_record_at(s: Seq<(EnrollmentId, EnrollmentData)>, i: int)
    requires
        0 <= i < s.len(),
        enrollment_ids_unique(s),
    ensures
        record_of(s, s[i].0) == Some(s[i].1),
{
    assert(recorded_at(s, s[i].0, i));
    let c = choose|c: int| recorded_at(s, s[i].0, c);
    if c != i {
        if c < i {
            assert(s[c].0 != s[i].0);
        } else {
            assert(s[i].0 != s[c].0);
        }
    }
}

proof fn lemma_record_update(
    before: Seq<(EnrollmentId, EnrollmentData)>,
    after: Seq<(EnrollmentId, EnrollmentData)>,
    i: int,
)
    requires
        0 <= i < before.len(),
        enrollment_ids_unique(before),
        after.len() == before.len(),
        after[i].0 == before[i].0,
        forall|j: int| 0 <= j < before.len() && j != i ==> after[j] == before[j],
    ensures
        enrollment_ids_unique(after),
        record_of(after, before[i].0) == Some(after[i].1),
        forall|id: EnrollmentId| id != before[i].0 ==> record_of(after, id) == record_of(before, id),
{
    assert forall|a: int, b: int| 0 <= a < b < after.len() implies (#[trigger] after[a]).0 != (#[trigger] after[b]).0 by {
        assert(before[a].0 != before[b].0);
        if a != i {
            assert(after[a] == before[a]);
        }
        if b != i {
            assert(after[b] == before[b]);
        }
    }
    lemma_record_at(after, i);
    assert forall|id: EnrollmentId| id != before[i].0 implies record_of(after, id) == record_of(before, id) by {
        if exists|j: int| recorded_at(before, id, j) {
            let j = choose|j: int| recorded_at(before, id, j);
            assert(after[j] == before[j]);
            lemma_record_at(before, j);
            lemma_record_at(after, j);
        }
        if exists|j: int| recorded_at(after, id, j) {
            let j = choose|j: int| recorded_at(after, id, j);
            assert(after[j] == before[j]);
            assert(recorded_at(before, id, j));
        }
    }
}

proof fn lemma_record_push(before: Seq<(EnrollmentId, EnrollmentData)>, after: Seq<(EnrollmentId, EnrollmentData)>)
    requires
        after.len() == before.len() + 1,
        enrollment_ids_unique(before),
        forall|j: int| 0 <= j < before.len() ==> after[j] == before[j],
        forall|j: int| !recorded_at(before, after[before.len() as int].0, j),
    ensures
        enrollment_ids_unique(after),
        record_of(after, after[before.len() as int].0) == Some(after[before.len() as int].1),
        forall|id: EnrollmentId| id != after[before.len() as int].0 ==> record_of(after, id) == record_of(before, id),
{
    let n = before.len() as int;
    let key = after[n].0;
    assert forall|a: int, b: int| 0 <= a < b < after.len() implies (#[trigger] after[a]).0 != (#[trigger] after[b]).0 by {
        assert(after[a] == before[a]);
        if b < n {
            assert(after[b] == before[b]);
        } else {
            assert(!recorded_at(before, key, a));
        }
    }
    lemma_record_at(after, n);
    assert forall|id: EnrollmentId| id != key implies record_of(after, id) == record_of(before, id) by {
        if exists|j: int| recorded_at(before, id, j) {
            let j = choose|j: int| recorded_at(before, id, j);
            assert(after[j] == before[j]);
            lemma_record_at(before, j);
            lemma_record_at(after, j);
        }
        if exists|j: int| recorded_at(after, id, j) {
            let j = choose|j: int| recorded_at(after, id, j);
            assert(j != n);
            assert(after[j] == before[j]);
            assert(recorded_at(before, id, j));
        }
    }
}

fn ceremony_err(reason: &str) -> (e: SecurityError)
    ensures e matches SecurityError::CeremonyError { reason: got } && got@ == reason@,
{
    SecurityError::CeremonyError { reason: reason.to_string() }
}

fn not_found(id: &EnrollmentId) -> (e: SecurityError)
    ensures e matches SecurityError::CeremonyError { reason } && reason@ == not_found_reason(*id),
{
    let mut reason = String::new();
    proof {
        reveal_strlit("enrollment EnrollmentId(");
        reveal_strlit(") not found");
    }
    reason.append("enrollment EnrollmentId(");
    let idt = id_to_text(id.0);
    reason.append(idt.as_str());
    reason.append(") not found");
    assert(reason@ =~= not_found_reason(*id));
    SecurityError::CeremonyError { reason }
}

fn count_u8(n: usize) -> (r: u8)
    ensures r == reported_count(n as nat),
{
    if n > 255 {
        255
    } else {
        n as u8
    }
}

// ---------------------------------------------------------------------------
// DefaultEnrollmentCeremony
// ---------------------------------------------------------------------------

/// Runs node enrollments; each is a record keyed by its identifier.
pub struct DefaultEnrollmentCeremony {
    enrollments: Vec<(EnrollmentId, EnrollmentData)>,
}

impl DefaultEnrollmentCeremony {
    #[verifier::type_invariant]
    spec fn valid(self) -> bool {
        enrollment_ids_unique(self.enrollments@) && records_valid(self.enrollments@)
    }

    /// The record of an enrollment, if it exists.
    pub closed spec fn record(&self, id: EnrollmentId) -> Option<EnrollmentData> {
        record_of(self.enrollments@, id)
    }

    /// Creates a manager with no enrollments.
    pub fn new() -> (r: Self)
        ensures forall|id: EnrollmentId| r.record(id) is None,
    {
        DefaultEnrollmentCeremony { enrollments: Vec::new() }
    }

    fn find(&self, id: &EnrollmentId) -> (r: Option<usize>)
        ensures
            match r {
                Some(i) => recorded_at(self.enrollments@, *id, i as int) && self.record(*id) == Some(
                    self.enrollments@[i as int].1,
                ),
                None => forall|i: int| !recorded_at(self.enrollments@, *id, i),
            },
            r is None <==> self.record(*id) is None,
    {
        proof {
            use_type_invariant(self);
        }
        let mut i: usize = 0;
        while i < self.enrollments.len()
            invariant
                i <= self.enrollments@.len(),
                enrollment_ids_unique(self.enrollments@),
                forall|j: int| 0 <= j < i ==> (#[trigger] self.enrollments@[j]).0 != *id,
            decreases self.enrollments@.len() - i,
        {
            if self.enrollments[i].0 == *id {
                proof {
                    lemma_record_at(self.enrollments@, i as int);
                }
                return Some(i);
            }
            i = i + 1;
        }
        None
    }

    /// Stores a new record (replacing one with the same identifier).
    fn store(&mut self, id: EnrollmentId, data: EnrollmentData)
        requires
            data.threshold >= 2,
            indices_distinct(data.shares@),
        ensures
            final(self).record(id) == Some(data),
            forall|x: EnrollmentId| x != id ==> final(self).record(x) == old(self).record(x),
    {
        proof {
            use_type_invariant(&*self);
        }
        let ghost before = self.enrollments@;
        let found = self.find(&id);
        let mut v: Vec<(EnrollmentId, EnrollmentData)> = Vec::new();
        std::mem::swap(&mut v, &mut self.enrollments);
        match found {
            Some(i) => {
                v.remove(i);
                v.insert(i, (id, data));
                proof {
                    assert(v@ =~= before.update(i as int, v@[i as int]));
                    lemma_record_update(before, v@, i as int);
                }
            },
            None => {
                v.push((id, data));
                proof {
                    lemma_record_push(before, v@);
                }
            },
        }
        proof {
            assert forall|i: int| 0 <= i < v@.len() implies (#[trigger] v@[i]).1.threshold >= 2 && indices_distinct(v@[i].1.shares@) by {
                if v@[i].0 != id {
                    assert(v@[i] == before[i]);
                }
            }
        }
        self.enrollments = v;
    }

    /// Takes the record at `i` out (leaving the others in place) so it can be
    /// modified and put back with `put_back`.
    fn take_at(&mut self, i: usize) -> (r: (EnrollmentId, EnrollmentData, Vec<(EnrollmentId, EnrollmentData)>))
        requires i < old(self).enrollments@.len(),
        ensures
            r.0 == old(self).enrollments@[i as int].0,
            r.1 == old(self).enrollments@[i as int].1,
            r.2@ == old(self).enrollments@.remove(i as int),
            enrollment_ids_unique(old(self).enrollments@),
            records_valid(old(self).enrollments@),
            final(self).enrollments@.len() == 0,
    {
        proof {
            use_type_invariant(&*self);
        }
        let mut v: Vec<(EnrollmentId, EnrollmentData)> = Vec::new();
        std::mem::swap(&mut v, &mut self.enrollments);
        let (id, data) = v.remove(i);
        (id, data, v)
    }

    /// Initiates enrollment of a node: generates its key pair, splits the
    /// secret seed into `total_shares` shares with threshold `threshold`,
    /// and records the enrollment under a fresh identifier. Returns the
    /// identifier and the shares for the caller to distribute. Refused
    /// when the threshold is below two or above the number of shares.
    pub fn initiate(
        &mut self,
        node_id: &NodeId,
        trust_domain: &TrustDomainId,
        authorized_by: &AuthorId,
        total_shares: u8,
        threshold: u8,
        attestation: Option<&AttestationResult>,
    ) -> (r: Result<(EnrollmentId, Vec<Share>), SecurityError>)
        ensures
            threshold < 2 ==> ceremony_error(r, "enrollment threshold must be at least 2"@),
            2 <= threshold && threshold > total_shares ==> ceremony_error(
                r,
                "enrollment threshold cannot exceed total_shares"@,
            ),
            r is Err ==> forall|x: EnrollmentId| final(self).record(x) == old(self).record(x),
            2 <= threshold <= total_shares ==> r is Ok,
            r matches Ok((id, shares)) ==> {
                &&& shares@.len() == total_shares
                &&& final(self).record(id) matches Some(d) && {
                    &&& d.node_id == *node_id
                    &&& d.trust_domain == *trust_domain
                    &&& d.authorized_by == *authorized_by
                    &&& d.total_shares == total_shares
                    &&& d.threshold == threshold
                    &&& d.shares@.len() == 0
                    &&& !d.complete
                    &&& !d.cancelled
                    &&& match (d.attestation, attestation) {
                        (Some(a), Some(b)) => a.same_as(*b),
                        (None, None) => true,
                        _ => false,
                    }
                    &&& key_shares(d.public_key, shares@, threshold as nat)
                }
                &&& forall|x: EnrollmentId| x != id ==> final(self).record(x) == old(self).record(x)
            },
    {
        proof {
            reveal_strlit("enrollment threshold must be at least 2");
            reveal_strlit("enrollment threshold cannot exceed total_shares");
        }
        if threshold < 2 {
            return Err(ceremony_err("enrollment threshold must be at least 2"));
        }
        if threshold > total_shares {
            return Err(ceremony_err("enrollment threshold cannot exceed total_shares"));
        }
        let key_pair = KeyPair::generate();
        let public_key = *key_pair.public_key();
        proof {
            key_pair.lemma_consistent();
        }
        let seed = key_pair.signing_key().to_bytes();
        let shares = match split_secret(&seed, threshold, total_shares) {
            Ok(s) => s,
            Err(e) => {
                return Err(e);
            },
        };
        let enrollment_id = EnrollmentId::new();
        let att = match attestation {
            Some(a) => Some(a.copy()),
            None => None,
        };
        let data = EnrollmentData {
            node_id: *node_id,
            trust_domain: *trust_domain,
            authorized_by: *authorized_by,
            total_shares,
            threshold,
            shares: Vec::new(),
            public_key,
            attestation: att,
            complete: false,
            cancelled: false,
            membership_unit_id: None,
        };
        proof {
            assert(indices_distinct(data.shares@));
            let polys = choose|polys: Seq<Seq<u8>>| shares_encode(shares@, seed@, threshold as nat, polys);
            assert(shares_encode(shares@, seed@, threshold as nat, polys));
        }
        self.store(enrollment_id, data);
        Ok((enrollment_id, shares))
    }

    /// Contributes a share to an enrollment. Refused for an unknown,
    /// completed or cancelled enrollment and for a share whose index was
    /// already contributed; otherwise the share is kept and the collecting
    /// state is returned.
    pub fn contribute(&mut self, enrollment: &EnrollmentId, share: Share) -> (r: Result<EnrollmentState, SecurityError>)
        ensures
            match old(self).record(*enrollment) {
                None => ceremony_error(r, not_found_reason(*enrollment)),
                Some(d) => if d.complete {
                    ceremony_error(r, "enrollment already complete"@)
                } else if d.cancelled {
                    ceremony_error(r, "enrollment was cancelled"@)
                } else if exists|j: int| 0 <= j < d.shares@.len() && #[trigger] d.shares@[j].index == share.index {
                    ceremony_error(r, duplicate_share_reason(share.index))
                } else {
                    &&& r == Ok::<EnrollmentState, SecurityError>(
                        EnrollmentState::Collecting {
                            node_id: d.node_id,
                            shares_received: reported_count(d.shares@.len() + 1),
                            total_shares: d.total_shares,
                            threshold: d.threshold,
                        },
                    )
                    &&& final(self).record(*enrollment) matches Some(nd) && same_enrollment(nd, d)
                        && nd.shares@ == d.shares@.push(share) && !nd.complete && !nd.cancelled
                        && indices_distinct(nd.shares@)
                },
            },
            r is Err ==> forall|x: EnrollmentId| final(self).record(x) == old(self).record(x),
            forall|x: EnrollmentId| x != *enrollment ==> final(self).record(x) == old(self).record(x),
    {
        proof {
            reveal_strlit("enrollment already complete");
            reveal_strlit("enrollment was cancelled");
            reveal_strlit("duplicate share index: ");
        }
        let i = match self.find(enrollment) {
            Some(i) => i,
            None => {
                return Err(not_found(enrollment));
            },
        };
        let ghost before = self.enrollments@;
        if self.enrollments[i].1.complete {
            return Err(ceremony_err("enrollment already complete"));
        }
        if self.enrollments[i].1.cancelled {
            return Err(ceremony_err("enrollment was cancelled"));
        }
        let mut k: usize = 0;
        while k < self.enrollments[i].1.shares.len()
            invariant
                i < self.enrollments@.len(),
                self.enrollments@ == before,
                before == old(self).enrollments@,
                old(self).record(*enrollment) == Some(before[i as int].1),
                !before[i as int].1.complete,
                !before[i as int].1.cancelled,
                k <= self.enrollments@[i as int].1.shares@.len(),
                forall|j: int| 0 <= j < k ==> (#[trigger] self.enrollments@[i as int].1.shares@[j]).index != share.index,
            decreases self.enrollments@[i as int].1.shares@.len() - k,
        {
            if self.enrollments[i].1.shares[k].index == share.index {
                let mut reason = String::new();
                reason.append("duplicate share index: ");
                push_decimal(&mut reason, share.index as u64);
                assert(reason@ =~= duplicate_share_reason(share.index));
                return Err(SecurityError::CeremonyError { reason });
            }
            k = k + 1;
        }
        let (id, mut data, mut rest) = self.take_at(i);
        data.shares.push(share);
        let state = EnrollmentState::Collecting {
            node_id: data.node_id,
            shares_received: count_u8(data.shares.len()),
            total_shares: data.total_shares,
            threshold: data.threshold,
        };
        proof {
            let ds = data.shares@;
            assert forall|a: int, b: int|
                0 <= a < ds.len() && 0 <= b < ds.len() && a != b implies #[trigger] ds[a].index != #[trigger] ds[b].index by {
                assert(indices_distinct(before[i as int].1.shares@));
                let n = before[i as int].1.shares@.len() as int;
                if a < n && b < n {
                    assert(ds[a] == before[i as int].1.shares@[a]);
                    assert(ds[b] == before[i as int].1.shares@[b]);
                } else if a < n {
                    assert(ds[a] == before[i as int].1.shares@[a]);
                } else {
                    assert(ds[b] == before[i as int].1.shares@[b]);
                }
            }
        }
        rest.insert(i, (id, data));
        proof {
            assert(rest@ =~= before.update(i as int, rest@[i as int]));
            lemma_record_update(before, rest@, i as int);
            assert forall|j: int| 0 <= j < rest@.len() implies (#[trigger] rest@[j]).1.threshold >= 2 && indices_distinct(rest@[j].1.shares@) by {
                if j != i {
                    assert(rest@[j] == before[j]);
                }
            }
        }
        self.enrollments = rest;
        Ok(state)
    }

    /// Completes an enrollment once at least `threshold` shares were
    /// contributed: the seed is reconstructed from the first `threshold`
    /// shares and then erased, the enrollment is marked complete, and the
    /// node's public key, key identifier and a fresh membership unit
    /// identifier are returned. Refused for an unknown, completed or
    /// cancelled enrollment, with too few shares, or when the shares do not
    /// reconstruct.
    pub fn complete(&mut self, enrollment: &EnrollmentId) -> (r: Result<EnrollmentResult, SecurityError>)
        ensures
            match old(self).record(*enrollment) {
                None => ceremony_error(r, not_found_reason(*enrollment)),
                Some(d) => if d.complete {
                    ceremony_error(r, "enrollment already complete"@)
                } else if d.cancelled {
                    ceremony_error(r, "enrollment was cancelled"@)
                } else if d.shares@.len() < d.threshold {
                    ceremony_error(r, threshold_not_met_reason(d.threshold as nat, d.shares@.len()))
                } else if !reconstructible(d.shares@.subrange(0, d.threshold as int)) {
                    ceremony_error(r, reconstruct_refusal(d.shares@.subrange(0, d.threshold as int)))
                } else if !ed25519_key_valid(d.public_key.0@) {
                    r matches Err(SecurityError::KeyError { reason }) && reason@
                        == "enrollment public key is not a canonical Ed25519 encoding"@
                } else {
                    &&& r matches Ok(res) && {
                        &&& res.node_id == d.node_id
                        &&& res.public_key@ == d.public_key.0@
                        &&& res.key_id.0@ == sha256_spec(d.public_key.0@)
                        &&& res.trust_domain == d.trust_domain
                        &&& match (res.attestation, d.attestation) {
                            (Some(a), Some(b)) => a.same_as(b),
                            (None, None) => true,
                            _ => false,
                        }
                    }
                    &&& final(self).record(*enrollment) matches Some(nd) && same_enrollment(nd, d)
                        && nd.shares@ == d.shares@ && nd.complete && !nd.cancelled
                        && (r matches Ok(res) && nd.membership_unit_id == Some(res.membership_unit_id))
                },
            },
            r is Err ==> forall|x: EnrollmentId| final(self).record(x) == old(self).record(x),
            forall|x: EnrollmentId| x != *enrollment ==> final(self).record(x) == old(self).record(x),
    {
        proof {
            reveal_strlit("enrollment already complete");
            reveal_strlit("enrollment was cancelled");
            reveal_strlit("threshold not met: need ");
            reveal_strlit(", have ");
            reveal_strlit("enrollment public key is not a canonical Ed25519 encoding");
        }
        let i = match self.find(enrollment) {
            Some(i) => i,
            None => {
                return Err(not_found(enrollment));
            },
        };
        let ghost before = self.enrollments@;
        if self.enrollments[i].1.complete {
            return Err(ceremony_err("enrollment already complete"));
        }
        if self.enrollments[i].1.cancelled {
            return Err(ceremony_err("enrollment was cancelled"));
        }
        let threshold = self.enrollments[i].1.threshold as usize;
        let have = self.enrollments[i].1.shares.len();
        if have < threshold {
            let mut reason = String::new();
            reason.append("threshold not met: need ");
            push_decimal(&mut reason, threshold as u64);
            reason.append(", have ");
            push_decimal(&mut reason, have as u64);
            assert(reason@ =~= threshold_not_met_reason(threshold as nat, have as nat));
            return Err(SecurityError::CeremonyError { reason });
        }
        let mut key_bytes = match reconstruct_secret(
            slice_prefix(&self.enrollments[i].1.shares, threshold),
        ) {
            Ok(k) => k,
            Err(e) => {
                return Err(e);
            },
        };
        let public_key = self.enrollments[i].1.public_key;
        let verifying_key = match public_key.to_verifying_key() {
            Some(vk) => vk,
            None => {
                zeroize_bytes(&mut key_bytes);
                return Err(SecurityError::KeyError {
                    reason: "enrollment public key is not a canonical Ed25519 encoding".to_string(),
                });
            },
        };
        let key_id = KeyId::from_public_key(&public_key);
        let membership_unit_id = UnitId(random_id());
        let (id, mut data, mut rest) = self.take_at(i);
        data.complete = true;
        data.membership_unit_id = Some(membership_unit_id);
        zeroize_bytes(&mut key_bytes);
        let attestation = match &data.attestation {
            Some(a) => Some(a.copy()),
            None => None,
        };
        let result = EnrollmentResult {
            node_id: data.node_id,
            public_key: verifying_key,
            key_id,
            trust_domain: data.trust_domain,
            membership_unit_id,
            attestation,
        };
        rest.insert(i, (id, data));
        proof {
            assert(rest@ =~= before.update(i as int, rest@[i as int]));
            lemma_record_update(before, rest@, i as int);
            assert forall|j: int| 0 <= j < rest@.len() implies (#[trigger] rest@[j]).1.threshold >= 2 && indices_distinct(rest@[j].1.shares@) by {
                if j != i {
                    assert(rest@[j] == before[j]);
                }
            }
        }
        self.enrollments = rest;
        Ok(result)
    }

    /// Cancels an enrollment: its shares are erased and it is marked
    /// cancelled. Refused for an unknown or completed enrollment.
    pub fn cancel(&mut self, enrollment: &EnrollmentId) -> (r: Result<(), SecurityError>)
        ensures
            match old(self).record(*enrollment) {
                None => ceremony_error(r, not_found_reason(*enrollment)),
                Some(d) => if d.complete {
                    ceremony_error(r, "cannot cancel completed enrollment"@)
                } else {
                    &&& r is Ok
                    &&& final(self).record(*enrollment) matches Some(nd) && same_enrollment(nd, d)
                        && nd.shares@.len() == 0 && nd.cancelled && !nd.complete
                },
            },
            r is Err ==> forall|x: EnrollmentId| final(self).record(x) == old(self).record(x),
            forall|x: EnrollmentId| x != *enrollment ==> final(self).record(x) == old(self).record(x),
    {
        proof {
            reveal_strlit("cannot cancel completed enrollment");
        }
        let i = match self.find(enrollment) {
            Some(i) => i,
            None => {
                return Err(not_found(enrollment));
            },
        };
        let ghost before = self.enrollments@;
        if self.enrollments[i].1.complete {
            return Err(ceremony_err("cannot cancel completed enrollment"));
        }
        let (id, mut data, mut rest) = self.take_at(i);
        data.cancelled = true;
        erase_shares(&mut data.shares);
        rest.insert(i, (id, data));
        proof {
            assert(indices_distinct(rest@[i as int].1.shares@));
            assert(rest@ =~= before.update(i as int, rest@[i as int]));
            lemma_record_update(before, rest@, i as int);
            assert forall|j: int| 0 <= j < rest@.len() implies (#[trigger] rest@[j]).1.threshold >= 2 && indices_distinct(rest@[j].1.shares@) by {
                if j != i {
                    assert(rest@[j] == before[j]);
                }
            }
        }
        self.enrollments = rest;
        Ok(())
    }

    /// Reports the state of an enrollment: complete (with the membership
    /// unit created on completion), failed when cancelled, initiated while no share
    /// was contributed, collecting otherwise.
    pub fn state(&self, enrollment: &EnrollmentId) -> (r: Result<EnrollmentState, SecurityError>)
        ensures
            match self.record(*enrollment) {
                None => ceremony_error(r, not_found_reason(*enrollment)),
                Some(d) => r matches Ok(st) && reported_state(d, st),
            },
    {
        proof {
            reveal_strlit("cancelled");
        }
        let i = match self.find(enrollment) {
            Some(i) => i,
            None => {
                return Err(not_found(enrollment));
            },
        };
        let data = &self.enrollments[i].1;
        if data.complete {
            let membership_unit_id = match data.membership_unit_id {
                Some(u) => u,
                None => UnitId(0),
            };
            Ok(EnrollmentState::Complete { node_id: data.node_id, membership_unit_id })
        } else if data.cancelled {
            Ok(EnrollmentState::Failed { node_id: data.node_id, reason: "cancelled".to_string() })
        } else if data.shares.len() == 0 {
            Ok(EnrollmentState::Initiated {
                node_id: data.node_id,
                total_shares: data.total_shares,
                threshold: data.threshold,
                authorized_by: data.authorized_by,
            })
        } else {
            Ok(EnrollmentState::Collecting {
                node_id: data.node_id,
                shares_received: count_u8(data.shares.len()),
                total_shares: data.total_shares,
                threshold: data.threshold,
            })
        }
    }
}

/// Completion recovers the node's key from dealt shares: when an
/// enrollment holds at least `threshold` (at least two) contributed shares
/// with distinct indices, each one of the shares dealt at initiation, the
/// first `threshold` of them are accepted by reconstruction and give back
/// the seed whose public key is the enrollment's.
pub proof fn lemma_dealt_shares_reconstruct_key(d: EnrollmentData, dealt: Seq<Share>)
    requires
        key_shares(d.public_key, dealt, d.threshold as nat),
        2 <= d.threshold <= d.shares@.len(),
        indices_distinct(d.shares@),
        forall|j: int| 0 <= j < d.shares@.len() ==> dealt.contains(#[trigger] d.shares@[j]),
    ensures
        reconstructible(d.shares@.subrange(0, d.threshold as int)),
        exists|seed: Seq<u8>|
            seed.len() == 32 && d.public_key.0@ == ed25519_public_spec(seed) && reconstructed(
                d.shares@.subrange(0, d.threshold as int),
            ) == seed,
{
    let k = d.threshold as nat;
    let (seed, polys) = choose|seed: Seq<u8>, polys: Seq<Seq<u8>>|
        seed.len() == 32 && d.public_key.0@ == ed25519_public_spec(seed) && #[trigger] shares_encode(
            dealt,
            seed,
            k,
            polys,
        );
    let sub = d.shares@.subrange(0, d.threshold as int);
    assert forall|j: int| 0 <= j < sub.len() implies share_on_polys(#[trigger] sub[j], polys) by {
        assert(sub[j] == d.shares@[j]);
        assert(dealt.contains(d.shares@[j]));
        let i = choose|i: int| 0 <= i < dealt.len() && dealt[i] == d.shares@[j];
        assert(share_on_polys(dealt[i], polys));
    }
    assert forall|a: int, b: int| 0 <= a < sub.len() && 0 <= b < sub.len() && a != b implies #[trigger] sub[a].index
        != #[trigger] sub[b].index by {
        assert(sub[a] == d.shares@[a]);
        assert(sub[b] == d.shares@[b]);
    }
    assert(shares_encode(sub, seed, k, polys));
    lemma_shares_reconstruct_secret(sub, seed, k, polys);
}

/// Overwrites the bytes of every share with zeros, then empties the list.
fn erase_shares(shares: &mut Vec<Share>)
    ensures final(shares)@.len() == 0,
{
    let mut k: usize = 0;
    while k < shares.len()
        invariant
            k <= shares@.len(),
        decreases shares@.len() - k,
    {
        let mut s = shares.remove(k);
        zeroize_bytes(&mut s.value);
        shares.insert(k, s);
        k = k + 1;
    }
    shares.clear();
}

/// The first `n` elements of a vector, as a slice.
fn slice_prefix(v: &Vec<Share>, n: usize) -> (r: &[Share])
    requires n <= v@.len(),
    ensures r@ == v@.subrange(0, n as int),
{
    vstd::slice::slice_subrange(v.as_slice(), 0, n)
}

} // verus!
