//! Key ceremony, solo bootstrap and trust governance records.
//!
//! Only the single-node bootstrap is implemented: it generates an Ed25519
//! key pair and fresh identifiers for the trust domain, root governance
//! unit and role assignment. The Shamir ceremony manager answers every
//! request with a `CeremonyError`.

use vstd::prelude::*;
use crate::common::{AuthorId, CeremonyId, DualClockEvent, NodeId, TrustDomainId, UnitId, Version, WallTime, random_id};
use crate::security::crypto::{
    ed25519_key_valid, ed25519_public_spec, sha256_spec, KeyId, KeyPair, PublicKey, VerifyingKey,
};
use crate::security::error::SecurityError;

verus! {

/// An authenticated identity with scoped authority to create units.
#[derive(Clone, Debug)]
pub struct Author {
    /// Unique identifier for this author.
    pub id: AuthorId,
    /// The author's Ed25519 public key.
    pub public_key: PublicKey,
    /// Human-readable display name.
    pub display_name: String,
    /// When this author identity was created.
    pub created_at: DualClockEvent,
    /// Whether this author's key has been revoked.
    pub revoked: bool,
    /// If revoked, the revocation details.
    pub revocation: Option<KeyRevocation>,
}

/// A trust domain: an authorization boundary scoping author permissions.
#[derive(Clone, Debug)]
pub struct TrustDomain {
    /// The unique identifier for this trust domain.
    pub id: TrustDomainId,
    /// Human-readable name.
    pub name: String,
    /// The governance unit that defines this domain.
    pub governance_unit_id: UnitId,
    /// Authors who co-signed the domain creation.
    pub founding_signers: Vec<AuthorId>,
    /// When this domain was established.
    pub established_at: DualClockEvent,
    /// When this domain expires; `None` means never.
    pub expires_at: Option<WallTime>,
    /// Whether cross-domain role inheritance is enabled.
    pub allows_cross_domain_roles: bool,
}

/// Revocation record for a compromised or retired key.
#[derive(Clone, Debug)]
pub struct KeyRevocation {
    /// The author whose key is revoked.
    pub author_id: AuthorId,
    /// The revoked public key.
    pub revoked_key: PublicKey,
    /// When the key was revoked.
    pub revoked_at: DualClockEvent,
    /// Reason for revocation.
    pub reason: RevocationReason,
    /// Who authorized the revocation.
    pub authorized_by: AuthorId,
    /// Version for ordering multiple revocations of the same author.
    pub version: Version,
}

/// Reason a key was revoked.
#[derive(Clone, Debug, PartialEq, Eq)]
pub enum RevocationReason {
    /// Key material was compromised.
    Compromised,
    /// Author has left the organization.
    Departed,
    /// Key rotation: replaced by a new key.
    Rotated {
        /// The new public key replacing this one.
        replacement: PublicKey,
    },
    /// Administrative revocation.
    Administrative {
        /// Details of the administrative action.
        details: String,
    },
}

/// A share of the Shamir-split root key.
#[derive(Clone, Debug)]
pub struct ShamirShare {
    /// Index of this share (1-based).
    pub index: u8,
    /// The share data.
    pub data: Vec<u8>,
    /// The ceremony this share belongs to.
    pub ceremony_id: CeremonyId,
    /// Whether this share is password-protected.
    pub encrypted: bool,
}

/// State machine of the Shamir key ceremony.
#[derive(Clone, Debug)]
pub enum CeremonyState {
    /// Ceremony has been initiated.
    Created {
        /// Unique identifier for this ceremony.
        ceremony_id: CeremonyId,
        /// Total number of shares to generate.
        total_shares: u8,
        /// Minimum shares required for reconstruction.
        threshold: u8,
        /// Who initiated the ceremony.
        initiator: AuthorId,
        /// When the ceremony was started.
        started_at: DualClockEvent,
    },
    /// Shares are being collected from participants.
    CollectingShares {
        /// Unique identifier for this ceremony.
        ceremony_id: CeremonyId,
        /// Shares received so far.
        shares_received: u8,
        /// Total expected.
        total_shares: u8,
        /// Threshold for completion.
        threshold: u8,
    },
    /// Ceremony completed successfully.
    Complete {
        /// Unique identifier for this ceremony.
        ceremony_id: CeremonyId,
        /// When the ceremony completed.
        completed_at: DualClockEvent,
        /// Witnesses who observed the ceremony.
        witnesses: Vec<NodeId>,
        /// The governance unit created by the ceremony.
        root_governance_unit: UnitId,
    },
    /// Ceremony failed and must be restarted.
    Failed {
        /// Unique identifier for this ceremony.
        ceremony_id: CeremonyId,
        /// Why the ceremony failed.
        reason: String,
        /// When the failure occurred.
        failed_at: DualClockEvent,
    },
}

/// The answer of the ceremony manager to every request.
pub open spec fn not_implemented_reason() -> Seq<char> {
    "Not implemented until M6 (Hardened)."@
}

/// `r` is the ceremony manager's refusal.
pub open spec fn is_not_implemented<T>(r: Result<T, SecurityError>) -> bool {
    r matches Err(SecurityError::CeremonyError { reason }) && reason@ == not_implemented_reason()
}

fn not_implemented() -> (e: SecurityError)
    ensures e matches SecurityError::CeremonyError { reason } && reason@ == not_implemented_reason(),
{
    proof {
        reveal_strlit("Not implemented until M6 (Hardened).");
    }
    SecurityError::CeremonyError { reason: "Not implemented until M6 (Hardened).".to_string() }
}

/// Shamir ceremony manager; not implemented: every method refuses with a
/// `CeremonyError`. Use [`DefaultSoloBootstrap`] for a single node.
#[derive(Clone, Copy, Debug, Default)]
pub struct DefaultCeremonyManager;

impl DefaultCeremonyManager {
    /// Would start a ceremony; refuses.
    pub fn start(&self, total_shares: u8, threshold: u8) -> (r: Result<CeremonyId, SecurityError>)
        ensures is_not_implemented(r),
    {
        Err(not_implemented())
    }

    /// Would add a share to a ceremony; refuses.
    pub fn add_share(&self, ceremony: &CeremonyId, share: ShamirShare) -> (r: Result<CeremonyState, SecurityError>)
        ensures is_not_implemented(r),
    {
        Err(not_implemented())
    }

    /// Would complete a ceremony; refuses.
    pub fn complete(&self, ceremony: &CeremonyId, witness_node: &KeyId) -> (r: Result<VerifyingKey, SecurityError>)
        ensures is_not_implemented(r),
    {
        Err(not_implemented())
    }

    /// Would cancel a ceremony; refuses.
    pub fn cancel(&self, ceremony: &CeremonyId) -> (r: Result<(), SecurityError>)
        ensures is_not_implemented(r),
    {
        Err(not_implemented())
    }

    /// Would report a ceremony's state; refuses.
    pub fn state(&self, ceremony: &CeremonyId) -> (r: Result<CeremonyState, SecurityError>)
        ensures is_not_implemented(r),
    {
        Err(not_implemented())
    }
}

/// Result of a solo bootstrap.
#[derive(Clone, Copy, Debug)]
pub struct SoloBootstrapResult {
    /// SHA-256 hash of the public key.
    pub key_id: KeyId,
    /// The Ed25519 verifying key.
    pub public_key: VerifyingKey,
    /// The trust domain created by the bootstrap.
    pub trust_domain: TrustDomainId,
    /// The root governance unit created by the bootstrap.
    pub governance_unit_id: UnitId,
    /// The role assignment granting the developer authority.
    pub role_assignment_id: UnitId,
}

/// Single-node bootstrap: a fresh key pair and a self-signed trust domain.
#[derive(Clone, Copy, Debug, Default)]
pub struct DefaultSoloBootstrap;

impl DefaultSoloBootstrap {
    /// Creates a new solo bootstrap instance.
    pub fn new() -> (r: Self)
        ensures r == DefaultSoloBootstrap,
    {
        DefaultSoloBootstrap
    }

    /// Generates an Ed25519 key pair and fresh identifiers for the trust
    /// domain, root governance unit and role assignment. The key of a
    /// generated pair always decodes, so this succeeds; the key identifier
    /// is the SHA-256 of the public key.
    pub fn solo_init(&self) -> (r: Result<SoloBootstrapResult, SecurityError>)
        ensures
            r matches Ok(res) && res.key_id.0@ == sha256_spec(res.public_key@) && ed25519_key_valid(
                res.public_key@,
            ) && exists|seed: Seq<u8>| seed.len() == 32 && res.public_key@ == ed25519_public_spec(seed),
    {
        let key_pair = KeyPair::generate();
        let public_key = *key_pair.public_key();
        proof {
            key_pair.lemma_consistent();
        }
        let key_id = KeyId::from_public_key(&public_key);
        match public_key.to_verifying_key() {
            Some(verifying_key) => {
                let trust_domain = TrustDomainId(random_id());
                let governance_unit_id = UnitId(random_id());
                let role_assignment_id = UnitId(random_id());
                Ok(SoloBootstrapResult {
                    key_id,
                    public_key: verifying_key,
                    trust_domain,
                    governance_unit_id,
                    role_assignment_id,
                })
            },
            None => {
                proof {
                    reveal_strlit("generated public key is not a canonical Ed25519 encoding");
                }
                Err(SecurityError::KeyError {
                    reason: "generated public key is not a canonical Ed25519 encoding".to_string(),
                })
            },
        }
    }
}

} // verus!
