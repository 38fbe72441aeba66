//! Security error type: every cryptographic, authorization and ceremony
//! failure.

use vstd::prelude::*;
use crate::common::{id_text, id_to_text, AuthorId, UnitId, ValidityWindow};
use crate::security::crypto::KeyId;
use crate::solver::error::{push_unit_debug, unit_debug};
use crate::text::{decimal, joined, push_decimal};

verus! {

/// Errors produced by the security operations. Security errors fail
/// closed: when in doubt, the operation is denied.
#[derive(Debug)]
pub enum SecurityError {
    /// Cryptographic signature is invalid.
    InvalidSignature { reason: String },
    /// Author's key was revoked at the given logical clock.
    KeyRevoked { key: KeyId, revoked_at: u64 },
    /// Signature is outside its validity window.
    ExpiredSignature { key: KeyId, window: ValidityWindow },
    /// Author did not have valid scope at creation time.
    ScopeViolation { author: AuthorId, reason: String },
    /// Capability access denied.
    CapabilityDenied { capability: String, reason: String },
    /// Taint traversal met a broken provenance chain.
    BrokenProvenance { unit: UnitId, reason: String },
    /// Ceremony protocol violation.
    CeremonyError { reason: String },
    /// Key generation, lookup, or management failure.
    KeyError { reason: String },
    /// Declassification requires multi-party signing.
    DeclassificationDenied { reason: String },
    /// Author's public key is not locally available.
    KeyNotFound { key: KeyId },
    /// Delegation token's logical clock range was exceeded.
    DelegationExpired { reason: String },
    /// Delegation token used outside its authorized scope.
    DelegationScopeViolation { reason: String },
    /// Delegation token signature is invalid.
    DelegationTokenForged { reason: String },
    /// Delegation token's spawn count limit was exceeded.
    DelegationSpawnLimitExceeded { reason: String },
    /// Spawned task attempted a governance operation.
    DelegationGovernanceBlocked { reason: String },
}

/// The `Debug` text of a key identifier: its bytes as a decimal list.
pub open spec fn key_id_debug(k: KeyId) -> Seq<char> {
    "KeyId(["@ + joined(k.0@.map_values(|b: u8| decimal(b as nat))) + "])"@
}

/// The `Debug` text of an author identifier.
pub open spec fn author_debug(a: AuthorId) -> Seq<char> {
    "AuthorId("@ + id_text(a.0) + ")"@
}

/// The message of a security error.
pub open spec fn security_message(e: SecurityError) -> Seq<char> {
    match e {
        SecurityError::InvalidSignature { reason } => "invalid signature: "@ + reason@,
        SecurityError::KeyRevoked { key, revoked_at } => "key "@ + key_id_debug(key)
            + " revoked at logical clock "@ + decimal(revoked_at as nat),
        SecurityError::ExpiredSignature { key, window } => "signature for key "@ + key_id_debug(key)
            + " outside validity window"@,
        SecurityError::ScopeViolation { author, reason } => "scope violation by author "@ + author_debug(
            author,
        ) + ": "@ + reason@,
        SecurityError::CapabilityDenied { capability, reason } => "capability denied: "@ + capability@
            + " — "@ + reason@,
        SecurityError::BrokenProvenance { unit, reason } => "broken provenance for unit "@ + unit_debug(unit)
            + ": "@ + reason@,
        SecurityError::CeremonyError { reason } => "ceremony error: "@ + reason@,
        SecurityError::KeyError { reason } => "key error: "@ + reason@,
        SecurityError::DeclassificationDenied { reason } => "declassification denied: "@ + reason@,
        SecurityError::KeyNotFound { key } => "key not found: "@ + key_id_debug(key),
        SecurityError::DelegationExpired { reason } => "delegation expired: "@ + reason@,
        SecurityError::DelegationScopeViolation { reason } => "delegation scope violation: "@ + reason@,
        SecurityError::DelegationTokenForged { reason } => "delegation token forged: "@ + reason@,
        SecurityError::DelegationSpawnLimitExceeded { reason } => "delegation spawn limit exceeded: "@
            + reason@,
        SecurityError::DelegationGovernanceBlocked { reason } => "delegation governance blocked: "@
            + reason@,
    }
}

fn push_key_id_debug(s: &mut String, k: &KeyId)
    ensures final(s)@ == old(s)@ + key_id_debug(*k),
{
    proof {
        reveal_strlit("KeyId([");
        reveal_strlit("])");
        reveal_strlit(", ");
    }
    s.append("KeyId([");
    let ghost start = s@;
    let ghost items = k.0@.map_values(|b: u8| decimal(b as nat));
    let mut i: usize = 0;
    while i < 32
        invariant
            i <= 32,
            k.0@.len() == 32,
            items == k.0@.map_values(|b: u8| decimal(b as nat)),
            s@ == start + joined(items.subrange(0, i as int)),
        decreases 32 - i,
    {
        if i > 0 {
            s.append(", ");
        }
        push_decimal(s, k.0[i] as u64);
        proof {
            let sub = items.subrange(0, i + 1);
            assert(sub.drop_last() =~= items.subrange(0, i as int));
            if i == 0 {
                assert(items.subrange(0, 0) =~= Seq::<Seq<char>>::empty());
            }
            assert(s@ =~= start + joined(sub));
        }
        i = i + 1;
    }
    assert(items.subrange(0, 32) =~= items);
    s.append("])");
    assert(s@ =~= old(s)@ + key_id_debug(*k));
}

impl SecurityError {
    /// The human-readable message of this error.
    pub fn message(&self) -> (r: String)
        ensures r@ == security_message(*self),
    {
        proof {
            reveal_strlit("invalid signature: ");
            reveal_strlit("key ");
            reveal_strlit(" revoked at logical clock ");
            reveal_strlit("signature for key ");
            reveal_strlit(" outside validity window");
            reveal_strlit("scope violation by author ");
            reveal_strlit("AuthorId(");
            reveal_strlit(")");
            reveal_strlit(": ");
            reveal_strlit("capability denied: ");
            reveal_strlit(" — ");
            reveal_strlit("broken provenance for unit ");
            reveal_strlit("ceremony error: ");
            reveal_strlit("key error: ");
            reveal_strlit("declassification denied: ");
            reveal_strlit("key not found: ");
            reveal_strlit("delegation expired: ");
            reveal_strlit("delegation scope violation: ");
            reveal_strlit("delegation token forged: ");
            reveal_strlit("delegation spawn limit exceeded: ");
            reveal_strlit("delegation governance blocked: ");
        }
        let mut s = String::new();
        match self {
            SecurityError::InvalidSignature { reason } => {
                s.append("invalid signature: ");
                s.append(reason.as_str());
            },
            SecurityError::KeyRevoked { key, revoked_at } => {
                s.append("key ");
                push_key_id_debug(&mut s, key);
                s.append(" revoked at logical clock ");
                push_decimal(&mut s, *revoked_at);
            },
            SecurityError::ExpiredSignature { key, window } => {
                s.append("signature for key ");
                push_key_id_debug(&mut s, key);
                s.append(" outside validity window");
            },
            SecurityError::ScopeViolation { author, reason } => {
                s.append("scope violation by author ");
                s.append("AuthorId(");
                let t = id_to_text(author.0);
                s.append(t.as_str());
                s.append(")");
                s.append(": ");
                s.append(reason.as_str());
            },
            SecurityError::CapabilityDenied { capability, reason } => {
                s.append("capability denied: ");
                s.append(capability.as_str());
                s.append(" — ");
                s.append(reason.as_str());
            },
            SecurityError::BrokenProvenance { unit, reason } => {
                s.append("broken provenance for unit ");
                push_unit_debug(&mut s, *unit);
                s.append(": ");
                s.append(reason.as_str());
            },
            SecurityError::CeremonyError { reason } => {
                s.append("ceremony error: ");
                s.append(reason.as_str());
            },
            SecurityError::KeyError { reason } => {
                s.append("key error: ");
                s.append(reason.as_str());
            },
            SecurityError::DeclassificationDenied { reason } => {
                s.append("declassification denied: ");
                s.append(reason.as_str());
            },
            SecurityError::KeyNotFound { key } => {
                s.append("key not found: ");
                push_key_id_debug(&mut s, key);
            },
            SecurityError::DelegationExpired { reason } => {
                s.append("delegation expired: ");
                s.append(reason.as_str());
            },
            SecurityError::DelegationScopeViolation { reason } => {
                s.append("delegation scope violation: ");
                s.append(reason.as_str());
            },
            SecurityError::DelegationTokenForged { reason } => {
                s.append("delegation token forged: ");
                s.append(reason.as_str());
            },
            SecurityError::DelegationSpawnLimitExceeded { reason } => {
                s.append("delegation spawn limit exceeded: ");
                s.append(reason.as_str());
            },
            SecurityError::DelegationGovernanceBlocked { reason } => {
                s.append("delegation governance blocked: ");
                s.append(reason.as_str());
            },
        }
        assert(s@ =~= security_message(*self));
        s
    }
}

} // verus!
