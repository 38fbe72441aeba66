//! Delegation tokens: an author pre-signs a token that scopes a node's
//! authority to sign the tasks a service spawns.
//!
//! A token binds the service, node, trust domain, logical-clock range and
//! spawn limit under the author's signature. Validation checks the range,
//! the spawn count, revocation and the signature. Spawned tasks get no
//! governance authority.

use vstd::prelude::*;
use crate::common::{DelegationTokenId, LogicalClock, NodeId, TrustDomainId, UnitId, be_bytes, id_text,
    id_to_text, push_be, random_id};
use crate::security::crypto::{PublicKey, Signature, SigningKey, VerifyingKey, ed25519_key_valid,
    ed25519_public_spec, ed25519_sign_spec, ed25519_verify_spec};
use crate::security::error::SecurityError;
use crate::text::{decimal, push_decimal, str_eq};

verus! {

/// A delegation token.
#[derive(Debug)]
pub struct DelegationToken {
    /// Token identifier.
    pub id: DelegationTokenId,
    /// The service the token is for.
    pub service_id: UnitId,
    /// The node holding the token.
    pub node_id: NodeId,
    /// The trust domain.
    pub trust_domain: TrustDomainId,
    /// Inclusive logical-clock range in which the token is valid.
    pub valid_lc_range: (LogicalClock, LogicalClock),
    /// Maximum number of spawns.
    pub max_spawns: u32,
    /// Spawns so far.
    pub current_spawns: u32,
    /// The author's signature over the token's payload.
    pub author_signature: Vec<u8>,
    /// Whether the token was revoked.
    pub revoked: bool,
}

/// The signed payload: service, node and trust domain identifiers (16 bytes
/// each), the range's start and end (8 bytes each) and the spawn limit
/// (4 bytes), all big-endian.
pub open spec fn payload_spec(service_id: UnitId, node_id: NodeId, trust_domain: TrustDomainId, lc_start: LogicalClock,
    lc_end: LogicalClock, max_spawns: u32) -> Seq<u8> {
    be_bytes(service_id.0 as nat, 16) + be_bytes(node_id.0 as nat, 16) + be_bytes(trust_domain.0 as nat, 16)
        + be_bytes(lc_start.0 as nat, 8) + be_bytes(lc_end.0 as nat, 8) + be_bytes(max_spawns as nat, 4)
}

/// The payload of a token.
pub open spec fn token_payload(t: DelegationToken) -> Seq<u8> {
    payload_spec(t.service_id, t.node_id, t.trust_domain, t.valid_lc_range.0, t.valid_lc_range.1, t.max_spawns)
}

/// Encodes the token fields into the signed payload.
pub fn delegation_payload(service_id: &UnitId, node_id: &NodeId, trust_domain: &TrustDomainId, lc_start: LogicalClock,
    lc_end: LogicalClock, max_spawns: u32) -> (r: Vec<u8>)
    ensures r@ == payload_spec(*service_id, *node_id, *trust_domain, lc_start, lc_end, max_spawns),
{
    let mut bytes: Vec<u8> = Vec::new();
    push_be(&mut bytes, service_id.0, 16);
    push_be(&mut bytes, node_id.0, 16);
    push_be(&mut bytes, trust_domain.0, 16);
    push_be(&mut bytes, lc_start.0 as u128, 8);
    push_be(&mut bytes, lc_end.0 as u128, 8);
    push_be(&mut bytes, max_spawns as u128, 4);
    assert(bytes@ =~= payload_spec(*service_id, *node_id, *trust_domain, lc_start, lc_end, max_spawns));
    bytes
}

// ---------------------------------------------------------------------------
// Messages
// ---------------------------------------------------------------------------

/// `LogicalClock(n)`.
pub open spec fn lc_text(n: u64) -> Seq<char> {
    seq!['L', 'o', 'g', 'i', 'c', 'a', 'l', 'C', 'l', 'o', 'c', 'k', '('] + decimal(n as nat) + seq![')']
}

fn push_lc(s: &mut String, n: u64)
    ensures final(s)@ == old(s)@ + lc_text(n),
{
    proof {
        reveal_strlit("LogicalClock(");
        reveal_strlit(")");
    }
    s.append("LogicalClock(");
    push_decimal(s, n);
    s.append(")");
    assert(s@ =~= old(s)@ + lc_text(n));
}

/// Why a clock is outside a token's range.
pub open spec fn expired_reason(lc: u64, start: u64, end: u64) -> Seq<char> {
    seq!['s', 'p', 'a', 'w', 'n', 'e', 'd', ' ', 't', 'a', 's', 'k', ' ', 'L', 'C', ' '] + lc_text(lc)
        + seq![' ', 'i', 's', ' ', 'o', 'u', 't', 's', 'i', 'd', 'e', ' ', 't', 'o', 'k', 'e', 'n', ' ', 'r', 'a', 'n',
        'g', 'e', ' ', '('] + lc_text(start) + seq![',', ' '] + lc_text(end) + seq![')']
}

/// Why the spawn limit is reached.
pub open spec fn spawn_reason(current: u32, max: u32) -> Seq<char> {
    seq!['s', 'p', 'a', 'w', 'n', ' ', 'c', 'o', 'u', 'n', 't', ' '] + decimal(current as nat)
        + seq![' ', 'h', 'a', 's', ' ', 'r', 'e', 'a', 'c', 'h', 'e', 'd', ' ', 'o', 'r', ' ', 'e', 'x', 'c', 'e', 'e',
        'd', 'e', 'd', ' ', 'm', 'a', 'x', 'i', 'm', 'u', 'm', ' '] + decimal(max as nat)
}

/// `"delegation token has been revoked"`.
pub open spec fn revoked_reason() -> Seq<char> {
    seq!['d', 'e', 'l', 'e', 'g', 'a', 't', 'i', 'o', 'n', ' ', 't', 'o', 'k', 'e', 'n', ' ', 'h', 'a', 's', ' ', 'b',
        'e', 'e', 'n', ' ', 'r', 'e', 'v', 'o', 'k', 'e', 'd']
}

/// `"author public key is non-canonical"`.
pub open spec fn non_canonical_reason() -> Seq<char> {
    seq!['a', 'u', 't', 'h', 'o', 'r', ' ', 'p', 'u', 'b', 'l', 'i', 'c', ' ', 'k', 'e', 'y', ' ', 'i', 's', ' ', 'n',
        'o', 'n', '-', 'c', 'a', 'n', 'o', 'n', 'i', 'c', 'a', 'l']
}

/// `"author signature has wrong length"`.
pub open spec fn wrong_length_reason() -> Seq<char> {
    seq!['a', 'u', 't', 'h', 'o', 'r', ' ', 's', 'i', 'g', 'n', 'a', 't', 'u', 'r', 'e', ' ', 'h', 'a', 's', ' ', 'w',
        'r', 'o', 'n', 'g', ' ', 'l', 'e', 'n', 'g', 't', 'h']
}

/// The prefix of a failed signature check's reason.
pub open spec fn forged_prefix() -> Seq<char> {
    seq!['t', 'o', 'k', 'e', 'n', ' ', 's', 'i', 'g', 'n', 'a', 't', 'u', 'r', 'e', ' ', 'v', 'e', 'r', 'i', 'f', 'i',
        'c', 'a', 't', 'i', 'o', 'n', ' ', 'f', 'a', 'i', 'l', 'e', 'd', ':', ' ']
}

/// Why a spawned task cannot create a unit of type `t`.
pub open spec fn governance_reason(t: Seq<char>) -> Seq<char> {
    seq!['s', 'p', 'a', 'w', 'n', 'e', 'd', ' ', 't', 'a', 's', 'k', 's', ' ', 'c', 'a', 'n', 'n', 'o', 't', ' ', 'c',
        'r', 'e', 'a', 't', 'e', ' '] + t + seq![' ', 'u', 'n', 'i', 't', 's', ' ', '(', 'I', 'N', 'V', '-', 'W', '4',
        'a', ')']
}

/// The unit types a spawned task may not create.
pub open spec fn governance_type(t: Seq<char>) -> bool {
    t == seq!['p', 'o', 'l', 'i', 'c', 'y'] || t == seq!['g', 'o', 'v', 'e', 'r', 'n', 'a', 'n', 'c', 'e']
        || t == seq!['d', 'e', 'c', 'l', 'a', 's', 's', 'i', 'f', 'i', 'c', 'a', 't', 'i', 'o', 'n']
}

// ---------------------------------------------------------------------------
// Validator
// ---------------------------------------------------------------------------

/// `i` is the registration of token `id`.
pub open spec fn registered_at(tokens: Seq<(DelegationToken, PublicKey)>, id: DelegationTokenId, i: int) -> bool {
    0 <= i < tokens.len() && tokens[i].0.id == id
}

/// Registered tokens have distinct identifiers.
pub open spec fn ids_unique(tokens: Seq<(DelegationToken, PublicKey)>) -> bool {
    forall|i: int, j: int| 0 <= i < j < tokens.len() ==> (#[trigger] tokens[i]).0.id != (#[trigger] tokens[j]).0.id
}

/// The registration of token `id`, if any.
pub open spec fn registration(tokens: Seq<(DelegationToken, PublicKey)>, id: DelegationTokenId) -> Option<(DelegationToken, PublicKey)> {
    if exists|i: int| registered_at(tokens, id, i) {
        Some(tokens[choose|i: int| registered_at(tokens, id, i)])
    } else {
        None
    }
}

/// Holds delegation tokens with their authors' public keys.
pub struct DefaultDelegationValidator {
    tokens: Vec<(DelegationToken, PublicKey)>,
}

impl DefaultDelegationValidator {
    /// The registered tokens.
    pub closed spec fn tokens(&self) -> Seq<(DelegationToken, PublicKey)> {
        self.tokens@
    }

    /// No two registrations share an identifier.
    #[verifier::type_invariant]
    spec fn unique(self) -> bool {
        ids_unique(self.tokens@)
    }

    /// An empty validator.
    pub fn new() -> (r: Self)
        ensures r.tokens().len() == 0,
    {
        DefaultDelegationValidator { tokens: Vec::new() }
    }

    fn find(&self, id: DelegationTokenId) -> (r: Option<usize>)
        ensures
            match r {
                Some(i) => registered_at(self.tokens(), id, i as int),
                None => forall|i: int| !registered_at(self.tokens(), id, i),
            },
    {
        let mut i: usize = 0;
        while i < self.tokens.len()
            invariant
                i <= self.tokens@.len(),
                forall|j: int| 0 <= j < i ==> (#[trigger] self.tokens@[j]).0.id != id,
            decreases self.tokens@.len() - i,
        {
            if self.tokens[i].0.id.0 == id.0 {
                return Some(i);
            }
            i = i + 1;
        }
        None
    }

    /// Whether a token with this identifier is registered.
    pub fn contains_token(&self, id: &DelegationTokenId) -> (r: bool)
        ensures r == registration(self.tokens(), *id) is Some,
    {
        match self.find(*id) {
            Some(i) => {
                proof {
                    assert(registered_at(self.tokens(), *id, i as int));
                }
                true
            },
            None => false,
        }
    }

    /// Registers a token with its author's public key, replacing any token
    /// with the same identifier.
    pub fn add_token(&mut self, token: DelegationToken, pk: PublicKey)
        ensures
            registration(final(self).tokens(), token.id) == Some((token, pk)),
            forall|id: DelegationTokenId| id != token.id ==> registration(final(self).tokens(), id) == registration(old(self).tokens(), id),
    {
        proof {
            use_type_invariant(&*self);
        }
        let ghost before = self.tokens@;
        let id = token.id;
        let found = self.find(id);
        let mut v: Vec<(DelegationToken, PublicKey)> = Vec::new();
        std::mem::swap(&mut v, &mut self.tokens);
        match found {
            Some(i) => {
                v.set(i, (token, pk));
                proof {
                    lemma_registration_update(before, v@, i as int);
                }
            },
            None => {
                v.push((token, pk));
                proof {
                    lemma_registration_push(before, v@);
                }
            },
        }
        self.tokens = v;
    }

    /// Marks a registered token as revoked; nothing happens for an unknown
    /// identifier.
    pub fn revoke(&mut self, token_id: &DelegationTokenId)
        ensures
            forall|id: DelegationTokenId| id != *token_id ==> registration(final(self).tokens(), id) == registration(old(self).tokens(), id),
            match registration(old(self).tokens(), *token_id) {
                None => registration(final(self).tokens(), *token_id) is None,
                Some((t, pk)) => registration(final(self).tokens(), *token_id) == Some((DelegationToken { revoked: true, ..t }, pk)),
            },
    {
        proof {
            use_type_invariant(&*self);
        }
        let ghost before = self.tokens@;
        match self.find(*token_id) {
            Some(i) => {
                let mut v: Vec<(DelegationToken, PublicKey)> = Vec::new();
                std::mem::swap(&mut v, &mut self.tokens);
                let (mut t, pk) = v.remove(i);
                t.revoked = true;
                v.insert(i, (t, pk));
                proof {
                    assert(v@ =~= before.update(i as int, v@[i as int]));
                    lemma_registration_update(before, v@, i as int);
                }
                self.tokens = v;
            },
            None => {},
        }
    }
}

proof fn lemma_registration_update(before: Seq<(DelegationToken, PublicKey)>, after: Seq<(DelegationToken, PublicKey)>, i: int)
    requires
        0 <= i < before.len(),
        ids_unique(before),
        after.len() == before.len(),
        after[i].0.id == before[i].0.id,
        forall|j: int| 0 <= j < before.len() && j != i ==> after[j] == before[j],
    ensures
        ids_unique(after),
        registration(after, before[i].0.id) == Some(after[i]),
        forall|id: DelegationTokenId| id != before[i].0.id ==> registration(after, id) == registration(before, id),
{
    assert forall|a: int, b: int| 0 <= a < b < after.len() implies (#[trigger] after[a]).0.id != (#[trigger] after[b]).0.id by {
        assert(before[a].0.id != before[b].0.id);
        if a != i {
            assert(after[a] == before[a]);
        }
        if b != i {
            assert(after[b] == before[b]);
        }
    }
    let key = before[i].0.id;
    assert(registered_at(after, key, i));
    let c = choose|c: int| registered_at(after, key, c);
    if c != i {
        if c < i {
            assert(after[c].0.id != after[i].0.id);
        } else {
            assert(after[i].0.id != after[c].0.id);
        }
    }
    assert forall|id: DelegationTokenId| id != key implies registration(after, id) == registration(before, id) by {
        if exists|j: int| registered_at(before, id, j) {
            let j = choose|j: int| registered_at(before, id, j);
            assert(j != i);
            assert(registered_at(after, id, j));
            let c2 = choose|c2: int| registered_at(after, id, c2);
            if c2 != j {
                if c2 < j {
                    assert(after[c2].0.id != after[j].0.id);
                } else {
                    assert(after[j].0.id != after[c2].0.id);
                }
            }
        }
        if exists|j: int| registered_at(after, id, j) {
            let j = choose|j: int| registered_at(after, id, j);
            assert(j != i);
            assert(registered_at(before, id, j));
        }
    }
}

proof fn lemma_registration_push(before: Seq<(DelegationToken, PublicKey)>, after: Seq<(DelegationToken, PublicKey)>)
    requires
        after.len() == before.len() + 1,
        ids_unique(before),
        forall|j: int| 0 <= j < before.len() ==> after[j] == before[j],
        forall|j: int| !registered_at(before, after[before.len() as int].0.id, j),
    ensures
        ids_unique(after),
        registration(after, after[before.len() as int].0.id) == Some(after[before.len() as int]),
        forall|id: DelegationTokenId| id != after[before.len() as int].0.id ==> registration(after, id) == registration(before, id),
{
    let n = before.len() as int;
    let key = after[n].0.id;
    assert forall|a: int, b: int| 0 <= a < b < after.len() implies (#[trigger] after[a]).0.id != (#[trigger] after[b]).0.id by {
        assert(after[a] == before[a]);
        if b < n {
            assert(after[b] == before[b]);
        } else {
            assert(!registered_at(before, key, a));
        }
    }
    assert(registered_at(after, key, n));
    let c = choose|c: int| registered_at(after, key, c);
    if c != n {
        assert(after[c].0.id != after[n].0.id);
    }
    assert forall|id: DelegationTokenId| id != key implies registration(after, id) == registration(before, id) by {
        if exists|j: int| registered_at(before, id, j) {
            let j = choose|j: int| registered_at(before, id, j);
            assert(registered_at(after, id, j));
            let c2 = choose|c2: int| registered_at(after, id, c2);
            if c2 != j {
                if c2 < j {
                    assert(after[c2].0.id != after[j].0.id);
                } else {
                    assert(after[j].0.id != after[c2].0.id);
                }
            }
        }
        if exists|j: int| registered_at(after, id, j) {
            let j = choose|j: int| registered_at(after, id, j);
            assert(j != n);
            assert(registered_at(before, id, j));
        }
    }
}

/// What validating a token decides.
#[derive(Clone, Copy, Debug, PartialEq, Eq, Structural)]
pub enum DelegationCheck {
    /// The clock is outside the token's range.
    Expired,
    /// The spawn limit is reached.
    SpawnLimit,
    /// The token (as registered, when it is) was revoked.
    Revoked,
    /// The registered public key does not decode.
    NonCanonical,
    /// The signature is not 64 bytes.
    WrongLength,
    /// The signature does not verify.
    BadSignature,
    /// The token is valid.
    Valid,
}

/// The decision on `token` at clock `lc`: the range, then the spawn count,
/// then revocation (of the registered copy when there is one), then, for a
/// registered token, its author's key and signature.
pub open spec fn validate_outcome(tokens: Seq<(DelegationToken, PublicKey)>, token: DelegationToken, lc: LogicalClock) -> DelegationCheck {
    if lc.0 < token.valid_lc_range.0.0 || lc.0 > token.valid_lc_range.1.0 {
        DelegationCheck::Expired
    } else if token.current_spawns >= token.max_spawns {
        DelegationCheck::SpawnLimit
    } else {
        match registration(tokens, token.id) {
            None => if token.revoked { DelegationCheck::Revoked } else { DelegationCheck::Valid },
            Some((stored, pk)) => if stored.revoked {
                DelegationCheck::Revoked
            } else if !ed25519_key_valid(pk.0@) {
                DelegationCheck::NonCanonical
            } else if token.author_signature@.len() != 64 {
                DelegationCheck::WrongLength
            } else if !ed25519_verify_spec(pk.0@, token_payload(token), token.author_signature@) {
                DelegationCheck::BadSignature
            } else {
                DelegationCheck::Valid
            },
        }
    }
}

/// The error that goes with a decision.
pub open spec fn check_error(c: DelegationCheck, token: DelegationToken, lc: LogicalClock, e: SecurityError) -> bool {
    match c {
        DelegationCheck::Expired => e matches SecurityError::DelegationExpired { reason }
            && reason@ == expired_reason(lc.0, token.valid_lc_range.0.0, token.valid_lc_range.1.0),
        DelegationCheck::SpawnLimit => e matches SecurityError::DelegationSpawnLimitExceeded { reason }
            && reason@ == spawn_reason(token.current_spawns, token.max_spawns),
        DelegationCheck::Revoked => e matches SecurityError::DelegationTokenForged { reason } && reason@ == revoked_reason(),
        DelegationCheck::NonCanonical => e matches SecurityError::DelegationTokenForged { reason }
            && reason@ == non_canonical_reason(),
        DelegationCheck::WrongLength => e matches SecurityError::DelegationTokenForged { reason }
            && reason@ == wrong_length_reason(),
        DelegationCheck::BadSignature => e matches SecurityError::DelegationTokenForged { reason }
            && forged_prefix().is_prefix_of(reason@),
        DelegationCheck::Valid => false,
    }
}

impl DefaultDelegationValidator {
    /// Validates a token for signing a task spawned at clock `lc`.
    pub fn validate(&self, token: &DelegationToken, spawned_unit_lc: &LogicalClock) -> (r: Result<(), SecurityError>)
        ensures
            (r is Ok) == (validate_outcome(self.tokens(), *token, *spawned_unit_lc) == DelegationCheck::Valid),
            r matches Err(e) ==> check_error(validate_outcome(self.tokens(), *token, *spawned_unit_lc), *token, *spawned_unit_lc, e),
            ({
                let reg = registration(self.tokens(), token.id);
                &&& reg matches Some((stored, pk))
                &&& !stored.revoked
                &&& ed25519_key_valid(pk.0@)
                &&& token.valid_lc_range.0.0 <= spawned_unit_lc.0 <= token.valid_lc_range.1.0
                &&& token.current_spawns < token.max_spawns
                &&& token.author_signature@.len() == 64
                &&& exists|seed: Seq<u8>| seed.len() == 32 && pk.0@ == ed25519_public_spec(seed)
                    && token.author_signature@ == ed25519_sign_spec(seed, token_payload(*token))
            }) ==> r is Ok,
    {
        proof {
            use_type_invariant(self);
        }
        let lc = spawned_unit_lc.0;
        let start = token.valid_lc_range.0.0;
        let end = token.valid_lc_range.1.0;
        if lc < start || lc > end {
            let mut reason = String::new();
            proof {
                reveal_strlit("spawned task LC ");
                reveal_strlit(" is outside token range (");
                reveal_strlit(", ");
                reveal_strlit(")");
            }
            reason.append("spawned task LC ");
            push_lc(&mut reason, lc);
            reason.append(" is outside token range (");
            push_lc(&mut reason, start);
            reason.append(", ");
            push_lc(&mut reason, end);
            reason.append(")");
            assert(reason@ =~= expired_reason(lc, start, end));
            return Err(SecurityError::DelegationExpired { reason });
        }
        if token.current_spawns >= token.max_spawns {
            let mut reason = String::new();
            proof {
                reveal_strlit("spawn count ");
                reveal_strlit(" has reached or exceeded maximum ");
            }
            reason.append("spawn count ");
            push_decimal(&mut reason, token.current_spawns as u64);
            reason.append(" has reached or exceeded maximum ");
            push_decimal(&mut reason, token.max_spawns as u64);
            assert(reason@ =~= spawn_reason(token.current_spawns, token.max_spawns));
            return Err(SecurityError::DelegationSpawnLimitExceeded { reason });
        }
        proof {
            reveal_strlit("delegation token has been revoked");
            reveal_strlit("author public key is non-canonical");
            reveal_strlit("author signature has wrong length");
            reveal_strlit("token signature verification failed: ");
            assert("delegation token has been revoked"@ == revoked_reason());
            assert("author public key is non-canonical"@ == non_canonical_reason());
        }
        let stored = self.find(token.id);
        proof {
            match stored {
                Some(i) => {
                    assert(registered_at(self.tokens(), token.id, i as int));
                    let c = choose|c: int| registered_at(self.tokens(), token.id, c);
                    if c != i as int {
                        lemma_unique_index(self.tokens@, c, i as int);
                    }
                    assert(registration(self.tokens(), token.id) == Some(self.tokens@[i as int]));
                },
                None => {},
            }
        }
        let revoked = match stored {
            Some(i) => self.tokens[i].0.revoked,
            None => token.revoked,
        };
        if revoked {
            return Err(SecurityError::DelegationTokenForged { reason: "delegation token has been revoked".to_string() });
        }
        match stored {
            None => Ok(()),
            Some(i) => {
                let pk = &self.tokens[i].1;
                let vk = match VerifyingKey::from_public_key(pk) {
                    Some(vk) => vk,
                    None => {
                        return Err(SecurityError::DelegationTokenForged { reason: "author public key is non-canonical".to_string() });
                    },
                };
                verify_token_signature(&vk, token)
            },
        }
    }

    /// Refuses the governance operations a spawned task may not perform:
    /// creating policy or governance units, or declassifying.
    pub fn check_governance_block(&self, token: &DelegationToken, unit_type: &str) -> (r: Result<(), SecurityError>)
        ensures
            governance_type(unit_type@) ==> (r matches Err(SecurityError::DelegationGovernanceBlocked { reason })
                && reason@ == governance_reason(unit_type@)),
            !governance_type(unit_type@) ==> r is Ok,
    {
        proof {
            reveal_strlit("policy");
            reveal_strlit("governance");
            reveal_strlit("declassification");
            reveal_strlit("spawned tasks cannot create ");
            reveal_strlit(" units (INV-W4a)");
            assert("policy"@ == seq!['p', 'o', 'l', 'i', 'c', 'y']);
            assert("governance"@ == seq!['g', 'o', 'v', 'e', 'r', 'n', 'a', 'n', 'c', 'e']);
            assert("declassification"@ == seq!['d', 'e', 'c', 'l', 'a', 's', 's', 'i', 'f', 'i', 'c', 'a', 't', 'i', 'o', 'n']);
        }
        if str_eq(unit_type, "policy") || str_eq(unit_type, "governance") || str_eq(unit_type, "declassification") {
            let mut reason = String::new();
            reason.append("spawned tasks cannot create ");
            reason.append(unit_type);
            reason.append(" units (INV-W4a)");
            assert(reason@ =~= governance_reason(unit_type@));
            Err(SecurityError::DelegationGovernanceBlocked { reason })
        } else {
            Ok(())
        }
    }
}

proof fn lemma_unique_index(tokens: Seq<(DelegationToken, PublicKey)>, a: int, b: int)
    requires
        ids_unique(tokens),
        0 <= a < tokens.len(),
        0 <= b < tokens.len(),
        tokens[a].0.id == tokens[b].0.id,
    ensures
        a == b,
{
    if a < b {
        assert(tokens[a].0.id != tokens[b].0.id);
    } else if b < a {
        assert(tokens[b].0.id != tokens[a].0.id);
    }
}

/// Verifies a token's signature under its author's key: a wrong length or
/// a failed check is a forged token.
fn verify_token_signature(vk: &VerifyingKey, token: &DelegationToken) -> (r: Result<(), SecurityError>)
    ensures
        token.author_signature@.len() != 64 ==> (r matches Err(SecurityError::DelegationTokenForged { reason })
            && reason@ == wrong_length_reason()),
        token.author_signature@.len() == 64 ==> (r is Ok <==> ed25519_verify_spec(vk@, token_payload(*token), token.author_signature@)),
        token.author_signature@.len() == 64 ==> (r matches Err(e) ==> (e matches SecurityError::DelegationTokenForged { reason }
            && forged_prefix().is_prefix_of(reason@))),
        token.author_signature@.len() == 64 && (exists|seed: Seq<u8>| seed.len() == 32 && vk@ == ed25519_public_spec(seed)
            && token.author_signature@ == ed25519_sign_spec(seed, token_payload(*token))) ==> r is Ok,
{
    proof {
        reveal_strlit("author signature has wrong length");
        reveal_strlit("token signature verification failed: ");
        assert("author signature has wrong length"@ == wrong_length_reason());
        assert("token signature verification failed: "@ == forged_prefix());
    }
    let payload = delegation_payload(&token.service_id, &token.node_id, &token.trust_domain, token.valid_lc_range.0,
        token.valid_lc_range.1, token.max_spawns);
    if token.author_signature.len() != 64 {
        return Err(SecurityError::DelegationTokenForged { reason: "author signature has wrong length".to_string() });
    }
    let mut sig_bytes = [0u8; 64];
    let mut j: usize = 0;
    while j < 64
        invariant
            j <= 64,
            token.author_signature@.len() == 64,
            sig_bytes@.len() == 64,
            forall|l: int| 0 <= l < j ==> sig_bytes@[l] == token.author_signature@[l],
        decreases 64 - j,
    {
        sig_bytes.set(j, token.author_signature[j]);
        j = j + 1;
    }
    assert(sig_bytes@ =~= token.author_signature@);
    let signature = Signature::from_bytes(sig_bytes);
    match vk.verify_raw(payload.as_slice(), &signature) {
        Ok(()) => Ok(()),
        Err(SecurityError::InvalidSignature { reason: msg }) => {
            let mut reason = String::new();
            reason.append("token signature verification failed: ");
            reason.append(msg.as_str());
            proof {
                assert(reason@.subrange(0, forged_prefix().len() as int) =~= forged_prefix());
            }
            Err(SecurityError::DelegationTokenForged { reason })
        },
        Err(other) => Err(other),
    }
}

impl DelegationToken {
    /// The two tokens hold the same values.
    pub open spec fn same_as(self, other: DelegationToken) -> bool {
        &&& self.id == other.id
        &&& self.service_id == other.service_id
        &&& self.node_id == other.node_id
        &&& self.trust_domain == other.trust_domain
        &&& self.valid_lc_range == other.valid_lc_range
        &&& self.max_spawns == other.max_spawns
        &&& self.current_spawns == other.current_spawns
        &&& self.author_signature@ == other.author_signature@
        &&& self.revoked == other.revoked
    }

    /// A copy of this token.
    pub fn copy(&self) -> (r: DelegationToken)
        ensures r.same_as(*self),
    {
        DelegationToken {
            id: self.id,
            service_id: self.service_id,
            node_id: self.node_id,
            trust_domain: self.trust_domain,
            valid_lc_range: self.valid_lc_range,
            max_spawns: self.max_spawns,
            current_spawns: self.current_spawns,
            author_signature: copy_bytes(&self.author_signature),
            revoked: self.revoked,
        }
    }
}

fn copy_bytes(v: &Vec<u8>) -> (r: Vec<u8>)
    ensures r@ == v@,
{
    let mut out: Vec<u8> = Vec::new();
    let mut i: usize = 0;
    while i < v.len()
        invariant
            i <= v@.len(),
            out@ == v@.subrange(0, i as int),
        decreases v@.len() - i,
    {
        out.push(v[i]);
        i = i + 1;
        proof {
            assert(out@ =~= v@.subrange(0, i as int));
        }
    }
    assert(v@.subrange(0, v@.len() as int) =~= v@);
    out
}

/// `"token DelegationTokenId(<id>) not found for revocation"`.
pub open spec fn not_found_reason(id: DelegationTokenId) -> Seq<char> {
    seq!['t', 'o', 'k', 'e', 'n', ' ', 'D', 'e', 'l', 'e', 'g', 'a', 't', 'i', 'o', 'n', 'T', 'o', 'k', 'e', 'n', 'I',
        'd', '('] + id_text(id.0) + seq![')', ' ', 'n', 'o', 't', ' ', 'f', 'o', 'u', 'n', 'd', ' ', 'f', 'o', 'r', ' ',
        'r', 'e', 'v', 'o', 'c', 'a', 't', 'i', 'o', 'n']
}

/// Creates and revokes delegation tokens. Each created token is registered,
/// with its author's public key, in the manager's validator, so a token
/// revoked here is rejected by that validator.
pub struct DefaultDelegationManager {
    validator: DefaultDelegationValidator,
}

impl DefaultDelegationManager {
    /// The tokens created, with their authors' public keys.
    pub closed spec fn tokens(&self) -> Seq<(DelegationToken, PublicKey)> {
        self.validator.tokens()
    }

    /// A manager with no token.
    pub fn new() -> (r: Self)
        ensures r.tokens().len() == 0,
    {
        DefaultDelegationManager { validator: DefaultDelegationValidator::new() }
    }

    /// The validator that holds the created tokens and sees their
    /// revocations.
    pub fn validator(&self) -> (r: &DefaultDelegationValidator)
        ensures r.tokens() == self.tokens(),
    {
        &self.validator
    }

    /// Creates a token for a service placement, signed by the author over
    /// the service, node, trust domain, clock range and spawn limit. The
    /// identifier is fresh and random; the token is registered for
    /// validation and revocation.
    pub fn create_token(&mut self, signing_key: &SigningKey, service_id: &UnitId, node_id: &NodeId,
        trust_domain: &TrustDomainId, lc_start: &LogicalClock, lc_end: &LogicalClock, max_spawns: u32) -> (r: Result<DelegationToken, SecurityError>)
        ensures
            r matches Ok(t) && t.service_id == *service_id && t.node_id == *node_id && t.trust_domain == *trust_domain
                && t.valid_lc_range == (*lc_start, *lc_end) && t.max_spawns == max_spawns && t.current_spawns == 0
                && !t.revoked
                && t.author_signature@.len() == 64
                && t.author_signature@ == ed25519_sign_spec(signing_key@, token_payload(t))
                && (registration(final(self).tokens(), t.id) matches Some((stored, pk))
                    && stored.same_as(t) && pk.0@ == ed25519_public_spec(signing_key@) && ed25519_key_valid(pk.0@))
                && forall|id: DelegationTokenId| id != t.id ==> registration(final(self).tokens(), id) == registration(old(self).tokens(), id),
    {
        let token_id = DelegationTokenId(random_id());
        let payload = delegation_payload(service_id, node_id, trust_domain, *lc_start, *lc_end, max_spawns);
        let signature = match signing_key.sign_raw(payload.as_slice()) {
            Ok(sig) => sig,
            Err(e) => return Err(e),
        };
        let mut sig_vec: Vec<u8> = Vec::new();
        let mut j: usize = 0;
        while j < 64
            invariant
                j <= 64,
                signature.0@.len() == 64,
                sig_vec@ == signature.0@.subrange(0, j as int),
            decreases 64 - j,
        {
            sig_vec.push(signature.0[j]);
            j = j + 1;
            proof {
                assert(sig_vec@ =~= signature.0@.subrange(0, j as int));
            }
        }
        assert(sig_vec@ =~= signature.0@);
        let token = DelegationToken {
            id: token_id,
            service_id: *service_id,
            node_id: *node_id,
            trust_domain: *trust_domain,
            valid_lc_range: (*lc_start, *lc_end),
            max_spawns,
            current_spawns: 0,
            author_signature: sig_vec,
            revoked: false,
        };
        let stored = token.copy();
        let pk = signing_key.public_key();
        self.validator.add_token(stored, pk);
        Ok(token)
    }

    /// Revokes a created token; an unknown identifier is a forged token.
    pub fn revoke_token(&mut self, token_id: &DelegationTokenId) -> (r: Result<(), SecurityError>)
        ensures
            forall|id: DelegationTokenId| id != *token_id ==> registration(final(self).tokens(), id) == registration(old(self).tokens(), id),
            match registration(old(self).tokens(), *token_id) {
                None => r matches Err(SecurityError::DelegationTokenForged { reason }) && reason@ == not_found_reason(*token_id)
                    && final(self).tokens() == old(self).tokens(),
                Some((t, pk)) => r is Ok && registration(final(self).tokens(), *token_id) == Some((DelegationToken { revoked: true, ..t }, pk)),
            },
    {
        if self.validator.contains_token(token_id) {
            self.validator.revoke(token_id);
            Ok(())
        } else {
            let mut reason = String::new();
            proof {
                reveal_strlit("token DelegationTokenId(");
                reveal_strlit(") not found for revocation");
            }
            reason.append("token DelegationTokenId(");
            let idt = id_to_text(token_id.0);
            reason.append(idt.as_str());
            reason.append(") not found for revocation");
            assert(reason@ =~= not_found_reason(*token_id));
            Err(SecurityError::DelegationTokenForged { reason })
        }
    }
}

/// A revoked token is rejected: once the registration of a token's
/// identifier is marked revoked (as `revoke_token` marks it in the
/// manager's validator), validating any token with that identifier fails,
/// whatever its signature; within its clock range and spawn limit it fails
/// as a forged token.
pub proof fn lemma_revoked_token_rejected(tokens: Seq<(DelegationToken, PublicKey)>, token: DelegationToken, lc: LogicalClock)
    requires
        registration(tokens, token.id) matches Some((stored, _)) && stored.revoked,
    ensures
        validate_outcome(tokens, token, lc) != DelegationCheck::Valid,
        token.valid_lc_range.0.0 <= lc.0 <= token.valid_lc_range.1.0 && token.current_spawns < token.max_spawns
            ==> validate_outcome(tokens, token, lc) == DelegationCheck::Revoked,
{
}

} // verus!
