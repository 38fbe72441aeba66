//! Signature verification: the synchronous gate before a unit is merged.
//!
//! Verification checks, in order: that the author's key is known, that it
//! decodes to a curve point, that it is not revoked at the unit's logical
//! clock (causal model: a key revoked at `t` rejects units with clock
//! `>= t`), and that the signature is valid over the context-bound payload.
//! A mismatched trust domain, cluster or validity window yields a different
//! payload and so an invalid signature.

use vstd::prelude::*;
use crate::common::{id_text, id_to_text, AuthorId, ClusterId, LogicalClock, TrustDomainId, ValidityWindow};
use crate::security::crypto::{
    ed25519_key_valid, ed25519_public_spec, ed25519_sign_spec, ed25519_verify_spec, sha256_spec,
    KeyId, PublicKey, Signature,
};
use crate::security::error::SecurityError;
use crate::security::signing::{payload_spec, signing_payload, DefaultSigner};
use crate::text::bytes_equal;

verus! {

/// The key recorded for an author (the last entry for it).
pub open spec fn author_entry(s: Seq<(AuthorId, PublicKey, KeyId)>, a: AuthorId) -> Option<(PublicKey, KeyId)>
    decreases s.len(),
{
    if s.len() == 0 {
        None
    } else if s.last().0 == a {
        Some((s.last().1, s.last().2))
    } else {
        author_entry(s.drop_last(), a)
    }
}

/// The revocation clock recorded for a key (the last entry for it).
pub open spec fn revocation_entry(s: Seq<(KeyId, u64)>, k: KeyId) -> Option<u64>
    decreases s.len(),
{
    if s.len() == 0 {
        None
    } else if s.last().0 == k {
        Some(s.last().1)
    } else {
        revocation_entry(s.drop_last(), k)
    }
}

/// The reason given for an author whose key does not decode.
pub open spec fn non_canonical_reason(a: AuthorId) -> Seq<char> {
    "author AuthorId("@ + id_text(a.0) + ") has a non-canonical public key"@
}

/// The outcome of verifying a signature, given the author's key entry and
/// the key's revocation clock.
pub open spec fn verify_outcome(
    entry: Option<(PublicKey, KeyId)>,
    revoked: Option<u64>,
    author: AuthorId,
    payload: Seq<u8>,
    signature: Signature,
    logical_clock: LogicalClock,
    r: Result<(), SecurityError>,
) -> bool {
    match entry {
        None => r matches Err(SecurityError::KeyNotFound { key }) && key.0@ == Seq::new(
            32,
            |i: int| 0u8,
        ),
        Some((pk, key_id)) => if !ed25519_key_valid(pk.0@) {
            r matches Err(SecurityError::KeyError { reason }) && reason@ == non_canonical_reason(author)
        } else if revoked is Some && logical_clock.0 >= revoked->0 {
            r == Err::<(), SecurityError>(
                SecurityError::KeyRevoked { key: key_id, revoked_at: revoked->0 },
            )
        } else {
            &&& (r is Ok <==> ed25519_verify_spec(pk.0@, payload, signature.0@))
            &&& (r is Err ==> r->Err_0 is InvalidSignature)
            &&& ((exists|seed: Seq<u8>|
                seed.len() == 32 && pk.0@ == ed25519_public_spec(seed) && signature.0@
                    == ed25519_sign_spec(seed, payload)) ==> r is Ok)
        },
    }
}

/// Verifies unit signatures against locally known keys and revocations.
/// No network I/O: an unknown key is reported as `KeyNotFound`.
#[derive(Clone, Debug)]
pub struct DefaultVerifier {
    author_keys: Vec<(AuthorId, PublicKey, KeyId)>,
    revocations: Vec<(KeyId, u64)>,
}

fn key_id_eq(a: &KeyId, b: &KeyId) -> (r: bool)
    ensures r == (*a == *b),
{
    let r = bytes_equal(&a.0, &b.0);
    proof {
        if r {
            assert(a.0 =~= b.0);
        }
    }
    r
}

impl DefaultVerifier {
    /// The key recorded for an author, with its identifier.
    pub closed spec fn key_of(&self, a: AuthorId) -> Option<(PublicKey, KeyId)> {
        author_entry(self.author_keys@, a)
    }

    /// The logical clock at which a key is revoked, if it is.
    pub closed spec fn revoked_at(&self, k: KeyId) -> Option<u64> {
        revocation_entry(self.revocations@, k)
    }

    /// Creates a verifier with no keys and no revocations.
    pub fn new() -> (r: Self)
        ensures
            forall|a: AuthorId| r.key_of(a) is None,
            forall|k: KeyId| r.revoked_at(k) is None,
    {
        DefaultVerifier { author_keys: Vec::new(), revocations: Vec::new() }
    }

    /// Records the public key of an author (replacing any earlier one); when
    /// `revoked_at` is `Some(lc)`, the key is also recorded as revoked at
    /// logical clock `lc`.
    pub fn add_key(&mut self, author_id: AuthorId, pk: PublicKey, revoked_at: Option<u64>)
        ensures
            final(self).key_of(author_id) matches Some((p, k)) && p == pk && k.0@ == sha256_spec(pk.0@),
            forall|a: AuthorId| a != author_id ==> final(self).key_of(a) == old(self).key_of(a),
            forall|k: KeyId|
                #![auto]
                final(self).revoked_at(k) == match revoked_at {
                    Some(lc) => if k.0@ == sha256_spec(pk.0@) { Some(lc) } else { old(self).revoked_at(k) },
                    None => old(self).revoked_at(k),
                },
    {
        let key_id = KeyId::from_public_key(&pk);
        self.author_keys.push((author_id, pk, key_id));
        assert(self.author_keys@.drop_last() =~= old(self).author_keys@);
        match revoked_at {
            Some(lc) => {
                self.revocations.push((key_id, lc));
                assert(self.revocations@.drop_last() =~= old(self).revocations@);
                assert forall|k: KeyId| #![auto] k.0@ == sha256_spec(pk.0@) implies k == key_id by {
                    assert(k.0 =~= key_id.0);
                }
            },
            None => {},
        }
    }

    /// Marks a key as revoked at logical clock 0, so every unit by its
    /// author is rejected; a key already revoked keeps its clock.
    pub fn revoke(&mut self, key_id: &KeyId)
        ensures
            final(self).revoked_at(*key_id) == match old(self).revoked_at(*key_id) {
                Some(t) => Some(t),
                None => Some(0u64),
            },
            forall|k: KeyId| k != *key_id ==> final(self).revoked_at(k) == old(self).revoked_at(k),
            forall|a: AuthorId| final(self).key_of(a) == old(self).key_of(a),
    {
        if self.lookup_revocation(key_id).is_none() {
            self.revocations.push((*key_id, 0));
            assert(self.revocations@.drop_last() =~= old(self).revocations@);
        }
    }

    fn lookup_revocation(&self, key_id: &KeyId) -> (r: Option<u64>)
        ensures r == self.revoked_at(*key_id),
    {
        let mut i: usize = self.revocations.len();
        assert(self.revocations@.subrange(0, i as int) =~= self.revocations@);
        while i > 0
            invariant
                i <= self.revocations@.len(),
                revocation_entry(self.revocations@, *key_id) == revocation_entry(
                    self.revocations@.subrange(0, i as int),
                    *key_id,
                ),
            decreases i,
        {
            let ghost sub = self.revocations@.subrange(0, i as int);
            assert(sub.drop_last() =~= self.revocations@.subrange(0, i - 1));
            if key_id_eq(&self.revocations[i - 1].0, key_id) {
                return Some(self.revocations[i - 1].1);
            }
            i = i - 1;
        }
        assert(self.revocations@.subrange(0, 0) =~= Seq::<(KeyId, u64)>::empty());
        None
    }

    fn lookup_author(&self, author_id: &AuthorId) -> (r: Option<(PublicKey, KeyId)>)
        ensures r == self.key_of(*author_id),
    {
        let mut i: usize = self.author_keys.len();
        assert(self.author_keys@.subrange(0, i as int) =~= self.author_keys@);
        while i > 0
            invariant
                i <= self.author_keys@.len(),
                author_entry(self.author_keys@, *author_id) == author_entry(
                    self.author_keys@.subrange(0, i as int),
                    *author_id,
                ),
            decreases i,
        {
            let ghost sub = self.author_keys@.subrange(0, i as int);
            assert(sub.drop_last() =~= self.author_keys@.subrange(0, i - 1));
            let e = &self.author_keys[i - 1];
            if e.0 == *author_id {
                return Some((e.1, e.2));
            }
            i = i - 1;
        }
        assert(self.author_keys@.subrange(0, 0) =~= Seq::<(AuthorId, PublicKey, KeyId)>::empty());
        None
    }

    /// Returns `true` if the author's key has a revocation entry (whatever
    /// its clock).
    pub fn is_revoked(&self, author_id: &AuthorId) -> (r: bool)
        ensures
            r == (self.key_of(*author_id) matches Some((_, k)) && self.revoked_at(k) is Some),
    {
        match self.lookup_author(author_id) {
            Some((_, key_id)) => self.lookup_revocation(&key_id).is_some(),
            None => false,
        }
    }

    /// Verifies that `signature` is a valid signature by `author` over the
    /// unit bytes bound to the trust domain, cluster and validity window,
    /// and that the author's key is not revoked at `logical_clock`.
    /// Returns the first failure.
    pub fn verify(
        &self,
        author: &AuthorId,
        unit_bytes: &[u8],
        signature: &Signature,
        trust_domain: &TrustDomainId,
        cluster: &ClusterId,
        logical_clock: &LogicalClock,
        validity_window: Option<&ValidityWindow>,
    ) -> (r: Result<(), SecurityError>)
        ensures
            verify_outcome(
                self.key_of(*author),
                match self.key_of(*author) {
                    Some((_, k)) => self.revoked_at(k),
                    None => None,
                },
                *author,
                payload_spec(
                    unit_bytes@,
                    *trust_domain,
                    *cluster,
                    match validity_window {
                        Some(vw) => Some(*vw),
                        None => None,
                    },
                ),
                *signature,
                *logical_clock,
                r,
            ),
            // A signature made with the author's seed over the same unit and
            // context verifies unless the key is revoked at that clock.
            forall|seed: Seq<u8>|
                #![trigger ed25519_public_spec(seed)]
                seed.len() == 32 && (self.key_of(*author) matches Some((pk, k)) && pk.0@
                    == ed25519_public_spec(seed) && !(self.revoked_at(k) is Some && logical_clock.0
                    >= self.revoked_at(k)->0)) && signature.0@ == ed25519_sign_spec(
                    seed,
                    payload_spec(
                        unit_bytes@,
                        *trust_domain,
                        *cluster,
                        match validity_window {
                            Some(vw) => Some(*vw),
                            None => None,
                        },
                    ),
                ) ==> r is Ok,
    {
        let (pk, key_id) = match self.lookup_author(author) {
            Some(e) => e,
            None => {
                let key = KeyId([0u8; 32]);
                assert(key.0@ =~= Seq::new(32, |i: int| 0u8));
                return Err(SecurityError::KeyNotFound { key });
            },
        };
        let verifying_key = match pk.to_verifying_key() {
            Some(vk) => vk,
            None => {
                let mut reason = String::new();
                proof {
                    reveal_strlit("author AuthorId(");
                    reveal_strlit(") has a non-canonical public key");
                }
                reason.append("author AuthorId(");
                let idt = id_to_text(author.0);
                reason.append(idt.as_str());
                reason.append(") has a non-canonical public key");
                assert(reason@ =~= non_canonical_reason(*author));
                return Err(SecurityError::KeyError { reason });
            },
        };
        match self.lookup_revocation(&key_id) {
            Some(revoked_at) => {
                if logical_clock.0 >= revoked_at {
                    return Err(SecurityError::KeyRevoked { key: key_id, revoked_at });
                }
            },
            None => {},
        }
        let payload = signing_payload(unit_bytes, trust_domain, cluster, validity_window);
        verifying_key.verify_raw(payload.as_slice(), signature)
    }
}

/// A signature made by a signer over some unit bytes and context verifies,
/// for the same bytes and context, with a verifier that holds the signer's
/// public key for the author and has not revoked it at that clock.
pub proof fn lemma_signed_unit_verifies(
    signer: DefaultSigner,
    verifier: DefaultVerifier,
    author: AuthorId,
    unit_bytes: Seq<u8>,
    signature: Signature,
    trust_domain: TrustDomainId,
    cluster: ClusterId,
    validity: ValidityWindow,
    logical_clock: LogicalClock,
    r: Result<(), SecurityError>,
)
    requires
        signer.wf(),
        verifier.key_of(author) matches Some((pk, k)) && pk == signer.public_key_view() && !(
        verifier.revoked_at(k) is Some && logical_clock.0 >= verifier.revoked_at(k)->0),
        signature.0@ == ed25519_sign_spec(
            signer.seed(),
            payload_spec(unit_bytes, trust_domain, cluster, Some(validity)),
        ),
        verify_outcome(
            verifier.key_of(author),
            match verifier.key_of(author) {
                Some((_, k)) => verifier.revoked_at(k),
                None => None,
            },
            author,
            payload_spec(unit_bytes, trust_domain, cluster, Some(validity)),
            signature,
            logical_clock,
            r,
        ),
    ensures
        r is Ok,
{
    signer.lemma_wf();
    let seed = signer.seed();
    assert(seed.len() == 32);
}

} // verus!
