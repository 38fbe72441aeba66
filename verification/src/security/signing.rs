//! Unit signing with Ed25519 and context binding.
//!
//! A signature covers `SHA-256(unit_bytes || context)`, where the context is
//! the trust domain identifier (16 bytes), the cluster identifier (16 bytes)
//! and, when present, the compact JSON of the validity window. Any change of
//! unit or context yields a different payload, so a signature cannot be
//! replayed across trust domains or clusters.

use vstd::prelude::*;
use vstd::utf8::encode_utf8;
use crate::common::{
    be_bytes, push_be, ClusterId, LogicalClock, TrustDomainId, ValidityWindow, WallTime,
};
use crate::security::crypto::{
    ed25519_key_valid, ed25519_public_spec, ed25519_sign_spec, sha256, sha256_spec, KeyPair, PublicKey, Signature,
};
use crate::security::error::SecurityError;
use crate::text::{append_bytes, decimal_ascii, push_decimal_ascii};

verus! {

/// Context bound into every signature.
#[derive(Clone, Copy, Debug)]
pub struct SignatureContext {
    /// The trust domain this signature is valid within.
    pub trust_domain_id: TrustDomainId,
    /// The cluster this signature is valid within.
    pub cluster_id: ClusterId,
    /// Time window during which this signature is valid.
    pub validity_window: ValidityWindow,
}

/// A unit (here: its serialized bytes, or any payload type `T`) wrapped with
/// its signature, the context bound into it and the signer's public key.
#[derive(Clone, Debug)]
pub struct SignedUnit<T> {
    /// The unit payload.
    pub unit: T,
    /// The signature over `(unit || context)`.
    pub signature: Signature,
    /// The context bound into the signature.
    pub context: SignatureContext,
    /// The public key of the signing author.
    pub signer: PublicKey,
}

// ---------------------------------------------------------------------------
// Deterministic encoding
// ---------------------------------------------------------------------------

/// JSON of the logical-clock range: `[a,b]` or `null`.
pub open spec fn lc_range_json(r: Option<(LogicalClock, LogicalClock)>) -> Seq<u8> {
    match r {
        Some((a, b)) => seq![91u8] + decimal_ascii(a.0 as nat) + seq![44u8] + decimal_ascii(
            b.0 as nat,
        ) + seq![93u8],
        None => encode_utf8("null"@),
    }
}

/// JSON of the wall-clock deadline: `{"millis":n}` or `null`.
pub open spec fn deadline_json(w: Option<WallTime>) -> Seq<u8> {
    match w {
        Some(w) => encode_utf8("{\"millis\":"@) + decimal_ascii(w.millis as nat) + seq![125u8],
        None => encode_utf8("null"@),
    }
}

/// Compact JSON of a validity window:
/// `{"lc_range":<range>,"wall_time_deadline":<deadline>}`.
pub open spec fn validity_json(vw: ValidityWindow) -> Seq<u8> {
    encode_utf8("{\"lc_range\":"@) + lc_range_json(vw.lc_range) + encode_utf8(
        ",\"wall_time_deadline\":"@,
    ) + deadline_json(vw.wall_time_deadline) + seq![125u8]
}

/// The context bytes: trust domain id (16 big-endian bytes), cluster id
/// (16 big-endian bytes), then the validity window's JSON when present.
pub open spec fn context_bytes(
    trust_domain: TrustDomainId,
    cluster: ClusterId,
    validity_window: Option<ValidityWindow>,
) -> Seq<u8> {
    be_bytes(trust_domain.0 as nat, 16) + be_bytes(cluster.0 as nat, 16) + match validity_window {
        Some(vw) => validity_json(vw),
        None => Seq::empty(),
    }
}

/// The signed payload: `SHA-256(unit_bytes || context_bytes)`.
pub open spec fn payload_spec(
    unit_bytes: Seq<u8>,
    trust_domain: TrustDomainId,
    cluster: ClusterId,
    validity_window: Option<ValidityWindow>,
) -> Seq<u8> {
    sha256_spec(unit_bytes + context_bytes(trust_domain, cluster, validity_window))
}

fn push_lc_range_json(out: &mut Vec<u8>, r: Option<(LogicalClock, LogicalClock)>)
    ensures final(out)@ == old(out)@ + lc_range_json(r),
{
    match r {
        Some((a, b)) => {
            out.push(91);
            push_decimal_ascii(out, a.0);
            out.push(44);
            push_decimal_ascii(out, b.0);
            out.push(93);
        },
        None => {
            append_bytes(out, "null".as_bytes());
        },
    }
    assert(out@ =~= old(out)@ + lc_range_json(r));
}

fn push_deadline_json(out: &mut Vec<u8>, w: Option<WallTime>)
    ensures final(out)@ == old(out)@ + deadline_json(w),
{
    match w {
        Some(w) => {
            append_bytes(out, "{\"millis\":".as_bytes());
            push_decimal_ascii(out, w.millis);
            out.push(125);
        },
        None => {
            append_bytes(out, "null".as_bytes());
        },
    }
    assert(out@ =~= old(out)@ + deadline_json(w));
}

/// Appends the JSON of a validity window.
fn push_validity_json(out: &mut Vec<u8>, vw: &ValidityWindow)
    ensures final(out)@ == old(out)@ + validity_json(*vw),
{
    append_bytes(out, "{\"lc_range\":".as_bytes());
    push_lc_range_json(out, vw.lc_range);
    append_bytes(out, ",\"wall_time_deadline\":".as_bytes());
    push_deadline_json(out, vw.wall_time_deadline);
    out.push(125);
    assert(out@ =~= old(out)@ + validity_json(*vw));
}

/// Deterministically encodes a signature context into bytes.
pub fn encode_context(
    trust_domain_id: &TrustDomainId,
    cluster_id: &ClusterId,
    validity_window: Option<&ValidityWindow>,
) -> (r: Vec<u8>)
    ensures
        r@ == context_bytes(
            *trust_domain_id,
            *cluster_id,
            match validity_window {
                Some(vw) => Some(*vw),
                None => None,
            },
        ),
{
    let mut bytes: Vec<u8> = Vec::new();
    push_be(&mut bytes, trust_domain_id.0, 16);
    push_be(&mut bytes, cluster_id.0, 16);
    match validity_window {
        Some(vw) => {
            push_validity_json(&mut bytes, vw);
        },
        None => {},
    }
    assert(bytes@ =~= context_bytes(
        *trust_domain_id,
        *cluster_id,
        match validity_window {
            Some(vw) => Some(*vw),
            None => None,
        },
    ));
    bytes
}

/// Computes the deterministic signing payload
/// `SHA-256(unit_bytes || encoded_context)`; signer and verifier compute it
/// from the same arguments.
pub fn signing_payload(
    unit_bytes: &[u8],
    trust_domain: &TrustDomainId,
    cluster: &ClusterId,
    validity_window: Option<&ValidityWindow>,
) -> (r: Vec<u8>)
    ensures
        r@ == payload_spec(
            unit_bytes@,
            *trust_domain,
            *cluster,
            match validity_window {
                Some(vw) => Some(*vw),
                None => None,
            },
        ),
{
    let context = encode_context(trust_domain, cluster, validity_window);
    let mut data: Vec<u8> = Vec::new();
    append_bytes(&mut data, unit_bytes);
    append_bytes(&mut data, context.as_slice());
    let digest = sha256(data.as_slice());
    let mut out: Vec<u8> = Vec::new();
    append_bytes(&mut out, &digest);
    out
}

// ---------------------------------------------------------------------------
// DefaultSigner
// ---------------------------------------------------------------------------

/// Signs units with Ed25519 over the context-bound payload.
pub struct DefaultSigner {
    key_pair: KeyPair,
}

impl DefaultSigner {
    /// The secret seed of the signer's key.
    pub closed spec fn seed(&self) -> Seq<u8> {
        self.key_pair.signing_key_view()
    }

    /// The signer's key pair is consistent.
    pub closed spec fn wf(&self) -> bool {
        self.key_pair.consistent()
    }

    /// The signer's public key.
    pub closed spec fn public_key_view(&self) -> PublicKey {
        self.key_pair.public_key_view()
    }

    /// A well-formed signer's public key is derived from its 32-byte seed
    /// and decodes.
    pub proof fn lemma_wf(&self)
        requires self.wf(),
        ensures
            self.seed().len() == 32,
            self.public_key_view().0@ == ed25519_public_spec(self.seed()),
            ed25519_key_valid(self.public_key_view().0@),
    {
        self.key_pair.lemma_consistent();
    }

    /// Creates a new signer with the given key pair.
    pub fn new(key_pair: KeyPair) -> (r: Self)
        ensures
            r.seed() == key_pair.signing_key_view(),
            r.public_key_view() == key_pair.public_key_view(),
            r.wf() == key_pair.consistent(),
    {
        DefaultSigner { key_pair }
    }

    /// Creates a signer with a freshly generated key pair.
    pub fn generate() -> (r: Self)
        ensures r.wf(),
    {
        DefaultSigner { key_pair: KeyPair::generate() }
    }

    /// Returns the signer's public key.
    pub fn public_key(&self) -> (r: &PublicKey)
        ensures
            *r == self.public_key_view(),
            self.wf() ==> r.0@ == ed25519_public_spec(self.seed()),
    {
        self.key_pair.public_key()
    }

    /// Produces a detached signature over the unit bytes bound to the trust
    /// domain, cluster and validity window. Signing does not fail.
    pub fn sign(
        &self,
        unit_bytes: &[u8],
        trust_domain: &TrustDomainId,
        cluster: &ClusterId,
        validity: &ValidityWindow,
    ) -> (r: Result<Signature, SecurityError>)
        ensures
            r matches Ok(sig) && sig.0@ == ed25519_sign_spec(
                self.seed(),
                payload_spec(unit_bytes@, *trust_domain, *cluster, Some(*validity)),
            ),
    {
        let payload = signing_payload(unit_bytes, trust_domain, cluster, Some(validity));
        self.key_pair.signing_key().sign_raw(payload.as_slice())
    }
}

} // verus!
