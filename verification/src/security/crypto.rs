//! Ed25519 keys, signatures and key identifiers.
//!
//! Keys are held as plain bytes: a signing key is its 32-byte seed, a
//! verifying key is its 32-byte compressed point. Every Ed25519 and
//! SHA-256 computation is made by `ed25519_dalek` and `sha2` through the
//! wrappers below. [`KeyId`] is the SHA-256 hash of the public key bytes.

use vstd::prelude::*;
use crate::security::error::SecurityError;

verus! {

// ---------------------------------------------------------------------------
// Outside computations
// ---------------------------------------------------------------------------

/// The SHA-256 digest of `data`, as computed by `sha2::Sha256`.
pub uninterp spec fn sha256_spec(data: Seq<u8>) -> Seq<u8>;

/// The Ed25519 public key (compressed point) of a 32-byte secret seed.
pub uninterp spec fn ed25519_public_spec(seed: Seq<u8>) -> Seq<u8>;

/// The Ed25519 signature of `msg` under the 32-byte secret seed.
pub uninterp spec fn ed25519_sign_spec(seed: Seq<u8>, msg: Seq<u8>) -> Seq<u8>;

/// The 32 bytes decompress to a curve point (a usable verifying key).
pub uninterp spec fn ed25519_key_valid(public_key: Seq<u8>) -> bool;

/// `sig` is a valid Ed25519 signature of `msg` under the public key.
pub uninterp spec fn ed25519_verify_spec(public_key: Seq<u8>, msg: Seq<u8>, sig: Seq<u8>) -> bool;

/// Wraps `sha2::Sha256::digest`: the result is the digest of `data`
/// (named, not stated).
#[verifier::external_body]
pub(crate) fn sha256(data: &[u8]) -> (r: [u8; 32])
    ensures r@ == sha256_spec(data@),
{
    let digest = <sha2::Sha256 as sha2::Digest>::digest(data);
    let mut out = [0u8; 32];
    out.copy_from_slice(digest.as_slice());
    out
}

/// Wraps `ed25519_dalek::SigningKey::from_bytes(..).verifying_key().to_bytes()`:
/// the public key of a seed (named). Such a key always decodes: dalek
/// compresses the point it derived.
#[verifier::external_body]
fn ed25519_public(seed: &[u8; 32]) -> (r: [u8; 32])
    ensures
        r@ == ed25519_public_spec(seed@),
        ed25519_key_valid(r@),
{
    ed25519_dalek::SigningKey::from_bytes(seed).verifying_key().to_bytes()
}

/// Wraps `ed25519_dalek::Signer::sign` for the key built from the seed: the
/// signature of `msg` (named). Ed25519 signing is deterministic and dalek's
/// `try_sign` for a signing key never fails.
#[verifier::external_body]
fn ed25519_sign(seed: &[u8; 32], msg: &[u8]) -> (r: [u8; 64])
    ensures r@ == ed25519_sign_spec(seed@, msg@),
{
    ed25519_dalek::Signer::sign(&ed25519_dalek::SigningKey::from_bytes(seed), msg).to_bytes()
}

/// Wraps `ed25519_dalek::VerifyingKey::from_bytes`: `Ok` exactly when the
/// bytes decompress to a point (named); the public key of a seed always
/// does. The error text is dalek's and is not stated.
#[verifier::external_body]
pub(crate) fn ed25519_key_decodes(public_key: &[u8; 32]) -> (r: Result<(), String>)
    ensures
        r is Ok <==> ed25519_key_valid(public_key@),
        (exists|seed: Seq<u8>| seed.len() == 32 && public_key@ == ed25519_public_spec(seed)) ==> r is Ok,
{
    match ed25519_dalek::VerifyingKey::from_bytes(public_key) {
        Ok(_) => Ok(()),
        Err(e) => Err(e.to_string()),
    }
}

/// Wraps `ed25519_dalek::Verifier::verify` for a decodable key: `Ok` exactly
/// when the signature verifies (named). A signature made with a seed
/// verifies under that seed's public key (Ed25519 correctness). The error
/// text is dalek's and is not stated.
#[verifier::external_body]
pub(crate) fn ed25519_verify(public_key: &[u8; 32], msg: &[u8], sig: &[u8; 64]) -> (r: Result<(), String>)
    requires ed25519_key_valid(public_key@),
    ensures
        r is Ok <==> ed25519_verify_spec(public_key@, msg@, sig@),
        (exists|seed: Seq<u8>|
            seed.len() == 32 && public_key@ == ed25519_public_spec(seed) && sig@
                == ed25519_sign_spec(seed, msg@)) ==> r is Ok,
{
    match ed25519_dalek::VerifyingKey::from_bytes(public_key) {
        Ok(vk) => match ed25519_dalek::Verifier::verify(&vk, msg, &ed25519_dalek::Signature::from_bytes(sig)) {
            Ok(()) => Ok(()),
            Err(e) => Err(e.to_string()),
        },
        Err(e) => Err(e.to_string()),
    }
}

/// Wraps `rand::rngs::OsRng` filling 32 bytes: a fresh secret seed. Nothing
/// is stated of the bytes drawn.
#[verifier::external_body]
fn os_random_seed() -> [u8; 32] {
    let mut seed = [0u8; 32];
    rand::RngCore::fill_bytes(&mut rand::rngs::OsRng, &mut seed);
    seed
}

// ---------------------------------------------------------------------------
// PublicKey
// ---------------------------------------------------------------------------

/// Ed25519 public key (32 bytes).
#[derive(Clone, Copy, Debug, PartialEq, Eq, Hash)]
pub struct PublicKey(pub [u8; 32]);

impl PublicKey {
    /// Creates a public key from raw bytes.
    pub fn from_bytes(bytes: [u8; 32]) -> (r: Self)
        ensures r.0 == bytes,
    {
        PublicKey(bytes)
    }

    /// Returns the raw 32 bytes of this public key.
    pub fn as_bytes(&self) -> (r: &[u8; 32])
        ensures *r == self.0,
    {
        &self.0
    }

    /// Converts this public key to a [`VerifyingKey`]; `None` when the bytes
    /// do not decompress to a curve point.
    pub fn to_verifying_key(&self) -> (r: Option<VerifyingKey>)
        ensures
            r is Some <==> ed25519_key_valid(self.0@),
            r matches Some(vk) ==> vk@ == self.0@,
            (exists|seed: Seq<u8>| seed.len() == 32 && self.0@ == ed25519_public_spec(seed)) ==> r is Some,
    {
        VerifyingKey::from_public_key(self)
    }
}

// ---------------------------------------------------------------------------
// Signature
// ---------------------------------------------------------------------------

/// Ed25519 signature (64 bytes).
#[derive(Clone, Copy, Debug, PartialEq, Eq, Hash)]
pub struct Signature(pub [u8; 64]);

impl Signature {
    /// Creates a signature from raw bytes.
    pub fn from_bytes(bytes: [u8; 64]) -> (r: Self)
        ensures r.0 == bytes,
    {
        Signature(bytes)
    }

    /// Returns the raw 64 bytes of this signature.
    pub fn as_bytes(&self) -> (r: &[u8; 64])
        ensures *r == self.0,
    {
        &self.0
    }
}

// ---------------------------------------------------------------------------
// KeyId
// ---------------------------------------------------------------------------

/// SHA-256 hash of a public key, used as a stable key identifier.
#[derive(Clone, Copy, Debug, PartialEq, Eq, Hash, PartialOrd, Ord)]
pub struct KeyId(pub [u8; 32]);

impl KeyId {
    /// Computes the key identifier of a public key: the SHA-256 hash of its
    /// bytes.
    pub fn from_public_key(pk: &PublicKey) -> (r: Self)
        ensures r.0@ == sha256_spec(pk.0@),
    {
        KeyId(sha256(pk.as_bytes()))
    }

    /// Returns the raw 32 bytes of this key ID.
    pub fn as_bytes(&self) -> (r: &[u8; 32])
        ensures *r == self.0,
    {
        &self.0
    }
}

// ---------------------------------------------------------------------------
// SigningKey
// ---------------------------------------------------------------------------

/// Ed25519 signing key: the 32-byte secret seed. Intentionally not `Clone`.
pub struct SigningKey {
    seed: [u8; 32],
}

impl View for SigningKey {
    type V = Seq<u8>;

    closed spec fn view(&self) -> Seq<u8> {
        self.seed@
    }
}

impl SigningKey {
    /// The public key of this signing key.
    pub fn public_key(&self) -> (r: PublicKey)
        ensures
            r.0@ == ed25519_public_spec(self@),
            ed25519_key_valid(r.0@),
    {
        PublicKey(ed25519_public(&self.seed))
    }

    /// Signs a raw message with Ed25519. The caller binds the context
    /// (trust domain, cluster, validity window) into the message.
    pub fn sign_raw(&self, message: &[u8]) -> (r: Result<Signature, SecurityError>)
        ensures r matches Ok(sig) && sig.0@ == ed25519_sign_spec(self@, message@),
    {
        Ok(Signature(ed25519_sign(&self.seed, message)))
    }

    /// Returns the raw 32 bytes of this signing key.
    pub fn to_bytes(&self) -> (r: [u8; 32])
        ensures r@ == self@,
    {
        self.seed
    }

    /// Creates a signing key from its raw 32 bytes.
    pub fn from_bytes(bytes: &[u8; 32]) -> (r: Self)
        ensures r@ == bytes@,
    {
        SigningKey { seed: *bytes }
    }
}

// ---------------------------------------------------------------------------
// VerifyingKey
// ---------------------------------------------------------------------------

/// Ed25519 verifying key: 32 bytes that decompress to a curve point.
#[derive(Clone, Copy, Debug, PartialEq, Eq, Hash)]
pub struct VerifyingKey {
    bytes: [u8; 32],
}

impl View for VerifyingKey {
    type V = Seq<u8>;

    closed spec fn view(&self) -> Seq<u8> {
        self.bytes@
    }
}

impl VerifyingKey {
    #[verifier::type_invariant]
    spec fn decodes(self) -> bool {
        ed25519_key_valid(self.bytes@)
    }

    /// Creates a verifying key from a [`PublicKey`]; `None` when the bytes do
    /// not decompress to a curve point.
    pub fn from_public_key(pk: &PublicKey) -> (r: Option<Self>)
        ensures
            r is Some <==> ed25519_key_valid(pk.0@),
            r matches Some(vk) ==> vk@ == pk.0@,
            (exists|seed: Seq<u8>| seed.len() == 32 && pk.0@ == ed25519_public_spec(seed)) ==> r is Some,
    {
        if ed25519_key_decodes(&pk.0).is_ok() {
            Some(VerifyingKey { bytes: pk.0 })
        } else {
            None
        }
    }

    /// Converts this verifying key back to a [`PublicKey`].
    pub fn to_public_key(&self) -> (r: PublicKey)
        ensures r.0@ == self@, ed25519_key_valid(r.0@),
    {
        proof {
            use_type_invariant(self);
        }
        PublicKey(self.bytes)
    }

    /// Verifies a raw signature against this key.
    pub fn verify_raw(&self, message: &[u8], signature: &Signature) -> (r: Result<(), SecurityError>)
        ensures
            r is Ok <==> ed25519_verify_spec(self@, message@, signature.0@),
            r matches Err(e) ==> e is InvalidSignature,
            (exists|seed: Seq<u8>|
                seed.len() == 32 && self@ == ed25519_public_spec(seed) && signature.0@
                    == ed25519_sign_spec(seed, message@)) ==> r is Ok,
    {
        proof {
            use_type_invariant(self);
        }
        match ed25519_verify(&self.bytes, message, &signature.0) {
            Ok(()) => Ok(()),
            Err(reason) => Err(SecurityError::InvalidSignature { reason }),
        }
    }
}

// ---------------------------------------------------------------------------
// KeyPair
// ---------------------------------------------------------------------------

/// Ed25519 key pair. Intentionally not `Clone`.
pub struct KeyPair {
    /// The public key (32 bytes, Ed25519).
    pub public_key: PublicKey,
    signing_key: SigningKey,
}

impl KeyPair {
    /// The public key is the one derived from the signing key.
    pub closed spec fn consistent(&self) -> bool {
        &&& self.public_key.0@ == ed25519_public_spec(self.signing_key_view())
        &&& ed25519_key_valid(self.public_key.0@)
        &&& self.signing_key_view().len() == 32
    }

    /// The public key field.
    pub closed spec fn public_key_view(&self) -> PublicKey {
        self.public_key
    }

    /// The seed of the signing key.
    pub closed spec fn signing_key_view(&self) -> Seq<u8> {
        self.signing_key@
    }

    /// What a consistent key pair holds.
    pub proof fn lemma_consistent(&self)
        requires self.consistent(),
        ensures
            self.public_key_view().0@ == ed25519_public_spec(self.signing_key_view()),
            ed25519_key_valid(self.public_key_view().0@),
            self.signing_key_view().len() == 32,
    {
    }

    /// Generates a new key pair from the operating system's CSPRNG.
    pub fn generate() -> (r: Self)
        ensures r.consistent(),
    {
        let seed = os_random_seed();
        let signing_key = SigningKey { seed };
        let public_key = signing_key.public_key();
        KeyPair { public_key, signing_key }
    }

    /// Returns a reference to the public key.
    pub fn public_key(&self) -> (r: &PublicKey)
        ensures
            *r == self.public_key_view(),
            self.consistent() ==> r.0@ == ed25519_public_spec(self.signing_key_view())
                && ed25519_key_valid(r.0@) && self.signing_key_view().len() == 32,
    {
        &self.public_key
    }

    /// Returns a reference to the private signing key.
    pub fn signing_key(&self) -> (r: &SigningKey)
        ensures r@ == self.signing_key_view(),
    {
        &self.signing_key
    }

    /// Creates a key pair from an existing signing key; the public key is
    /// derived from it.
    pub fn from_signing_key(signing_key: SigningKey) -> (r: Self)
        ensures r.consistent(), r.signing_key_view() == signing_key@,
    {
        let public_key = signing_key.public_key();
        KeyPair { public_key, signing_key }
    }
}

/// A signature made with a signing key verifies under its public key.
pub proof fn lemma_sign_then_verify(seed: Seq<u8>, msg: Seq<u8>, public_key: Seq<u8>, sig: Seq<u8>)
    requires
        seed.len() == 32,
        public_key == ed25519_public_spec(seed),
        sig == ed25519_sign_spec(seed, msg),
    ensures
        exists|s: Seq<u8>| s.len() == 32 && public_key == ed25519_public_spec(s) && sig == ed25519_sign_spec(s, msg),
{
}

} // verus!
