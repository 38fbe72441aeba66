//! Platform attestation: the software attestation provider.
//!
//! Software attestation hashes the running binary together with the
//! operating system and architecture names and a caller nonce. It is
//! weaker than TPM attestation: the "signature" is the quote itself.

use vstd::prelude::*;
use vstd::utf8::encode_utf8;
use crate::common::NodeId;
use crate::security::crypto::{sha256, sha256_spec};
use crate::security::error::SecurityError;
use crate::text::{append_bytes, bytes_equal};

verus! {

/// Type of attestation provider used.
#[derive(Clone, Copy, Debug, PartialEq, Eq, Structural, Hash)]
#[non_exhaustive]
pub enum AttestationProvider {
    /// TPM 2.0 hardware attestation.
    Tpm,
    /// Software-based attestation (dev/test only).
    Software,
}

/// Result of a platform attestation.
#[derive(Clone, Debug)]
pub struct AttestationResult {
    /// The node being attested.
    pub node_id: NodeId,
    /// Hash of the running binary (SHA-256).
    pub binary_hash: [u8; 32],
    /// Operating system identifier.
    pub os: String,
    /// Architecture identifier.
    pub arch: String,
    /// The attestation quote.
    pub quote: Vec<u8>,
    /// Signature over the quote.
    pub signature: Vec<u8>,
    /// Attestation provider type.
    pub provider: AttestationProvider,
}

impl AttestationResult {
    /// The two results hold the same values.
    pub open spec fn same_as(self, other: AttestationResult) -> bool {
        &&& self.node_id == other.node_id
        &&& self.binary_hash == other.binary_hash
        &&& self.os@ == other.os@
        &&& self.arch@ == other.arch@
        &&& self.quote@ == other.quote@
        &&& self.signature@ == other.signature@
        &&& self.provider == other.provider
    }

    /// A copy of this attestation result.
    pub fn copy(&self) -> (r: AttestationResult)
        ensures r.same_as(*self),
    {
        AttestationResult {
            node_id: self.node_id,
            binary_hash: self.binary_hash,
            os: self.os.clone(),
            arch: self.arch.clone(),
            quote: self.quote.clone(),
            signature: self.signature.clone(),
            provider: self.provider,
        }
    }
}

/// The software quote: SHA-256 of `binary_hash || os || arch || nonce`.
pub open spec fn software_quote(binary_hash: Seq<u8>, os: Seq<char>, arch: Seq<char>, nonce: Seq<u8>) -> Seq<u8> {
    sha256_spec(binary_hash + encode_utf8(os) + encode_utf8(arch) + nonce)
}

/// The binary hash used without an override: SHA-256 of the tag
/// `taba-node-binary` followed by the nonce.
pub open spec fn default_binary_hash(nonce: Seq<u8>) -> Seq<u8> {
    sha256_spec(encode_utf8("taba-node-binary"@) + nonce)
}

/// A platform attestation provider. Software attestation is the one in
/// this library; a hardware provider (such as a TPM) implements the same
/// interface.
pub trait AttestationProviderTrait {
    /// The kind of provider.
    spec fn kind(&self) -> AttestationProvider;

    /// Performs attestation of `node_id` with the caller's nonce on the
    /// platform named by `os` and `arch`; the nonce goes into the quote so
    /// that a verifier can refuse a replay. A result attests the node it
    /// was asked for and names this provider.
    fn attest(&self, node_id: &NodeId, nonce: &[u8], os: &str, arch: &str) -> (r: Result<AttestationResult, SecurityError>)
        ensures
            r matches Ok(res) ==> res.node_id == *node_id && res.provider == self.kind();

    /// The type of this attestation provider.
    fn provider_type(&self) -> (r: AttestationProvider)
        ensures
            r == self.kind();
}

/// Software-based attestation provider (dev/test only).
#[derive(Clone, Debug, Default)]
pub struct SoftwareAttestation {
    /// Optional override for the binary hash (for testing).
    binary_hash_override: Option<[u8; 32]>,
}

impl SoftwareAttestation {
    /// The binary hash override, if any.
    pub closed spec fn override_view(&self) -> Option<[u8; 32]> {
        self.binary_hash_override
    }

    /// Creates a new software attestation provider.
    pub fn new() -> (r: Self)
        ensures r.override_view() is None,
    {
        SoftwareAttestation { binary_hash_override: None }
    }

    /// Creates a software attestation with a specific binary hash (for
    /// testing only).
    pub fn with_binary_hash(hash: [u8; 32]) -> (r: Self)
        ensures r.override_view() == Some(hash),
    {
        SoftwareAttestation { binary_hash_override: Some(hash) }
    }

    /// Performs a software attestation with the given nonce on the platform
    /// named by `os` and `arch`.
    pub fn attest(&self, node_id: &NodeId, nonce: &[u8], os: &str, arch: &str) -> (r: Result<AttestationResult, SecurityError>)
        ensures
            r matches Ok(res) && {
                &&& res.node_id == *node_id
                &&& res.binary_hash@ == match self.override_view() {
                    Some(h) => h@,
                    None => default_binary_hash(nonce@),
                }
                &&& res.os@ == os@
                &&& res.arch@ == arch@
                &&& res.quote@ == software_quote(res.binary_hash@, os@, arch@, nonce@)
                &&& res.signature@ == res.quote@
                &&& res.provider == AttestationProvider::Software
            },
    {
        let binary_hash = match self.binary_hash_override {
            Some(h) => h,
            None => {
                let mut data: Vec<u8> = Vec::new();
                append_bytes(&mut data, "taba-node-binary".as_bytes());
                append_bytes(&mut data, nonce);
                sha256(data.as_slice())
            },
        };
        let quote = software_quote_bytes(&binary_hash, os, arch, nonce);
        let signature = quote.clone();
        Ok(AttestationResult {
            node_id: *node_id,
            binary_hash,
            os: os.to_string(),
            arch: arch.to_string(),
            quote,
            signature,
            provider: AttestationProvider::Software,
        })
    }

    /// The type of this attestation provider.
    pub fn provider_type(&self) -> (r: AttestationProvider)
        ensures r == AttestationProvider::Software,
    {
        AttestationProvider::Software
    }
}

impl AttestationProviderTrait for SoftwareAttestation {
    open spec fn kind(&self) -> AttestationProvider {
        AttestationProvider::Software
    }

    fn attest(&self, node_id: &NodeId, nonce: &[u8], os: &str, arch: &str) -> (r: Result<AttestationResult, SecurityError>) {
        SoftwareAttestation::attest(self, node_id, nonce, os, arch)
    }

    fn provider_type(&self) -> (r: AttestationProvider) {
        SoftwareAttestation::provider_type(self)
    }
}

/// Computes the software quote.
fn software_quote_bytes(binary_hash: &[u8; 32], os: &str, arch: &str, nonce: &[u8]) -> (r: Vec<u8>)
    ensures r@ == software_quote(binary_hash@, os@, arch@, nonce@),
{
    let mut data: Vec<u8> = Vec::new();
    append_bytes(&mut data, binary_hash.as_slice());
    append_bytes(&mut data, os.as_bytes());
    append_bytes(&mut data, arch.as_bytes());
    append_bytes(&mut data, nonce);
    assert(data@ =~= binary_hash@ + encode_utf8(os@) + encode_utf8(arch@) + nonce@);
    let digest = sha256(data.as_slice());
    let mut out: Vec<u8> = Vec::new();
    append_bytes(&mut out, digest.as_slice());
    assert(out@ =~= digest@);
    out
}

/// Verifies a software attestation result: the quote must be the software
/// quote of the result's fields and the expected nonce, and the signature
/// must equal the quote.
pub fn verify_software_attestation(result: &AttestationResult, expected_nonce: &[u8]) -> (r: Result<(), SecurityError>)
    ensures
        match r {
            Ok(()) => result.quote@ == software_quote(result.binary_hash@, result.os@, result.arch@, expected_nonce@)
                && result.signature@ == result.quote@,
            Err(SecurityError::InvalidSignature { reason }) => {
                if result.quote@ != software_quote(result.binary_hash@, result.os@, result.arch@, expected_nonce@) {
                    reason@ == "attestation quote does not match expected value"@
                } else {
                    result.signature@ != result.quote@ && reason@ == "attestation signature does not match quote"@
                }
            },
            Err(_) => false,
        },
{
    let expected = software_quote_bytes(&result.binary_hash, result.os.as_str(), result.arch.as_str(), expected_nonce);
    if !bytes_equal(result.quote.as_slice(), expected.as_slice()) {
        return Err(SecurityError::InvalidSignature { reason: "attestation quote does not match expected value".to_string() });
    }
    if !bytes_equal(result.signature.as_slice(), result.quote.as_slice()) {
        return Err(SecurityError::InvalidSignature { reason: "attestation signature does not match quote".to_string() });
    }
    Ok(())
}

} // verus!
