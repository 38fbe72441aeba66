//! SLSA build provenance verification.
//!
//! A trust domain can require a minimum SLSA level for workload units.
//! The verifier checks that the provenance is well formed, meets the
//! level, matches an expected source digest, and, when trusted builders
//! are configured, carries a valid Ed25519 signature of its builder over
//! the JSON payload of its other fields.

use vstd::prelude::*;
use vstd::utf8::encode_utf8;
use crate::security::crypto::{
    SigningKey, ed25519_key_decodes, ed25519_key_valid, ed25519_public_spec, ed25519_sign_spec,
    ed25519_verify, ed25519_verify_spec,
};
use crate::security::error::SecurityError;
use crate::text::{decimal, decimal_ascii, push_decimal, push_decimal_ascii, append_bytes};

verus! {

/// SLSA build provenance attestation for an artifact.
#[derive(Clone, Debug)]
pub struct SlsaProvenance {
    /// The build system that produced the artifact.
    pub builder: String,
    /// Source repository URI.
    pub source_repo: String,
    /// Digest of the source code.
    pub source_digest: String,
    /// SLSA level (1, 2, or 3).
    pub slsa_level: u8,
    /// Build timestamp (wall time millis).
    pub build_timestamp: u64,
    /// Builder signature over the provenance payload.
    pub builder_signature: Vec<u8>,
    /// Additional build parameters.
    pub build_parameters: Vec<(String, String)>,
}

/// Minimum SLSA level required by a trust domain.
#[derive(Clone, Copy, Debug, PartialEq, Eq, PartialOrd, Ord, Default, Hash)]
pub struct MinSlsaLevel(pub u8);

// ---------------------------------------------------------------------------
// Signed payload: compact JSON of the provenance without its signature
// ---------------------------------------------------------------------------

/// Lower-case hexadecimal digit.
pub open spec fn hex_digit(d: u8) -> u8 {
    if d < 10 { (48 + d) as u8 } else { (87 + d) as u8 }
}

/// JSON escape of one byte of a UTF-8 string: quote, backslash and control
/// characters are escaped; every other byte is kept.
pub open spec fn json_escape_byte(b: u8) -> Seq<u8> {
    if b == 34 {
        seq![92u8, 34u8]
    } else if b == 92 {
        seq![92u8, 92u8]
    } else if b == 8 {
        seq![92u8, 98u8]
    } else if b == 9 {
        seq![92u8, 116u8]
    } else if b == 10 {
        seq![92u8, 110u8]
    } else if b == 12 {
        seq![92u8, 102u8]
    } else if b == 13 {
        seq![92u8, 114u8]
    } else if b < 32 {
        seq![92u8, 117u8, 48u8, 48u8, hex_digit(b / 16), hex_digit(b % 16)]
    } else {
        seq![b]
    }
}

/// JSON escape of a byte string.
pub open spec fn json_escape(bs: Seq<u8>) -> Seq<u8>
    decreases bs.len(),
{
    if bs.len() == 0 {
        Seq::empty()
    } else {
        json_escape(bs.drop_last()) + json_escape_byte(bs.last())
    }
}

/// A JSON string literal.
pub open spec fn json_str(s: Seq<char>) -> Seq<u8> {
    seq![34u8] + json_escape(encode_utf8(s)) + seq![34u8]
}

/// A parameter pair as a JSON array of two strings.
pub open spec fn json_pair(pair: (String, String)) -> Seq<u8> {
    seq![91u8] + json_str(pair.0@) + seq![44u8] + json_str(pair.1@) + seq![93u8]
}

/// The comma-separated JSON pairs.
pub open spec fn json_pairs(ps: Seq<(String, String)>) -> Seq<u8>
    decreases ps.len(),
{
    if ps.len() == 0 {
        Seq::empty()
    } else if ps.len() == 1 {
        json_pair(ps[0])
    } else {
        json_pairs(ps.drop_last()) + seq![44u8] + json_pair(ps.last())
    }
}

/// The payload signed by the builder: the compact JSON object of the
/// provenance fields other than the signature, in declaration order.
pub open spec fn payload_bytes(p: SlsaProvenance) -> Seq<u8> {
    encode_utf8("{\"builder\":"@) + json_str(p.builder@) + encode_utf8(",\"source_repo\":"@)
        + json_str(p.source_repo@) + encode_utf8(",\"source_digest\":"@) + json_str(
        p.source_digest@,
    ) + encode_utf8(",\"slsa_level\":"@) + decimal_ascii(p.slsa_level as nat) + encode_utf8(
        ",\"build_timestamp\":"@,
    ) + decimal_ascii(p.build_timestamp as nat) + encode_utf8(",\"build_parameters\":["@)
        + json_pairs(p.build_parameters@) + encode_utf8("]}"@)
}

fn push_escaped_byte(out: &mut Vec<u8>, b: u8)
    ensures final(out)@ == old(out)@ + json_escape_byte(b),
{
    if b == 34 {
        out.push(92);
        out.push(34);
    } else if b == 92 {
        out.push(92);
        out.push(92);
    } else if b == 8 {
        out.push(92);
        out.push(98);
    } else if b == 9 {
        out.push(92);
        out.push(116);
    } else if b == 10 {
        out.push(92);
        out.push(110);
    } else if b == 12 {
        out.push(92);
        out.push(102);
    } else if b == 13 {
        out.push(92);
        out.push(114);
    } else if b < 32 {
        out.push(92);
        out.push(117);
        out.push(48);
        out.push(48);
        let hi = b / 16;
        let lo = b % 16;
        out.push(if hi < 10 { 48 + hi } else { 87 + hi });
        out.push(if lo < 10 { 48 + lo } else { 87 + lo });
    } else {
        out.push(b);
    }
    assert(out@ =~= old(out)@ + json_escape_byte(b));
}

/// Appends the JSON string literal of `s`.
pub fn push_json_str(out: &mut Vec<u8>, s: &str)
    ensures final(out)@ == old(out)@ + json_str(s@),
{
    out.push(34);
    let bs = s.as_bytes();
    let ghost start = out@;
    let mut i: usize = 0;
    while i < bs.len()
        invariant
            i <= bs@.len(),
            bs@ == encode_utf8(s@),
            out@ == start + json_escape(bs@.subrange(0, i as int)),
        decreases bs@.len() - i,
    {
        push_escaped_byte(out, bs[i]);
        assert(bs@.subrange(0, i + 1).drop_last() =~= bs@.subrange(0, i as int));
        i = i + 1;
        assert(out@ =~= start + json_escape(bs@.subrange(0, i as int)));
    }
    assert(bs@.subrange(0, bs@.len() as int) =~= bs@);
    out.push(34);
    assert(out@ =~= old(out)@ + json_str(s@));
}

fn push_json_pair(out: &mut Vec<u8>, pair: &(String, String))
    ensures final(out)@ == old(out)@ + json_pair(*pair),
{
    out.push(91);
    push_json_str(out, pair.0.as_str());
    out.push(44);
    push_json_str(out, pair.1.as_str());
    out.push(93);
    assert(out@ =~= old(out)@ + json_pair(*pair));
}

/// Computes the payload signed by the builder.
pub fn provenance_payload(provenance: &SlsaProvenance) -> (r: Vec<u8>)
    ensures r@ == payload_bytes(*provenance),
{
    let mut out: Vec<u8> = Vec::new();
    append_bytes(&mut out, "{\"builder\":".as_bytes());
    push_json_str(&mut out, provenance.builder.as_str());
    append_bytes(&mut out, ",\"source_repo\":".as_bytes());
    push_json_str(&mut out, provenance.source_repo.as_str());
    append_bytes(&mut out, ",\"source_digest\":".as_bytes());
    push_json_str(&mut out, provenance.source_digest.as_str());
    append_bytes(&mut out, ",\"slsa_level\":".as_bytes());
    push_decimal_ascii(&mut out, provenance.slsa_level as u64);
    append_bytes(&mut out, ",\"build_timestamp\":".as_bytes());
    push_decimal_ascii(&mut out, provenance.build_timestamp);
    append_bytes(&mut out, ",\"build_parameters\":[".as_bytes());
    let ghost before = out@;
    let ps = &provenance.build_parameters;
    let mut i: usize = 0;
    while i < ps.len()
        invariant
            i <= ps@.len(),
            out@ == before + json_pairs(ps@.subrange(0, i as int)),
        decreases ps@.len() - i,
    {
        let ghost prev = out@;
        if i > 0 {
            out.push(44);
        }
        push_json_pair(&mut out, &ps[i]);
        proof {
            let sub = ps@.subrange(0, i + 1);
            assert(sub.drop_last() =~= ps@.subrange(0, i as int));
            if i == 0 {
                assert(ps@.subrange(0, 0) =~= Seq::<(String, String)>::empty());
                assert(out@ =~= before + json_pairs(sub));
            } else {
                assert(out@ =~= before + json_pairs(sub));
            }
        }
        i = i + 1;
    }
    assert(ps@.subrange(0, ps@.len() as int) =~= ps@);
    append_bytes(&mut out, "]}".as_bytes());
    assert(out@ =~= payload_bytes(*provenance));
    out
}

/// Signs a provenance attestation with a builder's signing key: the
/// signature is set to the Ed25519 signature of the payload.
pub fn sign_provenance(provenance: &mut SlsaProvenance, signing_key: &SigningKey) -> (r: Result<(), SecurityError>)
    ensures
        r is Ok,
        final(provenance).builder_signature@ == ed25519_sign_spec(signing_key@, payload_bytes(*old(provenance))),
        final(provenance).builder_signature@.len() == 64,
        final(provenance).builder == old(provenance).builder,
        final(provenance).source_repo == old(provenance).source_repo,
        final(provenance).source_digest == old(provenance).source_digest,
        final(provenance).slsa_level == old(provenance).slsa_level,
        final(provenance).build_timestamp == old(provenance).build_timestamp,
        final(provenance).build_parameters == old(provenance).build_parameters,
{
    let payload = provenance_payload(provenance);
    let signature = match signing_key.sign_raw(payload.as_slice()) {
        Ok(sig) => sig,
        Err(e) => {
            return Err(e);
        },
    };
    let mut bytes: Vec<u8> = Vec::new();
    append_bytes(&mut bytes, signature.0.as_slice());
    provenance.builder_signature = bytes;
    Ok(())
}

// ---------------------------------------------------------------------------
// Verification
// ---------------------------------------------------------------------------

/// What verification concludes.
pub enum ProvenanceOutcome {
    Accept,
    EmptyBuilder,
    EmptySourceRepo,
    EmptySourceDigest,
    LevelTooLow,
    DigestMismatch,
    MissingSignature,
    UntrustedBuilder,
    BadBuilderKey,
    BadSignatureLength,
    SignatureRejected,
}

/// Index of the first trusted builder named `name`, from position `i`.
pub open spec fn find_builder(trusted: Seq<(String, [u8; 32])>, name: Seq<char>, i: int) -> Option<int>
    decreases trusted.len() - i,
{
    if i < 0 || i >= trusted.len() {
        None
    } else if trusted[i].0@ == name {
        Some(i)
    } else {
        find_builder(trusted, name, i + 1)
    }
}

/// The verification outcome, check by check in order.
pub open spec fn provenance_outcome(
    trusted: Seq<(String, [u8; 32])>,
    p: SlsaProvenance,
    min_level: u8,
    expected: Option<Seq<char>>,
) -> ProvenanceOutcome {
    if p.builder@.len() == 0 {
        ProvenanceOutcome::EmptyBuilder
    } else if p.source_repo@.len() == 0 {
        ProvenanceOutcome::EmptySourceRepo
    } else if p.source_digest@.len() == 0 {
        ProvenanceOutcome::EmptySourceDigest
    } else if p.slsa_level < min_level {
        ProvenanceOutcome::LevelTooLow
    } else if expected matches Some(e) && p.source_digest@ != e {
        ProvenanceOutcome::DigestMismatch
    } else if trusted.len() == 0 {
        if p.builder_signature@.len() == 0 && p.slsa_level >= 2 {
            ProvenanceOutcome::MissingSignature
        } else {
            ProvenanceOutcome::Accept
        }
    } else {
        match find_builder(trusted, p.builder@, 0) {
            None => ProvenanceOutcome::UntrustedBuilder,
            Some(i) => {
                let key = trusted[i].1@;
                if !ed25519_key_valid(key) {
                    ProvenanceOutcome::BadBuilderKey
                } else if p.builder_signature@.len() != 64 {
                    ProvenanceOutcome::BadSignatureLength
                } else if !ed25519_verify_spec(key, payload_bytes(p), p.builder_signature@) {
                    ProvenanceOutcome::SignatureRejected
                } else {
                    ProvenanceOutcome::Accept
                }
            },
        }
    }
}

/// The error reported for each refusal.
pub open spec fn provenance_error(outcome: ProvenanceOutcome, p: SlsaProvenance, min_level: u8, expected: Option<Seq<char>>, e: SecurityError) -> bool {
    match outcome {
        ProvenanceOutcome::Accept => false,
        ProvenanceOutcome::EmptyBuilder => e matches SecurityError::KeyError { reason } && reason@ == "provenance: builder is empty"@,
        ProvenanceOutcome::EmptySourceRepo => e matches SecurityError::KeyError { reason } && reason@ == "provenance: source_repo is empty"@,
        ProvenanceOutcome::EmptySourceDigest => e matches SecurityError::KeyError { reason } && reason@ == "provenance: source_digest is empty"@,
        ProvenanceOutcome::LevelTooLow => e matches SecurityError::CapabilityDenied { capability, reason } && capability@ == "build_provenance"@
            && reason@ == "SLSA level "@ + decimal(p.slsa_level as nat) + " is below minimum required level "@ + decimal(min_level as nat),
        ProvenanceOutcome::DigestMismatch => e matches SecurityError::InvalidSignature { reason }
            && reason@ == "source digest mismatch: expected "@ + expected.unwrap() + ", got "@ + p.source_digest@,
        ProvenanceOutcome::MissingSignature => e matches SecurityError::InvalidSignature { reason }
            && reason@ == "SLSA level "@ + decimal(p.slsa_level as nat) + " requires a non-empty builder signature, but the signature is empty"@,
        ProvenanceOutcome::UntrustedBuilder => e matches SecurityError::InvalidSignature { reason }
            && reason@ == "builder '"@ + p.builder@ + "' is not in the trusted builders list"@,
        ProvenanceOutcome::BadBuilderKey => e matches SecurityError::InvalidSignature { reason }
            && "invalid builder public key: "@.is_prefix_of(reason@),
        ProvenanceOutcome::BadSignatureLength => e matches SecurityError::InvalidSignature { reason }
            && reason@ == "builder signature has wrong length (expected 64 bytes)"@,
        ProvenanceOutcome::SignatureRejected => e matches SecurityError::InvalidSignature { reason }
            && "builder signature verification failed: "@.is_prefix_of(reason@),
    }
}

/// The signature of `p` is the signature of its payload by `seed`, whose
/// public key is the key of the first trusted builder named like `p`'s
/// builder.
pub open spec fn builder_signed(trusted: Seq<(String, [u8; 32])>, p: SlsaProvenance, seed: Seq<u8>) -> bool {
    &&& find_builder(trusted, p.builder@, 0) matches Some(i)
    &&& trusted[i].1@ == ed25519_public_spec(seed)
    &&& p.builder_signature@ == ed25519_sign_spec(seed, payload_bytes(p))
}

/// Default provenance verifier: structural checks, SLSA level, source
/// digest, and builder signatures for configured trusted builders.
#[derive(Clone, Debug, Default)]
pub struct DefaultProvenanceVerifier {
    /// Trusted builders (builder name and public key). If empty, builder
    /// signatures are not checked (progressive disclosure for level 1).
    trusted_builders: Vec<(String, [u8; 32])>,
}

impl DefaultProvenanceVerifier {
    /// The trusted builders, in insertion order.
    pub closed spec fn trusted(&self) -> Seq<(String, [u8; 32])> {
        self.trusted_builders@
    }

    /// Creates a new verifier with no trusted builders.
    pub fn new() -> (r: Self)
        ensures r.trusted() == Seq::<(String, [u8; 32])>::empty(),
    {
        DefaultProvenanceVerifier { trusted_builders: Vec::new() }
    }

    /// Adds a trusted builder with its public key.
    pub fn with_trusted_builder(self, builder: &str, public_key: [u8; 32]) -> (r: Self)
        ensures
            r.trusted().len() == self.trusted().len() + 1,
            r.trusted().drop_last() == self.trusted(),
            r.trusted().last().0@ == builder@,
            r.trusted().last().1 == public_key,
    {
        let mut s = self;
        s.trusted_builders.push((builder.to_string(), public_key));
        assert(s.trusted_builders@.drop_last() =~= self.trusted_builders@);
        s
    }

    /// Verifies a single SLSA provenance attestation.
    pub fn verify(&self, provenance: &SlsaProvenance, min_level: MinSlsaLevel, expected_digest: Option<&str>) -> (r: Result<(), SecurityError>)
        ensures ({
            let expected = match expected_digest { Some(e) => Some(e@), None => None };
            let outcome = provenance_outcome(self.trusted(), *provenance, min_level.0, expected);
            &&& (r is Ok <==> outcome is Accept)
            &&& (r matches Err(e) ==> provenance_error(outcome, *provenance, min_level.0, expected, e))
            // A provenance signed with the seed of its trusted builder's key
            // passes the signature check.
            &&& ((exists|seed: Seq<u8>| seed.len() == 32 && #[trigger] builder_signed(self.trusted(), *provenance, seed))
                && provenance.builder_signature@.len() == 64
                && provenance_outcome(Seq::empty(), *provenance, min_level.0, expected) is Accept ==> r is Ok)
        }),
    {
        let ghost expected = match expected_digest { Some(e) => Some(e@), None => None };
        if provenance.builder.as_str().is_empty() {
            return Err(SecurityError::KeyError { reason: "provenance: builder is empty".to_string() });
        }
        if provenance.source_repo.as_str().is_empty() {
            return Err(SecurityError::KeyError { reason: "provenance: source_repo is empty".to_string() });
        }
        if provenance.source_digest.as_str().is_empty() {
            return Err(SecurityError::KeyError { reason: "provenance: source_digest is empty".to_string() });
        }
        if provenance.slsa_level < min_level.0 {
            let mut reason = String::from_str("SLSA level ");
            push_decimal(&mut reason, provenance.slsa_level as u64);
            reason.append(" is below minimum required level ");
            push_decimal(&mut reason, min_level.0 as u64);
            return Err(SecurityError::CapabilityDenied { capability: "build_provenance".to_string(), reason });
        }
        if let Some(expected_str) = expected_digest {
            let e = expected_str.to_string();
            if !(provenance.source_digest == e) {
                let mut reason = String::from_str("source digest mismatch: expected ");
                reason.append(expected_str);
                reason.append(", got ");
                reason.append(provenance.source_digest.as_str());
                return Err(SecurityError::InvalidSignature { reason });
            }
        }
        if self.trusted_builders.len() == 0 {
            if provenance.builder_signature.len() == 0 && provenance.slsa_level >= 2 {
                let mut reason = String::from_str("SLSA level ");
                push_decimal(&mut reason, provenance.slsa_level as u64);
                reason.append(" requires a non-empty builder signature, but the signature is empty");
                return Err(SecurityError::InvalidSignature { reason });
            }
            return Ok(());
        }
        let mut i: usize = 0;
        let mut found: Option<usize> = None;
        while i < self.trusted_builders.len()
            invariant_except_break
                found is None,
            invariant
                i <= self.trusted_builders@.len(),
                find_builder(self.trusted_builders@, provenance.builder@, 0) == find_builder(self.trusted_builders@, provenance.builder@, i as int),
            ensures
                found matches Some(k) ==> k < self.trusted_builders@.len() && find_builder(self.trusted_builders@, provenance.builder@, 0) == Some(k as int),
                found is None ==> find_builder(self.trusted_builders@, provenance.builder@, 0) is None,
            decreases self.trusted_builders@.len() - i,
        {
            if self.trusted_builders[i].0 == provenance.builder {
                found = Some(i);
                break;
            }
            i = i + 1;
        }
        let idx = match found {
            Some(idx) => idx,
            None => {
                let mut reason = String::from_str("builder '");
                reason.append(provenance.builder.as_str());
                reason.append("' is not in the trusted builders list");
                return Err(SecurityError::InvalidSignature { reason });
            },
        };
        let key = self.trusted_builders[idx].1;
        match ed25519_key_decodes(&key) {
            Ok(()) => {},
            Err(msg) => {
                let mut reason = String::from_str("invalid builder public key: ");
                reason.append(msg.as_str());
                return Err(SecurityError::InvalidSignature { reason });
            },
        }
        let payload = provenance_payload(provenance);
        if provenance.builder_signature.len() != 64 {
            return Err(SecurityError::InvalidSignature { reason: "builder signature has wrong length (expected 64 bytes)".to_string() });
        }
        let mut sig_bytes = [0u8; 64];
        let mut j: usize = 0;
        while j < 64
            invariant
                j <= 64,
                provenance.builder_signature@.len() == 64,
                sig_bytes@.len() == 64,
                forall|l: int| 0 <= l < j ==> sig_bytes@[l] == provenance.builder_signature@[l],
            decreases 64 - j,
        {
            sig_bytes.set(j, provenance.builder_signature[j]);
            j = j + 1;
        }
        assert(sig_bytes@ =~= provenance.builder_signature@);
        match ed25519_verify(&key, payload.as_slice(), &sig_bytes) {
            Ok(()) => Ok(()),
            Err(msg) => {
                let mut reason = String::from_str("builder signature verification failed: ");
                reason.append(msg.as_str());
                Err(SecurityError::InvalidSignature { reason })
            },
        }
    }
}

} // verus!
