//! Identifiers, clocks and fixed-point values shared by every module.
//!
//! Identifiers are 128-bit values (the width of a UUID); clocks and
//! fixed-point values are plain integers.

use vstd::prelude::*;

verus! {

/// Identifier of a unit in the composition graph.
#[derive(Clone, Copy, Debug, PartialEq, Eq, Structural, Hash, PartialOrd, Ord)]
pub struct UnitId(pub u128);

/// Identifier of a cluster node.
#[derive(Clone, Copy, Debug, PartialEq, Eq, Structural, Hash, PartialOrd, Ord)]
pub struct NodeId(pub u128);

/// Identifier of an author (a signing identity).
#[derive(Clone, Copy, Debug, PartialEq, Eq, Structural, Hash, PartialOrd, Ord)]
pub struct AuthorId(pub u128);

/// Identifier of a trust domain.
#[derive(Clone, Copy, Debug, PartialEq, Eq, Structural, Hash, PartialOrd, Ord)]
pub struct TrustDomainId(pub u128);

/// Identifier of a cluster.
#[derive(Clone, Copy, Debug, PartialEq, Eq, Structural, Hash, PartialOrd, Ord)]
pub struct ClusterId(pub u128);

/// Identifier of a key ceremony.
#[derive(Clone, Copy, Debug, PartialEq, Eq, Structural, Hash, PartialOrd, Ord)]
pub struct CeremonyId(pub u128);

/// Identifier of a delegation token.
#[derive(Clone, Copy, Debug, PartialEq, Eq, Structural, Hash, PartialOrd, Ord)]
pub struct DelegationTokenId(pub u128);

/// Logical (Lamport) clock value.
#[derive(Clone, Copy, Debug, PartialEq, Eq, Structural, Hash, PartialOrd, Ord)]
pub struct LogicalClock(pub u64);

/// Version number for ordering successive records of the same subject.
#[derive(Clone, Copy, Debug, PartialEq, Eq, Structural, Hash, PartialOrd, Ord)]
pub struct Version(pub u64);

/// Wall-clock time in milliseconds.
#[derive(Clone, Copy, Debug, PartialEq, Eq, Structural, Hash, PartialOrd, Ord)]
pub struct WallTime {
    /// Milliseconds since the epoch.
    pub millis: u64,
}

/// Validity window of a signature or unit: an optional logical-clock range
/// and an optional wall-clock deadline.
#[derive(Clone, Copy, Debug, PartialEq, Eq)]
pub struct ValidityWindow {
    /// Inclusive logical-clock range.
    pub lc_range: Option<(LogicalClock, LogicalClock)>,
    /// Wall-clock deadline.
    pub wall_time_deadline: Option<WallTime>,
}

/// Event timestamp carrying both clocks.
#[derive(Clone, Debug, PartialEq, Eq)]
pub struct DualClockEvent {
    /// Logical clock for ordering.
    pub logical_clock: LogicalClock,
    /// Wall time for compliance.
    pub wall_time: WallTime,
    /// Time zone name of the wall time.
    pub timezone: String,
}

impl DualClockEvent {
    /// The two timestamps hold the same values.
    pub open spec fn same_as(self, other: DualClockEvent) -> bool {
        self.logical_clock == other.logical_clock && self.wall_time == other.wall_time
            && self.timezone@ == other.timezone@
    }

    /// A copy of this timestamp.
    pub fn copy(&self) -> (r: DualClockEvent)
        ensures r.same_as(*self),
    {
        DualClockEvent {
            logical_clock: self.logical_clock,
            wall_time: self.wall_time,
            timezone: self.timezone.clone(),
        }
    }
}

/// Fixed-point value in parts per million (scale 10^6).
#[derive(Clone, Copy, Debug, PartialEq, Eq, Structural, Hash, PartialOrd, Ord)]
pub struct Ppm(pub u64);

/// The value 10^6, i.e. 1.0.
pub const PPM_ONE: u64 = 1_000_000;

impl Ppm {
    /// Saturating addition.
    pub fn saturating_add(self, other: Ppm) -> (r: Ppm)
        ensures
            r.0 == if self.0 + other.0 > u64::MAX { u64::MAX as int } else { self.0 + other.0 },
    {
        Ppm(self.0.saturating_add(other.0))
    }

    /// Saturating subtraction.
    pub fn saturating_sub(self, other: Ppm) -> (r: Ppm)
        ensures
            r.0 == if self.0 < other.0 { 0 } else { self.0 - other.0 },
    {
        Ppm(self.0.saturating_sub(other.0))
    }
}

/// The lowercase hexadecimal digit for `d < 16`.
pub open spec fn hex_char(d: nat) -> char {
    if d < 10 { ((48 + d) as u8) as char } else { ((87 + d) as u8) as char }
}

/// The last `width` hexadecimal digits of `n`, most significant first.
pub open spec fn hex_fixed(n: nat, width: nat) -> Seq<char>
    decreases width,
{
    if width == 0 {
        Seq::empty()
    } else {
        hex_fixed(n / 16, (width - 1) as nat).push(hex_char(n % 16))
    }
}

/// The hyphenated text of a 128-bit identifier: its 32 hexadecimal digits
/// in groups of 8, 4, 4, 4 and 12.
pub open spec fn id_text(v: u128) -> Seq<char> {
    let h = hex_fixed(v as nat, 32);
    h.subrange(0, 8) + seq!['-'] + h.subrange(8, 12) + seq!['-'] + h.subrange(12, 16) + seq!['-']
        + h.subrange(16, 20) + seq!['-'] + h.subrange(20, 32)
}

/// Renders an identifier as `uuid` does: `Uuid::from_u128(v).to_string()`,
/// which the crate documents as the lowercase hyphenated form of the value's
/// big-endian bytes.
#[verifier::external_body]
pub(crate) fn id_to_text(v: u128) -> (r: String)
    ensures r@ == id_text(v),
{
    uuid::Uuid::from_u128(v).to_string()
}

/// A fresh random identifier: `uuid::Uuid::new_v4()` as a 128-bit value.
/// Nothing is stated of the value: it comes from the operating system's
/// random source.
#[verifier::external_body]
pub(crate) fn random_id() -> (r: u128) {
    uuid::Uuid::new_v4().as_u128()
}

/// The big-endian bytes of the last `w` bytes of `v`.
pub open spec fn be_bytes(v: nat, w: nat) -> Seq<u8>
    decreases w,
{
    if w == 0 {
        Seq::empty()
    } else {
        be_bytes(v / 256, (w - 1) as nat).push((v % 256) as u8)
    }
}

/// Appends the `w` big-endian bytes of `v`.
pub fn push_be(out: &mut Vec<u8>, v: u128, w: usize)
    ensures final(out)@ == old(out)@ + be_bytes(v as nat, w as nat),
    decreases w,
{
    if w > 0 {
        push_be(out, v / 256, w - 1);
        out.push((v % 256) as u8);
        assert(out@ =~= old(out)@ + be_bytes(v as nat, w as nat));
    } else {
        assert(out@ =~= old(out)@ + be_bytes(v as nat, w as nat));
    }
}

} // verus!
