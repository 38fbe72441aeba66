//! Shamir secret sharing over GF(2^8).
//!
//! A secret is split into `n` shares such that any `k` of them
//! reconstruct it: each byte of the secret is the constant term of a
//! polynomial of degree `k - 1` whose other coefficients are random, and
//! share `i` holds the values of these polynomials at `x = i`.
//! Reconstruction is Lagrange interpolation at `x = 0`.

use vstd::prelude::*;
use crate::security::error::SecurityError;
use crate::security::gf256::{peval, lag_den, lag_num, lagrange_at_zero, lagrange_defined, lemma_no_zero_divisors, lemma_xor, poly_eval, lagrange_interpolate_at_zero};
use crate::text::{decimal, push_decimal};
use crate::security::interpolation::{distinct, xs_of, lemma_lagrange_recovers};

verus! {

#[verifier::external_type_specification]
#[verifier::external_body]
pub struct ExThreadRng(rand::rngs::ThreadRng);

/// Wraps `rand::thread_rng`: a handle to the thread-local CSPRNG.
#[verifier::external_body]
fn thread_rng() -> rand::rngs::ThreadRng {
    rand::thread_rng()
}

/// Wraps `RngCore::fill_bytes`: overwrites every byte of `dest` with random
/// bytes. Nothing is stated of the bytes drawn; only that the length is kept.
#[verifier::external_body]
fn fill_bytes(rng: &mut rand::rngs::ThreadRng, dest: &mut Vec<u8>)
    ensures final(dest)@.len() == old(dest)@.len(),
{
    rand::RngCore::fill_bytes(rng, dest.as_mut_slice())
}

/// A single Shamir share: the x-coordinate `index` and, per secret byte,
/// the y-coordinate `f(index)`.
#[derive(Clone, Debug, PartialEq, Eq)]
pub struct Share {
    /// X-coordinate (1-based, 1..=255).
    pub index: u8,
    /// Y-coordinates, one per secret byte.
    pub value: Vec<u8>,
}

/// The share lies, in every byte position, on the corresponding polynomial.
pub open spec fn share_on_polys(s: Share, polys: Seq<Seq<u8>>) -> bool {
    &&& s.value@.len() == polys.len()
    &&& forall|b: int| 0 <= b < polys.len() ==> #[trigger] s.value@[b] == peval(polys[b], s.index)
}

/// `polys` are sharing polynomials of `secret` with `k` coefficients each:
/// polynomial `b` has the secret byte `b` as constant term.
pub open spec fn sharing_polys(secret: Seq<u8>, k: nat, polys: Seq<Seq<u8>>) -> bool {
    &&& polys.len() == secret.len()
    &&& forall|b: int| 0 <= b < polys.len() ==> (#[trigger] polys[b]).len() == k && polys[b][0] == secret[b]
}

/// Every share lies on the sharing polynomials `polys` of `secret`.
pub open spec fn shares_encode(shares: Seq<Share>, secret: Seq<u8>, k: nat, polys: Seq<Seq<u8>>) -> bool {
    &&& sharing_polys(secret, k, polys)
    &&& forall|j: int| 0 <= j < shares.len() ==> share_on_polys(#[trigger] shares[j], polys)
}

/// The interpolation points of byte position `b`.
pub open spec fn share_points(shares: Seq<Share>, b: int) -> Seq<(u8, u8)> {
    Seq::new(shares.len(), |j: int| (shares[j].index, shares[j].value@[b]))
}

/// All shares have as many bytes as the first one.
pub open spec fn lengths_consistent(shares: Seq<Share>) -> bool {
    forall|j: int| 0 <= j < shares.len() ==> (#[trigger] shares[j]).value@.len() == shares[0].value@.len()
}

/// No two shares have the same index.
pub open spec fn indices_distinct(shares: Seq<Share>) -> bool {
    forall|i: int, j: int|
        0 <= i < shares.len() && 0 <= j < shares.len() && i != j ==> #[trigger] shares[i].index
            != #[trigger] shares[j].index
}

/// Share `j` repeats the index of an earlier share.
pub open spec fn repeats_earlier(shares: Seq<Share>, j: int) -> bool {
    exists|i: int| 0 <= i < j && #[trigger] shares[i].index == shares[j].index
}

/// Share `j` is the first share that repeats an earlier index.
pub open spec fn first_repeat(shares: Seq<Share>, j: int) -> bool {
    &&& 0 <= j < shares.len()
    &&& repeats_earlier(shares, j)
    &&& forall|l: int| 0 <= l < j ==> !repeats_earlier(shares, l)
}

/// The secret recovered byte by byte by interpolation at zero.
pub open spec fn reconstructed(shares: Seq<Share>) -> Seq<u8> {
    Seq::new(shares[0].value@.len(), |b: int| lagrange_at_zero(share_points(shares, b)))
}

/// Shares from which reconstruction succeeds.
pub open spec fn reconstructible(shares: Seq<Share>) -> bool {
    shares.len() >= 2 && lengths_consistent(shares) && indices_distinct(shares)
}

/// The reason given when reconstruction is refused.
pub open spec fn reconstruct_refusal(shares: Seq<Share>) -> Seq<char> {
    if shares.len() < 2 {
        "at least 2 shares are required for reconstruction"@
    } else if !lengths_consistent(shares) {
        "shares have inconsistent lengths"@
    } else {
        "duplicate share index: "@ + decimal(
            shares[choose|j: int| first_repeat(shares, j)].index as nat,
        )
    }
}

/// The reason given when splitting is refused.
pub open spec fn split_refusal(threshold: u8, total_shares: u8) -> Seq<char> {
    if threshold < 2 {
        "threshold must be at least 2"@
    } else {
        "threshold cannot exceed total_shares"@
    }
}

proof fn lemma_den_nonzero(p: Seq<(u8, u8)>, i: int, n: nat)
    requires
        0 <= i < p.len(),
        n <= p.len(),
        forall|a: int, c: int| 0 <= a < p.len() && 0 <= c < p.len() && a != c ==> #[trigger] p[a].0 != #[trigger] p[c].0,
    ensures lag_den(p, i, n) != 0,
    decreases n,
{
    if n > 0 {
        lemma_den_nonzero(p, i, (n - 1) as nat);
        if n - 1 != i {
            lemma_xor(p[i].0, p[n - 1].0, 0);
            lemma_no_zero_divisors(lag_den(p, i, (n - 1) as nat), p[i].0 ^ p[n - 1].0);
        }
    }
}

proof fn lemma_distinct_defined(shares: Seq<Share>, b: int)
    requires indices_distinct(shares),
    ensures lagrange_defined(share_points(shares, b)),
{
    let p = share_points(shares, b);
    assert forall|a: int, c: int| 0 <= a < p.len() && 0 <= c < p.len() && a != c implies #[trigger] p[a].0 != #[trigger] p[c].0 by {
        assert(shares[a].index != shares[c].index);
    }
    assert forall|i: int| 0 <= i < p.len() implies #[trigger] lag_num(p, i, p.len()) == 0 || lag_den(p, i, p.len()) != 0 by {
        lemma_den_nonzero(p, i, p.len());
    }
}

/// Splits a secret into `total_shares` shares with threshold `threshold`.
///
/// Any `threshold` shares reconstruct the secret; each byte of the secret
/// is split independently over GF(2^8) with fresh random coefficients.
pub fn split_secret(secret: &[u8], threshold: u8, total_shares: u8) -> (r: Result<Vec<Share>, SecurityError>)
    ensures
        match r {
            Ok(shares) => {
                &&& 2 <= threshold <= total_shares
                &&& shares@.len() == total_shares
                &&& forall|j: int| 0 <= j < shares@.len() ==> (#[trigger] shares@[j]).index == j + 1
                &&& exists|polys: Seq<Seq<u8>>| shares_encode(shares@, secret@, threshold as nat, polys)
            },
            Err(SecurityError::CeremonyError { reason }) => {
                &&& (threshold < 2 || threshold > total_shares)
                &&& reason@ == split_refusal(threshold, total_shares)
            },
            Err(_) => false,
        },
{
    if threshold < 2 {
        return Err(SecurityError::CeremonyError { reason: "threshold must be at least 2".to_string() });
    }
    if threshold > total_shares {
        return Err(SecurityError::CeremonyError { reason: "threshold cannot exceed total_shares".to_string() });
    }
    let k = threshold as usize;
    let mut rng = thread_rng();
    let mut shares: Vec<Share> = Vec::new();
    let total = total_shares as usize;
    let mut c: usize = 0;
    while c < total
        invariant
            total == total_shares,
            c <= total,
            shares@.len() == c,
            forall|j: int| 0 <= j < shares@.len() ==> (#[trigger] shares@[j]).index == j + 1 && shares@[j].value@.len() == 0,
        decreases total - c,
    {
        shares.push(Share { index: (c + 1) as u8, value: Vec::new() });
        c = c + 1;
    }
    proof {
        assert(share_on_polys(shares@[0], Seq::empty()) || shares@.len() == 0);
        assert forall|j: int| 0 <= j < shares@.len() implies share_on_polys(#[trigger] shares@[j], Seq::<Seq<u8>>::empty()) by {}
        assert(secret@.subrange(0, 0) =~= Seq::<u8>::empty());
    }
    let ghost mut polys: Seq<Seq<u8>> = Seq::empty();
    let n = secret.len();
    let mut pos: usize = 0;
    while pos < n
        invariant
            n == secret@.len(),
            pos <= n,
            k == threshold,
            2 <= k,
            shares@.len() == total_shares,
            polys.len() == pos,
            forall|j: int| 0 <= j < shares@.len() ==> (#[trigger] shares@[j]).index == j + 1,
            sharing_polys(secret@.subrange(0, pos as int), k as nat, polys),
            forall|j: int| 0 <= j < shares@.len() ==> share_on_polys(#[trigger] shares@[j], polys),
        decreases n - pos,
    {
        let secret_byte = secret[pos];
        let mut random: Vec<u8> = Vec::new();
        let mut f: usize = 1;
        while f < k
            invariant
                1 <= f <= k,
                random@.len() == f - 1,
            decreases k - f,
        {
            random.push(0u8);
            f = f + 1;
        }
        fill_bytes(&mut rng, &mut random);
        let mut coeffs: Vec<u8> = Vec::new();
        coeffs.push(secret_byte);
        let mut c: usize = 0;
        while c < random.len()
            invariant
                c <= random@.len(),
                random@.len() == k - 1,
                coeffs@.len() == c + 1,
                coeffs@[0] == secret_byte,
            decreases random@.len() - c,
        {
            coeffs.push(random[c]);
            c = c + 1;
        }
        let ghost old_shares = shares@;
        let mut j: usize = 0;
        while j < shares.len()
            invariant
                shares@.len() == old_shares.len(),
                j <= shares@.len(),
                forall|l: int| 0 <= l < shares@.len() ==> (#[trigger] shares@[l]).index == old_shares[l].index,
                forall|l: int| 0 <= l < j ==> (#[trigger] shares@[l]).value@ == old_shares[l].value@.push(peval(coeffs@, old_shares[l].index)),
                forall|l: int| j <= l < shares@.len() ==> (#[trigger] shares@[l]).value@ == old_shares[l].value@,
            decreases shares@.len() - j,
        {
            let y = poly_eval(coeffs.as_slice(), shares[j].index);
            let mut share = shares.remove(j);
            share.value.push(y);
            shares.insert(j, share);
            j = j + 1;
        }
        proof {
            let new_polys = polys.push(coeffs@);
            assert(secret@.subrange(0, pos + 1).drop_last() =~= secret@.subrange(0, pos as int));
            assert forall|l: int| 0 <= l < shares@.len() implies share_on_polys(#[trigger] shares@[l], new_polys) by {
                assert(share_on_polys(old_shares[l], polys));
                assert forall|b: int| 0 <= b < new_polys.len() implies #[trigger] shares@[l].value@[b] == peval(new_polys[b], shares@[l].index) by {
                    if b < pos {
                        assert(shares@[l].value@[b] == old_shares[l].value@[b]);
                    }
                }
            }
            polys = new_polys;
        }
        pos = pos + 1;
    }
    assert(secret@.subrange(0, n as int) =~= secret@);
    assert(sharing_polys(secret@, threshold as nat, polys));
    assert(shares_encode(shares@, secret@, threshold as nat, polys));
    assert(forall|j: int| 0 <= j < shares@.len() ==> (#[trigger] shares@[j]).index == j + 1);
    assert(exists|polys: Seq<Seq<u8>>| shares_encode(shares@, secret@, threshold as nat, polys));
    assert(shares@.len() == total_shares);
    assert(2 <= threshold <= total_shares);
    Ok(shares)
}

/// Reconstructs a secret from shares by Lagrange interpolation at zero,
/// byte by byte.
pub fn reconstruct_secret(shares: &[Share]) -> (r: Result<Vec<u8>, SecurityError>)
    ensures
        match r {
            Ok(secret) => reconstructible(shares@) && secret@ == reconstructed(shares@),
            Err(SecurityError::CeremonyError { reason }) => !reconstructible(shares@) && reason@
                == reconstruct_refusal(shares@),
            Err(_) => false,
        },
{
    if shares.len() < 2 {
        return Err(SecurityError::CeremonyError { reason: "at least 2 shares are required for reconstruction".to_string() });
    }
    let secret_len = shares[0].value.len();
    let mut j: usize = 0;
    while j < shares.len()
        invariant
            j <= shares@.len(),
            secret_len == shares@[0].value@.len(),
            forall|l: int| 0 <= l < j ==> (#[trigger] shares@[l]).value@.len() == secret_len,
        decreases shares@.len() - j,
    {
        if shares[j].value.len() != secret_len {
            return Err(SecurityError::CeremonyError { reason: "shares have inconsistent lengths".to_string() });
        }
        j = j + 1;
    }
    assert(lengths_consistent(shares@));
    let mut seen = [false; 256];
    let mut j: usize = 0;
    while j < shares.len()
        invariant
            j <= shares@.len(),
            seen@.len() == 256,
            shares@.len() >= 2,
            lengths_consistent(shares@),
            forall|v: int| 0 <= v < 256 ==> (#[trigger] seen@[v] <==> exists|l: int| 0 <= l < j && shares@[l].index == v),
            forall|l: int| 0 <= l < j ==> !repeats_earlier(shares@, l),
        decreases shares@.len() - j,
    {
        let idx = shares[j].index;
        if seen[idx as usize] {
            let mut reason = String::from_str("duplicate share index: ");
            proof {
                reveal_strlit("duplicate share index: ");
            }
            push_decimal(&mut reason, idx as u64);
            proof {
                assert(seen@[idx as int]);
                let w = choose|l: int| 0 <= l < j && shares@[l].index == idx;
                assert(shares@[w].index == shares@[j as int].index);
                assert(repeats_earlier(shares@, j as int));
                assert(first_repeat(shares@, j as int));
                let c = choose|c: int| first_repeat(shares@, c);
                if c < j {
                } else if c > j {
                    assert(!repeats_earlier(shares@, j as int));
                }
                assert(c == j);
                assert(!indices_distinct(shares@));
                assert(reason@ == reconstruct_refusal(shares@));
            }
            return Err(SecurityError::CeremonyError { reason });
        }
        seen.set(idx as usize, true);
        j = j + 1;
    }
    assert(indices_distinct(shares@)) by {
        assert forall|a: int, c: int|
            0 <= a < shares@.len() && 0 <= c < shares@.len() && a != c implies #[trigger] shares@[a].index
                != #[trigger] shares@[c].index by {
            if a < c {
                assert(!repeats_earlier(shares@, c));
            } else {
                assert(!repeats_earlier(shares@, a));
            }
        }
    }
    let mut secret: Vec<u8> = Vec::new();
    let mut b: usize = 0;
    while b < secret_len
        invariant
            b <= secret_len,
            secret_len == shares@[0].value@.len(),
            shares@.len() >= 2,
            lengths_consistent(shares@),
            indices_distinct(shares@),
            secret@.len() == b,
            forall|l: int| 0 <= l < b ==> #[trigger] secret@[l] == lagrange_at_zero(share_points(shares@, l)),
        decreases secret_len - b,
    {
        let mut points: Vec<(u8, u8)> = Vec::new();
        let mut j: usize = 0;
        while j < shares.len()
            invariant
                j <= shares@.len(),
                b < secret_len,
                secret_len == shares@[0].value@.len(),
                lengths_consistent(shares@),
                points@.len() == j,
                forall|l: int| 0 <= l < j ==> #[trigger] points@[l] == share_points(shares@, b as int)[l],
            decreases shares@.len() - j,
        {
            assert(shares@[j as int].value@.len() == secret_len);
            points.push((shares[j].index, shares[j].value[b]));
            j = j + 1;
        }
        assert(points@ =~= share_points(shares@, b as int));
        proof {
            lemma_distinct_defined(shares@, b as int);
        }
        secret.push(lagrange_interpolate_at_zero(points.as_slice()));
        b = b + 1;
    }
    assert(secret@ =~= reconstructed(shares@));
    Ok(secret)
}

/// Reconstruction inverts splitting: any shares (at least `k`, at least
/// two, with distinct indices) lying on sharing polynomials with `k`
/// coefficients of `secret` are accepted by reconstruction and give back
/// `secret`.
pub proof fn lemma_shares_reconstruct_secret(
    shares: Seq<Share>,
    secret: Seq<u8>,
    k: nat,
    polys: Seq<Seq<u8>>,
)
    requires
        shares_encode(shares, secret, k, polys),
        1 <= k <= shares.len(),
        2 <= shares.len(),
        indices_distinct(shares),
    ensures
        reconstructible(shares),
        reconstructed(shares) == secret,
{
    assert(share_on_polys(shares[0], polys));
    assert forall|j: int| 0 <= j < shares.len() implies (#[trigger] shares[j]).value@.len() == shares[0].value@.len() by {
        assert(share_on_polys(shares[j], polys));
    }
    assert forall|b: int| 0 <= b < secret.len() implies #[trigger] reconstructed(shares)[b] == secret[b] by {
        let p = share_points(shares, b);
        assert forall|x: int, y: int| 0 <= x < xs_of(p).len() && 0 <= y < xs_of(p).len() && x != y implies #[trigger] xs_of(p)[x] != #[trigger] xs_of(p)[y] by {
            assert(shares[x].index != shares[y].index);
        }
        assert forall|j: int| 0 <= j < p.len() implies #[trigger] p[j].1 == peval(polys[b], p[j].0) by {
            assert(share_on_polys(shares[j], polys));
        }
        assert(polys[b].len() == k);
        lemma_lagrange_recovers(p, polys[b]);
    }
    assert(reconstructed(shares) =~= secret);
}

} // verus!
