//! Correctness of Lagrange interpolation at zero over GF(2^8): for
//! distinct abscissae, the interpolation sum of the values of a
//! polynomial with at most as many coefficients as points is the
//! polynomial's constant term.

use vstd::prelude::*;
use crate::security::gf256::{fmul, fdiv, finv, peval, lag_num, lag_den, lag_sum, lemma_mul_comm, lemma_mul_assoc, lemma_mul_distrib, lemma_mul_identities, lemma_xor, lemma_finv, lemma_mul_cancel, lemma_no_zero_divisors};

verus! {

// ---------------------------------------------------------------------------
// Field facts
// ---------------------------------------------------------------------------

proof fn lemma_finv_unique(a: u8, x: u8)
    requires a != 0, fmul(a, x) == 1,
    ensures x == finv(a),
{
    lemma_finv(a);
    lemma_mul_cancel(a, x, finv(a));
}

proof fn lemma_distrib_left(a: u8, b: u8, c: u8)
    ensures fmul(a ^ b, c) == fmul(a, c) ^ fmul(b, c),
{
    lemma_mul_comm(a ^ b, c);
    lemma_mul_distrib(c, a, b);
    lemma_mul_comm(a, c);
    lemma_mul_comm(b, c);
}

/// `(a b)(c d) == (a c)(b d)`.
proof fn lemma_mul_swap(a: u8, b: u8, c: u8, d: u8)
    ensures fmul(fmul(a, b), fmul(c, d)) == fmul(fmul(a, c), fmul(b, d)),
{
    lemma_mul_assoc(a, b, fmul(c, d));
    lemma_mul_assoc(b, c, d);
    lemma_mul_comm(b, c);
    lemma_mul_assoc(c, b, d);
    lemma_mul_assoc(a, c, fmul(b, d));
}

proof fn lemma_finv_mul(c: u8, d: u8)
    requires c != 0, d != 0,
    ensures finv(fmul(c, d)) == fmul(finv(c), finv(d)),
{
    lemma_finv(c);
    lemma_finv(d);
    lemma_no_zero_divisors(c, d);
    lemma_mul_swap(c, d, finv(c), finv(d));
    lemma_mul_identities(1);
    lemma_finv_unique(fmul(c, d), fmul(finv(c), finv(d)));
}

proof fn lemma_fdiv_mul(a: u8, b: u8, c: u8, d: u8)
    requires c != 0, d != 0,
    ensures fdiv(fmul(a, b), fmul(c, d)) == fmul(fdiv(a, c), fdiv(b, d)),
{
    lemma_finv_mul(c, d);
    lemma_mul_swap(a, b, finv(c), finv(d));
}

proof fn lemma_fdiv_cancel(a: u8, b: u8)
    requires b != 0,
    ensures fmul(b, fdiv(a, b)) == a,
{
    lemma_finv(b);
    lemma_mul_comm(b, fmul(a, finv(b)));
    lemma_mul_assoc(a, finv(b), b);
    lemma_mul_identities(a);
}

proof fn lemma_finv_one()
    ensures finv(1) == 1,
{
    lemma_mul_identities(1);
    lemma_finv_unique(1, 1);
}

/// `(A ^ a) ^ (B ^ b) == (A ^ B) ^ (a ^ b)`.
proof fn lemma_xor4(aa: u8, a: u8, bb: u8, b: u8)
    ensures (aa ^ a) ^ (bb ^ b) == (aa ^ bb) ^ (a ^ b),
{
    assert((aa ^ a) ^ (bb ^ b) == (aa ^ bb) ^ (a ^ b)) by (bit_vector);
}

// ---------------------------------------------------------------------------
// Weights and weighted sums over abscissae
// ---------------------------------------------------------------------------

/// Product of `xs[j]` over `j < n`, `j != i`.
pub open spec fn xnum(xs: Seq<u8>, i: int, n: nat) -> u8
    decreases n,
{
    if n == 0 {
        1
    } else if n - 1 == i {
        xnum(xs, i, (n - 1) as nat)
    } else {
        fmul(xnum(xs, i, (n - 1) as nat), xs[n - 1])
    }
}

/// Product of `xs[i] ^ xs[j]` over `j < n`, `j != i`.
pub open spec fn xden(xs: Seq<u8>, i: int, n: nat) -> u8
    decreases n,
{
    if n == 0 {
        1
    } else if n - 1 == i {
        xden(xs, i, (n - 1) as nat)
    } else {
        fmul(xden(xs, i, (n - 1) as nat), xs[i] ^ xs[n - 1])
    }
}

/// The Lagrange basis value `L_i(0)`.
pub open spec fn weight(xs: Seq<u8>, i: int) -> u8 {
    fdiv(xnum(xs, i, xs.len()), xden(xs, i, xs.len()))
}

/// `sum_{i < n} vs[i] * L_i(0)`.
pub open spec fn wsum(xs: Seq<u8>, vs: Seq<u8>, n: nat) -> u8
    decreases n,
{
    if n == 0 { 0 } else { wsum(xs, vs, (n - 1) as nat) ^ fmul(vs[n - 1], weight(xs, n - 1)) }
}

pub open spec fn distinct(xs: Seq<u8>) -> bool {
    forall|a: int, b: int| 0 <= a < xs.len() && 0 <= b < xs.len() && a != b ==> #[trigger] xs[a] != #[trigger] xs[b]
}

pub open spec fn xs_of(p: Seq<(u8, u8)>) -> Seq<u8> {
    Seq::new(p.len(), |j: int| p[j].0)
}

pub open spec fn ys_of(p: Seq<(u8, u8)>) -> Seq<u8> {
    Seq::new(p.len(), |j: int| p[j].1)
}

proof fn lemma_num_points(p: Seq<(u8, u8)>, i: int, n: nat)
    requires n <= p.len(), 0 <= i < p.len(),
    ensures lag_num(p, i, n) == xnum(xs_of(p), i, n), lag_den(p, i, n) == xden(xs_of(p), i, n),
    decreases n,
{
    if n > 0 {
        lemma_num_points(p, i, (n - 1) as nat);
    }
}

proof fn lemma_sum_points(p: Seq<(u8, u8)>, n: nat)
    requires n <= p.len(),
    ensures lag_sum(p, n) == wsum(xs_of(p), ys_of(p), n),
    decreases n,
{
    if n > 0 {
        lemma_sum_points(p, (n - 1) as nat);
        lemma_num_points(p, n - 1, p.len());
    }
}

/// The products only read the first `n` abscissae.
proof fn lemma_num_prefix(xs: Seq<u8>, ys: Seq<u8>, i: int, n: nat)
    requires
        n <= xs.len(),
        n <= ys.len(),
        0 <= i < xs.len(),
        i < ys.len(),
        xs[i] == ys[i],
        forall|j: int| 0 <= j < n ==> xs[j] == ys[j],
    ensures xnum(xs, i, n) == xnum(ys, i, n), xden(xs, i, n) == xden(ys, i, n),
    decreases n,
{
    if n > 0 {
        lemma_num_prefix(xs, ys, i, (n - 1) as nat);
    }
}

proof fn lemma_den_nonzero(xs: Seq<u8>, i: int, n: nat)
    requires 0 <= i < xs.len(), n <= xs.len(), distinct(xs),
    ensures xden(xs, i, n) != 0,
    decreases n,
{
    if n > 0 {
        lemma_den_nonzero(xs, i, (n - 1) as nat);
        if n - 1 != i {
            lemma_xor(xs[i], xs[n - 1], 0);
            lemma_no_zero_divisors(xden(xs, i, (n - 1) as nat), xs[i] ^ xs[n - 1]);
        }
    }
}

/// Pointwise XOR of value sequences.
pub open spec fn vxor(u: Seq<u8>, v: Seq<u8>) -> Seq<u8> {
    Seq::new(u.len(), |j: int| u[j] ^ v[j])
}

/// Pointwise scaling of a value sequence.
pub open spec fn vscale(k: u8, v: Seq<u8>) -> Seq<u8> {
    Seq::new(v.len(), |j: int| fmul(k, v[j]))
}

proof fn lemma_wsum_xor(xs: Seq<u8>, u: Seq<u8>, v: Seq<u8>, n: nat)
    requires n <= u.len(), u.len() == v.len(),
    ensures wsum(xs, vxor(u, v), n) == wsum(xs, u, n) ^ wsum(xs, v, n),
    decreases n,
{
    if n == 0 {
        lemma_xor(0, 0, 0);
    } else {
        let m = (n - 1) as nat;
        lemma_wsum_xor(xs, u, v, m);
        let w = weight(xs, m as int);
        lemma_distrib_left(u[m as int], v[m as int], w);
        lemma_xor4(wsum(xs, u, m), fmul(u[m as int], w), wsum(xs, v, m), fmul(v[m as int], w));
    }
}

proof fn lemma_wsum_scale(xs: Seq<u8>, k: u8, v: Seq<u8>, n: nat)
    requires n <= v.len(),
    ensures wsum(xs, vscale(k, v), n) == fmul(k, wsum(xs, v, n)),
    decreases n,
{
    if n == 0 {
        lemma_mul_identities(k);
    } else {
        let m = (n - 1) as nat;
        lemma_wsum_scale(xs, k, v, m);
        let w = weight(xs, m as int);
        lemma_mul_assoc(k, v[m as int], w);
        lemma_mul_distrib(k, wsum(xs, v, m), fmul(v[m as int], w));
    }
}

/// Two value sequences that agree on the first `n` positions have the same
/// weighted sum over them.
proof fn lemma_wsum_ext(xs: Seq<u8>, u: Seq<u8>, v: Seq<u8>, n: nat)
    requires n <= u.len(), n <= v.len(), forall|j: int| 0 <= j < n ==> u[j] == v[j],
    ensures wsum(xs, u, n) == wsum(xs, v, n),
    decreases n,
{
    if n > 0 {
        lemma_wsum_ext(xs, u, v, (n - 1) as nat);
    }
}

/// Dropping the last abscissa `a` rescales each remaining weight by
/// `a / (x_i + a)`.
proof fn lemma_weight_drop_last(xs: Seq<u8>, i: int)
    requires
        distinct(xs),
        xs.len() >= 1,
        0 <= i < xs.len() - 1,
    ensures
        weight(xs, i) == fmul(weight(xs.drop_last(), i), fdiv(xs.last(), xs[i] ^ xs.last())),
{
    let m = xs.len();
    let ys = xs.drop_last();
    let a = xs.last();
    lemma_num_prefix(xs, ys, i, (m - 1) as nat);
    lemma_den_nonzero(ys, i, (m - 1) as nat);
    lemma_xor(xs[i], a, 0);
    assert(xs[i] != xs[m - 1]);
    lemma_fdiv_mul(xnum(ys, i, (m - 1) as nat), a, xden(ys, i, (m - 1) as nat), xs[i] ^ a);
}

/// The sum over the first `n < m` positions of `xs` equals the sum over the
/// same positions of `xs.drop_last()` with each value rescaled.
proof fn lemma_wsum_drop_last(xs: Seq<u8>, v: Seq<u8>, u: Seq<u8>, n: nat)
    requires
        distinct(xs),
        xs.len() >= 1,
        n <= xs.len() - 1,
        n <= v.len(),
        n <= u.len(),
        forall|j: int| 0 <= j < n ==> #[trigger] u[j] == fmul(v[j], fdiv(xs.last(), xs[j] ^ xs.last())),
    ensures wsum(xs, v, n) == wsum(xs.drop_last(), u, n),
    decreases n,
{
    if n > 0 {
        let j = n - 1;
        lemma_wsum_drop_last(xs, v, u, (n - 1) as nat);
        lemma_weight_drop_last(xs, j);
        let g = fdiv(xs.last(), xs[j] ^ xs.last());
        let w = weight(xs.drop_last(), j);
        lemma_mul_comm(w, g);
        lemma_mul_assoc(v[j], g, w);
    }
}

// ---------------------------------------------------------------------------
// Polynomial algebra
// ---------------------------------------------------------------------------

/// Quotient of the synthetic division of `c` by `x + a`.
pub open spec fn sdiv(c: Seq<u8>, a: u8) -> Seq<u8>
    decreases c.len(),
{
    if c.len() <= 1 {
        Seq::empty()
    } else {
        seq![peval(c.drop_first(), a)] + sdiv(c.drop_first(), a)
    }
}

proof fn lemma_peval_cons(h: u8, t: Seq<u8>, x: u8)
    ensures peval(seq![h] + t, x) == fmul(peval(t, x), x) ^ h,
{
    assert((seq![h] + t).drop_first() =~= t);
}

/// `c(x) == c(a) + (x + a) q(x)` with `q == sdiv(c, a)`.
proof fn lemma_sdiv(c: Seq<u8>, a: u8, x: u8)
    ensures
        peval(c, x) == peval(c, a) ^ fmul(x ^ a, peval(sdiv(c, a), x)),
        sdiv(c, a).len() == if c.len() == 0 { 0 } else { c.len() - 1 },
    decreases c.len(),
{
    let q = sdiv(c, a);
    if c.len() == 0 {
        lemma_mul_identities(x ^ a);
        lemma_xor(0, 0, 0);
    } else if c.len() == 1 {
        let t = c.drop_first();
        assert(peval(t, x) == 0);
        assert(peval(t, a) == 0);
        lemma_mul_identities(x);
        lemma_mul_identities(a);
        lemma_mul_identities(x ^ a);
        lemma_xor(c[0], 0, 0);
    } else {
        let t = c.drop_first();
        let qt = sdiv(t, a);
        lemma_sdiv(t, a, x);
        let ta = peval(t, a);
        let tx = peval(t, x);
        let qx = peval(qt, x);
        lemma_peval_cons(ta, qt, x);
        // c(x) = t(x) x + c0 = (ta + (x+a) qx) x + c0
        lemma_distrib_left(ta, fmul(x ^ a, qx), x);
        lemma_mul_assoc(x ^ a, qx, x);
        lemma_mul_comm(qx, x);
        // c(a) = ta a + c0
        // c(x) + c(a) = ta x + ta a + (x+a) (x qx) = (x+a)(ta + x qx)
        lemma_mul_distrib(ta, x, a);
        lemma_mul_comm(ta, x ^ a);
        lemma_mul_distrib(x ^ a, ta, fmul(x, qx));
        lemma_mul_comm(x, qx);
        let p1 = fmul(ta, x);
        let p2 = fmul(x ^ a, fmul(qx, x));
        let p3 = fmul(ta, a);
        let c0 = c[0];
        // goal: (p1 ^ p2) ^ c0 == (p3 ^ c0) ^ ((p1 ^ p3) ^ p2)
        assert((p1 ^ p2) ^ c0 == (p3 ^ c0) ^ ((p1 ^ p3) ^ p2)) by (bit_vector);
        assert(fmul(x ^ a, ta) == p1 ^ p3);
        assert(fmul(x ^ a, fmul(qx, x) ^ ta) == fmul(x ^ a, fmul(qx, x)) ^ fmul(x ^ a, ta)) by {
            lemma_mul_distrib(x ^ a, fmul(qx, x), ta);
        }
        lemma_xor(p2, p1 ^ p3, 0);
    }
}

/// `c` with `k` added to its constant term.
pub open spec fn add_const(c: Seq<u8>, k: u8) -> Seq<u8> {
    if c.len() == 0 { seq![k] } else { c.update(0, c[0] ^ k) }
}

proof fn lemma_add_const(c: Seq<u8>, k: u8, x: u8)
    ensures peval(add_const(c, k), x) == peval(c, x) ^ k, add_const(c, k).len() == if c.len() == 0 { 1 } else { c.len() },
{
    if c.len() == 0 {
        let d = add_const(c, k);
        assert(d.drop_first() =~= Seq::<u8>::empty());
        assert(peval(d.drop_first(), x) == 0);
        lemma_mul_identities(x);
        lemma_xor(k, 0, 0);
        assert(peval(d, x) == fmul(0, x) ^ k);
        assert(peval(c, x) == 0);
    } else {
        let d = add_const(c, k);
        assert(d.drop_first() =~= c.drop_first());
        let t = fmul(peval(c.drop_first(), x), x);
        lemma_xor(t, c[0], k);
    }
}

/// Coefficients of `(x + b) c(x)`.
pub open spec fn mul_linear(c: Seq<u8>, b: u8) -> Seq<u8>
    decreases c.len(),
{
    if c.len() == 0 {
        Seq::empty()
    } else {
        seq![fmul(b, c[0])] + add_const(mul_linear(c.drop_first(), b), c[0])
    }
}

proof fn lemma_mul_linear(c: Seq<u8>, b: u8, x: u8)
    ensures
        peval(mul_linear(c, b), x) == fmul(x ^ b, peval(c, x)),
        mul_linear(c, b).len() == if c.len() == 0 { 0 } else { c.len() + 1 },
    decreases c.len(),
{
    if c.len() == 0 {
        lemma_mul_identities(x ^ b);
    } else {
        let t = c.drop_first();
        let c0 = c[0];
        lemma_mul_linear(t, b, x);
        let mt = mul_linear(t, b);
        lemma_add_const(mt, c0, x);
        lemma_peval_cons(fmul(b, c0), add_const(mt, c0), x);
        let tx = peval(t, x);
        let e = fmul(x ^ b, tx);
        // ((e ^ c0) x) ^ b c0  ==  (x+b)(tx x ^ c0)
        lemma_distrib_left(e, c0, x);
        lemma_mul_assoc(x ^ b, tx, x);
        lemma_mul_distrib(x ^ b, fmul(tx, x), c0);
        lemma_distrib_left(x, b, c0);
        lemma_mul_comm(c0, x);
        lemma_mul_comm(b, c0);
        let p1 = fmul(x ^ b, fmul(tx, x));
        let p2 = fmul(x, c0);
        let p3 = fmul(b, c0);
        assert((p1 ^ p2) ^ p3 == p1 ^ (p2 ^ p3)) by (bit_vector);
    }
}

/// `prod_{j < n} (x + xs[j])`.
pub open spec fn prodlin(xs: Seq<u8>, n: nat, x: u8) -> u8
    decreases n,
{
    if n == 0 { 1 } else { fmul(prodlin(xs, (n - 1) as nat, x), x ^ xs[n - 1]) }
}

/// Coefficients of `prod_{j < n} (x + xs[j])`.
pub open spec fn roots_poly(xs: Seq<u8>, n: nat) -> Seq<u8>
    decreases n,
{
    if n == 0 { seq![1u8] } else { mul_linear(roots_poly(xs, (n - 1) as nat), xs[n - 1]) }
}

proof fn lemma_roots_poly(xs: Seq<u8>, n: nat, x: u8)
    ensures
        peval(roots_poly(xs, n), x) == prodlin(xs, n, x),
        roots_poly(xs, n).len() == n + 1,
    decreases n,
{
    if n == 0 {
        let r = seq![1u8];
        assert(r.drop_first() =~= Seq::<u8>::empty());
        assert(peval(r.drop_first(), x) == 0);
        lemma_mul_identities(x);
        lemma_xor(1, 0, 0);
        assert(peval(r, x) == fmul(0, x) ^ 1);
        assert(roots_poly(xs, 0) == r);
    } else {
        lemma_roots_poly(xs, (n - 1) as nat, x);
        lemma_mul_linear(roots_poly(xs, (n - 1) as nat), xs[n - 1], x);
        lemma_mul_comm(x ^ xs[n - 1], prodlin(xs, (n - 1) as nat, x));
    }
}

proof fn lemma_prodlin_root(xs: Seq<u8>, n: nat, j: int)
    requires 0 <= j < n, n <= xs.len(),
    ensures prodlin(xs, n, xs[j]) == 0,
    decreases n,
{
    if j < n - 1 {
        lemma_prodlin_root(xs, (n - 1) as nat, j);
        lemma_mul_identities(xs[j] ^ xs[n - 1]);
    } else {
        lemma_xor(xs[j], 0, 0);
        lemma_mul_identities(prodlin(xs, (n - 1) as nat, xs[j]));
    }
}

proof fn lemma_prodlin_nonzero(xs: Seq<u8>, n: nat, a: u8)
    requires n <= xs.len(), forall|j: int| 0 <= j < n ==> xs[j] != a,
    ensures prodlin(xs, n, a) != 0,
    decreases n,
{
    if n > 0 {
        lemma_prodlin_nonzero(xs, (n - 1) as nat, a);
        lemma_xor(a, xs[n - 1], 0);
        lemma_no_zero_divisors(prodlin(xs, (n - 1) as nat, a), a ^ xs[n - 1]);
    }
}

/// The numerator and denominator of the last weight are the products of
/// the other abscissae and of their distances to the last one.
proof fn lemma_last_products(xs: Seq<u8>, n: nat)
    requires xs.len() >= 1, n <= xs.len() - 1,
    ensures
        xnum(xs, xs.len() - 1, n) == prodlin(xs.drop_last(), n, 0),
        xden(xs, xs.len() - 1, n) == prodlin(xs.drop_last(), n, xs.last()),
    decreases n,
{
    if n > 0 {
        lemma_last_products(xs, (n - 1) as nat);
        lemma_xor(xs[n - 1], 0, 0);
    }
}

pub open spec fn ones(m: nat) -> Seq<u8> {
    Seq::new(m, |j: int| 1u8)
}

pub open spec fn evals(c: Seq<u8>, xs: Seq<u8>) -> Seq<u8> {
    Seq::new(xs.len(), |j: int| peval(c, xs[j]))
}

proof fn lemma_distinct_drop_last(xs: Seq<u8>)
    requires distinct(xs), xs.len() >= 1,
    ensures
        distinct(xs.drop_last()),
        forall|j: int| 0 <= j < xs.len() - 1 ==> #[trigger] xs.drop_last()[j] != xs.last(),
{
    let ys = xs.drop_last();
    assert forall|a: int, b: int| 0 <= a < ys.len() && 0 <= b < ys.len() && a != b implies #[trigger] ys[a] != #[trigger] ys[b] by {
        assert(xs[a] != xs[b]);
    }
    assert forall|j: int| 0 <= j < xs.len() - 1 implies #[trigger] ys[j] != xs.last() by {
        assert(xs[j] != xs[xs.len() - 1]);
    }
}

/// If `d s == r` with `d, r` non-zero then `(a / r) s == a / d`.
proof fn lemma_scaled_quotient(a: u8, d: u8, r: u8, s: u8)
    requires d != 0, r != 0, fmul(d, s) == r,
    ensures fmul(fdiv(a, r), s) == fdiv(a, d),
{
    lemma_finv(d);
    lemma_finv(r);
    // s == inv(d) r
    lemma_mul_assoc(d, finv(d), r);
    lemma_mul_identities(r);
    lemma_mul_cancel(d, s, fmul(finv(d), r));
    // (a inv(r)) (inv(d) r) == (a inv(d)) (inv(r) r)
    lemma_mul_swap(a, finv(r), finv(d), r);
    lemma_mul_comm(finv(r), r);
    lemma_mul_identities(fmul(a, finv(d)));
}

/// A first weight of `xs` rescaled for dropping the last abscissa is the
/// value at `x_j` of the quotient of `prod (x + y_j)` by `x + a`, scaled by
/// `a / prod (a + y_j)`.
proof fn lemma_partition_weight(xs: Seq<u8>, j: int)
    requires distinct(xs), xs.len() >= 2, 0 <= j < xs.len() - 1,
    ensures ({
        let a = xs.last();
        let ys = xs.drop_last();
        let n = (xs.len() - 1) as nat;
        let s = sdiv(roots_poly(ys, n), a);
        fmul(1u8, fdiv(a, xs[j] ^ a)) == fmul(fdiv(a, prodlin(ys, n, a)), peval(s, ys[j]))
    }),
{
    let a = xs.last();
    let ys = xs.drop_last();
    let n = (xs.len() - 1) as nat;
    let r = roots_poly(ys, n);
    let s = sdiv(r, a);
    let ra = prodlin(ys, n, a);
    lemma_distinct_drop_last(xs);
    lemma_roots_poly(ys, n, a);
    lemma_prodlin_nonzero(ys, n, a);
    let d = xs[j] ^ a;
    assert(ys[j] == xs[j]);
    lemma_sdiv(r, a, ys[j]);
    lemma_roots_poly(ys, n, ys[j]);
    lemma_prodlin_root(ys, n, j);
    let e = fmul(d, peval(s, ys[j]));
    assert(0 == ra ^ e);
    assert(e == ra) by {
        assert(0 == ra ^ e ==> e == ra) by (bit_vector);
    }
    lemma_xor(xs[j], a, 0);
    assert(xs[j] != xs[xs.len() - 1]);
    lemma_scaled_quotient(a, d, ra, peval(s, ys[j]));
    lemma_mul_identities(fdiv(a, d));
}

proof fn lemma_partition_algebra(a: u8, ra: u8, r0: u8, s0: u8)
    requires ra != 0, r0 == ra ^ fmul(a, s0),
    ensures fmul(fdiv(a, ra), s0) ^ fmul(1u8, fdiv(r0, ra)) == 1,
{
    lemma_finv(ra);
    lemma_mul_assoc(a, finv(ra), s0);
    lemma_mul_comm(finv(ra), s0);
    lemma_mul_assoc(a, s0, finv(ra));
    let t = fmul(a, s0);
    assert(t == r0 ^ ra) by {
        assert(r0 == ra ^ t ==> t == r0 ^ ra) by (bit_vector);
    }
    lemma_distrib_left(r0, ra, finv(ra));
    lemma_mul_identities(fdiv(r0, ra));
    let q = fdiv(r0, ra);
    assert((q ^ 1) ^ q == 1) by (bit_vector);
}

proof fn lemma_last_weight(xs: Seq<u8>)
    requires xs.len() >= 2,
    ensures ({
        let n = (xs.len() - 1) as nat;
        weight(xs, xs.len() - 1) == fdiv(prodlin(xs.drop_last(), n, 0), prodlin(xs.drop_last(), n, xs.last()))
    }),
{
    let m = xs.len();
    let n = (m - 1) as nat;
    lemma_last_products(xs, n);
    assert(xnum(xs, m - 1, m) == xnum(xs, m - 1, n));
    assert(xden(xs, m - 1, m) == xden(xs, m - 1, n));
}

proof fn lemma_partition_single(xs: Seq<u8>)
    requires xs.len() == 1,
    ensures wsum(xs, ones(xs.len()), xs.len()) == 1,
{
    lemma_finv_one();
    lemma_mul_identities(1);
    lemma_xor(1, 0, 0);
    reveal_with_fuel(xnum, 2);
    reveal_with_fuel(xden, 2);
    assert(xnum(xs, 0, 1) == 1);
    assert(xden(xs, 0, 1) == 1);
    assert(weight(xs, 0) == 1);
    assert(wsum(xs, ones(1), 0) == 0);
}

pub open spec fn prefix_rescaled(xs: Seq<u8>) -> Seq<u8> {
    let a = xs.last();
    Seq::new((xs.len() - 1) as nat, |j: int| fmul(1u8, fdiv(a, xs[j] ^ a)))
}

pub open spec fn prefix_quotient(xs: Seq<u8>) -> Seq<u8> {
    let a = xs.last();
    let ys = xs.drop_last();
    let n = (xs.len() - 1) as nat;
    let s = sdiv(roots_poly(ys, n), a);
    vscale(fdiv(a, prodlin(ys, n, a)), evals(s, ys))
}

proof fn lemma_prefix_values(xs: Seq<u8>)
    requires distinct(xs), xs.len() >= 2,
    ensures
        prefix_rescaled(xs).len() == xs.len() - 1,
        prefix_quotient(xs).len() == xs.len() - 1,
        forall|j: int| 0 <= j < xs.len() - 1 ==> #[trigger] prefix_rescaled(xs)[j] == prefix_quotient(xs)[j],
        forall|j: int| 0 <= j < xs.len() - 1 ==> #[trigger] prefix_rescaled(xs)[j] == fmul(ones(xs.len())[j], fdiv(xs.last(), xs[j] ^ xs.last())),
{
    assert forall|j: int| 0 <= j < xs.len() - 1 implies #[trigger] prefix_rescaled(xs)[j] == prefix_quotient(xs)[j] by {
        lemma_partition_weight(xs, j);
    }
}

/// The first `m - 1` basis values sum to `a / R(a) * S(0)`.
#[verifier::rlimit(40)]
proof fn lemma_partition_prefix(xs: Seq<u8>)
    requires distinct(xs), xs.len() >= 2,
    ensures ({
        let a = xs.last();
        let ys = xs.drop_last();
        let n = (xs.len() - 1) as nat;
        let s = sdiv(roots_poly(ys, n), a);
        wsum(xs, ones(xs.len()), n) == fmul(fdiv(a, prodlin(ys, n, a)), peval(s, 0))
    }),
    decreases xs.len(), 0nat,
{
    let m = xs.len();
    let a = xs.last();
    let ys = xs.drop_last();
    let n = (m - 1) as nat;
    let s = sdiv(roots_poly(ys, n), a);
    let k = fdiv(a, prodlin(ys, n, a));
    let u = prefix_rescaled(xs);
    let sv = prefix_quotient(xs);
    lemma_distinct_drop_last(xs);
    assert(wsum(xs, ones(m), n) == wsum(ys, u, n)) by {
        lemma_prefix_values(xs);
        lemma_wsum_drop_last(xs, ones(m), u, n);
    }
    assert(wsum(ys, u, n) == wsum(ys, sv, n)) by {
        lemma_prefix_values(xs);
        lemma_wsum_ext(ys, u, sv, n);
    }
    assert(wsum(ys, sv, n) == fmul(k, wsum(ys, evals(s, ys), n))) by {
        lemma_wsum_scale(ys, k, evals(s, ys), n);
    }
    assert(wsum(ys, evals(s, ys), n) == peval(s, 0)) by {
        lemma_roots_poly(ys, n, a);
        lemma_sdiv(roots_poly(ys, n), a, 0);
        lemma_interpolate(ys, s);
    }
}

/// Partition of unity: the basis values at zero sum to one.
proof fn lemma_partition(xs: Seq<u8>)
    requires distinct(xs), xs.len() >= 1,
    ensures wsum(xs, ones(xs.len()), xs.len()) == 1,
    decreases xs.len(), 1nat,
{
    let m = xs.len();
    if m == 1 {
        lemma_partition_single(xs);
    } else {
        let a = xs.last();
        let ys = xs.drop_last();
        let n = (m - 1) as nat;
        let r = roots_poly(ys, n);
        let s = sdiv(r, a);
        let ra = prodlin(ys, n, a);
        let r0 = prodlin(ys, n, 0);
        lemma_partition_prefix(xs);
        assert(r0 == ra ^ fmul(a, peval(s, 0))) by {
            lemma_roots_poly(ys, n, a);
            lemma_roots_poly(ys, n, 0);
            lemma_sdiv(r, a, 0);
            lemma_xor(a, 0, 0);
        }
        lemma_distinct_drop_last(xs);
        lemma_prodlin_nonzero(ys, n, a);
        lemma_last_weight(xs);
        lemma_partition_algebra(a, ra, r0, peval(s, 0));
        assert(ones(m)[m - 1] == 1u8);
    }
}

/// Lagrange interpolation at zero recovers the constant term.
proof fn lemma_interpolate(xs: Seq<u8>, c: Seq<u8>)
    requires distinct(xs), c.len() <= xs.len(),
    ensures wsum(xs, evals(c, xs), xs.len()) == peval(c, 0),
    decreases xs.len(), 2nat,
{
    let m = xs.len();
    if m == 0 {
    } else {
        let a = xs.last();
        let ys = xs.drop_last();
        let n = (m - 1) as nat;
        lemma_distinct_drop_last(xs);
        let q = sdiv(c, a);
        lemma_sdiv(c, a, 0);
        let fa = peval(c, a);
        let h = Seq::new(m, |j: int| fmul(xs[j] ^ a, peval(q, xs[j])));
        let sum_form = vxor(vscale(fa, ones(m)), h);
        assert forall|j: int| 0 <= j < m implies evals(c, xs)[j] == sum_form[j] by {
            lemma_sdiv(c, a, xs[j]);
            lemma_mul_identities(fa);
        }
        lemma_wsum_ext(xs, evals(c, xs), sum_form, m);
        lemma_wsum_xor(xs, vscale(fa, ones(m)), h, m);
        lemma_wsum_scale(xs, fa, ones(m), m);
        lemma_partition(xs);
        lemma_mul_identities(fa);
        // the last term of h vanishes
        lemma_xor(a, 0, 0);
        lemma_mul_identities(peval(q, a));
        lemma_mul_identities(weight(xs, m - 1));
        lemma_xor(wsum(xs, h, n), 0, 0);
        assert(wsum(xs, h, m) == wsum(xs, h, n));
        // the first m - 1 terms
        let u = Seq::new(n, |j: int| fmul(h[j], fdiv(a, xs[j] ^ a)));
        lemma_wsum_drop_last(xs, h, u, n);
        let qv = vscale(a, evals(q, ys));
        assert forall|j: int| 0 <= j < n implies u[j] == qv[j] by {
            let d = xs[j] ^ a;
            assert(ys[j] == xs[j]);
            lemma_xor(xs[j], a, 0);
            lemma_fdiv_cancel(a, d);
            lemma_mul_comm(d, peval(q, xs[j]));
            lemma_mul_assoc(peval(q, xs[j]), d, fdiv(a, d));
            lemma_mul_comm(peval(q, xs[j]), a);
        }
        lemma_wsum_ext(ys, u, qv, n);
        lemma_wsum_scale(ys, a, evals(q, ys), n);
        lemma_interpolate(ys, q);
    }
}

/// For distinct abscissae and a polynomial with at most as many
/// coefficients as points, interpolation at zero through its values gives
/// its constant term.
pub proof fn lemma_lagrange_recovers(p: Seq<(u8, u8)>, c: Seq<u8>)
    requires
        distinct(xs_of(p)),
        1 <= c.len() <= p.len(),
        forall|j: int| 0 <= j < p.len() ==> #[trigger] p[j].1 == peval(c, p[j].0),
    ensures crate::security::gf256::lagrange_at_zero(p) == c[0],
{
    lemma_sum_points(p, p.len());
    assert(ys_of(p) =~= evals(c, xs_of(p)));
    lemma_interpolate(xs_of(p), c);
    lemma_mul_identities(peval(c.drop_first(), 0));
    lemma_xor(c[0], 0, 0);
}

} // verus!
