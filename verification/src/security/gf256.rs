use vstd::prelude::*;
use vstd::set_lib::*;
use vstd::relations::injective_on;

verus! {

/// Doubling in GF(2^8): multiplication by the polynomial `x`, reduced by
/// the AES polynomial `x^8 + x^4 + x^3 + x + 1`.
pub open spec fn xtime(a: u8) -> u8 {
    (a << 1u8) ^ (if a & 0x80u8 == 0 { 0u8 } else { 0x1bu8 })
}

/// Multiplication in GF(2^8), written as the XOR of the shifted copies of
/// `a` selected by the bits of `b`.
pub open spec fn fmul(a: u8, b: u8) -> u8 {
    let a1 = xtime(a);
    let a2 = xtime(a1);
    let a3 = xtime(a2);
    let a4 = xtime(a3);
    let a5 = xtime(a4);
    let a6 = xtime(a5);
    let a7 = xtime(a6);
    (if b & 1u8 == 0 { 0u8 } else { a })
    ^ (if b & 2u8 == 0 { 0u8 } else { a1 })
    ^ (if b & 4u8 == 0 { 0u8 } else { a2 })
    ^ (if b & 8u8 == 0 { 0u8 } else { a3 })
    ^ (if b & 16u8 == 0 { 0u8 } else { a4 })
    ^ (if b & 32u8 == 0 { 0u8 } else { a5 })
    ^ (if b & 64u8 == 0 { 0u8 } else { a6 })
    ^ (if b & 128u8 == 0 { 0u8 } else { a7 })
}

pub proof fn lemma_mul_comm(a: u8, b: u8)
    ensures fmul(a, b) == fmul(b, a),
{
    assert(fmul(a, b) == fmul(b, a)) by (bit_vector);
}

pub proof fn lemma_mul_distrib(a: u8, b: u8, c: u8)
    ensures fmul(a, b ^ c) == fmul(a, b) ^ fmul(a, c),
{
    assert(fmul(a, b ^ c) == fmul(a, b) ^ fmul(a, c)) by (bit_vector);
}

pub proof fn lemma_mul_xtime(a: u8, b: u8)
    ensures fmul(a, xtime(b)) == xtime(fmul(a, b)),
{
    assert(fmul(a, xtime(b)) == xtime(fmul(a, b))) by (bit_vector);
}

pub proof fn lemma_no_zero_divisors(a: u8, b: u8)
    ensures fmul(a, b) == 0 ==> a == 0 || b == 0,
{
    assert(fmul(a, b) == 0 ==> a == 0 || b == 0) by (bit_vector);
}

pub proof fn lemma_mul_identities(a: u8)
    ensures
        fmul(a, 0) == 0,
        fmul(0, a) == 0,
        fmul(a, 1) == a,
        fmul(1, a) == a,
{
    assert(fmul(a, 0) == 0 && fmul(0, a) == 0 && fmul(a, 1) == a && fmul(1, a) == a)
        by (bit_vector);
}

/// XOR, the addition of GF(2^8), is commutative and associative, has
/// 0 as identity, and every element is its own negative.
pub proof fn lemma_xor(a: u8, b: u8, c: u8)
    ensures
        a ^ b == b ^ a,
        (a ^ b) ^ c == a ^ (b ^ c),
        a ^ 0 == a,
        0 ^ a == a,
        a ^ a == 0,
        (a ^ b == 0) == (a == b),
{
    assert(a ^ b == b ^ a && (a ^ b) ^ c == a ^ (b ^ c) && a ^ 0 == a && 0 ^ a == a && a ^ a
        == 0 && (a ^ b == 0) == (a == b)) by (bit_vector);
}

spec fn xt_pow(a: u8, i: nat) -> u8
    decreases i,
{
    if i == 0 { a } else { xtime(xt_pow(a, (i - 1) as nat)) }
}

proof fn lemma_mul_xt_pow(a: u8, b: u8, i: nat)
    ensures fmul(a, xt_pow(b, i)) == xt_pow(fmul(a, b), i),
    decreases i,
{
    if i > 0 {
        lemma_mul_xt_pow(a, b, (i - 1) as nat);
        lemma_mul_xtime(a, xt_pow(b, (i - 1) as nat));
    }
}

proof fn lemma_mul_select(a: u8, b: u8, bit: bool)
    ensures fmul(a, if bit { b } else { 0u8 }) == if bit { fmul(a, b) } else { 0u8 },
{
    lemma_mul_identities(a);
}

pub proof fn lemma_mul_assoc(a: u8, b: u8, c: u8)
    ensures fmul(a, fmul(b, c)) == fmul(fmul(a, b), c),
{
    let y = fmul(a, b);
    reveal_with_fuel(xt_pow, 8);
    let t0 = if c & 1u8 == 0 { 0u8 } else { xt_pow(b, 0) };
    let t1 = if c & 2u8 == 0 { 0u8 } else { xt_pow(b, 1) };
    let t2 = if c & 4u8 == 0 { 0u8 } else { xt_pow(b, 2) };
    let t3 = if c & 8u8 == 0 { 0u8 } else { xt_pow(b, 3) };
    let t4 = if c & 16u8 == 0 { 0u8 } else { xt_pow(b, 4) };
    let t5 = if c & 32u8 == 0 { 0u8 } else { xt_pow(b, 5) };
    let t6 = if c & 64u8 == 0 { 0u8 } else { xt_pow(b, 6) };
    let t7 = if c & 128u8 == 0 { 0u8 } else { xt_pow(b, 7) };
    assert(fmul(b, c) == t0 ^ t1 ^ t2 ^ t3 ^ t4 ^ t5 ^ t6 ^ t7);
    lemma_mul_distrib(a, t0 ^ t1 ^ t2 ^ t3 ^ t4 ^ t5 ^ t6, t7);
    lemma_mul_distrib(a, t0 ^ t1 ^ t2 ^ t3 ^ t4 ^ t5, t6);
    lemma_mul_distrib(a, t0 ^ t1 ^ t2 ^ t3 ^ t4, t5);
    lemma_mul_distrib(a, t0 ^ t1 ^ t2 ^ t3, t4);
    lemma_mul_distrib(a, t0 ^ t1 ^ t2, t3);
    lemma_mul_distrib(a, t0 ^ t1, t2);
    lemma_mul_distrib(a, t0, t1);
    lemma_mul_select(a, xt_pow(b, 0), c & 1u8 != 0);
    lemma_mul_select(a, xt_pow(b, 1), c & 2u8 != 0);
    lemma_mul_select(a, xt_pow(b, 2), c & 4u8 != 0);
    lemma_mul_select(a, xt_pow(b, 3), c & 8u8 != 0);
    lemma_mul_select(a, xt_pow(b, 4), c & 16u8 != 0);
    lemma_mul_select(a, xt_pow(b, 5), c & 32u8 != 0);
    lemma_mul_select(a, xt_pow(b, 6), c & 64u8 != 0);
    lemma_mul_select(a, xt_pow(b, 7), c & 128u8 != 0);
    lemma_mul_xt_pow(a, b, 0);
    lemma_mul_xt_pow(a, b, 1);
    lemma_mul_xt_pow(a, b, 2);
    lemma_mul_xt_pow(a, b, 3);
    lemma_mul_xt_pow(a, b, 4);
    lemma_mul_xt_pow(a, b, 5);
    lemma_mul_xt_pow(a, b, 6);
    lemma_mul_xt_pow(a, b, 7);
}

pub proof fn lemma_mul_cancel(a: u8, x: u8, y: u8)
    requires
        a != 0,
        fmul(a, x) == fmul(a, y),
    ensures
        x == y,
{
    lemma_mul_distrib(a, x, y);
    lemma_xor(fmul(a, x), fmul(a, y), 0);
    lemma_no_zero_divisors(a, x ^ y);
    lemma_xor(x, y, 0);
}

/// Every non-zero element has a multiplicative inverse: multiplication by
/// a non-zero `a` is injective on the 256 elements, hence onto.
pub proof fn lemma_inverse_exists(a: u8)
    requires a != 0,
    ensures exists|x: u8| fmul(a, x) == 1,
{
    let dom = set_int_range(0, 256);
    let f = |i: int| fmul(a, i as u8) as int;
    lemma_int_range(0, 256);
    assert(injective_on(f, dom)) by {
        assert forall|i: int, j: int|
            dom.contains(i) && dom.contains(j) && #[trigger] f(i) == #[trigger] f(j) implies i == j by {
            lemma_mul_cancel(a, i as u8, j as u8);
        }
    }
    let img = dom.map(f);
    lemma_map_size(dom, img, f);
    assert(img.subset_of(dom));
    lemma_subset_equality(img, dom);
    assert(dom.contains(1));
    assert(img.contains(1));
    let w = choose|i: int| dom.contains(i) && 1 == f(i);
    assert(fmul(a, w as u8) == 1);
}

/// The inverse of a non-zero element (arbitrary for 0).
pub open spec fn finv(a: u8) -> u8 {
    choose|x: u8| fmul(a, x) == 1
}

pub proof fn lemma_finv(a: u8)
    requires a != 0,
    ensures
        fmul(a, finv(a)) == 1,
        fmul(finv(a), a) == 1,
        finv(a) != 0,
{
    lemma_inverse_exists(a);
    lemma_mul_comm(a, finv(a));
    lemma_mul_identities(a);
}

/// Division in GF(2^8): `a * b^-1`.
pub open spec fn fdiv(a: u8, b: u8) -> u8 {
    fmul(a, finv(b))
}

// ---------------------------------------------------------------------------
// Shift-and-add multiplication on 16-bit registers
// ---------------------------------------------------------------------------

/// The reduction polynomial `x^8 + x^4 + x^3 + x + 1`.
pub const GF_MODULUS: u16 = 0x11B;

/// One doubling step of the shift-and-add multiplier.
pub open spec fn raw_double(x: u16) -> u16 {
    if x & 0x80u16 != 0 { (x << 1u16) ^ 0x11Bu16 } else { x << 1u16 }
}

/// One accumulation step of the shift-and-add multiplier.
pub open spec fn raw_accumulate(r: u16, x: u16, y: u16) -> u16 {
    if y & 1u16 != 0 { r ^ x } else { r }
}

/// The multiplicand register after `i` steps.
pub open spec fn raw_x(a: u16, i: nat) -> u16
    decreases i,
{
    if i == 0 { a } else { raw_double(raw_x(a, (i - 1) as nat)) }
}

/// The multiplier register after `i` steps.
pub open spec fn raw_y(b: u16, i: nat) -> u16
    decreases i,
{
    if i == 0 { b } else { raw_y(b, (i - 1) as nat) >> 1u16 }
}

/// The accumulator after `i` steps.
pub open spec fn raw_r(a: u16, b: u16, i: nat) -> u16
    decreases i,
{
    if i == 0 {
        0
    } else {
        let j = (i - 1) as nat;
        raw_accumulate(raw_r(a, b, j), raw_x(a, j), raw_y(b, j))
    }
}

proof fn lemma_raw_double(x: u16)
    requires x < 256,
    ensures
        raw_double(x) < 256,
        raw_double(x) == xtime(x as u8) as u16,
{
    assert(x < 256 ==> raw_double(x) < 256 && raw_double(x) == xtime(x as u8) as u16)
        by (bit_vector);
}

proof fn lemma_raw_accumulate(r: u16, x: u16, y: u16)
    requires r < 256, x < 256,
    ensures
        raw_accumulate(r, x, y) < 256,
        raw_accumulate(r, x, y) == ((r as u8) ^ (if y & 1u16 == 0 { 0u8 } else { x as u8 })) as u16,
{
    assert(r < 256 && x < 256 ==> raw_accumulate(r, x, y) < 256 && raw_accumulate(r, x, y) == ((
    r as u8) ^ (if y & 1u16 == 0 { 0u8 } else { x as u8 })) as u16) by (bit_vector);
}

proof fn lemma_raw_bits(b: u16)
    ensures
        (b & 1u16 == 0) == ((b as u8) & 1u8 == 0),
        ((b >> 1u16) & 1u16 == 0) == ((b as u8) & 2u8 == 0),
        (((b >> 1u16) >> 1u16) & 1u16 == 0) == ((b as u8) & 4u8 == 0),
        ((((b >> 1u16) >> 1u16) >> 1u16) & 1u16 == 0) == ((b as u8) & 8u8 == 0),
        (((((b >> 1u16) >> 1u16) >> 1u16) >> 1u16) & 1u16 == 0) == ((b as u8) & 16u8 == 0),
        ((((((b >> 1u16) >> 1u16) >> 1u16) >> 1u16) >> 1u16) & 1u16 == 0) == ((b as u8) & 32u8
            == 0),
        (((((((b >> 1u16) >> 1u16) >> 1u16) >> 1u16) >> 1u16) >> 1u16) & 1u16 == 0) == ((b as u8)
            & 64u8 == 0),
        ((((((((b >> 1u16) >> 1u16) >> 1u16) >> 1u16) >> 1u16) >> 1u16) >> 1u16) & 1u16 == 0) == ((
        b as u8) & 128u8 == 0),
{
    assert((b & 1u16 == 0) == ((b as u8) & 1u8 == 0) && ((b >> 1u16) & 1u16 == 0) == ((b as u8)
        & 2u8 == 0) && (((b >> 1u16) >> 1u16) & 1u16 == 0) == ((b as u8) & 4u8 == 0) && ((((b
        >> 1u16) >> 1u16) >> 1u16) & 1u16 == 0) == ((b as u8) & 8u8 == 0) && (((((b >> 1u16)
        >> 1u16) >> 1u16) >> 1u16) & 1u16 == 0) == ((b as u8) & 16u8 == 0) && ((((((b >> 1u16)
        >> 1u16) >> 1u16) >> 1u16) >> 1u16) & 1u16 == 0) == ((b as u8) & 32u8 == 0) && (((((((b
        >> 1u16) >> 1u16) >> 1u16) >> 1u16) >> 1u16) >> 1u16) & 1u16 == 0) == ((b as u8) & 64u8
        == 0) && ((((((((b >> 1u16) >> 1u16) >> 1u16) >> 1u16) >> 1u16) >> 1u16) >> 1u16) & 1u16
        == 0) == ((b as u8) & 128u8 == 0)) by (bit_vector);
}

/// On 8-bit inputs the shift-and-add multiplier computes `fmul`.
pub proof fn lemma_raw_is_fmul(a: u16, b: u16)
    requires a < 256,
    ensures raw_r(a, b, 8) == fmul(a as u8, b as u8) as u16,
{
    reveal_with_fuel(raw_r, 9);
    reveal_with_fuel(raw_x, 9);
    reveal_with_fuel(raw_y, 9);
    lemma_raw_double(raw_x(a, 0));
    lemma_raw_double(raw_x(a, 1));
    lemma_raw_double(raw_x(a, 2));
    lemma_raw_double(raw_x(a, 3));
    lemma_raw_double(raw_x(a, 4));
    lemma_raw_double(raw_x(a, 5));
    lemma_raw_double(raw_x(a, 6));
    lemma_raw_bits(b);
    lemma_raw_accumulate(raw_r(a, b, 0), raw_x(a, 0), raw_y(b, 0));
    lemma_raw_accumulate(raw_r(a, b, 1), raw_x(a, 1), raw_y(b, 1));
    lemma_raw_accumulate(raw_r(a, b, 2), raw_x(a, 2), raw_y(b, 2));
    lemma_raw_accumulate(raw_r(a, b, 3), raw_x(a, 3), raw_y(b, 3));
    lemma_raw_accumulate(raw_r(a, b, 4), raw_x(a, 4), raw_y(b, 4));
    lemma_raw_accumulate(raw_r(a, b, 5), raw_x(a, 5), raw_y(b, 5));
    lemma_raw_accumulate(raw_r(a, b, 6), raw_x(a, 6), raw_y(b, 6));
    lemma_raw_accumulate(raw_r(a, b, 7), raw_x(a, 7), raw_y(b, 7));
    let a8 = a as u8;
    let b8 = b as u8;
    let a1 = xtime(a8);
    let a2 = xtime(a1);
    let a3 = xtime(a2);
    let a4 = xtime(a3);
    let a5 = xtime(a4);
    let a6 = xtime(a5);
    let a7 = xtime(a6);
    assert(raw_x(a, 1) == a1 as u16);
    assert(raw_x(a, 2) == a2 as u16);
    assert(raw_x(a, 3) == a3 as u16);
    assert(raw_x(a, 4) == a4 as u16);
    assert(raw_x(a, 5) == a5 as u16);
    assert(raw_x(a, 6) == a6 as u16);
    assert(raw_x(a, 7) == a7 as u16);
    let t0 = if b8 & 1u8 == 0 { 0u8 } else { a8 };
    let t1 = if b8 & 2u8 == 0 { 0u8 } else { a1 };
    let t2 = if b8 & 4u8 == 0 { 0u8 } else { a2 };
    let t3 = if b8 & 8u8 == 0 { 0u8 } else { a3 };
    let t4 = if b8 & 16u8 == 0 { 0u8 } else { a4 };
    let t5 = if b8 & 32u8 == 0 { 0u8 } else { a5 };
    let t6 = if b8 & 64u8 == 0 { 0u8 } else { a6 };
    let t7 = if b8 & 128u8 == 0 { 0u8 } else { a7 };
    lemma_xor(t0, 0u8, 0u8);
    assert(raw_y(b, 0) == b);
    assert(raw_r(a, b, 0) == 0u16);
    assert((0u16 as u8) == 0u8);
    assert((b & 1u16 == 0) == (b8 & 1u8 == 0));
    assert(raw_accumulate(0u16, a, b) == ((0u8) ^ (if b & 1u16 == 0 { 0u8 } else { a8 })) as u16);
    assert(((0u8) ^ (if b & 1u16 == 0 { 0u8 } else { a8 })) == (0u8 ^ t0));
    assert((0u8 ^ t0) == t0);
    assert(raw_accumulate(0u16, a, b) == t0 as u16);
    assert(raw_r(a, b, 1) == t0 as u16);
    assert(raw_r(a, b, 2) == (t0 ^ t1) as u16);
    assert(raw_r(a, b, 3) == (t0 ^ t1 ^ t2) as u16);
    assert(raw_r(a, b, 4) == (t0 ^ t1 ^ t2 ^ t3) as u16);
    assert(raw_r(a, b, 5) == (t0 ^ t1 ^ t2 ^ t3 ^ t4) as u16);
    assert(raw_r(a, b, 6) == (t0 ^ t1 ^ t2 ^ t3 ^ t4 ^ t5) as u16);
    assert(raw_r(a, b, 7) == (t0 ^ t1 ^ t2 ^ t3 ^ t4 ^ t5 ^ t6) as u16);
    assert(raw_r(a, b, 8) == (t0 ^ t1 ^ t2 ^ t3 ^ t4 ^ t5 ^ t6 ^ t7) as u16);
}

/// Raw GF(2^8) multiplication by the shift-and-add ("Russian peasant")
/// method: eight steps of accumulate, double-and-reduce, halve.
pub fn gf_mul_raw(a: u16, b: u16) -> (r: u16)
    ensures
        r == raw_r(a, b, 8),
        a < 256 ==> r == fmul(a as u8, b as u8) as u16,
{
    let mut result: u16 = 0;
    let mut x: u16 = a;
    let mut y: u16 = b;
    let mut i: u32 = 0;
    while i < 8
        invariant
            i <= 8,
            x == raw_x(a, i as nat),
            y == raw_y(b, i as nat),
            result == raw_r(a, b, i as nat),
        decreases 8 - i,
    {
        if y & 1 != 0 {
            result = result ^ x;
        }
        let hi_bit = x & 0x80;
        x = x << 1;
        if hi_bit != 0 {
            x = x ^ GF_MODULUS;
        }
        y = y >> 1;
        i = i + 1;
    }
    proof {
        if a < 256 {
            lemma_raw_is_fmul(a, b);
        }
    }
    result
}

// ---------------------------------------------------------------------------
// Powers, tables and field operations
// ---------------------------------------------------------------------------

/// `a^n` in GF(2^8).
pub open spec fn fpow(a: u8, n: nat) -> u8
    decreases n,
{
    if n == 0 { 1 } else { fmul(fpow(a, (n - 1) as nat), a) }
}

/// Powers of the generator 3: the contents of the exponentiation table.
pub open spec fn gexp(i: nat) -> u8 {
    fpow(3, i)
}

/// The logarithm table after recording the first `i` powers of the
/// generator: entry `3^j` holds `j` for each `j < i` (later writes win),
/// every other entry holds 0.
pub open spec fn log_table_prefix(i: nat) -> Seq<u8>
    decreases i,
{
    if i == 0 {
        Seq::new(256, |j: int| 0u8)
    } else {
        let j = (i - 1) as nat;
        log_table_prefix(j).update(gexp(j) as int, j as u8)
    }
}

proof fn lemma_log_table_prefix_len(i: nat)
    ensures log_table_prefix(i).len() == 256,
    decreases i,
{
    if i > 0 {
        lemma_log_table_prefix_len((i - 1) as nat);
    }
}

/// Builds the exponentiation table: entry `i` is `3^i`.
pub fn build_exp_table() -> (table: [u8; 512])
    ensures
        forall|i: int| 0 <= i < 512 ==> #[trigger] table@[i] == gexp(i as nat),
{
    let mut table = [0u8; 512];
    let mut x: u16 = 1;
    let mut i: usize = 0;
    while i < 512
        invariant
            i <= 512,
            x < 256,
            x as u8 == gexp(i as nat),
            table@.len() == 512,
            forall|j: int| 0 <= j < i ==> #[trigger] table@[j] == gexp(j as nat),
        decreases 512 - i,
    {
        table.set(i, x as u8);
        x = gf_mul_raw(x, 3);
        i = i + 1;
    }
    table
}

/// Builds the logarithm table: entry `3^i` holds `i` for `i < 255`;
/// entry 0 holds the sentinel 0 (the logarithm of 0 is undefined).
pub fn build_log_table() -> (table: [u8; 256])
    ensures
        table@ == log_table_prefix(255),
{
    let mut table = [0u8; 256];
    let mut x: u16 = 1;
    let mut i: usize = 0;
    assert(table@ =~= log_table_prefix(0));
    while i < 255
        invariant
            i <= 255,
            x < 256,
            x as u8 == gexp(i as nat),
            table@ == log_table_prefix(i as nat),
        decreases 255 - i,
    {
        proof {
            lemma_log_table_prefix_len(i as nat);
        }
        table.set(x as usize, i as u8);
        x = gf_mul_raw(x, 3);
        i = i + 1;
    }
    table
}

/// GF(2^8) multiplication.
pub fn gf_mul(a: u8, b: u8) -> (r: u8)
    ensures r == fmul(a, b),
{
    if a == 0 || b == 0 {
        proof {
            lemma_mul_identities(a);
            lemma_mul_identities(b);
            lemma_mul_comm(a, b);
        }
        return 0;
    }
    gf_mul_raw(a as u16, b as u16) as u8
}

/// GF(2^8) addition: XOR.
pub fn gf_add(a: u8, b: u8) -> (r: u8)
    ensures r == a ^ b,
{
    a ^ b
}

/// The multiplicative inverse of a non-zero element, found by search.
fn gf_inv(b: u8) -> (r: u8)
    requires b != 0,
    ensures r == finv(b),
{
    proof {
        lemma_finv(b);
    }
    let ghost w = finv(b);
    let mut x: u8 = 1;
    loop
        invariant
            b != 0,
            w == finv(b),
            fmul(b, w) == 1,
            1 <= x <= w,
        decreases w - x,
    {
        if gf_mul(b, x) == 1 {
            proof {
                lemma_mul_cancel(b, x, w);
            }
            return x;
        }
        proof {
            if x == w {
                assert(false);
            }
        }
        x = x + 1;
    }
}

/// GF(2^8) division: `a / b`. Division by zero is only defined for a
/// zero dividend (the result is then 0).
pub fn gf_div(a: u8, b: u8) -> (r: u8)
    requires a == 0 || b != 0,
    ensures r == fdiv(a, b),
{
    if a == 0 {
        proof {
            lemma_mul_identities(finv(b));
        }
        return 0;
    }
    let inv = gf_inv(b);
    gf_mul(a, inv)
}

pub proof fn lemma_fpow_add(a: u8, m: nat, n: nat)
    ensures fpow(a, m + n) == fmul(fpow(a, m), fpow(a, n)),
    decreases n,
{
    if n == 0 {
        lemma_mul_identities(fpow(a, m));
    } else {
        lemma_fpow_add(a, m, (n - 1) as nat);
        assert(fpow(a, m + n) == fmul(fpow(a, (m + n - 1) as nat), a));
        lemma_mul_assoc(fpow(a, m), fpow(a, (n - 1) as nat), a);
    }
}

proof fn lemma_fpow_square(a: u8, k: nat)
    ensures fpow(a, 2 * k) == fpow(fmul(a, a), k),
    decreases k,
{
    if k > 0 {
        lemma_fpow_square(a, (k - 1) as nat);
        lemma_fpow_add(a, (2 * (k - 1)) as nat, 2);
        reveal_with_fuel(fpow, 3);
        lemma_mul_identities(a);
        assert(fpow(a, 2) == fmul(a, a));
        assert(2 * k == (2 * (k - 1)) as nat + 2);
    }
}

/// GF(2^8) exponentiation: `a^n`, by square-and-multiply.
pub fn gf_pow(a: u8, n: u32) -> (r: u8)
    ensures r == fpow(a, n as nat),
{
    if n == 0 {
        return 1;
    }
    if a == 0 {
        proof {
            lemma_mul_identities(fpow(0, (n - 1) as nat));
        }
        return 0;
    }
    let mut result: u8 = 1;
    let mut base: u8 = a;
    let mut e: u32 = n;
    proof {
        lemma_mul_identities(fpow(a, n as nat));
        lemma_mul_comm(1, fpow(a, n as nat));
    }
    while e > 0
        invariant
            fmul(result, fpow(base, e as nat)) == fpow(a, n as nat),
        decreases e,
    {
        let ghost old_result = result;
        let ghost old_base = base;
        let ghost old_e = e;
        let half = e / 2;
        proof {
            lemma_fpow_square(old_base, half as nat);
        }
        if e % 2 == 1 {
            proof {
                let q = fpow(fmul(old_base, old_base), half as nat);
                lemma_fpow_add(old_base, 2 * (half as nat), 1);
                reveal_with_fuel(fpow, 2);
                lemma_mul_identities(old_base);
                assert(fpow(old_base, 1) == old_base);
                assert(fpow(old_base, old_e as nat) == fmul(q, old_base));
                lemma_mul_assoc(old_result, q, old_base);
                lemma_mul_comm(q, old_base);
                lemma_mul_assoc(old_result, old_base, q);
            }
            result = gf_mul(result, base);
        }
        base = gf_mul(base, base);
        e = half;
    }
    proof {
        lemma_mul_identities(result);
    }
    result
}

// ---------------------------------------------------------------------------
// Polynomials
// ---------------------------------------------------------------------------

/// The value at `x` of the polynomial with coefficients `c` (constant
/// term first), in Horner form.
pub open spec fn peval(c: Seq<u8>, x: u8) -> u8
    decreases c.len(),
{
    if c.len() == 0 { 0 } else { fmul(peval(c.drop_first(), x), x) ^ c[0] }
}

/// Evaluates a polynomial at `x` over GF(2^8) by Horner's method.
pub fn poly_eval(coeffs: &[u8], x: u8) -> (r: u8)
    ensures r == peval(coeffs@, x),
{
    let n = coeffs.len();
    let mut result: u8 = 0;
    let mut i: usize = n;
    while i > 0
        invariant
            n == coeffs@.len(),
            i <= n,
            result == peval(coeffs@.subrange(i as int, n as int), x),
        decreases i,
    {
        i = i - 1;
        assert(coeffs@.subrange(i as int, n as int).drop_first() =~= coeffs@.subrange(
            i + 1,
            n as int,
        ));
        result = gf_add(gf_mul(result, x), coeffs[i]);
    }
    assert(coeffs@.subrange(0, n as int) =~= coeffs@);
    result
}

// ---------------------------------------------------------------------------
// Lagrange interpolation at zero
// ---------------------------------------------------------------------------

/// Product of `x_j` over `j < n`, `j != i`.
pub open spec fn lag_num(p: Seq<(u8, u8)>, i: int, n: nat) -> u8
    decreases n,
{
    if n == 0 {
        1
    } else if n - 1 == i {
        lag_num(p, i, (n - 1) as nat)
    } else {
        fmul(lag_num(p, i, (n - 1) as nat), p[n - 1].0)
    }
}

/// Product of `x_i + x_j` over `j < n`, `j != i`.
pub open spec fn lag_den(p: Seq<(u8, u8)>, i: int, n: nat) -> u8
    decreases n,
{
    if n == 0 {
        1
    } else if n - 1 == i {
        lag_den(p, i, (n - 1) as nat)
    } else {
        fmul(lag_den(p, i, (n - 1) as nat), p[i].0 ^ p[n - 1].0)
    }
}

/// The `i`-th term `y_i * L_i(0)` of the interpolation sum.
pub open spec fn lag_term(p: Seq<(u8, u8)>, i: int) -> u8 {
    fmul(p[i].1, fdiv(lag_num(p, i, p.len()), lag_den(p, i, p.len())))
}

/// The sum of the first `n` interpolation terms.
pub open spec fn lag_sum(p: Seq<(u8, u8)>, n: nat) -> u8
    decreases n,
{
    if n == 0 { 0 } else { lag_sum(p, (n - 1) as nat) ^ lag_term(p, n - 1) }
}

/// The value at 0 of the polynomial through the points `p`.
pub open spec fn lagrange_at_zero(p: Seq<(u8, u8)>) -> u8 {
    lag_sum(p, p.len())
}

/// Every basis denominator that is needed is non-zero: a zero
/// denominator only occurs with a zero numerator.
pub open spec fn lagrange_defined(p: Seq<(u8, u8)>) -> bool {
    forall|i: int|
        0 <= i < p.len() ==> #[trigger] lag_num(p, i, p.len()) == 0 || lag_den(p, i, p.len()) != 0
}

/// Lagrange interpolation at `x = 0`: computes `f(0)` for the polynomial
/// `f` through the given points.
pub fn lagrange_interpolate_at_zero(points: &[(u8, u8)]) -> (r: u8)
    requires lagrange_defined(points@),
    ensures r == lagrange_at_zero(points@),
{
    let k = points.len();
    let mut result: u8 = 0;
    let mut i: usize = 0;
    while i < k
        invariant
            k == points@.len(),
            i <= k,
            lagrange_defined(points@),
            result == lag_sum(points@, i as nat),
        decreases k - i,
    {
        let (x_i, y_i) = points[i];
        let mut numerator: u8 = 1;
        let mut denominator: u8 = 1;
        let mut j: usize = 0;
        while j < k
            invariant
                k == points@.len(),
                i < k,
                j <= k,
                x_i == points@[i as int].0,
                numerator == lag_num(points@, i as int, j as nat),
                denominator == lag_den(points@, i as int, j as nat),
            decreases k - j,
        {
            if i != j {
                let x_j = points[j].0;
                numerator = gf_mul(numerator, x_j);
                denominator = gf_mul(denominator, gf_add(x_i, x_j));
            }
            j = j + 1;
        }
        assert(lag_num(points@, i as int, k as nat) == 0 || lag_den(points@, i as int, k as nat)
            != 0);
        let basis = gf_div(numerator, denominator);
        result = gf_add(result, gf_mul(y_i, basis));
        i = i + 1;
    }
    result
}

/// Division undoes multiplication: `(a * b) / b == a` for `b != 0`.
pub proof fn lemma_mul_div_roundtrip(a: u8, b: u8)
    requires b != 0,
    ensures fdiv(fmul(a, b), b) == a,
{
    lemma_finv(b);
    lemma_mul_assoc(a, b, finv(b));
    lemma_mul_identities(a);
}

/// `a * (1 / a) == 1` for `a != 0`.
pub proof fn lemma_div_inverse(a: u8)
    requires a != 0,
    ensures fmul(a, fdiv(1, a)) == 1,
{
    lemma_finv(a);
    lemma_mul_identities(finv(a));
}

} // verus!
