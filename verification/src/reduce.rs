//! Reduction modulo `Q` on 64-bit coefficients: `reduce32` and `caddq` as in
//! the reference, and Plantard multiplication for products (Huang, Zhang,
//! Zhao, Liu, Cheung, Koç, Chen, *Improved Plantard Arithmetic for
//! Lattice-based Cryptography*, TCHES 2022).
use vstd::prelude::*;
use crate::params::Q;

verus! {

/// `2^64`.
pub open spec fn pow2_64() -> int {
    18446744073709551616
}

/// `a ≡ b (mod Q)`.
pub open spec fn cong(a: int, b: int) -> bool {
    (a - b) % (Q as int) == 0
}

/// The standard representative of `a` modulo `Q`, in `[0, Q)`.
pub open spec fn modq(a: int) -> int {
    a % (Q as int)
}

/// `x` modulo `2^64`, read as a two's-complement 64-bit integer.
pub open spec fn signed64(x: int) -> int {
    if x % pow2_64() >= 0x8000_0000_0000_0000 {
        x % pow2_64() - pow2_64()
    } else {
        x % pow2_64()
    }
}

/// The factor `b` that a Plantard constant `b_qinv = b · Q^-1 mod 2^64`
/// stands for: `b_qinv · Q mod 2^64`, signed.
pub open spec fn plantard_factor(b_qinv: u64) -> int {
    signed64(b_qinv * Q)
}

/// The representative of `a` modulo `Q` in `[−(Q−1)/2, (Q−1)/2]`.
pub open spec fn centered(a: int) -> int {
    if modq(a) > (Q as int - 1) / 2 {
        modq(a) - Q
    } else {
        modq(a)
    }
}

/// A multiple of `Q` is congruent to 0.
pub proof fn lemma_multiple_of_q(x: int, k: int)
    requires
        x == k * Q,
    ensures
        x % (Q as int) == 0,
{
    vstd::arithmetic::div_mod::lemma_mod_multiples_basic(k, Q as int);
}

/// A number congruent to 0 is a multiple of `Q`.
pub proof fn lemma_divisible_by_q(x: int)
    requires
        x % (Q as int) == 0,
    ensures
        x == (x / (Q as int)) * Q,
{
    vstd::arithmetic::div_mod::lemma_fundamental_div_mod(x, Q as int);
}

/// Congruence is transitive and symmetric, and respects `+` and `−`.
pub proof fn lemma_cong_add(a: int, a2: int, b: int, b2: int)
    requires
        cong(a, a2),
        cong(b, b2),
    ensures
        cong(a + b, a2 + b2),
        cong(a - b, a2 - b2),
        cong(a2, a),
{
    lemma_divisible_by_q(a - a2);
    lemma_divisible_by_q(b - b2);
    let k1 = (a - a2) / (Q as int);
    let k2 = (b - b2) / (Q as int);
    lemma_multiple_of_q(a + b - (a2 + b2), k1 + k2);
    lemma_multiple_of_q(a - b - (a2 - b2), k1 - k2);
    lemma_multiple_of_q(a2 - a, -k1);
}

/// Congruence is transitive.
pub proof fn lemma_cong_trans(a: int, b: int, c: int)
    requires
        cong(a, b),
        cong(b, c),
    ensures
        cong(a, c),
{
    lemma_divisible_by_q(a - b);
    lemma_divisible_by_q(b - c);
    lemma_multiple_of_q(a - c, (a - b) / (Q as int) + (b - c) / (Q as int));
}

/// Congruence respects multiplication by a common factor.
pub proof fn lemma_cong_mul(z: int, a: int, a2: int)
    requires
        cong(a, a2),
    ensures
        cong(z * a, z * a2),
{
    lemma_divisible_by_q(a - a2);
    let k = (a - a2) / (Q as int);
    assert(z * a - z * a2 == (z * k) * Q) by (nonlinear_arith)
        requires a - a2 == k * Q;
    lemma_multiple_of_q(z * a - z * a2, z * k);
}

/// Every integer is congruent to its standard representative.
pub proof fn lemma_cong_modq(a: int)
    ensures
        cong(a, modq(a)),
        0 <= modq(a) < Q,
{
    vstd::arithmetic::div_mod::lemma_fundamental_div_mod(a, Q as int);
    lemma_multiple_of_q(a - modq(a), a / (Q as int));
}

/// Congruent numbers have the same standard representative.
pub proof fn lemma_cong_same_modq(a: int, b: int)
    requires
        cong(a, b),
    ensures
        modq(a) == modq(b),
{
    lemma_divisible_by_q(a - b);
    let k = (a - b) / (Q as int);
    vstd::arithmetic::div_mod::lemma_mod_multiples_vanish(k, b, Q as int);
    assert(a == k * Q + b);
}

/// `Q^-1 mod 2^64`: one Newton step `x ← x·(2 − Q·x)` on `QINV`.
pub const QINV64: u64 = 1732267787797143553;

/// `QINV64` inverts `Q` modulo `2^64`, and is the Newton step on `QINV`.
pub proof fn lemma_qinv64()
    ensures
        (QINV64 as int * Q) % pow2_64() == 1,
        plantard_factor(QINV64) == 1,
        QINV64 == (crate::params::QINV as u64).wrapping_mul(
            2u64.wrapping_sub((Q as u64).wrapping_mul(crate::params::QINV as u64)),
        ),
{
    assert((1732267787797143553int * 8380417int) % 18446744073709551616int == 1)
        by (nonlinear_arith);
    assert(1732267787797143553u64 == (58728449u64).wrapping_mul(
        2u64.wrapping_sub((8380417u64).wrapping_mul(58728449u64)),
    )) by (nonlinear_arith);
}

/// `r ≡ a (mod Q)` with `|r| ≤ 6283008`, for `−2^31 ≤ a ≤ 2^31 − 2^22 − 1`:
/// `a` minus the multiple of `Q` given by `a / 2^23` rounded to nearest.
/// The one input `a = −255 · 2^23 − 2^22` gives `r = −6283009`.
pub fn reduce32(a: i64) -> (r: i64)
    requires
        -2147483648 <= a <= 2147483647 - 4194304,
    ensures
        r == a - Q * ((a + 4194304) / 8388608),
        cong(r as int, a as int),
        -6283009 <= r <= 6283008,
        a != -2143289344 ==> -6283008 <= r,
{
    assert(1i64 << 22u64 == 4194304) by (bit_vector);
    let s = a + (1i64 << 22u64);
    let t = s >> 23u64;
    proof {
        assert(t * 8388608 <= s < t * 8388608 + 8388608) by (bit_vector)
            requires
                t == s >> 23u64,
        ;
        assert(t == s / 8388608);
        vstd::arithmetic::div_mod::lemma_mod_multiples_basic(-t as int, Q as int);
        assert((a - t * Q - a) == (-t as int) * Q);
    }
    a - t * Q
}

/// Adds `Q` if `a` is negative.
pub fn caddq(a: i64) -> (r: i64)
    ensures
        r == if a < 0 { a + Q } else { a as int },
{
    proof {
        assert(((a >> 63u64) & 8380417i64) == if a < 0 { 8380417i64 } else { 0i64 })
            by (bit_vector);
    }
    a + ((a >> 63u64) & Q)
}

/// The Plantard product of an integer `a` and a 64-bit constant `b`, as
/// the four machine steps compute it: `W = a · b mod 2^64` (signed),
/// `r = ⌊(⌊W / 2^32⌋ + 2^8) · Q / 2^32⌋`.
#[verifier::spinoff_prover]
#[verifier::rlimit(50)]
proof fn lemma_plantard_steps(a: i64, b: u64, w: i64, r1: i64, p: i64, r: i64)
    requires
        (a as int * plantard_factor(b)) <= Q * Q * 65536,
        -(Q * Q * 65536) <= (a as int * plantard_factor(b)),
        w == a.wrapping_mul(b as i64),
        r1 == w >> 32u64,
        p == (r1 + 256) * Q,
        r == p >> 32u64,
    ensures
        r * pow2_64() == Q * w - a * plantard_factor(b),
        -(Q + 1) / 2 <= r <= (Q - 1) / 2,
{
    let R = pow2_64();
    let bs = (b as i64) as int;
    assert((b as i64) as int == if b < 0x8000_0000_0000_0000u64 { b as int } else { b as int - 0x1_0000_0000_0000_0000 })
        by (bit_vector);
    let e: int = if b < 0x8000_0000_0000_0000 { 0 } else { 1 };
    assert(bs == b - e * R);
    // w = a·bs − J·R for an integer J.
    let x = a * bs;
    let j: int = x / R + (if x % R >= 0x8000_0000_0000_0000 { 1int } else { 0int });
    assert(w == x - j * R);
    // plantard_factor(b) = b·Q − G·R for an integer G.
    let y = b * Q;
    let g: int = y / R + (if y % R >= 0x8000_0000_0000_0000 { 1int } else { 0int });
    let f = plantard_factor(b);
    assert(f == y - g * R);
    let m: int = a * g - a * e * Q - j * Q;
    assert(Q * w - a * f == m * R) by (nonlinear_arith)
        requires
            w == x - j * R,
            x == a * bs,
            bs == b - e * R,
            f == y - g * R,
            y == b * Q,
            m == a * g - a * e * Q - j * Q,
    ;
    assert(r1 * 4294967296 <= w < r1 * 4294967296 + 4294967296) by (bit_vector)
        requires
            r1 == w >> 32u64,
    ;
    assert(r * 4294967296 <= p < r * 4294967296 + 4294967296) by (bit_vector)
        requires
            r == p >> 32u64,
    ;
    let w0 = w - r1 * 4294967296;
    let dd = a * f - Q * w0 + Q * 1099511627776;
    assert(p * 4294967296 == m * R + dd);
    assert(0 <= dd < R);
    // Hence p = m·2^32 + dd / 2^32 with dd / 2^32 in [0, 2^32).
    assert(p - m * 4294967296 >= 0);
    assert(p - m * 4294967296 < 4294967296);
    assert(r == m);
}

/// Improved Plantard multiplication (Algorithm 10, Theorem 1) with word
/// size `l = 32` and `α = 8`, admitted by `Q < 2^(l − α − 1) = 2^23`.
/// `b_qinv = b · Q^-1 mod 2^64` is precomputed for the constant operand `b`
/// (`plantard_factor`). For `|a · b| ≤ Q^2 · 2^16`:
/// `r · 2^64 = Q · (a · b_qinv mod 2^64) − a · b`, so `r ≡ a · b · (−2^-64)
/// (mod Q)`, and `−(Q+1)/2 ≤ r < Q/2`. With `b_qinv = QINV64` it is the
/// Plantard reduction (Algorithm 13): `r ≡ a · (−2^-64)`.
pub fn plantard(a: i64, b_qinv: u64) -> (r: i64)
    requires
        -(Q * Q * 65536) <= (a as int * plantard_factor(b_qinv)) <= Q * Q * 65536,
    ensures
        r * pow2_64() == Q * signed64(a * ((b_qinv as i64) as int)) - a * plantard_factor(b_qinv),
        cong(r * pow2_64(), -(a * plantard_factor(b_qinv))),
        -(Q + 1) / 2 <= r <= (Q - 1) / 2,
{
    let w = a.wrapping_mul(b_qinv as i64);
    let r1 = w >> 32u64;
    proof {
        assert(-2147483648 <= r1 <= 2147483647) by (bit_vector)
            requires
                r1 == w >> 32u64,
        ;
    }
    let p = (r1 + 256) * Q;
    let r = p >> 32u64;
    proof {
        lemma_plantard_steps(a, b_qinv, w, r1, p, r);
        assert(w as int == signed64(a * ((b_qinv as i64) as int)));
        let z = r * pow2_64() + a * plantard_factor(b_qinv);
        assert(z == Q * w);
        vstd::arithmetic::div_mod::lemma_mod_multiples_basic(w as int, Q as int);
        assert(z % (Q as int) == 0);
    }
    r
}

/// `2^64` is invertible modulo `Q`, so a congruence may be divided by it.
pub proof fn lemma_cancel_pow2_64(x: int, y: int)
    requires
        cong(x * pow2_64(), y * pow2_64()),
    ensures
        cong(x, y),
{
    let k = 7593442int;
    let q = Q as int;
    // 2^64 · k = 1 + c · Q
    let c = (pow2_64() * k - 1) / q;
    assert(pow2_64() * k == 1 + c * q) by (nonlinear_arith)
        requires q == 8380417, c == (pow2_64() * 7593442 - 1) / q, k == 7593442;
    let d = x - y;
    assert(d * pow2_64() == x * pow2_64() - y * pow2_64()) by (nonlinear_arith)
        requires d == x - y;
    let t = (d * pow2_64()) / q;
    assert(d * pow2_64() == t * q) by {
        vstd::arithmetic::div_mod::lemma_fundamental_div_mod(d * pow2_64(), q);
    }
    assert(d == t * k * q - d * c * q) by (nonlinear_arith)
        requires
            d * pow2_64() == t * q,
            pow2_64() * k == 1 + c * q,
    ;
    assert(d == (t * k - d * c) * q) by (nonlinear_arith)
        requires d == t * k * q - d * c * q;
    vstd::arithmetic::div_mod::lemma_mod_multiples_basic(t * k - d * c, q);
}

/// `a · b mod Q` as a standard representative. A 128-bit product, for
/// computing constants.
pub fn mul_mod(a: i64, b: i64) -> (r: i64)
    ensures
        r == modq(a * b),
        0 <= r < Q,
{
    proof {
        assert(-(0x8000_0000_0000_0000int * 0x8000_0000_0000_0000int) <= a * b
            <= 0x8000_0000_0000_0000int * 0x8000_0000_0000_0000int) by (nonlinear_arith)
            requires
                -0x8000_0000_0000_0000int <= a < 0x8000_0000_0000_0000int,
                -0x8000_0000_0000_0000int <= b < 0x8000_0000_0000_0000int,
        ;
    }
    let x = (a as i128) * (b as i128);
    let r = x.checked_rem_euclid(Q as i128).unwrap();
    r as i64
}

/// The Plantard constant for multiplying by `m`: `b · Q^-1 mod 2^64` with
/// `b ≡ −m · 2^64 (mod Q)` centred, so that `plantard(a,
/// plantard_constant(m)) ≡ a · m` (`lemma_plantard_by_constant`).
pub fn plantard_constant(m: i64) -> (r: u64)
    requires
        m > i64::MIN,
    ensures
        plantard_factor(r) == centered(-m * pow2_64()),
        -(Q - 1) / 2 <= plantard_factor(r) <= (Q - 1) / 2,
{
    let s = mul_mod(1i64 << 32u64, 1i64 << 32u64);
    let mut b = mul_mod(-m, s);
    proof {
        assert(1i64 << 32u64 == 4294967296) by (bit_vector);
        assert(s == 2365951) by (nonlinear_arith)
            requires s == (4294967296int * 4294967296int) % 8380417int;
        vstd::arithmetic::div_mod::lemma_mul_mod_noop_right(-m as int, pow2_64(), Q as int);
        assert(modq(-m * pow2_64()) == modq(-m * s));
    }
    if b > Q / 2 {
        b = b - Q;
    }
    let r = (b as u64).wrapping_mul(QINV64);
    proof {
        assert(b == centered(-m * pow2_64()));
        lemma_qinv64();
        let bu = (b as u64) as int;
        assert((b as u64) as int == if b >= 0 { b as int } else { b + 0x1_0000_0000_0000_0000int }) by (bit_vector)
            requires -8380417 < b < 8380417;
        let prod = bu * QINV64;
        assert(r as int == prod % pow2_64());
        // r · Q ≡ bu · (QINV64 · Q) ≡ bu (mod 2^64)
        vstd::arithmetic::div_mod::lemma_mul_mod_noop_left(prod, Q as int, pow2_64());
        assert((r * Q) % pow2_64() == (prod * Q) % pow2_64());
        assert(prod * Q == bu * (QINV64 * Q)) by (nonlinear_arith) requires prod == bu * QINV64;
        vstd::arithmetic::div_mod::lemma_mul_mod_noop_right(bu, QINV64 * Q, pow2_64());
        assert((bu * (QINV64 * Q)) % pow2_64() == (bu * 1) % pow2_64());
        assert((r * Q) % pow2_64() == bu % pow2_64());
    }
    r
}

/// Multiplying by a Plantard constant multiplies by its `m`:
/// `plantard(a, plantard_constant(m)) ≡ a · m (mod Q)` for `|a| ≤ Q · 2^17`.
pub proof fn lemma_plantard_by_constant(a: int, m: int, f: int, r: int)
    requires
        f == centered(-m * pow2_64()),
        cong(r * pow2_64(), -(a * f)),
    ensures
        cong(r, a * m),
{
    let q = Q as int;
    // f ≡ −m · 2^64, so −a·f ≡ a·m·2^64.
    vstd::arithmetic::div_mod::lemma_fundamental_div_mod(-m * pow2_64(), q);
    let u = (-m * pow2_64()) / q;
    let v: int = if modq(-m * pow2_64()) > (q - 1) / 2 { 1 } else { 0 };
    assert(f == -m * pow2_64() - u * q - v * q);
    assert(-(a * f) == a * m * pow2_64() + (a * u + a * v) * q) by (nonlinear_arith)
        requires f == -m * pow2_64() - u * q - v * q;
    vstd::arithmetic::div_mod::lemma_mod_multiples_vanish(a * u + a * v, a * m * pow2_64(), q);
    assert(cong(r * pow2_64(), a * m * pow2_64())) by {
        let d1 = r * pow2_64() + a * f;
        assert(d1 % q == 0);
        assert(r * pow2_64() - a * m * pow2_64() == d1 + (a * u + a * v) * q);
        vstd::arithmetic::div_mod::lemma_mod_multiples_vanish(a * u + a * v, d1, q);
    }
    assert((a * m) * pow2_64() == a * m * pow2_64()) by (nonlinear_arith);
    lemma_cancel_pow2_64(r, a * m);
}

} // verus!
