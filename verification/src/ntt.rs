//! The number-theoretic transform over `Z_Q[x]/(x^256 + 1)` (FIPS 204
//! Algorithms 41 and 42) with Plantard twiddle products. The inverse
//! transform leaves out the final `1/256` scaling: the prepared tables carry
//! it (`ml_dsa_44`).
use vstd::prelude::*;
use crate::params::Q;
use crate::reduce::{
    centered, cong, lemma_cong_add, lemma_cong_mul, lemma_cong_trans, lemma_plantard_by_constant, modq,
    mul_mod, plantard, plantard_constant, plantard_factor, pow2_64,
};

verus! {

/// `ζ^brv(k) · 2^32 mod Q`, centred (the reference's Montgomery-form
/// table); `ζ = 1753` is a 512th root of unity modulo `Q`.
pub const ZETAS: [i64; 256] = [
    0, 25847, -2608894, -518909, 237124, -777960, -876248, 466468,
    1826347, 2353451, -359251, -2091905, 3119733, -2884855, 3111497, 2680103,
    2725464, 1024112, -1079900, 3585928, -549488, -1119584, 2619752, -2108549,
    -2118186, -3859737, -1399561, -3277672, 1757237, -19422, 4010497, 280005,
    2706023, 95776, 3077325, 3530437, -1661693, -3592148, -2537516, 3915439,
    -3861115, -3043716, 3574422, -2867647, 3539968, -300467, 2348700, -539299,
    -1699267, -1643818, 3505694, -3821735, 3507263, -2140649, -1600420, 3699596,
    811944, 531354, 954230, 3881043, 3900724, -2556880, 2071892, -2797779,
    -3930395, -1528703, -3677745, -3041255, -1452451, 3475950, 2176455, -1585221,
    -1257611, 1939314, -4083598, -1000202, -3190144, -3157330, -3632928, 126922,
    3412210, -983419, 2147896, 2715295, -2967645, -3693493, -411027, -2477047,
    -671102, -1228525, -22981, -1308169, -381987, 1349076, 1852771, -1430430,
    -3343383, 264944, 508951, 3097992, 44288, -1100098, 904516, 3958618,
    -3724342, -8578, 1653064, -3249728, 2389356, -210977, 759969, -1316856,
    189548, -3553272, 3159746, -1851402, -2409325, -177440, 1315589, 1341330,
    1285669, -1584928, -812732, -1439742, -3019102, -3881060, -3628969, 3839961,
    2091667, 3407706, 2316500, 3817976, -3342478, 2244091, -2446433, -3562462,
    266997, 2434439, -1235728, 3513181, -3520352, -3759364, -1197226, -3193378,
    900702, 1859098, 909542, 819034, 495491, -1613174, -43260, -522500,
    -655327, -3122442, 2031748, 3207046, -3556995, -525098, -768622, -3595838,
    342297, 286988, -2437823, 4108315, 3437287, -3342277, 1735879, 203044,
    2842341, 2691481, -2590150, 1265009, 4055324, 1247620, 2486353, 1595974,
    -3767016, 1250494, 2635921, -3548272, -2994039, 1869119, 1903435, -1050970,
    -1333058, 1237275, -3318210, -1430225, -451100, 1312455, 3306115, -1962642,
    -1279661, 1917081, -2546312, -1374803, 1500165, 777191, 2235880, 3406031,
    -542412, -2831860, -1671176, -1846953, -2584293, -3724270, 594136, -3776993,
    -2013608, 2432395, 2454455, -164721, 1957272, 3369112, 185531, -1207385,
    -3183426, 162844, 1616392, 3014001, 810149, 1652634, -3694233, -1799107,
    -3038916, 3523897, 3866901, 269760, 2213111, -975884, 1717735, 472078,
    -426683, 1723600, -1803090, 1910376, -1667432, -1104333, -260646, -3833893,
    -2939036, -2235985, -420899, -2286327, 183443, -976891, 1612842, -3545687,
    -554416, 3919660, -48306, -1362209, 3937738, 1400424, -846154, 1976782
];

/// `2^-32 mod Q`.
pub const MONT_INV: i64 = 8265825;

/// `ζ^brv(k) mod Q`, the `k`-th twiddle factor as a standard representative.
pub open spec fn zeta(k: int) -> int {
    modq(ZETAS@[k] * MONT_INV)
}

/// `(Q + 1) / 2`, the magnitude bound of a Plantard product.
pub open spec fn half_q() -> int {
    4190209
}

/// The integers a coefficient array holds.
pub open spec fn ints(s: Seq<i64>) -> Seq<int> {
    s.map_values(|x: i64| x as int)
}

/// `|x| ≤ b`.
pub open spec fn bounded(x: int, b: int) -> bool {
    -b <= x <= b
}

/// The index of the first twiddle factor used by the forward layer whose
/// butterflies span `len`.
pub open spec fn first_zeta(len: int) -> int {
    if len == 128 { 1 }
    else if len == 64 { 2 }
    else if len == 32 { 4 }
    else if len == 16 { 8 }
    else if len == 8 { 16 }
    else if len == 4 { 32 }
    else if len == 2 { 64 }
    else { 128 }
}

/// One forward layer (FIPS 204 Algorithm 41, lines 4–13) in exact
/// arithmetic: block `b` of length `2 · len` uses `ζ_{first_zeta(len) + b}`,
/// `(x, y) ↦ (x + ζ·y, x − ζ·y)`.
pub open spec fn ntt_layer(a: Seq<int>, len: int) -> Seq<int> {
    Seq::new(256, |i: int|
        if i % (2 * len) < len {
            a[i] + zeta(first_zeta(len) + i / (2 * len)) * a[i + len]
        } else {
            a[i - len] - zeta(first_zeta(len) + i / (2 * len)) * a[i]
        }
    )
}

/// The forward layers from span `len` down to span 1.
pub open spec fn ntt_from(a: Seq<int>, len: int) -> Seq<int>
    decreases len,
{
    if len <= 0 {
        a
    } else {
        ntt_from(ntt_layer(a, len), len / 2)
    }
}

/// FIPS 204 Algorithm 41, `NTT`, in exact arithmetic (values are
/// congruent modulo `Q` to the standard's).
pub open spec fn ntt_spec(a: Seq<int>) -> Seq<int> {
    ntt_from(a, 128)
}

/// The index of the twiddle factor that the inverse layer of span `len`
/// uses for its first block; later blocks count down.
pub open spec fn last_zeta(len: int) -> int {
    2 * first_zeta(len) - 1
}

/// One inverse layer (FIPS 204 Algorithm 42, lines 4–15) in exact
/// arithmetic: block `b` uses `−ζ_{last_zeta(len) − b}`,
/// `(x, y) ↦ (x + y, −ζ·(x − y))`.
pub open spec fn intt_layer(a: Seq<int>, len: int) -> Seq<int> {
    Seq::new(256, |i: int|
        if i % (2 * len) < len {
            a[i] + a[i + len]
        } else {
            -zeta(last_zeta(len) - i / (2 * len)) * (a[i - len] - a[i])
        }
    )
}

/// The inverse layers from span `len` up to span 128.
pub open spec fn intt_from(a: Seq<int>, len: int) -> Seq<int>
    decreases 256 - len,
{
    if len > 128 || len <= 0 {
        a
    } else {
        intt_from(intt_layer(a, len), len * 2)
    }
}

/// FIPS 204 Algorithm 42, `NTT^-1`, without its final multiplication by
/// `256^-1`, in exact arithmetic.
pub open spec fn intt_unscaled(a: Seq<int>) -> Seq<int> {
    intt_from(a, 1)
}

/// `|x| ≤ X` and `|y| ≤ Y` bound `|x · y|` by `X · Y`.
pub proof fn lemma_mul_bound(x: int, xb: int, y: int, yb: int)
    requires
        bounded(x, xb),
        bounded(y, yb),
    ensures
        bounded(x * y, xb * yb),
{
    assert(bounded(x * y, xb * yb)) by (nonlinear_arith)
        requires -xb <= x <= xb, -yb <= y <= yb;
}

/// The Plantard constant for multiplying by `ζ_k`.
pub fn twiddle(k: usize) -> (r: u64)
    requires
        1 <= k < 256,
    ensures
        plantard_factor(r) == centered(-zeta(k as int) * pow2_64()),
        bounded(plantard_factor(r), (Q - 1) / 2),
{
    let m = mul_mod(ZETAS[k], MONT_INV);
    plantard_constant(m)
}

/// The Plantard constant for multiplying by `−ζ_k`.
pub fn twiddle_neg(k: usize) -> (r: u64)
    requires
        1 <= k < 256,
    ensures
        plantard_factor(r) == centered(zeta(k as int) * pow2_64()),
        bounded(plantard_factor(r), (Q - 1) / 2),
{
    let m = mul_mod(ZETAS[k], MONT_INV);
    let r = plantard_constant(-m);
    proof {
        assert(-(-m) * pow2_64() == zeta(k as int) * pow2_64());
    }
    r
}

/// Element `i` of block `b` of span `2 · len`, at offset `r`.
proof fn lemma_block_index(i: int, b: int, len: int, r: int)
    requires
        len > 0,
        i == b * (2 * len) + r,
        0 <= r < 2 * len,
    ensures
        i / (2 * len) == b,
        i % (2 * len) == r,
{
    vstd::arithmetic::div_mod::lemma_fundamental_div_mod_converse(i, 2 * len, b, r);
}

/// One forward butterfly: with `x ≡ cx`, `y ≡ cy` and `t` the Plantard
/// product of `y` by the constant for `ζ`, `(x + t, x − t) ≡ (cx + ζ·cy,
/// cx − ζ·cy)`.
proof fn lemma_fwd_butterfly(x: int, y: int, t: int, z: int, f: int, cx: int, cy: int)
    requires
        cong(x, cx),
        cong(y, cy),
        f == centered(-z * pow2_64()),
        cong(t * pow2_64(), -(y * f)),
    ensures
        cong(x + t, cx + z * cy),
        cong(x - t, cx - z * cy),
{
    lemma_plantard_by_constant(y, z, f, t);
    lemma_cong_mul(z, y, cy);
    assert(z * y == y * z) by (nonlinear_arith);
    lemma_cong_trans(t, y * z, z * cy);
    lemma_cong_add(x, cx, t, z * cy);
}

/// The bounds a forward layer needs: `b < F` blocks of span `2 · len` fit.
proof fn lemma_block_fits(b: int, f: int, len: int)
    requires
        0 <= b < f,
        f * len == 128,
        len >= 1,
    ensures
        b * (2 * len) + 2 * len <= 256,
        (b + 1) * (2 * len) == b * (2 * len) + 2 * len,
{
    assert(b * (2 * len) + 2 * len <= 256) by (nonlinear_arith)
        requires 0 <= b < f, f * len == 128, len >= 1;
    assert((b + 1) * (2 * len) == b * (2 * len) + 2 * len) by (nonlinear_arith);
}

/// One forward layer of span `len`, in place.
fn ntt_layer_in_place(a: &mut [i64; 256], len: usize, Ghost(cur): Ghost<Seq<int>>, Ghost(bnd): Ghost<int>)
    requires
        len >= 1,
        first_zeta(len as int) * len == 128,
        first_zeta(len as int) >= 1,
        0 <= bnd <= 8388608 + 7 * half_q(),
        cur.len() == 256,
        forall|i: int| 0 <= i < 256 ==> cong(#[trigger] old(a)@[i] as int, cur[i]),
        forall|i: int| 0 <= i < 256 ==> bounded(#[trigger] old(a)@[i] as int, bnd),
    ensures
        forall|i: int| 0 <= i < 256 ==> cong(#[trigger] final(a)@[i] as int, ntt_layer(cur, len as int)[i]),
        forall|i: int| 0 <= i < 256 ==> bounded(#[trigger] final(a)@[i] as int, bnd + half_q()),
{
    let ghost pre = a@;
    let ghost nxt = ntt_layer(cur, len as int);
    let ghost f = first_zeta(len as int);
    let mut k: usize = len_to_first_zeta(len);
    let mut start: usize = 0;
    let ghost mut b: int = 0;
    while start < 256
        invariant
            len >= 1,
            f == first_zeta(len as int),
            f * len == 128,
            f >= 1,
            start == b * (2 * len),
            0 <= b <= f,
            b < f <==> start < 256,
            k == f + b,
            0 <= bnd <= 8388608 + 7 * half_q(),
            cur.len() == 256,
            nxt == ntt_layer(cur, len as int),
            forall|i: int| 0 <= i < 256 ==> cong(#[trigger] pre[i] as int, cur[i]),
            forall|i: int| 0 <= i < 256 ==> bounded(#[trigger] pre[i] as int, bnd),
            forall|i: int| 0 <= i < start ==> cong(#[trigger] a@[i] as int, nxt[i]),
            forall|i: int| 0 <= i < start ==> bounded(#[trigger] a@[i] as int, bnd + half_q()),
            forall|i: int| start <= i < 256 ==> #[trigger] a@[i] == pre[i],
        decreases 256 - start,
    {
        proof {
            lemma_block_fits(b, f, len as int);
            assert(f <= 128) by (nonlinear_arith) requires f * len == 128, len >= 1;
        }
        let tw = twiddle(k);
        let ghost z = zeta(k as int);
        let mut j = start;
        while j < start + len
            invariant
                len >= 1,
                start == b * (2 * len),
                start + 2 * len <= 256,
                start <= j <= start + len,
                0 <= b,
                k == first_zeta(len as int) + b,
                z == zeta(k as int),
                plantard_factor(tw) == centered(-z * pow2_64()),
                bounded(plantard_factor(tw), (Q - 1) / 2),
                0 <= bnd <= 8388608 + 7 * half_q(),
                cur.len() == 256,
                nxt == ntt_layer(cur, len as int),
                forall|i: int| 0 <= i < 256 ==> cong(#[trigger] pre[i] as int, cur[i]),
                forall|i: int| 0 <= i < 256 ==> bounded(#[trigger] pre[i] as int, bnd),
                forall|i: int| 0 <= i < j || start + len <= i < j + len ==> cong(#[trigger] a@[i] as int, nxt[i]),
                forall|i: int| 0 <= i < j || start + len <= i < j + len ==> bounded(#[trigger] a@[i] as int, bnd + half_q()),
                forall|i: int| (j <= i < start + len) || (j + len <= i < 256) ==> #[trigger] a@[i] == pre[i],
            decreases start + len - j,
        {
            let y = a[j + len];
            let x = a[j];
            proof {
                assert(y == pre[j + len as int]);
                assert(x == pre[j as int]);
                lemma_mul_bound(y as int, bnd, plantard_factor(tw), (Q - 1) / 2);
                lemma_mul_bound_mono(bnd, (Q - 1) / 2);
            }
            let t = plantard(y, tw);
            proof {
                lemma_fwd_butterfly(x as int, y as int, t as int, z, plantard_factor(tw),
                    cur[j as int], cur[j + len as int]);
                let r = j - start;
                lemma_block_index(j as int, b, len as int, r);
                lemma_block_index(j + len as int, b, len as int, r + len);
                assert(nxt[j as int] == cur[j as int] + z * cur[j + len as int]);
                assert(nxt[j + len as int] == cur[j as int] - z * cur[j + len as int]);
            }
            a[j + len] = x - t;
            a[j] = x + t;
            j += 1;
        }
        start = start + 2 * len;
        k = k + 1;
        proof {
            b = b + 1;
            assert(b < f <==> start < 256) by (nonlinear_arith)
                requires start == b * (2 * len), f * len == 128, len >= 1, b <= f;
        }
    }
}

/// `|y| ≤ bnd` with `bnd` within the layer bounds keeps `|y · f|` in
/// Plantard's range.
proof fn lemma_mul_bound_mono(bnd: int, fb: int)
    requires
        0 <= bnd <= 256 * (Q - 1),
        fb == (Q - 1) / 2,
    ensures
        bnd * fb <= Q * Q * 65536,
{
    assert(bnd * fb <= Q * Q * 65536) by (nonlinear_arith)
        requires 0 <= bnd <= 256 * 8380416, fb == 4190208, Q == 8380417;
}

/// The first twiddle index of the forward layer of span `len`.
fn len_to_first_zeta(len: usize) -> (k: usize)
    requires
        first_zeta(len as int) * len == 128,
    ensures
        k == first_zeta(len as int),
{
    128 / len
}

/// The forward transform, in place: `a ↦ NTT(a)` modulo `Q` (FIPS 204
/// Algorithm 41), for coefficients below `2^23` in absolute value; outputs
/// stay below `2^23 + 8 · (Q + 1) / 2 < 2^26`.
pub fn ntt(a: &mut [i64; 256])
    requires
        forall|i: int| 0 <= i < 256 ==> bounded(#[trigger] old(a)@[i] as int, 8388608),
    ensures
        forall|i: int| 0 <= i < 256 ==> cong(#[trigger] final(a)@[i] as int, ntt_spec(ints(old(a)@))[i]),
        forall|i: int| 0 <= i < 256 ==> bounded(#[trigger] final(a)@[i] as int, 8388608 + 8 * half_q()),
{
    let ghost orig = ints(a@);
    let ghost mut cur: Seq<int> = orig;
    let ghost mut l: int = 0;
    let mut len: usize = 128;
    proof {
        assert forall|i: int| 0 <= i < 256 implies cong(#[trigger] a@[i] as int, cur[i]) by {
            assert(cur[i] == a@[i] as int);
        }
    }
    while len > 0
        invariant
            (l == 0 && len == 128) || (l == 1 && len == 64) || (l == 2 && len == 32) || (l == 3
                && len == 16) || (l == 4 && len == 8) || (l == 5 && len == 4) || (l == 6 && len
                == 2) || (l == 7 && len == 1) || (l == 8 && len == 0),
            cur.len() == 256,
            orig == ints(old(a)@),
            ntt_from(cur, len as int) == ntt_spec(orig),
            forall|i: int| 0 <= i < 256 ==> cong(#[trigger] a@[i] as int, cur[i]),
            forall|i: int| 0 <= i < 256 ==> bounded(#[trigger] a@[i] as int, 8388608 + l * half_q()),
        decreases len,
    {
        ntt_layer_in_place(a, len, Ghost(cur), Ghost(8388608 + l * half_q()));
        proof {
            cur = ntt_layer(cur, len as int);
            l = l + 1;
        }
        len = len / 2;
    }
}

/// One inverse butterfly: with `x ≡ cx`, `y ≡ cy` and `t` the Plantard
/// product of `x − y` by the constant for `−ζ`, `(x + y, t) ≡ (cx + cy,
/// −ζ · (cx − cy))`.
proof fn lemma_inv_butterfly(x: int, y: int, t: int, z: int, f: int, cx: int, cy: int)
    requires
        cong(x, cx),
        cong(y, cy),
        f == centered(z * pow2_64()),
        cong(t * pow2_64(), -((x - y) * f)),
    ensures
        cong(x + y, cx + cy),
        cong(t, -z * (cx - cy)),
{
    lemma_cong_add(x, cx, y, cy);
    assert(-(-z) * pow2_64() == z * pow2_64());
    lemma_plantard_by_constant(x - y, -z, f, t);
    lemma_cong_mul(-z, x - y, cx - cy);
    assert((x - y) * (-z) == (-z) * (x - y)) by (nonlinear_arith);
    lemma_cong_trans(t, (x - y) * (-z), (-z) * (cx - cy));
    assert((-z) * (cx - cy) == -z * (cx - cy)) by (nonlinear_arith);
}

/// One inverse layer of span `len`, in place.
#[verifier::rlimit(40)]
fn intt_layer_in_place(a: &mut [i64; 256], len: usize, Ghost(cur): Ghost<Seq<int>>, Ghost(bnd): Ghost<int>)
    requires
        len >= 1,
        first_zeta(len as int) * len == 128,
        first_zeta(len as int) >= 1,
        half_q() <= bnd <= 128 * (Q - 1),
        cur.len() == 256,
        forall|i: int| 0 <= i < 256 ==> cong(#[trigger] old(a)@[i] as int, cur[i]),
        forall|i: int| 0 <= i < 256 ==> bounded(#[trigger] old(a)@[i] as int, bnd),
    ensures
        forall|i: int| 0 <= i < 256 ==> cong(#[trigger] final(a)@[i] as int, intt_layer(cur, len as int)[i]),
        forall|i: int| 0 <= i < 256 ==> bounded(#[trigger] final(a)@[i] as int, 2 * bnd),
{
    let ghost pre = a@;
    let ghost nxt = intt_layer(cur, len as int);
    let ghost f = first_zeta(len as int);
    let mut k: usize = 2 * len_to_first_zeta(len);
    let mut start: usize = 0;
    let ghost mut b: int = 0;
    while start < 256
        invariant
            len >= 1,
            f == first_zeta(len as int),
            f * len == 128,
            f >= 1,
            start == b * (2 * len),
            0 <= b <= f,
            b < f <==> start < 256,
            k == 2 * f - b,
            half_q() <= bnd <= 128 * (Q - 1),
            cur.len() == 256,
            nxt == intt_layer(cur, len as int),
            forall|i: int| 0 <= i < 256 ==> cong(#[trigger] pre[i] as int, cur[i]),
            forall|i: int| 0 <= i < 256 ==> bounded(#[trigger] pre[i] as int, bnd),
            forall|i: int| 0 <= i < start ==> cong(#[trigger] a@[i] as int, nxt[i]),
            forall|i: int| 0 <= i < start ==> bounded(#[trigger] a@[i] as int, 2 * bnd),
            forall|i: int| start <= i < 256 ==> #[trigger] a@[i] == pre[i],
        decreases 256 - start,
    {
        proof {
            lemma_block_fits(b, f, len as int);
            assert(f <= 128) by (nonlinear_arith) requires f * len == 128, len >= 1;
        }
        k = k - 1;
        let tw = twiddle_neg(k);
        let ghost z = zeta(k as int);
        let mut j = start;
        while j < start + len
            invariant
                len >= 1,
                start == b * (2 * len),
                start + 2 * len <= 256,
                start <= j <= start + len,
                0 <= b,
                k == last_zeta(len as int) - b,
                z == zeta(k as int),
                plantard_factor(tw) == centered(z * pow2_64()),
                bounded(plantard_factor(tw), (Q - 1) / 2),
                half_q() <= bnd <= 128 * (Q - 1),
                cur.len() == 256,
                nxt == intt_layer(cur, len as int),
                forall|i: int| 0 <= i < 256 ==> cong(#[trigger] pre[i] as int, cur[i]),
                forall|i: int| 0 <= i < 256 ==> bounded(#[trigger] pre[i] as int, bnd),
                forall|i: int| 0 <= i < j || start + len <= i < j + len ==> cong(#[trigger] a@[i] as int, nxt[i]),
                forall|i: int| 0 <= i < j || start + len <= i < j + len ==> bounded(#[trigger] a@[i] as int, 2 * bnd),
                forall|i: int| (j <= i < start + len) || (j + len <= i < 256) ==> #[trigger] a@[i] == pre[i],
            decreases start + len - j,
        {
            let x = a[j];
            let y = a[j + len];
            proof {
                assert(y == pre[j + len as int]);
                assert(x == pre[j as int]);
                lemma_mul_bound((x - y) as int, 2 * bnd, plantard_factor(tw), (Q - 1) / 2);
                lemma_mul_bound_mono(2 * bnd, (Q - 1) / 2);
            }
            let t = plantard(x - y, tw);
            proof {
                lemma_inv_butterfly(x as int, y as int, t as int, z, plantard_factor(tw),
                    cur[j as int], cur[j + len as int]);
                let r = j - start;
                lemma_block_index(j as int, b, len as int, r);
                lemma_block_index(j + len as int, b, len as int, r + len);
                assert(nxt[j as int] == cur[j as int] + cur[j + len as int]);
                assert(nxt[j + len as int] == -z * (cur[j as int] - cur[j + len as int]));
            }
            a[j] = x + y;
            a[j + len] = t;
            j += 1;
        }
        start = start + 2 * len;
        proof {
            b = b + 1;
            assert(b < f <==> start < 256) by (nonlinear_arith)
                requires start == b * (2 * len), f * len == 128, len >= 1, b <= f;
        }
    }
}

/// The inverse transform without its final `256^-1`, in place: `a ↦ 256 ·
/// NTT^-1(a)` modulo `Q` (FIPS 204 Algorithm 42 without line 21), for
/// coefficients below `Q` in absolute value. Outputs stay below `256 · (Q −
/// 1)`, and below `256 · (Q + 1) / 2` when the inputs are Plantard outputs.
pub fn invntt(a: &mut [i64; 256])
    requires
        forall|i: int| 0 <= i < 256 ==> bounded(#[trigger] old(a)@[i] as int, Q - 1),
    ensures
        forall|i: int| 0 <= i < 256 ==> cong(#[trigger] final(a)@[i] as int, intt_unscaled(ints(old(a)@))[i]),
        forall|i: int| 0 <= i < 256 ==> bounded(#[trigger] final(a)@[i] as int, 256 * (Q - 1)),
        (forall|i: int| 0 <= i < 256 ==> bounded(#[trigger] old(a)@[i] as int, half_q()))
            ==> forall|i: int| 0 <= i < 256 ==> bounded(#[trigger] final(a)@[i] as int, 256 * half_q()),
{
    let ghost orig = ints(a@);
    let ghost mut cur: Seq<int> = orig;
    let ghost small = forall|i: int| 0 <= i < 256 ==> bounded(#[trigger] a@[i] as int, half_q());
    let ghost bnd0: int = if small { half_q() } else { Q - 1 };
    let ghost mut bnd: int = bnd0;
    let ghost mut l: int = 0;
    let mut len: usize = 1;
    proof {
        assert forall|i: int| 0 <= i < 256 implies cong(#[trigger] a@[i] as int, cur[i]) by {
            assert(cur[i] == a@[i] as int);
        }
    }
    while len < 256
        invariant
            (l == 0 && len == 1) || (l == 1 && len == 2) || (l == 2 && len == 4) || (l == 3
                && len == 8) || (l == 4 && len == 16) || (l == 5 && len == 32) || (l == 6 && len
                == 64) || (l == 7 && len == 128) || (l == 8 && len == 256),
            bnd0 == half_q() || bnd0 == Q - 1,
            (l == 0 && bnd == bnd0) || (l == 1 && bnd == 2 * bnd0) || (l == 2 && bnd == 4 * bnd0)
                || (l == 3 && bnd == 8 * bnd0) || (l == 4 && bnd == 16 * bnd0) || (l == 5 && bnd
                == 32 * bnd0) || (l == 6 && bnd == 64 * bnd0) || (l == 7 && bnd == 128 * bnd0)
                || (l == 8 && bnd == 256 * bnd0),
            cur.len() == 256,
            orig == ints(old(a)@),
            intt_from(cur, len as int) == intt_unscaled(orig),
            forall|i: int| 0 <= i < 256 ==> cong(#[trigger] a@[i] as int, cur[i]),
            forall|i: int| 0 <= i < 256 ==> bounded(#[trigger] a@[i] as int, bnd),
        decreases 256 - len,
    {
        intt_layer_in_place(a, len, Ghost(cur), Ghost(bnd));
        proof {
            cur = intt_layer(cur, len as int);
            l = l + 1;
            bnd = 2 * bnd;
        }
        len = len * 2;
    }
}

/// Pointwise congruence of two coefficient sequences.
pub open spec fn all_cong(a: Seq<int>, b: Seq<int>) -> bool {
    a.len() == 256 && b.len() == 256 && forall|i: int| 0 <= i < 256 ==> cong(#[trigger] a[i], b[i])
}

/// The inverse layers keep 256 coefficients.
pub proof fn lemma_intt_len(a: Seq<int>, len: int)
    requires
        a.len() == 256,
    ensures
        intt_from(a, len).len() == 256,
    decreases 256 - len,
{
    if len > 128 || len <= 0 {
    } else {
        lemma_intt_len(intt_layer(a, len), len * 2);
    }
}

/// In a layer of span `len`, the partner of each element lies inside the
/// 256 coefficients.
proof fn lemma_partner_in_range(i: int, len: int)
    requires
        0 <= i < 256,
        len >= 1,
        first_zeta(len) * len == 128,
    ensures
        i % (2 * len) < len ==> i + len < 256,
        i % (2 * len) >= len ==> i - len >= 0,
{
    vstd::arithmetic::div_mod::lemma_fundamental_div_mod(i, 2 * len);
    let q = i / (2 * len);
    let r = i % (2 * len);
    let f = first_zeta(len);
    assert(i + len < 256 || r >= len) by (nonlinear_arith)
        requires
            i == (2 * len) * q + r,
            0 <= r < 2 * len,
            0 <= i < 256,
            f * len == 128,
            len >= 1;
}

/// The inverse layers respect congruence modulo `Q`.
pub proof fn lemma_intt_from_cong(a: Seq<int>, b: Seq<int>, len: int)
    requires
        all_cong(a, b),
        len == 1 || len == 2 || len == 4 || len == 8 || len == 16 || len == 32 || len == 64
            || len == 128 || len == 256,
    ensures
        all_cong(intt_from(a, len), intt_from(b, len)),
    decreases 256 - len,
{
    if len > 128 || len <= 0 {
    } else {
        let la = intt_layer(a, len);
        let lb = intt_layer(b, len);
        assert forall|i: int| 0 <= i < 256 implies cong(#[trigger] la[i], lb[i]) by {
            lemma_partner_in_range(i, len);
            if i % (2 * len) < len {
                crate::reduce::lemma_cong_add(a[i], b[i], a[i + len], b[i + len]);
            } else {
                let z = zeta(last_zeta(len) - i / (2 * len));
                crate::reduce::lemma_cong_add(a[i - len], b[i - len], a[i], b[i]);
                crate::reduce::lemma_cong_mul(-z, a[i - len] - a[i], b[i - len] - b[i]);
            }
        }
        lemma_intt_from_cong(la, lb, len * 2);
    }
}

} // verus!
