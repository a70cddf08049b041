//! Polynomials in `Z_Q[x]/(x^256 + 1)`: the routines verification and key
//! preparation need. Every routine writes in place.
use vstd::prelude::*;
use crate::params::{GAMMA1, N, POLYT1_PACKEDBYTES, POLYW1_PACKEDBYTES, POLYZ_PACKEDBYTES, Q};
use crate::reduce::{
    caddq, cong, lemma_cong_add, lemma_cong_modq, lemma_cong_same_modq, lemma_cong_trans,
    lemma_qinv64, modq, plantard, plantard_factor, pow2_64, reduce32, QINV64,
};
use crate::rounding::{use_hint, w1_coefficient};
use crate::ntt::{bounded, half_q, ints, lemma_mul_bound};
use crate::sample::{
    ball_from, ball_reach, lemma_ball_count, lemma_ball_range, lemma_ball_reach_bound,
    lemma_nonzero_count_zero, lemma_rej_ntt_prefix, lemma_rej_sample_range, lemma_sample_in_ball_prefix,
    nonzero_count, rej_candidate, rej_ntt, rej_sample, sample_in_ball, sign_bit, stream_limit,
};
use crate::shake::{h128, h256, xof128, xof256};

verus! {

/// One prepared row: five operands at each of 256 coefficients, the four
/// matrix columns and `t1`.
pub type PreparedRow = [[u32; 5]; 256];

/// 256 coefficients.
pub struct Poly {
    /// Coefficients, in the range the producing routine documents.
    pub c: [i64; N],
}

/// `|a| ≥ bound`, for `|a| < 2^62` and `0 < bound < 2^62`, as one unsigned
/// compare: `a + bound − 1` lies in `[0, 2·bound − 1)` exactly when
/// `−bound < a < bound`, and wraps below zero otherwise.
pub fn norm_at_least(a: i64, bound: i64) -> (r: bool)
    requires
        -0x4000_0000_0000_0000 < a < 0x4000_0000_0000_0000,
        0 < bound < 0x4000_0000_0000_0000,
    ensures
        r == (a >= bound || a <= -bound),
{
    proof {
        assert(((a + bound - 1) as u64 >= (2 * bound - 1) as u64) == (a >= bound || a <= -bound))
            by (bit_vector)
            requires
                -0x4000_0000_0000_0000i64 < a < 0x4000_0000_0000_0000i64,
                0 < bound < 0x4000_0000_0000_0000i64,
        ;
    }
    (a + bound - 1) as u64 >= (2 * bound - 1) as u64
}

/// Coefficient `k` of a `t1` polynomial packed in 10-bit little-endian
/// fields (FIPS 204 `SimpleBitUnpack`, `b = 2^10 − 1`): four coefficients
/// per five bytes.
pub open spec fn t1_field(a: Seq<u8>, k: int) -> int {
    let g = 5 * (k / 4);
    if k % 4 == 0 {
        a[g] + 256 * (a[g + 1] % 4)
    } else if k % 4 == 1 {
        a[g + 1] / 4 + 64 * (a[g + 2] % 16)
    } else if k % 4 == 2 {
        a[g + 2] / 16 + 16 * (a[g + 3] % 64)
    } else {
        a[g + 3] / 64 + 4 * a[g + 4]
    }
}

/// The 18-bit little-endian field `k` of a packed `z` polynomial (FIPS 204
/// `BitUnpack`): four fields per nine bytes.
pub open spec fn z_field(a: Seq<u8>, k: int) -> int {
    let g = 9 * (k / 4);
    if k % 4 == 0 {
        a[g] + 256 * a[g + 1] + 65536 * (a[g + 2] % 4)
    } else if k % 4 == 1 {
        a[g + 2] / 4 + 64 * a[g + 3] + 16384 * (a[g + 4] % 16)
    } else if k % 4 == 2 {
        a[g + 4] / 16 + 16 * a[g + 5] + 4096 * (a[g + 6] % 64)
    } else {
        a[g + 6] / 64 + 4 * a[g + 7] + 1024 * a[g + 8]
    }
}

/// Coefficient `k` of `z`: `γ1 − field` (FIPS 204 Algorithm 27).
pub open spec fn z_coeff(a: Seq<u8>, k: int) -> int {
    GAMMA1 - z_field(a, k)
}

/// Some coefficient of the packed `z` has absolute value at least `bound`.
pub open spec fn z_exceeds(a: Seq<u8>, bound: int) -> bool {
    exists|k: int| 0 <= k < 256 && (#[trigger] z_coeff(a, k) >= bound || z_coeff(a, k) <= -bound)
}

/// Byte `j` of `w1Encode` (FIPS 204 Algorithm 28, 6-bit fields, four
/// coefficients per three bytes) of the coefficients `w`.
pub open spec fn w1_byte(w: Seq<int>, j: int) -> int {
    let i = 4 * (j / 3);
    if j % 3 == 0 {
        w[i] + 64 * (w[i + 1] % 4)
    } else if j % 3 == 1 {
        w[i + 1] / 4 + 16 * (w[i + 2] % 16)
    } else {
        w[i + 2] / 16 + 4 * w[i + 3]
    }
}

/// The hint flags a 256-bit map holds.
pub open spec fn bitmap_flags(bits: Seq<u64>) -> Seq<bool> {
    Seq::new(256, |k: int| crate::codec::bit_set(bits, k))
}

/// The `w1` coefficients of one row: `UseHint` of each coefficient's
/// standard representative under its hint flag.
pub open spec fn w1_row(w: Seq<int>, h: Seq<bool>) -> Seq<int> {
    Seq::new(256, |k: int| use_hint(h[k], modq(w[k])))
}

/// `w1Encode(UseHint(h, w))` of one row.
pub open spec fn w1_encode_row(w: Seq<int>, h: Seq<bool>) -> Seq<u8> {
    Seq::new(192, |j: int| w1_byte(w1_row(w, h), j) as u8)
}

/// `w1Encode(UseHint(h, w))` depends on `w` only modulo `Q`.
pub proof fn lemma_w1_encode_cong(w: Seq<int>, v: Seq<int>, h: Seq<bool>)
    requires
        crate::ntt::all_cong(w, v),
    ensures
        w1_encode_row(w, h) == w1_encode_row(v, h),
{
    assert forall|k: int| 0 <= k < 256 implies modq(#[trigger] w[k]) == modq(v[k]) by {
        lemma_cong_same_modq(w[k], v[k]);
    }
    assert(w1_row(w, h) =~= w1_row(v, h));
    assert(w1_encode_row(w, h) =~= w1_encode_row(v, h));
}

/// The bytes `RejNTTPoly` hashes: `seed ‖ nonce` with the nonce little-endian.
pub open spec fn uniform_input(seed: Seq<u8>, nonce: u16) -> Seq<u8> {
    seed + seq![(nonce % 256) as u8, (nonce / 256) as u8]
}

/// The coefficients `RejNTTPoly` accepts from the stream `H128(seed ‖
/// nonce)`: 256 of them once a prefix of the stream holds them, and the
/// same for every prefix that does (`Poly::uniform`).
pub open spec fn uniform_spec(turbo: bool, seed: Seq<u8>, nonce: u16) -> Seq<int> {
    rej_ntt(xof128(turbo, uniform_input(seed, nonce), stream_limit()))
}

/// Two byte sequences are equal.
spec fn final_eq(a: Seq<u8>, b: Seq<u8>) -> bool {
    a == b
}

/// `caddq(reduce32(x))` is the standard representative of `x`.
fn freeze(x: i64) -> (r: i64)
    requires
        -2147483648 <= x <= 2147483647 - 4194304,
    ensures
        r == modq(x as int),
{
    let r = reduce32(x);
    let s = caddq(r);
    proof {
        lemma_cong_modq(x as int);
        lemma_cong_modq(s as int);
        assert(cong(s as int, x as int)) by {
            if r < 0 {
                crate::reduce::lemma_multiple_of_q((s - r) as int, 1);
                lemma_cong_add(s as int, r as int, 0, 0);
                assert(cong(s as int, r as int));
            } else {
                assert(s == r);
            }
            lemma_cong_trans(s as int, r as int, x as int);
        }
        lemma_cong_same_modq(s as int, x as int);
        vstd::arithmetic::div_mod::lemma_small_mod(s as nat, Q as nat);
    }
    s
}

/// Coefficient `4 · i + d` lies in group `i` at place `d`.
proof fn lemma_group4(i: int)
    requires
        i >= 0,
    ensures
        (4 * i) / 4 == i && (4 * i) % 4 == 0,
        (4 * i + 1) / 4 == i && (4 * i + 1) % 4 == 1,
        (4 * i + 2) / 4 == i && (4 * i + 2) % 4 == 2,
        (4 * i + 3) / 4 == i && (4 * i + 3) % 4 == 3,
{
}

/// `Σ_j r[j] · z_j − c · r[4]`: one coefficient of a row of `Â∘ẑ − ĉ∘t̂1`
/// from its prepared operands.
pub open spec fn row_acc(r: Seq<u32>, z0: int, z1: int, z2: int, z3: int, c: int) -> int {
    r[0] * z0 + r[1] * z1 + r[2] * z2 + r[3] * z3 - c * r[4]
}

/// One coefficient of `row_lazy`.
fn row_point(r: &[u32; 5], z0: i64, z1: i64, z2: i64, z3: i64, c: i64) -> (v: i64)
    requires
        forall|j: int| 0 <= j < 5 ==> #[trigger] r@[j] < Q,
        bounded(z0 as int, 134217727),
        bounded(z1 as int, 134217727),
        bounded(z2 as int, 134217727),
        bounded(z3 as int, 134217727),
        bounded(c as int, 134217727),
    ensures
        cong(v * pow2_64(), -row_acc(r@, z0 as int, z1 as int, z2 as int, z3 as int, c as int)),
        -(Q + 1) / 2 <= v <= (Q - 1) / 2,
{
    let ghost b: int = Q - 1;
    proof {
        assert(r@[0] < Q && r@[1] < Q && r@[2] < Q && r@[3] < Q && r@[4] < Q);
        lemma_mul_bound(r[0] as int, b, z0 as int, 134217727);
        lemma_mul_bound(r[1] as int, b, z1 as int, 134217727);
        lemma_mul_bound(r[2] as int, b, z2 as int, 134217727);
        lemma_mul_bound(r[3] as int, b, z3 as int, 134217727);
        lemma_mul_bound(r[4] as int, b, c as int, 134217727);
    }
    let acc = r[0] as i64 * z0 + r[1] as i64 * z1 + r[2] as i64 * z2 + r[3] as i64 * z3
        - c * r[4] as i64;
    proof {
        lemma_qinv64();
        assert(acc * plantard_factor(QINV64) == acc as int);
        assert(c * r[4] == r[4] * c) by (nonlinear_arith);
    }
    plantard(acc, QINV64)
}

/// Two Plantard steps: `r1 · 2^64 ≡ −x` and `r2 · 2^64 ≡ −r1 · b` give
/// `r2 · 2^128 ≡ x · b`.
proof fn lemma_double_reduction(x: int, r1: int, r2: int, b: int)
    requires
        cong(r1 * pow2_64(), -(x * 1)),
        cong(r2 * pow2_64(), -(r1 * b)),
    ensures
        cong(r2 * pow2_64() * pow2_64(), x * b),
{
    crate::reduce::lemma_cong_mul(pow2_64(), r2 * pow2_64(), -(r1 * b));
    crate::reduce::lemma_cong_mul(-b, r1 * pow2_64(), -(x * 1));
    assert(pow2_64() * (r2 * pow2_64()) == r2 * pow2_64() * pow2_64()) by (nonlinear_arith);
    assert(pow2_64() * -(r1 * b) == -b * (r1 * pow2_64())) by (nonlinear_arith);
    assert(-b * -(x * 1) == x * b) by (nonlinear_arith);
    lemma_cong_trans(r2 * pow2_64() * pow2_64(), -b * (r1 * pow2_64()), x * b);
}

impl Poly {
    /// All coefficients zero.
    pub fn zero() -> (p: Poly)
        ensures
            forall|i: int| 0 <= i < 256 ==> #[trigger] p.c@[i] == 0,
    {
        Poly { c: [0i64; N] }
    }

    /// The forward transform (FIPS 204 Algorithm 41) in place, for
    /// coefficients below `2^23`.
    pub fn ntt(&mut self)
        requires
            forall|i: int| 0 <= i < 256 ==> bounded(#[trigger] old(self).c@[i] as int, 8388608),
        ensures
            forall|i: int| 0 <= i < 256 ==> cong(#[trigger] final(self).c@[i] as int, crate::ntt::ntt_spec(ints(old(self).c@))[i]),
            forall|i: int| 0 <= i < 256 ==> bounded(#[trigger] final(self).c@[i] as int, 8388608 + 8 * half_q()),
    {
        crate::ntt::ntt(&mut self.c);
    }

    /// The inverse transform without its `256^-1` (FIPS 204 Algorithm 42) in
    /// place, for coefficients below `Q`.
    pub fn invntt(&mut self)
        requires
            forall|i: int| 0 <= i < 256 ==> bounded(#[trigger] old(self).c@[i] as int, Q - 1),
        ensures
            forall|i: int| 0 <= i < 256 ==> cong(#[trigger] final(self).c@[i] as int, crate::ntt::intt_unscaled(ints(old(self).c@))[i]),
            forall|i: int| 0 <= i < 256 ==> bounded(#[trigger] final(self).c@[i] as int, 256 * (Q - 1)),
            (forall|i: int| 0 <= i < 256 ==> bounded(#[trigger] old(self).c@[i] as int, half_q()))
                ==> forall|i: int| 0 <= i < 256 ==> bounded(#[trigger] final(self).c@[i] as int, 256 * half_q()),
    {
        crate::ntt::invntt(&mut self.c);
    }

    /// `t1 · 2^d` from 10-bit fields (the shift folded into the unpack).
    pub fn t1_unpack_shifted(&mut self, a: &[u8])
        requires
            a@.len() == POLYT1_PACKEDBYTES,
        ensures
            forall|k: int| 0 <= k < 256 ==> #[trigger] final(self).c@[k] == t1_field(a@, k) * 8192,
            forall|k: int| 0 <= k < 256 ==> 0 <= #[trigger] final(self).c@[k] < 8388608,
    {
        let mut i: usize = 0;
        while i < N / 4
            invariant
                i <= 64,
                a@.len() == 320,
                forall|k: int| 0 <= k < 4 * i ==> #[trigger] self.c@[k] == t1_field(a@, k) * 8192,
                forall|k: int| 0 <= k < 4 * i ==> 0 <= #[trigger] self.c@[k] < 8388608,
            decreases 64 - i,
        {
            let b = 5 * i;
            let b0 = a[b] as u32;
            let b1 = a[b + 1] as u32;
            let b2 = a[b + 2] as u32;
            let b3 = a[b + 3] as u32;
            let b4 = a[b + 4] as u32;
            let f0 = (b0 | b1 << 8u32) & 0x3FF;
            let f1 = (b1 >> 2u32 | b2 << 6u32) & 0x3FF;
            let f2 = (b2 >> 4u32 | b3 << 4u32) & 0x3FF;
            let f3 = (b3 >> 6u32 | b4 << 2u32) & 0x3FF;
            proof {
                assert(f0 == b0 + 256 * (b1 % 4) && f1 == b1 / 4 + 64 * (b2 % 16)
                    && f2 == b2 / 16 + 16 * (b3 % 64) && f3 == b3 / 64 + 4 * b4 && f0 < 1024
                    && f1 < 1024 && f2 < 1024 && f3 < 1024) by (bit_vector)
                    requires
                        b0 < 256, b1 < 256, b2 < 256, b3 < 256, b4 < 256,
                        f0 == (b0 | b1 << 8u32) & 0x3FF,
                        f1 == (b1 >> 2u32 | b2 << 6u32) & 0x3FF,
                        f2 == (b2 >> 4u32 | b3 << 4u32) & 0x3FF,
                        f3 == (b3 >> 6u32 | b4 << 2u32) & 0x3FF,
                ;
                lemma_group4(i as int);
            }
            self.c[4 * i] = (f0 as i64) * 8192;
            self.c[4 * i + 1] = (f1 as i64) * 8192;
            self.c[4 * i + 2] = (f2 as i64) * 8192;
            self.c[4 * i + 3] = (f3 as i64) * 8192;
            i += 1;
        }
    }

    /// `z` from 18-bit little-endian fields (four per nine bytes, at bit
    /// offsets 0, 18, 36, 54), mapped to `γ1 − field`; returns whether some
    /// coefficient has absolute value `≥ bound` (the reference's `chknorm`).
    pub fn z_unpack(&mut self, a: &[u8], bound: i64) -> (bad: bool)
        requires
            a@.len() == POLYZ_PACKEDBYTES,
            0 < bound < 0x4000_0000_0000_0000,
        ensures
            forall|k: int| 0 <= k < 256 ==> #[trigger] final(self).c@[k] == z_coeff(a@, k),
            forall|k: int| 0 <= k < 256 ==> -131072 < #[trigger] final(self).c@[k] <= 131072,
            bad == z_exceeds(a@, bound as int),
    {
        let mut bad = false;
        let mut i: usize = 0;
        while i < N / 4
            invariant
                i <= 64,
                a@.len() == 576,
                0 < bound < 0x4000_0000_0000_0000,
                forall|k: int| 0 <= k < 4 * i ==> #[trigger] self.c@[k] == z_coeff(a@, k),
                forall|k: int| 0 <= k < 4 * i ==> -131072 < #[trigger] self.c@[k] <= 131072,
                bad == exists|k: int| 0 <= k < 4 * i && (#[trigger] z_coeff(a@, k) >= bound || z_coeff(a@, k) <= -bound),
            decreases 64 - i,
        {
            let g = 9 * i;
            let b0 = a[g] as u64;
            let b1 = a[g + 1] as u64;
            let b2 = a[g + 2] as u64;
            let b3 = a[g + 3] as u64;
            let b4 = a[g + 4] as u64;
            let b5 = a[g + 5] as u64;
            let b6 = a[g + 6] as u64;
            let b7 = a[g + 7] as u64;
            let hi = a[g + 8] as u64;
            let lo = b0 | b1 << 8u64 | b2 << 16u64 | b3 << 24u64 | b4 << 32u64 | b5 << 40u64
                | b6 << 48u64 | b7 << 56u64;
            let f0 = lo & 0x3FFFF;
            let f1 = (lo >> 18u64) & 0x3FFFF;
            let f2 = (lo >> 36u64) & 0x3FFFF;
            let f3 = ((lo >> 54u64) | (hi << 10u64)) & 0x3FFFF;
            proof {
                assert(f0 == b0 + 256 * b1 + 65536 * (b2 % 4) && f1 == b2 / 4 + 64 * b3 + 16384 * (b4
                    % 16) && f2 == b4 / 16 + 16 * b5 + 4096 * (b6 % 64) && f3 == b6 / 64 + 4 * b7
                    + 1024 * hi) by (bit_vector)
                    requires
                        b0 < 256, b1 < 256, b2 < 256, b3 < 256, b4 < 256, b5 < 256, b6 < 256,
                        b7 < 256, hi < 256,
                        lo == b0 | b1 << 8u64 | b2 << 16u64 | b3 << 24u64 | b4 << 32u64 | b5
                            << 40u64 | b6 << 48u64 | b7 << 56u64,
                        f0 == lo & 0x3FFFF,
                        f1 == (lo >> 18u64) & 0x3FFFF,
                        f2 == (lo >> 36u64) & 0x3FFFF,
                        f3 == ((lo >> 54u64) | (hi << 10u64)) & 0x3FFFF,
                ;
                lemma_group4(i as int);
            }
            let c0 = GAMMA1 - f0 as i64;
            let c1 = GAMMA1 - f1 as i64;
            let c2 = GAMMA1 - f2 as i64;
            let c3 = GAMMA1 - f3 as i64;
            self.c[4 * i] = c0;
            self.c[4 * i + 1] = c1;
            self.c[4 * i + 2] = c2;
            self.c[4 * i + 3] = c3;
            let n0 = norm_at_least(c0, bound);
            let n1 = norm_at_least(c1, bound);
            let n2 = norm_at_least(c2, bound);
            let n3 = norm_at_least(c3, bound);
            proof {
                let ghost old_bad = bad;
                assert(z_coeff(a@, 4 * i + 0) == c0);
                assert(z_coeff(a@, 4 * i + 1) == c1);
                assert(z_coeff(a@, 4 * i + 2) == c2);
                assert(z_coeff(a@, 4 * i + 3) == c3);
            }
            bad = bad || n0 || n1 || n2 || n3;
            i += 1;
            proof {
                let ex = exists|k: int| 0 <= k < 4 * i && (#[trigger] z_coeff(a@, k) >= bound || z_coeff(a@, k) <= -bound);
                if bad {
                    if !(n0 || n1 || n2 || n3) {
                        let k = choose|k: int| 0 <= k < 4 * (i - 1) && (#[trigger] z_coeff(a@, k) >= bound || z_coeff(a@, k) <= -bound);
                        assert(0 <= k < 4 * i);
                    } else if n0 {
                        assert(z_coeff(a@, 4 * (i - 1)) >= bound || z_coeff(a@, 4 * (i - 1)) <= -bound);
                    } else if n1 {
                        assert(z_coeff(a@, 4 * (i - 1) + 1) >= bound || z_coeff(a@, 4 * (i - 1) + 1) <= -bound);
                    } else if n2 {
                        assert(z_coeff(a@, 4 * (i - 1) + 2) >= bound || z_coeff(a@, 4 * (i - 1) + 2) <= -bound);
                    } else {
                        assert(z_coeff(a@, 4 * (i - 1) + 3) >= bound || z_coeff(a@, 4 * (i - 1) + 3) <= -bound);
                    }
                } else {
                    if ex {
                        let k = choose|k: int| 0 <= k < 4 * i && (#[trigger] z_coeff(a@, k) >= bound || z_coeff(a@, k) <= -bound);
                        if k < 4 * (i - 1) {
                        } else {
                            assert(k == 4 * (i - 1) || k == 4 * (i - 1) + 1 || k == 4 * (i - 1) + 2 || k == 4 * (i - 1) + 3);
                        }
                    }
                }
            }
        }
        bad
    }

    /// `w1Encode(UseHint(h, w))` for one row in one pass: `reduce32` then
    /// `caddq` make each inverse-transform output a standard representative
    /// first.
    #[verifier::spinoff_prover]
    #[verifier::rlimit(40)]
    pub fn finish_row(&self, bits: &[u64; 4], out: &mut [u8; POLYW1_PACKEDBYTES])
        requires
            forall|k: int| 0 <= k < 256 ==> -2147483648 <= #[trigger] self.c@[k] <= 2147483647 - 4194304,
        ensures
            final(out)@ == w1_encode_row(ints(self.c@), bitmap_flags(bits@)),
    {
        let ghost w1 = w1_row(ints(self.c@), bitmap_flags(bits@));
        let mut i: usize = 0;
        while i < N / 4
            invariant
                i <= 64,
                w1 == w1_row(ints(self.c@), bitmap_flags(bits@)),
                forall|k: int| 0 <= k < 256 ==> -2147483648 <= #[trigger] self.c@[k] <= 2147483647 - 4194304,
                forall|j: int| 0 <= j < 3 * i ==> #[trigger] out@[j] == w1_byte(w1, j) as u8,
            decreases 64 - i,
        {
            let k = 4 * i;
            let word = bits[k / 64] >> ((k % 64) as u64);
            let h0 = word & 1 == 1;
            let h1 = (word >> 1u64) & 1 == 1;
            let h2 = (word >> 2u64) & 1 == 1;
            let h3 = (word >> 3u64) & 1 == 1;
            let w0 = w1_coefficient(freeze(self.c[k]), h0);
            let w1c = w1_coefficient(freeze(self.c[k + 1]), h1);
            let w2 = w1_coefficient(freeze(self.c[k + 2]), h2);
            let w3 = w1_coefficient(freeze(self.c[k + 3]), h3);
            proof {
                let bw = bits@[(k / 64) as int];
                let sh = (k % 64) as u64;
                assert(sh <= 60);
                assert(h0 == (((bw >> sh) >> 0u64) & 1 == 1)) by (bit_vector)
                    requires word == bw >> sh, h0 == (word & 1 == 1);
                assert forall|d: u64| d < 4 implies (((bw >> sh) >> d) & 1 == 1) == ((bw >> ((sh + d) as u64)) & 1 == 1) by {
                    assert((((bw >> sh) >> d) & 1 == 1) == ((bw >> ((sh + d) as u64)) & 1 == 1)) by (bit_vector)
                        requires sh <= 60, d < 4;
                }
                assert((((bw >> sh) >> 0u64) & 1 == 1) == ((bw >> ((sh + 0u64) as u64)) & 1 == 1));
                assert((((bw >> sh) >> 1u64) & 1 == 1) == ((bw >> ((sh + 1u64) as u64)) & 1 == 1));
                assert((((bw >> sh) >> 2u64) & 1 == 1) == ((bw >> ((sh + 2u64) as u64)) & 1 == 1));
                assert((((bw >> sh) >> 3u64) & 1 == 1) == ((bw >> ((sh + 3u64) as u64)) & 1 == 1));
                assert(((word >> 0u64) & 1) == (word & 1)) by (bit_vector);
                assert((k + 1) / 64 == k / 64 && (k + 1) % 64 == sh + 1);
                assert((k + 2) / 64 == k / 64 && (k + 2) % 64 == sh + 2);
                assert((k + 3) / 64 == k / 64 && (k + 3) % 64 == sh + 3);
                assert(w1[k as int] == w0);
                assert(w1[k + 1] == w1c);
                assert(w1[k + 2] == w2);
                assert(w1[k + 3] == w3);
            }
            let o0 = w0 as u8 | (w1c << 6u64) as u8;
            let o1 = (w1c >> 2u64) as u8 | (w2 << 4u64) as u8;
            let o2 = (w2 >> 4u64) as u8 | (w3 << 2u64) as u8;
            proof {
                assert(o0 == w0 + 64 * (w1c % 4) && o1 == w1c / 4 + 16 * (w2 % 16)
                    && o2 == w2 / 16 + 4 * w3) by (bit_vector)
                    requires
                        0 <= w0 < 44, 0 <= w1c < 44, 0 <= w2 < 44, 0 <= w3 < 44,
                        o0 == w0 as u8 | (w1c << 6u64) as u8,
                        o1 == (w1c >> 2u64) as u8 | (w2 << 4u64) as u8,
                        o2 == (w2 >> 4u64) as u8 | (w3 << 2u64) as u8,
                ;
                assert((3 * i) / 3 == i && (3 * i) % 3 == 0);
                assert((3 * i + 1) / 3 == i && (3 * i + 1) % 3 == 1);
                assert((3 * i + 2) / 3 == i && (3 * i + 2) % 3 == 2);
            }
            out[3 * i] = o0;
            out[3 * i + 1] = o1;
            out[3 * i + 2] = o2;
            i += 1;
        }
        proof {
            assert(final_eq(out@, w1_encode_row(ints(self.c@), bitmap_flags(bits@)))) by {
                assert forall|j: int| 0 <= j < 192 implies out@[j] == w1_encode_row(ints(self.c@), bitmap_flags(bits@))[j] by {}
                assert(out@ =~= w1_encode_row(ints(self.c@), bitmap_flags(bits@)));
            }
        }
    }

    /// Standard representatives of `c[k] · m`, written into column `col` of
    /// a prepared row, where `m_plantard` is `plantard_constant(m)`: each
    /// entry `e` is the representative in `[0, Q)` with `e · 2^64 ≡ −c[k] ·
    /// b`, `b` the constant's factor.
    pub fn freeze_scaled_into(&self, m_plantard: u64, row: &mut PreparedRow, col: usize)
        requires
            col < 5,
            forall|k: int| 0 <= k < 256 ==> -(Q * Q * 65536) <= #[trigger] self.c@[k] * plantard_factor(m_plantard) <= Q * Q * 65536,
        ensures
            forall|k: int| 0 <= k < 256 ==> cong(#[trigger] final(row)@[k]@[col as int] * pow2_64(), -(self.c@[k] * plantard_factor(m_plantard))),
            forall|k: int| 0 <= k < 256 ==> #[trigger] final(row)@[k]@[col as int] < Q,
            forall|k: int, j: int| 0 <= k < 256 && 0 <= j < 5 && j != col ==> #[trigger] final(row)@[k]@[j] == old(row)@[k]@[j],
    {
        let mut k: usize = 0;
        while k < N
            invariant
                k <= 256,
                col < 5,
                forall|k2: int| 0 <= k2 < 256 ==> -(Q * Q * 65536) <= #[trigger] self.c@[k2] * plantard_factor(m_plantard) <= Q * Q * 65536,
                forall|k2: int| 0 <= k2 < k ==> cong(#[trigger] row@[k2]@[col as int] * pow2_64(), -(self.c@[k2] * plantard_factor(m_plantard))),
                forall|k2: int| 0 <= k2 < k ==> #[trigger] row@[k2]@[col as int] < Q,
                forall|k2: int, j: int| 0 <= k2 < 256 && 0 <= j < 5 && (j != col || k2 >= k) ==> #[trigger] row@[k2]@[j] == old(row)@[k2]@[j],
            decreases 256 - k,
        {
            let p = plantard(self.c[k], m_plantard);
            let v = caddq(p);
            proof {
                let x = self.c@[k as int] * plantard_factor(m_plantard);
                if p < 0 {
                    crate::reduce::lemma_multiple_of_q(v * pow2_64() - p * pow2_64(), pow2_64());
                    lemma_cong_trans(v * pow2_64(), p * pow2_64(), -x);
                }
            }
            row[k][col] = v as u32;
            k += 1;
        }
    }

    /// One row of `Â∘ẑ − ĉ∘t̂1` from its prepared row, reduced once: with
    /// `acc = Σ_j row[k][j]·z[j][k] − c[k]·row[k][4]`, `self[k] · 2^64 ≡
    /// −acc`, in `[−(Q+1)/2, Q/2)`. The row holds standard representatives
    /// and `z`, `c` are transform outputs below `2^27`, so `acc` stays below
    /// `2^53`, within the reduction's `Q^2 · 2^16`.
    pub fn row_lazy(&mut self, row: &PreparedRow, z: [&Poly; 4], c: &Poly)
        requires
            forall|k: int, j: int| 0 <= k < 256 && 0 <= j < 5 ==> #[trigger] row@[k]@[j] < Q,
            forall|k: int| 0 <= k < 256 ==> bounded(#[trigger] z[0].c@[k] as int, 134217727),
            forall|k: int| 0 <= k < 256 ==> bounded(#[trigger] z[1].c@[k] as int, 134217727),
            forall|k: int| 0 <= k < 256 ==> bounded(#[trigger] z[2].c@[k] as int, 134217727),
            forall|k: int| 0 <= k < 256 ==> bounded(#[trigger] z[3].c@[k] as int, 134217727),
            forall|k: int| 0 <= k < 256 ==> bounded(#[trigger] c.c@[k] as int, 134217727),
        ensures
            forall|k: int| 0 <= k < 256 ==> cong(#[trigger] final(self).c@[k] * pow2_64(), -row_acc(row@[k]@, z[0].c@[k] as int, z[1].c@[k] as int, z[2].c@[k] as int, z[3].c@[k] as int, c.c@[k] as int)),
            forall|k: int| 0 <= k < 256 ==> -(Q + 1) / 2 <= #[trigger] final(self).c@[k] <= (Q - 1) / 2,
    {
        let mut k: usize = 0;
        while k < N
            invariant
                k <= 256,
                forall|k2: int, j: int| 0 <= k2 < 256 && 0 <= j < 5 ==> #[trigger] row@[k2]@[j] < Q,
                forall|k2: int| 0 <= k2 < 256 ==> bounded(#[trigger] z[0].c@[k2] as int, 134217727),
                forall|k2: int| 0 <= k2 < 256 ==> bounded(#[trigger] z[1].c@[k2] as int, 134217727),
                forall|k2: int| 0 <= k2 < 256 ==> bounded(#[trigger] z[2].c@[k2] as int, 134217727),
                forall|k2: int| 0 <= k2 < 256 ==> bounded(#[trigger] z[3].c@[k2] as int, 134217727),
                forall|k2: int| 0 <= k2 < 256 ==> bounded(#[trigger] c.c@[k2] as int, 134217727),
                forall|k2: int| 0 <= k2 < k ==> cong(#[trigger] self.c@[k2] * pow2_64(), -row_acc(row@[k2]@, z[0].c@[k2] as int, z[1].c@[k2] as int, z[2].c@[k2] as int, z[3].c@[k2] as int, c.c@[k2] as int)),
                forall|k2: int| 0 <= k2 < k ==> -(Q + 1) / 2 <= #[trigger] self.c@[k2] <= (Q - 1) / 2,
            decreases 256 - k,
        {
            proof {
                assert forall|j: int| 0 <= j < 5 implies #[trigger] row@[k as int]@[j] < Q by {}
            }
            let v = row_point(&row[k], z[0].c[k], z[1].c[k], z[2].c[k], z[3].c[k], c.c[k]);
            self.c[k] = v;
            k += 1;
        }
    }

    /// `self[k] += a[k] · z[k]` in 64 bits, no reduction: one matrix
    /// polynomial's contribution to a row.
    pub fn add_products(&mut self, a: &Poly, z: &Poly)
        requires
            forall|k: int| 0 <= k < 256 ==> i64::MIN <= #[trigger] old(self).c@[k] + a.c@[k] * z.c@[k] <= i64::MAX,
        ensures
            forall|k: int| 0 <= k < 256 ==> #[trigger] final(self).c@[k] == old(self).c@[k] + a.c@[k] * z.c@[k],
    {
        let mut k: usize = 0;
        while k < N
            invariant
                k <= 256,
                forall|k2: int| 0 <= k2 < 256 ==> i64::MIN <= #[trigger] old(self).c@[k2] + a.c@[k2] * z.c@[k2] <= i64::MAX,
                forall|k2: int| 0 <= k2 < k ==> #[trigger] self.c@[k2] == old(self).c@[k2] + a.c@[k2] * z.c@[k2],
                forall|k2: int| k <= k2 < 256 ==> #[trigger] self.c@[k2] == old(self).c@[k2],
            decreases 256 - k,
        {
            let x = self.c[k];
            let p = a.c[k] as i128 * z.c[k] as i128;
            self.c[k] = (x as i128 + p) as i64;
            k += 1;
        }
    }

    /// `self[k] −= c[k] · t[k]` in 64 bits: the `ĉ ∘ t̂1` term of a row.
    pub fn sub_products(&mut self, c: &Poly, t: &Poly)
        requires
            forall|k: int| 0 <= k < 256 ==> i64::MIN <= #[trigger] old(self).c@[k] - c.c@[k] * t.c@[k] <= i64::MAX,
        ensures
            forall|k: int| 0 <= k < 256 ==> #[trigger] final(self).c@[k] == old(self).c@[k] - c.c@[k] * t.c@[k],
    {
        let mut k: usize = 0;
        while k < N
            invariant
                k <= 256,
                forall|k2: int| 0 <= k2 < 256 ==> i64::MIN <= #[trigger] old(self).c@[k2] - c.c@[k2] * t.c@[k2] <= i64::MAX,
                forall|k2: int| 0 <= k2 < k ==> #[trigger] self.c@[k2] == old(self).c@[k2] - c.c@[k2] * t.c@[k2],
                forall|k2: int| k <= k2 < 256 ==> #[trigger] self.c@[k2] == old(self).c@[k2],
            decreases 256 - k,
        {
            let x = self.c[k];
            let p = c.c[k] as i128 * t.c[k] as i128;
            self.c[k] = (x as i128 - p) as i64;
            k += 1;
        }
    }

    /// Reduce an accumulated row: `self[k] ← plantard(plantard(self[k],
    /// QINV64), m_plantard)`, so `self[k] · 2^128 ≡ old[k] · b` for the
    /// constant's factor `b`, in `[−(Q+1)/2, Q/2)`.
    pub fn reduce_row(&mut self, m_plantard: u64)
        requires
            forall|k: int| 0 <= k < 256 ==> -(Q * Q * 65536) <= #[trigger] old(self).c@[k] <= Q * Q * 65536,
            bounded(plantard_factor(m_plantard), (Q - 1) / 2),
        ensures
            forall|k: int| 0 <= k < 256 ==> cong(#[trigger] final(self).c@[k] * pow2_64() * pow2_64(), old(self).c@[k] * plantard_factor(m_plantard)),
            forall|k: int| 0 <= k < 256 ==> -(Q + 1) / 2 <= #[trigger] final(self).c@[k] <= (Q - 1) / 2,
    {
        proof {
            lemma_qinv64();
        }
        let mut k: usize = 0;
        while k < N
            invariant
                k <= 256,
                plantard_factor(QINV64) == 1,
                bounded(plantard_factor(m_plantard), (Q - 1) / 2),
                forall|k2: int| 0 <= k2 < 256 ==> -(Q * Q * 65536) <= #[trigger] old(self).c@[k2] <= Q * Q * 65536,
                forall|k2: int| 0 <= k2 < k ==> cong(#[trigger] self.c@[k2] * pow2_64() * pow2_64(), old(self).c@[k2] * plantard_factor(m_plantard)),
                forall|k2: int| 0 <= k2 < k ==> -(Q + 1) / 2 <= #[trigger] self.c@[k2] <= (Q - 1) / 2,
                forall|k2: int| k <= k2 < 256 ==> #[trigger] self.c@[k2] == old(self).c@[k2],
            decreases 256 - k,
        {
            let x = self.c[k];
            let r1 = plantard(x, QINV64);
            proof {
                lemma_mul_bound(r1 as int, half_q(), plantard_factor(m_plantard), (Q - 1) / 2);
            }
            let r2 = plantard(r1, m_plantard);
            proof {
                lemma_double_reduction(x as int, r1 as int, r2 as int, plantard_factor(m_plantard));
            }
            self.c[k] = r2;
            k += 1;
        }
    }

    /// Sets every coefficient to zero.
    fn clear(&mut self)
        ensures
            forall|k: int| 0 <= k < 256 ==> #[trigger] final(self).c@[k] == 0,
    {
        let mut k: usize = 0;
        while k < N
            invariant
                k <= 256,
                forall|k2: int| 0 <= k2 < k ==> #[trigger] self.c@[k2] == 0,
            decreases 256 - k,
        {
            self.c[k] = 0;
            k += 1;
        }
    }

    /// Fills the coefficients `RejNTTPoly` accepts from the stream `s`, in
    /// order, over zeros; returns how many there are.
    fn rej_fill(&mut self, s: &Vec<u8>) -> (n: usize)
        requires
            forall|k: int| 0 <= k < 256 ==> #[trigger] old(self).c@[k] == 0,
        ensures
            n == rej_ntt(s@).len(),
            n <= 256,
            forall|k: int| 0 <= k < 256 ==> #[trigger] final(self).c@[k] == if k < n { rej_ntt(s@)[k] } else { 0 },
    {
        let mut ctr: usize = 0;
        let mut pos: usize = 0;
        let ghost mut acc: Seq<int> = Seq::empty();
        while ctr < N && pos < s.len() && s.len() - pos >= 3
            invariant
                ctr == acc.len(),
                ctr <= 256,
                pos <= s@.len(),
                forall|k: int| 0 <= k < acc.len() ==> 0 <= #[trigger] acc[k] < Q,
                rej_sample(s@, pos as int, acc) == rej_ntt(s@),
                forall|k: int| 0 <= k < 256 ==> #[trigger] self.c@[k] == if k < ctr { acc[k] } else { 0 },
            decreases s@.len() - pos,
        {
            let b0 = s[pos] as u32;
            let b1 = s[pos + 1] as u32;
            let b2 = s[pos + 2] as u32;
            let t = (b0 | b1 << 8u32 | b2 << 16u32) & 0x7F_FFFF;
            proof {
                assert(t == (b0 + 256 * b1 + 65536 * b2) % 8388608) by (bit_vector)
                    requires
                        b0 < 256, b1 < 256, b2 < 256,
                        t == (b0 | b1 << 8u32 | b2 << 16u32) & 0x7F_FFFF,
                ;
                assert(t == rej_candidate(s@, pos as int));
            }
            if t < Q as u32 {
                self.c[ctr] = t as i64;
                ctr += 1;
                proof {
                    acc = acc.push(t as int);
                }
            }
            pos += 3;
        }
        proof {
            lemma_rej_sample_range(s@, 0, Seq::empty());
        }
        ctr
    }

    /// `RejNTTPoly` (FIPS 204 Algorithm 30): uniform coefficients in `[0,
    /// Q)` from `H128(seed ‖ nonce)`, 23-bit candidates from consecutive
    /// 3-byte groups of the output, accepted until there are 256. The first
    /// 840 bytes (five blocks) almost always hold them; otherwise the stream
    /// is read again twice as far, and so on up to the longest buffer
    /// (`stream_limit()`). Whatever prefix completes, the coefficients are
    /// those of every prefix that completes.
    pub fn uniform<const TURBO: bool>(&mut self, seed: &[u8], nonce: u16)
        ensures
            forall|k: int| 0 <= k < 256 ==> #[trigger] final(self).c@[k] == if k < uniform_spec(TURBO, seed@, nonce).len() {
                uniform_spec(TURBO, seed@, nonce)[k]
            } else {
                0
            },
            forall|k: int| 0 <= k < 256 ==> 0 <= #[trigger] final(self).c@[k] < Q,
            forall|m: nat| m <= stream_limit() && #[trigger] rej_ntt(xof128(TURBO, uniform_input(seed@, nonce), m)).len() >= 256
                ==> rej_ntt(xof128(TURBO, uniform_input(seed@, nonce), m)) == uniform_spec(TURBO, seed@, nonce),
    {
        let mut input: Vec<u8> = Vec::new();
        crate::shake::append(&mut input, seed);
        input.push((nonce % 256) as u8);
        input.push((nonce / 256) as u8);
        proof {
            assert(input@ =~= seed@ + seq![(nonce % 256) as u8, (nonce / 256) as u8]);
        }
        let ghost inp = input@;
        self.clear();
        let mut len: usize = 840;
        let s = h128::<TURBO>(input.as_slice(), len);
        let mut n = self.rej_fill(&s);
        let ghost mut st = s@;
        while n < N && len < isize::MAX as usize
            invariant
                840 <= len <= isize::MAX,
                input@ == inp,
                st == xof128(TURBO, inp, len as nat),
                n == rej_ntt(st).len(),
                n <= 256,
                forall|k: int| 0 <= k < 256 ==> #[trigger] self.c@[k] == if k < n { rej_ntt(st)[k] } else { 0 },
                forall|m: nat| m <= len ==> #[trigger] xof128(TURBO, inp, m) == st.subrange(0, m as int),
                forall|m: nat| m >= len ==> st == #[trigger] xof128(TURBO, inp, m).subrange(0, len as int),
                forall|m: nat| m >= len ==> #[trigger] xof128(TURBO, inp, m).len() == m >= st.len(),
            decreases isize::MAX - len,
        {
            len = if len > (isize::MAX as usize) / 2 { isize::MAX as usize } else { 2 * len };
            self.clear();
            let s2 = h128::<TURBO>(input.as_slice(), len);
            n = self.rej_fill(&s2);
            proof {
                st = s2@;
            }
        }
        proof {
            let full = xof128(TURBO, inp, stream_limit());
            lemma_rej_sample_range(st, 0, Seq::empty());
            if n >= 256 {
                lemma_rej_ntt_prefix(st, full);
            } else {
                assert(len == isize::MAX);
                assert(st == full);
            }
            assert forall|m: nat| m <= stream_limit() && #[trigger] rej_ntt(xof128(TURBO, inp, m)).len() >= 256
                implies rej_ntt(xof128(TURBO, inp, m)) == rej_ntt(full) by {
                let sm = xof128(TURBO, inp, m);
                if m <= len {
                    lemma_rej_ntt_prefix(sm, st);
                    assert(rej_ntt(st).len() >= 256);
                } else {
                    lemma_rej_ntt_prefix(st, sm);
                }
            }
            lemma_rej_sample_range(full, 0, Seq::empty());
        }
    }

    /// Runs `SampleInBall` on the stream `s` over zeros; returns the
    /// coefficient index it reached (256 when complete).
    fn ball_fill(&mut self, s: &Vec<u8>) -> (reach: usize)
        requires
            s@.len() >= 8,
            forall|k: int| 0 <= k < 256 ==> #[trigger] old(self).c@[k] == 0,
        ensures
            ints(final(self).c@) == sample_in_ball(s@),
            reach == ball_reach(s@, 217, 8),
            forall|k: int| 0 <= k < 256 ==> -1 <= #[trigger] final(self).c@[k] <= 1,
    {
        let ghost zeros = Seq::new(256, |k: int| 0int);
        proof {
            assert(ints(self.c@) =~= zeros);
            lemma_ball_range(s@, 217, 8, zeros);
        }
        let mut i: usize = 217;
        let mut pos: usize = 8;
        while i < N && pos < s.len()
            invariant
                217 <= i <= 256,
                8 <= pos <= s@.len(),
                s@.len() >= 8,
                ball_from(s@, i as int, pos as int, ints(self.c@)) == sample_in_ball(s@),
                ball_reach(s@, i as int, pos as int) == ball_reach(s@, 217, 8),
                forall|k: int| 0 <= k < 256 ==> -1 <= #[trigger] self.c@[k] <= 1,
            decreases 256 - i, s@.len() - pos,
        {
            let b = s[pos] as usize;
            pos += 1;
            if b <= i {
                let j = i - 217;
                let byte = s[j / 8];
                let sh = (j % 8) as u8;
                let bit = (byte >> sh) & 1u8;
                proof {
                    assert(bit <= 1) by (bit_vector) requires bit == (byte >> sh) & 1u8;
                    assert(bit as int == sign_bit(s@, j as int));
                }
                let ghost before = ints(self.c@);
                let moved = self.c[b];
                self.c[i] = moved;
                self.c[b] = 1 - 2 * (bit as i64);
                i += 1;
                proof {
                    assert(ints(self.c@) =~= before.update(i - 1, before[b as int]).update(b as int, 1 - 2 * sign_bit(s@, i - 1 - 217)));
                }
            }
        }
        proof {
            lemma_ball_range(s@, 217, 8, zeros);
        }
        i
    }

    /// `SampleInBall` (FIPS 204 Algorithm 29): `τ = 39` coefficients in
    /// `{−1, 1}`, the rest zero, from `H(c̃)`. One block (136 bytes) almost
    /// always suffices; otherwise the stream is read again twice as far, and
    /// so on up to the longest buffer (`stream_limit()`). Whatever prefix
    /// completes, the result is that of every prefix that completes, and
    /// exactly 39 coefficients are nonzero.
    pub fn challenge<const TURBO: bool>(&mut self, seed: &[u8; 32])
        ensures
            ints(final(self).c@) == sample_in_ball(xof256(TURBO, seed@, stream_limit())),
            forall|k: int| 0 <= k < 256 ==> -1 <= #[trigger] final(self).c@[k] <= 1,
            nonzero_count(ints(final(self).c@), 256) == ball_reach(xof256(TURBO, seed@, stream_limit()), 217, 8) - 217,
            ball_reach(xof256(TURBO, seed@, stream_limit()), 217, 8) >= 256 ==> nonzero_count(ints(final(self).c@), 256) == 39,
            forall|m: nat| m <= stream_limit() && #[trigger] ball_reach(xof256(TURBO, seed@, m), 217, 8) >= 256
                ==> sample_in_ball(xof256(TURBO, seed@, m)) == sample_in_ball(xof256(TURBO, seed@, stream_limit())),
    {
        self.clear();
        let mut len: usize = 136;
        let s = h256::<TURBO>(seed, len);
        let mut reach = self.ball_fill(&s);
        let ghost mut st = s@;
        while reach < N && len < isize::MAX as usize
            invariant
                136 <= len <= isize::MAX,
                st == xof256(TURBO, seed@, len as nat),
                st.len() == len,
                reach == ball_reach(st, 217, 8),
                ints(self.c@) == sample_in_ball(st),
                forall|k: int| 0 <= k < 256 ==> -1 <= #[trigger] self.c@[k] <= 1,
                forall|m: nat| m <= len ==> #[trigger] xof256(TURBO, seed@, m) == st.subrange(0, m as int),
                forall|m: nat| m >= len ==> st == #[trigger] xof256(TURBO, seed@, m).subrange(0, len as int),
                forall|m: nat| m >= len ==> #[trigger] xof256(TURBO, seed@, m).len() == m >= st.len(),
            decreases isize::MAX - len,
        {
            len = if len > (isize::MAX as usize) / 2 { isize::MAX as usize } else { 2 * len };
            self.clear();
            let s2 = h256::<TURBO>(seed, len);
            reach = self.ball_fill(&s2);
            proof {
                st = s2@;
            }
        }
        proof {
            let full = xof256(TURBO, seed@, stream_limit());
            if reach >= 256 {
                lemma_sample_in_ball_prefix(st, full);
            } else {
                assert(len == isize::MAX);
                assert(st == full);
            }
            assert forall|m: nat| m <= stream_limit() && #[trigger] ball_reach(xof256(TURBO, seed@, m), 217, 8) >= 256
                implies sample_in_ball(xof256(TURBO, seed@, m)) == sample_in_ball(full) by {
                let sm = xof256(TURBO, seed@, m);
                if m <= len {
                    lemma_sample_in_ball_prefix(sm, st);
                } else {
                    lemma_sample_in_ball_prefix(st, sm);
                }
            }
            let zeros = Seq::new(256, |k: int| 0int);
            lemma_nonzero_count_zero(zeros, 256);
            lemma_ball_count(full, 217, 8, zeros);
            lemma_ball_reach_bound(full, 217, 8);
        }
    }
}

} // verus!
