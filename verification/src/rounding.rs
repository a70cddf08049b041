//! `UseHint ∘ Decompose` for `γ2 = (Q − 1) / 88`, FIPS 204 Algorithms 36
//! and 40.
use vstd::prelude::*;
use crate::params::{GAMMA2, Q};

verus! {

/// FIPS 204 Algorithm 36, `Decompose`, for `γ2 = (q − 1) / 88`: `r = r1 · 2γ2
/// + r0` with `r0 = r mod± 2γ2`, except that `r − r0 = q − 1` gives
/// `(0, r0 − 1)`.
pub open spec fn decompose(r: int) -> (int, int) {
    let alpha = 2 * GAMMA2;
    let r_plus = r % (Q as int);
    let r0 = if r_plus % alpha > alpha / 2 { r_plus % alpha - alpha } else { r_plus % alpha };
    if r_plus - r0 == Q - 1 {
        (0, r0 - 1)
    } else {
        ((r_plus - r0) / alpha, r0)
    }
}

/// FIPS 204 Algorithm 40, `UseHint`: the high bits of `r`, moved by one
/// modulo `(q − 1) / 2γ2 = 44` toward the low part's sign when `h` is set.
pub open spec fn use_hint(h: bool, r: int) -> int {
    let (r1, r0) = decompose(r);
    if !h {
        r1
    } else if r0 > 0 {
        (r1 + 1) % 44
    } else {
        (r1 - 1) % 44
    }
}

/// PQClean's high-bits estimate `⌊(⌊(a + 127) / 128⌋ · 11275 + 2^23) / 2^24⌋`
/// is the nearest multiple of `2γ2` below or at `a + γ2`.
proof fn lemma_high_bits_estimate(a: i64, s: i64, t: i64, m: i64, a1: i64)
    requires
        0 <= a < 8380417,
        s == a + 127,
        t == s >> 7u64,
        m == t * 11275 + 8388608,
        a1 == m >> 24u64,
    ensures
        a1 * 190464 <= a + 95231,
        a + 95232 <= a1 * 190464 + 190464,
        0 <= a1 <= 44,
{
    assert(a1 * 190464 <= a + 95231 && a + 95232 <= a1 * 190464 + 190464 && 0 <= a1 <= 44)
        by (bit_vector)
        requires
            0 <= a < 8380417,
            s == a + 127,
            t == s >> 7u64,
            m == t * 11275 + 8388608,
            a1 == m >> 24u64,
    ;
}

/// The `w1` coefficient of a standard representative `a` under hint `h`:
/// `UseHint(h, a)` (FIPS 204 Algorithms 36 and 40).
///
/// `a1` is PQClean's high-bits estimate, exact except that 44 stands for the
/// wrap `r+ − r0 = Q − 1`, where Decompose yields `(0, r0 − 1)` with a
/// negative low part. Otherwise the low part is `a − a1 · 2γ2 ∈ (−γ2, γ2]`,
/// so its sign needs no reduction.
pub fn w1_coefficient(a: i64, hint: bool) -> (r: i64)
    requires
        0 <= a < Q,
    ensures
        r == use_hint(hint, a as int),
        0 <= r < 44,
{
    let s = a + 127;
    let t = s >> 7u64;
    proof {
        assert(0 <= t < 65536) by (bit_vector)
            requires 0 <= a < 8380417, s == a + 127, t == s >> 7u64;
        assert(1i64 << 23u64 == 8388608) by (bit_vector);
    }
    let m = t * 11275 + (1i64 << 23u64);
    let mut a1 = m >> 24u64;
    proof {
        lemma_high_bits_estimate(a, s, t, m, a1);
    }
    let mut positive = a - a1 * 2 * GAMMA2 > 0;
    proof {
        let alpha = 190464int;
        let r0 = a - a1 * alpha;
        assert(-95232 < r0 <= 95232);
        assert((a as int) % (Q as int) == a);
        vstd::arithmetic::div_mod::lemma_fundamental_div_mod(a as int, alpha);
        assert(a as int % alpha == if r0 >= 0 { r0 } else { r0 + alpha });
        let (d1, d0) = decompose(a as int);
        if a1 == 44 {
            assert(d1 == 0 && d0 == r0 - 1);
        } else {
            assert((a - r0) / alpha == a1 as int) by (nonlinear_arith)
                requires a - r0 == a1 * alpha, alpha == 190464;
            assert(d1 == a1 && d0 == r0);
        }
    }
    if a1 == 44 {
        a1 = 0;
        positive = false;
    }
    if !hint {
        a1
    } else if positive {
        if a1 == 43 { 0 } else { a1 + 1 }
    } else if a1 == 0 {
        43
    } else {
        a1 - 1
    }
}

} // verus!
