//! ML-DSA-44 parameters (FIPS 204 Table 1) and the packed sizes of §7.2.
use vstd::prelude::*;

verus! {

/// Seed length `ρ`, and the `SHAKE128` seed of `ExpandA`.
pub const SEEDBYTES: usize = 32;

/// `μ`, the message representative, 512 bits.
pub const CRHBYTES: usize = 64;

/// `tr = H(pk)`, 512 bits.
pub const TRBYTES: usize = 64;

/// Ring degree.
pub const N: usize = 256;

/// `q = 2^23 − 2^13 + 1`.
pub const Q: i64 = 8_380_417;

/// Dropped bits of `t`.
pub const D: u32 = 13;

/// Rows of `A`.
pub const K: usize = 4;

/// Columns of `A`.
pub const L: usize = 4;

/// Nonzero coefficients of the challenge `c`.
pub const TAU: usize = 39;

/// `β = τ · η`.
pub const BETA: i64 = 78;

/// `γ1`, the `y` coefficient range.
pub const GAMMA1: i64 = 131072;

/// `γ2 = (q − 1) / 88`, the low-order rounding range.
pub const GAMMA2: i64 = 95_232;

/// Maximum number of hint ones.
pub const OMEGA: usize = 80;

/// `c̃`, `2λ` bits.
pub const CTILDEBYTES: usize = 32;

/// `t1` polynomial, 10 bits per coefficient.
pub const POLYT1_PACKEDBYTES: usize = 320;

/// `z` polynomial, 18 bits per coefficient.
pub const POLYZ_PACKEDBYTES: usize = 576;

/// `w1` polynomial, 6 bits per coefficient.
pub const POLYW1_PACKEDBYTES: usize = 192;

/// Hint vector: `ω` indices and `k` counts.
pub const POLYVECH_PACKEDBYTES: usize = 84;

/// `ρ ‖ t1`: 1312 bytes.
pub const PUBLIC_KEY_LEN: usize = 1312;

/// `c̃ ‖ z ‖ h`: 2420 bytes.
pub const SIGNATURE_LEN: usize = 2420;

/// FIPS 204 Algorithm 2/3: the context string is at most 255 bytes.
pub const CONTEXT_MAX_LEN: usize = 255;

/// `q^-1 mod 2^32` (PQClean `reduce.h`).
pub const QINV: i64 = 58_728_449;

/// How the packed sizes follow from the parameters.
pub proof fn lemma_parameter_relations()
    ensures
        Q == 8388608 - 8192 + 1,
        GAMMA1 == (1i64 << 17u64),
        GAMMA2 == (Q - 1) / 88,
        (Q - 1) % 88 == 0,
        BETA == TAU * 2,
        (Q - 1) / (2 * GAMMA2) == 44,
        POLYT1_PACKEDBYTES == 32 * (23 - D),
        POLYZ_PACKEDBYTES == 32 * 18,
        POLYW1_PACKEDBYTES == 32 * 6,
        POLYVECH_PACKEDBYTES == OMEGA + K,
        PUBLIC_KEY_LEN == SEEDBYTES + K * POLYT1_PACKEDBYTES,
        SIGNATURE_LEN == CTILDEBYTES + L * POLYZ_PACKEDBYTES + POLYVECH_PACKEDBYTES,
{
    assert(1i64 << 17u64 == 131072) by (bit_vector);
    assert((8380417int - 1) / (2 * 95232int) == 44) by (nonlinear_arith);
}

} // verus!
