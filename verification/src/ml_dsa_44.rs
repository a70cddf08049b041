//! ML-DSA-44 (FIPS 204): 1,312-byte public keys and 2,420-byte signatures.
//! `TURBO = true` replaces SHAKE128/256 with TurboSHAKE128/256, domain
//! `0x1f`. That variant requires matching key generation and signing; it is
//! not FIPS 204.
use vstd::prelude::*;
pub use crate::Error;
pub use crate::params::{CONTEXT_MAX_LEN, PUBLIC_KEY_LEN, SIGNATURE_LEN};
use crate::params::{
    BETA, CRHBYTES, CTILDEBYTES, GAMMA1, K, L, N, POLYT1_PACKEDBYTES, POLYVECH_PACKEDBYTES,
    POLYW1_PACKEDBYTES, POLYZ_PACKEDBYTES, Q, SEEDBYTES, TRBYTES,
};
use crate::codec::{hint_bitmap, hint_counts, hint_start, hints_well_formed};
use crate::ntt::{
    all_cong, bounded, half_q, ints, intt_unscaled, lemma_intt_from_cong, lemma_intt_len, ntt_spec,
};
use crate::poly::{
    bitmap_flags, lemma_w1_encode_cong, row_acc, t1_field, uniform_spec, w1_encode_row, z_coeff,
    z_exceeds, Poly, PreparedRow,
};
use crate::reduce::{
    centered, cong, lemma_cancel_pow2_64, lemma_cong_add, lemma_cong_mul, lemma_cong_modq,
    lemma_cong_same_modq, lemma_cong_trans, modq, plantard_factor, pow2_64,
};
use crate::sample::{sample_in_ball, stream_limit};
use crate::shake::{h256, xof256};

verus! {

/// `f = 2^64 / 256 mod Q`, the reference's final inverse-NTT multiplier;
/// the prepared tables carry `−f`.
pub const INVNTT_SCALE: i64 = 41978;

/// The Plantard constant for scaling a table entry by `−f`:
/// `plantard_constant(−INVNTT_SCALE)`.
pub const NEG_F_PLANTARD: u64 = 18354343251324916155;

/// `256^-1 mod Q`.
pub open spec fn inv256() -> int {
    8347681
}

/// `−2^-64 mod Q`.
pub open spec fn neg_inv_2_64() -> int {
    786975
}

/// Byte length of the prepared form.
pub const PREPARED_KEY_LEN: usize = 20544;

/// Byte length of one prepared row.
pub const ROW_BYTE_LEN: usize = 5120;

// ---------------------------------------------------------------------
// The encodings, as FIPS 204 §7.2 lays them out.

/// `ρ`, the first 32 bytes of a public key.
pub open spec fn pk_rho(pk: Seq<u8>) -> Seq<u8> {
    pk.subrange(0, 32)
}

/// The packed `t1_i`, 320 bytes after `ρ` and the previous rows.
pub open spec fn pk_t1(pk: Seq<u8>, i: int) -> Seq<u8> {
    pk.subrange(32 + 320 * i, 32 + 320 * (i + 1))
}

/// `t1_i · 2^d`.
pub open spec fn t1_poly(pk: Seq<u8>, i: int) -> Seq<int> {
    Seq::new(256, |k: int| t1_field(pk_t1(pk, i), k) * 8192)
}

/// `Â_ij = RejNTTPoly(ρ ‖ j ‖ i)` (FIPS 204 Algorithm 32, `ExpandA`), the
/// stream read as far as one buffer reaches (`Poly::uniform`).
pub open spec fn matrix_entry(turbo: bool, pk: Seq<u8>, i: int, j: int) -> Seq<int> {
    Seq::new(256, |k: int| {
        let r = uniform_spec(turbo, pk_rho(pk), (256 * i + j) as u16);
        if k < r.len() { r[k] } else { 0 }
    })
}

/// `c̃`, the first 32 bytes of a signature.
pub open spec fn sig_ctilde(s: Seq<u8>) -> Seq<u8> {
    s.subrange(0, 32)
}

/// The packed `z_j`.
pub open spec fn sig_z(s: Seq<u8>, j: int) -> Seq<u8> {
    s.subrange(32 + 576 * j, 32 + 576 * (j + 1))
}

/// The 84-byte hint block.
pub open spec fn sig_hints(s: Seq<u8>) -> Seq<u8> {
    s.subrange(2336, 2420)
}

/// `z_j` as integers.
pub open spec fn z_poly(s: Seq<u8>, j: int) -> Seq<int> {
    Seq::new(256, |k: int| z_coeff(sig_z(s, j), k))
}

/// `‖z‖∞ < γ1 − β` (FIPS 204 Algorithm 8, line 13).
pub open spec fn z_in_range(s: Seq<u8>) -> bool {
    forall|j: int| 0 <= j < 4 ==> !#[trigger] z_exceeds(sig_z(s, j), (GAMMA1 - BETA) as int)
}

/// `c = SampleInBall(c̃)` on the stream `H(c̃)` (`Poly::challenge`).
pub open spec fn c_poly(turbo: bool, s: Seq<u8>) -> Seq<int> {
    sample_in_ball(xof256(turbo, sig_ctilde(s), stream_limit()))
}

/// The hint flags of polynomial `i`: coefficient `k` is flagged when `k`
/// is among its indices.
pub open spec fn hint_flags(h: Seq<u8>, i: int) -> Seq<bool> {
    Seq::new(256, |k: int| exists|j: int| hint_start(h, i) <= j < h[80 + i] && #[trigger] h[j] == k)
}

// ---------------------------------------------------------------------
// The verification equation, row by row.

/// Row `i` of `Â ∘ NTT(z) − NTT(c) ∘ NTT(t1 · 2^d)` from the public key.
pub open spec fn raw_acc(turbo: bool, pk: Seq<u8>, s: Seq<u8>, i: int) -> Seq<int> {
    Seq::new(256, |k: int|
        matrix_entry(turbo, pk, i, 0)[k] * ntt_spec(z_poly(s, 0))[k]
        + matrix_entry(turbo, pk, i, 1)[k] * ntt_spec(z_poly(s, 1))[k]
        + matrix_entry(turbo, pk, i, 2)[k] * ntt_spec(z_poly(s, 2))[k]
        + matrix_entry(turbo, pk, i, 3)[k] * ntt_spec(z_poly(s, 3))[k]
        - ntt_spec(c_poly(turbo, s))[k] * ntt_spec(t1_poly(pk, i))[k])
}

/// `w1Encode(UseHint(h_i, NTT^-1(row i)))` from the public key (FIPS 204
/// Algorithm 8, lines 9–12).
pub open spec fn raw_w1(turbo: bool, pk: Seq<u8>, s: Seq<u8>, i: int) -> Seq<u8> {
    w1_encode_row(
        intt_unscaled(Seq::new(256, |k: int| raw_acc(turbo, pk, s, i)[k] * inv256())),
        hint_flags(sig_hints(s), i),
    )
}

/// Row `i` of the same equation from a prepared row, whose entries carry
/// the factor `−f`.
pub open spec fn prepared_acc(turbo: bool, row: Seq<Seq<u32>>, s: Seq<u8>) -> Seq<int> {
    Seq::new(256, |k: int| row_acc(row[k], ntt_spec(z_poly(s, 0))[k], ntt_spec(z_poly(s, 1))[k],
        ntt_spec(z_poly(s, 2))[k], ntt_spec(z_poly(s, 3))[k], ntt_spec(c_poly(turbo, s))[k]))
}

/// `w1Encode(UseHint(h_i, ·))` of row `i` from a prepared row.
pub open spec fn prepared_w1(turbo: bool, row: Seq<Seq<u32>>, s: Seq<u8>, i: int) -> Seq<u8> {
    w1_encode_row(
        intt_unscaled(Seq::new(256, |k: int| prepared_acc(turbo, row, s)[k] * neg_inv_2_64())),
        hint_flags(sig_hints(s), i),
    )
}

/// The outcome of `ML-DSA.Verify_internal` on `μ` given the encoded `w1`
/// (FIPS 204 Algorithm 8): the hint encoding is well formed, `‖z‖∞ < γ1 −
/// β`, and `c̃ = H(μ ‖ w1Encode(w1), 32)`.
pub open spec fn verdict(turbo: bool, s: Seq<u8>, mu: Seq<u8>, w1: Seq<u8>) -> Result<(), Error> {
    if hints_well_formed(sig_hints(s)) && z_in_range(s) && xof256(turbo, mu + w1, 32) == sig_ctilde(s) {
        Ok(())
    } else {
        Err(Error::InvalidSignature)
    }
}

/// The encoded `w1` from the public key.
pub open spec fn raw_w1_all(turbo: bool, pk: Seq<u8>, s: Seq<u8>) -> Seq<u8> {
    raw_w1(turbo, pk, s, 0) + raw_w1(turbo, pk, s, 1) + raw_w1(turbo, pk, s, 2) + raw_w1(turbo, pk, s, 3)
}

/// The encoded `w1` from prepared rows.
pub open spec fn prepared_w1_all(turbo: bool, rows: Seq<Seq<Seq<u32>>>, s: Seq<u8>) -> Seq<u8> {
    prepared_w1(turbo, rows[0], s, 0) + prepared_w1(turbo, rows[1], s, 1) + prepared_w1(turbo, rows[2], s, 2)
        + prepared_w1(turbo, rows[3], s, 3)
}

/// `tr = H(pk, 64)`.
pub open spec fn pk_hash(turbo: bool, pk: Seq<u8>) -> Seq<u8> {
    xof256(turbo, pk, 64)
}

/// `M′ = 0 ‖ |ctx| ‖ ctx ‖ M` (FIPS 204 Algorithm 3, line 5).
pub open spec fn framed(ctx: Seq<u8>, msg: Seq<u8>) -> Seq<u8> {
    seq![0u8, ctx.len() as u8] + ctx + msg
}

/// `μ = H(tr ‖ M′, 64)` (FIPS 204 Algorithm 8, line 7).
pub open spec fn message_representative(turbo: bool, tr: Seq<u8>, m_prime: Seq<u8>) -> Seq<u8> {
    xof256(turbo, tr + m_prime, 64)
}

/// The prepared row `i` of a public key: `−f · (Â_i0, …, Â_i3,
/// NTT(t1_i · 2^d))` at each coefficient, standard representatives.
pub open spec fn prepared_row_spec(turbo: bool, pk: Seq<u8>, i: int) -> Seq<Seq<u32>> {
    Seq::new(256, |k: int| Seq::new(5, |j: int|
        (if j < 4 {
            modq(-INVNTT_SCALE * matrix_entry(turbo, pk, i, j)[k])
        } else {
            modq(-INVNTT_SCALE * ntt_spec(t1_poly(pk, i))[k])
        }) as u32))
}

/// The prepared rows of a public key.
pub open spec fn prepared_rows_spec(turbo: bool, pk: Seq<u8>) -> Seq<Seq<Seq<u32>>> {
    Seq::new(4, |i: int| prepared_row_spec(turbo, pk, i))
}

/// `plantard_constant(−f)`'s factor is `f · 2^64` centred, and `−2^-64`
/// and `256^-1` are what the names say.
pub proof fn lemma_scaling_constants()
    ensures
        plantard_factor(NEG_F_PLANTARD) == 1569211,
        centered(INVNTT_SCALE * pow2_64()) == 1569211,
        cong(1569211, INVNTT_SCALE * pow2_64()),
        (neg_inv_2_64() * pow2_64()) % (Q as int) == Q - 1,
        (inv256() * 256) % (Q as int) == 1,
        (INVNTT_SCALE * 256) % (Q as int) == pow2_64() % (Q as int),
{
    assert((18354343251324916155int * 8380417) % 18446744073709551616int == 1569211)
        by (nonlinear_arith);
    assert((41978int * 18446744073709551616int) % 8380417 == 1569211) by (nonlinear_arith);
    assert((1569211int - 41978int * 18446744073709551616int) % 8380417 == 0) by (nonlinear_arith);
    assert((786975int * 18446744073709551616int) % 8380417 == 8380416) by (nonlinear_arith);
    assert((8347681int * 256) % 8380417 == 1) by (nonlinear_arith);
    assert((41978int * 256) % 8380417 == 18446744073709551616int % 8380417) by (nonlinear_arith);
}

// ---------------------------------------------------------------------
// Types.

/// `ρ ‖ t1`, 1312 bytes. `TURBO` selects SHAKE (`false`) or TurboSHAKE
/// (`true`). The encoding does not identify the choice; the protocol must
/// bind it to the key.
#[derive(Clone, Debug, PartialEq, Eq)]
pub struct VerifyingKey<const TURBO: bool>([u8; PUBLIC_KEY_LEN]);

/// `c̃ ‖ z ‖ h`, 2420 bytes.
#[derive(Clone, Debug, PartialEq, Eq)]
pub struct Signature([u8; SIGNATURE_LEN]);

/// What verification needs from a public key, computed once: `Â =
/// ExpandA(ρ)` and `NTT(t1 · 2^d)` scaled by `−f`, and `tr = H(pk, 64)`.
/// 20,544 bytes. `TURBO` must match the key that produced the cache and is
/// not encoded in it.
///
/// Row `i` is stored coefficient-major, `rows[i][k] = (Â_i0[k], …, Â_i3[k],
/// t̂1_i[k])`, so a row's five operands at one coefficient are read
/// together.
pub struct PreparedVerifyingKey<const TURBO: bool> {
    rows: [PreparedRow; K],
    tr: [u8; TRBYTES],
}

impl<const TURBO: bool> View for VerifyingKey<TURBO> {
    type V = Seq<u8>;

    /// The encoded bytes.
    closed spec fn view(&self) -> Seq<u8> {
        self.0@
    }
}

impl View for Signature {
    type V = Seq<u8>;

    /// The encoded bytes.
    closed spec fn view(&self) -> Seq<u8> {
        self.0@
    }
}

impl<const TURBO: bool> PreparedVerifyingKey<TURBO> {
    /// Every prepared entry is a standard representative in `[0, Q)`.
    #[verifier::type_invariant]
    spec fn entries_reduced(&self) -> bool {
        forall|i: int, k: int, j: int| 0 <= i < 4 && 0 <= k < 256 && 0 <= j < 5 ==> #[trigger] self.rows@[i]@[k]@[j] < Q
    }

    /// The prepared rows, `rows[i][k][j]`.
    pub closed spec fn rows_view(&self) -> Seq<Seq<Seq<u32>>> {
        Seq::new(4, |i: int| Seq::new(256, |k: int| self.rows@[i]@[k]@))
    }

    /// The public-key hash `tr`.
    pub closed spec fn tr_view(&self) -> Seq<u8> {
        self.tr@
    }
}

/// Copies exactly `M` bytes into an array.
fn to_array<const M: usize>(v: &[u8]) -> (a: [u8; M])
    requires
        v@.len() == M,
    ensures
        a@ == v@,
{
    let mut a = [0u8; M];
    let mut i: usize = 0;
    while i < M
        invariant
            i <= M,
            v@.len() == M,
            a@.len() == M,
            forall|j: int| 0 <= j < i ==> #[trigger] a@[j] == v@[j],
        decreases M - i,
    {
        a[i] = v[i];
        i += 1;
    }
    assert(a@ =~= v@);
    a
}

impl<const TURBO: bool> VerifyingKey<TURBO> {
    /// Encoded byte length.
    pub const BYTE_LEN: usize = PUBLIC_KEY_LEN;

    /// Copy a fixed-size encoding. This does not authenticate the key.
    pub fn from_bytes(bytes: &[u8; PUBLIC_KEY_LEN]) -> (k: Self)
        ensures
            k@ == bytes@,
    {
        VerifyingKey(*bytes)
    }

    /// Copy an exactly sized encoding, rejecting any other length.
    pub fn from_slice(bytes: &[u8]) -> (r: Result<Self, Error>)
        ensures
            r is Ok <==> bytes@.len() == PUBLIC_KEY_LEN,
            r matches Ok(k) ==> k@ == bytes@,
            r matches Err(e) ==> e == Error::InvalidLength,
    {
        if bytes.len() != PUBLIC_KEY_LEN {
            return Err(Error::InvalidLength);
        }
        Ok(VerifyingKey(to_array::<PUBLIC_KEY_LEN>(bytes)))
    }

    /// Borrow the encoding without copying.
    pub fn as_bytes(&self) -> (b: &[u8; PUBLIC_KEY_LEN])
        ensures
            b@ == self@,
    {
        &self.0
    }

    /// Copy the encoding into an owned byte array.
    pub fn to_bytes(&self) -> (b: [u8; PUBLIC_KEY_LEN])
        ensures
            b@ == self@,
    {
        self.0
    }

    /// Consume the value and return its encoding.
    pub fn into_bytes(self) -> (b: [u8; PUBLIC_KEY_LEN])
        ensures
            b@ == self@,
    {
        self.0
    }

    /// Compute the 64-byte public-key hash (`tr = H(pk, 64)`, FIPS 204
    /// Algorithm 6 line 9).
    pub fn public_key_hash(&self) -> (tr: [u8; TRBYTES])
        ensures
            tr@ == pk_hash(TURBO, self@),
    {
        let h = h256::<TURBO>(self.0.as_slice(), TRBYTES);
        to_array::<TRBYTES>(h.as_slice())
    }
}

impl Signature {
    /// Encoded byte length.
    pub const BYTE_LEN: usize = SIGNATURE_LEN;

    /// Copy a fixed-size encoding. This does not authenticate the signature.
    pub fn from_bytes(bytes: &[u8; SIGNATURE_LEN]) -> (sig: Self)
        ensures
            sig@ == bytes@,
    {
        Signature(*bytes)
    }

    /// Copy an exactly sized encoding, rejecting any other length.
    pub fn from_slice(bytes: &[u8]) -> (r: Result<Self, Error>)
        ensures
            r is Ok <==> bytes@.len() == SIGNATURE_LEN,
            r matches Ok(sig) ==> sig@ == bytes@,
            r matches Err(e) ==> e == Error::InvalidLength,
    {
        if bytes.len() != SIGNATURE_LEN {
            return Err(Error::InvalidLength);
        }
        Ok(Signature(to_array::<SIGNATURE_LEN>(bytes)))
    }

    /// Borrow the encoding without copying.
    pub fn as_bytes(&self) -> (b: &[u8; SIGNATURE_LEN])
        ensures
            b@ == self@,
    {
        &self.0
    }

    /// Copy the encoding into an owned byte array.
    pub fn to_bytes(&self) -> (b: [u8; SIGNATURE_LEN])
        ensures
            b@ == self@,
    {
        self.0
    }

    /// Consume the value and return its encoding.
    pub fn into_bytes(self) -> (b: [u8; SIGNATURE_LEN])
        ensures
            b@ == self@,
    {
        self.0
    }
}

/// A table entry `e ∈ [0, Q)` with `e · 2^64 ≡ −c · b`, `b` the factor of
/// `NEG_F_PLANTARD`, is the standard representative of `−f · c`.
proof fn lemma_scaled_entry(e: int, c: int, cs: int)
    requires
        cong(e * pow2_64(), -(c * 1569211)),
        0 <= e < Q,
        cong(c, cs),
    ensures
        e == modq(-INVNTT_SCALE * cs),
{
    lemma_scaling_constants();
    lemma_cong_mul(c, 1569211, INVNTT_SCALE * pow2_64());
    lemma_cong_add(0, 0, c * 1569211, c * (INVNTT_SCALE * pow2_64()));
    assert(0 - c * (INVNTT_SCALE * pow2_64()) == (-INVNTT_SCALE * c) * pow2_64()) by (nonlinear_arith);
    lemma_cong_trans(e * pow2_64(), -(c * 1569211), (-INVNTT_SCALE * c) * pow2_64());
    lemma_cancel_pow2_64(e, -INVNTT_SCALE * c);
    lemma_cong_mul(-INVNTT_SCALE, c, cs);
    lemma_cong_trans(e, -INVNTT_SCALE * c, -INVNTT_SCALE * cs);
    lemma_cong_same_modq(e, -INVNTT_SCALE * cs);
    vstd::arithmetic::div_mod::lemma_small_mod(e as nat, Q as nat);
}

/// Little-endian `u32` at byte offset `off`.
pub open spec fn le32(b: Seq<u8>, off: int) -> int {
    b[off] + 256 * b[off + 1] + 65536 * b[off + 2] + 16777216 * b[off + 3]
}

/// Byte offset of prepared entry `(i, k, j)`: rows, then coefficients, then
/// operands, four bytes each.
pub open spec fn entry_offset(i: int, k: int, j: int) -> int {
    4 * ((256 * i + k) * 5 + j)
}

/// The prepared-storage encoding: every entry little-endian at
/// `entry_offset`, then `tr`.
pub open spec fn prepared_encoding(rows: Seq<Seq<Seq<u32>>>, tr: Seq<u8>) -> Seq<u8> {
    Seq::new(20544, |p: int|
        if p < 20480 {
            let e = p / 4;
            let i = e / 1280;
            let k = (e % 1280) / 5;
            let j = e % 5;
            (((rows[i][k][j] as int) / pow_byte(p % 4)) % 256) as u8
        } else {
            tr[p - 20480]
        })
}

/// `256^t` for a byte position `t` in a `u32`.
pub open spec fn pow_byte(t: int) -> int {
    if t == 0 { 1 } else if t == 1 { 256 } else if t == 2 { 65536 } else { 16777216 }
}

/// Entry `(i, k, j)` of `rows` holds the encoded value, a standard
/// representative.
pub open spec fn entry_decoded(rows: [PreparedRow; 4], b: Seq<u8>, i: int, k: int, j: int) -> bool {
    rows@[i]@[k]@[j] == le32(b, entry_offset(i, k, j)) && le32(b, entry_offset(i, k, j)) < Q
}

/// Every encoded entry is a standard representative.
pub open spec fn prepared_canonical(b: Seq<u8>) -> bool {
    forall|i: int, k: int, j: int| 0 <= i < 4 && 0 <= k < 256 && 0 <= j < 5 ==> #[trigger] le32(b, entry_offset(i, k, j)) < Q
}

/// The rows an encoding holds.
pub open spec fn decoded_rows(b: Seq<u8>) -> Seq<Seq<Seq<u32>>> {
    Seq::new(4, |i: int| Seq::new(256, |k: int| Seq::new(5, |j: int| le32(b, entry_offset(i, k, j)) as u32)))
}

/// The `u32` at a little-endian offset.
fn load_le32(b: &[u8; PREPARED_KEY_LEN], off: usize) -> (v: u32)
    requires
        off + 4 <= 20544,
    ensures
        v == le32(b@, off as int),
{
    let b0 = b[off] as u32;
    let b1 = b[off + 1] as u32;
    let b2 = b[off + 2] as u32;
    let b3 = b[off + 3] as u32;
    proof {
        assert(b0 | b1 << 8u32 | b2 << 16u32 | b3 << 24u32 == b0 + 256 * b1 + 65536 * b2 + 16777216 * b3)
            by (bit_vector)
            requires b0 < 256, b1 < 256, b2 < 256, b3 < 256;
    }
    b0 | b1 << 8u32 | b2 << 16u32 | b3 << 24u32
}

impl<const TURBO: bool> PreparedVerifyingKey<TURBO> {
    /// Operands per coefficient: the four matrix columns and t1.
    pub const ROW: usize = 5;

    /// Byte length of the prepared form.
    pub const BYTE_LEN: usize = PREPARED_KEY_LEN;

    /// Byte length of one row of the prepared form.
    pub const ROW_BYTE_LEN: usize = ROW_BYTE_LEN;

    /// Byte offset of the public-key hash (`tr`), after the prepared rows.
    pub const PUBLIC_KEY_HASH_OFFSET: usize = 20480;

    /// The all-zero value to `VerifyingKey::prepare_into`.
    pub fn zero() -> (z: Self)
        ensures
            forall|i: int, k: int, j: int| 0 <= i < 4 && 0 <= k < 256 && 0 <= j < 5 ==> #[trigger] z.rows_view()[i][k][j] == 0,
            forall|t: int| 0 <= t < 64 ==> #[trigger] z.tr_view()[t] == 0,
    {
        PreparedVerifyingKey { rows: [[[0u32; 5]; 256]; 4], tr: [0u8; TRBYTES] }
    }

    /// Borrow the 64-byte public-key hash (`tr = H(pk, 64)` in FIPS 204).
    pub fn public_key_hash(&self) -> (tr: &[u8; TRBYTES])
        ensures
            tr@ == self.tr_view(),
    {
        &self.tr
    }

    /// Borrow a cached row without copying it. The index is in `0..4`.
    pub fn row(&self, index: usize) -> (r: Option<&PreparedRow>)
        ensures
            r is Some <==> index < 4,
            r matches Some(row) ==> forall|k: int| 0 <= k < 256 ==> #[trigger] row@[k]@ == self.rows_view()[index as int][k],
    {
        if index < K {
            Some(&self.rows[index])
        } else {
            None
        }
    }

    /// Decode an owned cache, checking its coefficient representation.
    /// This does not authenticate its derivation from a public key.
    pub fn from_bytes(bytes: &[u8; PREPARED_KEY_LEN]) -> (r: Result<Self, Error>)
        ensures
            r is Ok <==> prepared_canonical(bytes@),
            r matches Ok(key) ==> key.rows_view() == decoded_rows(bytes@) && key.tr_view() == bytes@.subrange(20480, 20544),
            r matches Err(e) ==> e == Error::InvalidEncoding,
    {
        let mut out = Self::zero();
        let mut i: usize = 0;
        while i < K
            invariant
                i <= 4,
                forall|i2: int, k: int, j: int| 0 <= i2 < i && 0 <= k < 256 && 0 <= j < 5 ==>
                    #[trigger] entry_decoded(out.rows, bytes@, i2, k, j),
            decreases 4 - i,
        {
            let mut k: usize = 0;
            while k < N
                invariant
                    i < 4,
                    k <= 256,
                    forall|i2: int, k2: int, j: int| 0 <= i2 < i && 0 <= k2 < 256 && 0 <= j < 5 ==>
                        #[trigger] entry_decoded(out.rows, bytes@, i2, k2, j),
                    forall|k2: int, j: int| 0 <= k2 < k && 0 <= j < 5 ==>
                        #[trigger] entry_decoded(out.rows, bytes@, i as int, k2, j),
                decreases 256 - k,
            {
                let mut j: usize = 0;
                while j < 5
                    invariant
                        i < 4,
                        k < 256,
                        j <= 5,
                        forall|i2: int, k2: int, j2: int| 0 <= i2 < i && 0 <= k2 < 256 && 0 <= j2 < 5 ==>
                            #[trigger] entry_decoded(out.rows, bytes@, i2, k2, j2),
                        forall|k2: int, j2: int| 0 <= k2 < k && 0 <= j2 < 5 ==>
                            #[trigger] entry_decoded(out.rows, bytes@, i as int, k2, j2),
                        forall|j2: int| 0 <= j2 < j ==>
                            #[trigger] entry_decoded(out.rows, bytes@, i as int, k as int, j2),
                    decreases 5 - j,
                {
                    let off = 4 * ((256 * i + k) * 5 + j);
                    let v = load_le32(bytes, off);
                    if v >= Q as u32 {
                        assert(!prepared_canonical(bytes@)) by {
                            assert(le32(bytes@, entry_offset(i as int, k as int, j as int)) >= Q);
                        }
                        return Err(Error::InvalidEncoding);
                    }
                    let ghost before = out.rows;
                    proof {
                        use_type_invariant(&out);
                    }
                    out.rows[i][k][j] = v;
                    proof {
                        assert forall|i2: int, k2: int, j2: int| 0 <= i2 < i && 0 <= k2 < 256 && 0 <= j2 < 5
                            implies #[trigger] entry_decoded(out.rows, bytes@, i2, k2, j2) by {
                            assert(entry_decoded(before, bytes@, i2, k2, j2));
                        }
                        assert forall|k2: int, j2: int| 0 <= k2 < k && 0 <= j2 < 5
                            implies #[trigger] entry_decoded(out.rows, bytes@, i as int, k2, j2) by {
                            assert(entry_decoded(before, bytes@, i as int, k2, j2));
                        }
                        assert forall|j2: int| 0 <= j2 <= j
                            implies #[trigger] entry_decoded(out.rows, bytes@, i as int, k as int, j2) by {
                            if j2 < j {
                                assert(entry_decoded(before, bytes@, i as int, k as int, j2));
                            }
                        }
                    }
                    j += 1;
                }
                k += 1;
            }
            i += 1;
        }
        let mut t: usize = 0;
        while t < TRBYTES
            invariant
                t <= 64,
                forall|i2: int, k: int, j: int| 0 <= i2 < 4 && 0 <= k < 256 && 0 <= j < 5 ==>
                    #[trigger] entry_decoded(out.rows, bytes@, i2, k, j),
                forall|t2: int| 0 <= t2 < t ==> #[trigger] out.tr@[t2] == bytes@[20480 + t2],
            decreases 64 - t,
        {
            proof {
                use_type_invariant(&out);
            }
            out.tr[t] = bytes[20480 + t];
            t += 1;
        }
        assert(prepared_canonical(bytes@)) by {
            assert forall|i2: int, k: int, j: int| 0 <= i2 < 4 && 0 <= k < 256 && 0 <= j < 5 implies #[trigger] le32(bytes@, entry_offset(i2, k, j)) < Q by {
                assert(entry_decoded(out.rows, bytes@, i2, k, j));
            }
        }
        assert(out.rows_view() =~= decoded_rows(bytes@)) by {
            assert forall|i2: int| 0 <= i2 < 4 implies #[trigger] out.rows_view()[i2] =~= decoded_rows(bytes@)[i2] by {
                assert forall|k: int| 0 <= k < 256 implies #[trigger] out.rows_view()[i2][k] =~= decoded_rows(bytes@)[i2][k] by {
                    assert forall|j: int| 0 <= j < 5 implies #[trigger] out.rows_view()[i2][k][j] == decoded_rows(bytes@)[i2][k][j] by {
                        assert(entry_decoded(out.rows, bytes@, i2, k, j));
                    }
                }
            }
        }
        assert(out.tr_view() =~= bytes@.subrange(20480, 20544));
        Ok(out)
    }

    /// Copy and decode a prepared cache after checking its exact length.
    pub fn from_slice(bytes: &[u8]) -> (r: Result<Self, Error>)
        ensures
            bytes@.len() != PREPARED_KEY_LEN ==> r == Err::<Self, Error>(Error::InvalidLength),
            bytes@.len() == PREPARED_KEY_LEN ==> (r is Ok <==> prepared_canonical(bytes@)),
            r matches Ok(key) ==> key.rows_view() == decoded_rows(bytes@) && key.tr_view() == bytes@.subrange(20480, 20544),
            bytes@.len() == PREPARED_KEY_LEN ==> (r matches Err(e) ==> e == Error::InvalidEncoding),
    {
        if bytes.len() != PREPARED_KEY_LEN {
            return Err(Error::InvalidLength);
        }
        let a = to_array::<PREPARED_KEY_LEN>(bytes);
        Self::from_bytes(&a)
    }
}

impl<const TURBO: bool> PreparedVerifyingKey<TURBO> {
    /// Row `i` of the prepared form: `Â_i0, …, Â_i3` from `ExpandA(ρ)` and
    /// `NTT(t1_i · 2^d)`, scaled by `−f`.
    fn prepare_row(pk: &VerifyingKey<TURBO>, i: usize, row: &mut PreparedRow)
        requires
            i < 4,
        ensures
            forall|k: int| 0 <= k < 256 ==> #[trigger] final(row)@[k]@ == prepared_row_spec(TURBO, pk@, i as int)[k],
    {
        let rho = vstd::slice::slice_subrange(pk.0.as_slice(), 0, SEEDBYTES);
        let mut p = Poly::zero();
        let mut j: usize = 0;
        proof {
            lemma_scaling_constants();
        }
        while j < L
            invariant
                i < 4,
                j <= 4,
                rho@ == pk_rho(pk@),
                plantard_factor(NEG_F_PLANTARD) == 1569211,
                forall|k: int, j2: int| 0 <= k < 256 && 0 <= j2 < j ==> #[trigger] row@[k]@[j2] == prepared_row_spec(TURBO, pk@, i as int)[k][j2],
            decreases 4 - j,
        {
            p.uniform::<TURBO>(rho, (256 * i + j) as u16);
            proof {
                assert forall|k: int| 0 <= k < 256 implies -(Q * Q * 65536) <= #[trigger] p.c@[k] * plantard_factor(NEG_F_PLANTARD) <= Q * Q * 65536 by {
                    crate::ntt::lemma_mul_bound(p.c@[k] as int, Q as int, 1569211, 1569211);
                }
            }
            let ghost before = *row;
            p.freeze_scaled_into(NEG_F_PLANTARD, row, j);
            proof {
                assert forall|k: int, j2: int| 0 <= k < 256 && 0 <= j2 <= j implies #[trigger] row@[k]@[j2] == prepared_row_spec(TURBO, pk@, i as int)[k][j2] by {
                    if j2 == j {
                        let c = p.c@[k] as int;
                        assert(c == matrix_entry(TURBO, pk@, i as int, j as int)[k]);
                        lemma_scaled_entry(row@[k]@[j2] as int, c, c);
                    } else {
                        assert(row@[k]@[j2] == before@[k]@[j2]);
                    }
                }
            }
            j += 1;
        }
        let start = SEEDBYTES + i * POLYT1_PACKEDBYTES;
        let t1 = vstd::slice::slice_subrange(pk.0.as_slice(), start, start + POLYT1_PACKEDBYTES);
        p.t1_unpack_shifted(t1);
        let ghost t1s = ints(p.c@);
        proof {
            assert(t1@ == pk_t1(pk@, i as int));
            assert(t1s =~= t1_poly(pk@, i as int));
            assert forall|k: int| 0 <= k < 256 implies bounded(#[trigger] p.c@[k] as int, 8388608) by {}
        }
        p.ntt();
        proof {
            assert forall|k: int| 0 <= k < 256 implies -(Q * Q * 65536) <= #[trigger] p.c@[k] * plantard_factor(NEG_F_PLANTARD) <= Q * Q * 65536 by {
                crate::ntt::lemma_mul_bound(p.c@[k] as int, 8388608 + 8 * half_q(), 1569211, 1569211);
            }
        }
        let ghost before = *row;
        p.freeze_scaled_into(NEG_F_PLANTARD, row, L);
        proof {
            assert forall|k: int| 0 <= k < 256 implies #[trigger] row@[k]@ == prepared_row_spec(TURBO, pk@, i as int)[k] by {
                assert forall|j2: int| 0 <= j2 < 5 implies row@[k]@[j2] == prepared_row_spec(TURBO, pk@, i as int)[k][j2] by {
                    if j2 == 4 {
                        let c = p.c@[k] as int;
                        lemma_scaled_entry(row@[k]@[j2] as int, c, ntt_spec(t1_poly(pk@, i as int))[k]);
                    } else {
                        assert(row@[k]@[j2] == before@[k]@[j2]);
                    }
                }
                assert(row@[k]@ =~= prepared_row_spec(TURBO, pk@, i as int)[k]);
            }
        }
    }

    /// Prepares a public key in place (FIPS 204 `ExpandA`, `NTT(t1 · 2^d)`,
    /// `tr`).
    fn prepare_into(pk: &VerifyingKey<TURBO>, out: &mut PreparedVerifyingKey<TURBO>)
        ensures
            final(out).rows_view() == prepared_rows_spec(TURBO, pk@),
            final(out).tr_view() == pk_hash(TURBO, pk@),
    {
        let mut i: usize = 0;
        while i < K
            invariant
                i <= 4,
                forall|i2: int, k: int| 0 <= i2 < i && 0 <= k < 256 ==> #[trigger] out.rows@[i2]@[k]@ == prepared_row_spec(TURBO, pk@, i2)[k],
            decreases 4 - i,
        {
            let mut row = out.rows[i];
            Self::prepare_row(pk, i, &mut row);
            let ghost before = out.rows;
            proof {
                use_type_invariant(&*out);
                assert forall|k: int, j: int| 0 <= k < 256 && 0 <= j < 5 implies #[trigger] row@[k]@[j] < Q by {
                    assert(row@[k]@ == prepared_row_spec(TURBO, pk@, i as int)[k]);
                    if j < 4 {
                        lemma_cong_modq(-INVNTT_SCALE * matrix_entry(TURBO, pk@, i as int, j)[k]);
                    } else {
                        lemma_cong_modq(-INVNTT_SCALE * ntt_spec(t1_poly(pk@, i as int))[k]);
                    }
                }
            }
            out.rows[i] = row;
            proof {
                assert forall|i2: int, k: int| 0 <= i2 <= i && 0 <= k < 256 implies #[trigger] out.rows@[i2]@[k]@ == prepared_row_spec(TURBO, pk@, i2)[k] by {
                    if i2 < i {
                        assert(out.rows@[i2] == before@[i2]);
                    }
                }
            }
            i += 1;
        }
        out.tr = pk.public_key_hash();
        proof {
            assert(out.rows_view() =~= prepared_rows_spec(TURBO, pk@)) by {
                assert forall|i2: int| 0 <= i2 < 4 implies #[trigger] out.rows_view()[i2] =~= prepared_rows_spec(TURBO, pk@)[i2] by {
                    assert forall|k: int| 0 <= k < 256 implies #[trigger] out.rows_view()[i2][k] == prepared_rows_spec(TURBO, pk@)[i2][k] by {
                        assert(out.rows@[i2]@[k]@ == prepared_row_spec(TURBO, pk@, i2)[k]);
                    }
                }
            }
        }
    }

    /// Prepares a public key by value.
    fn prepare(pk: &VerifyingKey<TURBO>) -> (out: PreparedVerifyingKey<TURBO>)
        ensures
            out.rows_view() == prepared_rows_spec(TURBO, pk@),
            out.tr_view() == pk_hash(TURBO, pk@),
    {
        let mut out = Self::zero();
        Self::prepare_into(pk, &mut out);
        out
    }
}

impl<const TURBO: bool> VerifyingKey<TURBO> {
    /// Prepare by value on a host.
    pub fn prepare(&self) -> (out: PreparedVerifyingKey<TURBO>)
        ensures
            out.rows_view() == prepared_rows_spec(TURBO, self@),
            out.tr_view() == pk_hash(TURBO, self@),
    {
        PreparedVerifyingKey::<TURBO>::prepare(self)
    }

    /// Expand into caller-owned storage without a large return value.
    pub fn prepare_into(&self, out: &mut PreparedVerifyingKey<TURBO>)
        ensures
            final(out).rows_view() == prepared_rows_spec(TURBO, self@),
            final(out).tr_view() == pk_hash(TURBO, self@),
    {
        PreparedVerifyingKey::<TURBO>::prepare_into(self, out);
    }

    /// Prepare one of four rows. An invalid index leaves the output unchanged.
    pub fn prepare_row_into(&self, index: usize, out: &mut PreparedRow) -> (r: Result<(), Error>)
        ensures
            r is Ok <==> index < 4,
            r matches Err(e) ==> e == Error::InvalidRow && *final(out) == *old(out),
            r is Ok ==> forall|k: int| 0 <= k < 256 ==> #[trigger] final(out)@[k]@ == prepared_row_spec(TURBO, self@, index as int)[k],
    {
        if index >= K {
            return Err(Error::InvalidRow);
        }
        PreparedVerifyingKey::<TURBO>::prepare_row(self, index, out);
        Ok(())
    }
}

// ---------------------------------------------------------------------
// Arithmetic facts the rows rest on.

/// `w · 2^64 ≡ −acc` makes `w ≡ acc · (−2^-64)`.
pub proof fn lemma_lazy_row_value(w: int, acc: int)
    requires
        cong(w * pow2_64(), -acc),
    ensures
        cong(w, acc * neg_inv_2_64()),
{
    lemma_scaling_constants();
    let x = acc * neg_inv_2_64();
    // x · 2^64 = acc · (786975 · 2^64) ≡ acc · (Q − 1) ≡ −acc
    lemma_cong_modq(neg_inv_2_64() * pow2_64());
    lemma_cong_mul(acc, neg_inv_2_64() * pow2_64(), Q - 1);
    assert(acc * (neg_inv_2_64() * pow2_64()) == x * pow2_64()) by (nonlinear_arith)
        requires x == acc * neg_inv_2_64();
    assert(acc * (Q - 1) == -acc + acc * Q) by (nonlinear_arith);
    crate::reduce::lemma_multiple_of_q(acc * (Q - 1) - (-acc), acc);
    lemma_cong_trans(x * pow2_64(), acc * (Q - 1), -acc);
    lemma_cong_add(x * pow2_64(), -acc, 0, 0);
    lemma_cong_trans(w * pow2_64(), -acc, x * pow2_64());
    lemma_cancel_pow2_64(w, x);
}

/// `w · 2^128 ≡ acc · b` with `b` the factor of `NEG_F_PLANTARD` makes `w ≡
/// acc · 256^-1`.
pub proof fn lemma_reduced_row_value(w: int, acc: int)
    requires
        cong(w * pow2_64() * pow2_64(), acc * 1569211),
    ensures
        cong(w, acc * inv256()),
{
    lemma_scaling_constants();
    // acc · 1569211 ≡ acc · f · 2^64
    lemma_cong_mul(acc, 1569211, INVNTT_SCALE * pow2_64());
    assert(acc * (INVNTT_SCALE * pow2_64()) == (acc * INVNTT_SCALE) * pow2_64()) by (nonlinear_arith);
    assert(w * pow2_64() * pow2_64() == (w * pow2_64()) * pow2_64()) by (nonlinear_arith);
    lemma_cong_trans((w * pow2_64()) * pow2_64(), acc * 1569211, (acc * INVNTT_SCALE) * pow2_64());
    lemma_cancel_pow2_64(w * pow2_64(), acc * INVNTT_SCALE);
    // f ≡ 2^64 · 256^-1, since f · 256 ≡ 2^64 and 256 · 256^-1 ≡ 1
    let y = acc * inv256();
    assert(cong(INVNTT_SCALE * 256, pow2_64())) by {
        lemma_cong_modq(INVNTT_SCALE * 256);
        lemma_cong_modq(pow2_64());
        lemma_cong_add(INVNTT_SCALE * 256, modq(INVNTT_SCALE * 256), 0, 0);
        lemma_cong_trans(INVNTT_SCALE * 256, modq(pow2_64()), pow2_64());
    }
    assert(cong(inv256() * 256, 1)) by {
        lemma_cong_modq(inv256() * 256);
    }
    lemma_cong_mul(acc * inv256(), INVNTT_SCALE * 256, pow2_64());
    lemma_cong_mul(acc * INVNTT_SCALE, inv256() * 256, 1);
    assert((acc * inv256()) * (INVNTT_SCALE * 256) == (acc * INVNTT_SCALE) * (inv256() * 256)) by (nonlinear_arith);
    lemma_cong_add((acc * INVNTT_SCALE) * (inv256() * 256), (acc * INVNTT_SCALE) * 1, 0, 0);
    lemma_cong_trans(y * pow2_64(), (acc * inv256()) * (INVNTT_SCALE * 256), (acc * INVNTT_SCALE) * 1);
    assert(pow2_64() * y == y * pow2_64()) by (nonlinear_arith);
    lemma_cong_trans(w * pow2_64(), acc * INVNTT_SCALE, y * pow2_64());
    lemma_cancel_pow2_64(w, y);
}

/// One prepared coefficient of a row is congruent whichever congruent
/// representatives of `ẑ` and `ĉ` it is computed from.
proof fn lemma_row_acc_cong(r: Seq<u32>, z0: int, z1: int, z2: int, z3: int, c: int,
    s0: int, s1: int, s2: int, s3: int, sc: int)
    requires
        cong(z0, s0), cong(z1, s1), cong(z2, s2), cong(z3, s3), cong(c, sc),
    ensures
        cong(row_acc(r, z0, z1, z2, z3, c), row_acc(r, s0, s1, s2, s3, sc)),
{
    lemma_cong_mul(r[0] as int, z0, s0);
    lemma_cong_mul(r[1] as int, z1, s1);
    lemma_cong_mul(r[2] as int, z2, s2);
    lemma_cong_mul(r[3] as int, z3, s3);
    lemma_cong_mul(r[4] as int, c, sc);
    assert(c * r[4] == r[4] * c && sc * r[4] == r[4] * sc) by (nonlinear_arith);
    lemma_cong_add(r[0] * z0, r[0] * s0, r[1] * z1, r[1] * s1);
    lemma_cong_add(r[0] * z0 + r[1] * z1, r[0] * s0 + r[1] * s1, r[2] * z2, r[2] * s2);
    lemma_cong_add(r[0] * z0 + r[1] * z1 + r[2] * z2, r[0] * s0 + r[1] * s1 + r[2] * s2, r[3] * z3, r[3] * s3);
    lemma_cong_add(r[0] * z0 + r[1] * z1 + r[2] * z2 + r[3] * z3, r[0] * s0 + r[1] * s1 + r[2] * s2 + r[3] * s3, r[4] * c, r[4] * sc);
}

/// Byte-sequence equality.
fn bytes_eq(a: &[u8], b: &[u8]) -> (r: bool)
    ensures
        r == (a@ == b@),
{
    if a.len() != b.len() {
        return false;
    }
    let mut i: usize = 0;
    while i < a.len()
        invariant
            i <= a@.len(),
            a@.len() == b@.len(),
            forall|j: int| 0 <= j < i ==> #[trigger] a@[j] == b@[j],
        decreases a@.len() - i,
    {
        if a[i] != b[i] {
            return false;
        }
        i += 1;
    }
    assert(a@ =~= b@);
    true
}

/// `ẑ` or `ĉ` as the rows take it: congruent to the exact transform of
/// `src`, and below `2^26`.
pub open spec fn transformed(p: Poly, src: Seq<int>) -> bool {
    &&& forall|k: int| 0 <= k < 256 ==> cong(#[trigger] p.c@[k] as int, ntt_spec(src)[k])
    &&& forall|k: int| 0 <= k < 256 ==> bounded(#[trigger] p.c@[k] as int, 41910280)
}

impl Signature {
    /// `c̃`.
    fn c_tilde(&self) -> (ct: [u8; CTILDEBYTES])
        ensures
            ct@ == sig_ctilde(self@),
    {
        to_array::<CTILDEBYTES>(vstd::slice::slice_subrange(self.0.as_slice(), 0, CTILDEBYTES))
    }

    /// The hint block.
    fn hints(&self) -> (h: [u8; POLYVECH_PACKEDBYTES])
        ensures
            h@ == sig_hints(self@),
    {
        to_array::<POLYVECH_PACKEDBYTES>(vstd::slice::slice_subrange(
            self.0.as_slice(),
            SIGNATURE_LEN - POLYVECH_PACKEDBYTES,
            SIGNATURE_LEN,
        ))
    }

    /// `NTT(z_j)` into `out`, after the norm check `‖z_j‖∞ < γ1 − β`.
    fn z_hat(&self, j: usize, out: &mut Poly) -> (r: Result<(), Error>)
        requires
            j < 4,
        ensures
            r is Ok <==> !z_exceeds(sig_z(self@, j as int), (GAMMA1 - BETA) as int),
            r matches Err(e) ==> e == Error::InvalidSignature,
            r is Ok ==> transformed(*final(out), z_poly(self@, j as int)),
    {
        let start = CTILDEBYTES + j * POLYZ_PACKEDBYTES;
        let bytes = vstd::slice::slice_subrange(self.0.as_slice(), start, start + POLYZ_PACKEDBYTES);
        if out.z_unpack(bytes, GAMMA1 - BETA) {
            return Err(Error::InvalidSignature);
        }
        proof {
            assert(ints(out.c@) =~= z_poly(self@, j as int));
            assert forall|k: int| 0 <= k < 256 implies bounded(#[trigger] out.c@[k] as int, 8388608) by {}
        }
        out.ntt();
        Ok(())
    }

    /// Row `i` of `w1 = UseHint(h, INTT(Â∘ẑ − ĉ∘t̂1))` from a prepared key,
    /// appended encoded to the hash input `buf`.
    fn row<const TURBO: bool>(
        &self,
        key: &PreparedVerifyingKey<TURBO>,
        counts: &[u8; K],
        z: [&Poly; L],
        c_hat: &Poly,
        i: usize,
        buf: &mut Vec<u8>,
    )
        requires
            i < 4,
            counts@ == sig_hints(self@).subrange(80, 84),
            hints_well_formed(sig_hints(self@)),
            transformed(*z[0], z_poly(self@, 0)),
            transformed(*z[1], z_poly(self@, 1)),
            transformed(*z[2], z_poly(self@, 2)),
            transformed(*z[3], z_poly(self@, 3)),
            transformed(*c_hat, c_poly(TURBO, self@)),
        ensures
            final(buf)@ == old(buf)@ + prepared_w1(TURBO, key.rows_view()[i as int], self@, i as int),
    {
        let ghost row_spec = key.rows_view()[i as int];
        let ghost hat = Seq::new(256, |k: int| prepared_acc(TURBO, row_spec, self@)[k] * neg_inv_2_64());
        let mut w = Poly::zero();
        proof {
            use_type_invariant(key);
            assert forall|k: int, j: int| 0 <= k < 256 && 0 <= j < 5 implies #[trigger] key.rows@[i as int]@[k]@[j] < Q by {}
        }
        w.row_lazy(&key.rows[i], z, c_hat);
        proof {
            assert forall|k: int| 0 <= k < 256 implies cong(#[trigger] w.c@[k] as int, hat[k]) by {
                let r = key.rows@[i as int]@[k]@;
                assert(r == row_spec[k]);
                lemma_row_acc_cong(r, z[0].c@[k] as int, z[1].c@[k] as int, z[2].c@[k] as int, z[3].c@[k] as int, c_hat.c@[k] as int,
                    ntt_spec(z_poly(self@, 0))[k], ntt_spec(z_poly(self@, 1))[k], ntt_spec(z_poly(self@, 2))[k],
                    ntt_spec(z_poly(self@, 3))[k], ntt_spec(c_poly(TURBO, self@))[k]);
                let acc_act = row_acc(r, z[0].c@[k] as int, z[1].c@[k] as int, z[2].c@[k] as int, z[3].c@[k] as int, c_hat.c@[k] as int);
                let acc_spec = prepared_acc(TURBO, row_spec, self@)[k];
                lemma_cong_add(0, 0, acc_act, acc_spec);
                lemma_cong_trans(w.c@[k] * pow2_64(), -acc_act, 0 - acc_spec);
                lemma_lazy_row_value(w.c@[k] as int, acc_spec);
            }
            assert forall|k: int| 0 <= k < 256 implies bounded(#[trigger] w.c@[k] as int, Q - 1) by {}
        }
        let ghost before = ints(w.c@);
        w.invntt();
        proof {
            let h = sig_hints(self@);
            assert(hint_start(h, i as int) <= h[80 + i as int] <= 80);
            assert(counts@[i as int] == h[80 + i as int]);
            if i > 0 {
                assert(counts@[i - 1] == h[80 + i - 1]);
            }
        }
        let bits = hint_bitmap(&self.hints(), counts, i);
        let mut packed = [0u8; POLYW1_PACKEDBYTES];
        proof {
            assert forall|k: int| 0 <= k < 256 implies -2147483648 <= #[trigger] w.c@[k] <= 2147483647 - 4194304 by {}
        }
        w.finish_row(&bits, &mut packed);
        proof {
            lemma_intt_len(before, 1);
            lemma_intt_len(hat, 1);
            assert(all_cong(before, hat));
            lemma_intt_from_cong(before, hat, 1);
            assert(all_cong(ints(w.c@), intt_unscaled(before))) by {
                assert forall|k: int| 0 <= k < 256 implies cong(#[trigger] ints(w.c@)[k], intt_unscaled(before)[k]) by {}
            }
            assert forall|k: int| 0 <= k < 256 implies cong(#[trigger] ints(w.c@)[k], intt_unscaled(hat)[k]) by {
                lemma_cong_trans(ints(w.c@)[k], intt_unscaled(before)[k], intt_unscaled(hat)[k]);
            }
            lemma_w1_encode_cong(ints(w.c@), intt_unscaled(hat), bitmap_flags(bits@));
            let h = sig_hints(self@);
            assert(bitmap_flags(bits@) =~= hint_flags(h, i as int)) by {
                assert forall|k: int| 0 <= k < 256 implies #[trigger] bitmap_flags(bits@)[k] == hint_flags(h, i as int)[k] by {
                    assert(counts@[i as int] == h[80 + i as int]);
                    if i > 0 {
                        assert(counts@[i - 1] == h[80 + i - 1]);
                    }
                }
            }
        }
        crate::shake::append(buf, &packed);
    }
}

impl Signature {
    /// `NTT(c)` for `c = SampleInBall(c̃)`.
    fn c_hat<const TURBO: bool>(&self) -> (c: Poly)
        ensures
            transformed(c, c_poly(TURBO, self@)),
    {
        let mut c = Poly::zero();
        let ct = self.c_tilde();
        c.challenge::<TURBO>(&ct);
        proof {
            assert(ints(c.c@) == c_poly(TURBO, self@));
            assert forall|k: int| 0 <= k < 256 implies bounded(#[trigger] c.c@[k] as int, 8388608) by {}
        }
        let ghost before = ints(c.c@);
        c.ntt();
        c
    }

    /// `c̃ = H(μ ‖ w1Encode(w1))`, row by row, from a prepared key.
    fn rows<const TURBO: bool>(
        &self,
        key: &PreparedVerifyingKey<TURBO>,
        mu: &[u8; CRHBYTES],
        counts: &[u8; K],
        z: [&Poly; L],
    ) -> (r: Result<(), Error>)
        requires
            counts@ == sig_hints(self@).subrange(80, 84),
            hints_well_formed(sig_hints(self@)),
            transformed(*z[0], z_poly(self@, 0)),
            transformed(*z[1], z_poly(self@, 1)),
            transformed(*z[2], z_poly(self@, 2)),
            transformed(*z[3], z_poly(self@, 3)),
        ensures
            r == (if xof256(TURBO, mu@ + prepared_w1_all(TURBO, key.rows_view(), self@), 32) == sig_ctilde(self@) {
                Ok::<(), Error>(())
            } else {
                Err(Error::InvalidSignature)
            }),
    {
        let c_hat = self.c_hat::<TURBO>();
        let mut buf: Vec<u8> = Vec::new();
        crate::shake::append(&mut buf, mu);
        self.row(key, counts, z, &c_hat, 0, &mut buf);
        self.row(key, counts, z, &c_hat, 1, &mut buf);
        self.row(key, counts, z, &c_hat, 2, &mut buf);
        self.row(key, counts, z, &c_hat, 3, &mut buf);
        proof {
            let rv = key.rows_view();
            assert(buf@ =~= mu@ + prepared_w1_all(TURBO, rv, self@));
        }
        let c2 = h256::<TURBO>(buf.as_slice(), CTILDEBYTES);
        let ct = self.c_tilde();
        if bytes_eq(c2.as_slice(), ct.as_slice()) {
            Ok(())
        } else {
            Err(Error::InvalidSignature)
        }
    }

    fn with_z3<const TURBO: bool>(
        &self,
        key: &PreparedVerifyingKey<TURBO>,
        mu: &[u8; CRHBYTES],
        counts: &[u8; K],
        z0: &Poly,
        z1: &Poly,
        z2: &Poly,
    ) -> (r: Result<(), Error>)
        requires
            counts@ == sig_hints(self@).subrange(80, 84),
            hints_well_formed(sig_hints(self@)),
            transformed(*z0, z_poly(self@, 0)),
            transformed(*z1, z_poly(self@, 1)),
            transformed(*z2, z_poly(self@, 2)),
            !z_exceeds(sig_z(self@, 0), (GAMMA1 - BETA) as int),
            !z_exceeds(sig_z(self@, 1), (GAMMA1 - BETA) as int),
            !z_exceeds(sig_z(self@, 2), (GAMMA1 - BETA) as int),
        ensures
            r == verdict(TURBO, self@, mu@, prepared_w1_all(TURBO, key.rows_view(), self@)),
    {
        let mut z3 = Poly::zero();
        let r3 = self.z_hat(3, &mut z3);
        proof {
            if r3 is Ok {
                assert(z_in_range(self@)) by {
                    assert forall|j: int| 0 <= j < 4 implies !#[trigger] z_exceeds(sig_z(self@, j), (GAMMA1 - BETA) as int) by {
                        assert(j == 0 || j == 1 || j == 2 || j == 3);
                    }
                }
            } else {
                assert(!z_in_range(self@)) by {
                    assert(z_exceeds(sig_z(self@, 3), (GAMMA1 - BETA) as int));
                }
            }
        }
        if r3.is_err() {
            return Err(Error::InvalidSignature);
        }
        self.rows(key, mu, counts, [z0, z1, z2, &z3])
    }

    fn with_z2<const TURBO: bool>(
        &self,
        key: &PreparedVerifyingKey<TURBO>,
        mu: &[u8; CRHBYTES],
        counts: &[u8; K],
        z0: &Poly,
        z1: &Poly,
    ) -> (r: Result<(), Error>)
        requires
            counts@ == sig_hints(self@).subrange(80, 84),
            hints_well_formed(sig_hints(self@)),
            transformed(*z0, z_poly(self@, 0)),
            transformed(*z1, z_poly(self@, 1)),
            !z_exceeds(sig_z(self@, 0), (GAMMA1 - BETA) as int),
            !z_exceeds(sig_z(self@, 1), (GAMMA1 - BETA) as int),
        ensures
            r == verdict(TURBO, self@, mu@, prepared_w1_all(TURBO, key.rows_view(), self@)),
    {
        let mut z2 = Poly::zero();
        if self.z_hat(2, &mut z2).is_err() {
            assert(!z_in_range(self@)) by {
                assert(z_exceeds(sig_z(self@, 2), (GAMMA1 - BETA) as int));
            }
            return Err(Error::InvalidSignature);
        }
        self.with_z3(key, mu, counts, z0, z1, &z2)
    }

    fn with_z1<const TURBO: bool>(
        &self,
        key: &PreparedVerifyingKey<TURBO>,
        mu: &[u8; CRHBYTES],
        counts: &[u8; K],
        z0: &Poly,
    ) -> (r: Result<(), Error>)
        requires
            counts@ == sig_hints(self@).subrange(80, 84),
            hints_well_formed(sig_hints(self@)),
            transformed(*z0, z_poly(self@, 0)),
            !z_exceeds(sig_z(self@, 0), (GAMMA1 - BETA) as int),
        ensures
            r == verdict(TURBO, self@, mu@, prepared_w1_all(TURBO, key.rows_view(), self@)),
    {
        let mut z1 = Poly::zero();
        if self.z_hat(1, &mut z1).is_err() {
            assert(!z_in_range(self@)) by {
                assert(z_exceeds(sig_z(self@, 1), (GAMMA1 - BETA) as int));
            }
            return Err(Error::InvalidSignature);
        }
        self.with_z2(key, mu, counts, z0, &z1)
    }

    /// ExternalMu-ML-DSA: verifies against a precomputed `μ = H(tr ‖ M′,
    /// 64)` with a prepared key (FIPS 204 Algorithm 8 from line 8).
    fn verify_mu<const TURBO: bool>(&self, key: &PreparedVerifyingKey<TURBO>, mu: &[u8; CRHBYTES]) -> (r: Result<(), Error>)
        ensures
            r == verdict(TURBO, self@, mu@, prepared_w1_all(TURBO, key.rows_view(), self@)),
    {
        let h = self.hints();
        let counts = match hint_counts(&h) {
            Some(c) => c,
            None => {
                return Err(Error::InvalidSignature);
            },
        };
        let mut z0 = Poly::zero();
        if self.z_hat(0, &mut z0).is_err() {
            assert(!z_in_range(self@)) by {
                assert(z_exceeds(sig_z(self@, 0), (GAMMA1 - BETA) as int));
            }
            return Err(Error::InvalidSignature);
        }
        self.with_z1(key, mu, &counts, &z0)
    }
}

/// `w += ExpandA(ρ)_{nonce} ∘ z`, the matrix polynomial living only in this
/// frame.
fn matrix_term<const TURBO: bool>(w: &mut Poly, rho: &[u8], nonce: u16, z: &Poly)
    requires
        forall|k: int| 0 <= k < 256 ==> bounded(#[trigger] old(w).c@[k] as int, 1688849860263936),
        forall|k: int| 0 <= k < 256 ==> bounded(#[trigger] z.c@[k] as int, 41910280),
    ensures
        forall|k: int| 0 <= k < 256 ==> #[trigger] final(w).c@[k] == old(w).c@[k] + (if k < uniform_spec(TURBO, rho@, nonce).len() {
            uniform_spec(TURBO, rho@, nonce)[k]
        } else {
            0
        }) * z.c@[k],
        forall|k: int| 0 <= k < 256 ==> bounded(#[trigger] final(w).c@[k] - old(w).c@[k], 562949953421312),
{
    let mut a = Poly::zero();
    a.uniform::<TURBO>(rho, nonce);
    proof {
        assert forall|k: int| 0 <= k < 256 implies bounded(#[trigger] a.c@[k] * z.c@[k], 562949953421312) by {
            crate::ntt::lemma_mul_bound(a.c@[k] as int, Q as int, z.c@[k] as int, 41910280);
        }
    }
    w.add_products(&a, z);
}

/// `w −= ĉ ∘ NTT(t1_i · 2^d)`, the `t1` polynomial living only in this
/// frame.
fn t1_term<const TURBO: bool>(w: &mut Poly, pk: &VerifyingKey<TURBO>, i: usize, c_hat: &Poly)
    requires
        i < 4,
        forall|k: int| 0 <= k < 256 ==> bounded(#[trigger] old(w).c@[k] as int, 2251799813685248),
        forall|k: int| 0 <= k < 256 ==> bounded(#[trigger] c_hat.c@[k] as int, 41910280),
    ensures
        forall|k: int| 0 <= k < 256 ==> cong(#[trigger] old(w).c@[k] - final(w).c@[k], c_hat.c@[k] * ntt_spec(t1_poly(pk@, i as int))[k]),
        forall|k: int| 0 <= k < 256 ==> bounded(#[trigger] final(w).c@[k] - old(w).c@[k], 2251799813685248),
{
    let start = SEEDBYTES + i * POLYT1_PACKEDBYTES;
    let mut t = Poly::zero();
    t.t1_unpack_shifted(vstd::slice::slice_subrange(pk.0.as_slice(), start, start + POLYT1_PACKEDBYTES));
    proof {
        assert(ints(t.c@) =~= t1_poly(pk@, i as int));
        assert forall|k: int| 0 <= k < 256 implies bounded(#[trigger] t.c@[k] as int, 8388608) by {}
    }
    t.ntt();
    proof {
        assert forall|k: int| 0 <= k < 256 implies bounded(#[trigger] c_hat.c@[k] * t.c@[k], 2251799813685248) by {
            crate::ntt::lemma_mul_bound(c_hat.c@[k] as int, 41910280, t.c@[k] as int, 41910280);
        }
    }
    let ghost before = w.c@;
    w.sub_products(c_hat, &t);
    proof {
        assert forall|k: int| 0 <= k < 256 implies cong(#[trigger] before[k] - w.c@[k], c_hat.c@[k] * ntt_spec(t1_poly(pk@, i as int))[k]) by {
            lemma_cong_mul(c_hat.c@[k] as int, t.c@[k] as int, ntt_spec(t1_poly(pk@, i as int))[k]);
        }
    }
}

/// The public-key row accumulator is congruent to the exact one.
proof fn lemma_raw_acc_cong(w: int, a0: int, a1: int, a2: int, a3: int, z0: int, z1: int, z2: int,
    z3: int, s0: int, s1: int, s2: int, s3: int, ct: int, sct: int)
    requires
        cong(z0, s0), cong(z1, s1), cong(z2, s2), cong(z3, s3),
        cong(a0 * z0 + a1 * z1 + a2 * z2 + a3 * z3 - w, ct),
        cong(ct, sct),
    ensures
        cong(w, a0 * s0 + a1 * s1 + a2 * s2 + a3 * s3 - sct),
{
    lemma_cong_mul(a0, z0, s0);
    lemma_cong_mul(a1, z1, s1);
    lemma_cong_mul(a2, z2, s2);
    lemma_cong_mul(a3, z3, s3);
    lemma_cong_add(a0 * z0, a0 * s0, a1 * z1, a1 * s1);
    lemma_cong_add(a0 * z0 + a1 * z1, a0 * s0 + a1 * s1, a2 * z2, a2 * s2);
    lemma_cong_add(a0 * z0 + a1 * z1 + a2 * z2, a0 * s0 + a1 * s1 + a2 * s2, a3 * z3, a3 * s3);
    let sum = a0 * z0 + a1 * z1 + a2 * z2 + a3 * z3;
    let ssum = a0 * s0 + a1 * s1 + a2 * s2 + a3 * s3;
    lemma_cong_trans(sum - w, ct, sct);
    lemma_cong_add(sum, ssum, sum - w, sct);
}

/// `A_ij[k]`, padded with zeros past the accepted coefficients.
pub open spec fn padded(r: Seq<int>, k: int) -> int {
    if k < r.len() { r[k] } else { 0 }
}

impl Signature {
    /// Row `i` from the public key: `Σ_j ExpandA(ρ)_ij ∘ ẑ_j − ĉ ∘ NTT(t1_i ·
    /// 2^d)`, each term computed in its own frame, then the reduction,
    /// inverse transform and tail, appended encoded to `buf`.
    fn raw_row<const TURBO: bool>(
        &self,
        pk: &VerifyingKey<TURBO>,
        counts: &[u8; K],
        z: [&Poly; L],
        c_hat: &Poly,
        i: usize,
        buf: &mut Vec<u8>,
    )
        requires
            i < 4,
            counts@ == sig_hints(self@).subrange(80, 84),
            hints_well_formed(sig_hints(self@)),
            transformed(*z[0], z_poly(self@, 0)),
            transformed(*z[1], z_poly(self@, 1)),
            transformed(*z[2], z_poly(self@, 2)),
            transformed(*z[3], z_poly(self@, 3)),
            transformed(*c_hat, c_poly(TURBO, self@)),
        ensures
            final(buf)@ == old(buf)@ + raw_w1(TURBO, pk@, self@, i as int),
    {
        let rho = vstd::slice::slice_subrange(pk.0.as_slice(), 0, SEEDBYTES);
        let mut w = Poly::zero();
        let ghost w0 = w.c@;
        matrix_term::<TURBO>(&mut w, rho, (256 * i) as u16, z[0]);
        let ghost w1 = w.c@;
        matrix_term::<TURBO>(&mut w, rho, (256 * i + 1) as u16, z[1]);
        let ghost w2 = w.c@;
        matrix_term::<TURBO>(&mut w, rho, (256 * i + 2) as u16, z[2]);
        let ghost w3 = w.c@;
        matrix_term::<TURBO>(&mut w, rho, (256 * i + 3) as u16, z[3]);
        let ghost w4 = w.c@;
        t1_term(&mut w, pk, i, c_hat);
        let ghost acc = w.c@;
        let ghost hat = Seq::new(256, |k: int| raw_acc(TURBO, pk@, self@, i as int)[k] * inv256());
        proof {
            assert(rho@ == pk_rho(pk@));
            assert forall|k: int| 0 <= k < 256 implies cong(#[trigger] acc[k] as int, raw_acc(TURBO, pk@, self@, i as int)[k]) by {
                let a0 = matrix_entry(TURBO, pk@, i as int, 0)[k];
                let a1 = matrix_entry(TURBO, pk@, i as int, 1)[k];
                let a2 = matrix_entry(TURBO, pk@, i as int, 2)[k];
                let a3 = matrix_entry(TURBO, pk@, i as int, 3)[k];
                assert(256 * i + 0 == 256 * (i as int) + 0);
                assert(w4[k] == a0 * z[0].c@[k] + a1 * z[1].c@[k] + a2 * z[2].c@[k] + a3 * z[3].c@[k]);
                lemma_cong_mul(c_hat.c@[k] as int, ntt_spec(t1_poly(pk@, i as int))[k], ntt_spec(t1_poly(pk@, i as int))[k]);
                lemma_cong_mul(ntt_spec(t1_poly(pk@, i as int))[k], c_hat.c@[k] as int, ntt_spec(c_poly(TURBO, self@))[k]);
                assert(c_hat.c@[k] * ntt_spec(t1_poly(pk@, i as int))[k] == ntt_spec(t1_poly(pk@, i as int))[k] * c_hat.c@[k]) by (nonlinear_arith);
                assert(ntt_spec(t1_poly(pk@, i as int))[k] * ntt_spec(c_poly(TURBO, self@))[k] == ntt_spec(c_poly(TURBO, self@))[k] * ntt_spec(t1_poly(pk@, i as int))[k]) by (nonlinear_arith);
                lemma_raw_acc_cong(acc[k] as int, a0, a1, a2, a3,
                    z[0].c@[k] as int, z[1].c@[k] as int, z[2].c@[k] as int, z[3].c@[k] as int,
                    ntt_spec(z_poly(self@, 0))[k], ntt_spec(z_poly(self@, 1))[k], ntt_spec(z_poly(self@, 2))[k],
                    ntt_spec(z_poly(self@, 3))[k],
                    c_hat.c@[k] * ntt_spec(t1_poly(pk@, i as int))[k],
                    ntt_spec(c_poly(TURBO, self@))[k] * ntt_spec(t1_poly(pk@, i as int))[k]);
            }
            lemma_scaling_constants();
            assert forall|k: int| 0 <= k < 256 implies -(Q * Q * 65536) <= #[trigger] w.c@[k] <= Q * Q * 65536 by {}
        }
        w.reduce_row(NEG_F_PLANTARD);
        proof {
            assert forall|k: int| 0 <= k < 256 implies cong(#[trigger] w.c@[k] as int, hat[k]) by {
                lemma_reduced_row_value(w.c@[k] as int, acc[k] as int);
                lemma_cong_mul(inv256(), acc[k] as int, raw_acc(TURBO, pk@, self@, i as int)[k]);
                assert(inv256() * acc[k] == acc[k] * inv256()) by (nonlinear_arith);
                assert(inv256() * raw_acc(TURBO, pk@, self@, i as int)[k] == hat[k]) by (nonlinear_arith)
                    requires hat[k] == raw_acc(TURBO, pk@, self@, i as int)[k] * inv256();
                lemma_cong_trans(w.c@[k] as int, acc[k] * inv256(), hat[k]);
            }
            assert forall|k: int| 0 <= k < 256 implies bounded(#[trigger] w.c@[k] as int, Q - 1) by {}
        }
        let ghost before = ints(w.c@);
        w.invntt();
        proof {
            let h = sig_hints(self@);
            assert(hint_start(h, i as int) <= h[80 + i as int] <= 80);
            assert(counts@[i as int] == h[80 + i as int]);
            if i > 0 {
                assert(counts@[i - 1] == h[80 + i - 1]);
            }
        }
        let bits = hint_bitmap(&self.hints(), counts, i);
        let mut packed = [0u8; POLYW1_PACKEDBYTES];
        proof {
            assert forall|k: int| 0 <= k < 256 implies -2147483648 <= #[trigger] w.c@[k] <= 2147483647 - 4194304 by {}
        }
        w.finish_row(&bits, &mut packed);
        proof {
            lemma_intt_len(before, 1);
            lemma_intt_len(hat, 1);
            assert(all_cong(before, hat));
            lemma_intt_from_cong(before, hat, 1);
            assert forall|k: int| 0 <= k < 256 implies cong(#[trigger] ints(w.c@)[k], intt_unscaled(hat)[k]) by {
                lemma_cong_trans(ints(w.c@)[k], intt_unscaled(before)[k], intt_unscaled(hat)[k]);
            }
            lemma_w1_encode_cong(ints(w.c@), intt_unscaled(hat), bitmap_flags(bits@));
            let h = sig_hints(self@);
            assert(bitmap_flags(bits@) =~= hint_flags(h, i as int)) by {
                assert forall|k: int| 0 <= k < 256 implies #[trigger] bitmap_flags(bits@)[k] == hint_flags(h, i as int)[k] by {
                    assert(counts@[i as int] == h[80 + i as int]);
                    if i > 0 {
                        assert(counts@[i - 1] == h[80 + i - 1]);
                    }
                }
            }
        }
        crate::shake::append(buf, &packed);
    }
}

impl Signature {
    /// `c̃ = H(μ ‖ w1Encode(w1))` row by row, expanding `Â` as it goes.
    fn raw_rows<const TURBO: bool>(
        &self,
        pk: &VerifyingKey<TURBO>,
        mu: &[u8; CRHBYTES],
        counts: &[u8; K],
        z: [&Poly; L],
    ) -> (r: Result<(), Error>)
        requires
            counts@ == sig_hints(self@).subrange(80, 84),
            hints_well_formed(sig_hints(self@)),
            transformed(*z[0], z_poly(self@, 0)),
            transformed(*z[1], z_poly(self@, 1)),
            transformed(*z[2], z_poly(self@, 2)),
            transformed(*z[3], z_poly(self@, 3)),
        ensures
            r == (if xof256(TURBO, mu@ + raw_w1_all(TURBO, pk@, self@), 32) == sig_ctilde(self@) {
                Ok::<(), Error>(())
            } else {
                Err(Error::InvalidSignature)
            }),
    {
        let c_hat = self.c_hat::<TURBO>();
        let mut buf: Vec<u8> = Vec::new();
        crate::shake::append(&mut buf, mu);
        self.raw_row(pk, counts, z, &c_hat, 0, &mut buf);
        self.raw_row(pk, counts, z, &c_hat, 1, &mut buf);
        self.raw_row(pk, counts, z, &c_hat, 2, &mut buf);
        self.raw_row(pk, counts, z, &c_hat, 3, &mut buf);
        proof {
            assert(buf@ =~= mu@ + raw_w1_all(TURBO, pk@, self@));
        }
        let c2 = h256::<TURBO>(buf.as_slice(), CTILDEBYTES);
        let ct = self.c_tilde();
        if bytes_eq(c2.as_slice(), ct.as_slice()) {
            Ok(())
        } else {
            Err(Error::InvalidSignature)
        }
    }

    fn raw_with_z3<const TURBO: bool>(
        &self,
        pk: &VerifyingKey<TURBO>,
        mu: &[u8; CRHBYTES],
        counts: &[u8; K],
        z0: &Poly,
        z1: &Poly,
        z2: &Poly,
    ) -> (r: Result<(), Error>)
        requires
            counts@ == sig_hints(self@).subrange(80, 84),
            hints_well_formed(sig_hints(self@)),
            transformed(*z0, z_poly(self@, 0)),
            transformed(*z1, z_poly(self@, 1)),
            transformed(*z2, z_poly(self@, 2)),
            !z_exceeds(sig_z(self@, 0), (GAMMA1 - BETA) as int),
            !z_exceeds(sig_z(self@, 1), (GAMMA1 - BETA) as int),
            !z_exceeds(sig_z(self@, 2), (GAMMA1 - BETA) as int),
        ensures
            r == verdict(TURBO, self@, mu@, raw_w1_all(TURBO, pk@, self@)),
    {
        let mut z3 = Poly::zero();
        let r3 = self.z_hat(3, &mut z3);
        proof {
            if r3 is Ok {
                assert(z_in_range(self@)) by {
                    assert forall|j: int| 0 <= j < 4 implies !#[trigger] z_exceeds(sig_z(self@, j), (GAMMA1 - BETA) as int) by {
                        assert(j == 0 || j == 1 || j == 2 || j == 3);
                    }
                }
            } else {
                assert(!z_in_range(self@)) by {
                    assert(z_exceeds(sig_z(self@, 3), (GAMMA1 - BETA) as int));
                }
            }
        }
        if r3.is_err() {
            return Err(Error::InvalidSignature);
        }
        self.raw_rows(pk, mu, counts, [z0, z1, z2, &z3])
    }

    fn raw_with_z2<const TURBO: bool>(
        &self,
        pk: &VerifyingKey<TURBO>,
        mu: &[u8; CRHBYTES],
        counts: &[u8; K],
        z0: &Poly,
        z1: &Poly,
    ) -> (r: Result<(), Error>)
        requires
            counts@ == sig_hints(self@).subrange(80, 84),
            hints_well_formed(sig_hints(self@)),
            transformed(*z0, z_poly(self@, 0)),
            transformed(*z1, z_poly(self@, 1)),
            !z_exceeds(sig_z(self@, 0), (GAMMA1 - BETA) as int),
            !z_exceeds(sig_z(self@, 1), (GAMMA1 - BETA) as int),
        ensures
            r == verdict(TURBO, self@, mu@, raw_w1_all(TURBO, pk@, self@)),
    {
        let mut z2 = Poly::zero();
        if self.z_hat(2, &mut z2).is_err() {
            assert(!z_in_range(self@)) by {
                assert(z_exceeds(sig_z(self@, 2), (GAMMA1 - BETA) as int));
            }
            return Err(Error::InvalidSignature);
        }
        self.raw_with_z3(pk, mu, counts, z0, z1, &z2)
    }

    fn raw_with_z1<const TURBO: bool>(
        &self,
        pk: &VerifyingKey<TURBO>,
        mu: &[u8; CRHBYTES],
        counts: &[u8; K],
        z0: &Poly,
    ) -> (r: Result<(), Error>)
        requires
            counts@ == sig_hints(self@).subrange(80, 84),
            hints_well_formed(sig_hints(self@)),
            transformed(*z0, z_poly(self@, 0)),
            !z_exceeds(sig_z(self@, 0), (GAMMA1 - BETA) as int),
        ensures
            r == verdict(TURBO, self@, mu@, raw_w1_all(TURBO, pk@, self@)),
    {
        let mut z1 = Poly::zero();
        if self.z_hat(1, &mut z1).is_err() {
            assert(!z_in_range(self@)) by {
                assert(z_exceeds(sig_z(self@, 1), (GAMMA1 - BETA) as int));
            }
            return Err(Error::InvalidSignature);
        }
        self.raw_with_z2(pk, mu, counts, z0, &z1)
    }

    /// ExternalMu-ML-DSA from the public key itself: `ExpandA` runs during
    /// verification, one matrix polynomial at a time.
    fn verify_mu_with_key<const TURBO: bool>(&self, pk: &VerifyingKey<TURBO>, mu: &[u8; CRHBYTES]) -> (r: Result<(), Error>)
        ensures
            r == verdict(TURBO, self@, mu@, raw_w1_all(TURBO, pk@, self@)),
    {
        let h = self.hints();
        let counts = match hint_counts(&h) {
            Some(c) => c,
            None => {
                return Err(Error::InvalidSignature);
            },
        };
        let mut z0 = Poly::zero();
        if self.z_hat(0, &mut z0).is_err() {
            assert(!z_in_range(self@)) by {
                assert(z_exceeds(sig_z(self@, 0), (GAMMA1 - BETA) as int));
            }
            return Err(Error::InvalidSignature);
        }
        self.raw_with_z1(pk, mu, &counts, &z0)
    }

    /// `μ = H(tr ‖ M′, 64)`.
    fn mu<const TURBO: bool>(tr: &[u8; TRBYTES], m_prime: &[u8]) -> (mu: [u8; CRHBYTES])
        ensures
            mu@ == message_representative(TURBO, tr@, m_prime@),
    {
        let mut input: Vec<u8> = Vec::new();
        crate::shake::append(&mut input, tr);
        crate::shake::append(&mut input, m_prime);
        let h = h256::<TURBO>(input.as_slice(), CRHBYTES);
        to_array::<CRHBYTES>(h.as_slice())
    }

    /// `μ = H(tr ‖ 0 ‖ |ctx| ‖ ctx ‖ M, 64)`, for `|ctx| ≤ 255`.
    fn mu_with_context<const TURBO: bool>(tr: &[u8; TRBYTES], ctx: &[u8], msg: &[u8]) -> (mu: [u8; CRHBYTES])
        requires
            ctx@.len() <= 255,
        ensures
            mu@ == message_representative(TURBO, tr@, framed(ctx@, msg@)),
    {
        let mut input: Vec<u8> = Vec::new();
        crate::shake::append(&mut input, tr);
        input.push(0u8);
        input.push(ctx.len() as u8);
        crate::shake::append(&mut input, ctx);
        crate::shake::append(&mut input, msg);
        proof {
            assert(input@ =~= tr@ + framed(ctx@, msg@));
        }
        let h = h256::<TURBO>(input.as_slice(), CRHBYTES);
        to_array::<CRHBYTES>(h.as_slice())
    }

    /// FIPS 204 Algorithm 3 from the public key itself.
    fn verify_with_key<const TURBO: bool>(&self, pk: &VerifyingKey<TURBO>, ctx: &[u8], msg: &[u8]) -> (r: Result<(), Error>)
        ensures
            r == (if ctx@.len() > CONTEXT_MAX_LEN {
                Err(Error::ContextTooLong)
            } else {
                verdict(TURBO, self@, message_representative(TURBO, pk_hash(TURBO, pk@), framed(ctx@, msg@)), raw_w1_all(TURBO, pk@, self@))
            }),
    {
        if ctx.len() > CONTEXT_MAX_LEN {
            return Err(Error::ContextTooLong);
        }
        let tr = pk.public_key_hash();
        let mu = Self::mu_with_context::<TURBO>(&tr, ctx, msg);
        self.verify_mu_with_key(pk, &mu)
    }

    /// FIPS 204 Algorithm 3, `ML-DSA.Verify`, with a prepared key: verifies
    /// `msg` under `ctx`, with `M′ = 0x00 ‖ |ctx| ‖ ctx ‖ msg`.
    fn verify<const TURBO: bool>(&self, key: &PreparedVerifyingKey<TURBO>, ctx: &[u8], msg: &[u8]) -> (r: Result<(), Error>)
        ensures
            r == (if ctx@.len() > CONTEXT_MAX_LEN {
                Err(Error::ContextTooLong)
            } else {
                verdict(TURBO, self@, message_representative(TURBO, key.tr_view(), framed(ctx@, msg@)), prepared_w1_all(TURBO, key.rows_view(), self@))
            }),
    {
        if ctx.len() > CONTEXT_MAX_LEN {
            return Err(Error::ContextTooLong);
        }
        let mu = Self::mu_with_context::<TURBO>(&key.tr, ctx, msg);
        self.verify_mu(key, &mu)
    }

    /// FIPS 204 Algorithm 8, `ML-DSA.Verify_internal`, with a prepared key:
    /// verifies the caller-formatted `M′`.
    fn verify_internal<const TURBO: bool>(&self, key: &PreparedVerifyingKey<TURBO>, m_prime: &[u8]) -> (r: Result<(), Error>)
        ensures
            r == verdict(TURBO, self@, message_representative(TURBO, key.tr_view(), m_prime@), prepared_w1_all(TURBO, key.rows_view(), self@)),
    {
        let mu = Self::mu::<TURBO>(&key.tr, m_prime);
        self.verify_mu(key, &mu)
    }
}

impl<const TURBO: bool> VerifyingKey<TURBO> {
    /// Verify a message with an empty FIPS 204 context.
    pub fn verify(&self, message: &[u8], signature: &Signature) -> (r: Result<(), Error>)
        ensures
            r == verdict(TURBO, signature@, message_representative(TURBO, pk_hash(TURBO, self@), framed(Seq::empty(), message@)), raw_w1_all(TURBO, self@, signature@)),
    {
        let empty: [u8; 0] = [];
        proof {
            assert(empty@ =~= Seq::<u8>::empty());
        }
        self.verify_with_context(message, &empty, signature)
    }

    /// Verify a message with the algorithm's native context (at most 255
    /// bytes). Expands the compact key during verification.
    pub fn verify_with_context(&self, message: &[u8], context: &[u8], signature: &Signature) -> (r: Result<(), Error>)
        ensures
            r == (if context@.len() > CONTEXT_MAX_LEN {
                Err(Error::ContextTooLong)
            } else {
                verdict(TURBO, signature@, message_representative(TURBO, pk_hash(TURBO, self@), framed(context@, message@)), raw_w1_all(TURBO, self@, signature@))
            }),
    {
        signature.verify_with_key(self, context, message)
    }

    /// Verify caller-formatted `M′` (FIPS 204 Algorithm 8). The caller is
    /// responsible for domain separation and context framing.
    pub fn verify_internal(&self, message: &[u8], signature: &Signature) -> (r: Result<(), Error>)
        ensures
            r == verdict(TURBO, signature@, message_representative(TURBO, pk_hash(TURBO, self@), message@), raw_w1_all(TURBO, self@, signature@)),
    {
        let tr = self.public_key_hash();
        let mu = Signature::mu::<TURBO>(&tr, message);
        self.verify_mu(&mu, signature)
    }

    /// ExternalMu-ML-DSA verification. The caller must correctly bind `μ` to
    /// this key and message.
    pub fn verify_mu(&self, mu: &[u8; CRHBYTES], signature: &Signature) -> (r: Result<(), Error>)
        ensures
            r == verdict(TURBO, signature@, mu@, raw_w1_all(TURBO, self@, signature@)),
    {
        signature.verify_mu_with_key(self, mu)
    }
}

impl<const TURBO: bool> PreparedVerifyingKey<TURBO> {
    /// Verify a message with an empty FIPS 204 context, using the cached key.
    pub fn verify(&self, message: &[u8], signature: &Signature) -> (r: Result<(), Error>)
        ensures
            r == verdict(TURBO, signature@, message_representative(TURBO, self.tr_view(), framed(Seq::empty(), message@)), prepared_w1_all(TURBO, self.rows_view(), signature@)),
    {
        let empty: [u8; 0] = [];
        proof {
            assert(empty@ =~= Seq::<u8>::empty());
        }
        self.verify_with_context(message, &empty, signature)
    }

    /// Verify with the algorithm's native context, using the cached key.
    pub fn verify_with_context(&self, message: &[u8], context: &[u8], signature: &Signature) -> (r: Result<(), Error>)
        ensures
            r == (if context@.len() > CONTEXT_MAX_LEN {
                Err(Error::ContextTooLong)
            } else {
                verdict(TURBO, signature@, message_representative(TURBO, self.tr_view(), framed(context@, message@)), prepared_w1_all(TURBO, self.rows_view(), signature@))
            }),
    {
        signature.verify(self, context, message)
    }

    /// Verify caller-formatted `M′`. The caller supplies all domain-separation
    /// framing.
    pub fn verify_internal(&self, message: &[u8], signature: &Signature) -> (r: Result<(), Error>)
        ensures
            r == verdict(TURBO, signature@, message_representative(TURBO, self.tr_view(), message@), prepared_w1_all(TURBO, self.rows_view(), signature@)),
    {
        signature.verify_internal(self, message)
    }

    /// ExternalMu-ML-DSA verification; the caller correctly binds `μ` to the
    /// key and message.
    pub fn verify_mu(&self, mu: &[u8; CRHBYTES], signature: &Signature) -> (r: Result<(), Error>)
        ensures
            r == verdict(TURBO, signature@, mu@, prepared_w1_all(TURBO, self.rows_view(), signature@)),
    {
        signature.verify_mu(self, mu)
    }
}

/// Byte `t` of a `u32`, little-endian.
fn u32_byte(v: u32, t: usize) -> (b: u8)
    requires
        t < 4,
    ensures
        b == (((v as int) / pow_byte(t as int)) % 256) as u8,
{
    let b = ((v >> ((8 * t) as u32)) & 0xff) as u8;
    proof {
        if t == 0 {
            assert(((v >> 0u32) & 0xff) as u8 == (v % 256) as u8) by (bit_vector);
        } else if t == 1 {
            assert(((v >> 8u32) & 0xff) as u8 == ((v / 256) % 256) as u8) by (bit_vector);
        } else if t == 2 {
            assert(((v >> 16u32) & 0xff) as u8 == ((v / 65536) % 256) as u8) by (bit_vector);
        } else {
            assert(((v >> 24u32) & 0xff) as u8 == ((v / 16777216) % 256) as u8) by (bit_vector);
        }
    }
    b
}

impl<const TURBO: bool> PreparedVerifyingKey<TURBO> {
    /// Copy the prepared storage encoding: each entry as a little-endian
    /// `u32`, rows then coefficients then operands, then `tr`.
    pub fn to_bytes(&self) -> (b: [u8; PREPARED_KEY_LEN])
        ensures
            b@ == prepared_encoding(self.rows_view(), self.tr_view()),
    {
        let mut out = [0u8; PREPARED_KEY_LEN];
        let mut p: usize = 0;
        while p < PREPARED_KEY_LEN
            invariant
                p <= 20544,
                forall|p2: int| 0 <= p2 < p ==> #[trigger] out@[p2] == prepared_encoding(self.rows_view(), self.tr_view())[p2],
            decreases 20544 - p,
        {
            if p < 20480 {
                let e = p / 4;
                let i = e / 1280;
                let k = (e % 1280) / 5;
                let j = e % 5;
                out[p] = u32_byte(self.rows[i][k][j], p % 4);
            } else {
                out[p] = self.tr[p - 20480];
            }
            p += 1;
        }
        assert(out@ =~= prepared_encoding(self.rows_view(), self.tr_view()));
        out
    }
}

impl<const TURBO: bool> AsRef<[u8]> for VerifyingKey<TURBO> {
    fn as_ref(&self) -> (b: &[u8])
        ensures
            b@ == self@,
    {
        self.0.as_slice()
    }
}

impl AsRef<[u8]> for Signature {
    fn as_ref(&self) -> (b: &[u8])
        ensures
            b@ == self@,
    {
        self.0.as_slice()
    }
}

impl From<Signature> for [u8; SIGNATURE_LEN] {
    fn from(signature: Signature) -> (b: [u8; SIGNATURE_LEN]) {
        signature.0
    }
}

impl vstd::std_specs::convert::FromSpecImpl<Signature> for [u8; SIGNATURE_LEN] {
    open spec fn obeys_from_spec() -> bool {
        true
    }

    closed spec fn from_spec(signature: Signature) -> [u8; SIGNATURE_LEN] {
        signature.0
    }
}

} // verus!
