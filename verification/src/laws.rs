//! Properties that relate the library's operations to one another.
use vstd::prelude::*;
use crate::ml_dsa_44::{
    framed, inv256, matrix_entry, message_representative, neg_inv_2_64, prepared_acc,
    prepared_row_spec, prepared_rows_spec, prepared_w1, prepared_w1_all, raw_acc, raw_w1,
    raw_w1_all, verdict, c_poly, z_poly, t1_poly, INVNTT_SCALE, NEG_F_PLANTARD,
    lemma_lazy_row_value, lemma_reduced_row_value, lemma_scaling_constants,
};
use crate::ntt::{all_cong, intt_unscaled, lemma_intt_from_cong, lemma_intt_len, ntt_spec};
use crate::poly::{lemma_w1_encode_cong, row_acc, w1_encode_row};
use crate::reduce::{
    cong, lemma_cong_add, lemma_cong_modq, lemma_cong_mul, lemma_cong_trans,
    modq, plantard_factor, pow2_64,
};
use crate::params::{BETA, GAMMA1, Q};
use crate::ml_dsa_44::{padded, pk_hash};
use crate::poly::uniform_spec;
use crate::sample::{rej_ntt, sample_in_ball, stream_limit};
use crate::shake::{shake128, shake256, turboshake128, turboshake256, xof128, xof256};
use crate::codec::hints_well_formed;
use crate::ml_dsa_44::{decoded_rows, entry_offset, le32, pow_byte, prepared_canonical, prepared_encoding};

verus! {

/// `−f · (−2^-64) ≡ 256^-1`: the scaling the prepared tables carry and the
/// lazy reduction together divide by 256.
proof fn lemma_prepared_scaling()
    ensures
        cong(-INVNTT_SCALE * neg_inv_2_64(), inv256()),
{
    assert((-41978int * 786975int - 8347681int) % 8380417int == 0) by (nonlinear_arith);
}

/// Prepared entries `modq(−f · a_j)`, `modq(−f · t)` carry `−f`: their
/// accumulator times `−2^-64` is the public-key accumulator times `256^-1`.
proof fn lemma_prepared_entries_acc(a0: int, a1: int, a2: int, a3: int, t: int, z0: int, z1: int,
    z2: int, z3: int, c: int, r: Seq<u32>)
    requires
        r.len() == 5,
        r[0] as int == modq(-INVNTT_SCALE * a0),
        r[1] as int == modq(-INVNTT_SCALE * a1),
        r[2] as int == modq(-INVNTT_SCALE * a2),
        r[3] as int == modq(-INVNTT_SCALE * a3),
        r[4] as int == modq(-INVNTT_SCALE * t),
    ensures
        cong(row_acc(r, z0, z1, z2, z3, c) * neg_inv_2_64(),
            (a0 * z0 + a1 * z1 + a2 * z2 + a3 * z3 - c * t) * inv256()),
{
    let f = INVNTT_SCALE as int;
    // Each entry is congruent to −f times its operand.
    lemma_cong_modq(-f * a0);
    lemma_cong_modq(-f * a1);
    lemma_cong_modq(-f * a2);
    lemma_cong_modq(-f * a3);
    lemma_cong_modq(-f * t);
    lemma_cong_add(r[0] as int, -f * a0, 0, 0);
    lemma_cong_add(r[1] as int, -f * a1, 0, 0);
    lemma_cong_add(r[2] as int, -f * a2, 0, 0);
    lemma_cong_add(r[3] as int, -f * a3, 0, 0);
    lemma_cong_add(r[4] as int, -f * t, 0, 0);
    lemma_cong_mul(z0, r[0] as int, -f * a0);
    lemma_cong_mul(z1, r[1] as int, -f * a1);
    lemma_cong_mul(z2, r[2] as int, -f * a2);
    lemma_cong_mul(z3, r[3] as int, -f * a3);
    lemma_cong_mul(c, r[4] as int, -f * t);
    let acc = row_acc(r, z0, z1, z2, z3, c);
    let raw = a0 * z0 + a1 * z1 + a2 * z2 + a3 * z3 - c * t;
    assert(acc == z0 * r[0] + z1 * r[1] + z2 * r[2] + z3 * r[3] - c * r[4]) by (nonlinear_arith)
        requires acc == r[0] * z0 + r[1] * z1 + r[2] * z2 + r[3] * z3 - c * r[4];
    lemma_cong_add(z0 * r[0], z0 * (-f * a0), z1 * r[1], z1 * (-f * a1));
    lemma_cong_add(z0 * r[0] + z1 * r[1], z0 * (-f * a0) + z1 * (-f * a1), z2 * r[2], z2 * (-f * a2));
    lemma_cong_add(z0 * r[0] + z1 * r[1] + z2 * r[2], z0 * (-f * a0) + z1 * (-f * a1) + z2 * (-f * a2), z3 * r[3], z3 * (-f * a3));
    lemma_cong_add(z0 * r[0] + z1 * r[1] + z2 * r[2] + z3 * r[3],
        z0 * (-f * a0) + z1 * (-f * a1) + z2 * (-f * a2) + z3 * (-f * a3), c * r[4], c * (-f * t));
    assert(z0 * (-f * a0) == -f * (a0 * z0)) by (nonlinear_arith);
    assert(z1 * (-f * a1) == -f * (a1 * z1)) by (nonlinear_arith);
    assert(z2 * (-f * a2) == -f * (a2 * z2)) by (nonlinear_arith);
    assert(z3 * (-f * a3) == -f * (a3 * z3)) by (nonlinear_arith);
    assert(c * (-f * t) == -f * (c * t)) by (nonlinear_arith);
    assert(-f * (a0 * z0) + -f * (a1 * z1) + -f * (a2 * z2) + -f * (a3 * z3) - -f * (c * t) == -f * raw)
        by (nonlinear_arith)
        requires raw == a0 * z0 + a1 * z1 + a2 * z2 + a3 * z3 - c * t;
    // acc ≡ −f · raw, so acc · (−2^-64) ≡ raw · (−f · (−2^-64)) ≡ raw · 256^-1.
    lemma_cong_mul(neg_inv_2_64(), acc, -f * raw);
    lemma_prepared_scaling();
    lemma_cong_mul(raw, -f * neg_inv_2_64(), inv256());
    assert(neg_inv_2_64() * (-f * raw) == raw * (-f * neg_inv_2_64())) by (nonlinear_arith);
    assert(neg_inv_2_64() * acc == acc * neg_inv_2_64()) by (nonlinear_arith);
    lemma_cong_trans(acc * neg_inv_2_64(), raw * (-f * neg_inv_2_64()), raw * inv256());
}

/// One coefficient of a prepared row is `−f` times the public-key row's.
proof fn lemma_prepared_acc_coefficient(turbo: bool, pk: Seq<u8>, s: Seq<u8>, i: int, k: int)
    requires
        0 <= i < 4,
        0 <= k < 256,
    ensures
        cong(prepared_acc(turbo, prepared_row_spec(turbo, pk, i), s)[k] * neg_inv_2_64(),
            raw_acc(turbo, pk, s, i)[k] * inv256()),
{
    lemma_prepared_entries_acc(matrix_entry(turbo, pk, i, 0)[k], matrix_entry(turbo, pk, i, 1)[k],
        matrix_entry(turbo, pk, i, 2)[k], matrix_entry(turbo, pk, i, 3)[k], ntt_spec(t1_poly(pk, i))[k],
        ntt_spec(z_poly(s, 0))[k], ntt_spec(z_poly(s, 1))[k], ntt_spec(z_poly(s, 2))[k],
        ntt_spec(z_poly(s, 3))[k], ntt_spec(c_poly(turbo, s))[k], prepared_row_spec(turbo, pk, i)[k]);
}

/// The public-key row and the prepared row agree at every coefficient:
/// the exact accumulator `acc = Σ_j a_j · z_j − c · t` (`add_products`,
/// `sub_products`) reduced by `reduce_row(NEG_F_PLANTARD)` to `red`, and
/// `lazy`, what `row_lazy` gives from the prepared entries `modq(−f · a_j)`,
/// `modq(−f · t)` on the same operands, are congruent modulo `Q`; both are
/// `acc · 256^-1`.
pub proof fn law_public_key_row_congruent_to_prepared_row(a0: int, a1: int, a2: int, a3: int,
    t: int, z0: int, z1: int, z2: int, z3: int, c: int, r: Seq<u32>, red: int, lazy: int)
    requires
        r.len() == 5,
        r[0] as int == modq(-INVNTT_SCALE * a0),
        r[1] as int == modq(-INVNTT_SCALE * a1),
        r[2] as int == modq(-INVNTT_SCALE * a2),
        r[3] as int == modq(-INVNTT_SCALE * a3),
        r[4] as int == modq(-INVNTT_SCALE * t),
        cong(red * pow2_64() * pow2_64(),
            (a0 * z0 + a1 * z1 + a2 * z2 + a3 * z3 - c * t) * plantard_factor(NEG_F_PLANTARD)),
        cong(lazy * pow2_64(), -row_acc(r, z0, z1, z2, z3, c)),
    ensures
        cong(red, (a0 * z0 + a1 * z1 + a2 * z2 + a3 * z3 - c * t) * inv256()),
        cong(lazy, (a0 * z0 + a1 * z1 + a2 * z2 + a3 * z3 - c * t) * inv256()),
        cong(red, lazy),
{
    let raw = a0 * z0 + a1 * z1 + a2 * z2 + a3 * z3 - c * t;
    lemma_scaling_constants();
    lemma_reduced_row_value(red, raw);
    lemma_lazy_row_value(lazy, row_acc(r, z0, z1, z2, z3, c));
    lemma_prepared_entries_acc(a0, a1, a2, a3, t, z0, z1, z2, z3, c, r);
    lemma_cong_trans(lazy, row_acc(r, z0, z1, z2, z3, c) * neg_inv_2_64(), raw * inv256());
    lemma_cong_add(lazy, raw * inv256(), 0, 0);
    lemma_cong_trans(red, raw * inv256(), lazy);
}

/// The prepared-row pipeline computes its row exactly: when `lazy` is what
/// `row_lazy` gives on a row and its operands (`lazy[k] · 2^64 ≡ −acc[k]`)
/// and `out` what `invntt` gives on `lazy`, the `finish_row` encoding of
/// `out` is `w1Encode(UseHint(h, NTT^-1(acc · (−2^-64))))` with the
/// transform computed exactly modulo `Q`.
pub proof fn law_row_pipeline_exact(row: Seq<Seq<u32>>, z0: Seq<int>, z1: Seq<int>, z2: Seq<int>,
    z3: Seq<int>, c: Seq<int>, lazy: Seq<int>, out: Seq<int>, h: Seq<bool>)
    requires
        lazy.len() == 256,
        out.len() == 256,
        forall|k: int| 0 <= k < 256 ==> cong(#[trigger] lazy[k] * pow2_64(), -row_acc(row[k], z0[k], z1[k], z2[k], z3[k], c[k])),
        forall|k: int| 0 <= k < 256 ==> cong(#[trigger] out[k], intt_unscaled(lazy)[k]),
    ensures
        w1_encode_row(out, h) == w1_encode_row(intt_unscaled(Seq::new(256, |k: int| row_acc(row[k], z0[k], z1[k], z2[k], z3[k], c[k]) * neg_inv_2_64())), h),
{
    let exact = Seq::new(256, |k: int| row_acc(row[k], z0[k], z1[k], z2[k], z3[k], c[k]) * neg_inv_2_64());
    assert forall|k: int| 0 <= k < 256 implies cong(#[trigger] lazy[k], exact[k]) by {
        lemma_lazy_row_value(lazy[k], row_acc(row[k], z0[k], z1[k], z2[k], z3[k], c[k]));
    }
    assert(all_cong(lazy, exact));
    lemma_intt_len(lazy, 1);
    lemma_intt_len(exact, 1);
    lemma_intt_from_cong(lazy, exact, 1);
    assert forall|k: int| 0 <= k < 256 implies cong(#[trigger] out[k], intt_unscaled(exact)[k]) by {
        lemma_cong_trans(out[k], intt_unscaled(lazy)[k], intt_unscaled(exact)[k]);
    }
    assert(all_cong(out, intt_unscaled(exact)));
    lemma_w1_encode_cong(out, intt_unscaled(exact), h);
}

/// Row `i` of `w1` is the same from the public key and from its prepared
/// rows.
proof fn lemma_prepared_row_matches_raw(turbo: bool, pk: Seq<u8>, s: Seq<u8>, i: int)
    requires
        0 <= i < 4,
    ensures
        prepared_w1(turbo, prepared_row_spec(turbo, pk, i), s, i) == raw_w1(turbo, pk, s, i),
{
    let ph = Seq::new(256, |k: int| prepared_acc(turbo, prepared_row_spec(turbo, pk, i), s)[k] * neg_inv_2_64());
    let rh = Seq::new(256, |k: int| raw_acc(turbo, pk, s, i)[k] * inv256());
    assert forall|k: int| 0 <= k < 256 implies cong(#[trigger] ph[k], rh[k]) by {
        lemma_prepared_acc_coefficient(turbo, pk, s, i, k);
    }
    assert(all_cong(ph, rh));
    lemma_intt_from_cong(ph, rh, 1);
    lemma_intt_len(ph, 1);
    lemma_intt_len(rh, 1);
    lemma_w1_encode_cong(intt_unscaled(ph), intt_unscaled(rh), crate::ml_dsa_44::hint_flags(crate::ml_dsa_44::sig_hints(s), i));
}

/// A prepared key verifies exactly as the public key it was prepared from:
/// for every signature and message representative, the verdict from
/// `prepare(pk)`'s rows equals the verdict that expands `ExpandA` during
/// verification, and its `tr` is the key's hash.
pub proof fn law_prepared_key_verifies_as_public_key(turbo: bool, pk: Seq<u8>, s: Seq<u8>, mu: Seq<u8>)
    ensures
        verdict(turbo, s, mu, prepared_w1_all(turbo, prepared_rows_spec(turbo, pk), s))
            == verdict(turbo, s, mu, raw_w1_all(turbo, pk, s)),
{
    let rows = prepared_rows_spec(turbo, pk);
    lemma_prepared_row_matches_raw(turbo, pk, s, 0);
    lemma_prepared_row_matches_raw(turbo, pk, s, 1);
    lemma_prepared_row_matches_raw(turbo, pk, s, 2);
    lemma_prepared_row_matches_raw(turbo, pk, s, 3);
    assert(rows[0] == prepared_row_spec(turbo, pk, 0));
    assert(rows[1] == prepared_row_spec(turbo, pk, 1));
    assert(rows[2] == prepared_row_spec(turbo, pk, 2));
    assert(rows[3] == prepared_row_spec(turbo, pk, 3));
    assert(prepared_w1_all(turbo, rows, s) == raw_w1_all(turbo, pk, s));
}

/// A `u32` is the sum of its little-endian bytes.
proof fn lemma_u32_bytes(v: u32)
    ensures
        v == (v as int / pow_byte(0)) % 256 + 256 * ((v as int / pow_byte(1)) % 256)
            + 65536 * ((v as int / pow_byte(2)) % 256) + 16777216 * ((v as int / pow_byte(3)) % 256),
{
    assert(v == v % 256 + 256 * ((v / 256) % 256) + 65536 * ((v / 65536) % 256) + 16777216 * ((v / 16777216) % 256))
        by (bit_vector);
}

/// Byte `4 · e + t` of the row area belongs to entry `e` at byte `t`.
proof fn lemma_entry_position(i: int, k: int, j: int, t: int)
    requires
        0 <= i < 4,
        0 <= k < 256,
        0 <= j < 5,
        0 <= t < 4,
    ensures
        ({
            let p = entry_offset(i, k, j) + t;
            let e = (256 * i + k) * 5 + j;
            &&& 0 <= p < 20480
            &&& p / 4 == e
            &&& p % 4 == t
            &&& e / 1280 == i
            &&& (e % 1280) / 5 == k
            &&& e % 5 == j
        }),
{
    let e = (256 * i + k) * 5 + j;
    let p = 4 * e + t;
    vstd::arithmetic::div_mod::lemma_fundamental_div_mod_converse(p, 4, e, t);
    vstd::arithmetic::div_mod::lemma_fundamental_div_mod_converse(e, 1280, i, k * 5 + j);
    vstd::arithmetic::div_mod::lemma_fundamental_div_mod_converse(k * 5 + j, 5, k, j);
    vstd::arithmetic::div_mod::lemma_fundamental_div_mod_converse(e, 5, 256 * i + k, j);
}

/// Decoding the storage encoding of prepared rows gives them back, and
/// accepts it, when every entry is a standard representative: `from_bytes`
/// undoes `to_bytes`.
pub proof fn law_prepared_encoding_round_trip(rows: Seq<Seq<Seq<u32>>>, tr: Seq<u8>)
    requires
        rows.len() == 4,
        forall|i: int| 0 <= i < 4 ==> #[trigger] rows[i].len() == 256,
        forall|i: int, k: int| 0 <= i < 4 && 0 <= k < 256 ==> #[trigger] rows[i][k].len() == 5,
        forall|i: int, k: int, j: int| 0 <= i < 4 && 0 <= k < 256 && 0 <= j < 5 ==> #[trigger] rows[i][k][j] < Q,
        tr.len() == 64,
    ensures
        prepared_canonical(prepared_encoding(rows, tr)),
        decoded_rows(prepared_encoding(rows, tr)) == rows,
        prepared_encoding(rows, tr).subrange(20480, 20544) == tr,
{
    let b = prepared_encoding(rows, tr);
    assert forall|i: int, k: int, j: int| 0 <= i < 4 && 0 <= k < 256 && 0 <= j < 5 implies
        #[trigger] le32(b, entry_offset(i, k, j)) == rows[i][k][j] by {
        lemma_entry_position(i, k, j, 0);
        lemma_entry_position(i, k, j, 1);
        lemma_entry_position(i, k, j, 2);
        lemma_entry_position(i, k, j, 3);
        lemma_u32_bytes(rows[i][k][j]);
    }
    assert(decoded_rows(b) =~= rows) by {
        assert forall|i: int| 0 <= i < 4 implies #[trigger] decoded_rows(b)[i] =~= rows[i] by {
            assert forall|k: int| 0 <= k < 256 implies #[trigger] decoded_rows(b)[i][k] =~= rows[i][k] by {
                assert forall|j: int| 0 <= j < 5 implies #[trigger] decoded_rows(b)[i][k][j] == rows[i][k][j] by {
                    assert(le32(b, entry_offset(i, k, j)) == rows[i][k][j]);
                }
            }
        }
    }
    assert(b.subrange(20480, 20544) =~= tr);
}

/// Every prepared entry is a standard representative, so a prepared key's
/// encoding is accepted by `from_bytes`.
pub proof fn law_prepared_rows_canonical(turbo: bool, pk: Seq<u8>)
    ensures
        ({
            let rows = prepared_rows_spec(turbo, pk);
            &&& rows.len() == 4
            &&& forall|i: int| 0 <= i < 4 ==> #[trigger] rows[i].len() == 256
            &&& forall|i: int, k: int| 0 <= i < 4 && 0 <= k < 256 ==> #[trigger] rows[i][k].len() == 5
            &&& forall|i: int, k: int, j: int| 0 <= i < 4 && 0 <= k < 256 && 0 <= j < 5 ==> #[trigger] rows[i][k][j] < Q
        }),
{
    let rows = prepared_rows_spec(turbo, pk);
    assert forall|i: int, k: int, j: int| 0 <= i < 4 && 0 <= k < 256 && 0 <= j < 5 implies #[trigger] rows[i][k][j] < Q by {
        let m = matrix_entry(turbo, pk, i, j)[k];
        let t = ntt_spec(t1_poly(pk, i))[k];
        lemma_cong_modq(-INVNTT_SCALE * m);
        lemma_cong_modq(-INVNTT_SCALE * t);
    }
}

/// Row `i` prepared alone is row `i` of the whole preparation.
pub proof fn law_prepare_row_is_row_of_prepare(turbo: bool, pk: Seq<u8>, i: int)
    requires
        0 <= i < 4,
    ensures
        prepared_rows_spec(turbo, pk)[i] == prepared_row_spec(turbo, pk, i),
{
}

/// The entry points agree: with a context of at most 255 bytes,
/// `verify_with_context(msg, ctx)` is `verify_internal` on the framed `M′ =
/// 0 ‖ |ctx| ‖ ctx ‖ msg`, which is `verify_mu` on `μ = H(tr ‖ M′, 64)`;
/// and `verify` is the empty context.
pub proof fn law_entry_points_agree(turbo: bool, tr: Seq<u8>, ctx: Seq<u8>, msg: Seq<u8>)
    requires
        ctx.len() <= 255,
    ensures
        message_representative(turbo, tr, framed(ctx, msg)) == crate::shake::xof256(turbo, tr + (seq![0u8, ctx.len() as u8] + ctx + msg), 64),
        framed(Seq::empty(), msg) == seq![0u8, 0u8] + msg,
{
    assert(framed(Seq::<u8>::empty(), msg) =~= seq![0u8, 0u8] + msg);
}

/// The two hash families: `H128` and `H` are SHAKE128 and SHAKE256, and for
/// a `TURBO` key TurboSHAKE128 and TurboSHAKE256 (domain `0x1f`), each at
/// its own width.
pub proof fn law_variant_hashes(input: Seq<u8>, len: nat)
    ensures
        xof128(false, input, len) == shake128(input, len),
        xof128(true, input, len) == turboshake128(input, len),
        xof256(false, input, len) == shake256(input, len),
        xof256(true, input, len) == turboshake256(input, len),
{
}

/// `ExpandA` samples entry `(i, j)` from `H128(ρ ‖ j ‖ i)`: SHAKE128, or
/// TurboSHAKE128 for a `TURBO` key; the prepared row carries `−f` times
/// it, and `tr` is `H(pk, 64)` of the same family.
pub proof fn law_expand_a_stream(turbo: bool, pk: Seq<u8>, i: int, j: int, k: int)
    requires
        0 <= i < 4,
        0 <= j < 4,
        0 <= k < 256,
    ensures
        ({
            let input = pk.subrange(0, 32) + seq![j as u8, i as u8];
            let stream = if turbo { turboshake128(input, stream_limit()) } else { shake128(input, stream_limit()) };
            &&& matrix_entry(turbo, pk, i, j)[k] == padded(rej_ntt(stream), k)
            &&& prepared_row_spec(turbo, pk, i)[k][j] as int == modq(-INVNTT_SCALE * padded(rej_ntt(stream), k))
        }),
        pk_hash(turbo, pk) == if turbo { turboshake256(pk, 64) } else { shake256(pk, 64) },
{
    let nonce = (256 * i + j) as u16;
    assert(nonce % 256 == j && nonce / 256 == i);
    let input = pk.subrange(0, 32) + seq![j as u8, i as u8];
    assert(crate::poly::uniform_input(pk.subrange(0, 32), nonce) =~= input);
    assert(uniform_spec(turbo, pk.subrange(0, 32), nonce) == rej_ntt(xof128(turbo, input, stream_limit())));
}

/// The challenge is `SampleInBall` of `H(c̃)`, `c̃` the signature's first 32
/// bytes: SHAKE256, or TurboSHAKE256 for a `TURBO` key.
pub proof fn law_challenge_stream(turbo: bool, s: Seq<u8>)
    ensures
        c_poly(turbo, s) == sample_in_ball(if turbo {
            turboshake256(s.subrange(0, 32), stream_limit())
        } else {
            shake256(s.subrange(0, 32), stream_limit())
        }),
{
}

/// `μ = H(tr ‖ M′, 64)` for every `M′`, framed or not: `verify_internal`
/// on `M′` gives the verdict of `verify_mu` on `H(tr ‖ M′, 64)`.
pub proof fn law_message_representative(turbo: bool, tr: Seq<u8>, m: Seq<u8>, s: Seq<u8>, w1: Seq<u8>)
    ensures
        message_representative(turbo, tr, m) == if turbo { turboshake256(tr + m, 64) } else { shake256(tr + m, 64) },
        verdict(turbo, s, message_representative(turbo, tr, m), w1) == verdict(turbo, s, xof256(turbo, tr + m, 64), w1),
{
}

/// The first index of polynomial `i` in a hint block: the previous count, or
/// 0 for the first polynomial.
pub open spec fn first_index(h: Seq<u8>, i: int) -> int {
    if i == 0 { 0 } else { h[79 + i] as int }
}

/// A hint block is accepted exactly when (FIPS 204 Algorithm 21) the counts
/// `h[80..84]` never decrease and stay at most `ω = 80`, each polynomial's
/// indices strictly increase, and the index bytes past the last count are
/// zero.
pub proof fn law_hint_block_accepted(h: Seq<u8>)
    requires
        h.len() == 84,
    ensures
        hints_well_formed(h) <==> {
            &&& forall|i: int| 0 <= i < 4 ==> first_index(h, i) <= #[trigger] h[80 + i] <= 80
            &&& forall|i: int, j: int| #![trigger first_index(h, i), h[j]] 0 <= i < 4 && first_index(h, i) < j < h[80 + i] ==> h[j - 1] < h[j]
            &&& forall|j: int| h[83] <= j < 80 ==> #[trigger] h[j] == 0
        },
{
    let counts = forall|i: int| 0 <= i < 4 ==> first_index(h, i) <= #[trigger] h[80 + i] <= 80;
    let incr = forall|i: int, j: int| #![trigger first_index(h, i), h[j]] 0 <= i < 4 && first_index(h, i) < j < h[80 + i] ==> h[j - 1] < h[j];
    assert(counts <==> forall|i: int| 0 <= i < 4 ==> crate::codec::hint_start(h, i) <= #[trigger] h[80 + i] <= 80) by {
        assert forall|i: int| 0 <= i < 4 implies first_index(h, i) == #[trigger] crate::codec::hint_start(h, i) by {}
    }
    if hints_well_formed(h) {
        assert forall|i: int, j: int| #![trigger first_index(h, i), h[j]] 0 <= i < 4 && first_index(h, i) < j < h[80 + i] implies h[j - 1] < h[j] by {
            assert(crate::codec::segment_increasing(h, i));
            assert(first_index(h, i) == crate::codec::hint_start(h, i));
        }
    }
    if incr {
        assert forall|i: int| 0 <= i < 4 implies #[trigger] crate::codec::segment_increasing(h, i) by {
            assert forall|j: int| crate::codec::hint_start(h, i) < j < h[80 + i] implies #[trigger] h[j - 1] < h[j] by {
                assert(first_index(h, i) == crate::codec::hint_start(h, i));
                assert(first_index(h, i) < j < h[80 + i]);
            }
        }
    }
}

/// A hint block is accepted only when, within each of the four polynomials,
/// the indices strictly increase (FIPS 204 Algorithm 21): between the
/// previous count (0 for the first) and the polynomial's count `h[80 + i]`.
pub proof fn law_hint_indices_increase(h: Seq<u8>, i: int, j: int)
    requires
        h.len() == 84,
        hints_well_formed(h),
        0 <= i < 4,
        (if i == 0 { 0 } else { h[79 + i] as int }) < j < h[80 + i] as int,
    ensures
        h[j - 1] < h[j],
{
    assert(crate::codec::segment_increasing(h, i));
}

/// Swapping two adjacent indices of one polynomial in an accepted hint
/// block makes it rejected: each hint set has one encoding.
pub proof fn law_swapped_hints_rejected(h: Seq<u8>, i: int, j: int)
    requires
        h.len() == 84,
        hints_well_formed(h),
        0 <= i < 4,
        (if i == 0 { 0 } else { h[79 + i] as int }) < j < h[80 + i] as int,
    ensures
        !hints_well_formed(h.update(j - 1, h[j]).update(j, h[j - 1])),
{
    law_hint_indices_increase(h, i, j);
    let g = h.update(j - 1, h[j]).update(j, h[j - 1]);
    assert(g[80 + i] == h[80 + i]);
    if i > 0 {
        assert(g[79 + i] == h[79 + i]);
    }
    if hints_well_formed(g) {
        law_hint_indices_increase(g, i, j);
    }
}

/// The stored word at prepared entry `(i, k, j)`: bytes `4 · ((256 · i + k)
/// · 5 + j)` onwards, little-endian.
pub open spec fn stored_word(b: Seq<u8>, i: int, k: int, j: int) -> int {
    let o = 4 * ((256 * i + k) * 5 + j);
    b[o] + 256 * b[o + 1] + 65536 * b[o + 2] + 16777216 * b[o + 3]
}

/// The prepared encoding is accepted exactly when every stored 32-bit word
/// is below `Q`, and each decoded entry is its stored word, unreduced.
pub proof fn law_prepared_decoding(b: Seq<u8>, i: int, k: int, j: int)
    requires
        b.len() == 20544,
        0 <= i < 4,
        0 <= k < 256,
        0 <= j < 5,
    ensures
        prepared_canonical(b) ==> stored_word(b, i, k, j) < Q,
        (forall|i2: int, k2: int, j2: int| 0 <= i2 < 4 && 0 <= k2 < 256 && 0 <= j2 < 5
            ==> #[trigger] stored_word(b, i2, k2, j2) < Q) ==> prepared_canonical(b),
        stored_word(b, i, k, j) < Q ==> decoded_rows(b)[i][k][j] as int == stored_word(b, i, k, j),
{
    assert(le32(b, entry_offset(i, k, j)) == stored_word(b, i, k, j));
    assert forall|i2: int, k2: int, j2: int| 0 <= i2 < 4 && 0 <= k2 < 256 && 0 <= j2 < 5
        implies #[trigger] le32(b, entry_offset(i2, k2, j2)) == stored_word(b, i2, k2, j2) by {}
}

/// Verification accepts exactly when the hint block (the last 84 bytes) is
/// well formed, every coefficient of `z` lies strictly between `−(γ1 − β)`
/// and `γ1 − β`, and `H(μ ‖ w1Encode(w1), 32)` is `c̃`, the first 32 bytes;
/// otherwise it answers `InvalidSignature`.
pub proof fn law_verdict_accepts(turbo: bool, s: Seq<u8>, mu: Seq<u8>, w1: Seq<u8>)
    ensures
        verdict(turbo, s, mu, w1) is Ok <==> {
            &&& hints_well_formed(s.subrange(2336, 2420))
            &&& forall|j: int, k: int| #![trigger crate::poly::z_coeff(crate::ml_dsa_44::sig_z(s, j), k)]
                0 <= j < 4 && 0 <= k < 256 ==> -(GAMMA1 - BETA) < crate::poly::z_coeff(crate::ml_dsa_44::sig_z(s, j), k) < GAMMA1 - BETA
            &&& (if turbo { turboshake256(mu + w1, 32) } else { shake256(mu + w1, 32) }) == s.subrange(0, 32)
        },
        verdict(turbo, s, mu, w1) is Err ==> verdict(turbo, s, mu, w1) == Err::<(), crate::Error>(crate::Error::InvalidSignature),
{
    let zin = forall|j: int, k: int| #![trigger crate::poly::z_coeff(crate::ml_dsa_44::sig_z(s, j), k)]
        0 <= j < 4 && 0 <= k < 256 ==> -(GAMMA1 - BETA) < crate::poly::z_coeff(crate::ml_dsa_44::sig_z(s, j), k) < GAMMA1 - BETA;
    if zin {
        assert forall|j: int| 0 <= j < 4 implies !#[trigger] crate::poly::z_exceeds(crate::ml_dsa_44::sig_z(s, j), (GAMMA1 - BETA) as int) by {
            assert forall|k: int| 0 <= k < 256 implies !(#[trigger] crate::poly::z_coeff(crate::ml_dsa_44::sig_z(s, j), k) >= (GAMMA1 - BETA) as int
                || crate::poly::z_coeff(crate::ml_dsa_44::sig_z(s, j), k) <= -((GAMMA1 - BETA) as int)) by {}
        }
    }
    if crate::ml_dsa_44::z_in_range(s) {
        assert forall|j: int, k: int| #![trigger crate::poly::z_coeff(crate::ml_dsa_44::sig_z(s, j), k)]
            0 <= j < 4 && 0 <= k < 256 implies -(GAMMA1 - BETA) < crate::poly::z_coeff(crate::ml_dsa_44::sig_z(s, j), k) < GAMMA1 - BETA by {
            assert(!crate::poly::z_exceeds(crate::ml_dsa_44::sig_z(s, j), (GAMMA1 - BETA) as int));
        }
    }
}

} // verus!
