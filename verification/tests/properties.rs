//! Concrete instances of the library's contracts and laws.
use fips204::ml_dsa_44;
use fips204::traits::{KeyGen, SerDes, Signer};
use sha3::digest::{ExtendableOutput, Update, XofReader};
use solana_ml_dsa::codec::{hint_bitmap, hint_counts};
use solana_ml_dsa::ml_dsa_44::{
    Error, PreparedVerifyingKey, Signature, VerifyingKey, INVNTT_SCALE, NEG_F_PLANTARD,
    PUBLIC_KEY_LEN, SIGNATURE_LEN,
};
use solana_ml_dsa::params::{GAMMA1, BETA, Q};
use solana_ml_dsa::poly::{norm_at_least, Poly};
use solana_ml_dsa::reduce::{caddq, mul_mod, plantard, plantard_constant, reduce32, QINV64};
use solana_ml_dsa::rounding::w1_coefficient;

fn fixture(seed: u8) -> (VerifyingKey<false>, ml_dsa_44::PrivateKey) {
    let (pk, sk) = ml_dsa_44::KG::keygen_from_seed(&[seed; 32]);
    (VerifyingKey::<false>::from_bytes(&pk.into_bytes()), sk)
}

fn shake256(parts: &[&[u8]], n: usize) -> Vec<u8> {
    let mut h = sha3::Shake256::default();
    for p in parts {
        h.update(p);
    }
    let mut out = vec![0u8; n];
    h.finalize_xof().read(&mut out);
    out
}

#[test]
fn reduce32_is_congruent_and_small() {
    for a in [0i64, 1, Q - 1, Q, 4194303, 4194304, -4194304, 1 << 30, -(1 << 30), 2143289343, -2147483648] {
        let r = reduce32(a);
        assert_eq!((a - r).rem_euclid(Q), 0, "a = {a}");
        assert!(r.abs() <= 6283008, "a = {a}: {r}");
    }
    // The one input below the documented bound.
    assert_eq!(reduce32(-255 * (1 << 23) - (1 << 22)), -6283009);
}

#[test]
fn caddq_adds_q_to_negatives() {
    assert_eq!(caddq(-1), Q - 1);
    assert_eq!(caddq(0), 0);
    assert_eq!(caddq(5), 5);
    assert_eq!(caddq(-Q), 0);
}

#[test]
fn mul_mod_is_the_standard_representative() {
    assert_eq!(mul_mod(-1, 1), Q - 1);
    assert_eq!(mul_mod(1 << 32, 1 << 32), 2365951);
    assert_eq!(mul_mod(Q, 12345), 0);
    assert_eq!(mul_mod(i64::MAX, i64::MAX), ((i64::MAX as i128 * i64::MAX as i128) % Q as i128) as i64);
}

#[test]
fn plantard_constant_of_minus_f_is_the_table_constant() {
    assert_eq!(plantard_constant(-INVNTT_SCALE), NEG_F_PLANTARD);
    // plantard(a, plantard_constant(m)) ≡ a · m
    for &(a, m) in &[(1i64, 7i64), (-5, 1234567), (Q << 8, -3), (123456789, Q - 1)] {
        let r = plantard(a, plantard_constant(m));
        assert_eq!((r - a * m).rem_euclid(Q), 0, "a = {a}, m = {m}");
        assert!((-(Q + 1) / 2..=(Q - 1) / 2).contains(&r));
    }
}

#[test]
fn plantard_reduction_by_qinv64() {
    // r · 2^64 ≡ −c
    for c in [0i64, 1, -1, 1 << 52, -(1 << 52), 4602684315657109504] {
        let r = plantard(c, QINV64);
        let lhs = (r as i128 * (1i128 << 64) + c as i128).rem_euclid(Q as i128);
        assert_eq!(lhs, 0, "c = {c}");
    }
}

#[test]
fn w1_coefficient_at_the_wrap() {
    assert_eq!(w1_coefficient(0, false), 0);
    assert_eq!(w1_coefficient(0, true), 43);
    // r+ − r0 = Q − 1: Decompose yields (0, r0 − 1) with a negative low part.
    assert_eq!(w1_coefficient(Q - 1, false), 0);
    assert_eq!(w1_coefficient(Q - 1, true), 43);
    assert_eq!(w1_coefficient(95232, false), 0);
    assert_eq!(w1_coefficient(95233, false), 1);
    assert_eq!(w1_coefficient(190464, true), 0);
    assert_eq!(w1_coefficient(190465, true), 2);
}

#[test]
fn norm_at_least_boundaries() {
    let bound = GAMMA1 - BETA;
    assert!(norm_at_least(bound, bound));
    assert!(norm_at_least(-bound, bound));
    assert!(!norm_at_least(bound - 1, bound));
    assert!(!norm_at_least(-(bound - 1), bound));
    assert!(!norm_at_least(0, bound));
}

fn hint_block(lists: &[Vec<u8>; 4]) -> [u8; 84] {
    let mut h = [0u8; 84];
    let mut k = 0;
    for (i, list) in lists.iter().enumerate() {
        for &idx in list {
            h[k] = idx;
            k += 1;
        }
        h[80 + i] = k as u8;
    }
    h
}

#[test]
fn hint_counts_accepts_exactly_the_well_formed_blocks() {
    let valid = hint_block(&[vec![1, 5], vec![], vec![0, 255], vec![7]]);
    assert_eq!(hint_counts(&valid), Some([2, 2, 4, 5]));
    let mut repeated = hint_block(&[vec![1, 1], vec![], vec![], vec![]]);
    assert_eq!(hint_counts(&repeated), None);
    repeated[1] = 2;
    assert_eq!(hint_counts(&repeated), Some([2, 2, 2, 2]));
    let decreasing = hint_block(&[vec![5, 1], vec![], vec![], vec![]]);
    assert_eq!(hint_counts(&decreasing), None);
    let mut backwards = valid;
    backwards[81] = 1;
    assert_eq!(hint_counts(&backwards), None);
    let mut too_many = valid;
    too_many[83] = 81;
    assert_eq!(hint_counts(&too_many), None);
    let mut padding = valid;
    padding[79] = 1;
    assert_eq!(hint_counts(&padding), None);
    // Increasing across polynomials is not required.
    let restart = hint_block(&[vec![200], vec![3], vec![], vec![]]);
    assert_eq!(hint_counts(&restart), Some([1, 2, 2, 2]));
}

#[test]
fn hint_bitmap_sets_exactly_the_listed_indices() {
    let h = hint_block(&[vec![0, 63, 64, 255], vec![9], vec![], vec![]]);
    let counts = hint_counts(&h).unwrap();
    assert_eq!(hint_bitmap(&h, &counts, 0), [1 | (1 << 63), 1, 0, 1 << 63]);
    assert_eq!(hint_bitmap(&h, &counts, 1), [1 << 9, 0, 0, 0]);
    assert_eq!(hint_bitmap(&h, &counts, 2), [0; 4]);
}

#[test]
fn t1_and_z_unpack_read_their_fields() {
    let mut p = Poly::zero();
    p.t1_unpack_shifted(&[0xFF; 320]);
    assert!(p.c.iter().all(|&c| c == 1023 << 13));
    let mut bytes = [0u8; 320];
    bytes[0] = 0x01;
    bytes[1] = 0x04;
    p.t1_unpack_shifted(&bytes);
    assert_eq!(p.c[0], 1 << 13);
    assert_eq!(p.c[1], 1 << 13);
    assert_eq!(p.c[2], 0);

    let mut z = Poly::zero();
    assert!(z.z_unpack(&[0u8; 576], GAMMA1 - BETA));
    assert!(z.c.iter().all(|&c| c == GAMMA1));
    let mut packed = [0u8; 576];
    // Every field γ1: every coefficient 0.
    for i in 0..64 {
        let f = GAMMA1 as u64;
        let lo = f | (f << 18) | (f << 36) | (f << 54);
        packed[9 * i..9 * i + 8].copy_from_slice(&lo.to_le_bytes());
        packed[9 * i + 8] = (f >> 10) as u8;
    }
    assert!(!z.z_unpack(&packed, GAMMA1 - BETA));
    assert!(z.c.iter().all(|&c| c == 0));
}

#[test]
fn finish_row_packs_six_bit_fields() {
    let p = Poly::zero();
    let mut out = [0xAAu8; 192];
    p.finish_row(&[0; 4], &mut out);
    assert_eq!(out, [0u8; 192]);
    // All hints set on zero: UseHint moves 0 down to 43 = 0b101011.
    p.finish_row(&[u64::MAX; 4], &mut out);
    let w = 43u8;
    assert_eq!(&out[..3], &[w | (w << 6), (w >> 2) | (w << 4), (w >> 4) | (w << 2)]);
}

#[test]
fn uniform_is_rejection_sampling_of_shake128() {
    let seed = [7u8; 32];
    let mut p = Poly::zero();
    p.uniform::<false>(&seed, 0x0102);
    let mut h = sha3::Shake128::default();
    h.update(&seed);
    h.update(&[0x02, 0x01]);
    let mut r = h.finalize_xof();
    let mut expected = Vec::new();
    while expected.len() < 256 {
        let mut b = [0u8; 3];
        r.read(&mut b);
        let t = (b[0] as i64 | (b[1] as i64) << 8 | (b[2] as i64) << 16) & 0x7F_FFFF;
        if t < Q {
            expected.push(t);
        }
    }
    assert_eq!(p.c.to_vec(), expected);
}

#[test]
fn challenge_has_tau_signs() {
    let mut c = Poly::zero();
    c.challenge::<false>(&[3u8; 32]);
    assert_eq!(c.c.iter().filter(|&&x| x != 0).count(), 39);
    assert!(c.c.iter().all(|&x| x == 0 || x == 1 || x == -1));
    let mut t = Poly::zero();
    t.challenge::<true>(&[3u8; 32]);
    assert_eq!(t.c.iter().filter(|&&x| x != 0).count(), 39);
    assert_ne!(c.c, t.c);
}

#[test]
fn public_key_hash_is_shake256_or_turboshake256() {
    let (key, _) = fixture(1);
    let bytes = key.to_bytes();
    assert_eq!(key.public_key_hash().to_vec(), shake256(&[&bytes], 64));
    let turbo = VerifyingKey::<true>::from_bytes(&bytes);
    let mut h = sha3::TurboShake256::from_core(sha3::TurboShake256Core::new(0x1f));
    h.update(&bytes);
    let mut expected = [0u8; 64];
    h.finalize_xof().read(&mut expected);
    assert_eq!(turbo.public_key_hash(), expected);
    assert_ne!(turbo.public_key_hash(), key.public_key_hash());
    assert_eq!(key.prepare().public_key_hash(), &key.public_key_hash());
}

#[test]
fn prepared_encoding_round_trips() {
    let (key, _) = fixture(2);
    let prepared = key.prepare();
    let bytes = prepared.to_bytes();
    let decoded = PreparedVerifyingKey::<false>::from_bytes(&bytes).unwrap();
    assert_eq!(decoded.to_bytes(), bytes);
    assert_eq!(
        PreparedVerifyingKey::<false>::from_slice(&bytes).unwrap().to_bytes(),
        bytes
    );
    assert!(matches!(
        PreparedVerifyingKey::<false>::from_slice(&bytes[1..]),
        Err(Error::InvalidLength)
    ));
    let mut bad = bytes;
    bad[4 * 1000..4 * 1000 + 4].copy_from_slice(&(Q as u32).to_le_bytes());
    assert!(matches!(
        PreparedVerifyingKey::<false>::from_bytes(&bad),
        Err(Error::InvalidEncoding)
    ));
    bad[4 * 1000..4 * 1000 + 4].copy_from_slice(&((Q - 1) as u32).to_le_bytes());
    assert!(PreparedVerifyingKey::<false>::from_bytes(&bad).is_ok());
    assert_eq!(&bytes[PreparedVerifyingKey::<false>::PUBLIC_KEY_HASH_OFFSET..], &key.public_key_hash());
}

#[test]
fn prepared_rows_match_prepare_row_into() {
    let (key, _) = fixture(3);
    let prepared = key.prepare();
    for i in 0..4 {
        let mut row = [[0u32; 5]; 256];
        key.prepare_row_into(i, &mut row).unwrap();
        assert_eq!(Some(&row), prepared.row(i));
        assert!(row.iter().flatten().all(|&e| (e as i64) < Q));
    }
    let mut row = [[7u32; 5]; 256];
    assert_eq!(key.prepare_row_into(4, &mut row), Err(Error::InvalidRow));
    assert_eq!(row, [[7; 5]; 256]);
    assert!(prepared.row(4).is_none());
}

#[test]
fn prepared_and_public_key_verdicts_agree() {
    let (key, sk) = fixture(4);
    let prepared = key.prepare();
    let sig = sk.try_sign_with_seed(&[9; 32], b"message", b"ctx").unwrap();
    let signature = Signature::from_bytes(&sig);
    assert_eq!(key.verify_with_context(b"message", b"ctx", &signature), Ok(()));
    assert_eq!(prepared.verify_with_context(b"message", b"ctx", &signature), Ok(()));
    for pos in [0usize, 40, 700, 2300, 2340, 2419] {
        let mut bytes = sig;
        bytes[pos] ^= 0x10;
        let tampered = Signature::from_bytes(&bytes);
        assert_eq!(
            key.verify_with_context(b"message", b"ctx", &tampered),
            prepared.verify_with_context(b"message", b"ctx", &tampered),
            "byte {pos}"
        );
        assert_eq!(
            key.verify_with_context(b"message", b"ctx", &tampered),
            Err(Error::InvalidSignature)
        );
    }
}

#[test]
fn entry_points_agree() {
    let (key, sk) = fixture(5);
    let prepared = key.prepare();
    let ctx = b"solana-ml-dsa";
    let msg = [7u8; 32];
    let signature = Signature::from_bytes(&sk.try_sign_with_seed(&[1; 32], &msg, ctx).unwrap());
    let m_prime = [&[0u8, ctx.len() as u8][..], ctx, &msg].concat();
    let mu: [u8; 64] = shake256(&[&key.public_key_hash(), &m_prime], 64).try_into().unwrap();
    assert_eq!(key.verify_with_context(&msg, ctx, &signature), Ok(()));
    assert_eq!(key.verify_internal(&m_prime, &signature), Ok(()));
    assert_eq!(key.verify_mu(&mu, &signature), Ok(()));
    assert_eq!(prepared.verify_internal(&m_prime, &signature), Ok(()));
    assert_eq!(prepared.verify_mu(&mu, &signature), Ok(()));
    let empty = Signature::from_bytes(&sk.try_sign_with_seed(&[1; 32], &msg, b"").unwrap());
    assert_eq!(key.verify(&msg, &empty), Ok(()));
    assert_eq!(prepared.verify(&msg, &empty), Ok(()));
    assert_eq!(key.verify(&msg, &signature), Err(Error::InvalidSignature));
}

#[test]
fn context_longer_than_255_bytes_is_an_error() {
    let (key, sk) = fixture(6);
    let signature = Signature::from_bytes(&sk.try_sign_with_seed(&[1; 32], b"m", b"").unwrap());
    assert_eq!(key.verify_with_context(b"m", &[0; 256], &signature), Err(Error::ContextTooLong));
    assert_eq!(
        key.prepare().verify_with_context(b"m", &[0; 256], &signature),
        Err(Error::ContextTooLong)
    );
    let long = Signature::from_bytes(&sk.try_sign_with_seed(&[1; 32], b"m", &[5; 255]).unwrap());
    assert_eq!(key.verify_with_context(b"m", &[5; 255], &long), Ok(()));
}

#[test]
fn turbo_keys_reject_standard_signatures() {
    let (key, sk) = fixture(8);
    let turbo = VerifyingKey::<true>::from_bytes(&key.to_bytes());
    let signature = Signature::from_bytes(&sk.try_sign_with_seed(&[1; 32], b"m", b"c").unwrap());
    assert_eq!(key.verify_with_context(b"m", b"c", &signature), Ok(()));
    assert_eq!(turbo.verify_with_context(b"m", b"c", &signature), Err(Error::InvalidSignature));
    assert_eq!(
        turbo.prepare().verify_with_context(b"m", b"c", &signature),
        Err(Error::InvalidSignature)
    );
}

#[test]
fn byte_accessors_round_trip() {
    let bytes = [0x5Au8; PUBLIC_KEY_LEN];
    let key = VerifyingKey::<false>::from_bytes(&bytes);
    assert_eq!(key.as_bytes(), &bytes);
    assert_eq!(key.to_bytes(), bytes);
    let as_ref: &[u8] = key.as_ref();
    assert_eq!(as_ref, &bytes[..]);
    assert_eq!(key.clone().into_bytes(), bytes);
    let sig = [0xA5u8; SIGNATURE_LEN];
    let signature = Signature::from_bytes(&sig);
    assert_eq!(signature.as_bytes(), &sig);
    assert_eq!(signature.to_bytes(), sig);
    let converted: [u8; SIGNATURE_LEN] = signature.clone().into();
    assert_eq!(converted, sig);
    assert_eq!(signature.into_bytes(), sig);
    assert_eq!(VerifyingKey::<false>::BYTE_LEN, 1312);
    assert_eq!(Signature::BYTE_LEN, 2420);
    assert_eq!(PreparedVerifyingKey::<false>::BYTE_LEN, 20544);
    assert_eq!(PreparedVerifyingKey::<false>::ROW_BYTE_LEN * 4 + 64, 20544);
}

#[test]
fn error_messages() {
    assert_eq!(Error::ContextTooLong.message(), "context exceeds 255 bytes");
    assert_eq!(Error::InvalidLength.message(), "invalid byte length");
    assert_eq!(Error::InvalidEncoding.message(), "noncanonical prepared coefficient");
    assert_eq!(Error::InvalidAlignment.message(), "prepared storage must be four-byte aligned");
    assert_eq!(Error::InvalidRow.message(), "prepared row index must be in 0..4");
    assert_eq!(Error::InvalidSignature.message(), "invalid signature");
}

#[test]
fn malformed_signature_encodings_are_rejected() {
    let (key, sk) = fixture(10);
    let sig = sk.try_sign_with_seed(&[2; 32], b"m", b"").unwrap();
    // A z coefficient at the norm bound.
    let mut bytes = sig;
    let f = (GAMMA1 - (GAMMA1 - BETA)) as u64;
    bytes[32] = f as u8;
    bytes[33] = (f >> 8) as u8;
    bytes[34] = (bytes[34] & !3) | ((f >> 16) as u8 & 3);
    assert_eq!(key.verify(b"m", &Signature::from_bytes(&bytes)), Err(Error::InvalidSignature));
    // A hint count above ω.
    let mut bytes = sig;
    bytes[SIGNATURE_LEN - 1] = 81;
    assert_eq!(key.verify(b"m", &Signature::from_bytes(&bytes)), Err(Error::InvalidSignature));
    assert_eq!(key.verify(b"m", &Signature::from_bytes(&sig)), Ok(()));
}

#[test]
fn row_lazy_reduces_extreme_operands_below_2_27() {
    let q = Q as i128;
    let mut row = [[0u32; 5]; 256];
    let mut z = [Poly::zero(), Poly::zero(), Poly::zero(), Poly::zero()];
    let mut c = Poly::zero();
    let m = (1i64 << 27) - 1;
    for k in 0..256 {
        for j in 0..5 {
            row[k][j] = if (k + j) % 3 == 0 { Q as u32 - 1 } else { (k * 7919 + j * 104729) as u32 % Q as u32 };
        }
        for j in 0..4 {
            z[j].c[k] = if (k + j) % 2 == 0 { m } else { -m };
        }
        c.c[k] = if k % 2 == 0 { -m } else { m };
    }
    let mut w = Poly::zero();
    w.row_lazy(&row, [&z[0], &z[1], &z[2], &z[3]], &c);
    for k in 0..256 {
        let acc: i128 = (0..4).map(|j| row[k][j] as i128 * z[j].c[k] as i128).sum::<i128>()
            - c.c[k] as i128 * row[k][4] as i128;
        let r = w.c[k] as i128;
        assert_eq!((r * (1i128 << 64) + acc).rem_euclid(q), 0, "coefficient {k}");
        assert!(-(q + 1) / 2 <= r && r <= (q - 1) / 2, "coefficient {k} out of range");
    }
}
