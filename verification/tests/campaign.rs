//! Differential check of every verdict against two independent FIPS 204
//! implementations, `fips204` (Rust) and PQClean through `pqcrypto-mldsa`
//! (C), at context and message lengths on every SHAKE256 block boundary.

use fips204::ml_dsa_44;
use fips204::traits::{SerDes, Signer, Verifier};
use pqcrypto_mldsa::mldsa44;
use pqcrypto_traits::sign::{DetachedSignature, PublicKey};
use solana_ml_dsa::ml_dsa_44::{
    Error, PreparedVerifyingKey, Signature, VerifyingKey, PUBLIC_KEY_LEN, SIGNATURE_LEN,
};

/// Lengths at and around the SHAKE256 block boundary, for `μ = H(tr ‖ 0 ‖
/// |ctx| ‖ ctx ‖ msg)`: `tr` is 64 bytes, so the first block holds 70 more.
const LENGTHS: [usize; 12] = [0, 1, 31, 32, 33, 69, 70, 71, 135, 136, 137, 1000];

struct Key {
    pk: [u8; PUBLIC_KEY_LEN],
    prepared: PreparedVerifyingKey<false>,
    rust: ml_dsa_44::PublicKey,
    c: mldsa44::PublicKey,
}

impl Key {
    fn from_bytes(pk: [u8; PUBLIC_KEY_LEN]) -> Key {
        Key {
            pk,
            prepared: VerifyingKey::<false>::from_bytes(&pk).prepare(),
            rust: ml_dsa_44::PublicKey::try_from_bytes(pk).unwrap(),
            c: <mldsa44::PublicKey as PublicKey>::from_bytes(&pk).unwrap(),
        }
    }

    /// The verdicts on one input; asserts they agree and returns ours.
    fn agree(&self, ctx: &[u8], msg: &[u8], sig: &[u8; SIGNATURE_LEN], what: &str) -> bool {
        let ours = self
            .prepared
            .verify_with_context(msg, ctx, &Signature::from_bytes(sig))
            .is_ok();
        let raw = VerifyingKey::<false>::from_bytes(&self.pk)
            .verify_with_context(msg, ctx, &Signature::from_bytes(sig))
            .is_ok();
        assert_eq!(ours, raw, "{what}: prepared vs raw key");
        let rust = self.rust.verify(msg, sig, ctx);
        let c = mldsa44::verify_detached_signature_ctx(
            &<mldsa44::DetachedSignature as DetachedSignature>::from_bytes(sig).unwrap(),
            msg,
            ctx,
            &self.c,
        )
        .is_ok();
        assert_eq!(ours, rust, "{what}: ours vs fips204");
        assert_eq!(ours, c, "{what}: ours vs PQClean");
        ours
    }
}

fn rust_keypair() -> (Key, ml_dsa_44::PrivateKey) {
    let (pk, sk) = ml_dsa_44::try_keygen().unwrap();
    (Key::from_bytes(pk.into_bytes()), sk)
}

fn rust_sign(sk: &ml_dsa_44::PrivateKey, ctx: &[u8], msg: &[u8]) -> [u8; SIGNATURE_LEN] {
    sk.try_sign(msg, ctx).unwrap()
}

#[test]
fn boundary_lengths_verify_and_agree() {
    let (key, sk) = rust_keypair();
    for &ctx_len in &[0usize, 1, 69, 70, 71, 135, 254, 255] {
        for &msg_len in &LENGTHS {
            let ctx = vec![0xA5u8; ctx_len];
            let msg = vec![0x5Au8; msg_len];
            let sig = rust_sign(&sk, &ctx, &msg);
            assert!(key.agree(&ctx, &msg, &sig, &format!("ctx {ctx_len} msg {msg_len}")));
        }
    }
    // A context above 255 bytes is an error, not a signature failure.
    let sig = rust_sign(&sk, b"", b"");
    assert_eq!(
        key.prepared
            .verify_with_context(b"", &[0u8; 256], &Signature::from_bytes(&sig)),
        Err(Error::ContextTooLong)
    );
}
