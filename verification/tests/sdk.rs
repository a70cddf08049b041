use fips204::ml_dsa_44;
use fips204::traits::{KeyGen, SerDes, Signer};
use solana_ml_dsa::ml_dsa_44::{Error, Signature, VerifyingKey};

#[test]
fn encoded_values_and_verification() {
    let (pk, sk) = ml_dsa_44::KG::keygen_from_seed(&[42; 32]);
    let key = VerifyingKey::<false>::from_bytes(&pk.into_bytes());
    let signature = Signature::from_bytes(&sk.try_sign_with_seed(&[0; 32], b"sdk", b"").unwrap());
    let encoded = key.to_bytes();
    assert_eq!(VerifyingKey::<false>::from_slice(encoded.as_slice()).unwrap(), key);
    assert_eq!(
        Signature::from_slice(signature.as_bytes()).unwrap(),
        signature
    );
    assert_eq!(
        VerifyingKey::<false>::from_slice(&encoded[..1311]),
        Err(Error::InvalidLength)
    );
    assert_eq!(Signature::from_slice(&[]), Err(Error::InvalidLength));
    key.verify(b"sdk", &signature).unwrap();
    key.prepare().verify(b"sdk", &signature).unwrap();
    assert!(key.verify(b"changed", &signature).is_err());
}
