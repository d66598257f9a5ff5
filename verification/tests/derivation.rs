use ark_ed_on_bls12_381::{Fq, Fr};
use ark_ff::{BigInteger, PrimeField};
use eddsa::{convert_base_to_scalar, Base, EdDSAPrivateKey, Scalar};

#[test]
fn derive_sk_clamps_then_reduces() {
    let input = [0xffu8; 64];
    let sk = EdDSAPrivateKey::derive_sk(&input);
    let mut clamped = [0xffu8; 32];
    clamped[0] = 0xf8;
    clamped[31] = 0x7f;
    let expected = Fr::from_le_bytes_mod_order(&clamped);
    assert_eq!(sk, Scalar::from_le_bytes_mod_order(&expected.into_bigint().to_bytes_le()));
    // The high half does not enter the secret scalar.
    let mut other = input;
    other[40] = 0;
    assert_eq!(EdDSAPrivateKey::derive_sk(&other), sk);
}

#[test]
fn derive_sk_is_zero_for_eight_times_the_order() {
    // 8 * L is a clamped value: a multiple of eight in [2^254, 2^255).
    let eight_l = Fr::MODULUS;
    let mut bytes = [0u8; 64];
    let le = eight_l.to_bytes_le();
    let mut carry = 0u16;
    for i in 0..32 {
        let v = (le[i] as u16) * 8 + carry;
        bytes[i] = (v & 0xff) as u8;
        carry = v >> 8;
    }
    assert_eq!(carry, 0);
    assert_eq!(bytes[0] & 0x07, 0);
    assert_eq!(bytes[31] & 0xc0, 0x40);
    let sk = EdDSAPrivateKey::derive_sk(&bytes);
    assert_eq!(sk, Scalar::from_le_bytes_mod_order(&[0u8; 32]));
    // Any other clamped value gives a nonzero scalar.
    bytes[0] = bytes[0].wrapping_add(8);
    assert_ne!(EdDSAPrivateKey::derive_sk(&bytes), sk);
}

#[test]
fn convert_base_to_scalar_reduces_modulo_the_group_order() {
    let small = Fq::from(1234u64);
    let s = convert_base_to_scalar(Base::from_le_bytes_mod_order(&small.into_bigint().to_bytes_le()));
    assert_eq!(s, Scalar::from_le_bytes_mod_order(&Fr::from(1234u64).into_bigint().to_bytes_le()));
    // A base field element above the group order is reduced.
    let big = -Fq::from(1u64);
    let big_bytes = big.into_bigint().to_bytes_le();
    let s = convert_base_to_scalar(Base::from_le_bytes_mod_order(&big_bytes));
    let expected = Fr::from_le_bytes_mod_order(&big_bytes);
    assert_eq!(s, Scalar::from_le_bytes_mod_order(&expected.into_bigint().to_bytes_le()));
}

#[test]
fn deterministic_nonce_is_consistent_and_depends_on_the_message() {
    let m1 = Base::from_le_bytes_mod_order(&[1u8]);
    let m2 = Base::from_le_bytes_mod_order(&[2u8]);
    let seed = Scalar::from_le_bytes_mod_order(&[9u8; 32]);
    let a = EdDSAPrivateKey::deterministic_nonce(m1, seed);
    assert_eq!(a, EdDSAPrivateKey::deterministic_nonce(m1, seed));
    assert_ne!(a, EdDSAPrivateKey::deterministic_nonce(m2, seed));
}
