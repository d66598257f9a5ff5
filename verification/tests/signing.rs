use ark_ec::{AffineRepr, CurveGroup};
use ark_ed_on_bls12_381::{EdwardsAffine, Fq, Fr};
use ark_ff::{BigInteger, PrimeField, UniformRand};
use ark_serialize::CanonicalSerialize;
use eddsa::{Base, EdDSAPrivateKey, EdDSAPublicKey, EdDSASignature, Point, Scalar};

// The library leaves the challenge hash to its caller; these tests stand in
// BLAKE3 for it, which exercises the same signing and verification rules.
fn challenge_of(input: &[u8]) -> Base {
    let digest = blake3::hash(input);
    Base::from_be_bytes_mod_order(digest.as_bytes())
}

fn sign_message(sk: &EdDSAPrivateKey, message: Base) -> EdDSASignature {
    let challenge = challenge_of(&sk.challenge_input(message));
    sk.sign(message, challenge)
}

fn verify_message(pk: &EdDSAPublicKey, message: Base, sig: &EdDSASignature) -> bool {
    let challenge = challenge_of(&pk.challenge_input(message, sig));
    pk.verify(sig, challenge)
}

fn base_from_fq(f: Fq) -> Base {
    Base::from_le_bytes_mod_order(&f.into_bigint().to_bytes_le())
}

fn fq_of(b: &Base) -> Fq {
    Fq::from_le_bytes_mod_order(&b.to_bytes_le())
}

fn fixed_key(byte: u8) -> EdDSAPrivateKey {
    EdDSAPrivateKey::from_bytes([byte; 32])
}

// The secret scalar, computed directly with blake3 and ark-ff.
fn expected_secret(seed: &[u8; 32]) -> (Fr, [u8; 64]) {
    let mut hasher = blake3::Hasher::new();
    hasher.update(seed);
    let mut out = [0u8; 64];
    hasher.finalize_xof().fill(&mut out);
    let mut buf = [0u8; 32];
    buf.copy_from_slice(&out[0..32]);
    buf[0] &= 0xF8;
    buf[31] &= 0x7F;
    buf[31] |= 0x40;
    (Fr::from_le_bytes_mod_order(&buf), out)
}

#[test]
fn test_sign_and_verify_flow() {
    let mut rng = rand::thread_rng();

    // 1. Generate Keypair
    let sk = EdDSAPrivateKey::random(&mut rng);
    let pk = sk.public();

    // 2. Generate Random Message (Field Element)
    let message = base_from_fq(Fq::rand(&mut rng));

    // 3. Sign
    let signature = sign_message(&sk, message);

    // 4. Verify Positive Case
    assert!(verify_message(&pk, message, &signature), "Signature should be valid");

    // 5. Verify Negative Case (Wrong Message)
    let bad_message = base_from_fq(Fq::rand(&mut rng));
    assert!(
        !verify_message(&pk, bad_message, &signature),
        "Signature should fail for wrong message"
    );

    // 6. Verify Negative Case (Wrong Key)
    let bad_sk = EdDSAPrivateKey::random(&mut rng);
    let bad_pk = bad_sk.public();
    assert!(
        !verify_message(&bad_pk, message, &signature),
        "Signature should fail for wrong key"
    );
}

#[test]
fn test_serialization_roundtrip() {
    let mut rng = rand::thread_rng();
    let sk = EdDSAPrivateKey::random(&mut rng);
    let pk = sk.public();
    let msg_fq = Fq::rand(&mut rng);
    let msg = base_from_fq(msg_fq);
    let sig = sign_message(&sk, msg);
    // Public Key Roundtrip
    let pk_bytes = pk.to_compressed_bytes().unwrap();
    // Signature Roundtrip
    let sig_bytes = sig.to_compressed_bytes().unwrap();
    println!("let msg= {:?}", hex::encode(msg_fq.into_bigint().to_bytes_be()));
    println!("let public_key= {:?}", hex::encode(pk_bytes));
    println!("let signature = {:?}", hex::encode(sig_bytes));
    let r_bytes = EdDSAPublicKey { pk: sig.r }.to_compressed_bytes().unwrap();
    assert_eq!(&sig_bytes[0..32], &r_bytes[..]);
}

fn expected_nonce(message: Fq, nonce_secret: Fr) -> Fr {
    let dst = Fq::from_be_bytes_mod_order(b"TokamakAuth\xE2\x80\x91EDDSA\xE2\x80\x91NONCE\xE2\x80\x91v1");
    let mut hasher = blake3::Hasher::new();
    hasher.update(&dst.into_bigint().to_bytes_be());
    hasher.update(&nonce_secret.into_bigint().to_bytes_be());
    hasher.update(&message.into_bigint().to_bytes_be());
    let mut output = [0u8; 64];
    hasher.finalize_xof().fill(&mut output);
    Fr::from_be_bytes_mod_order(&output)
}

fn scalar_bytes(f: Fr) -> Vec<u8> {
    f.into_bigint().to_bytes_le()
}

#[test]
fn private_key_bytes_roundtrip() {
    let seed = [7u8; 32];
    let sk = EdDSAPrivateKey::from_bytes(seed);
    assert_eq!(sk.to_bytes(), seed);
}

#[test]
fn public_key_is_clamped_secret_times_generator() {
    let seed = [42u8; 32];
    let sk = EdDSAPrivateKey::from_bytes(seed);
    let pk = sk.public();
    let (secret, _) = expected_secret(&seed);
    let expected = (EdwardsAffine::generator() * secret).into_affine();
    assert_eq!(fq_of(&pk.pk.x), expected.x);
    assert_eq!(fq_of(&pk.pk.y), expected.y);
    assert!(expected.is_on_curve());
    assert_ne!(fq_of(&pk.pk.y), Fq::from(1u64));
}

#[test]
fn public_key_is_deterministic() {
    let a = fixed_key(3).public();
    let b = fixed_key(3).public();
    let c = fixed_key(4).public();
    assert_eq!(a, b);
    assert_ne!(a, c);
}

#[test]
fn signature_follows_the_signing_formula() {
    let seed = [9u8; 32];
    let sk = EdDSAPrivateKey::from_bytes(seed);
    let message_fq = Fq::from(123456789u64);
    let message = base_from_fq(message_fq);
    let challenge_fq = Fq::from(987654321u64);
    let challenge = base_from_fq(challenge_fq);
    let sig = sk.sign(message, challenge);

    let (secret, expansion) = expected_secret(&seed);
    let nonce_secret = Fr::from_le_bytes_mod_order(&expansion[32..64]);
    let r = expected_nonce(message_fq, nonce_secret);
    let big_r = (EdwardsAffine::generator() * r).into_affine();
    let c = Fr::from_le_bytes_mod_order(&challenge_fq.into_bigint().to_bytes_le());
    let s = r + c * secret;

    assert_eq!(fq_of(&sig.r.x), big_r.x);
    assert_eq!(fq_of(&sig.r.y), big_r.y);
    let bytes = sig.to_compressed_bytes().unwrap();
    assert_eq!(&bytes[32..64], &scalar_bytes(s)[..]);
}

#[test]
fn signing_is_deterministic() {
    let sk = fixed_key(11);
    let message = base_from_fq(Fq::from(5u64));
    let challenge = base_from_fq(Fq::from(6u64));
    assert_eq!(sk.sign(message, challenge), sk.sign(message, challenge));
    let other = base_from_fq(Fq::from(7u64));
    assert_ne!(sk.sign(message, challenge).r, sk.sign(other, challenge).r);
}

#[test]
fn verify_accepts_any_challenge_used_for_signing() {
    let sk = fixed_key(21);
    let pk = sk.public();
    let message = base_from_fq(Fq::from(77u64));
    for v in [0u64, 1, 2, 1000, u64::MAX] {
        let challenge = base_from_fq(Fq::from(v));
        let sig = sk.sign(message, challenge);
        assert!(pk.verify(&sig, challenge));
    }
    // A challenge above the scalar modulus is reduced the same way on both sides.
    let big = Base::from_be_bytes_mod_order(&[0xffu8; 32]);
    let sig = sk.sign(message, big);
    assert!(pk.verify(&sig, big));
}

#[test]
fn verify_rejects_a_different_challenge() {
    let sk = fixed_key(22);
    let pk = sk.public();
    let message = base_from_fq(Fq::from(78u64));
    let sig = sk.sign(message, base_from_fq(Fq::from(1u64)));
    assert!(!pk.verify(&sig, base_from_fq(Fq::from(2u64))));
}

#[test]
fn verify_rejects_a_tampered_scalar() {
    let sk = fixed_key(23);
    let pk = sk.public();
    let message = base_from_fq(Fq::from(79u64));
    let sig = sign_message(&sk, message);
    let bytes = sig.to_compressed_bytes().unwrap();
    let s = Fr::from_le_bytes_mod_order(&bytes[32..64]) + Fr::from(1u64);
    let tampered = EdDSASignature { r: sig.r, s: Scalar::from_le_bytes_mod_order(&scalar_bytes(s)) };
    assert!(!verify_message(&pk, message, &tampered));
}

#[test]
fn verify_rejects_the_identity_public_key() {
    let sk = fixed_key(24);
    let message = base_from_fq(Fq::from(80u64));
    let sig = sign_message(&sk, message);
    let identity = EdDSAPublicKey {
        pk: Point { x: base_from_fq(Fq::from(0u64)), y: base_from_fq(Fq::from(1u64)) },
    };
    assert!(!verify_message(&identity, message, &sig));
}

#[test]
fn verify_rejects_points_off_the_curve() {
    let sk = fixed_key(25);
    let pk = sk.public();
    let message = base_from_fq(Fq::from(81u64));
    let sig = sign_message(&sk, message);
    let off = Point { x: base_from_fq(Fq::from(1u64)), y: base_from_fq(Fq::from(1u64)) };
    let bad_r = EdDSASignature { r: off, s: sig.s };
    assert!(!verify_message(&pk, message, &bad_r));
    let bad_pk = EdDSAPublicKey { pk: off };
    assert!(!verify_message(&bad_pk, message, &sig));
}

#[test]
fn compressed_public_key_layout() {
    let pk = fixed_key(31).public();
    let bytes = pk.to_compressed_bytes().unwrap();
    let x = fq_of(&pk.pk.x);
    let y = fq_of(&pk.pk.y);
    let mut expected = Vec::new();
    y.serialize_compressed(&mut expected).unwrap();
    if x.into_bigint().is_odd() {
        expected[31] |= 0x80;
    }
    assert_eq!(&bytes[..], &expected[..]);
    assert_eq!(bytes[31] & 0x80 != 0, x.into_bigint().is_odd());
}

#[test]
fn compressed_signature_layout() {
    let sk = fixed_key(32);
    let sig = sign_message(&sk, base_from_fq(Fq::from(3u64)));
    let bytes = sig.to_compressed_bytes().unwrap();
    assert_eq!(bytes.len(), 64);
    let r_bytes = EdDSAPublicKey { pk: sig.r }.to_compressed_bytes().unwrap();
    assert_eq!(&bytes[0..32], &r_bytes[..]);
    let again = Scalar::from_le_bytes_mod_order(&bytes[32..64]);
    assert_eq!(again, sig.s);
}

#[test]
fn challenge_inputs_of_signer_and_verifier_agree() {
    let sk = fixed_key(33);
    let pk = sk.public();
    let message_fq = Fq::from(444u64);
    let message = base_from_fq(message_fq);
    let signer_input = sk.challenge_input(message);
    let sig = sk.sign(message, challenge_of(&signer_input));
    let verifier_input = pk.challenge_input(message, &sig);
    assert_eq!(signer_input, verifier_input);
    assert_eq!(signer_input.len(), 192);
    let mut expected = Vec::new();
    let tag = Fq::from_be_bytes_mod_order("TokamakAuth\u{2011}EDDSA\u{2011}CHAL\u{2011}v1".as_bytes());
    expected.extend(tag.into_bigint().to_bytes_be());
    expected.extend(fq_of(&sig.r.x).into_bigint().to_bytes_be());
    expected.extend(fq_of(&sig.r.y).into_bigint().to_bytes_be());
    expected.extend(fq_of(&pk.pk.x).into_bigint().to_bytes_be());
    expected.extend(fq_of(&pk.pk.y).into_bigint().to_bytes_be());
    expected.extend(message_fq.into_bigint().to_bytes_be());
    assert_eq!(signer_input, expected);
}

#[test]
fn field_readers_reduce_modulo_their_modulus() {
    let all_ones = [0xffu8; 32];
    let b = Base::from_be_bytes_mod_order(&all_ones);
    assert_eq!(fq_of(&b), Fq::from_be_bytes_mod_order(&all_ones));
    let b_le = Base::from_le_bytes_mod_order(&all_ones);
    assert_eq!(fq_of(&b_le), Fq::from_le_bytes_mod_order(&all_ones));
    assert_eq!(b.to_bytes_le().to_vec(), Fq::from_be_bytes_mod_order(&all_ones).into_bigint().to_bytes_le());
    let s = Scalar::from_le_bytes_mod_order(&all_ones);
    let expected = Fr::from_le_bytes_mod_order(&all_ones);
    let sig = EdDSASignature { r: Point { x: b, y: b }, s };
    let bytes = sig.to_compressed_bytes().unwrap();
    assert_eq!(&bytes[32..64], &scalar_bytes(expected)[..]);
}

#[test]
fn random_keys_differ() {
    let mut rng = rand::thread_rng();
    let a = EdDSAPrivateKey::random(&mut rng);
    let b = EdDSAPrivateKey::random(&mut rng);
    assert_ne!(a.to_bytes(), b.to_bytes());
}

#[test]
fn verify_rejects_another_key_under_the_same_challenge() {
    let sk = fixed_key(41);
    let other = fixed_key(42).public();
    let message = base_from_fq(Fq::from(90u64));
    let challenge = base_from_fq(Fq::from(91u64));
    let sig = sk.sign(message, challenge);
    assert!(sk.public().verify(&sig, challenge));
    assert!(!other.verify(&sig, challenge));
}
