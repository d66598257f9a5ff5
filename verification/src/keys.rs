//! Keys and signatures, and the signing and verification rules.
//!
//! A private key is a 32-byte seed. BLAKE3 expands it to 64 bytes: the low
//! half, clamped, gives the secret scalar `sk`; the high half seeds the
//! deterministic nonce. The public key is `sk G`. A signature on a message
//! `m` is `(R, s)` with `R = r G` and `s = r + c sk`, where `r` is the nonce
//! and `c` is the challenge: a hash of a domain separator and `(R, Pk, m)` that the caller computes
//! from `challenge_hash_input` (the hash itself is Poseidon, outside this
//! library). Verification checks `8 (s G - R - c Pk) = 0`.
use vstd::prelude::*;
use vstd::arithmetic::div_mod::{
    lemma_add_mod_noop_right, lemma_fundamental_div_mod, lemma_mod_bound, lemma_mod_equivalence,
    lemma_mod_sub_multiples_vanish, lemma_mod_twice, lemma_small_mod, lemma_sub_mod_noop,
};
use vstd::arithmetic::mul::lemma_mul_is_commutative;
use crate::bytes::{
    be_fixed, be_nat, clamp, lemma_clamped_shape, lemma_le_fixed_len, lemma_le_nat_of_le_fixed,
    le_fixed, le_nat, pow256,
};
use crate::curve::{
    generator_mul, generator_times, is_identity, on_curve, point_difference, point_doubled,
    point_doubling, point_is_on_curve, point_is_zero, point_minus, point_times, scaled_point,
    scalar_sub, Point,
};
use crate::field::{
    base_modulus, biguint_reaches_scalar_modulus, fq_from_be_bytes_mod_order, fq_is_odd,
    fq_serialize_compressed, fq_to_bytes_be, fq_to_bytes_le, fr_add, fr_from_be_bytes_mod_order,
    fr_from_le_bytes_mod_order, fr_mul, fr_serialize_compressed, fr_to_bytes_be, scalar_modulus,
    Base, Scalar,
};
use crate::hash::{blake3_xof64, blake3_xof_64};
use crate::laws::lemma_sign_is_honest;
use rand::rngs::ThreadRng;
use rand::RngCore;

verus! {

// ---------------------------------------------------------------------------
// The mathematical model.
// ---------------------------------------------------------------------------

/// The 64 bytes that BLAKE3 expands a seed to.
pub open spec fn expanded_key(seed: Seq<u8>) -> Seq<u8> {
    blake3_xof64(seed)@
}

/// The clamped integer that the low half of an expansion encodes.
pub open spec fn clamped_value(expansion: Seq<u8>) -> nat {
    le_nat(clamp(expansion.subrange(0, 32)))
}

/// The secret scalar of a seed.
pub open spec fn secret_scalar(seed: Seq<u8>) -> nat {
    clamped_value(expanded_key(seed)) % scalar_modulus()
}

/// The nonce seed of a seed: the high half of its expansion, reduced.
pub open spec fn nonce_secret(seed: Seq<u8>) -> nat {
    le_nat(expanded_key(seed).subrange(32, 64)) % scalar_modulus()
}

/// The public point of a seed: its secret scalar times the generator.
pub open spec fn public_point(seed: Seq<u8>) -> (nat, nat) {
    generator_mul(secret_scalar(seed))
}

/// The domain separation tag of the nonce hash.
pub open spec fn dst_nonce_bytes() -> Seq<u8> {
    seq![
        0x54u8, 0x6fu8, 0x6bu8, 0x61u8, 0x6du8, 0x61u8, 0x6bu8, 0x41u8, 0x75u8, 0x74u8, 0x68u8,
        0xe2u8, 0x80u8, 0x91u8, 0x45u8, 0x44u8, 0x44u8, 0x53u8, 0x41u8, 0xe2u8, 0x80u8, 0x91u8,
        0x4eu8, 0x4fu8, 0x4eu8, 0x43u8, 0x45u8, 0xe2u8, 0x80u8, 0x91u8, 0x76u8, 0x31u8,
    ]
}

/// The tag read as a big-endian base field element.
pub open spec fn dst_nonce_value() -> nat {
    be_nat(dst_nonce_bytes()) % base_modulus()
}

/// What the nonce hash reads: tag, nonce seed and message, each as 32
/// big-endian bytes.
pub open spec fn nonce_hash_input(message: nat, secret: nat) -> Seq<u8> {
    be_fixed(dst_nonce_value(), 32) + be_fixed(secret % scalar_modulus(), 32) + be_fixed(
        message % base_modulus(),
        32,
    )
}

/// The deterministic nonce for a message and a nonce seed: the 64-byte
/// BLAKE3 output read big-endian, reduced modulo the scalar modulus.
pub open spec fn nonce_scalar(message: nat, secret: nat) -> nat {
    be_nat(blake3_xof64(nonce_hash_input(message, secret))@) % scalar_modulus()
}

/// The nonce with which a seed signs a message.
pub open spec fn signing_nonce(seed: Seq<u8>, message: nat) -> nat {
    nonce_scalar(message, nonce_secret(seed))
}

/// The point `R` of a seed's signature on a message.
pub open spec fn nonce_point(seed: Seq<u8>, message: nat) -> (nat, nat) {
    generator_mul(signing_nonce(seed, message))
}

/// A base field challenge, carried into the scalar field.
pub open spec fn challenge_scalar(challenge: nat) -> nat {
    (challenge % base_modulus()) % scalar_modulus()
}

/// The scalar `s = r + c sk` of a seed's signature on a message.
pub open spec fn signature_scalar(seed: Seq<u8>, message: nat, challenge: nat) -> nat {
    (signing_nonce(seed, message) + challenge_scalar(challenge) * secret_scalar(seed))
        % scalar_modulus()
}

/// The domain separation tag of the challenge hash.
pub open spec fn dst_challenge_bytes() -> Seq<u8> {
    seq![
        0x54u8, 0x6fu8, 0x6bu8, 0x61u8, 0x6du8, 0x61u8, 0x6bu8, 0x41u8, 0x75u8, 0x74u8, 0x68u8,
        0xe2u8, 0x80u8, 0x91u8, 0x45u8, 0x44u8, 0x44u8, 0x53u8, 0x41u8, 0xe2u8, 0x80u8, 0x91u8,
        0x43u8, 0x48u8, 0x41u8, 0x4cu8, 0xe2u8, 0x80u8, 0x91u8, 0x76u8, 0x31u8,
    ]
}

/// The challenge tag read as a big-endian base field element.
pub open spec fn dst_challenge_value() -> nat {
    be_nat(dst_challenge_bytes()) % base_modulus()
}

/// What the challenge hash reads: the domain separator, then `R.x, R.y,
/// Pk.x, Pk.y, m`, each as 32 big-endian bytes.
pub open spec fn challenge_preimage(message: nat, r: (nat, nat), pk: (nat, nat)) -> Seq<u8> {
    be_fixed(dst_challenge_value(), 32) + be_fixed(r.0 % base_modulus(), 32) + be_fixed(
        r.1 % base_modulus(),
        32,
    ) + be_fixed(pk.0 % base_modulus(), 32) + be_fixed(pk.1 % base_modulus(), 32) + be_fixed(
        message % base_modulus(),
        32,
    )
}

/// The verification rule: `s` is reduced, `Pk` is on the curve and not the
/// identity, `R` is on the curve, and `8 (s G - R - c Pk)` is the identity.
pub open spec fn verification_holds(pk: (nat, nat), r: (nat, nat), s: nat, challenge: nat) -> bool {
    &&& s < scalar_modulus()
    &&& !is_identity(pk)
    &&& on_curve(pk)
    &&& on_curve(r)
    &&& is_identity(
        point_doubling(
            point_doubling(
                point_doubling(
                    point_difference(
                        point_difference(generator_mul(s), r),
                        scaled_point(pk, challenge_scalar(challenge)),
                    ),
                ),
            ),
        ),
    )
}

/// `(R, s)` is a signature made by the signing rule for the public point `pk`
/// and the scalar challenge `c`: `pk = a G`, `R = r G`, `s = r + c a` for some
/// nonce `r` and some nonzero secret `a`.
pub open spec fn is_honest_signature(pk: (nat, nat), r: (nat, nat), s: nat, c: nat) -> bool {
    exists|nonce: nat, secret: nat|
        #![trigger generator_mul(nonce), generator_mul(secret)]
        nonce < scalar_modulus() && 0 < secret < scalar_modulus() && pk == generator_mul(secret)
            && r == generator_mul(nonce) && s == (nonce + c * secret) % scalar_modulus()
}

/// The 32-byte compressed form of a point: `y` little-endian, with the top bit
/// of the last byte set when `x` is odd.
pub open spec fn compressed_point(p: (nat, nat)) -> Seq<u8> {
    let y = le_fixed(p.1 % base_modulus(), 32);
    y.update(31, y[31] | (if (p.0 % base_modulus()) % 2 == 1 { 0x80u8 } else { 0u8 }))
}

// ---------------------------------------------------------------------------
// Arithmetic facts.
// ---------------------------------------------------------------------------

/// The base modulus is below `256^32`.
proof fn lemma_base_modulus_fits()
    ensures
        base_modulus() < pow256(32),
{
    reveal_with_fuel(pow256, 33);
    assert(pow256(32) == 115792089237316195423570985008687907853269984665640564039457584007913129639936nat);
}

/// Doubling in the scalar field gives zero only from zero (the modulus is odd).
proof fn lemma_double_mod_zero(z: nat)
    requires
        z < scalar_modulus(),
    ensures
        ((2 * z) % scalar_modulus() == 0) <==> z == 0,
{
    let m = scalar_modulus();
    if z > 0 {
        if 2 * z < m {
            lemma_small_mod(2 * z, m);
        } else {
            assert(2 * z != m);
            lemma_mod_sub_multiples_vanish((2 * z) as int, m as int);
            lemma_small_mod((2 * z - m) as nat, m);
        }
    }
}

/// The scalar that verification multiplies by eight, `s - r - c a`, is zero
/// exactly when `s = r + c a`.
proof fn lemma_verification_scalar(s: nat, nonce: nat, c: nat, secret: nat)
    requires
        s < scalar_modulus(),
        nonce < scalar_modulus(),
    ensures
        (scalar_sub(scalar_sub(s, nonce), (secret * c) % scalar_modulus()) == 0) <==> s == (nonce
            + c * secret) % scalar_modulus(),
{
    let m = scalar_modulus() as int;
    lemma_sub_mod_noop(s - nonce, (secret * c) as int, m);
    lemma_mod_twice(s - nonce, m);
    lemma_mul_is_commutative(c as int, secret as int);
    lemma_mod_equivalence(s as int, (nonce + c * secret) as int, m);
    lemma_small_mod(s, scalar_modulus());
    lemma_mod_bound((nonce + c * secret) as int, m);
}

/// A clamped integer is zero modulo the scalar modulus only when it is eight
/// times the modulus.
pub proof fn lemma_clamped_zero_iff(v: nat)
    requires
        v % 8 == 0,
        64 * pow256(31) <= v < 128 * pow256(31),
    ensures
        (v % scalar_modulus() == 0) <==> v == 8 * scalar_modulus(),
{
    let l = scalar_modulus();
    reveal_with_fuel(pow256, 32);
    assert(pow256(31) == 452312848583266388373324160190187140051835877600158453279131187530910662656nat);
    if v == 8 * l {
        assert((8 * l) % l == 0) by (nonlinear_arith)
            requires
                l > 0,
        ;
    }
    if v % l == 0 {
        let k = v / l;
        lemma_fundamental_div_mod(v as int, l as int);
        lemma_mul_is_commutative(l as int, k as int);
        assert(v == k * l);
        assert(4 < k < 16) by (nonlinear_arith)
            requires
                v == k * l,
                l == 6554484396890773809930967563523245729705921265872317281365359162392183254199nat,
                28948022309329048855892746252171976963317496166410141009864396001978282409984nat <= v,
                v < 57896044618658097711785492504343953926634992332820282019728792003956564819968nat,
        ;
        assert(k == 8) by {
            if k == 5 { assert((5 * l) % 8 == 3); }
            else if k == 6 { assert((6 * l) % 8 == 2); }
            else if k == 7 { assert((7 * l) % 8 == 1); }
            else if k == 9 { assert((9 * l) % 8 == 7); }
            else if k == 10 { assert((10 * l) % 8 == 6); }
            else if k == 11 { assert((11 * l) % 8 == 5); }
            else if k == 12 { assert((12 * l) % 8 == 4); }
            else if k == 13 { assert((13 * l) % 8 == 3); }
            else if k == 14 { assert((14 * l) % 8 == 2); }
            else if k == 15 { assert((15 * l) % 8 == 1); }
        }
    }
}


// ---------------------------------------------------------------------------
// Outside items.
// ---------------------------------------------------------------------------

/// `rand::rngs::ThreadRng`, the thread-local random generator of `rand`.
#[verifier::external_type_specification]
#[verifier::external_body]
pub struct ExThreadRng(ThreadRng);

/// `RngCore::fill_bytes` of a `ThreadRng` into a 32-byte buffer. The bytes are
/// random, so nothing is claimed of them.
#[verifier::external_body]
fn random_seed_bytes(rng: &mut ThreadRng) -> [u8; 32] {
    let mut bytes = [0u8; 32];
    rng.fill_bytes(&mut bytes);
    bytes
}

// ---------------------------------------------------------------------------
// Types.
// ---------------------------------------------------------------------------

/// Why a compressed encoding could not be produced.
#[derive(Clone, Copy, Debug, PartialEq, Eq)]
pub enum EncodingError {
    /// A field element could not be serialized.
    Serialization,
    /// The encoding had this length instead of the expected one.
    Length(usize),
}

/// A private key: the 32-byte seed from which the secret scalar and the nonce
/// seed are derived.
#[derive(Clone)]
pub struct EdDSAPrivateKey {
    bytes: [u8; 32],
}

impl View for EdDSAPrivateKey {
    type V = Seq<u8>;

    closed spec fn view(&self) -> Seq<u8> {
        self.bytes@
    }
}

/// A public key: the point `sk G`.
#[derive(Clone, Copy, Debug, PartialEq, Eq, Hash)]
pub struct EdDSAPublicKey {
    pub pk: Point,
}

/// A signature `(R, s)`.
#[derive(Clone, Copy, Debug, PartialEq, Eq, Hash)]
pub struct EdDSASignature {
    pub r: Point,
    pub s: Scalar,
}

// ---------------------------------------------------------------------------
// Byte helpers.
// ---------------------------------------------------------------------------

fn append_bytes(v: &mut Vec<u8>, b: &[u8; 32])
    ensures
        final(v)@ == old(v)@ + b@,
{
    let ghost start = v@;
    for i in 0..32
        invariant
            v@ == start + b@.subrange(0, i as int),
    {
        v.push(b[i]);
        assert(b@.subrange(0, i + 1) =~= b@.subrange(0, i as int).push(b@[i as int]));
    }
    assert(b@.subrange(0, 32) =~= b@);
}

fn high_half(out: &[u8; 64]) -> (half: [u8; 32])
    ensures
        half@ == out@.subrange(32, 64),
{
    let mut half = [0u8; 32];
    for i in 0..32
        invariant
            forall|j: int| 0 <= j < i ==> half@[j] == out@[32 + j],
    {
        half[i] = out[32 + i];
    }
    assert(half@ =~= out@.subrange(32, 64));
    half
}

/// Carries a base field element into the scalar field: its 32 little-endian
/// bytes, read modulo the scalar modulus.
pub fn convert_base_to_scalar(f: Base) -> (out: Scalar)
    ensures
        out@ == challenge_scalar(f@),
{
    let bytes = fq_to_bytes_le(&f);
    proof {
        lemma_le_nat_of_le_fixed(f@ % base_modulus(), 32);
        lemma_base_modulus_fits();
        lemma_small_mod(f@ % base_modulus(), pow256(32));
    }
    fr_from_le_bytes_mod_order(&bytes)
}

/// The bytes that the challenge hash reads: the domain separator, then `R.x,
/// R.y, Pk.x, Pk.y, m`, each as 32 big-endian bytes.
pub fn challenge_hash_input(message: Base, nonce_r: &Point, pk: &Point) -> (input: Vec<u8>)
    ensures
        input@ == challenge_preimage(message@, nonce_r@, pk@),
{
    let tag = EdDSASignature::get_dst_challenge();
    let mut input: Vec<u8> = Vec::new();
    append_bytes(&mut input, &fq_to_bytes_be(&tag));
    append_bytes(&mut input, &fq_to_bytes_be(&nonce_r.x));
    append_bytes(&mut input, &fq_to_bytes_be(&nonce_r.y));
    append_bytes(&mut input, &fq_to_bytes_be(&pk.x));
    append_bytes(&mut input, &fq_to_bytes_be(&pk.y));
    append_bytes(&mut input, &fq_to_bytes_be(&message));
    proof {
        lemma_mod_twice(be_nat(dst_challenge_bytes()) as int, base_modulus() as int);
    }
    input
}

impl EdDSASignature {
    /// The domain separation tag of the nonce hash, as a base field element.
    fn get_dst_nonce() -> (tag: Base)
        ensures
            tag@ == dst_nonce_value(),
    {
        let bytes: [u8; 32] = [
            0x54u8, 0x6fu8, 0x6bu8, 0x61u8, 0x6du8, 0x61u8, 0x6bu8, 0x41u8, 0x75u8, 0x74u8, 0x68u8,
            0xe2u8, 0x80u8, 0x91u8, 0x45u8, 0x44u8, 0x44u8, 0x53u8, 0x41u8, 0xe2u8, 0x80u8, 0x91u8,
            0x4eu8, 0x4fu8, 0x4eu8, 0x43u8, 0x45u8, 0xe2u8, 0x80u8, 0x91u8, 0x76u8, 0x31u8,
        ];
        assert(bytes@ =~= dst_nonce_bytes());
        fq_from_be_bytes_mod_order(&bytes)
    }

    /// The domain separation tag of the challenge hash, as a base field element.
    fn get_dst_challenge() -> (tag: Base)
        ensures
            tag@ == dst_challenge_value(),
    {
        let bytes: [u8; 31] = [
            0x54u8, 0x6fu8, 0x6bu8, 0x61u8, 0x6du8, 0x61u8, 0x6bu8, 0x41u8, 0x75u8, 0x74u8, 0x68u8,
            0xe2u8, 0x80u8, 0x91u8, 0x45u8, 0x44u8, 0x44u8, 0x53u8, 0x41u8, 0xe2u8, 0x80u8, 0x91u8,
            0x43u8, 0x48u8, 0x41u8, 0x4cu8, 0xe2u8, 0x80u8, 0x91u8, 0x76u8, 0x31u8,
        ];
        assert(bytes@ =~= dst_challenge_bytes());
        fq_from_be_bytes_mod_order(&bytes)
    }
}

impl EdDSAPrivateKey {
    /// A private key with the given seed.
    pub fn from_bytes(bytes: [u8; 32]) -> (key: Self)
        ensures
            key@ == bytes@,
    {
        Self { bytes }
    }

    /// The seed of this key.
    pub fn to_bytes(&self) -> (bytes: [u8; 32])
        ensures
            bytes@ == self@,
    {
        self.bytes
    }

    /// A private key with a seed drawn from `rng`: whatever the draw, the key
    /// holds 32 bytes.
    pub fn random(rng: &mut ThreadRng) -> (key: Self)
        ensures
            key@.len() == 32,
    {
        Self::from_bytes(random_seed_bytes(rng))
    }

    /// The seed expanded to 64 bytes with BLAKE3.
    fn hash_blake(&self) -> (out: [u8; 64])
        ensures
            out@ == expanded_key(self@),
    {
        blake3_xof_64(self.bytes.as_slice())
    }

    /// The secret scalar: the first 32 bytes of `input`, clamped, read
    /// little-endian modulo the scalar modulus. It is zero only when the
    /// clamped integer is eight times the modulus.
    pub fn derive_sk(input: &[u8]) -> (sk: Scalar)
        requires
            input@.len() >= 32,
        ensures
            sk@ == le_nat(clamp(input@.subrange(0, 32))) % scalar_modulus(),
            sk@ == 0 <==> le_nat(clamp(input@.subrange(0, 32))) == 8 * scalar_modulus(),
    {
        let mut buf = [0u8; 32];
        for i in 0..32
            invariant
                input@.len() >= 32,
                forall|j: int| 0 <= j < i ==> buf@[j] == input@[j],
        {
            buf[i] = input[i];
        }
        let first: u8 = buf[0] & 0xf8u8;
        buf[0] = first;
        let last: u8 = (buf[31] & 0x7fu8) | 0x40u8;
        buf[31] = last;
        assert(buf@ =~= clamp(input@.subrange(0, 32)));
        proof {
            lemma_clamped_shape(input@.subrange(0, 32));
            lemma_clamped_zero_iff(le_nat(buf@));
        }
        fr_from_le_bytes_mod_order(&buf)
    }

    /// The public key `sk G`.
    pub fn public(&self) -> (pk: EdDSAPublicKey)
        ensures
            pk.pk@ == public_point(self@),
    {
        let out = self.hash_blake();
        let sk = Self::derive_sk(&out);
        proof {
            lemma_mod_twice(clamped_value(out@) as int, scalar_modulus() as int);
        }
        EdDSAPublicKey { pk: generator_times(&sk) }
    }

    /// The deterministic nonce: BLAKE3 of the tag, the nonce seed and the
    /// message (each as 32 big-endian bytes), read big-endian modulo the
    /// scalar modulus.
    pub fn deterministic_nonce(message: Base, sk: Scalar) -> (r: Scalar)
        ensures
            r@ == nonce_scalar(message@, sk@),
    {
        let dst = EdDSASignature::get_dst_nonce();
        let mut input: Vec<u8> = Vec::new();
        append_bytes(&mut input, &fq_to_bytes_be(&dst));
        append_bytes(&mut input, &fr_to_bytes_be(&sk));
        append_bytes(&mut input, &fq_to_bytes_be(&message));
        proof {
            lemma_mod_twice(be_nat(dst_nonce_bytes()) as int, base_modulus() as int);
        }
        assert(input@ =~= nonce_hash_input(message@, sk@));
        let out = blake3_xof_64(input.as_slice());
        fr_from_be_bytes_mod_order(&out)
    }

    /// The nonce `r` and the secret scalar `sk` for signing `message`.
    fn nonce_and_secret(&self, message: Base) -> (rs: (Scalar, Scalar))
        ensures
            rs.0@ == signing_nonce(self@, message@),
            rs.1@ == secret_scalar(self@),
    {
        let out = self.hash_blake();
        let sk = Self::derive_sk(&out);
        let upper = high_half(&out);
        let nonce_seed = fr_from_le_bytes_mod_order(&upper);
        (Self::deterministic_nonce(message, nonce_seed), sk)
    }

    /// The bytes that the challenge hash reads for this key's signature on
    /// `message`: the domain separator, `R`, the public key and the message.
    pub fn challenge_input(&self, message: Base) -> (input: Vec<u8>)
        ensures
            input@ == challenge_preimage(message@, nonce_point(self@, message@), public_point(self@)),
    {
        let (r_scalar, sk) = self.nonce_and_secret(message);
        let nonce_point = generator_times(&r_scalar);
        let pk = generator_times(&sk);
        proof {
            lemma_mod_twice(signing_nonce_unreduced(self@, message@), scalar_modulus() as int);
            lemma_mod_twice(clamped_value(expanded_key(self@)) as int, scalar_modulus() as int);
        }
        challenge_hash_input(message, &nonce_point, &pk)
    }
}

impl EdDSAPrivateKey {
    /// Signs `message` under the challenge `c`: returns `(R, s)` with
    /// `R = r G` and `s = r + c sk`. The challenge is the base field element
    /// that the challenge hash gives for `challenge_input(message)`.
    pub fn sign(&self, message: Base, challenge: Base) -> (sig: EdDSASignature)
        ensures
            sig.r@ == nonce_point(self@, message@),
            sig.s@ == signature_scalar(self@, message@, challenge@),
            secret_scalar(self@) != 0 ==> is_honest_signature(
                public_point(self@),
                sig.r@,
                sig.s@,
                challenge_scalar(challenge@),
            ),
    {
        let (r_scalar, sk) = self.nonce_and_secret(message);
        let nonce_point = generator_times(&r_scalar);
        let c_scalar = convert_base_to_scalar(challenge);
        let s = fr_add(&r_scalar, &fr_mul(&c_scalar, &sk));
        proof {
            lemma_mod_twice(signing_nonce_unreduced(self@, message@), scalar_modulus() as int);
            lemma_add_mod_noop_right(
                r_scalar@ as int,
                (c_scalar@ * sk@) as int,
                scalar_modulus() as int,
            );
            if secret_scalar(self@) != 0 {
                lemma_sign_is_honest(self@, message@, challenge@);
            }
        }
        EdDSASignature { r: nonce_point, s }
    }
}

impl EdDSAPublicKey {
    /// The bytes that the challenge hash reads for `signature` on `message`:
    /// the domain separator, `R`, this public key and the message.
    pub fn challenge_input(&self, message: Base, signature: &EdDSASignature) -> (input: Vec<u8>)
        ensures
            input@ == challenge_preimage(message@, signature.r@, self.pk@),
    {
        challenge_hash_input(message, &signature.r, &self.pk)
    }

    /// Checks `signature` under the challenge `c` (the base field element that
    /// the challenge hash gives for `challenge_input`): `s` must be reduced,
    /// the public key and `R` on the curve, the public key not the identity,
    /// and `8 (s G - R - c Pk)` the identity.
    ///
    /// Every signature made by the signing rule for this key is accepted.
    /// When the public key is `a G` (`a` nonzero) and `R` is `r G`, the
    /// signature is accepted exactly when `s = r + c a`: so a signature made
    /// under another key or another challenge is rejected unless `c a` agrees.
    pub fn verify(&self, signature: &EdDSASignature, challenge: Base) -> (ok: bool)
        ensures
            ok == verification_holds(self.pk@, signature.r@, signature.s@, challenge@),
            is_honest_signature(
                self.pk@,
                signature.r@,
                signature.s@,
                challenge_scalar(challenge@),
            ) ==> ok,
            forall|nonce: nat, secret: nat|
                #![trigger generator_mul(nonce), generator_mul(secret)]
                nonce < scalar_modulus() && 0 < secret < scalar_modulus() && self.pk@
                    == generator_mul(secret) && signature.r@ == generator_mul(nonce) ==> (ok
                    <==> signature.s@ == (nonce + challenge_scalar(challenge@) * secret)
                    % scalar_modulus()),
    {
        let ghost c = challenge_scalar(challenge@);
        let ghost honest = is_honest_signature(self.pk@, signature.r@, signature.s@, c);
        if biguint_reaches_scalar_modulus(&signature.s) {
            proof {
                assert forall|nonce: nat, secret: nat|
                    #![trigger generator_mul(nonce), generator_mul(secret)]
                    nonce < scalar_modulus() && 0 < secret < scalar_modulus() && self.pk@
                        == generator_mul(secret) && signature.r@ == generator_mul(
                        nonce,
                    ) implies !(signature.s@ == (nonce + c * secret) % scalar_modulus()) by {
                    lemma_mod_bound((nonce + c * secret) as int, scalar_modulus() as int);
                }
            }
            return false;
        }
        let pk_zero = point_is_zero(&self.pk);
        let pk_on = point_is_on_curve(&self.pk);
        let r_on = point_is_on_curve(&signature.r);
        proof {
            if honest {
                let (nonce, secret) = choose|nonce: nat, secret: nat|
                    nonce < scalar_modulus() && 0 < secret < scalar_modulus() && self.pk@
                        == generator_mul(secret) && signature.r@ == generator_mul(nonce)
                        && signature.s@ == (nonce + c * secret) % scalar_modulus();
                assert(!pk_zero && pk_on && r_on);
            }
        }
        if pk_zero || !pk_on || !r_on {
            proof {
                assert forall|nonce: nat, secret: nat|
                    #![trigger generator_mul(nonce), generator_mul(secret)]
                    nonce < scalar_modulus() && 0 < secret < scalar_modulus() && self.pk@
                        == generator_mul(secret) && signature.r@ == generator_mul(
                        nonce,
                    ) implies !(signature.s@ == (nonce + c * secret) % scalar_modulus()) by {
                    assert(!pk_zero && pk_on && r_on);
                }
            }
            return false;
        }
        let c_scalar = convert_base_to_scalar(challenge);
        proof {
            lemma_small_mod(signature.s@, scalar_modulus());
            lemma_mod_twice((challenge@ % base_modulus()) as int, scalar_modulus() as int);
        }
        let s_times_g = generator_times(&signature.s);
        let c_times_pk = point_times(&self.pk, &c_scalar);
        let partial = point_minus(&s_times_g, &signature.r);
        let mut result = point_minus(&partial, &c_times_pk);
        let ghost diff = result@;
        result = point_doubled(&result);
        let ghost d1 = result@;
        result = point_doubled(&result);
        let ghost d2 = result@;
        result = point_doubled(&result);
        let ok = point_is_zero(&result);
        proof {
            if honest {
                let (nonce, secret) = choose|nonce: nat, secret: nat|
                    nonce < scalar_modulus() && 0 < secret < scalar_modulus() && self.pk@
                        == generator_mul(secret) && signature.r@ == generator_mul(nonce)
                        && signature.s@ == (nonce + c * secret) % scalar_modulus();
                let m = scalar_modulus() as int;
                let cs = (c * secret) % scalar_modulus();
                lemma_mul_is_commutative(c as int, secret as int);
                assert(s_times_g@ == generator_mul(signature.s@));
                lemma_sub_mod_noop((nonce + c * secret) as int, nonce as int, m);
                lemma_small_mod(nonce, scalar_modulus());
                assert(scalar_sub(signature.s@, nonce) == cs);
                assert(partial@ == generator_mul(cs));
                lemma_small_mod(c, scalar_modulus());
                assert(c_times_pk@ == generator_mul((secret * c) % scalar_modulus()));
                assert(scalar_sub(cs, cs) == 0);
                assert(diff == generator_mul(0));
                assert(d1 == generator_mul(0));
                assert(d2 == generator_mul(0));
                assert(result@ == generator_mul(0));
            }
            assert forall|nonce: nat, secret: nat|
                #![trigger generator_mul(nonce), generator_mul(secret)]
                nonce < scalar_modulus() && 0 < secret < scalar_modulus() && self.pk@
                    == generator_mul(secret) && signature.r@ == generator_mul(
                    nonce,
                ) implies (ok <==> signature.s@ == (nonce + c * secret) % scalar_modulus()) by {
                let m = scalar_modulus() as int;
                let x1 = scalar_sub(signature.s@, nonce);
                lemma_mod_bound(signature.s@ - nonce, m);
                assert(partial@ == generator_mul(x1));
                lemma_small_mod(c, scalar_modulus());
                let y = (secret * c) % scalar_modulus();
                assert(c_times_pk@ == generator_mul(y));
                let x = scalar_sub(x1, y);
                lemma_mod_bound(x1 - y, m);
                assert(diff == generator_mul(x));
                let x2 = (2 * x) % scalar_modulus();
                assert(d1 == generator_mul(x2));
                let x4 = (2 * x2) % scalar_modulus();
                assert(d2 == generator_mul(x4));
                let x8 = (2 * x4) % scalar_modulus();
                assert(result@ == generator_mul(x8));
                assert(ok <==> x8 == 0);
                lemma_double_mod_zero(x4);
                lemma_double_mod_zero(x2);
                lemma_double_mod_zero(x);
                lemma_verification_scalar(signature.s@, nonce, c, secret);
            }
        }
        ok
    }

    /// The compressed public key: `y` as 32 little-endian bytes, with the top
    /// bit of the last byte set when `x` is odd.
    pub fn to_compressed_bytes(&self) -> (out: Result<[u8; 32], EncodingError>)
        ensures
            out matches Ok(b) && b@ == compressed_point(self.pk@),
    {
        let mut buf = match fq_serialize_compressed(&self.pk.y) {
            Ok(v) => v,
            Err(_) => {
                return Err(EncodingError::Serialization);
            },
        };
        proof {
            lemma_le_fixed_len(self.pk@.1 % base_modulus(), 32);
        }
        let flag: u8 = if fq_is_odd(&self.pk.x) {
            0x80u8
        } else {
            0x00u8
        };
        let last: u8 = buf[31] | flag;
        buf.set(31, last);
        if buf.len() == 32 {
            let mut bytes = [0u8; 32];
            for i in 0..32
                invariant
                    buf@.len() == 32,
                    forall|j: int| 0 <= j < i ==> bytes@[j] == buf@[j],
            {
                bytes[i] = buf[i];
            }
            assert(bytes@ =~= compressed_point(self.pk@));
            Ok(bytes)
        } else {
            Err(EncodingError::Length(buf.len()))
        }
    }
}

impl EdDSASignature {
    /// The compressed signature: `R` compressed as a public key is, followed
    /// by `s` as 32 little-endian bytes.
    pub fn to_compressed_bytes(&self) -> (out: Result<[u8; 64], EncodingError>)
        ensures
            out matches Ok(b) && b@ == compressed_point(self.r@) + le_fixed(
                self.s@ % scalar_modulus(),
                32,
            ),
    {
        let mut buf = match fq_serialize_compressed(&self.r.y) {
            Ok(v) => v,
            Err(_) => {
                return Err(EncodingError::Serialization);
            },
        };
        proof {
            lemma_le_fixed_len(self.r@.1 % base_modulus(), 32);
            lemma_le_fixed_len(self.s@ % scalar_modulus(), 32);
        }
        let flag: u8 = if fq_is_odd(&self.r.x) {
            0x80u8
        } else {
            0x00u8
        };
        let last: u8 = buf[31] | flag;
        buf.set(31, last);
        let mut buf2 = match fr_serialize_compressed(&self.s) {
            Ok(v) => v,
            Err(_) => {
                return Err(EncodingError::Serialization);
            },
        };
        let ghost head = buf@;
        let ghost tail = buf2@;
        buf.append(&mut buf2);
        if buf.len() == 64 {
            let mut bytes = [0u8; 64];
            for i in 0..64
                invariant
                    buf@.len() == 64,
                    forall|j: int| 0 <= j < i ==> bytes@[j] == buf@[j],
            {
                bytes[i] = buf[i];
            }
            assert(head =~= compressed_point(self.r@));
            assert(bytes@ =~= head + tail);
            Ok(bytes)
        } else {
            Err(EncodingError::Length(buf.len()))
        }
    }
}

/// The nonce before its last reduction.
spec fn signing_nonce_unreduced(seed: Seq<u8>, message: nat) -> int {
    be_nat(blake3_xof64(nonce_hash_input(message, nonce_secret(seed)))@) as int
}

} // verus!
