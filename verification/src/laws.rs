//! Properties of the signature scheme as a whole.
use vstd::prelude::*;
use crate::bytes::{
    be_fixed, be_nat, le_nat, lemma_be_nat_of_be_fixed, lemma_clamped_shape, lemma_le_fixed_len,
    lemma_le_fixed_top_byte, lemma_le_nat_of_le_fixed, le_fixed, pow256,
};
use crate::curve::{edwards_d, generator_mul, on_curve};
use crate::field::{base_modulus, scalar_modulus};
use vstd::arithmetic::div_mod::{
    lemma_mod_bound, lemma_mod_equivalence, lemma_mul_mod_noop_right, lemma_small_mod,
    lemma_sub_mod_noop,
};
use crate::keys::{
    challenge_preimage, challenge_scalar, clamped_value, compressed_point, dst_challenge_bytes,
    dst_challenge_value, dst_nonce_value, nonce_secret,
    expanded_key, is_honest_signature, lemma_clamped_zero_iff, nonce_hash_input, nonce_point,
    nonce_scalar, public_point, secret_scalar, signature_scalar,
    signing_nonce, verification_holds,
};

verus! {

/// `a b` modulo `n`.
pub open spec fn mul_mod(a: int, b: int, n: nat) -> int {
    (a * b) % (n as int)
}

/// Euclid's property of a prime `n`: a product is divisible by `n` only when
/// a factor is.
pub open spec fn euclid_prime(n: nat) -> bool {
    &&& n > 1
    &&& forall|a: int, b: int|
        #[trigger] mul_mod(a, b, n) == 0 ==> a % (n as int) == 0 || b % (n as int) == 0
}

/// Under a prime group order, a key's signature on a message is rejected under
/// any challenge that differs from its own in the scalar field (as a different
/// message gives): `c1 sk` and `c2 sk` differ, so `s` is not `r + c2 sk`, which
/// `verify` requires.
pub proof fn lemma_signature_rejected_under_other_challenge(
    seed: Seq<u8>,
    message: nat,
    challenge1: nat,
    challenge2: nat,
)
    requires
        euclid_prime(scalar_modulus()),
        secret_scalar(seed) != 0,
        challenge_scalar(challenge1) != challenge_scalar(challenge2),
    ensures
        signature_scalar(seed, message, challenge1) != (signing_nonce(seed, message)
            + challenge_scalar(challenge2) * secret_scalar(seed)) % scalar_modulus(),
{
    let m = scalar_modulus() as int;
    let c1 = challenge_scalar(challenge1) as int;
    let c2 = challenge_scalar(challenge2) as int;
    let a = secret_scalar(seed) as int;
    lemma_small_mod(c1 as nat, scalar_modulus());
    lemma_small_mod(c2 as nat, scalar_modulus());
    lemma_small_mod(a as nat, scalar_modulus());
    lemma_mod_equivalence(c1 * a, c2 * a, m);
    lemma_mod_equivalence(c1, c2, m);
    assert(c1 * a - c2 * a == (c1 - c2) * a) by (nonlinear_arith);
    assert(mul_mod(c1 - c2, a, scalar_modulus()) == (c1 * a - c2 * a) % m);
    lemma_mismatched_signature_rejected(
        signing_nonce(seed, message),
        c1 as nat,
        a as nat,
        c2 as nat,
        a as nat,
    );
}

/// Under a prime base modulus, the compressed form fixes a curve point: two
/// points on the curve with the same encoding have the same coordinates.
pub proof fn lemma_compressed_point_injective(p1: (nat, nat), p2: (nat, nat))
    requires
        euclid_prime(base_modulus()),
        on_curve(p1),
        on_curve(p2),
        compressed_point(p1) == compressed_point(p2),
    ensures
        p1.0 % base_modulus() == p2.0 % base_modulus(),
        p1.1 % base_modulus() == p2.1 % base_modulus(),
{
    lemma_compressed_point_fixes_y_and_parity(p1, p2);
    let q = base_modulus() as int;
    let d = edwards_d() as int;
    let x1 = (p1.0 % base_modulus()) as int;
    let x2 = (p2.0 % base_modulus()) as int;
    let y = (p1.1 % base_modulus()) as int;
    assert(y == (p2.1 % base_modulus()) as int);
    let e1 = y * y - x1 * x1 - (1 + d * (x1 * x1) * (y * y));
    let e2 = y * y - x2 * x2 - (1 + d * (x2 * x2) * (y * y));
    lemma_mod_equivalence(y * y - x1 * x1, 1 + d * (x1 * x1) * (y * y), q);
    lemma_mod_equivalence(y * y - x2 * x2, 1 + d * (x2 * x2) * (y * y), q);
    assert(e1 % q == 0 && e2 % q == 0);
    let k = 1 + d * (y * y);
    assert(e1 - e2 == (x2 * x2 - x1 * x1) * k) by (nonlinear_arith)
        requires
            e1 == y * y - x1 * x1 - (1 + d * (x1 * x1) * (y * y)),
            e2 == y * y - x2 * x2 - (1 + d * (x2 * x2) * (y * y)),
            k == 1 + d * (y * y),
    ;
    lemma_sub_mod_noop(e1, e2, q);
    assert(mul_mod(x2 * x2 - x1 * x1, k, base_modulus()) == 0);
    if k % q == 0 {
        // Then y^2 = 1, so 1 + d = 0, which the curve's d rules out.
        assert(e1 == (y * y - 1) - (x1 * x1) * k) by (nonlinear_arith)
            requires
                e1 == y * y - x1 * x1 - (1 + d * (x1 * x1) * (y * y)),
                k == 1 + d * (y * y),
        ;
        lemma_mul_mod_noop_right(x1 * x1, k, q);
        assert(((x1 * x1) * k) % q == 0);
        lemma_sub_mod_noop(e1, -((x1 * x1) * k), q);
        assert(e1 + (x1 * x1) * k == y * y - 1);
        lemma_mod_equivalence(e1, -((x1 * x1) * k), q);
        assert((y * y - 1) % q == 0);
        assert(k - (1 + d) == d * (y * y - 1)) by (nonlinear_arith)
            requires
                k == 1 + d * (y * y),
        ;
        lemma_mul_mod_noop_right(d, y * y - 1, q);
        lemma_mod_equivalence(k, 1 + d, q);
        lemma_small_mod((1 + d) as nat, base_modulus());
        assert(false);
    }
    assert(x2 * x2 - x1 * x1 == (x2 - x1) * (x2 + x1)) by (nonlinear_arith);
    assert(mul_mod(x2 - x1, x2 + x1, base_modulus()) == (x2 * x2 - x1 * x1) % q);
    if (x2 - x1) % q == 0 {
        lemma_mod_equivalence(x2, x1, q);
        lemma_small_mod(x1 as nat, base_modulus());
        lemma_small_mod(x2 as nat, base_modulus());
    } else {
        assert((x2 + x1) % q == 0);
        if x1 + x2 != 0 {
            lemma_small_mod((x1 + x2 - q) as nat, base_modulus());
            assert(x1 + x2 == q);
            assert(q % 2 == 1);
            assert(false);
        }
    }
}

/// Under a prime base modulus, the compressed signature fixes `R` (when it is
/// on the curve) and `s` in the scalar field.
pub proof fn lemma_compressed_signature_injective(
    r1: (nat, nat),
    s1: nat,
    r2: (nat, nat),
    s2: nat,
)
    requires
        euclid_prime(base_modulus()),
        on_curve(r1),
        on_curve(r2),
        compressed_point(r1) + le_fixed(s1 % scalar_modulus(), 32) == compressed_point(r2)
            + le_fixed(s2 % scalar_modulus(), 32),
    ensures
        r1.0 % base_modulus() == r2.0 % base_modulus(),
        r1.1 % base_modulus() == r2.1 % base_modulus(),
        s1 % scalar_modulus() == s2 % scalar_modulus(),
{
    lemma_compressed_signature_fixes_parts(r1, s1, r2, s2);
    let e1 = compressed_point(r1) + le_fixed(s1 % scalar_modulus(), 32);
    let e2 = compressed_point(r2) + le_fixed(s2 % scalar_modulus(), 32);
    lemma_le_fixed_len(r1.1 % base_modulus(), 32);
    lemma_le_fixed_len(r2.1 % base_modulus(), 32);
    assert(e1.subrange(0, 32) =~= compressed_point(r1));
    assert(e2.subrange(0, 32) =~= compressed_point(r2));
    lemma_compressed_point_injective(r1, r2);
}

/// The challenge input is six 32-byte big-endian blocks that read back as the
/// tag, `R.x`, `R.y`, `Pk.x`, `Pk.y` and the message, each as a base field
/// element (reduced modulo the base modulus, nothing more).
pub proof fn lemma_challenge_input_layout(message: nat, r: (nat, nat), pk: (nat, nat))
    ensures
        challenge_preimage(message, r, pk).len() == 192,
        be_nat(challenge_preimage(message, r, pk).subrange(0, 32)) == dst_challenge_value(),
        be_nat(challenge_preimage(message, r, pk).subrange(32, 64)) == r.0 % base_modulus(),
        be_nat(challenge_preimage(message, r, pk).subrange(64, 96)) == r.1 % base_modulus(),
        be_nat(challenge_preimage(message, r, pk).subrange(96, 128)) == pk.0 % base_modulus(),
        be_nat(challenge_preimage(message, r, pk).subrange(128, 160)) == pk.1 % base_modulus(),
        be_nat(challenge_preimage(message, r, pk).subrange(160, 192)) == message % base_modulus(),
{
    let i = challenge_preimage(message, r, pk);
    let vals = seq![
        dst_challenge_value(),
        r.0 % base_modulus(),
        r.1 % base_modulus(),
        pk.0 % base_modulus(),
        pk.1 % base_modulus(),
        message % base_modulus(),
    ];
    lemma_base_fits();
    assert forall|k: int| 0 <= k < 6 implies #[trigger] be_nat(be_fixed(vals[k], 32)) == vals[k]
        && be_fixed(vals[k], 32).len() == 32 by {
        lemma_be_nat_of_be_fixed(vals[k], 32);
        lemma_mod_bound(be_nat(dst_challenge_bytes()) as int, base_modulus() as int);
        lemma_small_mod(vals[k], pow256(32));
    }
    assert(be_nat(be_fixed(vals[0], 32)) == vals[0]);
    assert(be_nat(be_fixed(vals[1], 32)) == vals[1]);
    assert(be_nat(be_fixed(vals[2], 32)) == vals[2]);
    assert(be_nat(be_fixed(vals[3], 32)) == vals[3]);
    assert(be_nat(be_fixed(vals[4], 32)) == vals[4]);
    assert(be_nat(be_fixed(vals[5], 32)) == vals[5]);
    assert(i.subrange(0, 32) =~= be_fixed(vals[0], 32));
    assert(i.subrange(32, 64) =~= be_fixed(vals[1], 32));
    assert(i.subrange(64, 96) =~= be_fixed(vals[2], 32));
    assert(i.subrange(96, 128) =~= be_fixed(vals[3], 32));
    assert(i.subrange(128, 160) =~= be_fixed(vals[4], 32));
    assert(i.subrange(160, 192) =~= be_fixed(vals[5], 32));
}

/// The challenge input fixes the message, `R` and the public key as base
/// field elements: inputs that differ in any of them differ.
pub proof fn lemma_challenge_input_fixes_its_parts(
    m1: nat,
    r1: (nat, nat),
    pk1: (nat, nat),
    m2: nat,
    r2: (nat, nat),
    pk2: (nat, nat),
)
    requires
        challenge_preimage(m1, r1, pk1) == challenge_preimage(m2, r2, pk2),
    ensures
        m1 % base_modulus() == m2 % base_modulus(),
        r1.0 % base_modulus() == r2.0 % base_modulus(),
        r1.1 % base_modulus() == r2.1 % base_modulus(),
        pk1.0 % base_modulus() == pk2.0 % base_modulus(),
        pk1.1 % base_modulus() == pk2.1 % base_modulus(),
{
    lemma_challenge_input_layout(m1, r1, pk1);
    lemma_challenge_input_layout(m2, r2, pk2);
}

/// The nonce seed is the high half of the key's expansion, read little-endian,
/// as an element of the scalar field: it is below the group order and differs
/// from that integer by a multiple of the group order.
pub proof fn lemma_nonce_seed_is_high_half(seed: Seq<u8>)
    ensures
        nonce_secret(seed) < scalar_modulus(),
        (le_nat(expanded_key(seed).subrange(32, 64)) - nonce_secret(seed)) % (
        scalar_modulus() as int) == 0,
{
    let v = le_nat(expanded_key(seed).subrange(32, 64)) as int;
    let m = scalar_modulus() as int;
    lemma_mod_bound(v, m);
    lemma_small_mod(nonce_secret(seed), scalar_modulus());
    lemma_mod_equivalence(v, nonce_secret(seed) as int, m);
}

/// A key whose secret scalar is nonzero signs honestly: its signature on any
/// message, under any challenge, is `(r G, r + c sk)` for its public point
/// `sk G`, so verification with the public key and the same challenge accepts
/// it.
pub proof fn lemma_sign_is_honest(seed: Seq<u8>, message: nat, challenge: nat)
    requires
        secret_scalar(seed) != 0,
    ensures
        is_honest_signature(
            public_point(seed),
            nonce_point(seed, message),
            signature_scalar(seed, message, challenge),
            challenge_scalar(challenge),
        ),
{
    let nonce = signing_nonce(seed, message);
    let secret = secret_scalar(seed);
    assert(nonce < scalar_modulus());
    assert(secret < scalar_modulus());
    assert(public_point(seed) == generator_mul(secret));
    assert(nonce_point(seed, message) == generator_mul(nonce));
}

/// The clamped integer of every seed is a multiple of eight in
/// `[2^254, 2^255)`; in particular it is above the group order.
pub proof fn lemma_clamped_value_range(seed: Seq<u8>)
    ensures
        clamped_value(expanded_key(seed)) % 8 == 0,
        64 * pow256(31) <= clamped_value(expanded_key(seed)) < 128 * pow256(31),
        clamped_value(expanded_key(seed)) > scalar_modulus(),
{
    assert(expanded_key(seed).len() == 64);
    lemma_clamped_shape(expanded_key(seed).subrange(0, 32));
    reveal_with_fuel(pow256, 32);
}

/// The secret scalar of a seed is zero exactly when its clamped integer is
/// eight times the group order; every other seed has a nonzero secret.
pub proof fn lemma_secret_scalar_zero_iff(seed: Seq<u8>)
    ensures
        secret_scalar(seed) == 0 <==> clamped_value(expanded_key(seed)) == 8 * scalar_modulus(),
{
    lemma_clamped_value_range(seed);
    lemma_clamped_zero_iff(clamped_value(expanded_key(seed)));
}

/// The signer and the verifier hash the same bytes: for the public key and
/// the `R` of a key's signature on a message, the verifier's challenge input
/// equals the signer's.
pub proof fn lemma_challenge_inputs_agree(
    seed: Seq<u8>,
    message: nat,
    pk: (nat, nat),
    r: (nat, nat),
)
    requires
        pk == public_point(seed),
        r == nonce_point(seed, message),
    ensures
        challenge_preimage(message, r, pk) == challenge_preimage(
            message,
            nonce_point(seed, message),
            public_point(seed),
        ),
{
}

/// Verification rejects every unreduced `s` (so `s + L` is never accepted in
/// place of `s`).
pub proof fn lemma_verification_rejects_unreduced(
    pk: (nat, nat),
    r: (nat, nat),
    s: nat,
    challenge: nat,
)
    requires
        s >= scalar_modulus(),
    ensures
        !verification_holds(pk, r, s, challenge),
{
}

/// The base field is larger than the scalar field, so carrying a challenge
/// into the scalar field keeps its value exactly when that value is below the
/// scalar modulus.
pub proof fn lemma_challenge_scalar_keeps_small_values(challenge: nat)
    ensures
        base_modulus() > scalar_modulus(),
        (challenge_scalar(challenge) == challenge % base_modulus()) <==> (challenge
            % base_modulus() < scalar_modulus()),
{
    let v = challenge % base_modulus();
    if v < scalar_modulus() {
        lemma_small_mod(v, scalar_modulus());
    } else {
        lemma_mod_bound(v as int, scalar_modulus() as int);
    }
}

/// An honest signature `(r G, r + c1 a1)` meets the verification rule for the
/// public point `a2 G` under the scalar challenge `c2` only when
/// `c1 a1 = c2 a2` in the scalar field: under any other key or challenge for
/// which the products differ, its `s` is not `r + c2 a2`, and `verify`
/// rejects it.
pub proof fn lemma_mismatched_signature_rejected(nonce: nat, c1: nat, a1: nat, c2: nat, a2: nat)
    requires
        (c1 * a1) % scalar_modulus() != (c2 * a2) % scalar_modulus(),
    ensures
        (nonce + c1 * a1) % scalar_modulus() != (nonce + c2 * a2) % scalar_modulus(),
{
    let m = scalar_modulus() as int;
    lemma_mod_equivalence((nonce + c1 * a1) as int, (nonce + c2 * a2) as int, m);
    lemma_mod_equivalence((c1 * a1) as int, (c2 * a2) as int, m);
    assert((nonce + c1 * a1) - (nonce + c2 * a2) == (c1 * a1) - (c2 * a2));
}

/// A key's signature on a message under one challenge is rejected by the
/// public key of a second key (the same key included) under a second
/// challenge whenever `c1 sk1` and `c2 sk2` differ in the scalar field: its
/// `s` is not `r + c2 sk2`, which `verify` requires of the second public point.
pub proof fn lemma_signature_rejected_elsewhere(
    seed1: Seq<u8>,
    seed2: Seq<u8>,
    message: nat,
    challenge1: nat,
    challenge2: nat,
)
    requires
        (challenge_scalar(challenge1) * secret_scalar(seed1)) % scalar_modulus() != (
        challenge_scalar(challenge2) * secret_scalar(seed2)) % scalar_modulus(),
    ensures
        signature_scalar(seed1, message, challenge1) != (signing_nonce(seed1, message)
            + challenge_scalar(challenge2) * secret_scalar(seed2)) % scalar_modulus(),
{
    lemma_mismatched_signature_rejected(
        signing_nonce(seed1, message),
        challenge_scalar(challenge1),
        secret_scalar(seed1),
        challenge_scalar(challenge2),
        secret_scalar(seed2),
    );
}

/// The nonce depends only on the message and the nonce seed as field
/// elements: equal residues give equal nonces.
pub proof fn lemma_nonce_is_deterministic(m1: nat, m2: nat, s1: nat, s2: nat)
    requires
        m1 % base_modulus() == m2 % base_modulus(),
        s1 % scalar_modulus() == s2 % scalar_modulus(),
    ensures
        nonce_scalar(m1, s1) == nonce_scalar(m2, s2),
{
    assert(nonce_hash_input(m1, s1) == nonce_hash_input(m2, s2));
}

/// Different messages make the nonce hash read different bytes: the input
/// fixes the message as a field element.
pub proof fn lemma_nonce_input_distinguishes_messages(m1: nat, m2: nat, secret: nat)
    requires
        m1 % base_modulus() != m2 % base_modulus(),
    ensures
        nonce_hash_input(m1, secret) != nonce_hash_input(m2, secret),
{
    let i1 = nonce_hash_input(m1, secret);
    let i2 = nonce_hash_input(m2, secret);
    lemma_be_nat_of_be_fixed(dst_nonce_value(), 32);
    lemma_be_nat_of_be_fixed(secret % scalar_modulus(), 32);
    lemma_be_nat_of_be_fixed(m1 % base_modulus(), 32);
    lemma_be_nat_of_be_fixed(m2 % base_modulus(), 32);
    lemma_base_fits();
    lemma_small_mod(m1 % base_modulus(), pow256(32));
    lemma_small_mod(m2 % base_modulus(), pow256(32));
    if i1 == i2 {
        assert(i1.subrange(64, 96) =~= be_fixed(m1 % base_modulus(), 32));
        assert(i2.subrange(64, 96) =~= be_fixed(m2 % base_modulus(), 32));
    }
}

/// The compressed form of a point fixes `y` and the parity of `x` in the base
/// field.
pub proof fn lemma_compressed_point_fixes_y_and_parity(p1: (nat, nat), p2: (nat, nat))
    requires
        compressed_point(p1) == compressed_point(p2),
    ensures
        p1.1 % base_modulus() == p2.1 % base_modulus(),
        (p1.0 % base_modulus()) % 2 == (p2.0 % base_modulus()) % 2,
{
    let v1 = p1.1 % base_modulus();
    let v2 = p2.1 % base_modulus();
    let y1 = le_fixed(v1, 32);
    let y2 = le_fixed(v2, 32);
    lemma_le_fixed_len(v1, 32);
    lemma_le_fixed_len(v2, 32);
    lemma_base_fits();
    lemma_le_fixed_top_byte(v1);
    lemma_le_fixed_top_byte(v2);
    let f1: u8 = if (p1.0 % base_modulus()) % 2 == 1 { 0x80u8 } else { 0u8 };
    let f2: u8 = if (p2.0 % base_modulus()) % 2 == 1 { 0x80u8 } else { 0u8 };
    let a1 = y1[31];
    let a2 = y2[31];
    assert(compressed_point(p1)[31] == a1 | f1);
    assert(compressed_point(p2)[31] == a2 | f2);
    assert(a1 == a2 && f1 == f2) by (bit_vector)
        requires
            a1 < 128,
            a2 < 128,
            f1 == 0x80u8 || f1 == 0u8,
            f2 == 0x80u8 || f2 == 0u8,
            a1 | f1 == a2 | f2,
    ;
    assert forall|i: int| 0 <= i < 32 implies y1[i] == y2[i] by {
        if i != 31 {
            assert(compressed_point(p1)[i] == y1[i]);
            assert(compressed_point(p2)[i] == y2[i]);
        }
    }
    assert(y1 =~= y2);
    lemma_le_nat_of_le_fixed(v1, 32);
    lemma_le_nat_of_le_fixed(v2, 32);
    reveal_with_fuel(pow256, 33);
    lemma_small_mod(v1, pow256(32));
    lemma_small_mod(v2, pow256(32));
}

/// The compressed signature fixes `R.y`, the parity of `R.x`, and `s` in the
/// scalar field.
pub proof fn lemma_compressed_signature_fixes_parts(
    r1: (nat, nat),
    s1: nat,
    r2: (nat, nat),
    s2: nat,
)
    requires
        compressed_point(r1) + le_fixed(s1 % scalar_modulus(), 32) == compressed_point(r2)
            + le_fixed(s2 % scalar_modulus(), 32),
    ensures
        r1.1 % base_modulus() == r2.1 % base_modulus(),
        (r1.0 % base_modulus()) % 2 == (r2.0 % base_modulus()) % 2,
        s1 % scalar_modulus() == s2 % scalar_modulus(),
{
    let e1 = compressed_point(r1) + le_fixed(s1 % scalar_modulus(), 32);
    let e2 = compressed_point(r2) + le_fixed(s2 % scalar_modulus(), 32);
    lemma_le_fixed_len(r1.1 % base_modulus(), 32);
    lemma_le_fixed_len(r2.1 % base_modulus(), 32);
    lemma_le_fixed_len(s1 % scalar_modulus(), 32);
    lemma_le_fixed_len(s2 % scalar_modulus(), 32);
    assert(e1.subrange(0, 32) =~= compressed_point(r1));
    assert(e2.subrange(0, 32) =~= compressed_point(r2));
    assert(e1.subrange(32, 64) =~= le_fixed(s1 % scalar_modulus(), 32));
    assert(e2.subrange(32, 64) =~= le_fixed(s2 % scalar_modulus(), 32));
    lemma_compressed_point_fixes_y_and_parity(r1, r2);
    lemma_le_nat_of_le_fixed(s1 % scalar_modulus(), 32);
    lemma_le_nat_of_le_fixed(s2 % scalar_modulus(), 32);
    lemma_base_fits();
    lemma_small_mod(s1 % scalar_modulus(), pow256(32));
    lemma_small_mod(s2 % scalar_modulus(), pow256(32));
}

/// Both moduli are below `2^255`.
proof fn lemma_base_fits()
    ensures
        base_modulus() < 128 * pow256(31),
        scalar_modulus() < base_modulus(),
        pow256(32) == 256 * pow256(31),
{
    reveal_with_fuel(pow256, 33);
    assert(pow256(31) == 452312848583266388373324160190187140051835877600158453279131187530910662656nat);
}

} // verus!
