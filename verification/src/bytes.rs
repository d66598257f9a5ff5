//! Byte strings read as unsigned integers, and the key clamping rule.
use vstd::prelude::*;
use vstd::arithmetic::div_mod::{
    lemma_breakdown, lemma_fundamental_div_mod_converse_mod, lemma_small_mod,
};

verus! {

/// The integer that `s` encodes, least significant byte first.
pub open spec fn le_nat(s: Seq<u8>) -> nat
    decreases s.len(),
{
    if s.len() == 0 {
        0
    } else {
        s[0] as nat + 256 * le_nat(s.subrange(1, s.len() as int))
    }
}

/// The integer that `s` encodes, most significant byte first.
pub open spec fn be_nat(s: Seq<u8>) -> nat {
    le_nat(s.reverse())
}

/// `256` to the power `n`.
pub open spec fn pow256(n: nat) -> nat
    decreases n,
{
    if n == 0 {
        1
    } else {
        256 * pow256((n - 1) as nat)
    }
}

/// The `n` low-order bytes of `v`, least significant first.
pub open spec fn le_fixed(v: nat, n: nat) -> Seq<u8>
    decreases n,
{
    if n == 0 {
        Seq::empty()
    } else {
        seq![(v % 256) as u8] + le_fixed(v / 256, (n - 1) as nat)
    }
}

/// The `n` low-order bytes of `v`, most significant first.
pub open spec fn be_fixed(v: nat, n: nat) -> Seq<u8> {
    le_fixed(v, n).reverse()
}

pub proof fn lemma_pow256_positive(n: nat)
    ensures
        pow256(n) > 0,
    decreases n,
{
    if n > 0 {
        lemma_pow256_positive((n - 1) as nat);
    }
}

pub proof fn lemma_le_fixed_len(v: nat, n: nat)
    ensures
        le_fixed(v, n).len() == n,
    decreases n,
{
    if n > 0 {
        lemma_le_fixed_len(v / 256, (n - 1) as nat);
    }
}

/// Reading back the `n` low-order bytes of `v` gives `v` modulo `256^n`.
pub proof fn lemma_le_nat_of_le_fixed(v: nat, n: nat)
    ensures
        le_nat(le_fixed(v, n)) == v % pow256(n),
    decreases n,
{
    if n == 0 {
    } else {
        let rest = le_fixed(v / 256, (n - 1) as nat);
        let s = le_fixed(v, n);
        lemma_le_fixed_len(v, n);
        assert(s.subrange(1, s.len() as int) =~= rest);
        lemma_le_nat_of_le_fixed(v / 256, (n - 1) as nat);
        lemma_pow256_positive((n - 1) as nat);
        lemma_breakdown(v as int, 256, pow256((n - 1) as nat) as int);
    }
}

/// A byte string of length `n` encodes an integer below `256^n`.
pub proof fn lemma_le_nat_bound(s: Seq<u8>)
    ensures
        le_nat(s) < pow256(s.len()),
    decreases s.len(),
{
    if s.len() > 0 {
        let rest = s.subrange(1, s.len() as int);
        lemma_le_nat_bound(rest);
        assert(le_nat(s) == s[0] as nat + 256 * le_nat(rest));
        assert(256 * le_nat(rest) <= 256 * (pow256(rest.len()) - 1)) by (nonlinear_arith)
            requires le_nat(rest) < pow256(rest.len());
    }
}

/// The last byte of a little-endian string weighs `256^(n-1)`.
pub proof fn lemma_le_nat_split_last(s: Seq<u8>)
    requires
        s.len() > 0,
    ensures
        le_nat(s) == le_nat(s.subrange(0, s.len() - 1)) + pow256((s.len() - 1) as nat) * s[s.len() - 1],
    decreases s.len(),
{
    if s.len() == 1 {
        assert(s.subrange(1, 1) =~= Seq::<u8>::empty());
        assert(s.subrange(0, 0) =~= Seq::<u8>::empty());
        assert(le_nat(Seq::<u8>::empty()) == 0);
        assert(le_nat(s) == s[0] as nat + 256 * le_nat(s.subrange(1, 1)));
        assert(pow256(0) == 1);
    } else {
        let rest = s.subrange(1, s.len() as int);
        let init = s.subrange(0, s.len() - 1);
        lemma_le_nat_split_last(rest);
        assert(rest.subrange(0, rest.len() - 1) =~= init.subrange(1, init.len() as int));
        assert(rest[rest.len() - 1] == s[s.len() - 1]);
        let a = le_nat(init.subrange(1, init.len() as int));
        let p = pow256((rest.len() - 1) as nat);
        let b = s[s.len() - 1] as nat;
        assert(le_nat(rest) == a + p * b);
        assert(le_nat(s) == s[0] as nat + 256 * le_nat(rest));
        assert(le_nat(init) == init[0] as nat + 256 * a);
        assert(init[0] == s[0]);
        assert(pow256((s.len() - 1) as nat) == 256 * p);
        assert(256 * (a + p * b) == 256 * a + (256 * p) * b) by (nonlinear_arith);
    }
}

/// Reading back the `n` low-order bytes of `v`, most significant first, gives
/// `v` modulo `256^n`.
pub proof fn lemma_be_nat_of_be_fixed(v: nat, n: nat)
    ensures
        be_nat(be_fixed(v, n)) == v % pow256(n),
        be_fixed(v, n).len() == n,
{
    lemma_le_fixed_len(v, n);
    assert(be_fixed(v, n).reverse() =~= le_fixed(v, n));
    lemma_le_nat_of_le_fixed(v, n);
}

/// The last of the 32 little-endian bytes of a value below `2^255` has its top
/// bit clear.
pub proof fn lemma_le_fixed_top_byte(v: nat)
    requires
        v < 128 * pow256(31),
    ensures
        le_fixed(v, 32)[31] < 128,
{
    let s = le_fixed(v, 32);
    lemma_le_fixed_len(v, 32);
    lemma_le_nat_of_le_fixed(v, 32);
    reveal_with_fuel(pow256, 33);
    assert(pow256(32) == 256 * pow256(31));
    lemma_pow256_positive(31);
    lemma_small_mod(v, pow256(32));
    lemma_le_nat_split_last(s);
    let a = le_nat(s.subrange(0, 31));
    let b = s[31] as nat;
    let p = pow256(31);
    assert(b < 128) by (nonlinear_arith)
        requires
            a + p * b < 128 * p,
            p > 0,
    ;
}

/// The key clamping rule on a 32-byte string: clears the three low bits of
/// the first byte and the top bit of the last byte, and sets the bit below it.
pub open spec fn clamp(b: Seq<u8>) -> Seq<u8> {
    b.update(0, b[0] & 0xf8u8).update(31, (b[31] & 0x7fu8) | 0x40u8)
}

/// Clamping keeps every bit of the encoded integer but the three lowest and
/// the two highest: the clamped integer is `2^254` plus the input's value
/// below `2^254`, rounded down to a multiple of eight.
pub proof fn lemma_clamp_value(b: Seq<u8>)
    requires
        b.len() == 32,
    ensures
        le_nat(clamp(b)) == 64 * pow256(31) + le_nat(b) % (64 * pow256(31)) - le_nat(b) % 8,
{
    let c = clamp(b);
    let p = pow256(31);
    lemma_pow256_positive(31);
    let b0 = b[0];
    let b31 = b[31];
    let c0 = c[0];
    let c31 = c[31];
    assert(c0 == b0 & 0xf8u8);
    assert(c31 == (b31 & 0x7fu8) | 0x40u8);
    assert(c0 == b0 - b0 % 8) by (bit_vector)
        requires
            c0 == b0 & 0xf8u8,
    ;
    assert(c31 == b31 % 64 + 64) by (bit_vector)
        requires
            c31 == (b31 & 0x7fu8) | 0x40u8,
    ;
    // The value of the input.
    let v = le_nat(b);
    lemma_le_nat_split_last(b);
    let bi = b.subrange(0, 31);
    let a = le_nat(bi);
    lemma_le_nat_bound(bi);
    assert(v == a + p * b31);
    // The low 31 bytes change only in their first byte.
    let ci = c.subrange(0, 31);
    lemma_le_nat_split_last(c);
    assert(le_nat(c) == le_nat(ci) + p * c31);
    let rest = le_nat(bi.subrange(1, 31));
    assert(ci.subrange(1, 31) =~= bi.subrange(1, 31));
    assert(a == b0 as nat + 256 * rest);
    assert(le_nat(ci) == c0 as nat + 256 * rest);
    // The residue modulo 8 comes from the first byte.
    let r = le_nat(b.subrange(1, 32));
    assert(v == b0 as nat + 256 * r);
    assert(v % 8 == b0 % 8) by (nonlinear_arith)
        requires
            v == b0 as nat + 256 * r,
    ;
    // The residue below 2^254 drops bits 6 and 7 of the last byte.
    let low = a + p * (b31 % 64);
    let q = (b31 / 64) as int;
    assert(p * b31 == p * (b31 % 64) + (64 * p) * q) by (nonlinear_arith)
        requires
            q == b31 / 64,
    ;
    assert(low < 64 * p) by (nonlinear_arith)
        requires
            a < p,
            low == a + p * (b31 % 64),
    ;
    assert(v as int == q * (64 * p) + low) by (nonlinear_arith)
        requires
            v == a + p * b31,
            p * b31 == p * (b31 % 64) + (64 * p) * q,
            low == a + p * (b31 % 64),
    ;
    lemma_fundamental_div_mod_converse_mod(v as int, (64 * p) as int, q, low as int);
    assert(c31 as nat * p == p * (b31 % 64) + 64 * p) by (nonlinear_arith)
        requires
            c31 == b31 % 64 + 64,
    ;
}

/// A clamped string encodes a multiple of eight in `[2^254, 2^255)`.
pub proof fn lemma_clamped_shape(b: Seq<u8>)
    requires
        b.len() == 32,
    ensures
        le_nat(clamp(b)) % 8 == 0,
        64 * pow256(31) <= le_nat(clamp(b)) < 128 * pow256(31),
{
    let c = clamp(b);
    let c0 = c[0];
    let c31 = c[31];
    let b0 = b[0];
    let b31 = b[31];
    assert(c0 == b0 & 0xf8u8);
    assert(c31 == (b31 & 0x7fu8) | 0x40u8);
    assert(c0 % 8 == 0) by (bit_vector)
        requires
            c0 == b0 & 0xf8u8,
    ;
    assert(64 <= c31 <= 127) by (bit_vector)
        requires
            c31 == (b31 & 0x7fu8) | 0x40u8,
    ;
    let rest = c.subrange(1, 32);
    let r = le_nat(rest);
    assert(le_nat(c) == c0 as nat + 256 * r);
    assert((c0 as nat + 256 * r) % 8 == 0) by (nonlinear_arith)
        requires
            c0 % 8 == 0,
    ;
    lemma_le_nat_split_last(c);
    let init = c.subrange(0, 31);
    lemma_le_nat_bound(init);
    let a = le_nat(init);
    let p = pow256(31);
    assert(64 * p <= a + p * c31 < 128 * p) by (nonlinear_arith)
        requires
            a < p,
            64 <= c31 <= 127,
    ;
}

} // verus!
