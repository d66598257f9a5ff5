//! Elements of Jubjub's two prime fields, held as canonical little-endian
//! bytes, and the field operations that `ark-ff` performs on them.
//!
//! `Scalar` is an element of the scalar field (integers modulo the order
//! of Jubjub's prime-order subgroup); `Base` is an element of the base field
//! (the field of the curve's coordinates, the scalar field of BLS12-381).
use vstd::prelude::*;
use crate::bytes::{be_fixed, be_nat, le_fixed, le_nat};
use ark_ed_on_bls12_381::{Fq, Fr};
use ark_ff::{BigInteger, PrimeField};
use ark_serialize::{CanonicalSerialize, SerializationError};
use num_bigint::BigUint;

verus! {

/// The order of Jubjub's prime-order subgroup: the modulus of `Scalar`.
pub open spec fn scalar_modulus() -> nat {
    6554484396890773809930967563523245729705921265872317281365359162392183254199nat
}

/// The modulus of the base field `Base`.
pub open spec fn base_modulus() -> nat {
    52435875175126190479447740508185965837690552500527637822603658699938581184513nat
}

/// An element of the scalar field, stored as 32 little-endian bytes.
#[derive(Clone, Copy, Debug, PartialEq, Eq, Hash)]
pub struct Scalar {
    pub(crate) bytes: [u8; 32],
}

/// An element of the base field, stored as 32 little-endian bytes.
#[derive(Clone, Copy, Debug, PartialEq, Eq, Hash)]
pub struct Base {
    pub(crate) bytes: [u8; 32],
}

impl View for Scalar {
    type V = nat;

    closed spec fn view(&self) -> nat {
        le_nat(self.bytes@)
    }
}

impl View for Base {
    type V = nat;

    closed spec fn view(&self) -> nat {
        le_nat(self.bytes@)
    }
}

/// The error type of `ark-serialize`.
#[verifier::external_type_specification]
#[verifier::external_body]
pub struct ExSerializationError(SerializationError);

/// `Fr::from_le_bytes_mod_order`: reads `bytes` as a little-endian integer and
/// reduces it modulo the scalar modulus (its documentation says so). The
/// result is stored back through `into_bigint().to_bytes_le()`, which gives
/// the 32 little-endian bytes of the canonical representative.
#[verifier::external_body]
pub(crate) fn fr_from_le_bytes_mod_order(bytes: &[u8]) -> (out: Scalar)
    ensures
        out@ == le_nat(bytes@) % scalar_modulus(),
{
    let f = Fr::from_le_bytes_mod_order(bytes);
    let mut b = [0u8; 32];
    b.copy_from_slice(&f.into_bigint().to_bytes_le());
    Scalar { bytes: b }
}

/// `Fr::from_be_bytes_mod_order`: reads `bytes` as a big-endian integer and
/// reduces it modulo the scalar modulus (it reverses the bytes and reads them
/// little-endian).
#[verifier::external_body]
pub(crate) fn fr_from_be_bytes_mod_order(bytes: &[u8]) -> (out: Scalar)
    ensures
        out@ == be_nat(bytes@) % scalar_modulus(),
{
    let f = Fr::from_be_bytes_mod_order(bytes);
    let mut b = [0u8; 32];
    b.copy_from_slice(&f.into_bigint().to_bytes_le());
    Scalar { bytes: b }
}

/// `into_bigint().to_bytes_be()` on a scalar: the 32 big-endian bytes of its
/// canonical representative (four 64-bit limbs, reversed).
#[verifier::external_body]
pub(crate) fn fr_to_bytes_be(s: &Scalar) -> (out: [u8; 32])
    ensures
        out@ == be_fixed(s@ % scalar_modulus(), 32),
{
    let mut b = [0u8; 32];
    b.copy_from_slice(&Fr::from_le_bytes_mod_order(&s.bytes).into_bigint().to_bytes_be());
    b
}

/// `Fr + Fr`: addition modulo the scalar modulus.
#[verifier::external_body]
pub(crate) fn fr_add(a: &Scalar, b: &Scalar) -> (out: Scalar)
    ensures
        out@ == (a@ + b@) % scalar_modulus(),
{
    let f = Fr::from_le_bytes_mod_order(&a.bytes) + Fr::from_le_bytes_mod_order(&b.bytes);
    let mut o = [0u8; 32];
    o.copy_from_slice(&f.into_bigint().to_bytes_le());
    Scalar { bytes: o }
}

/// `Fr * Fr`: multiplication modulo the scalar modulus.
#[verifier::external_body]
pub(crate) fn fr_mul(a: &Scalar, b: &Scalar) -> (out: Scalar)
    ensures
        out@ == (a@ * b@) % scalar_modulus(),
{
    let f = Fr::from_le_bytes_mod_order(&a.bytes) * Fr::from_le_bytes_mod_order(&b.bytes);
    let mut o = [0u8; 32];
    o.copy_from_slice(&f.into_bigint().to_bytes_le());
    Scalar { bytes: o }
}

/// `BigUint >= BigUint` (`num-bigint`): compares the integer that the scalar's
/// bytes hold with `Fr::MODULUS`, both converted to `BigUint`.
#[verifier::external_body]
pub(crate) fn biguint_reaches_scalar_modulus(s: &Scalar) -> (out: bool)
    ensures
        out == (s@ >= scalar_modulus()),
{
    BigUint::from_bytes_le(&s.bytes) >= BigUint::from(Fr::MODULUS)
}

/// `serialize_compressed` of a scalar into a `Vec<u8>`: `ark-serialize`
/// writes the 32 little-endian bytes of the canonical representative, and
/// writing into a `Vec` does not fail.
#[verifier::external_body]
pub(crate) fn fr_serialize_compressed(s: &Scalar) -> (out: Result<Vec<u8>, SerializationError>)
    ensures
        out is Ok,
        out matches Ok(v) ==> v@ == le_fixed(s@ % scalar_modulus(), 32),
{
    let mut buf = Vec::new();
    match Fr::from_le_bytes_mod_order(&s.bytes).serialize_compressed(&mut buf) {
        Ok(()) => Ok(buf),
        Err(e) => Err(e),
    }
}

/// `Fq::from_le_bytes_mod_order`: reads `bytes` as a little-endian integer and
/// reduces it modulo the base modulus.
#[verifier::external_body]
pub(crate) fn fq_from_le_bytes_mod_order(bytes: &[u8]) -> (out: Base)
    ensures
        out@ == le_nat(bytes@) % base_modulus(),
{
    let f = Fq::from_le_bytes_mod_order(bytes);
    let mut b = [0u8; 32];
    b.copy_from_slice(&f.into_bigint().to_bytes_le());
    Base { bytes: b }
}

/// `Fq::from_be_bytes_mod_order`: reads `bytes` as a big-endian integer and
/// reduces it modulo the base modulus.
#[verifier::external_body]
pub(crate) fn fq_from_be_bytes_mod_order(bytes: &[u8]) -> (out: Base)
    ensures
        out@ == be_nat(bytes@) % base_modulus(),
{
    let f = Fq::from_be_bytes_mod_order(bytes);
    let mut b = [0u8; 32];
    b.copy_from_slice(&f.into_bigint().to_bytes_le());
    Base { bytes: b }
}

/// `into_bigint().to_bytes_be()` on a base field element.
#[verifier::external_body]
pub(crate) fn fq_to_bytes_be(b: &Base) -> (out: [u8; 32])
    ensures
        out@ == be_fixed(b@ % base_modulus(), 32),
{
    let mut o = [0u8; 32];
    o.copy_from_slice(&Fq::from_le_bytes_mod_order(&b.bytes).into_bigint().to_bytes_be());
    o
}

/// `into_bigint().to_bytes_le()` on a base field element.
#[verifier::external_body]
pub(crate) fn fq_to_bytes_le(b: &Base) -> (out: [u8; 32])
    ensures
        out@ == le_fixed(b@ % base_modulus(), 32),
{
    let mut o = [0u8; 32];
    o.copy_from_slice(&Fq::from_le_bytes_mod_order(&b.bytes).into_bigint().to_bytes_le());
    o
}

/// `into_bigint().is_odd()` on a base field element: the parity of its
/// canonical representative.
#[verifier::external_body]
pub(crate) fn fq_is_odd(b: &Base) -> (out: bool)
    ensures
        out == ((b@ % base_modulus()) % 2 == 1),
{
    Fq::from_le_bytes_mod_order(&b.bytes).into_bigint().is_odd()
}

/// `serialize_compressed` of a base field element into a `Vec<u8>`: the 32
/// little-endian bytes of its canonical representative; writing into a `Vec`
/// does not fail.
#[verifier::external_body]
pub(crate) fn fq_serialize_compressed(b: &Base) -> (out: Result<Vec<u8>, SerializationError>)
    ensures
        out is Ok,
        out matches Ok(v) ==> v@ == le_fixed(b@ % base_modulus(), 32),
{
    let mut buf = Vec::new();
    match Fq::from_le_bytes_mod_order(&b.bytes).serialize_compressed(&mut buf) {
        Ok(()) => Ok(buf),
        Err(e) => Err(e),
    }
}

impl Scalar {
    /// Reads `bytes` as a little-endian integer, reduced modulo the scalar modulus.
    pub fn from_le_bytes_mod_order(bytes: &[u8]) -> (out: Scalar)
        ensures
            out@ == le_nat(bytes@) % scalar_modulus(),
    {
        fr_from_le_bytes_mod_order(bytes)
    }
}

impl Base {
    /// Reads `bytes` as a little-endian integer, reduced modulo the base modulus.
    pub fn from_le_bytes_mod_order(bytes: &[u8]) -> (out: Base)
        ensures
            out@ == le_nat(bytes@) % base_modulus(),
    {
        fq_from_le_bytes_mod_order(bytes)
    }

    /// Reads `bytes` as a big-endian integer, reduced modulo the base modulus.
    pub fn from_be_bytes_mod_order(bytes: &[u8]) -> (out: Base)
        ensures
            out@ == be_nat(bytes@) % base_modulus(),
    {
        fq_from_be_bytes_mod_order(bytes)
    }

    /// The 32 little-endian bytes of the canonical representative.
    pub fn to_bytes_le(&self) -> (out: [u8; 32])
        ensures
            out@ == le_fixed(self@ % base_modulus(), 32),
    {
        fq_to_bytes_le(self)
    }
}

} // verus!
