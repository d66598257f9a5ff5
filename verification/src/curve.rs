//! Points of the Jubjub curve in affine coordinates, and the group operations
//! that `ark-ec` performs on them.
//!
//! Jubjub is the twisted Edwards curve `-x^2 + y^2 = 1 + d x^2 y^2` over the
//! base field; its generator spans a subgroup of prime order
//! `scalar_modulus()`, and its identity is the point `(0, 1)`.
use vstd::prelude::*;
use crate::field::{base_modulus, scalar_modulus, Base, Scalar};
use ark_ec::{AffineRepr, CurveGroup};
use ark_ed_on_bls12_381::{EdwardsAffine, Fq, Fr};
use ark_ff::{AdditiveGroup, BigInteger, PrimeField};

verus! {

/// A point given by its affine coordinates.
#[derive(Clone, Copy, Debug, PartialEq, Eq, Hash)]
pub struct Point {
    pub x: Base,
    pub y: Base,
}

impl View for Point {
    type V = (nat, nat);

    open spec fn view(&self) -> (nat, nat) {
        (self.x@, self.y@)
    }
}

/// The curve coefficient `d = -(10240/10241)` of Jubjub, reduced.
pub open spec fn edwards_d() -> nat {
    19257038036680949359750312669786877991949435402254120286184196891950884077233nat
}

/// Whether the coordinates satisfy `-x^2 + y^2 = 1 + d x^2 y^2` in the base field.
pub open spec fn on_curve(p: (nat, nat)) -> bool {
    let q = base_modulus() as int;
    let x = (p.0 % base_modulus()) as int;
    let y = (p.1 % base_modulus()) as int;
    (y * y - x * x) % q == (1 + edwards_d() * (x * x) * (y * y)) % q
}

/// Whether the coordinates are those of the identity `(0, 1)`.
pub open spec fn is_identity(p: (nat, nat)) -> bool {
    p.0 % base_modulus() == 0 && p.1 % base_modulus() == 1
}

/// `x - y` in the scalar field.
pub open spec fn scalar_sub(x: nat, y: nat) -> nat {
    ((x - y) % (scalar_modulus() as int)) as nat
}

/// The affine coordinates of `k` times the generator, as `ark-ec` computes them.
pub uninterp spec fn generator_mul(k: nat) -> (nat, nat);

/// The affine coordinates of `k` times the point `p`, as `ark-ec` computes them.
pub uninterp spec fn scaled_point(p: (nat, nat), k: nat) -> (nat, nat);

/// The affine coordinates of `a - b`, as `ark-ec` computes them.
pub uninterp spec fn point_difference(a: (nat, nat), b: (nat, nat)) -> (nat, nat);

/// The affine coordinates of `2 p`, as `ark-ec` computes them.
pub uninterp spec fn point_doubling(p: (nat, nat)) -> (nat, nat);

/// `EdwardsAffine::generator() * k`, normalized by `into_affine`.
///
/// Claimed: the result is named `generator_mul` of the reduced scalar; it lies
/// on the curve; and, the generator having prime order `scalar_modulus()`, it
/// is the identity exactly when the scalar is zero in the scalar field.
#[verifier::external_body]
pub(crate) fn generator_times(k: &Scalar) -> (out: Point)
    ensures
        out@ == generator_mul(k@ % scalar_modulus()),
        on_curve(out@),
        is_identity(out@) <==> k@ % scalar_modulus() == 0,
{
    let q = (EdwardsAffine::generator() * Fr::from_le_bytes_mod_order(&k.bytes)).into_affine();
    let mut x = [0u8; 32];
    x.copy_from_slice(&q.x.into_bigint().to_bytes_le());
    let mut y = [0u8; 32];
    y.copy_from_slice(&q.y.into_bigint().to_bytes_le());
    Point { x: Base { bytes: x }, y: Base { bytes: y } }
}

/// `p * k` on an affine point, normalized by `into_affine`.
///
/// Claimed, for a point on the curve (where the complete Edwards formulas
/// never meet a zero denominator): the result is named `scaled_point`; it lies
/// on the curve; and for `p = a G` it is `(a k) G`.
#[verifier::external_body]
pub(crate) fn point_times(p: &Point, k: &Scalar) -> (out: Point)
    requires
        on_curve(p@),
    ensures
        out@ == scaled_point(p@, k@ % scalar_modulus()),
        on_curve(out@),
        forall|a: nat|
            #![trigger generator_mul(a)]
            a < scalar_modulus() && p@ == generator_mul(a) ==> out@ == generator_mul(
                (a * (k@ % scalar_modulus())) % scalar_modulus(),
            ),
{
    let a = EdwardsAffine::new_unchecked(Fq::from_le_bytes_mod_order(&p.x.bytes), Fq::from_le_bytes_mod_order(&p.y.bytes));
    let q = (a * Fr::from_le_bytes_mod_order(&k.bytes)).into_affine();
    let mut x = [0u8; 32];
    x.copy_from_slice(&q.x.into_bigint().to_bytes_le());
    let mut y = [0u8; 32];
    y.copy_from_slice(&q.y.into_bigint().to_bytes_le());
    Point { x: Base { bytes: x }, y: Base { bytes: y } }
}

/// `a.into_group() - b`, normalized by `into_affine`.
///
/// Claimed, for points on the curve: the result is named `point_difference`;
/// it lies on the curve; and for `a = x G`, `b = y G` it is `(x - y) G`.
#[verifier::external_body]
pub(crate) fn point_minus(a: &Point, b: &Point) -> (out: Point)
    requires
        on_curve(a@),
        on_curve(b@),
    ensures
        out@ == point_difference(a@, b@),
        on_curve(out@),
        forall|x: nat, y: nat|
            #![trigger generator_mul(x), generator_mul(y)]
            x < scalar_modulus() && y < scalar_modulus() && a@ == generator_mul(x) && b@
                == generator_mul(y) ==> out@ == generator_mul(scalar_sub(x, y)),
{
    let pa = EdwardsAffine::new_unchecked(Fq::from_le_bytes_mod_order(&a.x.bytes), Fq::from_le_bytes_mod_order(&a.y.bytes));
    let pb = EdwardsAffine::new_unchecked(Fq::from_le_bytes_mod_order(&b.x.bytes), Fq::from_le_bytes_mod_order(&b.y.bytes));
    let q = (pa.into_group() - pb).into_affine();
    let mut x = [0u8; 32];
    x.copy_from_slice(&q.x.into_bigint().to_bytes_le());
    let mut y = [0u8; 32];
    y.copy_from_slice(&q.y.into_bigint().to_bytes_le());
    Point { x: Base { bytes: x }, y: Base { bytes: y } }
}

/// `double_in_place` on the projective form of `p`, normalized by `into_affine`.
///
/// Claimed, for a point on the curve: the result is named `point_doubling`; it
/// lies on the curve; and for `p = x G` it is `(2 x) G`.
#[verifier::external_body]
pub(crate) fn point_doubled(p: &Point) -> (out: Point)
    requires
        on_curve(p@),
    ensures
        out@ == point_doubling(p@),
        on_curve(out@),
        forall|x: nat|
            #![trigger generator_mul(x)]
            x < scalar_modulus() && p@ == generator_mul(x) ==> out@ == generator_mul(
                (2 * x) % scalar_modulus(),
            ),
{
    let mut g = EdwardsAffine::new_unchecked(Fq::from_le_bytes_mod_order(&p.x.bytes), Fq::from_le_bytes_mod_order(&p.y.bytes)).into_group();
    g.double_in_place();
    let q = g.into_affine();
    let mut x = [0u8; 32];
    x.copy_from_slice(&q.x.into_bigint().to_bytes_le());
    let mut y = [0u8; 32];
    y.copy_from_slice(&q.y.into_bigint().to_bytes_le());
    Point { x: Base { bytes: x }, y: Base { bytes: y } }
}

/// `Affine::is_zero`: `x` is zero and `y` is one.
///
/// Also claimed: for `p = x G` with `x` reduced, `p` is the identity exactly
/// when `x` is zero (the generator has prime order `scalar_modulus()`).
#[verifier::external_body]
pub(crate) fn point_is_zero(p: &Point) -> (out: bool)
    ensures
        out == is_identity(p@),
        forall|x: nat|
            #![trigger generator_mul(x)]
            x < scalar_modulus() && p@ == generator_mul(x) ==> (out <==> x == 0),
{
    EdwardsAffine::new_unchecked(Fq::from_le_bytes_mod_order(&p.x.bytes), Fq::from_le_bytes_mod_order(&p.y.bytes)).is_zero()
}

/// `Affine::is_on_curve`: checks `y^2 - x^2 == 1 + d x^2 y^2` in the base field.
///
/// Also claimed: every multiple of the generator is on the curve.
#[verifier::external_body]
pub(crate) fn point_is_on_curve(p: &Point) -> (out: bool)
    ensures
        out == on_curve(p@),
        forall|x: nat| #![trigger generator_mul(x)] p@ == generator_mul(x) ==> out,
{
    EdwardsAffine::new_unchecked(Fq::from_le_bytes_mod_order(&p.x.bytes), Fq::from_le_bytes_mod_order(&p.y.bytes)).is_on_curve()
}

} // verus!
