//! The trusted boundary around the wrapped arithmetic library.
//!
//! Everything the crate believes about the wrapped field and curve arithmetic
//! is stated here, in one place: the opaque carrier types for native values,
//! the spec-level names for what those values hold, and one `external_body`
//! wrapper per arkworks operation the adapter relies on. Nothing else in the
//! crate is trusted.
//!
//! The model: a field element stands for its canonical integer value
//! (`fr_val`), and a point of the prime-order subgroup stands for its
//! discrete logarithm with respect to the standard generator (`g1_val`).
//! Under that reading every wrapped operation is plain modular arithmetic.

use ark_ff::{BigInteger, Field, PrimeField};
use ark_serialize::{CanonicalDeserialize, CanonicalSerialize};
use ark_std::UniformRand;
use vstd::arithmetic::power::pow;
use vstd::arithmetic::power2::pow2;
use vstd::prelude::*;

use crate::encoding::{be_bytes, be_val, dec_digits};

verus! {

// ---------------------------------------------------------------------------
// Opaque carriers for native values
// ---------------------------------------------------------------------------

/// One native element of the BLS12-381 scalar field, held opaquely; the
/// verified code reads it only through `fr_val`.
#[verifier::external_body]
pub struct FrElement {
    inner: ark_bls12_381::Fr,
}

impl Clone for FrElement {
    /// A clone carries the same native element.
    #[verifier::external_body]
    fn clone(&self) -> (r: Self)
        ensures
            r == *self,
    {
        FrElement { inner: self.inner }
    }
}

impl Copy for FrElement {}

/// One native projective point of the BLS12-381 G1 curve, held opaquely;
/// the verified code reads it only through `g1_ok` and `g1_val`.
#[verifier::external_body]
pub struct G1Element {
    inner: ark_bls12_381::G1Projective,
}

impl Clone for G1Element {
    /// A clone carries the same native point.
    #[verifier::external_body]
    fn clone(&self) -> (r: Self)
        ensures
            r == *self,
    {
        G1Element { inner: self.inner }
    }
}

impl Copy for G1Element {}

// ---------------------------------------------------------------------------
// The mathematical model
// ---------------------------------------------------------------------------

/// The order of the BLS12-381 scalar field, a prime; also the order of the
/// G1 subgroup.
pub open spec fn fr_order() -> nat {
    52435875175126190479447740508185965837690552500527637822603658699938581184513nat
}

/// The canonical integer a scalar-field element stands for, in `[0, fr_order())`.
pub uninterp spec fn fr_val(x: FrElement) -> nat;

/// Whether a projective point lies in the prime-order subgroup G1.
pub uninterp spec fn g1_ok(p: G1Element) -> bool;

/// The discrete logarithm of a subgroup point with respect to the standard
/// G1 generator; meaningful only where `g1_ok` holds.
pub uninterp spec fn g1_val(p: G1Element) -> nat;

/// What a 48-byte buffer decodes to under the canonical compressed G1
/// encoding: the decoded point's discrete logarithm, or `None` where the
/// buffer is not the canonical encoding of a subgroup point.
pub uninterp spec fn dec_of(bytes: Seq<u8>) -> Option<nat>;

/// The square of a canonical value, modulo the field order.
pub open spec fn square_mod(y: nat) -> nat {
    (y * y) % fr_order()
}

/// A quadratic residue: some canonical field element squares to `v`.
pub open spec fn is_square(v: nat) -> bool {
    exists|y: nat| y < fr_order() && square_mod(y) == v
}

/// Subtraction modulo the field order, on canonical values.
pub open spec fn sub_mod(a: nat, b: nat) -> nat {
    (((a as int) - (b as int)) % (fr_order() as int)) as nat
}

/// The canonical 2-adic root of unity: the multiplicative generator raised
/// to the odd cofactor of the order minus one.
pub open spec fn root_of_unity_val() -> int {
    pow(7, (((fr_order() - 1) as int) / (pow2(32) as int)) as nat) % (fr_order() as int)
}

// ---------------------------------------------------------------------------
// Field wrappers
// ---------------------------------------------------------------------------

/// Relies on `ark_ff`'s additive identity for `Fp`: `Zero::zero` is 0.
#[verifier::external_body]
pub(crate) fn fr_zero() -> (r: FrElement)
    ensures
        fr_val(r) == 0,
{
    FrElement { inner: <ark_bls12_381::Fr as ark_ff::Zero>::zero() }
}

/// Relies on `ark_ff`'s multiplicative identity for `Fp`: `One::one` is 1.
#[verifier::external_body]
pub(crate) fn fr_one() -> (r: FrElement)
    ensures
        fr_val(r) == 1,
{
    FrElement { inner: <ark_bls12_381::Fr as ark_ff::One>::one() }
}

/// Relies on `ark_ff`'s `From<u64>` for `Fp`, which reduces modulo the
/// order; the order exceeds `u64::MAX`, so the value is kept exactly.
#[verifier::external_body]
pub(crate) fn fr_from_u64(v: u64) -> (r: FrElement)
    ensures
        fr_val(r) == v as nat,
{
    FrElement { inner: ark_bls12_381::Fr::from(v) }
}

/// Relies on `ark_ff`'s `Add` for `Fp`: addition modulo the order.
#[verifier::external_body]
pub(crate) fn fr_add(a: &FrElement, b: &FrElement) -> (r: FrElement)
    ensures
        fr_val(r) == (fr_val(*a) + fr_val(*b)) % fr_order(),
{
    FrElement { inner: a.inner + b.inner }
}

/// Relies on `ark_ff`'s `Sub` for `Fp`: subtraction modulo the order.
#[verifier::external_body]
pub(crate) fn fr_sub(a: &FrElement, b: &FrElement) -> (r: FrElement)
    ensures
        fr_val(r) == sub_mod(fr_val(*a), fr_val(*b)),
{
    FrElement { inner: a.inner - b.inner }
}

/// Relies on `ark_ff`'s `Mul` for `Fp`: multiplication modulo the order.
#[verifier::external_body]
pub(crate) fn fr_mul(a: &FrElement, b: &FrElement) -> (r: FrElement)
    ensures
        fr_val(r) == (fr_val(*a) * fr_val(*b)) % fr_order(),
{
    FrElement { inner: a.inner * b.inner }
}

/// Relies on `ark_ff`'s `Neg` for `Fp`: negation modulo the order.
#[verifier::external_body]
pub(crate) fn fr_neg(a: &FrElement) -> (r: FrElement)
    ensures
        fr_val(r) == sub_mod(0, fr_val(*a)),
{
    FrElement { inner: -a.inner }
}

/// Relies on `ark_ff::Field::inverse`: the multiplicative inverse, absent
/// exactly for the additive identity.
#[verifier::external_body]
pub(crate) fn fr_inverse(a: &FrElement) -> (r: Option<FrElement>)
    ensures
        match r {
            Some(i) => fr_val(*a) != 0 && fr_val(i) < fr_order() && (fr_val(i) * fr_val(*a))
                % fr_order() == 1,
            None => fr_val(*a) == 0,
        },
{
    a.inner.inverse().map(|inner| FrElement { inner })
}

/// Relies on `ark_ff::Field::sqrt`: a square root of the element, absent
/// exactly when the element is not a quadratic residue (the square root of
/// the additive identity is the additive identity).
#[verifier::external_body]
pub(crate) fn fr_sqrt(a: &FrElement) -> (r: Option<FrElement>)
    ensures
        match r {
            Some(s) => fr_val(s) < fr_order() && (fr_val(s) * fr_val(s)) % fr_order() == fr_val(
                *a,
            ),
            None => !is_square(fr_val(*a)),
        },
{
    a.inner.sqrt().map(|inner| FrElement { inner })
}

/// Relies on `ark_ff`'s `Zero::is_zero` for `Fp`: the additive-identity test.
#[verifier::external_body]
pub(crate) fn fr_is_zero(a: &FrElement) -> (r: bool)
    ensures
        r == (fr_val(*a) == 0),
{
    <ark_bls12_381::Fr as ark_ff::Zero>::is_zero(&a.inner)
}

/// Relies on `ark_ff::PrimeField::into_bigint` and
/// `BigInteger::to_bytes_be`: the canonical value, big-endian, in the
/// field's full 32-byte width.
#[verifier::external_body]
pub(crate) fn fr_to_repr_bytes(x: &FrElement) -> (r: [u8; 32])
    ensures
        r@ == be_bytes(fr_val(*x), 32),
{
    x.inner.into_bigint().to_bytes_be().try_into().unwrap()
}

/// Relies on `ark_ff::PrimeField::from_be_bytes_mod_order`: reads the bytes
/// as a big-endian integer, of any length, and reduces it modulo the order.
#[verifier::external_body]
pub(crate) fn fr_from_be_bytes(bytes: &[u8]) -> (r: FrElement)
    ensures
        fr_val(r) == be_val(bytes@) % fr_order(),
{
    FrElement { inner: ark_bls12_381::Fr::from_be_bytes_mod_order(bytes) }
}

/// Relies on `ark_ff::UniformRand` for `Fp` with the operating system's
/// entropy source: some canonical field element; nothing is assumed about
/// which one.
#[verifier::external_body]
pub(crate) fn fr_random() -> (r: FrElement)
    ensures
        fr_val(r) < fr_order(),
{
    FrElement { inner: ark_bls12_381::Fr::rand(&mut rand_core::OsRng) }
}

/// Relies on `ark_ff::PrimeField::MODULUS` and its `Display`, which prints
/// the modulus in decimal.
#[verifier::external_body]
pub(crate) fn fr_modulus_string() -> (r: String)
    ensures
        r@ == dec_digits(fr_order()),
{
    format!("{}", <ark_bls12_381::Fr as PrimeField>::MODULUS)
}

/// Relies on `ark_ff::PrimeField::MODULUS_BIT_SIZE`: the order is a 255-bit
/// prime.
#[verifier::external_body]
pub(crate) fn fr_num_bits() -> (r: u32)
    ensures
        r == 255,
{
    <ark_bls12_381::Fr as PrimeField>::MODULUS_BIT_SIZE
}

/// Relies on `ark_ff::FftField::TWO_ADICITY`: the largest power of two
/// dividing the order minus one is 2^32.
#[verifier::external_body]
pub(crate) fn fr_two_adicity() -> (r: u32)
    ensures
        r == 32,
{
    <ark_bls12_381::Fr as ark_ff::FftField>::TWO_ADICITY
}

/// Relies on `ark_ff::FftField::GENERATOR`, declared as 7 in
/// `ark_bls12_381`'s field configuration.
#[verifier::external_body]
pub(crate) fn fr_generator() -> (r: FrElement)
    ensures
        fr_val(r) == 7,
{
    FrElement { inner: <ark_bls12_381::Fr as ark_ff::FftField>::GENERATOR }
}

/// Relies on `ark_ff::FftField::TWO_ADIC_ROOT_OF_UNITY`, which the field
/// configuration fixes as the generator 7 raised to the odd cofactor of the
/// order minus one (`root_of_unity_val`). Its 2^32-th power is 1 by
/// Fermat's little theorem; its 2^31-th power is the generator raised to
/// half the order minus one, which is -1, not 1, because the generator is a
/// quadratic non-residue — so the element's order is exactly 2^32.
#[verifier::external_body]
pub(crate) fn fr_root_of_unity() -> (r: FrElement)
    ensures
        fr_val(r) < fr_order(),
        fr_val(r) == root_of_unity_val(),
        pow(fr_val(r) as int, pow2(32)) % (fr_order() as int) == 1,
        pow(fr_val(r) as int, pow2(31)) % (fr_order() as int) != 1,
{
    FrElement { inner: <ark_bls12_381::Fr as ark_ff::FftField>::TWO_ADIC_ROOT_OF_UNITY }
}

// ---------------------------------------------------------------------------
// Group wrappers
// ---------------------------------------------------------------------------

/// Relies on `ark_ff`'s `Zero` for projective points: the point at infinity,
/// the group identity.
#[verifier::external_body]
pub(crate) fn g1_zero() -> (r: G1Element)
    ensures
        g1_ok(r),
        g1_val(r) == 0,
{
    G1Element { inner: <ark_bls12_381::G1Projective as ark_ff::Zero>::zero() }
}

/// Relies on `ark_ec::PrimeGroup::generator`: the standard G1 generator,
/// discrete logarithm 1 by definition.
#[verifier::external_body]
pub(crate) fn g1_generator() -> (r: G1Element)
    ensures
        g1_ok(r),
        g1_val(r) == 1,
{
    G1Element { inner: <ark_bls12_381::G1Projective as ark_ec::PrimeGroup>::generator() }
}

/// Relies on `ark_ec`'s `Add` for projective points: the group law, which on
/// subgroup points adds discrete logarithms modulo the group order.
#[verifier::external_body]
pub(crate) fn g1_add(a: &G1Element, b: &G1Element) -> (r: G1Element)
    ensures
        g1_ok(*a) && g1_ok(*b) ==> g1_ok(r) && g1_val(r) == (g1_val(*a) + g1_val(*b))
            % fr_order(),
{
    G1Element { inner: a.inner + b.inner }
}

/// Relies on `ark_ec`'s `Sub` for projective points.
#[verifier::external_body]
pub(crate) fn g1_sub(a: &G1Element, b: &G1Element) -> (r: G1Element)
    ensures
        g1_ok(*a) && g1_ok(*b) ==> g1_ok(r) && g1_val(r) == sub_mod(g1_val(*a), g1_val(*b)),
{
    G1Element { inner: a.inner - b.inner }
}

/// Relies on `ark_ec`'s `Neg` for projective points.
#[verifier::external_body]
pub(crate) fn g1_neg(a: &G1Element) -> (r: G1Element)
    ensures
        g1_ok(*a) ==> g1_ok(r) && g1_val(r) == sub_mod(0, g1_val(*a)),
{
    G1Element { inner: -a.inner }
}

/// Relies on `ark_ec`'s `Mul<Fr>` for projective points, which multiplies by
/// the scalar's canonical integer value.
#[verifier::external_body]
pub(crate) fn g1_mul_fr(p: &G1Element, s: &FrElement) -> (r: G1Element)
    ensures
        g1_ok(*p) ==> g1_ok(r) && g1_val(r) == (g1_val(*p) * fr_val(*s)) % fr_order(),
{
    G1Element { inner: p.inner * s.inner }
}

/// Relies on `ark_ff`'s `Zero::is_zero` for projective points: the identity
/// test.
#[verifier::external_body]
pub(crate) fn g1_is_zero(p: &G1Element) -> (r: bool)
    ensures
        g1_ok(*p) ==> r == (g1_val(*p) == 0),
{
    <ark_bls12_381::G1Projective as ark_ff::Zero>::is_zero(&p.inner)
}

/// Relies on `ark_ec`'s `PartialEq` for projective points, which compares
/// the underlying affine points.
#[verifier::external_body]
pub(crate) fn g1_eq(a: &G1Element, b: &G1Element) -> (r: bool)
    ensures
        g1_ok(*a) && g1_ok(*b) ==> r == (g1_val(*a) == g1_val(*b)),
{
    a.inner == b.inner
}

/// Relies on `ark_ff::UniformRand` for projective points with the operating
/// system's entropy source; sampling clears the cofactor, so the point lies
/// in the subgroup. Nothing is assumed about which point comes back.
#[verifier::external_body]
pub(crate) fn g1_random() -> (r: G1Element)
    ensures
        g1_ok(r),
        g1_val(r) < fr_order(),
{
    G1Element { inner: ark_bls12_381::G1Projective::rand(&mut rand_core::OsRng) }
}

/// Relies on `ark_serialize::CanonicalSerialize::serialize_compressed`: the
/// canonical 48-byte compressed encoding, from which deserialization
/// recovers the same point.
#[verifier::external_body]
pub(crate) fn g1_to_compressed(p: &G1Element) -> (r: [u8; 48])
    ensures
        g1_ok(*p) ==> dec_of(r@) == Some(g1_val(*p)),
{
    let mut buf = Vec::with_capacity(48);
    p.inner.serialize_compressed(&mut buf).unwrap();
    buf.try_into().unwrap()
}

/// Relies on `ark_serialize::CanonicalDeserialize::deserialize_compressed`,
/// which accepts exactly the canonical compressed encodings of points on the
/// curve and in the subgroup.
#[verifier::external_body]
pub(crate) fn g1_from_compressed(bytes: &[u8; 48]) -> (r: Option<G1Element>)
    ensures
        match r {
            Some(p) => g1_ok(p) && g1_val(p) < fr_order() && dec_of(bytes@) == Some(g1_val(p)),
            None => dec_of(bytes@) is None,
        },
{
    ark_bls12_381::G1Projective::deserialize_compressed(&bytes[..]).ok().map(
        |inner| G1Element { inner },
    )
}

} // verus!
