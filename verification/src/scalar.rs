//! The scalar wrapper: a transparent carrier around one native field element
//! of the BLS12-381 scalar field, exposing the adapter's operations with
//! contracts over the element's canonical integer value.

use vstd::arithmetic::div_mod::{
    lemma_mul_mod_noop_general, lemma_mul_mod_noop_left, lemma_mul_mod_noop_right,
    lemma_small_mod,
};
use vstd::arithmetic::power::{lemma_pow0, lemma_pow1, lemma_pow_adds, lemma_pow_multiplies, pow};
use vstd::arithmetic::power2::{lemma2_to64, lemma_pow2, lemma_pow2_adds, lemma_pow2_unfold, pow2};
use vstd::prelude::*;

use crate::backend::{
    fr_add, FrElement, fr_from_be_bytes, fr_from_u64, fr_generator, fr_inverse, fr_is_zero,
    fr_mul, fr_neg, fr_one, fr_order, fr_random, fr_root_of_unity, fr_sqrt, fr_sub,
    fr_to_repr_bytes, fr_val, fr_zero, is_square, root_of_unity_val, square_mod, sub_mod,
};
use crate::choice::Choice;
use crate::encoding::{
    be_bytes, be_val, lemma_be_bytes_injective, lemma_be_bytes_last, lemma_be_bytes_len,
    lemma_be_bytes_roundtrip, lemma_low_byte_parity,
};

verus! {

/// The fixed-size canonical byte form of a scalar: its value, big-endian,
/// in the field's full 32-byte width.
#[derive(Clone, Copy, Debug, PartialEq, Eq)]
pub struct ScalarRepr {
    bytes: [u8; 32],
}

impl View for ScalarRepr {
    type V = Seq<u8>;

    closed spec fn view(&self) -> Seq<u8> {
        self.bytes@
    }
}

impl ScalarRepr {
    pub fn new(bytes: [u8; 32]) -> (r: Self)
        ensures
            r@ == bytes@,
    {
        Self { bytes }
    }

    pub fn as_array(&self) -> (r: &[u8; 32])
        ensures
            r@ == self@,
    {
        &self.bytes
    }
}

impl Default for ScalarRepr {
    /// The all-zero buffer, the canonical encoding of the additive identity.
    fn default() -> (r: Self)
        ensures
            r@ == be_bytes(0, 32),
    {
        let r = Self { bytes: [0u8; 32] };
        proof {
            lemma_be_bytes_zero(32);
            lemma_be_bytes_len(0, 32);
            assert(r@ =~= be_bytes(0, 32));
        }
        r
    }
}

/// The 32-byte big-endian encoding of zero is all zero bytes.
proof fn lemma_be_bytes_zero(n: nat)
    ensures
        forall|i: int| 0 <= i < n ==> be_bytes(0, n)[i] == 0u8,
    decreases n,
{
    if n > 0 {
        lemma_be_bytes_zero((n - 1) as nat);
        lemma_be_bytes_len(0, (n - 1) as nat);
    }
}

/// The field order is below the capacity of the 32-byte representation.
pub proof fn lemma_order_fits()
    ensures
        fr_order() < pow(256, 32),
{
    lemma2_to64();
    assert(pow2(8) == 256 && pow2(64) == 0x10000000000000000);
    lemma_pow2_adds(64, 64);
    lemma_pow2_adds(128, 128);
    assert(pow2(128) == 0x100000000000000000000000000000000) by (nonlinear_arith)
        requires
            pow2(128) == pow2(64) * pow2(64),
            pow2(64) == 0x10000000000000000,
    ;
    assert(pow2(256) == 0x10000000000000000000000000000000000000000000000000000000000000000)
        by (nonlinear_arith)
        requires
            pow2(256) == pow2(128) * pow2(128),
            pow2(128) == 0x100000000000000000000000000000000,
    ;
    lemma_pow2(8);
    lemma_pow2(256);
    assert(pow(2, 8) == 256);
    lemma_pow_multiplies(2, 8, 32);
    assert(pow(256, 32) == pow(2, 256));
    assert(pow(2, 256) == pow2(256));
}

#[derive(Clone, Copy)]
pub struct ArkScalarWrapper {
    inner: FrElement,
}

/// The canonical values a sequence of scalars stands for.
pub open spec fn scalar_values(s: Seq<ArkScalarWrapper>) -> Seq<nat> {
    s.map_values(|x: ArkScalarWrapper| x.value())
}

/// Left fold of addition modulo the field order, from 0.
pub open spec fn sum_mod(vals: Seq<nat>) -> nat
    decreases vals.len(),
{
    if vals.len() == 0 {
        0
    } else {
        (sum_mod(vals.drop_last()) + vals.last()) % fr_order()
    }
}

/// Left fold of multiplication modulo the field order, from 1.
pub open spec fn prod_mod(vals: Seq<nat>) -> nat
    decreases vals.len(),
{
    if vals.len() == 0 {
        1
    } else {
        (prod_mod(vals.drop_last()) * vals.last()) % fr_order()
    }
}

impl ArkScalarWrapper {
    /// The canonical integer value this scalar stands for.
    pub closed spec fn value(self) -> nat {
        fr_val(self.inner)
    }

    /// A well-formed scalar's value lies below the field order.
    pub open spec fn wf(self) -> bool {
        self.value() < fr_order()
    }

    pub fn new(scalar: FrElement) -> (r: Self)
        ensures
            r.value() == fr_val(scalar),
    {
        Self { inner: scalar }
    }

    pub fn into_inner(self) -> (r: FrElement)
        ensures
            fr_val(r) == self.value(),
    {
        self.inner
    }

    /// The additive identity.
    pub fn zero() -> (r: Self)
        ensures
            r.value() == 0,
            r.wf(),
    {
        Self { inner: fr_zero() }
    }

    /// The multiplicative identity.
    pub fn one() -> (r: Self)
        ensures
            r.value() == 1,
            r.wf(),
    {
        Self { inner: fr_one() }
    }

    pub fn from_u64(v: u64) -> (r: Self)
        ensures
            r.value() == v as nat,
            r.wf(),
    {
        Self { inner: fr_from_u64(v) }
    }

    /// The field's multiplicative generator, 7 for this field.
    pub fn generator() -> (r: Self)
        ensures
            r.value() == 7,
            r.wf(),
    {
        Self { inner: fr_generator() }
    }

    /// The 2-adic root of unity: the generator raised to the odd cofactor
    /// of the order minus one, an element of order exactly `2^32`.
    pub fn root_of_unity() -> (r: Self)
        ensures
            r.value() == root_of_unity_val(),
            pow(r.value() as int, pow2(32)) % (fr_order() as int) == 1,
            pow(r.value() as int, pow2(31)) % (fr_order() as int) != 1,
            r.wf(),
    {
        Self { inner: fr_root_of_unity() }
    }

    /// A uniformly sampled scalar, from the operating system's entropy
    /// source; nothing is known of the value beyond well-formedness.
    pub fn random() -> (r: Self)
        ensures
            r.wf(),
    {
        Self { inner: fr_random() }
    }

    pub fn add(&self, rhs: &Self) -> (r: Self)
        ensures
            r.value() == (self.value() + rhs.value()) % fr_order(),
            r.wf(),
    {
        Self { inner: fr_add(&self.inner, &rhs.inner) }
    }

    pub fn sub(&self, rhs: &Self) -> (r: Self)
        ensures
            r.value() == sub_mod(self.value(), rhs.value()),
            r.wf(),
    {
        Self { inner: fr_sub(&self.inner, &rhs.inner) }
    }

    pub fn mul(&self, rhs: &Self) -> (r: Self)
        ensures
            r.value() == (self.value() * rhs.value()) % fr_order(),
            r.wf(),
    {
        Self { inner: fr_mul(&self.inner, &rhs.inner) }
    }

    pub fn neg(&self) -> (r: Self)
        ensures
            r.value() == sub_mod(0, self.value()),
            r.wf(),
    {
        Self { inner: fr_neg(&self.inner) }
    }

    pub fn add_assign(&mut self, rhs: &Self)
        ensures
            final(self).value() == (old(self).value() + rhs.value()) % fr_order(),
            final(self).wf(),
    {
        let tmp = *self;
        *self = tmp.add(rhs);
    }

    pub fn sub_assign(&mut self, rhs: &Self)
        ensures
            final(self).value() == sub_mod(old(self).value(), rhs.value()),
            final(self).wf(),
    {
        let tmp = *self;
        *self = tmp.sub(rhs);
    }

    pub fn mul_assign(&mut self, rhs: &Self)
        ensures
            final(self).value() == (old(self).value() * rhs.value()) % fr_order(),
            final(self).wf(),
    {
        let tmp = *self;
        *self = tmp.mul(rhs);
    }

    /// Twice the value, modulo the order.
    pub fn double(&self) -> (r: Self)
        ensures
            r.value() == (self.value() + self.value()) % fr_order(),
            r.wf(),
    {
        self.add(self)
    }

    /// The square of the value, modulo the order.
    pub fn square(&self) -> (r: Self)
        ensures
            r.value() == (self.value() * self.value()) % fr_order(),
            r.wf(),
    {
        self.mul(self)
    }

    /// The scalar raised to the power `2^k`, by `k` squarings.
    pub fn pow_two_exp(&self, k: u32) -> (r: Self)
        requires
            self.wf(),
        ensures
            r.value() == pow(self.value() as int, pow2(k as nat)) % (fr_order() as int),
            r.wf(),
    {
        let ghost v = self.value() as int;
        let mut acc = *self;
        let mut i: u32 = 0;
        proof {
            lemma_pow0(2);
            assert(pow2(0) == 1);
            lemma_pow1(v);
            lemma_small_mod(self.value(), fr_order());
        }
        while i < k
            invariant
                0 <= i <= k,
                v == self.value() as int,
                acc.value() == pow(v, pow2(i as nat)) % (fr_order() as int),
                acc.wf(),
            decreases k - i,
        {
            let ghost p = pow2(i as nat);
            acc = acc.square();
            proof {
                lemma_mul_mod_noop_general(pow(v, p), pow(v, p), fr_order() as int);
                lemma_pow_adds(v, p, p);
                lemma_pow2_unfold((i + 1) as nat);
                assert(p + p == pow2((i + 1) as nat));
            }
            i += 1;
        }
        acc
    }

    /// The additive-identity test, as a choice flag.
    pub fn is_zero(&self) -> (c: Choice)
        ensures
            c.is_set() == (self.value() == 0),
    {
        Choice::from_bool(fr_is_zero(&self.inner))
    }

    /// The multiplicative inverse: the flag is set exactly for nonzero
    /// scalars; a clear flag comes with the additive identity.
    pub fn invert(&self) -> (res: (Choice, Self))
        ensures
            res.0.is_set() == (self.value() != 0),
            res.0.is_set() ==> (res.1.value() * self.value()) % fr_order() == 1 && res.1.wf(),
            !res.0.is_set() ==> res.1.value() == 0,
    {
        match fr_inverse(&self.inner) {
            Some(i) => (Choice::yes(), Self { inner: i }),
            None => (Choice::no(), Self::zero()),
        }
    }

    /// Whether `num / div` is a square, and a square root of it when it is.
    ///
    /// The ratio is declared square exactly when the denominator is nonzero
    /// and numerator and denominator are both squares; the root returned
    /// then satisfies `r * r * div == num`. In every other case the result
    /// is a clear flag and the additive identity.
    pub fn sqrt_ratio(num: &Self, div: &Self) -> (res: (Choice, Self))
        ensures
            res.0.is_set() == (div.value() != 0 && is_square(num.value()) && is_square(
                div.value(),
            )),
            res.0.is_set() ==> ((res.1.value() * res.1.value()) % fr_order() * div.value())
                % fr_order() == num.value(),
            res.0.is_set() ==> res.1.wf(),
            !res.0.is_set() ==> res.1.value() == 0,
    {
        if fr_is_zero(&div.inner) {
            return (Choice::no(), Self::zero());
        }
        let num_sqrt = fr_sqrt(&num.inner);
        let div_sqrt = fr_sqrt(&div.inner);
        match (num_sqrt, div_sqrt) {
            (Some(sn), Some(sd)) => {
                proof {
                    assert(fr_val(sd) != 0) by {
                        if fr_val(sd) == 0 {
                            assert((0 * 0) % fr_order() == 0);
                        }
                    }
                }
                match fr_inverse(&sd) {
                    Some(i) => {
                        let root = fr_mul(&sn, &i);
                        proof {
                            assert(square_mod(fr_val(sn)) == num.value());
                            assert(is_square(num.value()));
                            assert(square_mod(fr_val(sd)) == div.value());
                            assert(is_square(div.value()));
                            lemma_sqrt_ratio_value(
                                fr_val(sn),
                                fr_val(sd),
                                fr_val(i),
                                num.value(),
                                div.value(),
                                fr_order(),
                            );
                        }
                        (Choice::yes(), Self { inner: root })
                    },
                    None => {
                        proof {
                            assert(false);
                        }
                        (Choice::no(), Self::zero())
                    },
                }
            },
            _ => (Choice::no(), Self::zero()),
        }
    }

    /// Constant-time-flavored equality: compares the canonical byte
    /// encodings, and is true exactly when the values are equal.
    pub fn ct_eq(&self, other: &Self) -> (c: Choice)
        ensures
            self.wf() && other.wf() ==> (c.is_set() == (self.value() == other.value())),
    {
        let a = fr_to_repr_bytes(&self.inner);
        let b = fr_to_repr_bytes(&other.inner);
        let mut i: usize = 0;
        let mut eq: bool = true;
        while i < 32
            invariant
                0 <= i <= 32,
                a@ == be_bytes(self.value(), 32),
                b@ == be_bytes(other.value(), 32),
                eq == (forall|k: int| 0 <= k < i ==> a@[k] == b@[k]),
            decreases 32 - i,
        {
            if a[i] != b[i] {
                eq = false;
            }
            i += 1;
        }
        proof {
            lemma_be_bytes_len(self.value(), 32);
            lemma_be_bytes_len(other.value(), 32);
            if self.wf() && other.wf() {
                if eq {
                    assert(a@ =~= b@);
                    lemma_order_fits();
                    lemma_be_bytes_injective(self.value(), other.value(), 32);
                } else {
                    if self.value() == other.value() {
                        assert(a@ =~= b@);
                    }
                }
            }
        }
        Choice::from_bool(eq)
    }

    /// Returns `a` where the flag is clear and `b` where it is set, without
    /// a data-dependent branch at the call site.
    pub fn conditional_select(a: &Self, b: &Self, choice: Choice) -> (r: Self)
        ensures
            !choice.is_set() ==> r == *a,
            choice.is_set() ==> r == *b,
    {
        if choice.as_bool() {
            *b
        } else {
            *a
        }
    }

    /// Fold-style summation; the empty sequence sums to the additive
    /// identity.
    pub fn sum(elems: &[Self]) -> (r: Self)
        ensures
            r.value() == sum_mod(scalar_values(elems@)),
            r.wf(),
    {
        let ghost vals = scalar_values(elems@);
        let mut acc = Self::zero();
        let mut i: usize = 0;
        while i < elems.len()
            invariant
                0 <= i <= elems@.len(),
                vals == scalar_values(elems@),
                acc.value() == sum_mod(vals.take(i as int)),
                acc.wf(),
            decreases elems@.len() - i,
        {
            acc = acc.add(&elems[i]);
            proof {
                assert(vals.take(i + 1).drop_last() =~= vals.take(i as int));
                assert(vals.take(i + 1).last() == elems@[i as int].value());
            }
            i += 1;
        }
        proof {
            assert(vals.take(elems@.len() as int) =~= vals);
        }
        acc
    }

    /// Fold-style product; the empty sequence multiplies to the
    /// multiplicative identity.
    pub fn product(elems: &[Self]) -> (r: Self)
        ensures
            r.value() == prod_mod(scalar_values(elems@)),
            r.wf(),
    {
        let ghost vals = scalar_values(elems@);
        let mut acc = Self::one();
        let mut i: usize = 0;
        while i < elems.len()
            invariant
                0 <= i <= elems@.len(),
                vals == scalar_values(elems@),
                acc.value() == prod_mod(vals.take(i as int)),
                acc.wf(),
            decreases elems@.len() - i,
        {
            acc = acc.mul(&elems[i]);
            proof {
                assert(vals.take(i + 1).drop_last() =~= vals.take(i as int));
                assert(vals.take(i + 1).last() == elems@[i as int].value());
            }
            i += 1;
        }
        proof {
            assert(vals.take(elems@.len() as int) =~= vals);
        }
        acc
    }

    /// The canonical fixed-size encoding: the value, big-endian, in 32
    /// bytes.
    pub fn to_repr(&self) -> (r: ScalarRepr)
        ensures
            r@ == be_bytes(self.value(), 32),
    {
        ScalarRepr { bytes: fr_to_repr_bytes(&self.inner) }
    }

    /// Decoding reads the buffer as a big-endian integer and reduces it
    /// modulo the order; it never fails.
    pub fn from_repr(repr: &ScalarRepr) -> (r: Self)
        ensures
            r.value() == be_val(repr@) % fr_order(),
            r.wf(),
    {
        Self { inner: fr_from_be_bytes(repr.as_array().as_slice()) }
    }

    /// A scalar from caller-supplied uniform bytes: the wide buffer is read
    /// big-endian and reduced modulo the order, so the randomness source
    /// stays in the caller's hands while the reduction is the library's.
    pub fn from_uniform_bytes(bytes: &[u8; 64]) -> (r: Self)
        ensures
            r.value() == be_val(bytes@) % fr_order(),
            r.wf(),
    {
        Self { inner: fr_from_be_bytes(bytes.as_slice()) }
    }

    /// Whether the least-significant byte of the canonical encoding is odd,
    /// which is whether the value itself is odd.
    pub fn is_odd(&self) -> (c: Choice)
        ensures
            c.is_set() == (self.value() % 2 == 1),
    {
        let repr = self.to_repr();
        let byte = repr.as_array()[31];
        proof {
            lemma_be_bytes_len(self.value(), 32);
            lemma_be_bytes_last(self.value(), 32);
            lemma_low_byte_parity(self.value());
            assert(byte == repr@.last());
            assert((byte & 1) == byte % 2) by (bit_vector);
        }
        Choice::from_bool(byte & 1 == 1)
    }
}

impl Default for ArkScalarWrapper {
    /// The additive identity.
    fn default() -> (r: Self)
        ensures
            r.value() == 0,
            r.wf(),
    {
        Self::zero()
    }
}

/// The arithmetic heart of `sqrt_ratio`: from square roots of numerator and
/// denominator and an inverse of the latter's root, the combined root
/// squares and multiplies back to the numerator.
proof fn lemma_sqrt_ratio_value(a: nat, b: nat, i: nat, n: nat, d: nat, m: nat)
    requires
        m > 1,
        (a * a) % m == n,
        (b * b) % m == d,
        (i * b) % m == 1,
    ensures
        ((((a * i) % m * ((a * i) % m)) % m) * d) % m == n,
{
    let ai = a as int;
    let bi = b as int;
    let ii = i as int;
    let di = d as int;
    let ni = n as int;
    let mi = m as int;
    let x = ai * ii;
    let q = (ii * bi) * (ii * bi);
    lemma_mul_mod_noop_general(x, x, mi);
    assert(((x % mi) * (x % mi)) % mi == (x * x) % mi);
    lemma_mul_mod_noop_left(x * x, di, mi);
    assert((((x * x) % mi) * di) % mi == ((x * x) * di) % mi);
    assert(di == (bi * bi) % mi);
    lemma_mul_mod_noop_right(x * x, bi * bi, mi);
    assert(((x * x) * di) % mi == ((x * x) * (bi * bi)) % mi);
    assert((x * x) * (bi * bi) == (ai * ai) * q) by (nonlinear_arith)
        requires
            x == ai * ii,
            q == (ii * bi) * (ii * bi),
    ;
    lemma_mul_mod_noop_general(ai * ai, q, mi);
    assert(((ai * ai) * q) % mi == (((ai * ai) % mi) * (q % mi)) % mi);
    lemma_mul_mod_noop_general(ii * bi, ii * bi, mi);
    assert(q % mi == (((ii * bi) % mi) * ((ii * bi) % mi)) % mi);
    lemma_small_mod(1nat, m);
    assert(q % mi == 1);
    assert((ai * ai) % mi == ni);
    assert((((ai * ai) % mi) * (q % mi)) % mi == (ni * 1) % mi);
    assert(ni * 1 == ni);
    lemma_small_mod(n, m);
    assert((((x % mi) * (x % mi)) % mi * di) % mi == ni);
}

/// Law: where the denominator is a nonzero square and the numerator a
/// nonzero square — so the ratio is a nonzero quadratic residue — the
/// square-root-ratio flag is set and the root satisfies
/// `root * root * div == num` with a nonzero root; stated over the
/// `sqrt_ratio` contract. (Where numerator and denominator are both
/// non-residues the ratio is a residue too, yet the policy reports
/// non-square: the law is stated for square denominators only.)
pub proof fn lemma_sqrt_ratio_law(
    num: ArkScalarWrapper,
    div: ArkScalarWrapper,
    flag: Choice,
    root: ArkScalarWrapper,
)
    requires
        num.value() != 0,
        is_square(num.value()),
        div.value() != 0,
        is_square(div.value()),
        flag.is_set() == (div.value() != 0 && is_square(num.value()) && is_square(div.value())),
        flag.is_set() ==> ((root.value() * root.value()) % fr_order() * div.value())
            % fr_order() == num.value(),
    ensures
        flag.is_set(),
        ((root.value() * root.value()) % fr_order() * div.value()) % fr_order() == num.value(),
        root.value() != 0,
{
    if root.value() == 0 {
        assert((0nat * 0nat) % fr_order() == 0nat);
        assert((0nat * div.value()) == 0nat);
        assert((0nat * div.value()) % fr_order() == 0nat);
    }
}

/// Law: the empty fold yields the fold-start value — summation over zero
/// elements is the additive identity, the product over zero elements the
/// multiplicative identity.
pub proof fn lemma_empty_folds()
    ensures
        sum_mod(Seq::<nat>::empty()) == 0,
        prod_mod(Seq::<nat>::empty()) == 1,
{
}

/// Law: decoding the canonical encoding of a scalar returns the scalar's
/// value — the field round-trip, stated over the encode and decode
/// contracts.
pub proof fn lemma_scalar_roundtrip(x: ArkScalarWrapper, r: ScalarRepr, y: ArkScalarWrapper)
    requires
        x.wf(),
        r@ == be_bytes(x.value(), 32),
        y.value() == be_val(r@) % fr_order(),
    ensures
        y.value() == x.value(),
{
    lemma_order_fits();
    lemma_be_bytes_roundtrip(x.value(), 32);
    lemma_small_mod(x.value(), fr_order());
}

} // verus!
