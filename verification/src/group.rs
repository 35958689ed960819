//! The group wrapper: a transparent carrier around one native projective
//! point of the BLS12-381 G1 group, exposing the adapter's operations with
//! contracts over the point's discrete logarithm.

use vstd::arithmetic::div_mod::{lemma_add_mod_noop, lemma_mul_mod_noop_left};
use vstd::arithmetic::mul::lemma_mul_is_distributive_add_other_way;
use vstd::prelude::*;

use crate::backend::{
    dec_of, fr_order, g1_add, g1_eq, g1_from_compressed, g1_generator, g1_is_zero,
    g1_mul_fr, g1_neg, g1_ok, g1_random, g1_sub, g1_to_compressed, g1_val, g1_zero, sub_mod,
    G1Element,
};
use crate::choice::Choice;
use crate::scalar::{sum_mod, ArkScalarWrapper};

verus! {

/// The fixed-size canonical byte form of a point: the compressed encoding,
/// 48 bytes for this curve.
#[derive(Clone, Copy, Debug, PartialEq, Eq)]
pub struct PointRepr {
    bytes: [u8; 48],
}

impl View for PointRepr {
    type V = Seq<u8>;

    closed spec fn view(&self) -> Seq<u8> {
        self.bytes@
    }
}

impl PointRepr {
    pub fn new(bytes: [u8; 48]) -> (r: Self)
        ensures
            r@ == bytes@,
    {
        Self { bytes }
    }

    pub fn as_array(&self) -> (r: &[u8; 48])
        ensures
            r@ == self@,
    {
        &self.bytes
    }
}

impl Default for PointRepr {
    /// The all-zero buffer.
    fn default() -> (r: Self)
        ensures
            r@.len() == 48,
            forall|i: int| 0 <= i < 48 ==> r@[i] == 0u8,
    {
        Self { bytes: [0u8; 48] }
    }
}

#[derive(Clone, Copy)]
pub struct ArkGroupWrapper {
    inner: G1Element,
}

/// The discrete logarithms a sequence of points stands for.
pub open spec fn group_values(s: Seq<ArkGroupWrapper>) -> Seq<nat> {
    s.map_values(|x: ArkGroupWrapper| x.value())
}

/// Every point of the sequence is well formed.
pub open spec fn all_wf(s: Seq<ArkGroupWrapper>) -> bool {
    forall|k: int| 0 <= k < s.len() ==> (#[trigger] s[k]).wf()
}

impl ArkGroupWrapper {
    /// The discrete logarithm of the point with respect to the standard
    /// generator; meaningful only for well-formed points.
    pub closed spec fn value(self) -> nat {
        g1_val(self.inner)
    }

    /// Whether the carried point lies in the prime-order subgroup.
    pub closed spec fn in_subgroup(self) -> bool {
        g1_ok(self.inner)
    }

    /// A well-formed point lies in the prime-order subgroup, so its
    /// discrete logarithm lies below the group order.
    pub open spec fn wf(self) -> bool {
        self.in_subgroup() && self.value() < fr_order()
    }

    pub fn new(point: G1Element) -> (r: Self)
        ensures
            r.value() == g1_val(point),
            g1_ok(point) && g1_val(point) < fr_order() ==> r.wf(),
    {
        Self { inner: point }
    }

    pub fn into_inner(self) -> (r: G1Element)
        ensures
            g1_val(r) == self.value(),
            self.wf() ==> g1_ok(r) && g1_val(r) < fr_order(),
    {
        self.inner
    }

    /// The group identity, the point at infinity.
    pub fn identity() -> (r: Self)
        ensures
            r.value() == 0,
            r.wf(),
    {
        Self { inner: g1_zero() }
    }

    /// The standard generator, of discrete logarithm 1.
    pub fn generator() -> (r: Self)
        ensures
            r.value() == 1,
            r.wf(),
    {
        Self { inner: g1_generator() }
    }

    /// A uniformly sampled subgroup point, from the operating system's
    /// entropy source; nothing is known of the point beyond
    /// well-formedness.
    pub fn random() -> (r: Self)
        ensures
            r.wf(),
    {
        Self { inner: g1_random() }
    }

    pub fn add(&self, rhs: &Self) -> (r: Self)
        ensures
            self.wf() && rhs.wf() ==> r.wf() && r.value() == (self.value() + rhs.value())
                % fr_order(),
    {
        Self { inner: g1_add(&self.inner, &rhs.inner) }
    }

    pub fn sub(&self, rhs: &Self) -> (r: Self)
        ensures
            self.wf() && rhs.wf() ==> r.wf() && r.value() == sub_mod(
                self.value(),
                rhs.value(),
            ),
    {
        Self { inner: g1_sub(&self.inner, &rhs.inner) }
    }

    pub fn neg(&self) -> (r: Self)
        ensures
            self.wf() ==> r.wf() && r.value() == sub_mod(0, self.value()),
    {
        Self { inner: g1_neg(&self.inner) }
    }

    pub fn add_assign(&mut self, rhs: &Self)
        ensures
            old(self).wf() && rhs.wf() ==> final(self).wf() && final(self).value() == (old(
                self,
            ).value() + rhs.value()) % fr_order(),
    {
        let tmp = *self;
        *self = tmp.add(rhs);
    }

    pub fn sub_assign(&mut self, rhs: &Self)
        ensures
            old(self).wf() && rhs.wf() ==> final(self).wf() && final(self).value() == sub_mod(
                old(self).value(),
                rhs.value(),
            ),
    {
        let tmp = *self;
        *self = tmp.sub(rhs);
    }

    /// The point doubled: added to itself.
    pub fn double(&self) -> (r: Self)
        ensures
            self.wf() ==> r.wf() && r.value() == (self.value() + self.value()) % fr_order(),
    {
        self.add(self)
    }

    /// Scalar multiplication: the discrete logarithm is multiplied by the
    /// scalar's value, modulo the group order.
    pub fn mul(&self, scalar: &ArkScalarWrapper) -> (r: Self)
        ensures
            self.wf() ==> r.wf() && r.value() == (self.value() * scalar.value()) % fr_order(),
    {
        let fe = scalar.into_inner();
        Self { inner: g1_mul_fr(&self.inner, &fe) }
    }

    pub fn mul_assign(&mut self, scalar: &ArkScalarWrapper)
        ensures
            old(self).wf() ==> final(self).wf() && final(self).value() == (old(self).value()
                * scalar.value()) % fr_order(),
    {
        let tmp = *self;
        *self = tmp.mul(scalar);
    }

    /// The identity test, as a choice flag.
    pub fn is_identity(&self) -> (c: Choice)
        ensures
            self.wf() ==> (c.is_set() == (self.value() == 0)),
    {
        Choice::from_bool(g1_is_zero(&self.inner))
    }

    /// Constant-time-flavored equality of the underlying group elements.
    pub fn ct_eq(&self, other: &Self) -> (c: Choice)
        ensures
            self.wf() && other.wf() ==> (c.is_set() == (self.value() == other.value())),
    {
        Choice::from_bool(g1_eq(&self.inner, &other.inner))
    }

    /// Fold-style summation; the empty sequence sums to the identity.
    pub fn sum(elems: &[Self]) -> (r: Self)
        ensures
            all_wf(elems@) ==> r.wf() && r.value() == sum_mod(group_values(elems@)),
    {
        let ghost vals = group_values(elems@);
        let mut acc = Self::identity();
        let mut i: usize = 0;
        while i < elems.len()
            invariant
                0 <= i <= elems@.len(),
                vals == group_values(elems@),
                all_wf(elems@) ==> acc.wf() && acc.value() == sum_mod(vals.take(i as int)),
            decreases elems@.len() - i,
        {
            acc = acc.add(&elems[i]);
            proof {
                assert(vals.take(i + 1).drop_last() =~= vals.take(i as int));
                assert(vals.take(i + 1).last() == elems@[i as int].value());
            }
            i += 1;
        }
        proof {
            assert(vals.take(elems@.len() as int) =~= vals);
        }
        acc
    }

    /// The canonical fixed-size encoding: the compressed form of the point,
    /// always 48 bytes.
    pub fn to_bytes(&self) -> (r: PointRepr)
        ensures
            r@.len() == 48,
            self.wf() ==> dec_of(r@) == Some(self.value()),
    {
        PointRepr { bytes: g1_to_compressed(&self.inner) }
    }

    /// Decoding: the flag reports whether the buffer is the canonical
    /// encoding of a subgroup point; where it is not, the identity stands
    /// in for the missing point. This check is not constant-time: validity
    /// testing branches inside the wrapped library.
    pub fn from_bytes(repr: &PointRepr) -> (res: (Choice, Self))
        ensures
            res.0.is_set() == (dec_of(repr@) is Some),
            res.0.is_set() ==> res.1.wf() && dec_of(repr@) == Some(res.1.value()),
            !res.0.is_set() ==> res.1.wf() && res.1.value() == 0,
    {
        match g1_from_compressed(repr.as_array()) {
            Some(p) => (Choice::yes(), Self { inner: p }),
            None => (Choice::no(), Self::identity()),
        }
    }

    /// An alias for the checked decode: the wrapped library has no faster
    /// unchecked path.
    pub fn from_bytes_unchecked(repr: &PointRepr) -> (res: (Choice, Self))
        ensures
            res.0.is_set() == (dec_of(repr@) is Some),
            res.0.is_set() ==> res.1.wf() && dec_of(repr@) == Some(res.1.value()),
            !res.0.is_set() ==> res.1.wf() && res.1.value() == 0,
    {
        Self::from_bytes(repr)
    }
}

impl Default for ArkGroupWrapper {
    /// The group identity.
    fn default() -> (r: Self)
        ensures
            r.value() == 0,
            r.wf(),
    {
        Self::identity()
    }
}

/// Law: decoding the canonical encoding of a well-formed point succeeds and
/// returns a point of the same discrete logarithm — the group round-trip,
/// stated over the encode and decode contracts.
pub proof fn lemma_group_roundtrip(
    p: ArkGroupWrapper,
    r: PointRepr,
    flag: Choice,
    q: ArkGroupWrapper,
)
    requires
        p.wf(),
        dec_of(r@) == Some(p.value()),
        flag.is_set() == (dec_of(r@) is Some),
        flag.is_set() ==> dec_of(r@) == Some(q.value()),
    ensures
        flag.is_set(),
        q.value() == p.value(),
{
}

/// Law: scalar multiplication distributes over group addition — on the
/// discrete logarithms, `((x + y) * s) == (x * s) + (y * s)` modulo the
/// group order.
pub proof fn lemma_mul_distributes_over_add(x: nat, y: nat, s: nat)
    ensures
        ((x + y) % fr_order() * s) % fr_order() == ((x * s) % fr_order() + (y * s)
            % fr_order()) % fr_order(),
{
    let xi = x as int;
    let yi = y as int;
    let si = s as int;
    let mi = fr_order() as int;
    lemma_mul_mod_noop_left(xi + yi, si, mi);
    assert(((xi + yi) % mi * si) % mi == ((xi + yi) * si) % mi);
    lemma_mul_is_distributive_add_other_way(si, xi, yi);
    assert((xi + yi) * si == xi * si + yi * si);
    lemma_add_mod_noop(xi * si, yi * si, mi);
    assert((xi * si % mi + yi * si % mi) % mi == (xi * si + yi * si) % mi);
}

/// Law: the distributivity of scalar multiplication, stated over the
/// wrapper contracts — where `ab` is `a + b`, `l` is `ab * s`, and `r` is
/// `a * s + b * s`, the two sides carry the same discrete logarithm.
pub proof fn lemma_scalar_mul_distributes(
    a: ArkGroupWrapper,
    b: ArkGroupWrapper,
    s: ArkScalarWrapper,
    ab: ArkGroupWrapper,
    l: ArkGroupWrapper,
    ra: ArkGroupWrapper,
    rb: ArkGroupWrapper,
    r: ArkGroupWrapper,
)
    requires
        ab.value() == (a.value() + b.value()) % fr_order(),
        l.value() == (ab.value() * s.value()) % fr_order(),
        ra.value() == (a.value() * s.value()) % fr_order(),
        rb.value() == (b.value() * s.value()) % fr_order(),
        r.value() == (ra.value() + rb.value()) % fr_order(),
    ensures
        l.value() == r.value(),
{
    lemma_mul_distributes_over_add(a.value(), b.value(), s.value());
}

} // verus!
