//! The constant-derivation pipeline: computes, once per supported field and
//! curve, the table of named constants the adapter's interface requires.
//!
//! Every arithmetic step here provably succeeds — the inversions cannot hit
//! the additive identity — so derivation has no failure path.

use vstd::arithmetic::power::{lemma0_pow, pow};
use vstd::arithmetic::power2::{lemma_pow2_pos, pow2};
use vstd::prelude::*;

use crate::backend::{
    dec_of, fr_modulus_string, fr_num_bits, fr_order, fr_two_adicity, root_of_unity_val,
};
use crate::encoding::{be_val, dec_digits, lemma_be_bytes_roundtrip};
use crate::group::{ArkGroupWrapper, PointRepr};
use crate::scalar::{lemma_order_fits, ArkScalarWrapper, ScalarRepr};

verus! {

/// The table of named constants for the scalar field: the modulus in
/// decimal, the bit sizes, the two-adicity, and the named field elements in
/// their canonical 32-byte big-endian form.
pub struct FieldConstantTable {
    pub modulus: String,
    pub num_bits: u32,
    pub capacity: u32,
    pub two_adicity: u32,
    pub zero: ScalarRepr,
    pub one: ScalarRepr,
    pub two_inv: ScalarRepr,
    pub generator: ScalarRepr,
    pub root_of_unity: ScalarRepr,
    pub root_of_unity_inv: ScalarRepr,
    pub delta: ScalarRepr,
}

/// The table of named constants for the curve: the compressed-point byte
/// length and the generator's compressed encoding.
pub struct CurveConstantTable {
    pub compressed_point_size: usize,
    pub generator_compressed: PointRepr,
}

/// The value a table entry encodes.
pub open spec fn entry_val(r: ScalarRepr) -> nat {
    be_val(r@)
}

/// Derives the field's constant table. Every step provably succeeds: the
/// elements inverted — two and the root of unity — are provably nonzero.
pub fn derive_field_table() -> (t: FieldConstantTable)
    ensures
        t.modulus@ == dec_digits(fr_order()),
        t.num_bits == 255,
        t.capacity == 254,
        t.two_adicity == 32,
        entry_val(t.zero) == 0,
        entry_val(t.one) == 1,
        (2 * entry_val(t.two_inv)) % fr_order() == 1,
        entry_val(t.two_inv) < fr_order(),
        entry_val(t.generator) == 7,
        entry_val(t.root_of_unity) == root_of_unity_val(),
        pow(entry_val(t.root_of_unity) as int, pow2(32)) % (fr_order() as int) == 1,
        pow(entry_val(t.root_of_unity) as int, pow2(31)) % (fr_order() as int) != 1,
        entry_val(t.root_of_unity) < fr_order(),
        (entry_val(t.root_of_unity) * entry_val(t.root_of_unity_inv)) % fr_order() == 1,
        entry_val(t.root_of_unity_inv) < fr_order(),
        entry_val(t.delta) == pow(7, pow2(32)) % (fr_order() as int),
{
    let modulus = fr_modulus_string();
    let num_bits = fr_num_bits();
    let capacity = num_bits - 1;
    let two_adicity = fr_two_adicity();

    let zero = ArkScalarWrapper::zero();
    let one = ArkScalarWrapper::one();

    let two = ArkScalarWrapper::from_u64(2);
    let (two_flag, two_inv) = two.invert();
    proof {
        assert(two_flag.is_set());
    }

    let generator = ArkScalarWrapper::generator();
    let root = ArkScalarWrapper::root_of_unity();
    proof {
        assert(root.value() != 0) by {
            if root.value() == 0 {
                lemma_pow2_pos(32);
                lemma0_pow(pow2(32));
            }
        }
    }
    let (root_flag, root_inv) = root.invert();
    proof {
        assert(root_flag.is_set());
    }

    let delta = generator.pow_two_exp(two_adicity);

    let t = FieldConstantTable {
        modulus,
        num_bits,
        capacity,
        two_adicity,
        zero: zero.to_repr(),
        one: one.to_repr(),
        two_inv: two_inv.to_repr(),
        generator: generator.to_repr(),
        root_of_unity: root.to_repr(),
        root_of_unity_inv: root_inv.to_repr(),
        delta: delta.to_repr(),
    };
    proof {
        lemma_order_fits();
        lemma_be_bytes_roundtrip(zero.value(), 32);
        lemma_be_bytes_roundtrip(one.value(), 32);
        lemma_be_bytes_roundtrip(two_inv.value(), 32);
        lemma_be_bytes_roundtrip(generator.value(), 32);
        lemma_be_bytes_roundtrip(root.value(), 32);
        lemma_be_bytes_roundtrip(root_inv.value(), 32);
        lemma_be_bytes_roundtrip(delta.value(), 32);
        assert((two_inv.value() * 2) % fr_order() == 1);
        assert(2 * two_inv.value() == two_inv.value() * 2);
        assert((root_inv.value() * root.value()) % fr_order() == 1);
        assert(root.value() * root_inv.value() == root_inv.value() * root.value());
    }
    t
}

/// Derives the curve's constant table: the generator's compressed encoding
/// and its byte length, fixed at 48 for this curve.
pub fn derive_curve_table() -> (t: CurveConstantTable)
    ensures
        t.compressed_point_size == 48,
        t.generator_compressed@.len() == 48,
        dec_of(t.generator_compressed@) == Some(1nat),
{
    let g = ArkGroupWrapper::generator();
    let repr = g.to_bytes();
    CurveConstantTable { compressed_point_size: 48, generator_compressed: repr }
}

} // verus!
