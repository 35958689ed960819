use ark_ff::{BigInteger, PrimeField};
use arkwrap::{ArkScalarWrapper, Choice, ScalarRepr};

fn scalar(v: u64) -> ArkScalarWrapper {
    ArkScalarWrapper::from_u64(v)
}

fn assert_same(a: &ArkScalarWrapper, b: &ArkScalarWrapper) {
    assert_eq!(a.ct_eq(b).unwrap_u8(), 1u8);
}

#[test]
fn scalar_roundtrip_small() {
    let x = scalar(123456789);
    let repr = x.to_repr();
    let y = ArkScalarWrapper::from_repr(&repr);
    assert_same(&x, &y);
}

#[test]
fn scalar_roundtrip_random() {
    for _ in 0..8 {
        let x = ArkScalarWrapper::random();
        let y = ArkScalarWrapper::from_repr(&x.to_repr());
        assert_same(&x, &y);
    }
}

#[test]
fn scalar_decode_wraps_out_of_range() {
    // An all-0xFF buffer exceeds the order: decoding reduces it and never
    // fails, and the reduced value round-trips exactly.
    let big = ScalarRepr::new([0xFFu8; 32]);
    let z = ArkScalarWrapper::from_repr(&big);
    let z2 = ArkScalarWrapper::from_repr(&z.to_repr());
    assert_same(&z, &z2);
    assert_ne!(z.to_repr().as_array(), big.as_array());
}

#[test]
fn scalar_encode_exact_values() {
    let mut one_bytes = [0u8; 32];
    one_bytes[31] = 1;
    assert_eq!(ArkScalarWrapper::one().to_repr().as_array(), &one_bytes);
    assert_eq!(ArkScalarWrapper::zero().to_repr().as_array(), &[0u8; 32]);
    let mut v_bytes = [0u8; 32];
    v_bytes[30] = 1;
    v_bytes[31] = 2;
    assert_eq!(scalar(258).to_repr().as_array(), &v_bytes);
}

#[test]
fn scalar_matches_native_arithmetic() {
    // Cross-check one product against the wrapped library computed directly.
    let lib = scalar(1234567).mul(&scalar(7654321));
    let native = ark_bls12_381::Fr::from(1234567u64) * ark_bls12_381::Fr::from(7654321u64);
    let native_bytes: [u8; 32] = native.into_bigint().to_bytes_be().try_into().unwrap();
    assert_eq!(lib.to_repr().as_array(), &native_bytes);
}

#[test]
fn scalar_ct_eq_iff_equal() {
    let a = scalar(42);
    let b = scalar(42);
    let c = scalar(43);
    assert_eq!(a.ct_eq(&b).unwrap_u8(), 1u8);
    assert_eq!(a.ct_eq(&c).unwrap_u8(), 0u8);
    // Equality across construction paths.
    let d = ArkScalarWrapper::from_repr(&a.to_repr());
    assert_eq!(a.ct_eq(&d).unwrap_u8(), 1u8);
}

#[test]
fn scalar_conditional_select() {
    let a = scalar(5);
    let b = scalar(9);
    let picked_a = ArkScalarWrapper::conditional_select(&a, &b, Choice::from_bool(false));
    let picked_b = ArkScalarWrapper::conditional_select(&a, &b, Choice::from_bool(true));
    assert_same(&picked_a, &a);
    assert_same(&picked_b, &b);
}

#[test]
fn scalar_is_odd_and_is_zero() {
    assert_eq!(scalar(1).is_odd().unwrap_u8(), 1u8);
    assert_eq!(scalar(2).is_odd().unwrap_u8(), 0u8);
    assert_eq!(ArkScalarWrapper::zero().is_odd().unwrap_u8(), 0u8);
    assert_eq!(ArkScalarWrapper::zero().is_zero().unwrap_u8(), 1u8);
    assert_eq!(scalar(7).is_zero().unwrap_u8(), 0u8);
}

#[test]
fn scalar_invert() {
    let (zero_flag, zero_inv) = ArkScalarWrapper::zero().invert();
    assert_eq!(zero_flag.unwrap_u8(), 0u8);
    assert_same(&zero_inv, &ArkScalarWrapper::zero());

    let two = scalar(2);
    let (flag, inv) = two.invert();
    assert_eq!(flag.unwrap_u8(), 1u8);
    assert_same(&inv.mul(&two), &ArkScalarWrapper::one());
}

#[test]
fn scalar_sqrt_ratio_square() {
    let four = scalar(4);
    let one = ArkScalarWrapper::one();
    let (flag, root) = ArkScalarWrapper::sqrt_ratio(&four, &one);
    assert_eq!(flag.unwrap_u8(), 1u8);
    assert_same(&root.mul(&root), &four);

    let nine = scalar(9);
    let (flag2, root2) = ArkScalarWrapper::sqrt_ratio(&four, &nine);
    assert_eq!(flag2.unwrap_u8(), 1u8);
    assert_same(&root2.mul(&root2).mul(&nine), &four);
}

#[test]
fn scalar_sqrt_ratio_zero_denominator() {
    let four = scalar(4);
    let zero = ArkScalarWrapper::zero();
    let (flag, value) = ArkScalarWrapper::sqrt_ratio(&four, &zero);
    assert_eq!(flag.unwrap_u8(), 0u8);
    assert_same(&value, &zero);
    // Zero over zero is also declared non-square.
    let (flag2, value2) = ArkScalarWrapper::sqrt_ratio(&zero, &zero);
    assert_eq!(flag2.unwrap_u8(), 0u8);
    assert_same(&value2, &zero);
}

#[test]
fn scalar_sqrt_ratio_zero_numerator() {
    // Zero and one are both squares, so the policy declares the ratio
    // square and returns the zero root.
    let zero = ArkScalarWrapper::zero();
    let one = ArkScalarWrapper::one();
    let (flag, value) = ArkScalarWrapper::sqrt_ratio(&zero, &one);
    assert_eq!(flag.unwrap_u8(), 1u8);
    assert_same(&value, &zero);
}

#[test]
fn scalar_sqrt_ratio_nonresidue() {
    // The multiplicative generator is a quadratic non-residue.
    let seven = ArkScalarWrapper::generator();
    let one = ArkScalarWrapper::one();
    let (flag, value) = ArkScalarWrapper::sqrt_ratio(&seven, &one);
    assert_eq!(flag.unwrap_u8(), 0u8);
    assert_same(&value, &ArkScalarWrapper::zero());
}

#[test]
fn scalar_sum_and_product_empty() {
    let empty: [ArkScalarWrapper; 0] = [];
    assert_same(&ArkScalarWrapper::sum(&empty), &ArkScalarWrapper::zero());
    assert_same(&ArkScalarWrapper::product(&empty), &ArkScalarWrapper::one());
}

#[test]
fn scalar_sum_and_product_values() {
    let xs = [scalar(1), scalar(2), scalar(3)];
    assert_same(&ArkScalarWrapper::sum(&xs), &scalar(6));
    let ys = [scalar(2), scalar(3), scalar(4)];
    assert_same(&ArkScalarWrapper::product(&ys), &scalar(24));
}

#[test]
fn scalar_arithmetic() {
    assert_same(&scalar(3).add(&scalar(4)), &scalar(7));
    assert_same(&scalar(10).sub(&scalar(4)), &scalar(6));
    assert_same(&scalar(6).mul(&scalar(7)), &scalar(42));
    assert_same(&scalar(5).neg().add(&scalar(5)), &ArkScalarWrapper::zero());
    assert_same(&scalar(21).double(), &scalar(42));
    assert_same(&scalar(6).square(), &scalar(36));
    // Subtraction below zero wraps: (3 - 4) + 4 == 3.
    assert_same(&scalar(3).sub(&scalar(4)).add(&scalar(4)), &scalar(3));
}

#[test]
fn scalar_assigning_forms() {
    let mut x = scalar(10);
    x.add_assign(&scalar(5));
    assert_same(&x, &scalar(15));
    x.sub_assign(&scalar(3));
    assert_same(&x, &scalar(12));
    x.mul_assign(&scalar(2));
    assert_same(&x, &scalar(24));
}

#[test]
fn scalar_pow_two_exp() {
    // 2^(2^3) == 256.
    assert_same(&scalar(2).pow_two_exp(3), &scalar(256));
    // x^(2^0) == x.
    assert_same(&scalar(77).pow_two_exp(0), &scalar(77));
}

#[test]
fn scalar_generator_and_root_of_unity() {
    assert_same(&ArkScalarWrapper::generator(), &scalar(7));
    // The 2-adic root of unity really has order dividing 2^32.
    let root = ArkScalarWrapper::root_of_unity();
    assert_same(&root.pow_two_exp(32), &ArkScalarWrapper::one());
    // And order exactly 2^32: the 2^31-th power is not one.
    let half = root.pow_two_exp(31);
    assert_eq!(half.ct_eq(&ArkScalarWrapper::one()).unwrap_u8(), 0u8);
}

#[test]
fn scalar_from_uniform_bytes() {
    // A zero-padded wide input equals decoding the low bytes alone.
    let mut wide = [0u8; 64];
    wide[63] = 9;
    let x = ArkScalarWrapper::from_uniform_bytes(&wide);
    assert_same(&x, &scalar(9));
    // Cross-check a full-width input against the wrapped library computed
    // directly.
    let wide2 = [0xABu8; 64];
    let lib = ArkScalarWrapper::from_uniform_bytes(&wide2);
    let native = ark_bls12_381::Fr::from_be_bytes_mod_order(&wide2);
    let native_bytes: [u8; 32] = native.into_bigint().to_bytes_be().try_into().unwrap();
    assert_eq!(lib.to_repr().as_array(), &native_bytes);
}

#[test]
fn scalar_new_into_inner() {
    let x = scalar(99);
    let y = ArkScalarWrapper::new(x.into_inner());
    assert_same(&x, &y);
}

#[test]
fn scalar_default_and_repr_default() {
    let d = ArkScalarWrapper::default();
    assert_eq!(d.is_zero().unwrap_u8(), 1u8);
    assert_eq!(ScalarRepr::default().as_array(), &[0u8; 32]);
}
