use arkwrap::{
    derive_curve_table, derive_field_table, ArkGroupWrapper, ArkScalarWrapper, ScalarRepr,
};

const TWO_INV_BYTES: [u8; 32] = [
    57, 246, 211, 169, 148, 206, 190, 164, 25, 156, 236, 4, 4, 208, 236, 2, 169, 222, 210, 1,
    127, 255, 45, 255, 127, 255, 255, 255, 128, 0, 0, 1,
];

const DELTA_BYTES: [u8; 32] = [
    8, 99, 77, 10, 160, 33, 170, 248, 67, 202, 179, 84, 250, 187, 0, 98, 246, 80, 36, 55, 198,
    160, 156, 0, 108, 8, 52, 121, 89, 1, 137, 215,
];

#[test]
fn field_table_metadata() {
    let t = derive_field_table();
    assert_eq!(
        t.modulus,
        "52435875175126190479447740508185965837690552500527637822603658699938581184513"
    );
    assert_eq!(t.num_bits, 255);
    assert_eq!(t.capacity, 254);
    assert_eq!(t.two_adicity, 32);
}

#[test]
fn field_table_identities() {
    let t = derive_field_table();
    assert_eq!(t.zero.as_array(), &[0u8; 32]);
    let mut one_bytes = [0u8; 32];
    one_bytes[31] = 1;
    assert_eq!(t.one.as_array(), &one_bytes);
    let mut gen_bytes = [0u8; 32];
    gen_bytes[31] = 7;
    assert_eq!(t.generator.as_array(), &gen_bytes);
}

#[test]
fn field_table_two_inverse() {
    let t = derive_field_table();
    assert_eq!(t.two_inv.as_array(), &TWO_INV_BYTES);
    let two_inv = ArkScalarWrapper::from_repr(&t.two_inv);
    let product = two_inv.mul(&ArkScalarWrapper::from_u64(2));
    assert_eq!(product.ct_eq(&ArkScalarWrapper::one()).unwrap_u8(), 1u8);
}

#[test]
fn field_table_root_of_unity() {
    let t = derive_field_table();
    let root = ArkScalarWrapper::from_repr(&t.root_of_unity);
    let root_inv = ArkScalarWrapper::from_repr(&t.root_of_unity_inv);
    let one = ArkScalarWrapper::one();
    assert_eq!(root.mul(&root_inv).ct_eq(&one).unwrap_u8(), 1u8);
    assert_eq!(root.pow_two_exp(32).ct_eq(&one).unwrap_u8(), 1u8);
}

#[test]
fn field_table_delta() {
    let t = derive_field_table();
    assert_eq!(t.delta.as_array(), &DELTA_BYTES);
    // Delta is the generator raised to 2^two_adicity.
    let expected = ArkScalarWrapper::generator().pow_two_exp(t.two_adicity);
    let delta = ArkScalarWrapper::from_repr(&t.delta);
    assert_eq!(delta.ct_eq(&expected).unwrap_u8(), 1u8);
}

#[test]
fn field_table_entries_roundtrip() {
    let t = derive_field_table();
    let entries: [ScalarRepr; 7] = [
        t.zero,
        t.one,
        t.two_inv,
        t.generator,
        t.root_of_unity,
        t.root_of_unity_inv,
        t.delta,
    ];
    for repr in entries.iter() {
        let x = ArkScalarWrapper::from_repr(repr);
        assert_eq!(x.to_repr().as_array(), repr.as_array());
    }
}

#[test]
fn curve_table() {
    let t = derive_curve_table();
    assert_eq!(t.compressed_point_size, 48);
    let g = ArkGroupWrapper::generator();
    assert_eq!(t.generator_compressed.as_array(), g.to_bytes().as_array());
    let (flag, decoded) = ArkGroupWrapper::from_bytes(&t.generator_compressed);
    assert_eq!(flag.unwrap_u8(), 1u8);
    assert_eq!(decoded.ct_eq(&g).unwrap_u8(), 1u8);
}

#[test]
fn curve_table_length_matches_encodings() {
    // Every encoding, the identity's included, has the recorded length.
    let t = derive_curve_table();
    let points = [
        ArkGroupWrapper::identity(),
        ArkGroupWrapper::generator(),
        ArkGroupWrapper::random(),
    ];
    for p in points.iter() {
        assert_eq!(p.to_bytes().as_array().len(), t.compressed_point_size);
    }
}
