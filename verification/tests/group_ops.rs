use ark_serialize::CanonicalSerialize;
use arkwrap::{ArkGroupWrapper, ArkScalarWrapper, PointRepr};

fn scalar(v: u64) -> ArkScalarWrapper {
    ArkScalarWrapper::from_u64(v)
}

fn assert_same_point(a: &ArkGroupWrapper, b: &ArkGroupWrapper) {
    assert_eq!(a.ct_eq(b).unwrap_u8(), 1u8);
}

#[test]
fn group_roundtrip_generator() {
    let g = ArkGroupWrapper::generator();
    let (flag, q) = ArkGroupWrapper::from_bytes(&g.to_bytes());
    assert_eq!(flag.unwrap_u8(), 1u8);
    assert_same_point(&q, &g);
}

#[test]
fn group_roundtrip_random() {
    for _ in 0..8 {
        let p = ArkGroupWrapper::random();
        let (flag, q) = ArkGroupWrapper::from_bytes(&p.to_bytes());
        assert_eq!(flag.unwrap_u8(), 1u8);
        assert_same_point(&q, &p);
    }
}

#[test]
fn group_roundtrip_identity() {
    let id = ArkGroupWrapper::identity();
    let (flag, q) = ArkGroupWrapper::from_bytes(&id.to_bytes());
    assert_eq!(flag.unwrap_u8(), 1u8);
    assert_eq!(q.is_identity().unwrap_u8(), 1u8);
}

#[test]
fn group_decode_garbage() {
    // Buffers not produced by encode either decode to a valid point or
    // report failure with the identity substituted; they never crash.
    let (flag, q) = ArkGroupWrapper::from_bytes(&PointRepr::new([0xFFu8; 48]));
    assert_eq!(flag.unwrap_u8(), 0u8);
    assert_eq!(q.is_identity().unwrap_u8(), 1u8);

    let (flag2, q2) = ArkGroupWrapper::from_bytes(&PointRepr::new([0u8; 48]));
    assert_eq!(flag2.unwrap_u8(), 0u8);
    assert_eq!(q2.is_identity().unwrap_u8(), 1u8);
}

#[test]
fn group_unchecked_decode_is_alias() {
    let g = ArkGroupWrapper::generator();
    let bytes = g.to_bytes();
    let (f1, q1) = ArkGroupWrapper::from_bytes(&bytes);
    let (f2, q2) = ArkGroupWrapper::from_bytes_unchecked(&bytes);
    assert_eq!(f1.unwrap_u8(), f2.unwrap_u8());
    assert_same_point(&q1, &q2);
}

#[test]
fn group_encoding_matches_native() {
    // Cross-check the generator's compressed bytes against the wrapped
    // library computed directly.
    let mut buf = Vec::new();
    <ark_bls12_381::G1Projective as ark_ec::PrimeGroup>::generator()
        .serialize_compressed(&mut buf)
        .unwrap();
    let lib = ArkGroupWrapper::generator().to_bytes();
    assert_eq!(lib.as_array().as_slice(), buf.as_slice());
}

#[test]
fn group_scalar_mul_distributes() {
    // (a + b) * s == a * s + b * s, for sampled points and scalars.
    for _ in 0..4 {
        let a = ArkGroupWrapper::random();
        let b = ArkGroupWrapper::random();
        let s = ArkScalarWrapper::random();
        let left = a.add(&b).mul(&s);
        let right = a.mul(&s).add(&b.mul(&s));
        assert_same_point(&left, &right);
    }
    let g = ArkGroupWrapper::generator();
    let left = g.add(&g.double()).mul(&scalar(11));
    let right = g.mul(&scalar(11)).add(&g.double().mul(&scalar(11)));
    assert_same_point(&left, &right);
}

#[test]
fn group_operations() {
    let g = ArkGroupWrapper::generator();
    assert_same_point(&g.add(&g), &g.double());
    assert_same_point(&g.double(), &g.mul(&scalar(2)));
    assert_eq!(g.sub(&g).is_identity().unwrap_u8(), 1u8);
    assert_eq!(g.neg().add(&g).is_identity().unwrap_u8(), 1u8);
    assert_same_point(&g.mul(&scalar(1)), &g);
    assert_eq!(g.mul(&ArkScalarWrapper::zero()).is_identity().unwrap_u8(), 1u8);
    assert_eq!(g.is_identity().unwrap_u8(), 0u8);
}

#[test]
fn group_assigning_forms() {
    let g = ArkGroupWrapper::generator();
    let mut p = g;
    p.add_assign(&g);
    assert_same_point(&p, &g.double());
    p.sub_assign(&g);
    assert_same_point(&p, &g);
    p.mul_assign(&scalar(3));
    assert_same_point(&p, &g.mul(&scalar(3)));
}

#[test]
fn group_sum() {
    let empty: [ArkGroupWrapper; 0] = [];
    assert_eq!(ArkGroupWrapper::sum(&empty).is_identity().unwrap_u8(), 1u8);
    let g = ArkGroupWrapper::generator();
    let xs = [g, g.double(), g.mul(&scalar(3))];
    assert_same_point(&ArkGroupWrapper::sum(&xs), &g.mul(&scalar(6)));
}

#[test]
fn group_ct_eq() {
    let g = ArkGroupWrapper::generator();
    assert_eq!(g.ct_eq(&g).unwrap_u8(), 1u8);
    assert_eq!(g.ct_eq(&g.double()).unwrap_u8(), 0u8);
    assert_eq!(g.ct_eq(&ArkGroupWrapper::identity()).unwrap_u8(), 0u8);
}

#[test]
fn group_new_into_inner() {
    let g = ArkGroupWrapper::generator();
    let again = ArkGroupWrapper::new(g.into_inner());
    assert_same_point(&g, &again);
}

#[test]
fn group_default_is_identity() {
    assert_eq!(ArkGroupWrapper::default().is_identity().unwrap_u8(), 1u8);
}
