use dmcfe::field::Scalar;
use dmcfe::g1::G1Point;
use dmcfe::g2::G2Point;
use dmcfe::gt::{pairing, GtPoint};

#[test]
fn scalar_arithmetic_matches_integers() {
    let a = Scalar::from_u64(7);
    let b = Scalar::from_u64(5);
    assert!(a.add(&b).eq(&Scalar::from_u64(12)));
    assert!(a.sub(&b).eq(&Scalar::from_u64(2)));
    assert!(a.mul(&b).eq(&Scalar::from_u64(35)));
    assert!(a.neg().add(&a).eq(&Scalar::zero()));
    assert!(b.sub(&a).eq(&Scalar::from_u64(2).neg()));
    assert!(!a.eq(&b));
}

#[test]
fn scalar_bytes_round_trip() {
    let a = Scalar::from_u64(0x0102030405060708);
    let le = a.to_bytes();
    assert_eq!(le[0], 8);
    assert_eq!(le[7], 1);
    assert_eq!(le[8], 0);
    let be = a.to_be_bytes();
    assert_eq!(be[31], 8);
    assert_eq!(be[24], 1);
    assert_eq!(be[0], 0);
    assert!(Scalar::from_bytes(&le).unwrap().eq(&a));
    assert!(Scalar::from_bytes(&[0xff; 32]).is_none());
    let mut wide = [0u8; 64];
    wide[0] = 9;
    assert!(Scalar::from_bytes_wide(&wide).eq(&Scalar::from_u64(9)));
    assert!(!Scalar::from_bytes_wide(&[0xff; 64]).eq(&Scalar::zero()));
}

#[test]
fn g1_operations_add_exponents() {
    let two = G1Point::from_scalar(&Scalar::from_u64(2));
    let three = G1Point::from_scalar(&Scalar::from_u64(3));
    assert!(two.add(&three).eq(&G1Point::from_scalar(&Scalar::from_u64(5))));
    assert!(three.sub(&two).eq(&G1Point::generator()));
    assert!(two.sub(&two).eq(&G1Point::identity()));
    assert!(two.mul(&Scalar::from_u64(3)).eq(&G1Point::from_scalar(&Scalar::from_u64(6))));
    assert!(two.neg().add(&two).eq(&G1Point::identity()));
    assert!(!two.eq(&three));
    let bytes = two.to_compressed();
    assert!(G1Point::from_compressed(&bytes).unwrap().eq(&two));
    assert!(G1Point::from_compressed(&[0u8; 48]).is_none());
}

#[test]
fn g2_operations_add_exponents() {
    let two = G2Point::from_scalar(&Scalar::from_u64(2));
    let three = G2Point::from_scalar(&Scalar::from_u64(3));
    assert!(two.add(&three).eq(&G2Point::from_scalar(&Scalar::from_u64(5))));
    assert!(three.sub(&two).eq(&G2Point::generator()));
    assert!(two.mul(&Scalar::from_u64(3)).eq(&G2Point::from_scalar(&Scalar::from_u64(6))));
    assert!(two.neg().add(&two).eq(&G2Point::identity()));
    let bytes = two.to_compressed();
    assert!(G2Point::from_compressed(&bytes).unwrap().eq(&two));
    assert!(G2Point::from_compressed(&[0u8; 96]).is_none());
}

#[test]
fn pairing_multiplies_exponents() {
    let p = G1Point::from_scalar(&Scalar::from_u64(2));
    let q = G2Point::from_scalar(&Scalar::from_u64(3));
    let e = pairing(&p, &q);
    assert!(e.eq(&GtPoint::from_scalar(&Scalar::from_u64(6))));
    assert!(pairing(&G1Point::generator(), &G2Point::generator()).eq(&GtPoint::generator()));
    assert!(pairing(&G1Point::identity(), &q).eq(&GtPoint::identity()));
}

#[test]
fn gt_operations_add_exponents() {
    let two = GtPoint::from_scalar(&Scalar::from_u64(2));
    let three = GtPoint::from_scalar(&Scalar::from_u64(3));
    assert!(two.add(&three).eq(&GtPoint::from_scalar(&Scalar::from_u64(5))));
    assert!(three.sub(&two).eq(&GtPoint::generator()));
    assert!(two.mul(&Scalar::from_u64(3)).eq(&GtPoint::from_scalar(&Scalar::from_u64(6))));
    assert!(two.neg().add(&two).eq(&GtPoint::identity()));
    let bytes = two.to_uncompressed();
    assert!(GtPoint::from_uncompressed(&bytes).unwrap().eq(&two));
    assert!(GtPoint::from_uncompressed(&[7u8; 576]).is_none());
}

#[test]
fn scalar_inverse() {
    let a = Scalar::from_u64(7);
    let inv = a.invert().unwrap();
    assert!(a.mul(&inv).eq(&Scalar::one()));
    assert!(!inv.eq(&a));
    assert!(Scalar::one().invert().unwrap().eq(&Scalar::one()));
    assert!(Scalar::zero().invert().is_none());
}
