use dmcfe::error::Error;
use dmcfe::bytes::{append_bytes, bytes_eq};
use dmcfe::field::Scalar;
use dmcfe::g1::G1Point;
use dmcfe::g2::G2Point;
use dmcfe::hash;
use dmcfe::ipfe;
use dmcfe::label::{u64_to_be_bytes, Label};
use dmcfe::random;
use dmcfe::tools;
use dmcfe::types::{DVec, TMat};

fn scalars(values: &[u64]) -> Vec<Scalar> {
    values.iter().map(|v| Scalar::from_u64(*v)).collect()
}

fn g1(v: u64) -> G1Point {
    G1Point::from_scalar(&Scalar::from_u64(v))
}

fn g2(v: u64) -> G2Point {
    G2Point::from_scalar(&Scalar::from_u64(v))
}

#[test]
fn labels_grow_at_their_end() {
    let mut l = Label::from_text("Setup");
    assert_eq!(l.as_bytes(), b"Setup");
    l.aggregate(&[3]);
    assert_eq!(l.as_bytes(), b"Setup\x03");
    assert_eq!(l.len(), 6);
    l.aggregate(&[]);
    assert_eq!(l.len(), 6);
    assert!(Label::empty().as_bytes().is_empty());
    assert_eq!(Label::from_bytes(&[1, 2, 3]).as_bytes(), &[1, 2, 3]);
}

#[test]
fn labels_are_equal_when_their_bytes_are() {
    let a = Label::from_text("ab");
    let mut b = Label::from_text("a");
    assert!(!a.eq(&b));
    b.aggregate(b"b");
    assert!(a.eq(&b));
    b.aggregate(b"c");
    assert!(!a.eq(&b));
    assert!(Label::empty().eq(&Label::empty()));
}

#[test]
fn a_label_of_scalars_is_their_big_endian_encodings() {
    let l = Label::from_scalars(&scalars(&[1, 0x0203]));
    let bytes = l.as_bytes();
    assert_eq!(bytes.len(), 64);
    assert!(bytes[..31].iter().all(|b| *b == 0));
    assert_eq!(bytes[31], 1);
    assert!(bytes[32..62].iter().all(|b| *b == 0));
    assert_eq!(bytes[62], 2);
    assert_eq!(bytes[63], 3);
    assert!(Label::from_scalars(&[]).as_bytes().is_empty());
}

#[test]
fn a_label_of_a_number_is_its_eight_bytes() {
    assert_eq!(u64_to_be_bytes(0x0102030405060708), [1, 2, 3, 4, 5, 6, 7, 8]);
    assert_eq!(u64_to_be_bytes(7), [0, 0, 0, 0, 0, 0, 0, 7]);
    assert_eq!(Label::from_u64(256).as_bytes(), &[0, 0, 0, 0, 0, 0, 1, 0]);
}

#[test]
fn fresh_labels_differ() {
    let a = Label::new();
    let b = Label::new();
    assert_eq!(a.len(), 32);
    assert!(!a.eq(&b));
}

#[test]
fn sha256_matches_the_known_digests() {
    let empty: [u8; 32] = [
        0xe3, 0xb0, 0xc4, 0x42, 0x98, 0xfc, 0x1c, 0x14, 0x9a, 0xfb, 0xf4, 0xc8, 0x99, 0x6f, 0xb9,
        0x24, 0x27, 0xae, 0x41, 0xe4, 0x64, 0x9b, 0x93, 0x4c, 0xa4, 0x95, 0x99, 0x1b, 0x78, 0x52,
        0xb8, 0x55,
    ];
    let abc: [u8; 32] = [
        0xba, 0x78, 0x16, 0xbf, 0x8f, 0x01, 0xcf, 0xea, 0x41, 0x41, 0x40, 0xde, 0x5d, 0xae, 0x22,
        0x23, 0xb0, 0x03, 0x61, 0xa3, 0x96, 0x17, 0x7a, 0x9c, 0xb4, 0x10, 0xff, 0x61, 0xf2, 0x00,
        0x15, 0xad,
    ];
    assert_eq!(hash::sha256(b""), empty);
    assert_eq!(hash::sha256(b"abc"), abc);
    assert_eq!(hash::fingerprint_g1(&g1(3)), hash::sha256(&g1(3).to_compressed()));
}

#[test]
fn hashing_into_the_groups_is_deterministic_and_separated() {
    let a = hash::hash_to_g1(b"label");
    assert!(a.eq(&hash::hash_to_g1(b"label")));
    assert!(!a.eq(&hash::hash_to_g1(b"labem")));
    assert!(a.eq(&G1Point::hash(b"label", &[hash::TAG_G1])));
    assert!(!a.eq(&G1Point::hash(b"label", &[hash::TAG_G2])));
    assert!(G1Point::from_compressed(&a.to_compressed()).is_some());
    let b = hash::hash_to_g2(b"label");
    assert!(b.eq(&G2Point::hash(b"label", &[hash::TAG_G2])));
    assert!(!b.eq(&hash::hash_to_g2(b"other")));
    assert!(G2Point::from_compressed(&b.to_compressed()).is_some());
}

#[test]
fn the_double_hash_appends_one_and_two() {
    let u = hash::double_hash_to_curve_in_g1(b"L");
    assert!(u.x.eq(&hash::hash_to_g1(b"L\x01")));
    assert!(u.y.eq(&hash::hash_to_g1(b"L\x02")));
    assert!(!u.x.eq(&u.y));
    let v = hash::double_hash_to_curve_in_g2(b"L");
    assert!(v.x.eq(&hash::hash_to_g2(b"L\x01")));
    assert!(v.y.eq(&hash::hash_to_g2(b"L\x02")));
    let w = hash::double_hash_to_curve(7);
    assert!(w.x.eq(&hash::hash_to_g1(&[0, 0, 0, 0, 0, 0, 0, 7, 1])));
    assert!(w.y.eq(&hash::hash_to_g1(&[0, 0, 0, 0, 0, 0, 0, 7, 2])));
    assert!(hash::hash_to_curve(7).eq(&hash::hash_to_g1(&[0, 0, 0, 0, 0, 0, 0, 7])));
}

#[test]
fn hashing_into_the_field_reads_the_three_points_and_the_label() {
    let (a, b, c) = (g1(1), g1(2), g1(3));
    let s = hash::hash_to_scalar(&a, &b, &c, b"L");
    assert!(s.eq(&hash::hash_to_scalar(&a, &b, &c, b"L")));
    assert!(!s.eq(&hash::hash_to_scalar(&b, &a, &c, b"L")));
    assert!(!s.eq(&hash::hash_to_scalar(&a, &b, &c, b"M")));
    let mut msg = Vec::new();
    msg.extend_from_slice(&a.to_compressed());
    msg.extend_from_slice(&b.to_compressed());
    msg.extend_from_slice(&c.to_compressed());
    msg.extend_from_slice(b"L");
    assert!(s.eq(&Scalar::hash(&msg, &[hash::TAG_SCALAR])));
    assert!(!s.eq(&Scalar::hash(&msg, &[hash::TAG_G1])));
}

#[test]
fn vectors_of_two_entries() {
    let u = DVec::new(Scalar::from_u64(2), Scalar::from_u64(3));
    let v = DVec::new(Scalar::from_u64(5), Scalar::from_u64(7));
    assert!(u.inner_product(&v).eq(&Scalar::from_u64(31)));
    let scaled = u.scale(&Scalar::from_u64(10));
    assert!(scaled.x.eq(&Scalar::from_u64(20)) && scaled.y.eq(&Scalar::from_u64(30)));
    let lifted = u.in_g2();
    assert!(lifted.x.eq(&g2(2)) && lifted.y.eq(&g2(3)));
    let p = DVec::new(g1(5), g1(7));
    assert!(p.inner_product(&u).eq(&g1(31)));
    let q = DVec::new(g2(5), g2(7));
    assert!(q.inner_product(&u).eq(&g2(31)));
    let sum = q.add(&lifted);
    assert!(sum.x.eq(&g2(7)) && sum.y.eq(&g2(10)));
    let zero = DVec::<G2Point>::identity();
    assert!(zero.x.eq(&G2Point::identity()) && zero.y.eq(&G2Point::identity()));
}

#[test]
fn matrices_of_two_rows_and_two_columns() {
    let t = TMat::new(
        Scalar::from_u64(1),
        Scalar::from_u64(2),
        Scalar::from_u64(3),
        Scalar::from_u64(4),
    );
    let v = DVec::new(g2(10), g2(100));
    let r = t.apply_in_g2(&v);
    assert!(r.x.eq(&g2(210)));
    assert!(r.y.eq(&g2(430)));
    let m = t.transpose();
    assert!(m.a.eq(&Scalar::from_u64(1)) && m.b.eq(&Scalar::from_u64(3)));
    assert!(m.c.eq(&Scalar::from_u64(2)) && m.d.eq(&Scalar::from_u64(4)));
}

#[test]
fn products_of_matrices_and_vectors() {
    let mat = vec![scalars(&[1, 2]), scalars(&[3, 4]), scalars(&[5, 6])];
    let v = DVec::new(g1(10), g1(100));
    let r = tools::mat_mul(&mat, &v).unwrap();
    assert_eq!(r.len(), 3);
    assert!(r[0].eq(&g1(210)) && r[1].eq(&g1(430)) && r[2].eq(&g1(650)));
    let t = tools::transpose(&mat).unwrap();
    assert_eq!(t.len(), 2);
    assert_eq!(t[0].len(), 3);
    assert!(t[0][0].eq(&Scalar::from_u64(1)) && t[0][1].eq(&Scalar::from_u64(3)));
    assert!(t[0][2].eq(&Scalar::from_u64(5)) && t[1][0].eq(&Scalar::from_u64(2)));
    assert!(t[1][1].eq(&Scalar::from_u64(4)) && t[1][2].eq(&Scalar::from_u64(6)));
    let p = tools::scal_mat_mul_dim_2(&t, &scalars(&[1, 10, 100])).unwrap();
    assert_eq!(p.len(), 2);
    assert!(p[0].eq(&Scalar::from_u64(531)) && p[1].eq(&Scalar::from_u64(642)));
    assert!(tools::transpose(&[]).unwrap().is_empty());
    assert!(tools::mat_mul(&[], &v).unwrap().is_empty());
    assert!(tools::scal_mat_mul_dim_2(&[], &scalars(&[1])).unwrap().is_empty());
}

#[test]
fn mismatched_dimensions_are_refused() {
    let v = DVec::new(g1(10), g1(100));
    let wide = vec![scalars(&[1, 2, 3])];
    let ragged = vec![scalars(&[1, 2]), scalars(&[3])];
    assert_eq!(tools::mat_mul(&wide, &v).err(), Some(Error::SizeMismatch));
    assert_eq!(tools::mat_mul(&ragged, &v).err(), Some(Error::SizeMismatch));
    assert_eq!(tools::transpose(&ragged).err(), Some(Error::SizeMismatch));
    assert!(tools::transpose(&wide).is_ok());
    assert_eq!(tools::scal_mat_mul_dim_2(&wide, &scalars(&[1, 2])).err(), Some(Error::SizeMismatch));
    assert_eq!(tools::scal_mat_mul_dim_2(&ragged, &scalars(&[1, 2])).err(), Some(Error::SizeMismatch));
}

#[test]
fn inner_products_go_as_far_as_both_vectors() {
    assert!(tools::dot_product(&scalars(&[1, 2, 3]), &scalars(&[4, 5, 6])).eq(&Scalar::from_u64(32)));
    assert!(tools::dot_product(&scalars(&[1, 2, 3]), &scalars(&[4, 5])).eq(&Scalar::from_u64(14)));
    assert!(tools::dot_product(&scalars(&[]), &scalars(&[4, 5])).eq(&Scalar::zero()));
    let points = [g1(1), g1(2), g1(3)];
    assert!(tools::dot_product_in_g1(&points, &scalars(&[4, 5, 6])).eq(&g1(32)));
    assert!(tools::dot_product_in_g1(&points, &scalars(&[4])).eq(&g1(4)));
    assert!(tools::smul_in_g1(&Scalar::from_u64(9)).eq(&g1(9)));
    assert!(tools::smul_in_g2(&Scalar::from_u64(9)).eq(&g2(9)));
}

#[test]
fn random_values_have_the_asked_shape() {
    let v = tools::random_vec_gen(5);
    assert_eq!(v.len(), 5);
    assert!(!v[0].eq(&v[1]));
    let m = tools::random_mat_gen(3, 2);
    assert_eq!(m.len(), 3);
    assert!(m.iter().all(|row| row.len() == 2));
    assert!(tools::random_mat_gen(0, 2).is_empty());
    let (msk, mpk) = ipfe::setup(4);
    assert_eq!(msk.len(), 4);
    assert_eq!(mpk.len(), 4);
    for (s, p) in msk.iter().zip(mpk.iter()) {
        assert!(p.eq(&G1Point::from_scalar(s)));
    }
    assert!(ipfe::public_key_of(&scalars(&[2]))[0].eq(&g1(2)));
}

#[test]
fn random_scalars_are_reduced_and_differ() {
    let a = random::random_scalar();
    let b = random::random_scalar();
    assert!(!a.eq(&b));
    assert!(Scalar::from_bytes(&a.to_bytes()).is_some());
    assert!(!bytes_eq(&random::random_nonce(), &random::random_nonce()));
    assert!(random::random_u64() != random::random_u64() || random::random_u64() != 0);
}

#[test]
fn random_scalars_below_a_bound() {
    for _ in 0..20 {
        let r = random::random_below(5);
        assert!((0..5).any(|v| r.eq(&Scalar::from_u64(v))));
    }
    assert!(random::random_below(0).eq(&Scalar::zero()));
    assert!(random::random_below(1).eq(&Scalar::zero()));
    assert!(random::reduce_below(17, 5).eq(&Scalar::from_u64(2)));
    assert!(random::reduce_below(17, 0).eq(&Scalar::zero()));
    assert!(random::reduce_below(4, 5).eq(&Scalar::from_u64(4)));
}

#[test]
fn bytes_are_appended_and_compared() {
    let mut out = vec![1u8, 2];
    append_bytes(&mut out, &[3, 4]);
    assert_eq!(out, vec![1, 2, 3, 4]);
    append_bytes(&mut out, &[]);
    assert_eq!(out.len(), 4);
    assert!(bytes_eq(&[1u8, 2, 3], &[1u8, 2, 3]));
    assert!(!bytes_eq(&[1u8, 2, 3], &[1u8, 2, 4]));
    assert!(!bytes_eq(&[0u8, 2, 3], &[1u8, 2, 3]));
}

#[test]
fn sums_of_vectors_and_matrices() {
    let u = DVec::new(Scalar::from_u64(2), Scalar::from_u64(3));
    let v = DVec::new(Scalar::from_u64(5), Scalar::from_u64(7));
    let w = u.add(&v);
    assert!(w.x.eq(&Scalar::from_u64(7)) && w.y.eq(&Scalar::from_u64(10)));
    let s = TMat::new(
        Scalar::from_u64(1),
        Scalar::from_u64(2),
        Scalar::from_u64(3),
        Scalar::from_u64(4),
    );
    let t = TMat::new(
        Scalar::from_u64(10),
        Scalar::from_u64(20),
        Scalar::from_u64(30),
        Scalar::from_u64(40),
    );
    let r = s.add(&t);
    assert!(r.a.eq(&Scalar::from_u64(11)) && r.b.eq(&Scalar::from_u64(22)));
    assert!(r.c.eq(&Scalar::from_u64(33)) && r.d.eq(&Scalar::from_u64(44)));
}

#[test]
fn a_scalar_times_a_vector_and_a_matrix() {
    let k = Scalar::from_u64(3);
    let v = tools::scal_vec_mul(&k, &scalars(&[1, 2, 5]));
    assert_eq!(v.len(), 3);
    assert!(v[0].eq(&Scalar::from_u64(3)) && v[1].eq(&Scalar::from_u64(6)));
    assert!(v[2].eq(&Scalar::from_u64(15)));
    assert!(tools::scal_vec_mul(&k, &[]).is_empty());
    let m = tools::scal_mat_mul(&k, &[scalars(&[1, 2]), scalars(&[7])]);
    assert_eq!(m.len(), 2);
    assert_eq!(m[0].len(), 2);
    assert_eq!(m[1].len(), 1);
    assert!(m[0][1].eq(&Scalar::from_u64(6)) && m[1][0].eq(&Scalar::from_u64(21)));
}
