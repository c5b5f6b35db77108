use dmcfe::dlp;
use dmcfe::dlp::table::Table;
use dmcfe::error::Error;
use dmcfe::field::Scalar;
use dmcfe::g1::G1Point;
use dmcfe::hash::fingerprint_g1;
use rand::Rng;

#[test]
fn test_dlp() {
    // Do not use a big number, it will take useless time
    const M: u64 = 10 ^ 4;
    let m: u32 = (M as f64).sqrt() as u32 + 1;
    let x: u64 = rand::thread_rng().gen_range(0..M);

    // create the DLP
    let p = G1Point::generator().mul(&Scalar::from_u64(x));

    // solve it
    let res = dlp::bsgs(&p, m, m).unwrap();

    assert!(x == res, "Wrong DLP solution!");
}

#[test]
fn bsgs_finds_every_exponent_below_the_bound() {
    let (m, n) = (3u32, 4u32);
    for x in 0..(m * n) as u64 {
        let p = G1Point::from_scalar(&Scalar::from_u64(x));
        assert_eq!(dlp::bsgs(&p, m, n), Ok(x));
    }
}

#[test]
fn bsgs_finds_zero_at_once() {
    let p = G1Point::identity();
    assert_eq!(dlp::bsgs(&p, 1, 1), Ok(0));
    assert_eq!(dlp::bsgs(&p, 5, 3), Ok(0));
    assert_eq!(dlp::bsgs(&p, 8, 8), Ok(0));
    let pairs = dlp::precomputation(4).unwrap();
    let q = dlp::get_inverse(&G1Point::generator(), 4);
    assert_eq!(dlp::iterate(&p, &q, 1, &pairs), Some((0, 0)));
}

#[test]
fn bsgs_gives_up_beyond_the_bound() {
    let p = G1Point::from_scalar(&Scalar::from_u64(12));
    assert_eq!(dlp::bsgs(&p, 3, 4), Err(Error::NotFound));
    assert_eq!(dlp::bsgs(&p, 3, 5), Ok(12));
    assert_eq!(dlp::bsgs(&p, 0, 5), Err(Error::NotFound));
    assert_eq!(dlp::bsgs(&p, 5, 0), Err(Error::NotFound));
    let minus_one = G1Point::generator().neg();
    assert_eq!(dlp::bsgs(&minus_one, 4, 4), Err(Error::NotFound));
}

#[test]
fn precomputation_maps_fingerprints_to_baby_steps() {
    let pairs = dlp::precomputation(5).unwrap();
    assert_eq!(pairs.len(), 5);
    for i in 0..5u32 {
        let p = G1Point::from_scalar(&Scalar::from_u64(i as u64));
        assert_eq!(pairs.get(&fingerprint_g1(&p)), Some(i));
        assert_eq!(pairs.key_at(i as usize), fingerprint_g1(&p));
        assert_eq!(pairs.value_at(i as usize), i);
    }
    let beyond = G1Point::from_scalar(&Scalar::from_u64(5));
    assert_eq!(pairs.get(&fingerprint_g1(&beyond)), None);
}

#[test]
fn iterate_reports_the_first_giant_step_that_hits() {
    let pairs = dlp::precomputation(4).unwrap();
    let q = dlp::get_inverse(&G1Point::generator(), 4);
    // 14 = 3 * 4 + 2
    let p = G1Point::from_scalar(&Scalar::from_u64(14));
    assert_eq!(dlp::iterate(&p, &q, 4, &pairs), Some((3, 2)));
    assert_eq!(dlp::iterate(&p, &q, 3, &pairs), None);
    assert_eq!(dlp::iterate(&p, &q, 0, &pairs), None);
}

#[test]
fn get_inverse_is_the_opposite_multiple() {
    let g = G1Point::generator();
    let q = dlp::get_inverse(&g, 7);
    assert!(q.eq(&G1Point::from_scalar(&Scalar::from_u64(7)).neg()));
    assert!(q.add(&G1Point::from_scalar(&Scalar::from_u64(7))).eq(&G1Point::identity()));
    assert!(!q.eq(&g));
}

#[test]
fn table_keeps_one_value_for_each_fingerprint() {
    let mut t: Table<u32> = Table::new();
    assert_eq!(t.len(), 0);
    assert_eq!(t.get(&[1u8; 32]), None);
    assert_eq!(t.insert([1u8; 32], 10), None);
    assert_eq!(t.insert([2u8; 32], 20), None);
    assert_eq!(t.len(), 2);
    assert_eq!(t.get(&[1u8; 32]), Some(10));
    assert_eq!(t.get(&[2u8; 32]), Some(20));
    assert_eq!(t.get(&[3u8; 32]), None);
    assert_eq!(t.insert([1u8; 32], 11), Some(10));
    assert_eq!(t.len(), 2);
    assert_eq!(t.get(&[1u8; 32]), Some(11));
    assert_eq!(t.key_at(1), [2u8; 32]);
    assert_eq!(t.value_at(0), 11);
}

#[test]
fn a_fingerprint_that_stands_twice_is_a_collision() {
    let marks = [[1u8; 32], [2u8; 32], [1u8; 32]];
    assert_eq!(dlp::index_fingerprints(&marks).err(), Some(Error::HashCollision));
    let pairs = dlp::index_fingerprints(&marks[..2]).unwrap();
    assert_eq!(pairs.len(), 2);
    assert_eq!(pairs.get(&[1u8; 32]), Some(0));
    assert_eq!(pairs.get(&[2u8; 32]), Some(1));
    assert_eq!(dlp::index_fingerprints(&[]).unwrap().len(), 0);
}

#[test]
fn the_fingerprints_of_the_baby_steps() {
    let marks = dlp::baby_fingerprints(3);
    assert_eq!(marks.len(), 3);
    for (i, mark) in marks.iter().enumerate() {
        let p = G1Point::from_scalar(&Scalar::from_u64(i as u64));
        assert_eq!(*mark, fingerprint_g1(&p));
    }
    assert!(dlp::baby_fingerprints(0).is_empty());
}

#[test]
fn fingerprints_that_start_alike_are_told_apart() {
    let mut a = [9u8; 32];
    let mut b = [9u8; 32];
    let mut c = [9u8; 32];
    a[8] = 1;
    b[31] = 2;
    c[0] = 3;
    let mut t: Table<u32> = Table::new();
    assert_eq!(t.insert(a, 1), None);
    assert_eq!(t.insert(b, 2), None);
    assert_eq!(t.insert(c, 3), None);
    assert_eq!(t.len(), 3);
    assert_eq!(t.get(&a), Some(1));
    assert_eq!(t.get(&b), Some(2));
    assert_eq!(t.get(&c), Some(3));
    assert_eq!(t.get(&[9u8; 32]), None);
    assert_eq!(t.insert(b, 20), Some(2));
    assert_eq!(t.get(&a), Some(1));
    assert_eq!(t.get(&b), Some(20));
    assert_eq!(t.len(), 3);
    assert_eq!(t.key_at(1), b);
}

#[test]
fn a_large_table_is_searched_through_its_index() {
    let mut t: Table<u32> = Table::new();
    for i in 0..20000u32 {
        let mut k = [0u8; 32];
        k[..4].copy_from_slice(&i.to_le_bytes());
        k[20..24].copy_from_slice(&i.to_be_bytes());
        assert_eq!(t.insert(k, i), None);
    }
    assert_eq!(t.len(), 20000);
    for i in (0..20000u32).step_by(7) {
        let mut k = [0u8; 32];
        k[..4].copy_from_slice(&i.to_le_bytes());
        k[20..24].copy_from_slice(&i.to_be_bytes());
        assert_eq!(t.get(&k), Some(i));
        k[31] = 1;
        assert_eq!(t.get(&k), None);
    }
}
