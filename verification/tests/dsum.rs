use dmcfe::dsum;
use dmcfe::field::Scalar;
use dmcfe::g1::G1Point;
use dmcfe::label::Label;

fn clients(n: usize) -> (Vec<dsum::KeyPair>, Vec<dsum::PublicKey>) {
    let pairs: Vec<dsum::KeyPair> = (0..n).map(|_| dsum::client_setup()).collect();
    let pks = pairs.iter().map(|kp| kp.1).collect();
    (pairs, pks)
}

fn round(x: &[Scalar], pairs: &[dsum::KeyPair], pks: &[dsum::PublicKey], l: &Label) -> Scalar {
    let c: Vec<dsum::CypherText> =
        x.iter().zip(pairs.iter()).map(|(xi, kp)| dsum::encode(xi, &kp.0, pks, l)).collect();
    dsum::combine(&c)
}

#[test]
fn the_masks_cancel_in_the_sum() {
    let (pairs, pks) = clients(3);
    let x = [Scalar::from_u64(5), Scalar::from_u64(7), Scalar::from_u64(11)];
    let l = Label::from_text("round");
    assert!(round(&x, &pairs, &pks, &l).eq(&Scalar::from_u64(23)));
}

#[test]
fn the_sum_is_recovered_for_two_and_for_sixteen_clients() {
    for n in [2usize, 16] {
        let (pairs, pks) = clients(n);
        let x: Vec<Scalar> = (0..n).map(|i| Scalar::from_u64(100 + i as u64)).collect();
        let expected = x.iter().fold(Scalar::zero(), |acc, xi| acc.add(xi));
        let l = Label::new();
        assert!(round(&x, &pairs, &pks, &l).eq(&expected));
    }
}

#[test]
fn a_change_of_one_contribution_passes_through() {
    let (pairs, pks) = clients(4);
    let l = Label::from_text("delta");
    let x: Vec<Scalar> = [3u64, 1, 4, 1].iter().map(|v| Scalar::from_u64(*v)).collect();
    let before = round(&x, &pairs, &pks, &l);
    let delta = Scalar::from_u64(1000);
    let mut moved = x.clone();
    moved[2] = moved[2].add(&delta);
    let after = round(&moved, &pairs, &pks, &l);
    assert!(after.eq(&before.add(&delta)));
    assert!(after.eq(&Scalar::from_u64(1009)));
}

#[test]
fn a_ciphertext_hides_its_contribution() {
    let (pairs, pks) = clients(2);
    let l = Label::from_text("hidden");
    let x = Scalar::from_u64(42);
    let c = dsum::encode(&x, &pairs[0].0, &pks, &l);
    assert!(!c.scalar().eq(&x));
    // the mask is the one for the only peer
    let mask = dsum::h(l.as_bytes(), &pairs[0].0, &pks[1]);
    assert!(c.scalar().eq(&x.add(&mask)));
}

#[test]
fn masks_of_two_clients_for_each_other_are_opposite() {
    let (pairs, pks) = clients(2);
    let l = Label::from_text("pair");
    let ab = dsum::h(l.as_bytes(), &pairs[0].0, &pks[1]);
    let ba = dsum::h(l.as_bytes(), &pairs[1].0, &pks[0]);
    assert!(ab.add(&ba).eq(&Scalar::zero()));
    assert!(!ab.eq(&Scalar::zero()));
    assert!(ab.eq(&ba.neg()));
}

#[test]
fn a_client_has_no_mask_for_itself() {
    let (pairs, pks) = clients(1);
    let l = Label::from_text("self");
    assert!(dsum::h(l.as_bytes(), &pairs[0].0, &pks[0]).eq(&Scalar::zero()));
    let x = Scalar::from_u64(9);
    assert!(dsum::encode(&x, &pairs[0].0, &pks, &l).scalar().eq(&x));
}

#[test]
fn masks_depend_on_the_label() {
    let (pairs, pks) = clients(2);
    let a = dsum::h(b"one", &pairs[0].0, &pks[1]);
    let b = dsum::h(b"two", &pairs[0].0, &pks[1]);
    let again = dsum::h(b"one", &pairs[0].0, &pks[1]);
    assert!(!a.eq(&b));
    assert!(a.eq(&again));
}

#[test]
fn without_peers_nothing_is_added() {
    let kp = dsum::client_setup();
    let x = Scalar::from_u64(77);
    let c = dsum::encode(&x, &kp.0, &[], &Label::empty());
    assert!(c.scalar().eq(&x));
    assert!(dsum::combine(&[]).eq(&Scalar::zero()));
    assert!(dsum::combine(&[c, c]).eq(&Scalar::from_u64(154)));
}

#[test]
fn the_public_key_is_the_private_key_times_the_generator() {
    let kp = dsum::key_pair_of(Scalar::from_u64(5));
    assert!(kp.0.scalar().eq(&Scalar::from_u64(5)));
    assert!(kp.1.point().eq(&G1Point::from_scalar(&Scalar::from_u64(5))));
    let fresh = dsum::client_setup();
    assert!(fresh.1.point().eq(&G1Point::from_scalar(&fresh.0.scalar())));
    assert!(!fresh.0.scalar().eq(&dsum::client_setup().0.scalar()));
}

#[test]
fn encodings_are_ordered_byte_by_byte() {
    let mut a = [0u8; 48];
    let mut b = [0u8; 48];
    assert!(!dsum::is_greater(&a, &b));
    a[47] = 1;
    assert!(dsum::is_greater(&a, &b));
    assert!(!dsum::is_greater(&b, &a));
    b[0] = 1;
    assert!(dsum::is_greater(&b, &a));
    assert!(!dsum::is_greater(&a, &b));
    a[0] = 200;
    assert!(dsum::is_greater(&a, &b));
}

#[test]
fn the_default_ciphertext_holds_zero() {
    assert!(dsum::CypherText::default().scalar().eq(&Scalar::zero()));
}
