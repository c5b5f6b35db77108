use dmcfe::dlp::kangaroo;
use dmcfe::dlp::table::Table;
use dmcfe::error::Error;
use dmcfe::field::Scalar;
use dmcfe::gt::{pairing, GtPoint};
use dmcfe::g1::G1Point;
use dmcfe::g2::G2Point;
use dmcfe::label::Label;
use dmcfe::ipdmcfe::{transition, Event, State};
use dmcfe::{dsum, ipdmcfe};
use rand::Rng;

/// Number of decryption keys asked by the user
const NB_DK: u8 = 2;

/// Generate a random scalar
fn random_scalar() -> Scalar {
    let mut wide = [0u8; 64];
    rand::thread_rng().fill(&mut wide[..]);
    Scalar::from_bytes_wide(&wide)
}

/// Simulate a complete DMCFE encryption and decryption process with `n`
/// clients and one user who asks for decryption keys.
fn simulation(n: usize) {
    // setup step: every client publishes its public key
    let pairs: Vec<dsum::KeyPair> = (0..n).map(|_| dsum::client_setup()).collect();
    let pk_list: Vec<dsum::PublicKey> = pairs.iter().map(|kp| kp.1).collect();
    let keys: Vec<ipdmcfe::PrivateKey> = pairs
        .iter()
        .map(|kp| ipdmcfe::setup(&kp.0, &pk_list))
        .collect();

    // every client encrypts its contribution under the same label
    let l = Label::new();
    let x: Vec<Scalar> = (0..n).map(|_| random_scalar()).collect();
    let batch: Vec<(ipdmcfe::CypherText, Label)> = (0..n)
        .map(|id| (ipdmcfe::encrypt(&x[id], &keys[id], &l), Label::from_bytes(l.as_bytes())))
        .collect();
    let (c, l) = ipdmcfe::check_labels(&batch).unwrap();

    // the user asks for some decryption keys and decrypts with each
    for _ in 0..NB_DK {
        let y: Vec<Scalar> = (0..n).map(|_| random_scalar()).collect();
        let dk_list: Vec<ipdmcfe::PartialDecryptionKey> =
            (0..n).map(|id| ipdmcfe::dkey_gen_share(id, &keys[id], &y)).collect();
        let dk = ipdmcfe::key_comb(&y, &dk_list);
        let res = ipdmcfe::decrypt(&c, &dk, &l);

        let mut sum = Scalar::zero();
        for (xi, yi) in x.iter().zip(dk.y.iter()) {
            sum = sum.add(&yi.mul(xi));
        }
        let expected = pairing(&G1Point::generator(), &G2Point::generator()).mul(&sum);
        assert!(res.eq(&expected), "Wrong result!");
        assert!(res.eq(&GtPoint::from_scalar(&sum)));
    }
}

#[test]
fn test_dmcfe() {
    simulation(rand::thread_rng().gen_range(2..20))
}


fn scalars(values: &[u64]) -> Vec<Scalar> {
    values.iter().map(|v| Scalar::from_u64(*v)).collect()
}

/// Runs the scheme for the given contributions and weights under one label.
fn run(x: &[Scalar], y: &[Scalar], l: &Label) -> GtPoint {
    let n = x.len();
    let pairs: Vec<dsum::KeyPair> = (0..n).map(|_| dsum::client_setup()).collect();
    let pk_list: Vec<dsum::PublicKey> = pairs.iter().map(|kp| kp.1).collect();
    let keys: Vec<ipdmcfe::PrivateKey> = pairs
        .iter()
        .map(|kp| ipdmcfe::setup(&kp.0, &pk_list))
        .collect();
    let c: Vec<ipdmcfe::CypherText> =
        (0..n).map(|id| ipdmcfe::encrypt(&x[id], &keys[id], l)).collect();
    let dk_list: Vec<ipdmcfe::PartialDecryptionKey> =
        (0..n).map(|id| ipdmcfe::dkey_gen_share(id, &keys[id], y)).collect();
    let dk = ipdmcfe::key_comb(y, &dk_list);
    ipdmcfe::decrypt(&c, &dk, l)
}

/// A table for the interval of length 64, and the jumps it was built with.
/// The tame walks start at the multiples of four.
fn small_table() -> (Table<Scalar>, Vec<Scalar>) {
    let jumps = scalars(&[1, 2, 3, 5]);
    let starts: Vec<Scalar> = (0..16u64).map(|k| Scalar::from_u64(4 * k)).collect();
    (kangaroo::table_from_starts(&starts, &jumps, 64, 16, 64), jumps)
}

#[test]
fn three_clients_with_weights_of_one() {
    let res = run(&scalars(&[1, 2, 3]), &scalars(&[1, 1, 1]), &Label::new());
    assert!(res.eq(&GtPoint::from_scalar(&Scalar::from_u64(6))));
    let (table, jumps) = small_table();
    let found = kangaroo::solve_from(&table, &jumps, &res, &scalars(&[2]), 64, 16, 64).unwrap();
    assert!(found.eq(&Scalar::from_u64(6)));
    let again = kangaroo::solve(&table, &jumps, &res, 64, 16, 64, 4).unwrap();
    assert!(again.eq(&Scalar::from_u64(6)));
}

#[test]
fn contributions_of_zero_give_the_neutral_element() {
    let y = [random_scalar(), random_scalar()];
    let res = run(&scalars(&[0, 0]), &y, &Label::from_text("zero"));
    assert!(res.eq(&GtPoint::identity()));
    let (table, jumps) = small_table();
    let found = kangaroo::solve_from(&table, &jumps, &res, &scalars(&[8]), 64, 16, 64).unwrap();
    assert!(found.eq(&Scalar::zero()));
}

#[test]
fn a_negative_inner_product_wraps_around() {
    let minus_one = Scalar::one().neg();
    let y = [Scalar::one(), Scalar::zero(), Scalar::zero(), Scalar::zero(), minus_one];
    let res = run(&scalars(&[10, 20, 30, 40, 50]), &y, &Label::from_text("wrap"));
    let minus_forty = Scalar::from_u64(40).neg();
    assert!(res.eq(&GtPoint::from_scalar(&minus_forty)));
    let (table, jumps) = small_table();
    // the walk from -40 + 44 takes the path of the tame walk from 4
    let found = kangaroo::solve_from(&table, &jumps, &res, &scalars(&[44]), 64, 16, 64).unwrap();
    assert!(found.eq(&minus_forty));
    assert!(found.eq(&Scalar::from_u64(10).sub(&Scalar::from_u64(50))));
    assert!(found.add(&Scalar::from_u64(40)).eq(&Scalar::zero()));
}

#[test]
fn the_shares_of_zero_add_up_to_zero() {
    let n = 3;
    let pairs: Vec<dsum::KeyPair> = (0..n).map(|_| dsum::client_setup()).collect();
    let pk_list: Vec<dsum::PublicKey> = pairs.iter().map(|kp| kp.1).collect();
    let shares: Vec<_> = pairs.iter().map(|kp| ipdmcfe::t_gen(&kp.0, &pk_list)).collect();
    let sum = |pick: &dyn Fn(&dmcfe::types::TMat<dsum::CypherText>) -> dsum::CypherText| {
        shares.iter().fold(Scalar::zero(), |acc, t| acc.add(&pick(t).scalar()))
    };
    assert!(sum(&|t| t.a).eq(&Scalar::zero()));
    assert!(sum(&|t| t.b).eq(&Scalar::zero()));
    assert!(sum(&|t| t.c).eq(&Scalar::zero()));
    assert!(sum(&|t| t.d).eq(&Scalar::zero()));
    // the four entries are encoded under four labels
    assert!(!shares[0].a.scalar().eq(&shares[0].b.scalar()));
    assert!(!shares[0].a.scalar().eq(&Scalar::zero()));
    let mut l = Label::from_text("Setup");
    l.aggregate(&[2]);
    let c = dsum::encode(&Scalar::zero(), &pairs[1].0, &pk_list, &l);
    assert!(shares[1].c.scalar().eq(&c.scalar()));
}

#[test]
fn a_key_with_a_given_vector() {
    let kp = dsum::client_setup();
    let s = dmcfe::types::DVec::new(Scalar::from_u64(2), Scalar::from_u64(3));
    let key = ipdmcfe::setup_with(&kp.0, &[kp.1], s);
    assert!(key.s.x.eq(&Scalar::from_u64(2)) && key.s.y.eq(&Scalar::from_u64(3)));
    // alone, a client has no mask
    assert!(key.t.a.scalar().eq(&Scalar::zero()) && key.t.d.scalar().eq(&Scalar::zero()));
    // the ciphertext is <u, s> + x
    let l = Label::from_text("L");
    let c = ipdmcfe::encrypt(&Scalar::from_u64(7), &key, &l);
    let u = dmcfe::hash::double_hash_to_curve_in_g1(l.as_bytes());
    let expected = u.x.mul(&Scalar::from_u64(2)).add(&u.y.mul(&Scalar::from_u64(3))).add(
        &G1Point::from_scalar(&Scalar::from_u64(7)),
    );
    assert!(c.point().eq(&expected));
    // alone, the share is s * y times the generator
    let y = scalars(&[5]);
    let dk = ipdmcfe::key_comb(&y, &[ipdmcfe::dkey_gen_share(0, &key, &y)]);
    assert_eq!(dk.y.len(), 1);
    assert!(dk.y[0].eq(&Scalar::from_u64(5)));
    let res = ipdmcfe::decrypt(&[c], &dk, &l);
    assert!(res.eq(&GtPoint::from_scalar(&Scalar::from_u64(35))));
}

#[test]
fn decryption_goes_as_far_as_ciphertexts_and_weights() {
    let kp = dsum::client_setup();
    let s = dmcfe::types::DVec::new(Scalar::zero(), Scalar::zero());
    let key = ipdmcfe::setup_with(&kp.0, &[kp.1], s);
    let l = Label::from_text("L");
    let c = ipdmcfe::encrypt(&Scalar::from_u64(7), &key, &l);
    let dk = ipdmcfe::key_comb(&scalars(&[2, 3]), &[]);
    assert!(ipdmcfe::decrypt(&[c], &dk, &l).eq(&GtPoint::from_scalar(&Scalar::from_u64(14))));
    assert!(ipdmcfe::decrypt(&[c, c, c], &dk, &l).eq(&GtPoint::from_scalar(&Scalar::from_u64(35))));
    assert!(ipdmcfe::decrypt(&[], &dk, &l).eq(&GtPoint::identity()));
}

#[test]
fn a_batch_under_one_label_is_accepted() {
    let kp = dsum::client_setup();
    let key = ipdmcfe::setup(&kp.0, &[kp.1]);
    let l = Label::from_text("one");
    let a = ipdmcfe::encrypt(&Scalar::from_u64(1), &key, &l);
    let b = ipdmcfe::encrypt(&Scalar::from_u64(2), &key, &l);
    let batch = [(a, Label::from_text("one")), (b, Label::from_text("one"))];
    let (c, label) = ipdmcfe::check_labels(&batch).unwrap();
    assert_eq!(c.len(), 2);
    assert!(c[0].point().eq(&a.point()) && c[1].point().eq(&b.point()));
    assert!(label.eq(&l));
}

#[test]
fn a_batch_that_mixes_labels_is_refused() {
    let kp = dsum::client_setup();
    let key = ipdmcfe::setup(&kp.0, &[kp.1]);
    let a = ipdmcfe::encrypt(&Scalar::from_u64(1), &key, &Label::from_text("one"));
    let b = ipdmcfe::encrypt(&Scalar::from_u64(2), &key, &Label::from_text("two"));
    assert!(!a.point().eq(&ipdmcfe::encrypt(&Scalar::from_u64(1), &key, &Label::from_text("two")).point()));
    let batch = [(a, Label::from_text("one")), (b, Label::from_text("two"))];
    assert_eq!(ipdmcfe::check_labels(&batch).err(), Some(Error::PreconditionViolation));
}

#[test]
fn a_client_goes_from_setup_to_serving() {
    assert_eq!(transition(State::Uninitialized, Event::ClientSetup), Some(State::KeysPublished));
    assert_eq!(transition(State::KeysPublished, Event::PeersReceived), Some(State::Ready));
    assert_eq!(transition(State::Ready, Event::Encrypt), Some(State::Serving));
    assert_eq!(transition(State::Ready, Event::KeyShare), Some(State::Serving));
    assert_eq!(transition(State::Serving, Event::Encrypt), Some(State::Serving));
    assert_eq!(transition(State::Serving, Event::KeyShare), Some(State::Serving));
    for state in [State::Uninitialized, State::KeysPublished, State::Ready, State::Serving] {
        assert_eq!(transition(state, Event::Shutdown), Some(State::Closed));
    }
    assert_eq!(transition(State::Uninitialized, Event::Encrypt), None);
    assert_eq!(transition(State::Uninitialized, Event::PeersReceived), None);
    assert_eq!(transition(State::KeysPublished, Event::KeyShare), None);
    assert_eq!(transition(State::KeysPublished, Event::ClientSetup), None);
    assert_eq!(transition(State::Ready, Event::ClientSetup), None);
    assert_eq!(transition(State::Serving, Event::PeersReceived), None);
    assert_eq!(transition(State::Closed, Event::Shutdown), None);
    assert_eq!(transition(State::Closed, Event::Encrypt), None);
}

#[test]
fn the_decryptor_refuses_ciphertexts_under_another_label() {
    let kp = dsum::client_setup();
    let s = dmcfe::types::DVec::new(Scalar::from_u64(2), Scalar::from_u64(3));
    let key = ipdmcfe::setup_with(&kp.0, &[kp.1], s);
    let l = Label::from_text("one");
    let other = Label::from_text("two");
    let y = scalars(&[5, 1]);
    let dk = ipdmcfe::key_comb(&y[..1], &[ipdmcfe::dkey_gen_share(0, &key, &y[..1])]);
    let a = ipdmcfe::encrypt(&Scalar::from_u64(7), &key, &l);
    let b = ipdmcfe::encrypt(&Scalar::from_u64(7), &key, &other);

    // under the label of the call, the result is that of the plain decryptor
    let good = [(a, Label::from_text("one"))];
    let res = ipdmcfe::decrypt_labelled(&good, &dk, &l).unwrap();
    assert!(res.eq(&ipdmcfe::decrypt(&[a], &dk, &l)));
    assert!(res.eq(&GtPoint::from_scalar(&Scalar::from_u64(35))));

    // a label that differs from that of the call is refused, wherever it stands
    let mixed = [(a, Label::from_text("one")), (b, Label::from_text("two"))];
    assert_eq!(ipdmcfe::decrypt_labelled(&mixed, &dk, &l).err(), Some(Error::PreconditionViolation));
    let swapped = [(b, Label::from_text("two")), (a, Label::from_text("one"))];
    assert_eq!(ipdmcfe::decrypt_labelled(&swapped, &dk, &l).err(), Some(Error::PreconditionViolation));
    // a batch under one label is refused when the call names another
    assert_eq!(ipdmcfe::decrypt_labelled(&good, &dk, &other).err(), Some(Error::PreconditionViolation));
    // nothing to decrypt is no mix
    assert!(ipdmcfe::decrypt_labelled(&[], &dk, &l).is_ok());
}

#[test]
fn the_weights_of_a_key_can_be_read() {
    let y = scalars(&[5, 1]);
    let dk = ipdmcfe::key_comb(&y, &[]);
    assert_eq!(dk.y().len(), 2);
    assert!(dk.y()[0].eq(&Scalar::from_u64(5)) && dk.y()[1].eq(&Scalar::from_u64(1)));
    assert!(dk.y()[0].eq(&dk.y[0]));
}
