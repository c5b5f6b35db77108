use dmcfe::dlp;
use dmcfe::error::Error;
use dmcfe::field::Scalar;
use dmcfe::g1::G1Point;
use dmcfe::ip_mcfe;
use rand::Rng;

// Client contribution:
// - `cyphertext`:  the cyphered version of the client contributions
// - `key`:         the partial decryption key
struct Contribution {
    cx: Vec<ip_mcfe::CypherText>,
    key: ip_mcfe::PartialDecryptionKey,
}

/// Draw a random scalar from Fp.
fn random_scalar() -> Scalar {
    let mut wide = [0u8; 64];
    rand::thread_rng().fill(&mut wide[..]);
    Scalar::from_bytes_wide(&wide)
}

fn scalars(values: &[u64]) -> Vec<Scalar> {
    values.iter().map(|v| Scalar::from_u64(*v)).collect()
}

/// Simulate a client:
/// - compute the cyphered contributions;
/// - compute the partial decryption key.
fn encrypt_simulation(
    eki: &ip_mcfe::EncryptionKey,
    xi: &[Scalar],
    yi: &[Scalar],
    l: usize,
) -> Result<Contribution, Error> {
    Ok(Contribution { cx: ip_mcfe::encrypt(eki, xi, l)?, key: ip_mcfe::dkey_gen(eki, yi)? })
}

/// Gather the cyphered contributions of the clients, along with their partial
/// decryption keys, build the decryption key and use it to compute `<x,y>`.
fn decrypt_simulation(contributions: Vec<Contribution>, l: usize) -> Result<G1Point, Error> {
    let mut c: Vec<Vec<ip_mcfe::CypherText>> = Vec::new();
    let mut keys: Vec<ip_mcfe::PartialDecryptionKey> = Vec::new();
    for contrib in contributions {
        c.push(contrib.cx);
        keys.push(contrib.key);
    }

    // Generate the decryption key
    let dk = ip_mcfe::key_comb(&keys)?;

    Ok(ip_mcfe::decrypt(&c, &dk, l))
}

/// Simulate a complete MCFE encryption and decryption process.
/// - `x`:  the contribution vector
/// - `y`:  the vector associated with the decryption function
/// - `l`:  the label
/// It returns the result of the MCFE in G1.
fn simulation(x: &[Vec<Scalar>], y: &[Vec<Scalar>], l: usize) -> Result<G1Point, Error> {
    // check input sizes:
    // x and y should have the same size since `<x,y>` is to be computed
    assert!(x.len() == y.len(), "x and y should have the same size!");
    assert!(!x.is_empty(), "The given text vector should not be empty!");
    x.iter()
        .zip(y.iter())
        .for_each(|(xi, yi)| assert_eq!(xi.len(), yi.len(), "x and y should have the same size!"));

    // define simulation parameters
    let n = x.len();
    let m = x.first().unwrap().len();

    // generate encryption keys
    let ek = ip_mcfe::setup(n, m);

    let mut contributions = Vec::new();
    for i in 0..n {
        contributions.push(encrypt_simulation(&ek[i], &x[i], &y[i], l)?);
    }
    decrypt_simulation(contributions, l)
}

fn inner_products(x: &[Vec<Scalar>], y: &[Vec<Scalar>]) -> Scalar {
    let mut sum = Scalar::zero();
    for (xi, yi) in x.iter().zip(y.iter()) {
        for (xij, yij) in xi.iter().zip(yi.iter()) {
            sum = sum.add(&xij.mul(yij));
        }
    }
    sum
}

#[test]
fn test_mcfe() {
    // number of clients
    let n = rand::thread_rng().gen_range(2..20);
    // number of contributions per client
    let m = rand::thread_rng().gen_range(2..10);
    // messages
    let x = vec![vec![random_scalar(); m]; n];
    // decryption function
    let y = vec![vec![random_scalar(); m]; n];
    // label
    let l = rand::random();

    // compute the solution `G * <x,y>`
    // stay in G1 to avoid computing the discrete log
    let s = G1Point::generator().mul(&inner_products(&x, &y));

    let res = simulation(&x, &y, l).unwrap();
    // compare it with the solution computed with the MCFE algorithm
    assert!(s.eq(&res), "Error while computing the MCFE: incorrect result!");
}

#[test]
fn three_clients_with_two_contributions_each() {
    let x = vec![scalars(&[1, 2]), scalars(&[3, 4]), scalars(&[5, 6])];
    let y = vec![scalars(&[1, 1]), scalars(&[1, 1]), scalars(&[1, 1])];
    let res = simulation(&x, &y, 7).unwrap();
    assert!(res.eq(&G1Point::from_scalar(&Scalar::from_u64(21))));
    assert_eq!(dlp::bsgs(&res, 8, 8), Ok(21));
}

#[test]
fn weights_pick_the_contributions() {
    let x = vec![scalars(&[10, 20, 30]), scalars(&[1, 2, 3])];
    let y = vec![scalars(&[0, 1, 0]), scalars(&[2, 0, 5])];
    // 20 + 2 + 15
    let res = simulation(&x, &y, 0).unwrap();
    assert_eq!(dlp::bsgs(&res, 8, 8), Ok(37));
}

#[test]
fn setup_deals_keys_of_the_right_shape() {
    let keys = ip_mcfe::setup(3, 4);
    assert_eq!(keys.len(), 3);
    for (s, msk) in &keys {
        assert_eq!(s.len(), 4);
        assert!(s.iter().all(|row| row.len() == 2));
        assert_eq!(msk.len(), 4);
    }
    assert!(!keys[0].1[0].eq(&keys[1].1[0]));
}

#[test]
fn encrypt_depends_on_the_label_and_the_contribution() {
    let keys = ip_mcfe::setup(1, 2);
    let a = ip_mcfe::encrypt(&keys[0], &scalars(&[1, 2]), 7).unwrap();
    let b = ip_mcfe::encrypt(&keys[0], &scalars(&[1, 2]), 7).unwrap();
    let c = ip_mcfe::encrypt(&keys[0], &scalars(&[1, 2]), 8).unwrap();
    let d = ip_mcfe::encrypt(&keys[0], &scalars(&[1, 3]), 7).unwrap();
    assert_eq!(a.len(), 2);
    assert!(a[0].eq(&b[0]) && a[1].eq(&b[1]));
    assert!(!a[0].eq(&c[0]));
    assert!(a[0].eq(&d[0]));
    assert!(!a[1].eq(&d[1]));
    // a contribution that is one larger moves the ciphertext by the generator
    assert!(d[1].sub(&a[1]).eq(&G1Point::generator()));
}

#[test]
fn encrypt_is_as_long_as_its_shortest_input() {
    let keys = ip_mcfe::setup(1, 3);
    assert_eq!(ip_mcfe::encrypt(&keys[0], &scalars(&[1, 2]), 7).unwrap().len(), 2);
    assert_eq!(ip_mcfe::encrypt(&keys[0], &scalars(&[1, 2, 3, 4]), 7).unwrap().len(), 3);
    assert_eq!(ip_mcfe::encrypt(&keys[0], &scalars(&[]), 7).unwrap().len(), 0);
}

#[test]
fn a_matrix_that_has_not_two_columns_is_a_size_mismatch() {
    let wide: ip_mcfe::EncryptionKey = (vec![scalars(&[1, 2, 3]), scalars(&[4, 5, 6])], scalars(&[7, 8]));
    assert_eq!(ip_mcfe::encrypt(&wide, &scalars(&[1, 2]), 7).err(), Some(Error::SizeMismatch));
    assert_eq!(ip_mcfe::dkey_gen(&wide, &scalars(&[1, 2])).err(), Some(Error::SizeMismatch));
    let ragged: ip_mcfe::EncryptionKey = (vec![scalars(&[1, 2]), scalars(&[4])], scalars(&[7, 8]));
    assert_eq!(ip_mcfe::encrypt(&ragged, &scalars(&[1, 2]), 7).err(), Some(Error::SizeMismatch));
    assert_eq!(ip_mcfe::dkey_gen(&ragged, &scalars(&[1, 2])).err(), Some(Error::SizeMismatch));
    let empty: ip_mcfe::EncryptionKey = (vec![], scalars(&[]));
    assert_eq!(ip_mcfe::encrypt(&empty, &scalars(&[1, 2]), 7).unwrap().len(), 0);
    assert_eq!(ip_mcfe::dkey_gen(&empty, &scalars(&[])).err(), Some(Error::SizeMismatch));
}

#[test]
fn weights_of_the_wrong_length_are_a_size_mismatch() {
    let key: ip_mcfe::EncryptionKey = (vec![scalars(&[1, 2]), scalars(&[3, 4])], scalars(&[5, 6]));
    assert_eq!(ip_mcfe::dkey_gen(&key, &scalars(&[1])).err(), Some(Error::SizeMismatch));
    assert_eq!(ip_mcfe::dkey_gen(&key, &scalars(&[1, 2, 3])).err(), Some(Error::SizeMismatch));
    assert!(ip_mcfe::dkey_gen(&key, &scalars(&[1, 2])).is_ok());
}

#[test]
fn partial_key_holds_the_columns_times_the_weights() {
    let key: ip_mcfe::EncryptionKey = (vec![scalars(&[1, 2]), scalars(&[3, 4])], scalars(&[5, 6]));
    let (y, dky, ipdk) = ip_mcfe::dkey_gen(&key, &scalars(&[10, 100])).unwrap();
    assert_eq!(y.len(), 2);
    assert!(y[0].eq(&Scalar::from_u64(10)) && y[1].eq(&Scalar::from_u64(100)));
    // 1 * 10 + 3 * 100 and 2 * 10 + 4 * 100
    assert!(dky[0].eq(&Scalar::from_u64(310)));
    assert!(dky[1].eq(&Scalar::from_u64(420)));
    // 10 * 5 + 100 * 6
    assert!(ipdk.eq(&Scalar::from_u64(650)));
}

#[test]
fn key_comb_stacks_and_adds() {
    let a: ip_mcfe::PartialDecryptionKey =
        (scalars(&[1, 2]), [Scalar::from_u64(3), Scalar::from_u64(4)], Scalar::from_u64(5));
    let b: ip_mcfe::PartialDecryptionKey =
        (scalars(&[6]), [Scalar::from_u64(7), Scalar::from_u64(8)], Scalar::from_u64(9));
    let (y, d, ipdk) = ip_mcfe::key_comb(&[a, b]).unwrap();
    assert_eq!(y.len(), 2);
    assert_eq!(y[0].len(), 2);
    assert_eq!(y[1].len(), 1);
    assert!(y[1][0].eq(&Scalar::from_u64(6)));
    assert_eq!(d.len(), 2);
    assert!(d[0].eq(&Scalar::from_u64(10)));
    assert!(d[1].eq(&Scalar::from_u64(12)));
    assert_eq!(ipdk.len(), 2);
    assert!(ipdk[0].eq(&Scalar::from_u64(5)) && ipdk[1].eq(&Scalar::from_u64(9)));
    let (y, d, ipdk) = ip_mcfe::key_comb(&[]).unwrap();
    assert!(y.is_empty() && ipdk.is_empty());
    assert!(d[0].eq(&Scalar::zero()) && d[1].eq(&Scalar::zero()));
}

#[test]
fn decrypt_of_nothing_is_the_neutral_element() {
    let dk = ip_mcfe::key_comb(&[]).unwrap();
    assert!(ip_mcfe::decrypt(&[], &dk, 3).eq(&G1Point::identity()));
}

#[test]
fn a_master_secret_of_the_wrong_length_is_a_size_mismatch() {
    let rows = vec![scalars(&[1, 2]), scalars(&[3, 4])];
    let short: ip_mcfe::EncryptionKey = (rows.clone(), scalars(&[5]));
    assert_eq!(ip_mcfe::dkey_gen(&short, &scalars(&[1, 2])).err(), Some(Error::SizeMismatch));
    let long: ip_mcfe::EncryptionKey = (rows.clone(), scalars(&[5, 6, 7]));
    assert_eq!(ip_mcfe::dkey_gen(&long, &scalars(&[1, 2])).err(), Some(Error::SizeMismatch));
    let none: ip_mcfe::EncryptionKey = (rows.clone(), scalars(&[]));
    assert_eq!(ip_mcfe::dkey_gen(&none, &scalars(&[1, 2])).err(), Some(Error::SizeMismatch));
    let right: ip_mcfe::EncryptionKey = (rows, scalars(&[5, 6]));
    let (_, _, ipdk) = ip_mcfe::dkey_gen(&right, &scalars(&[1, 2])).unwrap();
    assert!(ipdk.eq(&Scalar::from_u64(17)));
}
