use lattice_cryptography::{
    decrypt, encrypt, encrypt_with, generate_random_vector, inner_product, key_gen, key_gen_from,
    matrix_add, matrix_mul, reduce, LatticeError, LatticeParams,
};
use num_bigint::BigInt;

fn big(x: i64) -> BigInt {
    BigInt::from(x)
}

fn bigs(xs: &[i64]) -> Vec<BigInt> {
    xs.iter().map(|&x| big(x)).collect()
}

fn params(n: usize, m: i64, err: i64) -> LatticeParams {
    LatticeParams::new(n, big(m), big(err))
}

#[test]
fn concrete_scenario_encrypts_and_decrypts_one() {
    let p = params(2, 97, 2);
    let a = vec![bigs(&[1, 2]), bigs(&[3, 4])];
    let (pk, sk) = key_gen_from(&p, a, bigs(&[3, 5]), bigs(&[0, 0]));
    assert_eq!(pk.b(), bigs(&[13, 29]));
    assert_eq!(pk.a(), vec![bigs(&[1, 2]), bigs(&[3, 4])]);
    assert_eq!(sk.s(), bigs(&[3, 5]));
    let c = encrypt_with(&p, &pk, 1, &bigs(&[1, 0])).ok().unwrap();
    assert_eq!(c.c1(), bigs(&[1, 3]));
    assert_eq!(c.c2(), big(61));
    assert_eq!(decrypt(&p, &c, &sk), 1);
}

#[test]
fn concrete_scenario_encrypts_and_decrypts_zero() {
    let p = params(2, 97, 2);
    let a = vec![bigs(&[1, 2]), bigs(&[3, 4])];
    let (pk, sk) = key_gen_from(&p, a, bigs(&[3, 5]), bigs(&[0, 0]));
    let c = encrypt_with(&p, &pk, 0, &bigs(&[1, 0])).ok().unwrap();
    assert_eq!(c.c1(), bigs(&[1, 3]));
    assert_eq!(c.c2(), big(13));
    assert_eq!(decrypt(&p, &c, &sk), 0);
}

#[test]
fn key_gen_from_adds_noise_modulo() {
    let p = params(2, 97, 5);
    let a = vec![bigs(&[50, 60]), bigs(&[96, 1])];
    let (pk, _) = key_gen_from(&p, a, bigs(&[1, 1]), bigs(&[4, 3]));
    // 50 + 60 = 110 = 13 (mod 97), plus 4; 96 + 1 = 0 (mod 97), plus 3
    assert_eq!(pk.b(), bigs(&[17, 3]));
}

#[test]
fn round_trip_in_dimension_one() {
    let p = params(1, 65537, 16);
    for _ in 0..100 {
        let (pk, sk) = key_gen(&p);
        for bit in 0..2u8 {
            let c = encrypt(&p, &pk, bit).ok().unwrap();
            assert_eq!(decrypt(&p, &c, &sk), bit);
        }
    }
}

#[test]
fn round_trip_with_symmetric_matrix() {
    let p = params(3, 65537, 16);
    for _ in 0..100 {
        let r = generate_random_vector(6, &big(65537));
        let a = vec![
            vec![r[0].clone(), r[1].clone(), r[2].clone()],
            vec![r[1].clone(), r[3].clone(), r[4].clone()],
            vec![r[2].clone(), r[4].clone(), r[5].clone()],
        ];
        let s = generate_random_vector(3, &big(65537));
        let e = generate_random_vector(3, &big(16));
        let (pk, sk) = key_gen_from(&p, a, s, e);
        for bit in 0..2u8 {
            let c = encrypt(&p, &pk, bit).ok().unwrap();
            assert_eq!(decrypt(&p, &c, &sk), bit);
        }
    }
}

#[test]
fn key_consistency_noise_below_error_range() {
    let m = big(65537);
    let p = params(8, 65537, 16);
    for _ in 0..20 {
        let (pk, sk) = key_gen(&p);
        let a = pk.a();
        let b = pk.b();
        let s = sk.s();
        for i in 0..8 {
            let row: BigInt = a[i].iter().zip(s.iter()).map(|(x, y)| x * y).sum();
            let diff = ((&b[i] - row) % &m + &m) % &m;
            assert!(diff < big(16));
        }
    }
}

#[test]
fn modular_closure_of_keys_and_ciphers() {
    let m = big(65537);
    let p = params(6, 65537, 16);
    let zero = big(0);
    let (pk, sk) = key_gen(&p);
    assert_eq!(pk.a().len(), 6);
    for row in pk.a() {
        assert_eq!(row.len(), 6);
        assert!(row.iter().all(|x| *x >= zero && *x < m));
    }
    assert!(pk.b().iter().all(|x| *x >= zero && *x < m));
    assert!(sk.s().iter().all(|x| *x >= zero && *x < m));
    for bit in 0..2u8 {
        let c = encrypt(&p, &pk, bit).ok().unwrap();
        assert_eq!(c.c1().len(), 6);
        assert!(c.c1().iter().all(|x| *x >= zero && *x < m));
        assert!(c.c2() >= zero && c.c2() < m);
    }
}

#[test]
fn encrypt_rejects_message_two() {
    let p = params(2, 97, 2);
    let (pk, _) = key_gen(&p);
    assert!(matches!(
        encrypt(&p, &pk, 2),
        Err(LatticeError::InvalidMessage { message: 2 })
    ));
    assert!(matches!(
        encrypt_with(&p, &pk, 255, &bigs(&[0, 0])),
        Err(LatticeError::InvalidMessage { message: 255 })
    ));
}

#[test]
fn encrypt_with_reports_length_mismatch() {
    let p = params(2, 97, 2);
    let a = vec![bigs(&[1, 2]), bigs(&[3, 4])];
    let (pk, _) = key_gen_from(&p, a, bigs(&[3, 5]), bigs(&[0, 0]));
    assert!(matches!(
        encrypt_with(&p, &pk, 1, &bigs(&[1, 0, 0])),
        Err(LatticeError::LengthMismatch { expected: 2, found: 3 })
    ));
}

#[test]
fn matrix_mul_reduces_each_row() {
    let a = vec![bigs(&[1, 2]), bigs(&[3, 4]), bigs(&[-5, 0])];
    let r = matrix_mul(&a, &bigs(&[10, 20]), &big(7)).ok().unwrap();
    // 50 = 1 (mod 7), 110 = 5 (mod 7), -50 = 6 (mod 7)
    assert_eq!(r, bigs(&[1, 5, 6]));
}

#[test]
fn matrix_mul_reports_first_short_row() {
    let a = vec![bigs(&[1, 2]), bigs(&[3]), bigs(&[4, 5, 6])];
    assert!(matches!(
        matrix_mul(&a, &bigs(&[1, 1]), &big(7)),
        Err(LatticeError::LengthMismatch { expected: 1, found: 2 })
    ));
}

#[test]
fn matrix_add_reduces_each_entry() {
    let r = matrix_add(&bigs(&[5, 6, -1]), &bigs(&[1, 3, 0]), &big(7));
    assert_eq!(r, bigs(&[6, 2, 6]));
}

#[test]
fn reduce_normalizes_negative_values() {
    assert_eq!(reduce(&big(-5), &big(97)), big(92));
    assert_eq!(reduce(&big(-97), &big(97)), big(0));
    assert_eq!(reduce(&big(200), &big(97)), big(6));
}

#[test]
fn inner_product_sums_products() {
    assert_eq!(inner_product(&bigs(&[1, 2, 3]), &bigs(&[4, -5, 6])), big(12));
    assert_eq!(inner_product(&vec![], &vec![]), big(0));
}

#[test]
fn random_vector_stays_below_bound() {
    let v = generate_random_vector(500, &big(3));
    assert_eq!(v.len(), 500);
    assert!(v.iter().all(|x| *x >= big(0) && *x < big(3)));
    assert!(generate_random_vector(0, &big(3)).is_empty());
}

#[test]
fn decrypt_thresholds_at_quarter_modulus() {
    // m = 97, threshold 24: values up to 24 and above 73 decode to 0.
    // With A = 0, s = 0 and noise k, the key has b = k; encrypting 0 with
    // randomness 1 gives c1 = 0 and c2 = k, which decrypts by the value k.
    let p = params(1, 97, 97);
    let cases: [(i64, u8); 7] = [(0, 0), (24, 0), (25, 1), (48, 1), (73, 1), (74, 0), (96, 0)];
    for (k, expected) in cases {
        let (pk, sk) = key_gen_from(&p, vec![bigs(&[0])], bigs(&[0]), bigs(&[k]));
        let c = encrypt_with(&p, &pk, 0, &bigs(&[1])).ok().unwrap();
        assert_eq!(c.c2(), big(k));
        assert_eq!(decrypt(&p, &c, &sk), expected);
    }
}

#[test]
fn decrypt_removes_secret_weighted_part() {
    // c1 = A·r = [3], c1·s = 6, c2 = b·r + 48 = 2·4 + 48 = 56 (mod 97);
    // 56 - 6 = 50 decodes to 1.
    let p = params(1, 97, 5);
    let (pk, sk) = key_gen_from(&p, vec![bigs(&[3])], bigs(&[2]), bigs(&[2]));
    assert_eq!(pk.b(), bigs(&[8]));
    let c = encrypt_with(&p, &pk, 1, &bigs(&[1])).ok().unwrap();
    assert_eq!(c.c1(), bigs(&[3]));
    assert_eq!(c.c2(), big(56));
    assert_eq!(decrypt(&p, &c, &sk), 1);
}
