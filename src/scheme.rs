//! Key generation, single-bit encryption and decryption.
use crate::algebra::{
    add_mod, all_in, clone_matrix, clone_vector, dot, first_short_row, generate_random_vector,
    inner_product, ints, mat_vec, matrix_add, matrix_mul, reduce, rows, rows_of_len,
};
use crate::bigint::{
    big_add, big_clone, big_div_small, big_from_u8, big_le, big_mul, big_sub, int_of,
};
use crate::error::LatticeError;
use num_bigint::BigInt;
use vstd::prelude::*;

verus! {

/// The public parameters shared by every operation of the scheme.
pub struct LatticeParams {
    dimension: usize,
    modulus: BigInt,
    error_range: BigInt,
}

impl LatticeParams {
    /// The length `n` of every key and ciphertext vector.
    pub closed spec fn dim(&self) -> nat {
        self.dimension as nat
    }

    /// The modulus `m` of all arithmetic.
    pub closed spec fn modulus_value(&self) -> int {
        int_of(self.modulus)
    }

    /// The exclusive bound on sampled noise.
    pub closed spec fn error_bound(&self) -> int {
        int_of(self.error_range)
    }

    /// Both the modulus and the noise bound are positive.
    pub open spec fn wf(&self) -> bool {
        self.modulus_value() > 0 && self.error_bound() > 0
    }

    pub fn new(dimension: usize, modulus: BigInt, error_range: BigInt) -> (r: Self)
        ensures
            r.dim() == dimension,
            r.modulus_value() == int_of(modulus),
            r.error_bound() == int_of(error_range),
    {
        Self { dimension, modulus, error_range }
    }
}

/// The public key: a matrix `A` and the vector `b = A·s + e (mod m)`.
pub struct PublicKey {
    a: Vec<Vec<BigInt>>,
    b: Vec<BigInt>,
}

impl PublicKey {
    /// The matrix `A`.
    pub closed spec fn matrix(&self) -> Seq<Seq<int>> {
        rows(self.a@)
    }

    /// The vector `b`.
    pub closed spec fn vector(&self) -> Seq<int> {
        ints(self.b@)
    }

    /// A copy of the matrix `A`.
    pub fn a(&self) -> (r: Vec<Vec<BigInt>>)
        ensures
            rows(r@) == self.matrix(),
    {
        clone_matrix(&self.a)
    }

    /// A copy of the vector `b`.
    pub fn b(&self) -> (r: Vec<BigInt>)
        ensures
            ints(r@) == self.vector(),
    {
        clone_vector(&self.b)
    }

    fn new(a: Vec<Vec<BigInt>>, b: Vec<BigInt>) -> (r: Self)
        ensures
            r.matrix() == rows(a@),
            r.vector() == ints(b@),
    {
        Self { a, b }
    }
}

/// The secret key: the vector `s`.
pub struct SecretKey {
    s: Vec<BigInt>,
}

impl SecretKey {
    /// The vector `s`.
    pub closed spec fn secret(&self) -> Seq<int> {
        ints(self.s@)
    }

    /// A copy of the vector `s`.
    pub fn s(&self) -> (r: Vec<BigInt>)
        ensures
            ints(r@) == self.secret(),
    {
        clone_vector(&self.s)
    }

    fn new(s: Vec<BigInt>) -> (r: Self)
        ensures
            r.secret() == ints(s@),
    {
        Self { s }
    }
}

/// The encryption of one bit: a vector `c1` and an integer `c2`.
pub struct Cipher {
    c1: Vec<BigInt>,
    c2: BigInt,
}

impl Cipher {
    /// The vector part `c1`.
    pub closed spec fn first(&self) -> Seq<int> {
        ints(self.c1@)
    }

    /// The scalar part `c2`.
    pub closed spec fn second(&self) -> int {
        int_of(self.c2)
    }

    /// A copy of the vector part `c1`.
    pub fn c1(&self) -> (r: Vec<BigInt>)
        ensures
            ints(r@) == self.first(),
    {
        clone_vector(&self.c1)
    }

    /// A copy of the scalar part `c2`.
    pub fn c2(&self) -> (r: BigInt)
        ensures
            int_of(r) == self.second(),
    {
        big_clone(&self.c2)
    }

    fn new(c1: Vec<BigInt>, c2: BigInt) -> (r: Self)
        ensures
            r.first() == ints(c1@),
            r.second() == int_of(c2),
    {
        Self { c1, c2 }
    }
}

/// The public vector `b = (A·s mod m) + e`, reduced into `[0, m)`.
pub open spec fn key_vector(a: Seq<Seq<int>>, s: Seq<int>, e: Seq<int>, m: int) -> Seq<int> {
    add_mod(mat_vec(a, s, m), e, m)
}

/// The scalar part of a ciphertext: `(r·b mod m) + floor(m/2)·bit`, reduced
/// into `[0, m)`.
pub open spec fn encode_c2(r: Seq<int>, b: Seq<int>, m: int, bit: int) -> int {
    (dot(r, b) % m + (m / 2) * bit) % m
}

/// Threshold decoding of a value `x` in `[0, m)`: 0 near zero (within a
/// quarter of the modulus, either side), 1 otherwise.
pub open spec fn decode(m: int, x: int) -> u8 {
    if x <= m / 4 || x > m - m / 4 {
        0
    } else {
        1
    }
}

/// The bit recovered from `(c1, c2)` with the secret `s`.
pub open spec fn decrypted(c1: Seq<int>, c2: int, s: Seq<int>, m: int) -> u8 {
    decode(m, (c2 - dot(c1, s) % m + m) % m)
}

/// Every row of the matrix has its entries in `[0, m)`.
pub open spec fn matrix_in(a: Seq<Seq<int>>, m: int) -> bool {
    forall|i: int| 0 <= i < a.len() ==> all_in(#[trigger] a[i], 0, m)
}

/// Builds the key pair from given samples: the matrix `a`, the secret `s`
/// and the noise `e`.
pub fn key_gen_from(params: &LatticeParams, a: Vec<Vec<BigInt>>, s: Vec<BigInt>, e: Vec<BigInt>) -> (r: (
    PublicKey,
    SecretKey,
))
    requires
        params.wf(),
        a@.len() == params.dim(),
        rows_of_len(rows(a@), params.dim() as int),
        s@.len() == params.dim(),
        e@.len() == params.dim(),
    ensures
        r.0.matrix() == rows(a@),
        r.1.secret() == ints(s@),
        r.0.vector() == key_vector(rows(a@), ints(s@), ints(e@), params.modulus_value()),
{
    let prod = matrix_mul(&a, &s, &params.modulus);
    match prod {
        Ok(a_s) => {
            assert(ints(a_s@).len() == a_s@.len());
            let b = matrix_add(&a_s, &e, &params.modulus);
            (PublicKey::new(a, b), SecretKey::new(s))
        },
        Err(_) => {
            proof {
                assert(false);
            }
            (PublicKey::new(a, Vec::new()), SecretKey::new(s))
        },
    }
}

/// Generates a key pair: a uniform secret `s` and matrix `A` with entries in
/// `[0, m)`, and noise `e` with entries in `[0, error_range)`.
pub fn key_gen(params: &LatticeParams) -> (r: (PublicKey, SecretKey))
    requires
        params.wf(),
    ensures
        r.0.matrix().len() == params.dim(),
        rows_of_len(r.0.matrix(), params.dim() as int),
        matrix_in(r.0.matrix(), params.modulus_value()),
        r.1.secret().len() == params.dim(),
        all_in(r.1.secret(), 0, params.modulus_value()),
        r.0.vector().len() == params.dim(),
        all_in(r.0.vector(), 0, params.modulus_value()),
        exists|e: Seq<int>|
            e.len() == params.dim() && all_in(e, 0, params.error_bound()) && r.0.vector()
                == key_vector(r.0.matrix(), r.1.secret(), e, params.modulus_value()),
{
    let ghost n = params.dim() as int;
    let ghost m = params.modulus_value();
    let s = generate_random_vector(params.dimension, &params.modulus);
    let mut a: Vec<Vec<BigInt>> = Vec::new();
    let mut i: usize = 0;
    while i < params.dimension
        invariant
            params.wf(),
            n == params.dim(),
            m == params.modulus_value(),
            i <= n,
            a@.len() == i,
            rows_of_len(rows(a@), n),
            matrix_in(rows(a@), m),
        decreases n - i,
    {
        let row = generate_random_vector(params.dimension, &params.modulus);
        let ghost before = a@;
        let ghost row_ints = ints(row@);
        a.push(row);
        assert(rows(a@) =~= rows(before).push(row_ints));
        i += 1;
    }
    let e = generate_random_vector(params.dimension, &params.error_range);
    let ghost es = ints(e@);
    let r = key_gen_from(params, a, s, e);
    assert(r.0.vector() == key_vector(r.0.matrix(), r.1.secret(), es, m));
    r
}

/// Encrypts `message` with the given noise vector `e` in place of a fresh
/// sample. Only the bits 0 and 1 are accepted.
pub fn encrypt_with(params: &LatticeParams, public_key: &PublicKey, message: u8, e: &Vec<BigInt>) -> (r:
    Result<Cipher, LatticeError>)
    requires
        params.wf(),
    ensures
        message > 1 ==> r == Err::<Cipher, LatticeError>(LatticeError::InvalidMessage { message }),
        message <= 1 ==> (r is Ok <==> rows_of_len(public_key.matrix(), e@.len() as int)
            && public_key.vector().len() == e@.len()),
        message <= 1 && !rows_of_len(public_key.matrix(), e@.len() as int) ==> exists|i: int|
            first_short_row(public_key.matrix(), e@.len() as int, i) && r == Err::<
                Cipher,
                LatticeError,
            >(
                LatticeError::LengthMismatch {
                    expected: public_key.matrix()[i].len() as usize,
                    found: e.len(),
                },
            ),
        message <= 1 && rows_of_len(public_key.matrix(), e@.len() as int)
            && public_key.vector().len() != e@.len() ==> r == Err::<Cipher, LatticeError>(
            LatticeError::LengthMismatch {
                expected: e.len(),
                found: public_key.vector().len() as usize,
            },
        ),
        r matches Ok(c) ==> c.first() == mat_vec(
            public_key.matrix(),
            ints(e@),
            params.modulus_value(),
        ) && c.second() == encode_c2(
            ints(e@),
            public_key.vector(),
            params.modulus_value(),
            message as int,
        ),
{
    if message > 1 {
        return Err(LatticeError::InvalidMessage { message });
    }
    let c1 = match matrix_mul(&public_key.a, e, &params.modulus) {
        Ok(v) => v,
        Err(err) => {
            return Err(err);
        },
    };
    if public_key.b.len() != e.len() {
        return Err(LatticeError::LengthMismatch { expected: e.len(), found: public_key.b.len() });
    }
    let d = inner_product(e, &public_key.b);
    let e_b = reduce(&d, &params.modulus);
    let half = big_div_small(&params.modulus, 2);
    let bit = big_from_u8(message);
    let shift = big_mul(&half, &bit);
    let sum = big_add(&e_b, &shift);
    let c2 = reduce(&sum, &params.modulus);
    Ok(Cipher::new(c1, c2))
}

/// Encrypts one bit under the public key with fresh noise drawn uniformly from
/// `[0, error_range)`. Only the bits 0 and 1 are accepted.
pub fn encrypt(params: &LatticeParams, public_key: &PublicKey, message: u8) -> (r: Result<
    Cipher,
    LatticeError,
>)
    requires
        params.wf(),
    ensures
        message > 1 ==> r == Err::<Cipher, LatticeError>(LatticeError::InvalidMessage { message }),
        message <= 1 ==> (r is Ok <==> rows_of_len(public_key.matrix(), params.dim() as int)
            && public_key.vector().len() == params.dim()),
        message <= 1 && !rows_of_len(public_key.matrix(), params.dim() as int) ==> exists|i: int|
            first_short_row(public_key.matrix(), params.dim() as int, i) && r == Err::<
                Cipher,
                LatticeError,
            >(
                LatticeError::LengthMismatch {
                    expected: public_key.matrix()[i].len() as usize,
                    found: params.dim() as usize,
                },
            ),
        message <= 1 && rows_of_len(public_key.matrix(), params.dim() as int)
            && public_key.vector().len() != params.dim() ==> r == Err::<Cipher, LatticeError>(
            LatticeError::LengthMismatch {
                expected: params.dim() as usize,
                found: public_key.vector().len() as usize,
            },
        ),
        r matches Ok(c) ==> {
            &&& c.first().len() == public_key.matrix().len()
            &&& all_in(c.first(), 0, params.modulus_value())
            &&& 0 <= c.second() < params.modulus_value()
            &&& exists|e: Seq<int>|
                e.len() == params.dim() && all_in(e, 0, params.error_bound()) && c.first()
                    == mat_vec(public_key.matrix(), e, params.modulus_value()) && c.second()
                    == encode_c2(e, public_key.vector(), params.modulus_value(), message as int)
        },
{
    let e = generate_random_vector(params.dimension, &params.error_range);
    let ghost es = ints(e@);
    let r = encrypt_with(params, public_key, message, &e);
    if let Ok(c) = &r {
        assert(c.second() == encode_c2(es, public_key.vector(), params.modulus_value(), message as int));
    }
    r
}

/// Recovers the bit that `cipher` encrypts: the value
/// `(c2 - (c1·s mod m) + m) mod m` is decoded by its distance from zero.
pub fn decrypt(params: &LatticeParams, cipher: &Cipher, secret_key: &SecretKey) -> (r: u8)
    requires
        params.wf(),
        cipher.first().len() == secret_key.secret().len(),
    ensures
        r == decrypted(
            cipher.first(),
            cipher.second(),
            secret_key.secret(),
            params.modulus_value(),
        ),
{
    let modulus = &params.modulus;
    let d = inner_product(&cipher.c1, &secret_key.s);
    let inner = reduce(&d, modulus);
    let diff = big_sub(&cipher.c2, &inner);
    let shifted = big_add(&diff, modulus);
    let m = reduce(&shifted, modulus);
    let threshold = big_div_small(modulus, 4);
    let upper = big_sub(modulus, &threshold);
    if big_le(&m, &threshold) || !big_le(&m, &upper) {
        0
    } else {
        1
    }
}

} // verus!
