//! Modular vector and matrix algebra over arbitrary-precision integers.
use crate::bigint::{
    big_add, big_clone, big_le, big_mul, big_rem, big_zero, int_of, random_below,
};
use crate::error::LatticeError;
use num_bigint::BigInt;
use vstd::arithmetic::div_mod::{lemma_fundamental_div_mod, lemma_fundamental_div_mod_converse};
use vstd::prelude::*;

verus! {

/// The integers that a sequence of `BigInt`s denotes.
pub open spec fn ints(v: Seq<BigInt>) -> Seq<int> {
    v.map_values(|x: BigInt| int_of(x))
}

/// The integer matrix that a sequence of `BigInt` rows denotes.
pub open spec fn rows(a: Seq<Vec<BigInt>>) -> Seq<Seq<int>> {
    a.map_values(|row: Vec<BigInt>| ints(row@))
}

/// Dot product of two sequences of equal length.
pub open spec fn dot(a: Seq<int>, b: Seq<int>) -> int
    decreases a.len(),
{
    if a.len() == 0 || b.len() == 0 {
        0
    } else {
        dot(a.drop_last(), b.drop_last()) + a.last() * b.last()
    }
}

/// Matrix-vector product with each entry reduced into `[0, m)`.
pub open spec fn mat_vec(a: Seq<Seq<int>>, v: Seq<int>, m: int) -> Seq<int> {
    Seq::new(a.len(), |i: int| dot(a[i], v) % m)
}

/// Element-wise sum with each entry reduced into `[0, m)`.
pub open spec fn add_mod(a: Seq<int>, b: Seq<int>, m: int) -> Seq<int> {
    Seq::new(a.len(), |i: int| (a[i] + b[i]) % m)
}

/// Every entry lies in `[lo, hi)`.
pub open spec fn all_in(v: Seq<int>, lo: int, hi: int) -> bool {
    forall|i: int| 0 <= i < v.len() ==> lo <= #[trigger] v[i] < hi
}

/// Every row of `a` has length `n`.
pub open spec fn rows_of_len(a: Seq<Seq<int>>, n: int) -> bool {
    forall|i: int| 0 <= i < a.len() ==> (#[trigger] a[i]).len() == n
}

/// Row `i` is the first row of `a` whose length is not `n`.
pub open spec fn first_short_row(a: Seq<Seq<int>>, n: int, i: int) -> bool {
    &&& 0 <= i < a.len()
    &&& a[i].len() != n
    &&& forall|j: int| 0 <= j < i ==> (#[trigger] a[j]).len() == n
}

/// `x` reduced into `[0, m)`, whatever the sign of `x`.
pub fn reduce(x: &BigInt, m: &BigInt) -> (r: BigInt)
    requires
        int_of(*m) > 0,
    ensures
        int_of(r) == int_of(*x) % int_of(*m),
{
    let t = big_rem(x, m);
    let zero = big_zero();
    proof {
        let mi = int_of(*m);
        let xi = int_of(*x);
        if xi < 0 {
            let q = (-xi) / mi;
            let u = (-xi) % mi;
            lemma_fundamental_div_mod(-xi, mi);
            if u == 0 {
                assert(xi == (-q) * mi + 0) by (nonlinear_arith)
                    requires
                        -xi == mi * q + u,
                        u == 0,
                ;
                lemma_fundamental_div_mod_converse(xi, mi, -q, 0);
            } else {
                assert(xi == (-q - 1) * mi + (mi - u)) by (nonlinear_arith)
                    requires
                        -xi == mi * q + u,
                ;
                lemma_fundamental_div_mod_converse(xi, mi, -q - 1, mi - u);
            }
        }
    }
    if big_le(&zero, &t) {
        t
    } else {
        big_add(&t, m)
    }
}

/// `size` independent uniform random integers in `[0, bound)`.
pub fn generate_random_vector(size: usize, bound: &BigInt) -> (r: Vec<BigInt>)
    requires
        int_of(*bound) > 0,
    ensures
        r@.len() == size,
        all_in(ints(r@), 0, int_of(*bound)),
{
    let mut r: Vec<BigInt> = Vec::new();
    let mut i: usize = 0;
    while i < size
        invariant
            i <= size,
            r@.len() == i,
            int_of(*bound) > 0,
            all_in(ints(r@), 0, int_of(*bound)),
        decreases size - i,
    {
        let v = random_below(bound);
        let ghost before = r@;
        r.push(v);
        assert(ints(r@) =~= ints(before).push(int_of(v)));
        i += 1;
    }
    r
}

/// The dot product of two vectors of equal length, without reduction.
pub fn inner_product(a: &Vec<BigInt>, b: &Vec<BigInt>) -> (r: BigInt)
    requires
        a@.len() == b@.len(),
    ensures
        int_of(r) == dot(ints(a@), ints(b@)),
{
    let mut acc = big_zero();
    let mut i: usize = 0;
    while i < a.len()
        invariant
            i <= a@.len(),
            a@.len() == b@.len(),
            int_of(acc) == dot(ints(a@).take(i as int), ints(b@).take(i as int)),
        decreases a@.len() - i,
    {
        let p = big_mul(&a[i], &b[i]);
        proof {
            let ta = ints(a@).take(i + 1);
            let tb = ints(b@).take(i + 1);
            assert(ta.drop_last() =~= ints(a@).take(i as int));
            assert(tb.drop_last() =~= ints(b@).take(i as int));
        }
        acc = big_add(&acc, &p);
        i += 1;
    }
    proof {
        assert(ints(a@).take(a@.len() as int) =~= ints(a@));
        assert(ints(b@).take(b@.len() as int) =~= ints(b@));
    }
    acc
}

/// The product of matrix `a` with vector `b`, each entry reduced into
/// `[0, modulus)`. A row whose length differs from that of `b` is reported
/// as a length mismatch: the first such row, with its own length as the
/// expected one.
pub fn matrix_mul(a: &Vec<Vec<BigInt>>, b: &Vec<BigInt>, modulus: &BigInt) -> (r: Result<
    Vec<BigInt>,
    LatticeError,
>)
    requires
        int_of(*modulus) > 0,
    ensures
        r is Ok <==> rows_of_len(rows(a@), b@.len() as int),
        r matches Ok(v) ==> ints(v@) == mat_vec(rows(a@), ints(b@), int_of(*modulus)),
        r is Err ==> exists|i: int|
            first_short_row(rows(a@), b@.len() as int, i) && r == Err::<Vec<BigInt>, LatticeError>(
                LatticeError::LengthMismatch { expected: a@[i].len(), found: b.len() },
            ),
{
    let ghost m = int_of(*modulus);
    let mut result: Vec<BigInt> = Vec::new();
    let mut k: usize = 0;
    while k < a.len()
        invariant
            k <= a@.len(),
            m == int_of(*modulus),
            m > 0,
            result@.len() == k,
            rows_of_len(rows(a@).take(k as int), b@.len() as int),
            forall|j: int|
                0 <= j < k ==> int_of(#[trigger] result@[j]) == dot(ints(a@[j]@), ints(b@)) % m,
        decreases a@.len() - k,
    {
        let row = &a[k];
        if row.len() != b.len() {
            assert(first_short_row(rows(a@), b@.len() as int, k as int)) by {
                assert forall|j: int| 0 <= j < k implies (#[trigger] rows(a@)[j]).len() == b@.len() by {
                    assert(rows(a@).take(k as int)[j] == rows(a@)[j]);
                }
            }
            return Err(LatticeError::LengthMismatch { expected: row.len(), found: b.len() });
        }
        let d = inner_product(row, b);
        let v = reduce(&d, modulus);
        result.push(v);
        k += 1;
        assert(rows(a@).take(k as int) =~= rows(a@).take(k - 1).push(rows(a@)[k - 1]));
    }
    proof {
        assert(rows(a@).take(a@.len() as int) =~= rows(a@));
        assert(ints(result@) =~= mat_vec(rows(a@), ints(b@), m));
    }
    Ok(result)
}

/// Element-wise sum of two vectors of equal length, each entry reduced into
/// `[0, modulus)`.
pub fn matrix_add(a: &Vec<BigInt>, b: &Vec<BigInt>, modulus: &BigInt) -> (r: Vec<BigInt>)
    requires
        a@.len() == b@.len(),
        int_of(*modulus) > 0,
    ensures
        ints(r@) == add_mod(ints(a@), ints(b@), int_of(*modulus)),
{
    let mut result: Vec<BigInt> = Vec::new();
    let mut i: usize = 0;
    while i < a.len()
        invariant
            i <= a@.len(),
            a@.len() == b@.len(),
            int_of(*modulus) > 0,
            result@.len() == i,
            forall|j: int|
                0 <= j < i ==> int_of(#[trigger] result@[j]) == (int_of(a@[j]) + int_of(b@[j]))
                    % int_of(*modulus),
        decreases a@.len() - i,
    {
        let s = big_add(&a[i], &b[i]);
        result.push(reduce(&s, modulus));
        i += 1;
    }
    assert(ints(result@) =~= add_mod(ints(a@), ints(b@), int_of(*modulus)));
    result
}

/// A copy of a vector, entry by entry.
pub fn clone_vector(v: &Vec<BigInt>) -> (r: Vec<BigInt>)
    ensures
        ints(r@) == ints(v@),
{
    let mut r: Vec<BigInt> = Vec::new();
    let mut i: usize = 0;
    while i < v.len()
        invariant
            i <= v@.len(),
            r@.len() == i,
            forall|j: int| 0 <= j < i ==> int_of(#[trigger] r@[j]) == int_of(v@[j]),
        decreases v@.len() - i,
    {
        r.push(big_clone(&v[i]));
        i += 1;
    }
    assert(ints(r@) =~= ints(v@));
    r
}

/// A copy of a matrix, row by row.
pub fn clone_matrix(a: &Vec<Vec<BigInt>>) -> (r: Vec<Vec<BigInt>>)
    ensures
        rows(r@) == rows(a@),
{
    let mut r: Vec<Vec<BigInt>> = Vec::new();
    let mut i: usize = 0;
    while i < a.len()
        invariant
            i <= a@.len(),
            r@.len() == i,
            forall|j: int| 0 <= j < i ==> ints((#[trigger] r@[j])@) == ints(a@[j]@),
        decreases a@.len() - i,
    {
        r.push(clone_vector(&a[i]));
        i += 1;
    }
    assert(rows(r@) =~= rows(a@));
    r
}

} // verus!
