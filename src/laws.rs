//! Properties of the encryption scheme that relate several of its operations.
use crate::algebra::{all_in, dot, mat_vec, rows_of_len};
use crate::scheme::{decode, decrypted, encode_c2, key_vector};
use vstd::arithmetic::div_mod::{
    lemma_add_mod_noop, lemma_fundamental_div_mod, lemma_fundamental_div_mod_converse,
    lemma_mod_decreases, lemma_mod_multiples_vanish, lemma_mod_twice, lemma_mul_mod_noop_right,
    lemma_small_mod, lemma_sub_mod_noop,
};
use vstd::prelude::*;

verus! {

/// The noise that remains of an encryption under `(a, b)` with randomness
/// `r` once the secret-weighted part `c1·s` is removed, reduced into `[0, m)`.
pub open spec fn residual(a: Seq<Seq<int>>, s: Seq<int>, e: Seq<int>, r: Seq<int>, m: int) -> int {
    (dot(r, key_vector(a, s, e, m)) - dot(mat_vec(a, r, m), s)) % m
}

/// The value decryption thresholds is the residual `(x - y) mod m` shifted
/// by half the modulus times the bit, whichever way the steps are reduced.
proof fn lemma_shifted_residual(x: int, y: int, m: int, bit: int)
    requires
        m > 0,
    ensures
        ((x % m + (m / 2) * bit) % m - y % m + m) % m == ((x - y) % m + (m / 2) * bit) % m,
{
    let h = (m / 2) * bit;
    let c = (x % m + h) % m;
    lemma_fundamental_div_mod(x, m);
    lemma_fundamental_div_mod(y, m);
    lemma_fundamental_div_mod(x % m + h, m);
    lemma_fundamental_div_mod(x - y, m);
    let k = 1 - x / m - (x % m + h) / m + y / m;
    assert(c - y % m + m == m * k + (x - y + h)) by (nonlinear_arith)
        requires
            x == m * (x / m) + x % m,
            y == m * (y / m) + y % m,
            x % m + h == m * ((x % m + h) / m) + c,
            k == 1 - x / m - (x % m + h) / m + y / m,
    ;
    lemma_mod_multiples_vanish(k, x - y + h, m);
    lemma_mod_multiples_vanish((x - y) / m, (x - y) % m + h, m);
}

/// Round trip: for a modulus of at least 2 and a bit 0 or 1, decrypting the
/// encryption of the bit under a key pair built from `(a, s, e)` with
/// randomness `r` gives the bit back, whenever the residual noise lies within
/// a quarter of the modulus of zero (at most `m/4`, or above `m - m/4`).
pub proof fn lemma_round_trip(a: Seq<Seq<int>>, s: Seq<int>, e: Seq<int>, r: Seq<int>, m: int, bit: u8)
    requires
        m >= 2,
        bit <= 1,
        residual(a, s, e, r, m) <= m / 4 || residual(a, s, e, r, m) > m - m / 4,
    ensures
        decrypted(mat_vec(a, r, m), encode_c2(r, key_vector(a, s, e, m), m, bit as int), s, m)
            == bit,
{
    let b = key_vector(a, s, e, m);
    let c1 = mat_vec(a, r, m);
    let x = dot(r, b);
    let y = dot(c1, s);
    let w = residual(a, s, e, r, m);
    let h = m / 2;
    lemma_shifted_residual(x, y, m, bit as int);
    let v = (w + h * (bit as int)) % m;
    assert((encode_c2(r, b, m, bit as int) - y % m + m) % m == v);
    if bit == 0 {
        lemma_small_mod(w as nat, m as nat);
        assert(v == w);
    } else {
        if w + h < m {
            lemma_small_mod((w + h) as nat, m as nat);
            assert(v == w + h);
        } else {
            lemma_fundamental_div_mod_converse(w + h, m, 1, w + h - m);
            assert(v == w + h - m);
        }
    }
    assert(decode(m, v) == bit);
}

/// Key consistency: removing `A·s` from the public vector built from
/// `(a, s, e)` leaves, modulo `m`, exactly the noise `e`; so with noise in
/// `[0, bound)` every entry of `(b - A·s) mod m` is below `bound`.
pub proof fn lemma_key_consistency(a: Seq<Seq<int>>, s: Seq<int>, e: Seq<int>, m: int, bound: int)
    requires
        m > 0,
        e.len() == a.len(),
        all_in(e, 0, bound),
    ensures
        forall|i: int|
            0 <= i < a.len() ==> #[trigger] ((key_vector(a, s, e, m)[i] - dot(a[i], s)) % m) == e[i]
                % m,
        forall|i: int|
            0 <= i < a.len() ==> #[trigger] ((key_vector(a, s, e, m)[i] - dot(a[i], s)) % m)
                < bound,
{
    assert forall|i: int| 0 <= i < a.len() implies #[trigger] ((key_vector(a, s, e, m)[i] - dot(a[i], s)) % m)
        == e[i] % m && (key_vector(a, s, e, m)[i] - dot(a[i], s)) % m < bound by {
        let y = dot(a[i], s);
        let z = y % m + e[i];
        lemma_fundamental_div_mod(y, m);
        lemma_fundamental_div_mod(z, m);
        let k = -(y / m) - z / m;
        assert(key_vector(a, s, e, m)[i] == z % m);
        assert(z % m - y == m * k + e[i]) by (nonlinear_arith)
            requires
                y == m * (y / m) + y % m,
                z == m * (z / m) + z % m,
                z == y % m + e[i],
                k == -(y / m) - z / m,
        ;
        lemma_mod_multiples_vanish(k, e[i], m);
        assert(0 <= e[i] < bound);
        lemma_mod_decreases(e[i] as nat, m as nat);
    }
}

/// The matrix-vector product without reduction.
pub open spec fn product(a: Seq<Seq<int>>, v: Seq<int>) -> Seq<int> {
    Seq::new(a.len(), |i: int| dot(a[i], v))
}

/// Column `j` of `a`.
pub open spec fn column(a: Seq<Seq<int>>, j: int) -> Seq<int> {
    Seq::new(a.len(), |i: int| a[i][j])
}

/// The product of the transpose of `a` (with `n` columns) with `r`.
pub open spec fn transposed_product(a: Seq<Seq<int>>, r: Seq<int>, n: nat) -> Seq<int> {
    Seq::new(n, |j: int| dot(column(a, j), r))
}

/// The square matrix `a` of side `n` equals its transpose.
pub open spec fn symmetric(a: Seq<Seq<int>>, n: nat) -> bool {
    &&& a.len() == n
    &&& rows_of_len(a, n as int)
    &&& forall|i: int, j: int| 0 <= i < n && 0 <= j < n ==> #[trigger] a[i][j] == a[j][i]
}

proof fn lemma_dot_commutes(u: Seq<int>, v: Seq<int>)
    requires
        u.len() == v.len(),
    ensures
        dot(u, v) == dot(v, u),
    decreases u.len(),
{
    if u.len() > 0 {
        lemma_dot_commutes(u.drop_last(), v.drop_last());
        assert(u.last() * v.last() == v.last() * u.last()) by (nonlinear_arith);
    }
}

/// `(u + x·w)·s == u·s + x·(w·s)`.
proof fn lemma_dot_combination(u: Seq<int>, w: Seq<int>, s: Seq<int>, x: int)
    requires
        u.len() == w.len(),
        w.len() == s.len(),
    ensures
        dot(Seq::new(u.len(), |j: int| u[j] + x * w[j]), s) == dot(u, s) + x * dot(w, s),
    decreases u.len(),
{
    let c = Seq::new(u.len(), |j: int| u[j] + x * w[j]);
    if u.len() > 0 {
        let u2 = u.drop_last();
        let w2 = w.drop_last();
        lemma_dot_combination(u2, w2, s.drop_last(), x);
        assert(c.drop_last() =~= Seq::new(u2.len(), |j: int| u2[j] + x * w2[j]));
        let (ul, wl, sl) = (u.last(), w.last(), s.last());
        let (du, dw) = (dot(u2, s.drop_last()), dot(w2, s.drop_last()));
        assert((ul + x * wl) * sl + (du + x * dw) == (du + ul * sl) + x * (dw + wl * sl))
            by (nonlinear_arith);
    }
}

proof fn lemma_dot_of_zeros(n: nat, s: Seq<int>)
    ensures
        dot(Seq::new(n, |j: int| 0int), s) == 0,
    decreases n,
{
    let z = Seq::new(n, |j: int| 0int);
    if n > 0 && s.len() > 0 {
        lemma_dot_of_zeros((n - 1) as nat, s.drop_last());
        assert(z.drop_last() =~= Seq::new((n - 1) as nat, |j: int| 0int));
        assert(z.last() == 0);
        assert(0 * s.last() == 0) by (nonlinear_arith);
    }
}

/// Entries congruent modulo `m` give congruent dot products.
proof fn lemma_dot_congruent(r: Seq<int>, u: Seq<int>, v: Seq<int>, m: int)
    requires
        m > 0,
        r.len() == u.len(),
        u.len() == v.len(),
        forall|i: int| 0 <= i < u.len() ==> #[trigger] (u[i] % m) == v[i] % m,
    ensures
        dot(r, u) % m == dot(r, v) % m,
    decreases r.len(),
{
    if r.len() > 0 {
        let k = r.len() - 1;
        lemma_dot_congruent(r.drop_last(), u.drop_last(), v.drop_last(), m);
        let a = dot(r.drop_last(), u.drop_last());
        let b = dot(r.drop_last(), v.drop_last());
        assert(u[k] % m == v[k] % m);
        lemma_mul_mod_noop_right(r.last(), u.last(), m);
        lemma_mul_mod_noop_right(r.last(), v.last(), m);
        lemma_add_mod_noop(a, r.last() * u.last(), m);
        lemma_add_mod_noop(b, r.last() * v.last(), m);
    }
}

/// `r·(A s) == (Aᵀ r)·s`.
proof fn lemma_dot_transpose(a: Seq<Seq<int>>, r: Seq<int>, s: Seq<int>)
    requires
        a.len() == r.len(),
        rows_of_len(a, s.len() as int),
    ensures
        dot(r, product(a, s)) == dot(transposed_product(a, r, s.len()), s),
    decreases a.len(),
{
    let n = s.len();
    if a.len() == 0 {
        assert(transposed_product(a, r, n) =~= Seq::new(n, |j: int| 0int));
        lemma_dot_of_zeros(n, s);
    } else {
        let a2 = a.drop_last();
        let r2 = r.drop_last();
        let row = a.last();
        let x = r.last();
        assert(rows_of_len(a2, n as int)) by {
            assert forall|i: int| 0 <= i < a2.len() implies (#[trigger] a2[i]).len() == n by {
                assert(a2[i] == a[i]);
            }
        }
        lemma_dot_transpose(a2, r2, s);
        assert(product(a, s).drop_last() =~= product(a2, s));
        let t2 = transposed_product(a2, r2, n);
        assert forall|j: int| 0 <= j < n implies #[trigger] transposed_product(a, r, n)[j] == t2[j]
            + x * row[j] by {
            assert(column(a, j).drop_last() =~= column(a2, j));
            assert(x * row[j] == row[j] * x) by (nonlinear_arith);
        }
        assert(transposed_product(a, r, n) =~= Seq::new(t2.len(), |j: int| t2[j] + x * row[j]));
        assert(row.len() == n);
        lemma_dot_combination(t2, row, s, x);
    }
}

/// With a symmetric matrix the residual noise is `r·e mod m`.
proof fn lemma_symmetric_residual(a: Seq<Seq<int>>, s: Seq<int>, e: Seq<int>, r: Seq<int>, m: int)
    requires
        m > 0,
        symmetric(a, s.len()),
        e.len() == s.len(),
        r.len() == s.len(),
    ensures
        residual(a, s, e, r, m) == dot(r, e) % m,
{
    let n = s.len();
    let b = key_vector(a, s, e, m);
    let c1 = mat_vec(a, r, m);
    let as_ = product(a, s);
    let ar = product(a, r);
    let v = Seq::new(as_.len(), |j: int| as_[j] + 1 * e[j]);
    // r·b is congruent to r·(A s + e)
    assert forall|i: int| 0 <= i < b.len() implies #[trigger] (b[i] % m) == v[i] % m by {
        lemma_mod_twice(as_[i] + e[i], m);
        lemma_add_mod_noop(as_[i], e[i], m);
        lemma_mod_twice(as_[i], m);
        lemma_mod_twice(e[i], m);
        assert(b[i] == (as_[i] % m + e[i]) % m);
        lemma_add_mod_noop(as_[i] % m, e[i], m);
    }
    lemma_dot_congruent(r, b, v, m);
    lemma_dot_commutes(r, v);
    lemma_dot_combination(as_, e, r, 1);
    lemma_dot_commutes(as_, r);
    lemma_dot_commutes(e, r);
    // c1·s is congruent to (A r)·s
    assert forall|i: int| 0 <= i < c1.len() implies #[trigger] (c1[i] % m) == ar[i] % m by {
        lemma_mod_twice(ar[i], m);
    }
    lemma_dot_commutes(c1, s);
    lemma_dot_congruent(s, c1, ar, m);
    lemma_dot_commutes(s, ar);
    // r·(A s) == (Aᵀ r)·s == (A r)·s
    lemma_dot_transpose(a, r, s);
    assert forall|j: int| 0 <= j < n implies #[trigger] column(a, j) == a[j] by {
        assert(column(a, j) =~= a[j]);
    }
    assert(transposed_product(a, r, n) =~= ar);
    let x = dot(r, b);
    let y = dot(c1, s);
    lemma_sub_mod_noop(x, y, m);
    lemma_sub_mod_noop(dot(r, as_) + dot(r, e), dot(ar, s), m);
}

proof fn lemma_dot_bounds(r: Seq<int>, e: Seq<int>, bound: int)
    requires
        r.len() == e.len(),
        all_in(r, 0, bound),
        all_in(e, 0, bound),
    ensures
        0 <= dot(r, e) <= r.len() * (bound - 1) * (bound - 1),
    decreases r.len(),
{
    if r.len() == 0 {
        assert(0 * (bound - 1) * (bound - 1) == 0) by (nonlinear_arith);
    } else {
        let k = r.len() - 1;
        lemma_dot_bounds(r.drop_last(), e.drop_last(), bound);
        let (x, y) = (r[k], e[k]);
        assert(0 <= x < bound && 0 <= y < bound);
        let d = dot(r.drop_last(), e.drop_last());
        let len = r.len();
        assert(0 <= d + x * y <= len * (bound - 1) * (bound - 1)) by (nonlinear_arith)
            requires
                0 <= d <= (len - 1) * (bound - 1) * (bound - 1),
                0 <= x < bound,
                0 <= y < bound,
        ;
    }
}

/// Round trip with a symmetric public matrix: for a modulus of at least 2,
/// a bit 0 or 1, a symmetric `n × n` matrix, and key noise `e` and
/// randomness `r` with entries in `[0, bound)` where `n·(bound-1)² ≤ m/4`,
/// decryption always returns the encrypted bit.
pub proof fn lemma_round_trip_symmetric(
    a: Seq<Seq<int>>,
    s: Seq<int>,
    e: Seq<int>,
    r: Seq<int>,
    m: int,
    bound: int,
    bit: u8,
)
    requires
        m >= 2,
        bit <= 1,
        symmetric(a, s.len()),
        e.len() == s.len(),
        r.len() == s.len(),
        all_in(e, 0, bound),
        all_in(r, 0, bound),
        s.len() * (bound - 1) * (bound - 1) <= m / 4,
    ensures
        decrypted(mat_vec(a, r, m), encode_c2(r, key_vector(a, s, e, m), m, bit as int), s, m)
            == bit,
{
    lemma_symmetric_residual(a, s, e, r, m);
    lemma_dot_bounds(r, e, bound);
    lemma_small_mod(dot(r, e) as nat, m as nat);
    lemma_round_trip(a, s, e, r, m, bit);
}

} // verus!
