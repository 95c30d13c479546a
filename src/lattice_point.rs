//! Points of an integer lattice: coordinate vectors over arbitrary-precision
//! integers, combined only when their dimensions agree.
use crate::algebra::{clone_vector, dot, ints};
use crate::bigint::{big_add, big_mul, big_square, big_sub, big_zero, int_of};
use num_bigint::BigInt;
use vstd::prelude::*;

verus! {

/// A coordinate vector.
pub struct LatticePoint {
    coordinates: Vec<BigInt>,
}

/// Why two points could not be combined.
#[derive(Debug, PartialEq, Eq, Structural)]
pub enum LatticePointError {
    /// `self` has `expected` coordinates and the other point `found`.
    DimensionMismatch { expected: usize, found: usize },
}

impl View for LatticePoint {
    type V = Seq<int>;

    closed spec fn view(&self) -> Seq<int> {
        ints(self.coordinates@)
    }
}

/// Every coordinate of `v` multiplied by `k`.
pub open spec fn scale(v: Seq<int>, k: int) -> Seq<int> {
    Seq::new(v.len(), |i: int| k * v[i])
}

/// Coordinate-wise sum of two points of equal dimension.
pub open spec fn sum_points(a: Seq<int>, b: Seq<int>) -> Seq<int> {
    Seq::new(a.len(), |i: int| a[i] + b[i])
}

/// Coordinate-wise difference of two points of equal dimension.
pub open spec fn difference(a: Seq<int>, b: Seq<int>) -> Seq<int> {
    Seq::new(a.len(), |i: int| a[i] - b[i])
}

/// The squared Euclidean distance: the sum of the squared coordinate
/// differences.
pub open spec fn squared_distance(a: Seq<int>, b: Seq<int>) -> int {
    dot(difference(a, b), difference(a, b))
}

/// The point with `n` zero coordinates.
pub open spec fn zero_point(n: nat) -> Seq<int> {
    Seq::new(n, |i: int| 0int)
}

/// The error for combining a point of dimension `expected` with one of
/// dimension `found`.
pub open spec fn mismatch(expected: nat, found: nat) -> LatticePointError {
    LatticePointError::DimensionMismatch { expected: expected as usize, found: found as usize }
}

impl LatticePoint {
    pub fn new(coordinates: Vec<BigInt>) -> (r: Self)
        ensures
            r@ == ints(coordinates@),
    {
        Self { coordinates }
    }

    /// A copy of the coordinates.
    pub fn coordinates(&self) -> (r: Vec<BigInt>)
        ensures
            ints(r@) == self@,
    {
        clone_vector(&self.coordinates)
    }

    pub fn dimension(&self) -> (r: usize)
        ensures
            r == self@.len(),
    {
        self.coordinates.len()
    }

    /// The coordinate at `index`.
    pub fn index_at(&self, index: u64) -> (r: &BigInt)
        requires
            index < self@.len(),
        ensures
            int_of(*r) == self@[index as int],
    {
        let n = self.coordinates.len();
        assert(self@.len() == n);
        &self.coordinates[index as usize]
    }

    /// The point with every coordinate multiplied by `scalar`.
    pub fn multiply_scalar(&self, scalar: &BigInt) -> (r: Self)
        ensures
            r@ == scale(self@, int_of(*scalar)),
    {
        let mut r: Vec<BigInt> = Vec::new();
        let mut i: usize = 0;
        while i < self.coordinates.len()
            invariant
                i <= self.coordinates@.len(),
                r@.len() == i,
                forall|j: int|
                    0 <= j < i ==> int_of(#[trigger] r@[j]) == int_of(*scalar) * int_of(
                        self.coordinates@[j],
                    ),
            decreases self.coordinates@.len() - i,
        {
            r.push(big_mul(scalar, &self.coordinates[i]));
            i += 1;
        }
        let p = Self { coordinates: r };
        assert(p@ =~= scale(self@, int_of(*scalar)));
        p
    }

    /// The coordinate-wise sum of two points of the same dimension.
    pub fn add_points(&self, other: &LatticePoint) -> (r: Result<Self, LatticePointError>)
        ensures
            self@.len() == other@.len() ==> (r matches Ok(p) && p@ == sum_points(self@, other@)),
            self@.len() != other@.len() ==> r == Err::<Self, LatticePointError>(
                mismatch(self@.len(), other@.len()),
            ),
    {
        match self.verify_dimension(other) {
            Ok(_) => {
                let mut result_coordinates: Vec<BigInt> = Vec::new();
                let mut i: usize = 0;
                while i < self.dimension()
                    invariant
                        self@.len() == other@.len(),
                        i <= self@.len(),
                        result_coordinates@.len() == i,
                        forall|j: int|
                            0 <= j < i ==> int_of(#[trigger] result_coordinates@[j]) == self@[j]
                                + other@[j],
                    decreases self@.len() - i,
                {
                    let x = big_add(self.index_at(i as u64), other.index_at(i as u64));
                    result_coordinates.push(x);
                    i += 1;
                }
                let p = Self { coordinates: result_coordinates };
                assert(p@ =~= sum_points(self@, other@));
                Ok(p)
            },
            Err(e) => Err(e),
        }
    }

    /// The squared Euclidean distance between two points of the same
    /// dimension.
    pub fn distance_from_point(&self, other: &LatticePoint) -> (r: Result<
        BigInt,
        LatticePointError,
    >)
        ensures
            self@.len() == other@.len() ==> (r matches Ok(d) && int_of(d) == squared_distance(
                self@,
                other@,
            )),
            self@.len() != other@.len() ==> r == Err::<BigInt, LatticePointError>(
                mismatch(self@.len(), other@.len()),
            ),
    {
        match self.verify_dimension(other) {
            Ok(_) => {
                let ghost d = difference(self@, other@);
                let mut distance = big_zero();
                let mut i: usize = 0;
                while i < self.dimension()
                    invariant
                        self@.len() == other@.len(),
                        d == difference(self@, other@),
                        i <= self@.len(),
                        int_of(distance) == dot(d.take(i as int), d.take(i as int)),
                    decreases self@.len() - i,
                {
                    let diff = big_sub(self.index_at(i as u64), other.index_at(i as u64));
                    let sq = big_square(&diff);
                    proof {
                        assert(d.take(i + 1).drop_last() =~= d.take(i as int));
                    }
                    distance = big_add(&distance, &sq);
                    i += 1;
                }
                assert(d.take(self@.len() as int) =~= d);
                Ok(distance)
            },
            Err(e) => Err(e),
        }
    }

    fn verify_dimension(&self, lattice_point: &LatticePoint) -> (r: Result<(), LatticePointError>)
        ensures
            self@.len() == lattice_point@.len() <==> r is Ok,
            self@.len() != lattice_point@.len() ==> r == Err::<(), LatticePointError>(
                mismatch(self@.len(), lattice_point@.len()),
            ),
    {
        if self.coordinates.len() == lattice_point.coordinates.len() {
            Ok(())
        } else {
            Err(
                LatticePointError::DimensionMismatch {
                    expected: self.dimension(),
                    found: lattice_point.dimension(),
                },
            )
        }
    }
}

/// Scaling a point by one leaves it unchanged, and scaling it by zero gives
/// the zero point of the same dimension.
pub proof fn lemma_scale_identity(v: Seq<int>)
    ensures
        scale(v, 1) == v,
        scale(v, 0) == zero_point(v.len()),
{
    assert(scale(v, 1) =~= v);
    assert(scale(v, 0) =~= zero_point(v.len()));
}

} // verus!
