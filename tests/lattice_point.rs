use lattice_cryptography::{LatticePoint, LatticePointError, LatticeSpace};
use num_bigint::BigInt;

fn point(xs: &[i64]) -> LatticePoint {
    LatticePoint::new(xs.iter().map(|&x| BigInt::from(x)).collect())
}

fn values(xs: &[i64]) -> Vec<BigInt> {
    xs.iter().map(|&x| BigInt::from(x)).collect()
}

#[test]
fn add_points_reports_dimension_mismatch() {
    let r = point(&[1, 2]).add_points(&point(&[1, 2, 3]));
    assert!(matches!(
        r,
        Err(LatticePointError::DimensionMismatch { expected: 2, found: 3 })
    ));
    let r = point(&[1, 2, 3]).add_points(&point(&[1, 2]));
    assert!(matches!(
        r,
        Err(LatticePointError::DimensionMismatch { expected: 3, found: 2 })
    ));
}

#[test]
fn distance_reports_dimension_mismatch() {
    let r = point(&[0, 0]).distance_from_point(&point(&[0, 0, 0]));
    assert!(matches!(
        r,
        Err(LatticePointError::DimensionMismatch { expected: 2, found: 3 })
    ));
}

#[test]
fn add_points_sums_coordinates() {
    let r = point(&[1, -2, 3]).add_points(&point(&[10, 20, -30])).ok().unwrap();
    assert_eq!(r.coordinates(), values(&[11, 18, -27]));
    let empty = point(&[]).add_points(&point(&[])).ok().unwrap();
    assert_eq!(empty.dimension(), 0);
}

#[test]
fn scaling_by_one_keeps_the_point() {
    let p = point(&[4, -7, 0, 12]);
    let q = p.multiply_scalar(&BigInt::from(1));
    assert_eq!(q.coordinates(), p.coordinates());
}

#[test]
fn scaling_by_zero_gives_zero_point() {
    let p = point(&[4, -7, 0, 12]);
    let q = p.multiply_scalar(&BigInt::from(0));
    assert_eq!(q.dimension(), 4);
    assert_eq!(q.coordinates(), values(&[0, 0, 0, 0]));
}

#[test]
fn scaling_multiplies_each_coordinate() {
    let p = point(&[4, -7, 0]);
    let q = p.multiply_scalar(&BigInt::from(-3));
    assert_eq!(q.coordinates(), values(&[-12, 21, 0]));
}

#[test]
fn squared_distance_uses_both_points() {
    let d = point(&[1, 2]).distance_from_point(&point(&[4, 6])).ok().unwrap();
    assert_eq!(d, BigInt::from(25));
    let d = point(&[-1, 5, 2]).distance_from_point(&point(&[-1, 5, 2])).ok().unwrap();
    assert_eq!(d, BigInt::from(0));
    let d = point(&[]).distance_from_point(&point(&[])).ok().unwrap();
    assert_eq!(d, BigInt::from(0));
}

#[test]
fn index_at_and_dimension() {
    let p = point(&[9, 8, 7]);
    assert_eq!(p.dimension(), 3);
    assert_eq!(*p.index_at(0), BigInt::from(9));
    assert_eq!(*p.index_at(2), BigInt::from(7));
}

#[test]
fn lattice_space_is_created() {
    let _space = LatticeSpace::new(4);
}
