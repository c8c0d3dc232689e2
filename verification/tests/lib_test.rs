//! Vector arithmetic checked with the one-sided difference bound of the
//! original integration suite.

use yarrr::fixed::Fx;
use yarrr::linalg::Vector3D;

/// One-sided bound: each component difference stays below the tolerance.
const TOL: i64 = 4;

fn fxi(v: i64) -> Fx {
    Fx::from_int(v)
}

fn fxr(n: i64, d: i64) -> Fx {
    Fx::from_ratio(n, d)
}

fn assert_vec_lt(left: &Vector3D, right: &Vector3D, tol: i64) {
    let diff = left.sub(right);
    assert!(diff.x.raw < tol);
    assert!(diff.y.raw < tol);
    assert!(diff.z.raw < tol);
}

#[test]
fn lib_test_test_vector_create() {
    let v = Vector3D::default();
    assert_eq!(v.x.raw, 0);
    assert_eq!(v.y.raw, 0);
    assert_eq!(v.z.raw, 0);
}

#[test]
fn lib_test_test_vector_index() {
    let v = Vector3D::new(fxr(1, 10), fxr(2, 10), fxr(3, 10));
    assert_eq!(v.index(0).raw, fxr(1, 10).raw);
    assert_eq!(v.index(1).raw, fxr(2, 10).raw);
    assert_eq!(v.index(2).raw, fxr(3, 10).raw);
}

#[test]
fn lib_test_test_vector_add_and_eq() {
    let v1 = Vector3D { x: fxr(5, 10), y: fxr(-1, 10), z: fxi(0) };
    let v2 = Vector3D::new(fxr(15, 10), fxr(21, 10), fxi(3));
    let v3 = v1.add(&v2);
    assert_vec_lt(&v3, &Vector3D::new(fxi(2), fxi(2), fxi(3)), TOL);
}

#[test]
fn lib_test_test_vector_times_scalar() {
    let v = Vector3D::new(fxi(1), fxi(2), fxi(3));
    let v_scaled = v.scale(fxi(10));
    assert_vec_lt(&v_scaled, &Vector3D::new(fxi(10), fxi(20), fxi(30)), TOL);
}

#[test]
fn lib_test_test_vector_get_unit() {
    let v = Vector3D::new(fxi(4), fxi(-3), fxi(0));
    let v_unit = v.unit();
    assert_vec_lt(&v_unit, &Vector3D::new(fxr(8, 10), fxr(6, 10), fxi(0)), TOL);
}

#[test]
fn lib_test_test_vector_norm() {
    let v1 = Vector3D::new(fxi(3), fxi(-4), fxi(5));
    assert!((v1.norm_squared().raw - fxi(50).raw).abs() < TOL);
    assert!((v1.norm().raw - fxi(50).sqrt().raw).abs() < TOL);
}

#[test]
fn lib_test_test_vector_dot_product() {
    let v1 = Vector3D::new(fxi(1), fxi(2), fxi(3));
    let v2 = Vector3D::new(fxi(-1), fxi(-2), fxi(3));
    assert!((v1.dot(&v2).raw - fxi(4).raw).abs() < TOL);
}

#[test]
fn lib_test_test_vector_cross_product() {
    let v1 = Vector3D::new(fxi(1), fxi(2), fxi(3));
    let v2 = Vector3D::new(fxi(3), fxi(2), fxi(1));
    assert_vec_lt(&v1.cross(&v2), &Vector3D::new(fxi(-4), fxi(8), fxi(-4)), TOL);
}
