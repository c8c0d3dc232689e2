//! Vector arithmetic, exercised through the crate boundary.

use yarrr::fixed::Fx;
use yarrr::linalg::{reflect, refract, Vector3D};

const TOL: i64 = 4;

fn fxi(v: i64) -> Fx {
    Fx::from_int(v)
}

fn fxr(n: i64, d: i64) -> Fx {
    Fx::from_ratio(n, d)
}

fn fxf(x: f64) -> Fx {
    Fx { raw: (x * 65536.0) as i64 }
}

fn assert_fx_eq(left: Fx, right: Fx, tol: i64) {
    assert!(
        (left.raw - right.raw).abs() <= tol,
        "left {} right {}",
        left.raw,
        right.raw
    );
}

fn assert_vec_eq(left: &Vector3D, right: &Vector3D) {
    assert_fx_eq(left.x, right.x, TOL);
    assert_fx_eq(left.y, right.y, TOL);
    assert_fx_eq(left.z, right.z, TOL);
}

#[test]
fn linalg_test_vector_create() {
    let v = Vector3D::default();
    assert_eq!(v.x.raw, 0);
    assert_eq!(v.y.raw, 0);
    assert_eq!(v.z.raw, 0);
}

#[test]
fn linalg_test_vector_index() {
    let v = Vector3D::new(fxr(1, 10), fxr(2, 10), fxr(3, 10));
    assert_eq!(v.index(0).raw, fxr(1, 10).raw);
    assert_eq!(v.index(1).raw, fxr(2, 10).raw);
    assert_eq!(v.index(2).raw, fxr(3, 10).raw);
}

#[test]
fn linalg_test_vector_add_and_eq() {
    let v1 = Vector3D::new(fxr(5, 10), fxr(-1, 10), fxi(0));
    let v2 = Vector3D::new(fxr(15, 10), fxr(21, 10), fxi(3));
    let v3 = v1.add(&v2);
    assert_vec_eq(&v3, &Vector3D::new(fxi(2), fxi(2), fxi(3)));
}

#[test]
fn linalg_test_vector_negate() {
    let v1 = Vector3D::new(fxr(5, 10), fxr(-1, 10), fxi(0));
    let v2 = v1.neg();
    assert_vec_eq(&v2, &Vector3D::new(fxr(-5, 10), fxr(1, 10), fxi(0)));
}

#[test]
fn linalg_test_vector_times_scalar() {
    let v = Vector3D::new(fxi(1), fxi(2), fxi(3));
    let v_scaled = v.scale(fxi(10));
    assert_vec_eq(&v_scaled, &Vector3D::new(fxi(10), fxi(20), fxi(30)));
}

#[test]
fn linalg_test_vector_times_vector() {
    let v1 = Vector3D::new(fxi(-1), fxi(2), fxi(3));
    let v2 = Vector3D::new(fxi(1), fxi(-2), fxi(3));
    let v_mul = v1.mul(&v2);
    assert_vec_eq(&v_mul, &Vector3D::new(fxi(-1), fxi(-4), fxi(9)));
}

#[test]
fn linalg_test_vector_get_unit() {
    let v = Vector3D::new(fxi(4), fxi(-3), fxi(0));
    let v_unit = v.unit();
    assert_vec_eq(&v_unit, &Vector3D::new(fxr(8, 10), fxr(-6, 10), fxi(0)));
}

#[test]
fn linalg_test_vector_norm() {
    let v1 = Vector3D::new(fxi(3), fxi(-4), fxi(5));
    assert_eq!(v1.norm_squared().raw, fxi(50).raw);
    assert_eq!(v1.norm().raw, fxi(50).sqrt().raw);
}

#[test]
fn linalg_test_vector_dot_product() {
    let v1 = Vector3D::new(fxi(1), fxi(2), fxi(3));
    let v2 = Vector3D::new(fxi(-1), fxi(-2), fxi(3));
    assert_fx_eq(v1.dot(&v2), fxi(4), TOL);
}

#[test]
fn linalg_test_vector_cross_product() {
    let v1 = Vector3D::new(fxi(1), fxi(2), fxi(3));
    let v2 = Vector3D::new(fxi(3), fxi(2), fxi(1));
    assert_vec_eq(&v1.cross(&v2), &Vector3D::new(fxi(-4), fxi(8), fxi(-4)));
    assert_vec_eq(&v2.cross(&v1), &Vector3D::new(fxi(4), fxi(-8), fxi(4)));
}

#[test]
fn linalg_test_reflect() {
    let normal = Vector3D::new(fxi(0), fxi(2), fxi(0)).unit();
    let vec = Vector3D::new(fxi(1), fxi(-1), fxi(0));
    let reflected = reflect(&vec, &normal);
    assert_vec_eq(&reflected, &Vector3D::new(fxi(1), fxi(1), fxi(0)));
}

#[test]
fn linalg_test_refract_same_medium() {
    let normal = Vector3D::new(fxi(0), fxi(2), fxi(0)).unit();
    let vec = Vector3D::new(fxi(1), fxi(-1), fxi(0)).unit();
    let refracted = refract(&vec, &normal, fxi(1));
    assert_vec_eq(&refracted, &Vector3D::new(fxi(1), fxi(-1), fxi(0)).unit());
}

#[test]
fn linalg_test_refract_different_medium() {
    // entering the lighter medium: 30 degrees refracts to 41.8103 degrees
    let refraction_index = fxr(4, 3);
    let angle_in = (30.0_f64).to_radians();
    let angle_out = (41.8103_f64).to_radians();

    let normal = Vector3D::new(fxi(0), fxi(2), fxi(0)).unit();
    let vec = Vector3D::new(fxf(angle_in.sin()), fxf(-angle_in.cos()), fxi(0)).unit();
    let refracted = refract(&vec, &normal, refraction_index);

    let expected = Vector3D::new(fxf(angle_out.sin()), fxf(-angle_out.cos()), fxi(0)).unit();
    assert_fx_eq(refracted.x, expected.x, 64);
    assert_fx_eq(refracted.y, expected.y, 64);
    assert_fx_eq(refracted.z, expected.z, 64);
}
