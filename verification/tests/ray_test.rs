//! Ray construction and parametrized point evaluation.

use yarrr::fixed::Fx;
use yarrr::linalg::Vector3D;
use yarrr::ray::Ray;

const TOL: i64 = 4;

fn fxi(v: i64) -> Fx {
    Fx::from_int(v)
}

fn fxr(n: i64, d: i64) -> Fx {
    Fx::from_ratio(n, d)
}

fn fxf(x: f64) -> Fx {
    Fx { raw: (x * 65536.0) as i64 }
}

fn assert_vec_eq(left: &Vector3D, right: &Vector3D) {
    assert!((left.x.raw - right.x.raw).abs() <= TOL);
    assert!((left.y.raw - right.y.raw).abs() <= TOL);
    assert!((left.z.raw - right.z.raw).abs() <= TOL);
}

#[test]
fn test_create_ray_unit_direction() {
    let orig = Vector3D::new(fxi(0), fxi(1), fxi(2));
    let dir = Vector3D::new(fxi(1), fxi(1), fxi(1));
    let r = Ray::new(orig, dir);

    let c = fxf(1.0 / 3.0_f64.sqrt());
    let expected_dir = Vector3D::new(c, c, c);

    assert_vec_eq(&r.direction, &expected_dir);
}

#[test]
fn test_ray_at_value() {
    let orig = Vector3D::new(fxi(0), fxi(1), fxi(2));
    let dir = Vector3D::new(fxi(3), fxi(4), fxi(0));
    let r = Ray::new(orig, dir);

    let dest = r.at(fxi(0));
    assert_vec_eq(&dest, &orig);

    let dest = r.at(fxi(2));
    assert_vec_eq(&dest, &Vector3D::new(fxr(12, 10), fxr(26, 10), fxi(2)));

    let dest = r.at(fxr(-35, 10));
    assert_vec_eq(&dest, &Vector3D::new(fxr(-21, 10), fxr(-18, 10), fxi(2)));
}

#[test]
fn ray_test_create_ray_unit_direction() {
    let orig = Vector3D::new(fxi(0), fxi(1), fxi(2));
    let dir = Vector3D::new(fxi(1), fxi(1), fxi(1));
    let r = Ray::new(orig, dir);

    let c = fxf(1.0 / 3.0_f64.sqrt());
    let expected_dir = Vector3D::new(c, c, c);

    assert_vec_eq(&r.direction, &expected_dir);
}

#[test]
fn ray_test_ray_at_value() {
    let orig = Vector3D::new(fxi(0), fxi(1), fxi(2));
    let dir = Vector3D::new(fxi(3), fxi(4), fxi(0));
    let r = Ray::new(orig, dir);

    let dest = r.at(fxi(0));
    assert_vec_eq(&dest, &orig);

    let dest = r.at(fxi(2));
    assert_vec_eq(&dest, &Vector3D::new(fxr(12, 10), fxr(26, 10), fxi(2)));

    let dest = r.at(fxr(-35, 10));
    assert_vec_eq(&dest, &Vector3D::new(fxr(-21, 10), fxr(-18, 10), fxi(2)));
}
