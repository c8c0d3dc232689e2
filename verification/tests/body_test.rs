//! Sphere intersection and nearest-hit resolution across a scene.

use yarrr::body::{HittableScene, Sphere, SphereScene};
use yarrr::fixed::Fx;
use yarrr::linalg::Vector3D;
use yarrr::material::Material;
use yarrr::ray::{Hittable, Ray};

const TOL: i64 = 4;

fn fxi(v: i64) -> Fx {
    Fx::from_int(v)
}

fn fxr(n: i64, d: i64) -> Fx {
    Fx::from_ratio(n, d)
}

fn assert_fx_eq(left: Fx, right: Fx) {
    assert!(
        (left.raw - right.raw).abs() <= TOL,
        "left {} right {}",
        left.raw,
        right.raw
    );
}

#[test]
fn test_hit_sphere_miss() {
    let s = Sphere::new(
        Vector3D::new(fxi(0), fxi(0), fxi(-5)),
        fxi(1),
        Material::Diagnostic,
    );
    let ray = Ray::new(
        Vector3D::new(fxi(1), fxi(1), fxi(0)),
        Vector3D::new(fxi(0), fxi(0), fxi(-1)),
    );
    let result = s.hit(&ray, fxi(0), fxi(1000));
    assert!(result.is_none());
}

#[test]
fn test_hit_sphere_from_outside() {
    let s = Sphere::new(
        Vector3D::new(fxi(0), fxi(0), fxi(-5)),
        fxi(1),
        Material::Diagnostic,
    );
    let ray = Ray::new(
        Vector3D::new(fxi(0), fxi(0), fxi(0)),
        Vector3D::new(fxi(0), fxi(0), fxi(-1)),
    );
    let result = s.hit(&ray, fxi(0), fxi(1000)).unwrap();
    assert_fx_eq(result.t, fxi(4));
    assert!(result.is_front_face);

    assert_fx_eq(result.point.x, fxi(0));
    assert_fx_eq(result.point.y, fxi(0));
    assert_fx_eq(result.point.z, fxi(-4));

    assert_fx_eq(result.normal.x, fxi(0));
    assert_fx_eq(result.normal.y, fxi(0));
    assert_fx_eq(result.normal.z, fxi(1));
}

#[test]
fn test_hit_sphere_from_inside() {
    let s = Sphere::new(
        Vector3D::new(fxi(0), fxi(0), fxi(-5)),
        fxr(1, 2),
        Material::Diagnostic,
    );
    let ray = Ray::new(
        Vector3D::new(fxi(0), fxi(0), fxi(-5)),
        Vector3D::new(fxi(0), fxi(0), fxi(-1)),
    );
    let result = s.hit(&ray, fxi(0), fxi(1000)).unwrap();
    assert_fx_eq(result.t, fxr(1, 2));
    assert!(!result.is_front_face);

    assert_fx_eq(result.point.x, fxi(0));
    assert_fx_eq(result.point.y, fxi(0));
    assert_fx_eq(result.point.z, fxr(-55, 10));

    assert_fx_eq(result.normal.x, fxi(0));
    assert_fx_eq(result.normal.y, fxi(0));
    assert_fx_eq(result.normal.z, fxi(1));
}

#[test]
fn test_scene_nearest_hit() {
    // two spheres along the ray; the aggregate must report the closer one,
    // whatever the insertion order
    let far = Sphere::new(
        Vector3D::new(fxi(0), fxi(0), fxi(-5)),
        fxi(1),
        Material::Diagnostic,
    );
    let near = Sphere::new(
        Vector3D::new(fxi(0), fxi(0), fxi(-3)),
        fxi(1),
        Material::Diagnostic,
    );
    let ray = Ray::new(
        Vector3D::new(fxi(0), fxi(0), fxi(0)),
        Vector3D::new(fxi(0), fxi(0), fxi(-1)),
    );

    let mut scene = HittableScene::new();
    scene.add(far);
    scene.add(near);
    let result = scene.hit(&ray, fxi(0), fxi(1000)).unwrap();
    assert_fx_eq(result.t, fxi(2));

    let mut swapped = HittableScene::new();
    swapped.add(near);
    swapped.add(far);
    let result2 = swapped.hit(&ray, fxi(0), fxi(1000)).unwrap();
    assert_fx_eq(result2.t, fxi(2));
}

#[test]
fn test_scene_normal_faces_ray() {
    // the stored normal always faces the incoming ray, front or back side
    let s = Sphere::new(
        Vector3D::new(fxi(0), fxi(0), fxi(-5)),
        fxi(2),
        Material::Diagnostic,
    );
    let mut scene = HittableScene::new();
    scene.add(s);

    let from_outside = Ray::new(
        Vector3D::new(fxi(0), fxi(0), fxi(0)),
        Vector3D::new(fxi(0), fxi(0), fxi(-1)),
    );
    let h1 = scene.hit(&from_outside, fxi(0), fxi(1000)).unwrap();
    assert!(from_outside.direction.dot(&h1.normal).raw <= 0);

    let from_inside = Ray::new(
        Vector3D::new(fxi(0), fxi(0), fxi(-5)),
        Vector3D::new(fxi(0), fxi(1), fxi(0)),
    );
    let h2 = scene.hit(&from_inside, fxi(0), fxi(1000)).unwrap();
    assert!(from_inside.direction.dot(&h2.normal).raw <= 0);
}

#[test]
fn test_sphere_scene_nearest() {
    // the homogeneous scene resolves the same nearest hit as the
    // heterogeneous one
    let far = Sphere::new(
        Vector3D::new(fxi(0), fxi(0), fxi(-5)),
        fxi(1),
        Material::Diagnostic,
    );
    let near = Sphere::new(
        Vector3D::new(fxi(0), fxi(0), fxi(-3)),
        fxi(1),
        Material::Diagnostic,
    );
    let ray = Ray::new(
        Vector3D::new(fxi(0), fxi(0), fxi(0)),
        Vector3D::new(fxi(0), fxi(0), fxi(-1)),
    );
    let mut scene = SphereScene::new();
    scene.add(far);
    scene.add(near);
    let result = scene.hit(&ray, fxi(0), fxi(1000)).unwrap();
    assert_fx_eq(result.t, fxi(2));
}

#[test]
fn test_empty_scene_misses() {
    let scene = HittableScene::new();
    let ray = Ray::new(
        Vector3D::new(fxi(0), fxi(0), fxi(0)),
        Vector3D::new(fxi(0), fxi(0), fxi(-1)),
    );
    assert!(scene.hit(&ray, fxi(0), fxi(1000)).is_none());
}

#[test]
fn test_equal_spheres_tie() {
    // two coincident spheres: the returned parameter is the shared nearest t
    let s = Sphere::new(
        Vector3D::new(fxi(0), fxi(0), fxi(-5)),
        fxi(1),
        Material::Diagnostic,
    );
    let mut scene = HittableScene::new();
    scene.add(s);
    scene.add(s);
    let ray = Ray::new(
        Vector3D::new(fxi(0), fxi(0), fxi(0)),
        Vector3D::new(fxi(0), fxi(0), fxi(-1)),
    );
    let result = scene.hit(&ray, fxi(0), fxi(1000)).unwrap();
    assert_fx_eq(result.t, fxi(4));
}

#[test]
fn test_window_rejects_real_hit() {
    // a geometrically real hit beyond t_max must be rejected
    let s = Sphere::new(
        Vector3D::new(fxi(0), fxi(0), fxi(-5)),
        fxi(1),
        Material::Diagnostic,
    );
    let ray = Ray::new(
        Vector3D::new(fxi(0), fxi(0), fxi(0)),
        Vector3D::new(fxi(0), fxi(0), fxi(-1)),
    );
    assert!(s.hit(&ray, fxi(0), fxi(3)).is_none());
    assert!(s.hit(&ray, fxi(7), fxi(1000)).is_none());
    // and the far wall is used when the near root lies before t_min
    let far = s.hit(&ray, fxi(5), fxi(1000)).unwrap();
    assert_fx_eq(far.t, fxi(6));
}
