//! Material scattering rules, with the random source exercised for real.

use yarrr::fixed::Fx;
use yarrr::linalg::{shlick_reflectance, Vector3D};
use yarrr::material::{Material, Scatter};
use yarrr::ray::{HitRecord, Ray};
use yarrr::rng::new_rng;

fn fxi(v: i64) -> Fx {
    Fx::from_int(v)
}

fn fxr(n: i64, d: i64) -> Fx {
    Fx::from_ratio(n, d)
}

fn front_hit(material: Material) -> (Ray, HitRecord) {
    let ray = Ray::new(
        Vector3D::new(fxi(0), fxi(0), fxi(0)),
        Vector3D::new(fxi(0), fxi(0), fxi(-1)),
    );
    let hit = HitRecord {
        point: Vector3D::new(fxi(0), fxi(0), fxi(-4)),
        t: fxi(4),
        normal: Vector3D::new(fxi(0), fxi(0), fxi(1)),
        is_front_face: true,
        material,
    };
    (ray, hit)
}

#[test]
fn test_lambertian_never_absorbs() {
    let albedo = Vector3D::new(fxr(2, 10), fxr(1, 10), fxr(9, 10));
    let (ray, hit) = front_hit(Material::Lambertan(albedo));
    let mut rng = new_rng();
    for _ in 0..64 {
        let bounce = Material::scatter(&ray, &hit, &mut rng);
        let b = bounce.expect("a Lambertian surface always scatters");
        assert_eq!(b.attenuation.x.raw, albedo.x.raw);
        assert_eq!(b.attenuation.y.raw, albedo.y.raw);
        assert_eq!(b.attenuation.z.raw, albedo.z.raw);
        assert_eq!(b.ray.origin.z.raw, hit.point.z.raw);
    }
}

#[test]
fn test_dielectric_attenuation_white() {
    let (ray, hit) = front_hit(Material::Dielectric(fxr(3, 2)));
    let mut rng = new_rng();
    for _ in 0..64 {
        let bounce = Material::scatter(&ray, &hit, &mut rng);
        let b = bounce.expect("a dielectric always reflects or refracts");
        assert_eq!(b.attenuation.x.raw, 65536);
        assert_eq!(b.attenuation.y.raw, 65536);
        assert_eq!(b.attenuation.z.raw, 65536);
    }
}

#[test]
fn test_metal_mirror_reflection() {
    // fuzz zero: the scattered direction is the exact mirror image
    let albedo = Vector3D::new(fxr(8, 10), fxr(8, 10), fxr(8, 10));
    let (ray, hit) = front_hit(Material::Metal(albedo, fxi(0)));
    let mut rng = new_rng();
    let bounce = Material::scatter(&ray, &hit, &mut rng).unwrap();
    assert_eq!(bounce.attenuation.x.raw, albedo.x.raw);
    assert_eq!(bounce.ray.direction.x.raw, 0);
    assert_eq!(bounce.ray.direction.y.raw, 0);
    assert_eq!(bounce.ray.direction.z.raw, 65536);
}

#[test]
fn test_diagnostic_scatter() {
    let (ray, hit) = front_hit(Material::Diagnostic);
    let mut rng = new_rng();
    let bounce = Material::scatter(&ray, &hit, &mut rng).unwrap();
    assert_eq!(bounce.attenuation.x.raw, 32768);
    assert_eq!(bounce.attenuation.y.raw, 32768);
    assert_eq!(bounce.attenuation.z.raw, 32768);
    // the outgoing ray leaves along the (front-facing) normal
    assert_eq!(bounce.ray.direction.z.raw, 65536);
}

#[test]
fn test_dielectric_total_internal_reflection() {
    // leaving glass at forty-five degrees, beyond the critical angle: the
    // ray reflects whatever the reflectance draw, so the bounce direction
    // is the same deterministic mirror image every time
    let ray = Ray::new(
        Vector3D::new(fxi(0), fxi(0), fxi(0)),
        Vector3D::new(fxi(1), fxi(0), fxi(-1)),
    );
    let hit = HitRecord {
        point: Vector3D::new(fxi(0), fxi(0), fxi(-4)),
        t: fxi(4),
        normal: Vector3D::new(fxi(0), fxi(0), fxi(1)),
        is_front_face: false,
        material: Material::Dielectric(fxr(3, 2)),
    };
    let mut rng = new_rng();
    let first = Material::scatter(&ray, &hit, &mut rng).unwrap();
    assert!(first.ray.direction.x.raw > 0);
    assert_eq!(first.ray.direction.y.raw, 0);
    assert!(first.ray.direction.z.raw > 0);
    for _ in 0..64 {
        let b = Material::scatter(&ray, &hit, &mut rng).unwrap();
        assert_eq!(b.ray.direction.x.raw, first.ray.direction.x.raw);
        assert_eq!(b.ray.direction.z.raw, first.ray.direction.z.raw);
    }
}

#[test]
fn test_shlick_normal_incidence() {
    // head-on against glass of index 1.5 the reflectance is r0^2, about 4%
    let r = shlick_reflectance(fxi(1), fxr(3, 2));
    assert_eq!(r.raw, 2621);
}

#[test]
fn test_unit_sphere_sample_in_ball() {
    let mut rng = new_rng();
    for _ in 0..256 {
        let v = Vector3D::unit_sphere_sample(&mut rng);
        assert!(v.norm_squared().raw < 65536);
        assert!(v.x.raw.abs() <= 65536);
        assert!(v.y.raw.abs() <= 65536);
        assert!(v.z.raw.abs() <= 65536);
    }
}

#[test]
fn test_random_in_cube() {
    // the draws land inside the requested cube, and not all at one point
    let mut rng = new_rng();
    let lo = fxi(-1);
    let hi = fxi(1);
    let mut distinct = false;
    let first = Vector3D::random(lo, hi, &mut rng);
    for _ in 0..64 {
        let v = Vector3D::random(lo, hi, &mut rng);
        assert!(lo.raw <= v.x.raw && v.x.raw < hi.raw);
        assert!(lo.raw <= v.y.raw && v.y.raw < hi.raw);
        assert!(lo.raw <= v.z.raw && v.z.raw < hi.raw);
        if v.x.raw != first.x.raw || v.y.raw != first.y.raw {
            distinct = true;
        }
    }
    assert!(distinct);
}

#[test]
fn test_random_unit_not_degenerate() {
    let mut rng = new_rng();
    for _ in 0..64 {
        let v = Vector3D::random_unit(&mut rng);
        // a usable direction: normalized within the unit guarantees
        assert!(v.norm_squared().raw >= 1);
        assert!(v.x.raw.abs() <= 2 * 65536);
        assert!(v.y.raw.abs() <= 2 * 65536);
        assert!(v.z.raw.abs() <= 2 * 65536);
    }
}
