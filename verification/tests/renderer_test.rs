//! The path tracer: radiance collection, gamma correction and a small
//! end-to-end render.

use yarrr::body::{HittableScene, Sphere};
use yarrr::camera::{SimpleCamera, Viewport};
use yarrr::fixed::Fx;
use yarrr::image::Image;
use yarrr::linalg::Vector3D;
use yarrr::material::Material;
use yarrr::ray::Ray;
use yarrr::renderer::{collect_color, color_image, correct_gamma, RenderSettings};
use yarrr::rng::new_rng;

fn fxi(v: i64) -> Fx {
    Fx::from_int(v)
}

fn fxr(n: i64, d: i64) -> Fx {
    Fx::from_ratio(n, d)
}

#[test]
fn test_collect_color_depth_zero() {
    let scene = HittableScene::new();
    let ray = Ray::new(
        Vector3D::new(fxi(0), fxi(0), fxi(0)),
        Vector3D::new(fxi(0), fxi(0), fxi(-1)),
    );
    let mut rng = new_rng();
    let c = collect_color(&ray, &scene, 0, &mut rng);
    assert_eq!(c.x.raw, 0);
    assert_eq!(c.y.raw, 0);
    assert_eq!(c.z.raw, 0);
}

#[test]
fn test_collect_color_sky() {
    // an empty scene returns the sky gradient; straight up it is the fixed
    // sky blue, straight down pure white
    let scene = HittableScene::new();
    let mut rng = new_rng();

    let up = Ray::new(
        Vector3D::new(fxi(0), fxi(0), fxi(0)),
        Vector3D::new(fxi(0), fxi(1), fxi(0)),
    );
    let c = collect_color(&up, &scene, 4, &mut rng);
    assert_eq!(c.x.raw, 32768);
    assert_eq!(c.y.raw, 45875);
    assert_eq!(c.z.raw, 65536);

    let down = Ray::new(
        Vector3D::new(fxi(0), fxi(0), fxi(0)),
        Vector3D::new(fxi(0), fxi(-1), fxi(0)),
    );
    let c = collect_color(&down, &scene, 4, &mut rng);
    assert_eq!(c.x.raw, 65536);
    assert_eq!(c.y.raw, 65536);
    assert_eq!(c.z.raw, 65536);
}

#[test]
fn test_black_albedo_hit_contributes_nothing() {
    // a hit on a black-albedo diffuse surface multiplies the recursive
    // radiance by zero: the pixel contribution is exactly black, whatever
    // path the scattered ray then takes
    let mut scene = HittableScene::new();
    scene.add(Sphere::new(
        Vector3D::new(fxi(0), fxi(0), fxi(-3)),
        fxi(1),
        Material::Lambertan(Vector3D::new(fxi(0), fxi(0), fxi(0))),
    ));
    let ray = Ray::new(
        Vector3D::new(fxi(0), fxi(0), fxi(0)),
        Vector3D::new(fxi(0), fxi(0), fxi(-1)),
    );
    let mut rng = new_rng();
    for _ in 0..16 {
        let c = collect_color(&ray, &scene, 5, &mut rng);
        assert_eq!(c.x.raw, 0);
        assert_eq!(c.y.raw, 0);
        assert_eq!(c.z.raw, 0);
    }
}

#[test]
fn test_gamma_clamp() {
    // a full-brightness channel clamps at 0.999; a quarter averages and
    // square-roots to exactly one half; an empty channel stays zero
    let color = Vector3D::new(fxi(4), fxi(1), fxi(0));
    let corrected = correct_gamma(color, 4);
    assert_eq!(corrected.x.raw, 65470);
    assert_eq!(corrected.y.raw, 32768);
    assert_eq!(corrected.z.raw, 0);
}

#[test]
fn test_gamma_never_exceeds_clamp() {
    // any accumulated sum within the sample budget lands in [0, 0.999]
    for n in [1u32, 2, 3, 7, 100] {
        for frac in 0..=10i64 {
            let c = Fx { raw: (n as i64) * 65536 * frac / 10 };
            let corrected = correct_gamma(Vector3D::new(c, c, c), n);
            assert!(0 <= corrected.x.raw && corrected.x.raw <= 65470);
        }
    }
}

#[test]
fn test_render_small_image() {
    let mut img = Image::new(8, 6);
    let vp = Viewport::new(fxi(2), fxr(4, 3));
    let cam = SimpleCamera::new(vp, fxi(1), Vector3D::new(fxi(0), fxi(0), fxi(0)));

    let mut scene = HittableScene::new();
    scene.add(Sphere::new(
        Vector3D::new(fxi(0), fxi(0), fxi(-1)),
        fxr(1, 2),
        Material::Lambertan(Vector3D::new(fxr(2, 10), fxr(1, 10), fxr(9, 10))),
    ));
    scene.add(Sphere::new(
        Vector3D::new(fxi(0), fxr(-201, 2), fxi(-1)),
        fxi(100),
        Material::Lambertan(Vector3D::new(fxr(2, 10), fxr(9, 10), fxr(4, 10))),
    ));

    let settings = RenderSettings { samples_per_px: 2, bounce_depth: 4 };
    let mut rng = new_rng();
    color_image(&mut img, cam, scene, settings, &mut rng);

    // every pixel was written and clamped into the byte-safe range
    for j in 0..6 {
        for i in 0..8 {
            let p = img.at(i, j);
            assert!(0 <= p.x.raw && p.x.raw <= 65470);
            assert!(0 <= p.y.raw && p.y.raw <= 65470);
            assert!(0 <= p.z.raw && p.z.raw <= 65470);
        }
    }
    // the sky rows at the top are brighter than dark space: sanity on content
    let bytes = img.as_bytes();
    assert_eq!(bytes.len(), 3 * 8 * 6);
}
