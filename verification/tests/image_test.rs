//! The pixel buffer: coordinate mapping, reads and writes, byte export.

use yarrr::fixed::Fx;
use yarrr::image::Image;
use yarrr::linalg::Vector3D;
use yarrr::rng::new_rng;

fn fxi(v: i64) -> Fx {
    Fx::from_int(v)
}

#[test]
fn test_pixel_to_uv() {
    let img = Image::new(800, 600);
    let (u, v) = img.pixel_to_uv(0, 0);
    assert_eq!(u.raw, 0);
    assert_eq!(v.raw, 0);

    let (u, v) = img.pixel_to_uv(799, 0);
    assert_eq!(u.raw, 65536);
    assert_eq!(v.raw, 0);

    let (u, v) = img.pixel_to_uv(799, 599);
    assert_eq!(u.raw, 65536);
    assert_eq!(v.raw, 65536);
}

#[test]
fn test_pixel_to_uv_noisy_in_cell() {
    let img = Image::new(800, 600);
    let mut rng = new_rng();
    for _ in 0..32 {
        let (u, v) = img.pixel_to_uv_noisy(10, 20, &mut rng);
        // the jittered coordinate stays between this pixel's and the next's
        let (u0, v0) = img.pixel_to_uv(10, 20);
        let (u1, v1) = img.pixel_to_uv(11, 21);
        assert!(u0.raw <= u.raw && u.raw <= u1.raw);
        assert!(v0.raw <= v.raw && v.raw <= v1.raw);
    }
}

#[test]
fn test_image_set_at() {
    let mut img = Image::new(4, 3);
    let (w, h) = img.dims();
    assert_eq!(w, 4);
    assert_eq!(h, 3);
    assert_eq!(img.at(2, 1).x.raw, 0);
    let c = Vector3D::new(fxi(1), Fx { raw: 32768 }, fxi(0));
    img.set_at(2, 1, c);
    let got = img.at(2, 1);
    assert_eq!(got.x.raw, 65536);
    assert_eq!(got.y.raw, 32768);
    assert_eq!(got.z.raw, 0);
    // neighbours untouched
    assert_eq!(img.at(1, 1).x.raw, 0);
    assert_eq!(img.at(2, 0).x.raw, 0);
}

#[test]
fn test_as_bytes() {
    let mut img = Image::new(1, 2);
    img.set_at(
        0,
        0,
        Vector3D::new(Fx { raw: 65470 }, Fx { raw: 0 }, Fx { raw: 32768 }),
    );
    let bytes = img.as_bytes();
    // reversed pixel order: the untouched top pixel first, then the set one
    assert_eq!(bytes, vec![0, 0, 0, 255, 0, 127]);
}
