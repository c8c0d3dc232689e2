//! Camera ray generation: both camera shapes, and the center-of-frame law
//! on concrete values.

use yarrr::camera::{Camera, FovCamera, SimpleCamera, Viewport};
use yarrr::fixed::Fx;
use yarrr::linalg::Vector3D;

fn fxi(v: i64) -> Fx {
    Fx::from_int(v)
}

fn half() -> Fx {
    Fx { raw: 32768 }
}

#[test]
fn test_fov_camera_center_ray() {
    // vfov 90 degrees, aspect 1, at the origin looking down negative z:
    // the center ray points exactly along negative z
    let cam = FovCamera::new(
        Vector3D::new(fxi(0), fxi(0), fxi(0)),
        Vector3D::new(fxi(0), fxi(0), fxi(-1)),
        Vector3D::new(fxi(0), fxi(1), fxi(0)),
        fxi(90),
        fxi(1),
    );
    let ray = cam.ray_from_uv(half(), half());
    assert_eq!(ray.direction.x.raw, 0);
    assert_eq!(ray.direction.y.raw, 0);
    assert_eq!(ray.direction.z.raw, -65536);
    assert_eq!(ray.origin.x.raw, 0);
}

#[test]
fn test_fov_camera_off_axis() {
    // away from the center the ray tilts toward the sampled corner
    let cam = FovCamera::new(
        Vector3D::new(fxi(0), fxi(0), fxi(0)),
        Vector3D::new(fxi(0), fxi(0), fxi(-1)),
        Vector3D::new(fxi(0), fxi(1), fxi(0)),
        fxi(90),
        fxi(1),
    );
    let ray = cam.ray_from_uv(fxi(1), fxi(1));
    assert!(ray.direction.x.raw > 0);
    assert!(ray.direction.y.raw > 0);
    assert!(ray.direction.z.raw < 0);
}

#[test]
fn test_simple_camera_center_ray() {
    let vp = Viewport::new(fxi(2), fxi(1));
    let cam = SimpleCamera::new(vp, fxi(1), Vector3D::new(fxi(0), fxi(0), fxi(0)));
    let ray = cam.ray_from_uv(half(), half());
    assert_eq!(ray.direction.x.raw, 0);
    assert_eq!(ray.direction.y.raw, 0);
    assert_eq!(ray.direction.z.raw, -65536);
}

#[test]
fn test_viewport_width_from_aspect() {
    let vp = Viewport::new(fxi(2), Fx::from_ratio(16, 9));
    // 2 * 16 / 9 = 3.5555...; one truncation step at each operation
    let expected = ((2.0 * 16.0 / 9.0) * 65536.0) as i64;
    assert!((vp.width.raw - expected).abs() <= 4);
    assert_eq!(vp.height.raw, 2 * 65536);
}
