//! Cameras: mapping normalized image-plane coordinates to world-space rays.
//!
//! Both camera shapes expose the identical `ray_from_uv` contract, so the
//! renderer stays generic over the capability.

use crate::fixed::{fx_div, fx_mul, lemma_fx_div_mag, lemma_fx_half, mag, Fx, HALF_RAW, SCALE};
use crate::linalg::{
    add_s, cross_s, lemma_mul_comp_bound, lemma_pow_step, neg_s, nsq_s, of_v3, scale_s, sub_s,
    unit_s, v3_bounded, Vector3D, V3,
};
use crate::ray::{hit_domain, ray_wf, Ray};
use vstd::arithmetic::div_mod::lemma_div_is_ordered;
use vstd::prelude::*;

verus! {

/// Cap on normalized image-plane coordinates handed to a camera; values
/// outside `[0, 1]` are valid and sample outside the nominal frame.
pub const B_UV: i64 = 0x10_0000;

/// Cap on camera positions and targets.
pub const CAM_MAX: i64 = 0x1000_0000;

/// Fixed-point pi.
pub const PI_RAW: i64 = 205887;

/// Image-plane rectangle a focal length away from the camera origin.
#[derive(Clone, Copy, Debug)]
pub struct Viewport {
    pub width: Fx,
    pub height: Fx,
}

impl Viewport {
    /// Width follows from the height and the aspect ratio.
    pub fn new(height: Fx, aspect_ratio: Fx) -> (r: Viewport)
        requires
            0 <= height@ <= 0x80_0000,
            0 <= aspect_ratio@ <= B_UV as int,
        ensures
            r.height == height,
            r.width@ == fx_mul(aspect_ratio@, height@),
            0 <= r.width@ <= 0x800_0000,
    {
        proof {
            lemma_pow_step(aspect_ratio@, height@, B_UV as int, 0x80_0000);
            assert((0x10_0000int * 0x80_0000int) / (SCALE as int) == 0x800_0000int);
            crate::fixed::lemma_fx_mul_mag(aspect_ratio@, height@);
            vstd::arithmetic::mul::lemma_mul_nonnegative(mag(aspect_ratio@), mag(height@));
            vstd::arithmetic::div_mod::lemma_div_pos_is_pos(
                mag(aspect_ratio@) * mag(height@),
                SCALE as int,
            );
        }
        let width = aspect_ratio.mul(height);
        Viewport { width, height }
    }
}

/// Capability of producing a ray through normalized image coordinates.
pub trait Camera: Sized {
    /// Well-formedness of the stored camera frame.
    spec fn wf(&self) -> bool;

    /// What `ray_from_uv` returns.
    spec fn ray_spec(&self, u: int, v: int) -> Ray;

    /// The ray through image-plane coordinates `(u, v)`.
    fn ray_from_uv(&self, u: Fx, v: Fx) -> (r: Ray)
        requires
            self.wf(),
            -(B_UV as int) <= u@ <= B_UV as int,
            -(B_UV as int) <= v@ <= B_UV as int,
        ensures
            r == self.ray_spec(u@, v@),
            ray_wf(r),
            hit_domain(r),
    ;
}

/// A camera direction that quantizes to nothing falls back to the negative
/// z axis, the canonical forward direction.
pub open spec fn dir_or_fallback(d: V3) -> V3 {
    if nsq_s(d) < 1 {
        V3 { x: 0, y: 0, z: -(SCALE as int) }
    } else {
        d
    }
}

/// Build the guarded ray a camera returns: origin kept, direction
/// normalized after the degeneracy guard.
pub open spec fn cam_ray_s(origin: Vector3D, d: V3) -> Ray {
    Ray { origin, direction: of_v3(unit_s(dir_or_fallback(d))) }
}

/// Finish a camera ray from an unnormalized direction.
fn finish_ray(origin: Vector3D, dir: Vector3D) -> (r: Ray)
    requires
        v3_bounded(origin@, CAM_MAX as int),
        v3_bounded(dir@, 0x10_0000_0000),
    ensures
        r == cam_ray_s(origin, dir@),
        ray_wf(r),
        hit_domain(r),
{
    let nsq = dir.norm_squared();
    let d = if nsq.raw < 1 {
        Vector3D::new(Fx { raw: 0 }, Fx { raw: 0 }, Fx { raw: -SCALE })
    } else {
        dir
    };
    proof {
        if nsq@ < 1 {
            crate::fixed::lemma_fx_mul_mag(-(SCALE as int), -(SCALE as int));
            crate::fixed::lemma_fx_mul_mag(0, 0);
            assert((65536int * 65536int) / (SCALE as int) == 65536int);
            assert((0int * 0int) / (SCALE as int) == 0int);
        }
    }
    let rr = Ray::new(origin, d);
    proof {
        crate::linalg::lemma_of_v3_roundtrip(rr.direction);
    }
    rr
}

/// Axis-aligned camera at an arbitrary origin pointing toward negative z.
#[derive(Clone, Copy, Debug)]
pub struct SimpleCamera {
    pub origin: Vector3D,
    pub viewport: Viewport,
    pub focal_length: Fx,
    lower_left: Vector3D,
}

/// Spec view of the stored simple-camera frame.
pub struct SimpleCamV {
    pub origin: V3,
    pub vp_width: int,
    pub vp_height: int,
    pub lower_left: V3,
}

impl View for SimpleCamera {
    type V = SimpleCamV;

    closed spec fn view(&self) -> SimpleCamV {
        SimpleCamV {
            origin: self.origin@,
            vp_width: self.viewport.width@,
            vp_height: self.viewport.height@,
            lower_left: self.lower_left@,
        }
    }
}

/// The lower-left image-plane corner of the simple camera.
pub open spec fn simple_lower_left_s(origin: V3, w: int, h: int, focal: int) -> V3 {
    sub_s(
        origin,
        V3 { x: fx_div(w, 2 * (SCALE as int)), y: fx_div(h, 2 * (SCALE as int)), z: focal },
    )
}

/// The (pre-normalization) direction of the simple camera's ray.
pub open spec fn simple_ray_dir_s(c: SimpleCamV, u: int, v: int) -> V3 {
    sub_s(
        add_s(c.lower_left, V3 { x: fx_mul(u, c.vp_width), y: fx_mul(v, c.vp_height), z: 0 }),
        c.origin,
    )
}

impl SimpleCamera {
    pub fn new(viewport: Viewport, focal_length: Fx, origin: Vector3D) -> (r: SimpleCamera)
        requires
            0 <= viewport.width@ <= 0x800_0000,
            0 <= viewport.height@ <= 0x800_0000,
            0 <= focal_length@ <= 0x800_0000,
            v3_bounded(origin@, CAM_MAX as int),
        ensures
            r@.origin == origin@,
            r@.vp_width == viewport.width@,
            r@.vp_height == viewport.height@,
            r@.lower_left == simple_lower_left_s(
                origin@,
                viewport.width@,
                viewport.height@,
                focal_length@,
            ),
            r.wf(),
    {
        let two = Fx::from_int(2);
        let half_extent = Vector3D::new(
            viewport.width.div(two),
            viewport.height.div(two),
            focal_length,
        );
        proof {
            crate::fixed::lemma_fx_div_shrink(viewport.width@, 2 * (SCALE as int));
            crate::fixed::lemma_fx_div_shrink(viewport.height@, 2 * (SCALE as int));
        }
        let lower_left = origin.sub(&half_extent);
        SimpleCamera { origin, viewport, focal_length, lower_left }
    }
}

impl Camera for SimpleCamera {
    /// Bounded origin and a stored corner consistent with the caps.
    closed spec fn wf(&self) -> bool {
        &&& v3_bounded(self@.origin, CAM_MAX as int)
        &&& v3_bounded(self@.lower_left, 0x4000_0000)
        &&& 0 <= self@.vp_width <= 0x800_0000
        &&& 0 <= self@.vp_height <= 0x800_0000
    }

    open spec fn ray_spec(&self, u: int, v: int) -> Ray {
        cam_ray_s(of_v3(self@.origin), simple_ray_dir_s(self@, u, v))
    }

    fn ray_from_uv(&self, u: Fx, v: Fx) -> (r: Ray) {
        proof {
            lemma_pow_step(u@, self@.vp_width, B_UV as int, 0x800_0000);
            lemma_pow_step(v@, self@.vp_height, B_UV as int, 0x800_0000);
            assert((0x10_0000int * 0x800_0000int) / (SCALE as int) == 0x8000_0000int);
            crate::linalg::lemma_of_v3_roundtrip(self.origin);
        }
        let span = Vector3D::new(
            u.mul(self.viewport.width),
            v.mul(self.viewport.height),
            Fx { raw: 0 },
        );
        let dir = self.lower_left.add(&span).sub(&self.origin);
        finish_ray(self.origin, dir)
    }
}

/// Truncated Taylor series for the sine, on fixed-point radians.
pub open spec fn sin_s(x: int) -> int {
    let s = SCALE as int;
    let x2 = fx_mul(x, x);
    let x3 = fx_mul(x2, x);
    let x5 = fx_mul(x3, x2);
    let x7 = fx_mul(x5, x2);
    let x9 = fx_mul(x7, x2);
    x - fx_div(x3, 6 * s) + fx_div(x5, 120 * s) - fx_div(x7, 5040 * s) + fx_div(x9, 362880 * s)
}

/// Truncated Taylor series for the cosine, on fixed-point radians.
pub open spec fn cos_s(x: int) -> int {
    let s = SCALE as int;
    let x2 = fx_mul(x, x);
    let x4 = fx_mul(x2, x2);
    let x6 = fx_mul(x4, x2);
    let x8 = fx_mul(x6, x2);
    s - fx_div(x2, 2 * s) + fx_div(x4, 24 * s) - fx_div(x6, 720 * s) + fx_div(x8, 40320 * s)
}

/// Degrees to fixed-point radians.
pub open spec fn to_radians_s(deg: int) -> int {
    fx_div(fx_mul(deg, PI_RAW as int), 180 * (SCALE as int))
}

/// Tangent of half the angle, by the two series; a nonpositive cosine
/// (possible only through series truncation at the extremes of the
/// supported range) is lifted to one quantum, and the result is clamped to
/// the representable viewport range `[0, 64]`.
pub open spec fn tan_half_s(theta: int) -> int {
    let x = fx_div(theta, 2 * (SCALE as int));
    let c = cos_s(x);
    let c1 = if c < 1 {
        1
    } else {
        c
    };
    let t = fx_div(sin_s(x), c1);
    if t < 0 {
        0
    } else if t > 0x40_0000 {
        0x40_0000
    } else {
        t
    }
}

/// Bounds for every intermediate of the two series on `x` within `[0, 4]`.
proof fn lemma_trig_bounds(x: int)
    requires
        0 <= x <= 0x4_0000,
    ensures
        mag(fx_mul(x, x)) <= 0x10_0000,
        mag(fx_mul(fx_mul(x, x), x)) <= 0x40_0000,
        mag(fx_mul(fx_mul(fx_mul(x, x), x), fx_mul(x, x))) <= 0x400_0000,
        mag(fx_mul(fx_mul(fx_mul(fx_mul(x, x), x), fx_mul(x, x)), fx_mul(x, x))) <= 0x4000_0000,
        mag(fx_mul(fx_mul(fx_mul(fx_mul(fx_mul(x, x), x), fx_mul(x, x)), fx_mul(x, x)), fx_mul(x, x)))
            <= 0x4_0000_0000,
        mag(fx_mul(fx_mul(x, x), fx_mul(x, x))) <= 0x100_0000,
        mag(fx_mul(fx_mul(fx_mul(x, x), fx_mul(x, x)), fx_mul(x, x))) <= 0x1000_0000,
        mag(fx_mul(fx_mul(fx_mul(fx_mul(x, x), fx_mul(x, x)), fx_mul(x, x)), fx_mul(x, x)))
            <= 0x1_0000_0000,
{
    let x2 = fx_mul(x, x);
    lemma_pow_step(x, x, 0x4_0000, 0x4_0000);
    assert((0x4_0000int * 0x4_0000int) / (SCALE as int) == 0x10_0000int);
    let x3 = fx_mul(x2, x);
    lemma_pow_step(x2, x, 0x10_0000, 0x4_0000);
    assert((0x10_0000int * 0x4_0000int) / (SCALE as int) == 0x40_0000int);
    let x5 = fx_mul(x3, x2);
    lemma_pow_step(x3, x2, 0x40_0000, 0x10_0000);
    assert((0x40_0000int * 0x10_0000int) / (SCALE as int) == 0x400_0000int);
    let x7 = fx_mul(x5, x2);
    lemma_pow_step(x5, x2, 0x400_0000, 0x10_0000);
    assert((0x400_0000int * 0x10_0000int) / (SCALE as int) == 0x4000_0000int);
    let x9 = fx_mul(x7, x2);
    lemma_pow_step(x7, x2, 0x4000_0000, 0x10_0000);
    assert((0x4000_0000int * 0x10_0000int) / (SCALE as int) == 0x4_0000_0000int);
    let x4 = fx_mul(x2, x2);
    lemma_pow_step(x2, x2, 0x10_0000, 0x10_0000);
    assert((0x10_0000int * 0x10_0000int) / (SCALE as int) == 0x100_0000int);
    let x6 = fx_mul(x4, x2);
    lemma_pow_step(x4, x2, 0x100_0000, 0x10_0000);
    assert((0x100_0000int * 0x10_0000int) / (SCALE as int) == 0x1000_0000int);
    let x8 = fx_mul(x6, x2);
    lemma_pow_step(x6, x2, 0x1000_0000, 0x10_0000);
    assert((0x1000_0000int * 0x10_0000int) / (SCALE as int) == 0x1_0000_0000int);
}

/// Truncated sine series.
fn sin_series(x: Fx) -> (r: Fx)
    requires
        0 <= x@ <= 0x4_0000,
    ensures
        r@ == sin_s(x@),
        mag(r@) <= 0x6_0000_0000,
{
    proof {
        lemma_trig_bounds(x@);
        crate::fixed::lemma_fx_div_shrink(fx_mul(fx_mul(x@, x@), x@), 6 * (SCALE as int));
        crate::fixed::lemma_fx_div_shrink(
            fx_mul(fx_mul(fx_mul(x@, x@), x@), fx_mul(x@, x@)),
            120 * (SCALE as int),
        );
        crate::fixed::lemma_fx_div_shrink(
            fx_mul(fx_mul(fx_mul(fx_mul(x@, x@), x@), fx_mul(x@, x@)), fx_mul(x@, x@)),
            5040 * (SCALE as int),
        );
        crate::fixed::lemma_fx_div_shrink(
            fx_mul(
                fx_mul(fx_mul(fx_mul(fx_mul(x@, x@), x@), fx_mul(x@, x@)), fx_mul(x@, x@)),
                fx_mul(x@, x@),
            ),
            362880 * (SCALE as int),
        );
    }
    let x2 = x.mul(x);
    let x3 = x2.mul(x);
    let x5 = x3.mul(x2);
    let x7 = x5.mul(x2);
    let x9 = x7.mul(x2);
    let t3 = x3.div(Fx::from_int(6));
    let t5 = x5.div(Fx::from_int(120));
    let t7 = x7.div(Fx::from_int(5040));
    let t9 = x9.div(Fx::from_int(362880));
    x.sub(t3).add(t5).sub(t7).add(t9)
}

/// Truncated cosine series.
fn cos_series(x: Fx) -> (r: Fx)
    requires
        0 <= x@ <= 0x4_0000,
    ensures
        r@ == cos_s(x@),
        mag(r@) <= 0x6_0000_0000,
{
    proof {
        lemma_trig_bounds(x@);
        crate::fixed::lemma_fx_div_shrink(fx_mul(x@, x@), 2 * (SCALE as int));
        crate::fixed::lemma_fx_div_shrink(fx_mul(fx_mul(x@, x@), fx_mul(x@, x@)), 24 * (SCALE as int));
        crate::fixed::lemma_fx_div_shrink(
            fx_mul(fx_mul(fx_mul(x@, x@), fx_mul(x@, x@)), fx_mul(x@, x@)),
            720 * (SCALE as int),
        );
        crate::fixed::lemma_fx_div_shrink(
            fx_mul(fx_mul(fx_mul(fx_mul(x@, x@), fx_mul(x@, x@)), fx_mul(x@, x@)), fx_mul(x@, x@)),
            40320 * (SCALE as int),
        );
    }
    let one = Fx { raw: SCALE };
    let x2 = x.mul(x);
    let x4 = x2.mul(x2);
    let x6 = x4.mul(x2);
    let x8 = x6.mul(x2);
    let t2 = x2.div(Fx::from_int(2));
    let t4 = x4.div(Fx::from_int(24));
    let t6 = x6.div(Fx::from_int(720));
    let t8 = x8.div(Fx::from_int(40320));
    one.sub(t2).add(t4).sub(t6).add(t8)
}

/// Tangent of half the given angle (fixed-point radians).
fn tan_half(theta: Fx) -> (r: Fx)
    requires
        0 <= theta@ <= 0x8_0000,
    ensures
        r@ == tan_half_s(theta@),
        0 <= r@ <= 0x40_0000,
{
    let x = theta.div(Fx::from_int(2));
    proof {
        lemma_fx_div_mag(theta@, 2 * (SCALE as int));
        lemma_div_is_ordered(
            mag(theta@) * (SCALE as int),
            0x8_0000int * (SCALE as int),
            2 * (SCALE as int),
        );
        assert((0x8_0000int * 65536int) / (2int * 65536int) == 0x4_0000int);
    }
    let s = sin_series(x);
    let c = cos_series(x);
    let c1 = if c.raw < 1 {
        Fx { raw: 1 }
    } else {
        c
    };
    let t = s.div(c1);
    t.clamp(Fx { raw: 0 }, Fx { raw: 0x40_0000 })
}

/// Viewport of the field-of-view camera: height `2 * tan(vfov / 2)` from
/// the vertical field of view in degrees, width from the aspect ratio.
fn fov_viewport(vfow: Fx, aspect_ratio: Fx) -> (r: Viewport)
    requires
        0 <= vfow@ <= 0xB3_0000,
        0 <= aspect_ratio@ <= B_UV as int,
    ensures
        r.height@ == fov_height_s(vfow@),
        r.width@ == fx_mul(aspect_ratio@, fov_height_s(vfow@)),
        0 <= r.height@ <= 0x80_0000,
        0 <= r.width@ <= 0x800_0000,
{
    proof {
        lemma_pow_step(vfow@, PI_RAW as int, 0xB3_0000, PI_RAW as int);
        assert(0xB3_0000int * 205887int <= 0x400_0000_0000int) by (nonlinear_arith);
        crate::fixed::lemma_fx_mul_mag(vfow@, PI_RAW as int);
        vstd::arithmetic::mul::lemma_mul_nonnegative(mag(vfow@), mag(PI_RAW as int));
        vstd::arithmetic::div_mod::lemma_div_pos_is_pos(
            mag(vfow@) * mag(PI_RAW as int),
            SCALE as int,
        );
    }
    let scaled = vfow.mul(Fx { raw: PI_RAW });
    proof {
        lemma_fx_div_mag(scaled@, 180 * (SCALE as int));
        assert(mag(scaled@) * (SCALE as int) <= 0x400_0000_0000int) by (nonlinear_arith)
            requires
                mag(scaled@) <= 0x400_0000_0000int / 65536,
        ;
        lemma_div_is_ordered(
            mag(scaled@) * (SCALE as int),
            0x400_0000_0000,
            180 * (SCALE as int),
        );
        assert(0x400_0000_0000int / (180int * 65536int) <= 0x8_0000int);
        vstd::arithmetic::mul::lemma_mul_nonnegative(mag(scaled@), SCALE as int);
        vstd::arithmetic::div_mod::lemma_div_pos_is_pos(
            mag(scaled@) * (SCALE as int),
            180 * (SCALE as int),
        );
    }
    let rad = scaled.div(Fx::from_int(180));
    let h = tan_half(rad);
    proof {
        crate::fixed::lemma_fx_mul_mag(2 * (SCALE as int), h@);
        vstd::arithmetic::mul::lemma_mul_nonnegative(mag(2 * (SCALE as int)), mag(h@));
        vstd::arithmetic::div_mod::lemma_div_pos_is_pos(
            mag(2 * (SCALE as int)) * mag(h@),
            SCALE as int,
        );
        assert((2 * (SCALE as int)) * mag(h@) == (SCALE as int) * (2 * mag(h@))) by (
        nonlinear_arith);
        vstd::arithmetic::div_mod::lemma_div_multiples_vanish(2 * mag(h@), SCALE as int);
        lemma_pow_step(2 * (SCALE as int), h@, 2 * (SCALE as int), 0x40_0000);
    }
    let height = Fx::from_int(2).mul(h);
    Viewport::new(height, aspect_ratio)
}

/// Field-of-view camera with arbitrary position and orientation.
#[derive(Clone, Copy, Debug)]
pub struct FovCamera {
    origin: Vector3D,
    pub vfow: Fx,
    pub aspect_ratio: Fx,
    vp_lower_left_corner: Vector3D,
    vp_horizontal_span: Vector3D,
    vp_vertical_span: Vector3D,
}

/// Spec view of the stored field-of-view camera frame.
pub struct FovCamV {
    pub origin: V3,
    pub vfow: int,
    pub aspect_ratio: int,
    pub lower_left: V3,
    pub horizontal: V3,
    pub vertical: V3,
}

impl View for FovCamera {
    type V = FovCamV;

    closed spec fn view(&self) -> FovCamV {
        FovCamV {
            origin: self.origin@,
            vfow: self.vfow@,
            aspect_ratio: self.aspect_ratio@,
            lower_left: self.vp_lower_left_corner@,
            horizontal: self.vp_horizontal_span@,
            vertical: self.vp_vertical_span@,
        }
    }
}

/// The view basis vector pointing from the target back to the camera.
pub open spec fn fov_w_s(origin: V3, lookat: V3) -> V3 {
    unit_s(sub_s(origin, lookat))
}

pub open spec fn fov_u_s(origin: V3, lookat: V3, vup: V3) -> V3 {
    unit_s(cross_s(vup, fov_w_s(origin, lookat)))
}

pub open spec fn fov_v_s(origin: V3, lookat: V3, vup: V3) -> V3 {
    cross_s(fov_w_s(origin, lookat), fov_u_s(origin, lookat, vup))
}

/// Viewport height derived from the vertical field of view in degrees.
pub open spec fn fov_height_s(vfow: int) -> int {
    fx_mul(2 * (SCALE as int), tan_half_s(to_radians_s(vfow)))
}

pub open spec fn fov_horizontal_s(origin: V3, lookat: V3, vup: V3, vfow: int, aspect: int) -> V3 {
    scale_s(fx_mul(aspect, fov_height_s(vfow)), fov_u_s(origin, lookat, vup))
}

pub open spec fn fov_vertical_s(origin: V3, lookat: V3, vup: V3, vfow: int) -> V3 {
    scale_s(fov_height_s(vfow), fov_v_s(origin, lookat, vup))
}

/// Halve a vector componentwise.
pub open spec fn half_v_s(v: V3) -> V3 {
    V3 {
        x: fx_div(v.x, 2 * (SCALE as int)),
        y: fx_div(v.y, 2 * (SCALE as int)),
        z: fx_div(v.z, 2 * (SCALE as int)),
    }
}

pub open spec fn fov_lower_left_s(origin: V3, lookat: V3, vup: V3, vfow: int, aspect: int) -> V3 {
    sub_s(
        sub_s(
            sub_s(origin, half_v_s(fov_horizontal_s(origin, lookat, vup, vfow, aspect))),
            half_v_s(fov_vertical_s(origin, lookat, vup, vfow)),
        ),
        fov_w_s(origin, lookat),
    )
}

/// The (pre-normalization) direction of the field-of-view camera's ray:
/// `lower_left + u * horizontal + v * vertical - origin`.
pub open spec fn fov_ray_dir_s(c: FovCamV, u: int, v: int) -> V3 {
    sub_s(add_s(add_s(c.lower_left, scale_s(u, c.horizontal)), scale_s(v, c.vertical)), c.origin)
}

impl FovCamera {
    /// Build the camera frame: orthonormal-ish basis from origin, look-at
    /// target and up hint, and a viewport from the field of view.  The
    /// origin must be measurably away from the target, and the up hint
    /// measurably off the view axis, or the basis degenerates into
    /// directionless vectors.
    #[verifier::rlimit(60)]
    pub fn new(origin: Vector3D, lookat: Vector3D, vup: Vector3D, vfow: Fx, aspect_ratio: Fx) -> (r:
        FovCamera)
        requires
            v3_bounded(origin@, CAM_MAX as int),
            v3_bounded(lookat@, CAM_MAX as int),
            v3_bounded(vup@, CAM_MAX as int),
            nsq_s(sub_s(origin@, lookat@)) >= 1,
            nsq_s(cross_s(vup@, fov_w_s(origin@, lookat@))) >= 1,
            0 <= vfow@ <= 0xB3_0000,
            0 <= aspect_ratio@ <= B_UV as int,
        ensures
            r@.origin == origin@,
            r@.vfow == vfow@,
            r@.aspect_ratio == aspect_ratio@,
            r@.horizontal == fov_horizontal_s(origin@, lookat@, vup@, vfow@, aspect_ratio@),
            r@.vertical == fov_vertical_s(origin@, lookat@, vup@, vfow@),
            r@.lower_left == fov_lower_left_s(origin@, lookat@, vup@, vfow@, aspect_ratio@),
            r.wf(),
    {
        let viewport = fov_viewport(vfow, aspect_ratio);
        let w = origin.sub(&lookat).unit();
        proof {
            crate::linalg::lemma_cross_bound(vup@, w@, CAM_MAX as int, 2 * (SCALE as int));
            assert((0x1000_0000int * (2int * 65536int)) / 65536int == 0x2000_0000int);
        }
        let u = vup.cross(&w).unit();
        proof {
            crate::linalg::lemma_cross_bound(w@, u@, 2 * (SCALE as int), 2 * (SCALE as int));
            assert(((2int * 65536int) * (2int * 65536int)) / 65536int == 0x4_0000int);
        }
        let v = w.cross(&u);

        proof {
            lemma_mul_comp_bound(viewport.width@, u@, 0x800_0000, 2 * (SCALE as int));
            assert((0x800_0000int * (2int * 65536int)) / 65536int == 0x1000_0000int);
            lemma_mul_comp_bound(viewport.height@, v@, 0x80_0000, 0x8_0000);
            assert((0x80_0000int * 0x8_0000int) / 65536int == 0x400_0000int);
        }
        let vp_horizontal_span = u.scale(viewport.width);
        let vp_vertical_span = v.scale(viewport.height);
        proof {
            lemma_half_v(vp_horizontal_span@);
            lemma_half_v(vp_vertical_span@);
        }
        let vp_lower_left_corner = origin.sub(&half_vec(&vp_horizontal_span)).sub(
            &half_vec(&vp_vertical_span),
        ).sub(&w);
        FovCamera {
            origin,
            vfow,
            aspect_ratio,
            vp_lower_left_corner,
            vp_horizontal_span,
            vp_vertical_span,
        }
    }
}

/// Halving a vector shrinks its component magnitudes.
proof fn lemma_half_v(v: V3)
    ensures
        mag(half_v_s(v).x) <= mag(v.x),
        mag(half_v_s(v).y) <= mag(v.y),
        mag(half_v_s(v).z) <= mag(v.z),
{
    crate::fixed::lemma_fx_div_shrink(v.x, 2 * (SCALE as int));
    crate::fixed::lemma_fx_div_shrink(v.y, 2 * (SCALE as int));
    crate::fixed::lemma_fx_div_shrink(v.z, 2 * (SCALE as int));
}

/// Componentwise halving, the `span / 2` of the frame construction.
fn half_vec(v: &Vector3D) -> (r: Vector3D)
    requires
        v3_bounded(v@, 0x1000_0000_0000),
    ensures
        r@ == half_v_s(v@),
{
    let two = Fx::from_int(2);
    Vector3D::new(v.x.div(two), v.y.div(two), v.z.div(two))
}

impl Camera for FovCamera {
    closed spec fn wf(&self) -> bool {
        &&& v3_bounded(self@.origin, CAM_MAX as int)
        &&& v3_bounded(self@.lower_left, 0x4000_0000)
        &&& v3_bounded(self@.horizontal, 0x1000_0000)
        &&& v3_bounded(self@.vertical, 0x400_0000)
    }

    open spec fn ray_spec(&self, u: int, v: int) -> Ray {
        cam_ray_s(of_v3(self@.origin), fov_ray_dir_s(self@, u, v))
    }

    fn ray_from_uv(&self, u: Fx, v: Fx) -> (r: Ray) {
        proof {
            lemma_mul_comp_bound(u@, self@.horizontal, B_UV as int, 0x1000_0000);
            assert((0x10_0000int * 0x1000_0000int) / 65536int == 0x1_0000_0000int);
            lemma_mul_comp_bound(v@, self@.vertical, B_UV as int, 0x400_0000);
            assert((0x10_0000int * 0x400_0000int) / 65536int == 0x4000_0000int);
            crate::linalg::lemma_of_v3_roundtrip(self.origin);
        }
        let dir = self.vp_lower_left_corner.add(&self.vp_horizontal_span.scale(u)).add(
            &self.vp_vertical_span.scale(v),
        ).sub(&self.origin);
        finish_ray(self.origin, dir)
    }
}

/// Center-of-frame law: through image coordinates `(1/2, 1/2)` the
/// field-of-view camera's (pre-normalization) ray direction is exactly the
/// negated view vector `w` — the ray points straight at the look-at target,
/// for every origin, target, up hint, field of view and aspect ratio.
pub proof fn lemma_center_ray(origin: V3, lookat: V3, vup: V3, vfow: int, aspect: int)
    ensures
        ({
            let c = FovCamV {
                origin,
                vfow,
                aspect_ratio: aspect,
                lower_left: fov_lower_left_s(origin, lookat, vup, vfow, aspect),
                horizontal: fov_horizontal_s(origin, lookat, vup, vfow, aspect),
                vertical: fov_vertical_s(origin, lookat, vup, vfow),
            };
            fov_ray_dir_s(c, HALF_RAW as int, HALF_RAW as int) == neg_s(fov_w_s(origin, lookat))
        }),
{
    let hor = fov_horizontal_s(origin, lookat, vup, vfow, aspect);
    let ver = fov_vertical_s(origin, lookat, vup, vfow);
    lemma_fx_half(hor.x);
    lemma_fx_half(hor.y);
    lemma_fx_half(hor.z);
    lemma_fx_half(ver.x);
    lemma_fx_half(ver.y);
    lemma_fx_half(ver.z);
}

} // verus!
