//! The path tracer: per-pixel multi-sample accumulation, recursive
//! radiance collection with a bounded depth, and gamma-correct clamping.

use crate::camera::Camera;
use crate::fixed::{
    fx_div, fx_sqrt, lemma_fx_div_mag, lemma_fx_mul_one, lemma_fx_mul_unit_interval, Fx, HALF_RAW,
    SCALE,
};
use crate::image::{img_wf, ColorRGB, Image};
use crate::linalg::{add_s, mul_s, scale_s, Vector3D, V3};
use crate::material::{color_wf, material_attenuation_s, Material, Scatter};
use crate::ray::{hit_domain, ray_wf, Hittable, Ray, B_COORD, B_HIT_ORIGIN};
use vstd::arithmetic::div_mod::lemma_div_pos_is_pos;
use vstd::arithmetic::mul::lemma_mul_nonnegative;
use vstd::prelude::*;

verus! {

/// Minimum ray parameter of every scene test: a small positive offset that
/// suppresses self-intersection at a scattered ray's origin (shadow acne).
pub const T_MIN_RAW: i64 = 66;

/// Renderer configuration: samples per pixel and maximum bounce depth.
pub struct RenderSettings {
    pub samples_per_px: u32,
    pub bounce_depth: u32,
}

/// Black, the color of absorbed and exhausted paths.
pub open spec fn color_black() -> V3 {
    V3 { x: 0, y: 0, z: 0 }
}

/// The sky gradient as a function of the height of the ray direction:
/// white at the bottom blending to the fixed sky blue at the top, with the
/// blend factor clamped into `[0, 1]`.
pub open spec fn sky_s(dir_y: int) -> V3 {
    let s = SCALE as int;
    let k0 = crate::fixed::fx_mul(HALF_RAW as int, dir_y + s);
    let k = if k0 < 0 {
        0
    } else if k0 > s {
        s
    } else {
        k0
    };
    add_s(
        scale_s(s - k, V3 { x: s, y: s, z: s }),
        scale_s(k, V3 { x: HALF_RAW as int, y: 45875, z: s }),
    )
}

/// Recursively collect the radiance carried by a ray: on a hit, scatter
/// and attenuate the recursive result; on a miss, return the sky gradient;
/// at depth zero, black.  Every outcome is a color within `[0, 1]` per
/// channel.
pub fn collect_color<T: Hittable>(
    ray: &Ray,
    world: &T,
    depth: u32,
    rng: &mut rand::rngs::ThreadRng,
) -> (r: ColorRGB)
    requires
        ray_wf(*ray),
        world.wf(),
    ensures
        color_wf(r@),
        depth == 0 ==> r@ == color_black(),
        depth > 0 && !hit_domain(*ray) ==> r@ == color_black(),
        depth > 0 && hit_domain(*ray) && world.hit_spec(
            *ray,
            T_MIN_RAW as int,
            B_COORD as int,
        ) is None ==> r@ == sky_s(ray.direction@.y),
        depth > 0 && hit_domain(*ray) ==> (world.hit_spec(
            *ray,
            T_MIN_RAW as int,
            B_COORD as int,
        ) matches Some(h) ==> (r@ == color_black() || (exists|c: V3|
            color_wf(c) && r@ == #[trigger] mul_s(material_attenuation_s(h.material), c)))),
    decreases depth,
{
    if depth == 0 {
        return Vector3D::zero();
    }
    // a ray that has wandered beyond the scene domain cannot be tested
    // against it; treat it as exhausted
    if !origin_in_domain(ray) {
        return Vector3D::zero();
    }
    let t_min = Fx { raw: T_MIN_RAW };
    let t_max = Fx { raw: B_COORD };
    let hit = world.hit(ray, t_min, t_max);
    match hit {
        Some(hitdata) => {
            proof {
                world.lemma_hit_spec_ok(*ray, t_min@, t_max@);
            }
            match Material::scatter(ray, &hitdata, rng) {
                Some(bounce) => {
                    let rec = collect_color(&bounce.ray, world, depth - 1, rng);
                    proof {
                        lemma_attenuate(bounce.attenuation@, rec@);
                        assert(bounce.attenuation@ == material_attenuation_s(hitdata.material));
                    }
                    let out = bounce.attenuation.mul(&rec);
                    proof {
                        assert(color_wf(rec@) && out@ == mul_s(
                            material_attenuation_s(hitdata.material),
                            rec@,
                        ));
                    }
                    out
                },
                None => Vector3D::zero(),
            }
        },
        None => sky_gradient(ray),
    }
}

/// Whether a ray's origin still lies within the scene domain.
fn origin_in_domain(ray: &Ray) -> (r: bool)
    ensures
        r == hit_domain(*ray),
{
    -B_HIT_ORIGIN <= ray.origin.x.raw && ray.origin.x.raw <= B_HIT_ORIGIN
        && -B_HIT_ORIGIN <= ray.origin.y.raw && ray.origin.y.raw <= B_HIT_ORIGIN
        && -B_HIT_ORIGIN <= ray.origin.z.raw && ray.origin.z.raw <= B_HIT_ORIGIN
}

/// Attenuating a color by a color stays a color.
proof fn lemma_attenuate(a: V3, b: V3)
    requires
        color_wf(a),
        color_wf(b),
    ensures
        color_wf(mul_s(a, b)),
{
    lemma_fx_mul_unit_interval(a.x, b.x);
    lemma_fx_mul_unit_interval(a.y, b.y);
    lemma_fx_mul_unit_interval(a.z, b.z);
}

/// The vertical white-to-blue sky gradient returned for rays that miss
/// everything, blended by the (clamped) height of the ray direction.
fn sky_gradient(ray: &Ray) -> (r: ColorRGB)
    requires
        ray_wf(*ray),
    ensures
        color_wf(r@),
        r@ == sky_s(ray.direction@.y),
{
    let one = Fx { raw: SCALE };
    let half = Fx { raw: HALF_RAW };
    proof {
        crate::linalg::lemma_pow_step(
            HALF_RAW as int,
            ray.direction@.y + (SCALE as int),
            HALF_RAW as int,
            3 * (SCALE as int),
        );
        assert(32768int * (3int * 65536int) <= crate::fixed::lim_prod()) by (nonlinear_arith);
    }
    let k0 = half.mul(ray.direction.y.add(one));
    // with a truly unit direction the blend factor already lies in [0, 1];
    // quantization can push it out by a sliver, so clamp
    let k = k0.clamp(Fx { raw: 0 }, one);
    let white = Vector3D::new(one, one, one);
    let sky = Vector3D::new(Fx { raw: HALF_RAW }, Fx { raw: 45875 }, Fx { raw: SCALE });
    proof {
        lemma_fx_mul_one(one@ - k@);
        lemma_fx_mul_unit_interval(one@ - k@, SCALE as int);
        lemma_fx_mul_unit_interval(k@, HALF_RAW as int);
        lemma_fx_mul_unit_interval(k@, 45875);
        lemma_fx_mul_unit_interval(k@, SCALE as int);
    }
    white.scale(one.sub(k)).add(&sky.scale(k))
}

/// Average the accumulated color over the sample count, apply gamma-2
/// correction (square root per channel) and clamp each channel into
/// `[0, 0.999]` so quantization to bytes can never overflow.
pub fn correct_gamma(color: ColorRGB, samples_per_px: u32) -> (r: ColorRGB)
    requires
        1 <= samples_per_px <= 0x4000_0000,
        0 <= color@.x <= crate::fixed::LIM_DIV_NUM as int,
        0 <= color@.y <= crate::fixed::LIM_DIV_NUM as int,
        0 <= color@.z <= crate::fixed::LIM_DIV_NUM as int,
    ensures
        r@.x == gamma_s(color@.x, samples_per_px as int),
        r@.y == gamma_s(color@.y, samples_per_px as int),
        r@.z == gamma_s(color@.z, samples_per_px as int),
        0 <= r@.x <= 65470,
        0 <= r@.y <= 65470,
        0 <= r@.z <= 65470,
{
    let n = Fx::from_int(samples_per_px as i64);
    proof {
        lemma_gamma_channel(color@.x, samples_per_px as int);
        lemma_gamma_channel(color@.y, samples_per_px as int);
        lemma_gamma_channel(color@.z, samples_per_px as int);
    }
    let lo = Fx { raw: 0 };
    let hi = Fx { raw: 65470 };
    let x = color.x.div(n).sqrt().clamp(lo, hi);
    let y = color.y.div(n).sqrt().clamp(lo, hi);
    let z = color.z.div(n).sqrt().clamp(lo, hi);
    Vector3D::new(x, y, z)
}

/// One gamma-corrected channel: the clamped square root of the per-sample
/// average.
pub open spec fn gamma_s(c: int, n: int) -> int {
    let avg = fx_div(c, n * (SCALE as int));
    let g = fx_sqrt(avg);
    if g < 0 {
        0
    } else if g > 65470 {
        65470
    } else {
        g
    }
}

/// The per-sample average of a nonnegative accumulated channel is
/// nonnegative, so its square root exists.
proof fn lemma_gamma_channel(c: int, n: int)
    requires
        1 <= n <= 0x4000_0000,
        0 <= c,
    ensures
        0 <= fx_div(c, n * (SCALE as int)),
{
    let s = SCALE as int;
    let d = n * s;
    lemma_fx_div_mag(c, d);
    lemma_mul_nonnegative(c, s);
    lemma_div_pos_is_pos(c * s, d);
}

/// An admissible per-pixel accumulator: each channel a sum of at most `n`
/// unit-bounded samples.
pub open spec fn acc_ok(acc: V3, n: int) -> bool {
    &&& 0 <= acc.x <= n * (SCALE as int)
    &&& 0 <= acc.y <= n * (SCALE as int)
    &&& 0 <= acc.z <= n * (SCALE as int)
}

/// Componentwise gamma correction of an accumulator.
pub open spec fn gamma_v_s(acc: V3, n: int) -> V3 {
    V3 { x: gamma_s(acc.x, n), y: gamma_s(acc.y, n), z: gamma_s(acc.z, n) }
}

/// A rendered pixel: the gamma-corrected average of some admissible
/// accumulation of `n` samples.
pub open spec fn pixel_rendered(p: V3, n: int) -> bool {
    exists|acc: V3| #[trigger] acc_ok(acc, n) && p == gamma_v_s(acc, n)
}

/// Shoot `samples_per_px` jittered rays through every pixel, resolve each
/// recursively against the world, and store the gamma-corrected average.
/// Afterwards every pixel of the image holds a channel value in
/// `[0, 0.999]`.
pub fn color_image<C: Camera, T: Hittable>(
    image: &mut Image,
    camera: C,
    world: T,
    settings: RenderSettings,
    rng: &mut rand::rngs::ThreadRng,
)
    requires
        img_wf(old(image)@),
        2 <= old(image)@.width,
        2 <= old(image)@.height,
        camera.wf(),
        world.wf(),
        1 <= settings.samples_per_px <= 0x4000_0000,
    ensures
        img_wf(final(image)@),
        final(image)@.width == old(image)@.width,
        final(image)@.height == old(image)@.height,
        forall|k: int|
            0 <= k < final(image)@.pixels.len() ==> gamma_clamped(
                (#[trigger] final(image)@.pixels[k])@,
            ),
        forall|k: int|
            0 <= k < final(image)@.pixels.len() ==> pixel_rendered(
                (#[trigger] final(image)@.pixels[k])@,
                settings.samples_per_px as int,
            ),
{
    let (width, height) = image.dims();
    let mut j: u32 = 0;
    while j < height
        invariant
            j <= height,
            width as int == image@.width,
            height as int == image@.height,
            img_wf(image@),
            2 <= image@.width,
            2 <= image@.height,
            camera.wf(),
            world.wf(),
            1 <= settings.samples_per_px <= 0x4000_0000,
            forall|k: int|
                0 <= k < (j as int) * image@.width ==> gamma_clamped(
                    (#[trigger] image@.pixels[k])@,
                ),
            forall|k: int|
                0 <= k < (j as int) * image@.width ==> pixel_rendered(
                    (#[trigger] image@.pixels[k])@,
                    settings.samples_per_px as int,
                ),
        decreases height - j,
    {
        let mut i: u32 = 0;
        while i < width
            invariant
                j < height,
                i <= width,
                width as int == image@.width,
                height as int == image@.height,
                img_wf(image@),
                2 <= image@.width,
                2 <= image@.height,
                camera.wf(),
                world.wf(),
                1 <= settings.samples_per_px <= 0x4000_0000,
                forall|k: int|
                    0 <= k < (j as int) * image@.width + i ==> gamma_clamped(
                        (#[trigger] image@.pixels[k])@,
                    ),
                forall|k: int|
                    0 <= k < (j as int) * image@.width + i ==> pixel_rendered(
                        (#[trigger] image@.pixels[k])@,
                        settings.samples_per_px as int,
                    ),
            decreases width - i,
        {
            let mut color = Vector3D::zero();
            let mut s: u32 = 0;
            while s < settings.samples_per_px
                invariant
                    s <= settings.samples_per_px,
                    settings.samples_per_px <= 0x4000_0000,
                    i < width,
                    j < height,
                    width as int == image@.width,
                    height as int == image@.height,
                    img_wf(image@),
                    2 <= image@.width,
                    2 <= image@.height,
                    camera.wf(),
                    world.wf(),
                    0 <= color@.x <= (s as int) * (SCALE as int),
                    0 <= color@.y <= (s as int) * (SCALE as int),
                    0 <= color@.z <= (s as int) * (SCALE as int),
                decreases settings.samples_per_px - s,
            {
                let (u, v) = image.pixel_to_uv_noisy(i, j, rng);
                let ray = camera.ray_from_uv(u, v);
                let c = collect_color(&ray, &world, settings.bounce_depth, rng);
                proof {
                    assert((s as int) * (SCALE as int) + (SCALE as int) == ((s as int) + 1) * (
                    SCALE as int)) by (nonlinear_arith);
                    assert((s as int + 1) * (SCALE as int) <= 0x4000_0000int * 65536int) by (
                    nonlinear_arith)
                        requires
                            s as int + 1 <= 0x4000_0000,
                    ;
                }
                color = color.add(&c);
                s = s + 1;
            }
            proof {
                assert((s as int) * (SCALE as int) <= (settings.samples_per_px as int) * (
                SCALE as int)) by (nonlinear_arith)
                    requires
                        s as int <= settings.samples_per_px as int,
                ;
            }
            proof {
                assert(acc_ok(color@, settings.samples_per_px as int));
            }
            let corrected = correct_gamma(color, settings.samples_per_px);
            proof {
                assert(corrected@ == gamma_v_s(color@, settings.samples_per_px as int));
                assert(pixel_rendered(corrected@, settings.samples_per_px as int));
            }
            let ghost before = image@;
            image.set_at(i, j, corrected);
            proof {
                assert(before.width * (j as int) + i == (j as int) * before.width + i) by (
                nonlinear_arith);
                assert((j as int) * before.width + i < before.pixels.len()) by (nonlinear_arith)
                    requires
                        0 <= (i as int) < before.width,
                        0 <= (j as int) < before.height,
                        before.pixels.len() == before.width * before.height,
                ;
                assert forall|k: int|
                    0 <= k < (j as int) * image@.width + i + 1 implies gamma_clamped(
                    (#[trigger] image@.pixels[k])@,
                ) && pixel_rendered(
                    (image@.pixels[k])@,
                    settings.samples_per_px as int,
                ) by {
                    if k < (j as int) * before.width + i {
                        assert(image@.pixels[k] == before.pixels[k]);
                    } else {
                        assert(image@.pixels[k] == corrected);
                    }
                }
            }
            i = i + 1;
        }
        proof {
            assert(((j as int) + 1) * image@.width == (j as int) * image@.width + image@.width) by (
            nonlinear_arith);
        }
        j = j + 1;
    }
    proof {
        assert((height as int) * image@.width == image@.width * (height as int)) by (
        nonlinear_arith);
    }
}

/// A gamma-corrected pixel: every channel within `[0, 0.999]`.
pub open spec fn gamma_clamped(c: V3) -> bool {
    &&& 0 <= c.x <= 65470
    &&& 0 <= c.y <= 65470
    &&& 0 <= c.z <= 65470
}

} // verus!
