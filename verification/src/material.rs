//! Materials and their scattering rules: the physically-motivated bounce
//! generation for the four material kinds.

use crate::fixed::{
    lemma_fx_mul_unit_interval, lemma_fx_sqrt_upper, mag, Fx, HALF_RAW, SCALE,
};
use crate::linalg::{
    add_s, dot_s, lemma_dot_bound, lemma_dot_neg, lemma_mul_comp_bound, neg_s, nsq_s, reflect,
    reflect_s, refract, refract_s, scale_s, shlick_reflectance, unit_s, v3_bounded, Vector3D, V3,
    B_DIR,
};
use crate::ray::{hit_record_wf, ray_wf, HitRecord, Ray};
use crate::rng::draw_in;
use vstd::arithmetic::div_mod::{lemma_div_is_ordered_by_denominator, lemma_div_multiples_vanish};
use vstd::prelude::*;

verus! {

/// A color: every channel within `[0, 1]`.
pub open spec fn color_wf(c: V3) -> bool {
    &&& 0 <= c.x <= SCALE as int
    &&& 0 <= c.y <= SCALE as int
    &&& 0 <= c.z <= SCALE as int
}

/// Flat mid-gray, the diagnostic attenuation.
pub open spec fn color_gray() -> V3 {
    V3 { x: HALF_RAW as int, y: HALF_RAW as int, z: HALF_RAW as int }
}

/// Pure white: a dielectric bounce loses no energy.
pub open spec fn color_white() -> V3 {
    V3 { x: SCALE as int, y: SCALE as int, z: SCALE as int }
}

/// The relative refraction ratio a dielectric uses: inverted when the ray
/// enters through the front face.
pub open spec fn dielectric_ratio_s(ri: int, is_front_face: bool) -> int {
    if is_front_face {
        crate::fixed::fx_div(SCALE as int, ri)
    } else {
        ri
    }
}

/// A unit-ball sample, as the metal fuzz perturbation draws it.
pub open spec fn ball_sample_ok(s: V3) -> bool {
    v3_bounded(s, SCALE as int) && nsq_s(s) < SCALE as int
}

/// The perturbed mirror direction of a metal bounce for a drawn sample:
/// `reflect(direction, normal) + fuzz * sample`.
pub open spec fn metal_dir_s(dir: V3, n: V3, fuzz: int, s: V3) -> V3 {
    add_s(reflect_s(dir, n), scale_s(fuzz, s))
}

/// A metal bounce is absorbed when its alignment with the normal quantizes
/// to zero (grazing) or the perturbed direction itself quantizes away.
pub open spec fn metal_absorbed_s(dir: V3, n: V3, fuzz: int, s: V3) -> bool {
    dot_s(metal_dir_s(dir, n, fuzz, s), n) == 0 || nsq_s(metal_dir_s(dir, n, fuzz, s)) < 1
}

/// A diffuse direction sample: a normalized draw, as the Lambertian rule
/// receives it.
pub open spec fn diffuse_sample_ok(u: V3) -> bool {
    v3_bounded(u, 2 * (SCALE as int)) && nsq_s(u) >= 1
}

/// The Lambertian bounce direction for a drawn sample: normal plus sample,
/// falling back to the normal when the sum quantizes away.
pub open spec fn lambertian_dir_s(n: V3, u: V3) -> V3 {
    let d = add_s(n, u);
    if nsq_s(d) == 0 {
        n
    } else {
        d
    }
}

/// Cosine of the incoming angle at a dielectric interface, clamped to one.
pub open spec fn dielectric_cos_s(dir: V3, n: V3) -> int {
    let d = dot_s(neg_s(dir), n);
    if d <= SCALE as int {
        d
    } else {
        SCALE as int
    }
}

/// Sine of the incoming angle, from the Pythagorean identity.
pub open spec fn dielectric_sin_s(dir: V3, n: V3) -> int {
    crate::fixed::fx_sqrt(
        (SCALE as int) - crate::fixed::fx_mul(dielectric_cos_s(dir, n), dielectric_cos_s(dir, n)),
    )
}

/// Total internal reflection: the refracted angle would need a sine beyond
/// one, so refraction is impossible whatever the reflectance draw says.
pub open spec fn dielectric_tir_s(dir: V3, n: V3, ratio: int) -> bool {
    crate::fixed::fx_mul(ratio, dielectric_sin_s(dir, n)) > SCALE as int
}

/// The attenuation each material kind multiplies into the bounced
/// radiance: its albedo, white for a dielectric, gray for the diagnostic.
pub open spec fn material_attenuation_s(m: Material) -> V3 {
    match m {
        Material::Diagnostic => color_gray(),
        Material::Lambertan(c) => c@,
        Material::Metal(c, fuzz) => c@,
        Material::Dielectric(ri) => color_white(),
    }
}

/// Lower cap on a dielectric's refractive index (1/16).
pub const RI_MIN: i64 = 4096;

/// Upper cap on a dielectric's refractive index (16).
pub const RI_MAX: i64 = 0x10_0000;

/// The four basic material kinds.
#[derive(Clone, Copy, Debug)]
pub enum Material {
    /// Diagnostic default: reflects along the normal with a flat gray color.
    Diagnostic,
    /// Fully diffuse reflection carrying the albedo color.
    Lambertan(Vector3D),
    /// Mirror reflection, fuzzed by the given amount, carrying the albedo.
    Metal(Vector3D, Fx),
    /// Reflects or refracts depending on the angle and the index.
    Dielectric(Fx),
}

/// Valid material parameters: colors within `[0, 1]`, fuzz within `[0, 1]`,
/// refractive index within the representable band `[1/16, 16]`.
pub open spec fn material_wf(m: Material) -> bool {
    match m {
        Material::Diagnostic => true,
        Material::Lambertan(c) => color_wf(c@),
        Material::Metal(c, fuzz) => color_wf(c@) && 0 <= fuzz@ <= SCALE as int,
        Material::Dielectric(ri) => RI_MIN as int <= ri@ <= RI_MAX as int,
    }
}

/// A reflected or refracted ray, with the attenuation to multiply into the
/// accumulated radiance.
pub struct HitBounce {
    pub ray: Ray,
    pub attenuation: Vector3D,
}

/// Capability of producing a bounce from an intersection; absence of a
/// bounce signals absorption, a domain outcome and not an error.
pub trait Scatter {
    fn scatter(ray: &Ray, hit: &HitRecord, rng: &mut rand::rngs::ThreadRng) -> (r: Option<
        HitBounce,
    >)
        requires
            ray_wf(*ray),
            hit_record_wf(*hit),
            dot_s(ray.direction@, hit.normal@) <= 0,
        ensures
            match r {
                Some(b) => ray_wf(b.ray) && b.ray.origin == hit.point && color_wf(b.attenuation@),
                None => true,
            },
            match hit.material {
                Material::Diagnostic => r matches Some(b) && b.attenuation@ == color_gray()
                    && b.ray.direction@ == unit_s(hit.normal@),
                Material::Lambertan(c) => r matches Some(b) && b.attenuation == c && (exists|u: V3|
                    diffuse_sample_ok(u) && b.ray.direction@ == unit_s(
                        #[trigger] lambertian_dir_s(hit.normal@, u),
                    )),
                Material::Metal(c, fuzz) => ({
                    &&& (r matches Some(b) ==> b.attenuation == c && (exists|s: V3|
                        ball_sample_ok(s) && !metal_absorbed_s(ray.direction@, hit.normal@, fuzz@, s)
                            && b.ray.direction@ == unit_s(
                            #[trigger] metal_dir_s(ray.direction@, hit.normal@, fuzz@, s),
                        )))
                    &&& (r is None ==> (exists|s: V3| #[trigger] ball_sample_ok(s)
                        && metal_absorbed_s(ray.direction@, hit.normal@, fuzz@, s)))
                    &&& (fuzz@ == 0 ==> ({
                        let refl = reflect_s(ray.direction@, hit.normal@);
                        &&& (r is Some <==> dot_s(refl, hit.normal@) != 0 && nsq_s(refl) >= 1)
                        &&& (r matches Some(b) ==> b.ray.direction@ == unit_s(refl))
                    }))
                }),
                Material::Dielectric(ri) => ({
                    let ratio = dielectric_ratio_s(ri@, hit.is_front_face);
                    &&& r matches Some(b) && b.attenuation@ == color_white() && (b.ray.direction@
                        == unit_s(reflect_s(ray.direction@, hit.normal@)) || b.ray.direction@
                        == unit_s(refract_s(ray.direction@, hit.normal@, ratio)) || b.ray.direction@
                        == unit_s(hit.normal@))
                    &&& dielectric_tir_s(ray.direction@, hit.normal@, ratio) ==> (r matches Some(b)
                        ==> b.ray.direction@ == unit_s(reflect_s(ray.direction@, hit.normal@))
                            || b.ray.direction@ == unit_s(hit.normal@))
                }),
            },
    ;
}

impl Scatter for Material {
    /// Scatter according to the material stored in the hit record.  The
    /// random source is an explicit dependency; the contract states what
    /// holds of every outcome of the draws.
    fn scatter(ray: &Ray, hit: &HitRecord, rng: &mut rand::rngs::ThreadRng) -> (r: Option<
        HitBounce,
    >) {
        match hit.material {
            Material::Diagnostic => Some(
                HitBounce {
                    ray: Ray::new(hit.point, hit.normal),
                    attenuation: Vector3D::new(
                        Fx { raw: HALF_RAW },
                        Fx { raw: HALF_RAW },
                        Fx { raw: HALF_RAW },
                    ),
                },
            ),
            Material::Lambertan(color) => {
                let u = Vector3D::random_unit(rng);
                let d0 = hit.normal.add(&u);
                // a scatter direction whose squared norm quantizes to zero
                // is degenerate; fall back to the normal itself
                let scatter_dir = if d0.is_near_zero() {
                    hit.normal
                } else {
                    d0
                };
                proof {
                    assert(scatter_dir@ == lambertian_dir_s(hit.normal@, u@));
                }
                let out = Ray::new(hit.point, scatter_dir);
                proof {
                    assert(diffuse_sample_ok(u@) && out.direction@ == unit_s(
                        lambertian_dir_s(hit.normal@, u@),
                    ));
                }
                Some(HitBounce { ray: out, attenuation: color })
            },
            Material::Metal(color, fuzz) => {
                let reflected_dir = reflect(&ray.direction, &hit.normal);
                let sample = Vector3D::unit_sphere_sample(rng);
                proof {
                    lemma_mul_comp_bound(fuzz@, sample@, SCALE as int, SCALE as int);
                    lemma_div_multiples_vanish(SCALE as int, SCALE as int);
                }
                let fuzzy_reflected_dir = reflected_dir.add(&sample.scale(fuzz));
                let d = fuzzy_reflected_dir.dot(&hit.normal);
                let nsq = fuzzy_reflected_dir.norm_squared();
                proof {
                    assert(fuzzy_reflected_dir@ == metal_dir_s(
                        ray.direction@,
                        hit.normal@,
                        fuzz@,
                        sample@,
                    ));
                    if fuzz@ == 0 {
                        crate::linalg::lemma_scale_zero(sample@);
                        assert(metal_dir_s(ray.direction@, hit.normal@, 0, sample@) == reflect_s(
                            ray.direction@,
                            hit.normal@,
                        ));
                    }
                }
                // grazing (the alignment with the normal quantizes to zero)
                // or a direction too short to normalize: absorbed
                if d.raw == 0 || nsq.raw < 1 {
                    proof {
                        assert(ball_sample_ok(sample@) && metal_absorbed_s(
                            ray.direction@,
                            hit.normal@,
                            fuzz@,
                            sample@,
                        ));
                    }
                    return None;
                }
                let out = Ray::new(hit.point, fuzzy_reflected_dir);
                proof {
                    assert(ball_sample_ok(sample@) && !metal_absorbed_s(
                        ray.direction@,
                        hit.normal@,
                        fuzz@,
                        sample@,
                    ) && out.direction@ == unit_s(
                        metal_dir_s(ray.direction@, hit.normal@, fuzz@, sample@),
                    ));
                }
                Some(HitBounce { ray: out, attenuation: color })
            },
            Material::Dielectric(refraction_index) => {
                let one = Fx { raw: SCALE };
                let ri = if hit.is_front_face {
                    proof {
                        lemma_div_is_ordered_by_denominator(
                            (SCALE as int) * (SCALE as int),
                            RI_MIN as int,
                            refraction_index@,
                        );
                        lemma_div_is_ordered_by_denominator(
                            (SCALE as int) * (SCALE as int),
                            refraction_index@,
                            RI_MAX as int,
                        );
                        crate::fixed::lemma_fx_div_mag(SCALE as int, refraction_index@);
                    }
                    one.div(refraction_index)
                } else {
                    refraction_index
                };
                let nd = ray.direction.neg();
                proof {
                    lemma_dot_neg(ray.direction@, hit.normal@);
                    lemma_dot_bound(nd@, hit.normal@, B_DIR as int);
                }
                let cos_theta = nd.dot(&hit.normal).min(one);
                proof {
                    lemma_fx_mul_unit_interval(cos_theta@, cos_theta@);
                }
                let cos_sq = cos_theta.mul(cos_theta);
                let sin_theta = one.sub(cos_sq).sqrt();
                proof {
                    lemma_fx_sqrt_upper(one@ - cos_sq@, (SCALE as int) + 1);
                    vstd::arithmetic::mul::lemma_mul_upper_bound(
                        mag(ri@),
                        RI_MAX as int,
                        mag(sin_theta@),
                        SCALE as int,
                    );
                }
                let cannot_refract = ri.mul(sin_theta).raw > SCALE;
                proof {
                    assert(ri@ == dielectric_ratio_s(refraction_index@, hit.is_front_face));
                    assert(cos_theta@ == dielectric_cos_s(ray.direction@, hit.normal@));
                    assert(sin_theta@ == dielectric_sin_s(ray.direction@, hit.normal@));
                    assert(cannot_refract == dielectric_tir_s(ray.direction@, hit.normal@, ri@));
                }
                let reflectance = shlick_reflectance(cos_theta, ri);
                let coin = draw_in(rng, 0, SCALE);
                let angle_too_steep = reflectance.raw > coin;
                let direction = if cannot_refract || angle_too_steep {
                    reflect(&ray.direction, &hit.normal)
                } else {
                    refract(&ray.direction, &hit.normal, ri)
                };
                let nsq = direction.norm_squared();
                // a bounce direction that quantizes away cannot start a
                // ray; fall back to the (front-facing) normal
                let dir = if nsq.raw < 1 {
                    hit.normal
                } else {
                    direction
                };
                Some(
                    HitBounce {
                        ray: Ray::new(hit.point, dir),
                        attenuation: Vector3D::new(
                            Fx { raw: SCALE },
                            Fx { raw: SCALE },
                            Fx { raw: SCALE },
                        ),
                    },
                )
            },
        }
    }
}

} // verus!
