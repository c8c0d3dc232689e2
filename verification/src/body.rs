//! Spheres — the sole analytic surface — and the scene aggregate that
//! resolves the nearest hit across its members.

use crate::fixed::{
    fx_div, fx_mul, fx_sqrt, lemma_fx_div_monotone, lemma_fx_mul_bound, lemma_fx_mul_mag,
    lemma_fx_sqrt_upper, mag, Fx, SCALE,
};
use crate::linalg::{
    dot_s, lemma_dot_bound, lemma_dot_neg, lemma_nsq_neg, lemma_nsq_nonneg, lemma_of_v3_roundtrip,
    lemma_unit_shape, neg_s, norm_s, nsq_s, of_v3, sub_s, unit_s, v3_bounded, Vector3D, V3, B_DIR,
    B_DOT_ARG,
};
use crate::material::{material_wf, Material};
use crate::ray::{
    at_s, hit_domain, hit_record_wf, lemma_at_s_bound, ray_wf, HitRecord, Hittable, Ray, B_COORD,
};
use vstd::arithmetic::div_mod::lemma_div_pos_is_pos;
use vstd::arithmetic::mul::{lemma_mul_nonnegative, lemma_mul_upper_bound};
use vstd::prelude::*;

verus! {

/// The sole primitive: center, radius and material, immutable after
/// construction.
#[derive(Clone, Copy, Debug)]
pub struct Sphere {
    pub center: Vector3D,
    pub radius: Fx,
    pub material: Material,
}

/// A sphere's geometry stays within the scene coordinate cap; its radius
/// is positive and at least 256 raw quanta (1/256 of a unit), the smallest
/// size whose intersection geometry survives quantization — below that a
/// hit point can land within one quantum of the center, where the outward
/// normal is lost.
pub open spec fn sphere_wf(s: Sphere) -> bool {
    &&& v3_bounded(s.center@, B_COORD as int)
    &&& 256 <= s.radius@ <= B_COORD as int
    &&& material_wf(s.material)
}

/// Origin-to-center offset of the intersection quadratic.
pub open spec fn sph_oc(s: Sphere, ray: Ray) -> V3 {
    sub_s(ray.origin@, s.center@)
}

/// Leading coefficient `a = |direction|^2`.
pub open spec fn sph_a(ray: Ray) -> int {
    nsq_s(ray.direction@)
}

/// Half the linear coefficient, `dot(origin - center, direction)`.
pub open spec fn sph_half_b(s: Sphere, ray: Ray) -> int {
    dot_s(sph_oc(s, ray), ray.direction@)
}

/// Constant coefficient `|origin - center|^2 - radius^2`.
pub open spec fn sph_c(s: Sphere, ray: Ray) -> int {
    nsq_s(sph_oc(s, ray)) - fx_mul(s.radius@, s.radius@)
}

/// Discriminant `half_b^2 - a * c`.
pub open spec fn sph_disc(s: Sphere, ray: Ray) -> int {
    fx_mul(sph_half_b(s, ray), sph_half_b(s, ray)) - fx_mul(sph_a(ray), sph_c(s, ray))
}

/// The smaller quadratic root.
pub open spec fn sph_t1(s: Sphere, ray: Ray) -> int {
    fx_div(-sph_half_b(s, ray) - fx_sqrt(sph_disc(s, ray)), sph_a(ray))
}

/// The larger quadratic root.
pub open spec fn sph_t2(s: Sphere, ray: Ray) -> int {
    fx_div(-sph_half_b(s, ray) + fx_sqrt(sph_disc(s, ray)), sph_a(ray))
}

/// The record produced for an in-range root `t`: hit point, outward normal
/// normalized and then oriented against the ray.  A hit point that falls
/// within one quantum of the center has no usable normal and counts as a
/// miss.
pub open spec fn sphere_record_s(s: Sphere, ray: Ray, t: int) -> Option<HitRecord> {
    let point = at_s(ray, t);
    let pc = sub_s(point, s.center@);
    if nsq_s(pc) < 1 {
        None
    } else {
        let outward = unit_s(pc);
        let ff = dot_s(ray.direction@, outward) < 0;
        let n = if ff {
            outward
        } else {
            neg_s(outward)
        };
        Some(
            HitRecord {
                point: of_v3(point),
                t: Fx { raw: t as i64 },
                normal: of_v3(n),
                is_front_face: ff,
                material: s.material,
            },
        )
    }
}

/// Closed-form ray/sphere intersection: reject on a negative discriminant,
/// prefer the smaller root, fall back to the larger one so that a camera
/// inside the sphere still sees its far wall.
pub open spec fn sphere_hit_s(s: Sphere, ray: Ray, t_min: int, t_max: int) -> Option<HitRecord> {
    if sph_disc(s, ray) < 0 {
        None
    } else {
        let t1 = sph_t1(s, ray);
        let t2 = sph_t2(s, ray);
        if t_min <= t1 <= t_max {
            sphere_record_s(s, ray, t1)
        } else if t_min <= t2 <= t_max {
            sphere_record_s(s, ray, t2)
        } else {
            None
        }
    }
}

/// Magnitude bounds on every quantity of the intersection quadratic, for a
/// well-formed sphere and a domain-bounded ray.  They keep every
/// executable step within the scalar's overflow preconditions.
proof fn lemma_sphere_quad_bounds(s: Sphere, ray: Ray)
    requires
        sphere_wf(s),
        ray_wf(ray),
        hit_domain(ray),
    ensures
        v3_bounded(sph_oc(s, ray), 0x8_0000_0000),
        1 <= sph_a(ray) <= 0xc_0000,
        mag(sph_half_b(s, ray)) <= 0x30_0000_0000,
        mag(sph_c(s, ray)) <= 0x100_0000_0000_0000,
        mag(fx_mul(sph_half_b(s, ray), sph_half_b(s, ray))) <= 0x900_0000_0000_0000,
        mag(fx_mul(sph_a(ray), sph_c(s, ray))) <= 0xc00_0000_0000_0000,
        mag(s.radius@) * mag(s.radius@) <= crate::fixed::lim_prod(),
        mag(sph_half_b(s, ray)) * mag(sph_half_b(s, ray)) <= crate::fixed::lim_prod(),
        mag(sph_a(ray)) * mag(sph_c(s, ray)) <= crate::fixed::lim_prod(),
        mag(sph_disc(s, ray)) <= 0x2000_0000_0000_0000,
        sph_disc(s, ray) >= 0 ==> 0 <= fx_sqrt(sph_disc(s, ray)) < 0x80_0000_0000,
{
    let oc = sph_oc(s, ray);
    let a = sph_a(ray);
    let hb = sph_half_b(s, ray);
    let c = sph_c(s, ray);
    let s16 = SCALE as int;
    lemma_nsq_nonneg(ray.direction@);
    lemma_nsq_nonneg(oc);
    // a = |dir|^2 in [1, 0xc_0000]
    lemma_dot_bound(ray.direction@, ray.direction@, 2 * s16);
    assert((2 * s16) * (2 * s16) == 0x4_0000_0000) by (nonlinear_arith)
        requires
            s16 == 65536,
    ;
    assert(0x4_0000_0000int / 65536int == 0x4_0000int);
    // half_b
    lemma_dot_bound2(oc, ray.direction@, 0x8_0000_0000, 2 * s16);
    assert(0x8_0000_0000int * 0x2_0000int == 0x10_0000_0000_0000int) by (nonlinear_arith);
    assert(0x10_0000_0000_0000int / 65536int == 0x10_0000_0000int);
    // c
    lemma_dot_bound(oc, oc, 0x8_0000_0000);
    assert(0x8_0000_0000int * 0x8_0000_0000int == 0x40_0000_0000_0000_0000int) by (
    nonlinear_arith);
    assert(0x40_0000_0000_0000_0000int / 65536int == 0x40_0000_0000_0000int);
    lemma_mul_upper_bound(mag(s.radius@), B_COORD as int, mag(s.radius@), B_COORD as int);
    lemma_fx_mul_bound(s.radius@, s.radius@, (B_COORD as int) * (B_COORD as int));
    assert((B_COORD as int) * (B_COORD as int) == 0x10_0000_0000_0000int) by (nonlinear_arith)
        requires
            B_COORD as int == 0x400_0000,
    ;
    assert(0x10_0000_0000_0000int / 65536int == 0x10_0000_0000int);
    // products
    lemma_mul_upper_bound(mag(hb), 0x30_0000_0000, mag(hb), 0x30_0000_0000);
    assert(0x30_0000_0000int * 0x30_0000_0000int == 0x900_0000_0000_0000_0000int) by (
    nonlinear_arith);
    lemma_fx_mul_bound(hb, hb, 0x900_0000_0000_0000_0000);
    assert(0x900_0000_0000_0000_0000int / 65536int == 0x900_0000_0000_0000int);
    lemma_mul_upper_bound(mag(a), 0xc_0000, mag(c), 0x100_0000_0000_0000);
    assert(0xc_0000int * 0x100_0000_0000_0000int == 0xc00_0000_0000_0000_0000int) by (
    nonlinear_arith);
    lemma_fx_mul_bound(a, c, 0xc00_0000_0000_0000_0000);
    assert(0xc00_0000_0000_0000_0000int / 65536int == 0xc00_0000_0000_0000int);
    // square root of the discriminant
    if sph_disc(s, ray) >= 0 {
        assert(0x80_0000_0000int * 0x80_0000_0000int == 0x4000_0000_0000_0000_0000int) by (
        nonlinear_arith);
        assert(sph_disc(s, ray) * s16 <= 0x2000_0000_0000_0000int * 65536int);
        assert(0x2000_0000_0000_0000int * 65536int == 0x2000_0000_0000_0000_0000int) by (
        nonlinear_arith);
        lemma_fx_sqrt_upper(sph_disc(s, ray), 0x80_0000_0000);
    }
}

/// Dot-product bound with distinct caps on the two operands.
proof fn lemma_dot_bound2(a: V3, b: V3, ma: int, mb: int)
    requires
        0 <= ma,
        0 <= mb,
        v3_bounded(a, ma),
        v3_bounded(b, mb),
    ensures
        mag(dot_s(a, b)) <= 3 * ((ma * mb) / (SCALE as int)),
{
    lemma_mul_upper_bound(mag(a.x), ma, mag(b.x), mb);
    lemma_mul_upper_bound(mag(a.y), ma, mag(b.y), mb);
    lemma_mul_upper_bound(mag(a.z), ma, mag(b.z), mb);
    lemma_mul_nonnegative(mag(a.x), mag(b.x));
    lemma_mul_nonnegative(mag(a.y), mag(b.y));
    lemma_mul_nonnegative(mag(a.z), mag(b.z));
    lemma_fx_mul_bound(a.x, b.x, ma * mb);
    lemma_fx_mul_bound(a.y, b.y, ma * mb);
    lemma_fx_mul_bound(a.z, b.z, ma * mb);
    lemma_mul_nonnegative(ma, mb);
    lemma_div_pos_is_pos(ma * mb, SCALE as int);
}

/// What an in-range root's record satisfies: well-formedness, the stored
/// parameter, and the orientation invariant.
proof fn lemma_sphere_record_ok(s: Sphere, ray: Ray, t: int)
    requires
        sphere_wf(s),
        ray_wf(ray),
        hit_domain(ray),
        -(B_COORD as int) <= t <= B_COORD as int,
    ensures
        match sphere_record_s(s, ray, t) {
            Some(h) => hit_record_wf(h) && h.t@ == t && dot_s(ray.direction@, h.normal@) <= 0,
            None => true,
        },
{
    let point = at_s(ray, t);
    let pc = sub_s(point, s.center@);
    lemma_at_s_bound(ray, t);
    if nsq_s(pc) >= 1 {
        lemma_unit_shape(pc);
        let outward = unit_s(pc);
        let ff = dot_s(ray.direction@, outward) < 0;
        let n = if ff {
            outward
        } else {
            neg_s(outward)
        };
        lemma_nsq_neg(outward);
        lemma_dot_neg(ray.direction@, outward);
        let h = sphere_record_s(s, ray, t).unwrap();
        assert(h.point@ == point);
        assert(h.normal@ == n);
        assert(h.t@ == t);
    }
}

impl Sphere {
    pub fn new(center: Vector3D, radius: Fx, material: Material) -> (r: Sphere)
        ensures
            r.center == center,
            r.radius == radius,
            r.material == material,
    {
        Sphere { center, radius, material }
    }
}

impl Hittable for Sphere {
    open spec fn wf(&self) -> bool {
        sphere_wf(*self)
    }

    open spec fn hit_spec(&self, ray: Ray, t_min: int, t_max: int) -> Option<HitRecord> {
        sphere_hit_s(*self, ray, t_min, t_max)
    }

    proof fn lemma_hit_spec_ok(&self, ray: Ray, t_min: int, t_max: int) {
        lemma_sphere_quad_bounds(*self, ray);
        if sph_disc(*self, ray) >= 0 {
            let t1 = sph_t1(*self, ray);
            let t2 = sph_t2(*self, ray);
            if t_min <= t1 <= t_max {
                lemma_sphere_record_ok(*self, ray, t1);
            } else if t_min <= t2 <= t_max {
                lemma_sphere_record_ok(*self, ray, t2);
            }
        }
    }

    proof fn lemma_hit_spec_narrow(&self, ray: Ray, t_min: int, tc: int, t_max: int) {
        lemma_sphere_quad_bounds(*self, ray);
        if sph_disc(*self, ray) >= 0 {
            let hb = sph_half_b(*self, ray);
            let sq = fx_sqrt(sph_disc(*self, ray));
            let a = sph_a(ray);
            lemma_fx_div_monotone(-hb - sq, -hb + sq, a);
            let t1 = sph_t1(*self, ray);
            let t2 = sph_t2(*self, ray);
            if t_min <= t1 <= tc {
                lemma_sphere_record_ok(*self, ray, t1);
            } else if t_min <= t2 <= tc {
                lemma_sphere_record_ok(*self, ray, t2);
            } else {
                if t_min <= t1 <= t_max {
                    lemma_sphere_record_ok(*self, ray, t1);
                } else if t_min <= t2 <= t_max {
                    lemma_sphere_record_ok(*self, ray, t2);
                }
            }
        }
    }

    fn hit(&self, ray: &Ray, t_min: Fx, t_max: Fx) -> (r: Option<HitRecord>) {
        proof {
            lemma_sphere_quad_bounds(*self, *ray);
        }
        let sphere_dir = ray.origin.sub(&self.center);
        let a = ray.direction.norm_squared();
        let half_b = sphere_dir.dot(&ray.direction);
        let r2 = self.radius.mul(self.radius);
        let c = sphere_dir.norm_squared().sub(r2);
        let disc = half_b.mul(half_b).sub(a.mul(c));
        if disc.raw < 0 {
            return None;
        }
        let sq = disc.sqrt();
        let mut t = half_b.neg().sub(sq).div(a);
        proof {
            assert(t@ == sph_t1(*self, *ray));
        }
        if t.raw < t_min.raw || t.raw > t_max.raw {
            t = half_b.neg().add(sq).div(a);
            proof {
                assert(t@ == sph_t2(*self, *ray));
            }
            if t.raw < t_min.raw || t.raw > t_max.raw {
                return None;
            }
        }
        let point = ray.at(t);
        let pc = point.sub(&self.center);
        let pn = pc.norm_squared();
        if pn.raw < 1 {
            return None;
        }
        proof {
            lemma_unit_shape(pc@);
        }
        let normal = pc.unit();
        let mut record = HitRecord::new(point, t, normal, self.material);
        record.set_ray_facing_normal(ray);
        proof {
            lemma_of_v3_roundtrip(point);
            lemma_of_v3_roundtrip(record.normal);
            lemma_dot_neg(ray.direction@, normal@);
            let spec_rec = sphere_record_s(*self, *ray, t@).unwrap();
            assert(record.point == spec_rec.point);
            assert(record.t == spec_rec.t);
            assert(record.normal == spec_rec.normal);
            assert(record.is_front_face == spec_rec.is_front_face);
            assert(record == spec_rec);
        }
        Some(record)
    }
}

/// The nearest hit over a sequence of surfaces, each tested against the full
/// window; on an exactly equal parameter the later member wins, as in the
/// shrink-bound traversal.
pub open spec fn nearest_s<T: Hittable>(
    items: Seq<T>,
    ray: Ray,
    t_min: int,
    t_max: int,
) -> Option<HitRecord>
    decreases items.len(),
{
    if items.len() == 0 {
        None
    } else {
        let prev = nearest_s(items.drop_last(), ray, t_min, t_max);
        let last = items.last().hit_spec(ray, t_min, t_max);
        match prev {
            None => last,
            Some(h) => match last {
                None => Some(h),
                Some(h2) => if h2.t@ <= h.t@ {
                    Some(h2)
                } else {
                    Some(h)
                },
            },
        }
    }
}

/// Every record `nearest_s` returns comes with the guarantees of the member
/// that produced it.
pub proof fn lemma_nearest_ok<T: Hittable>(items: Seq<T>, ray: Ray, t_min: int, t_max: int)
    requires
        forall|i: int| 0 <= i < items.len() ==> #[trigger] items[i].wf(),
        ray_wf(ray),
        hit_domain(ray),
        -(B_COORD as int) <= t_min,
        t_max <= B_COORD as int,
    ensures
        match nearest_s(items, ray, t_min, t_max) {
            Some(h) => hit_record_wf(h) && t_min <= h.t@ <= t_max && dot_s(
                ray.direction@,
                h.normal@,
            ) <= 0,
            None => true,
        },
    decreases items.len(),
{
    if items.len() > 0 {
        assert(forall|i: int|
            0 <= i < items.drop_last().len() ==> #[trigger] items.drop_last()[i].wf());
        lemma_nearest_ok(items.drop_last(), ray, t_min, t_max);
        items.last().lemma_hit_spec_ok(ray, t_min, t_max);
    }
}

/// Narrowing the window commutes with nearest-hit resolution, memberwise.
pub proof fn lemma_nearest_narrow<T: Hittable>(
    items: Seq<T>,
    ray: Ray,
    t_min: int,
    tc: int,
    t_max: int,
)
    requires
        forall|i: int| 0 <= i < items.len() ==> #[trigger] items[i].wf(),
        ray_wf(ray),
        hit_domain(ray),
        -(B_COORD as int) <= t_min,
        t_max <= B_COORD as int,
        tc <= t_max,
    ensures
        nearest_s(items, ray, t_min, tc) is Some ==> nearest_s(items, ray, t_min, t_max)
            == nearest_s(items, ray, t_min, tc),
        nearest_s(items, ray, t_min, tc) is None ==> match nearest_s(items, ray, t_min, t_max) {
            Some(h) => h.t@ > tc,
            None => true,
        },
    decreases items.len(),
{
    if items.len() > 0 {
        let init = items.drop_last();
        assert(forall|i: int| 0 <= i < init.len() ==> #[trigger] init[i].wf());
        lemma_nearest_narrow(init, ray, t_min, tc, t_max);
        items.last().lemma_hit_spec_narrow(ray, t_min, tc, t_max);
        if tc <= B_COORD as int {
            lemma_nearest_ok(init, ray, t_min, tc);
            items.last().lemma_hit_spec_ok(ray, t_min, tc);
        }
    }
}

/// Nearest-hit minimality: the aggregate's record comes from one of the
/// members, and no member's own in-window hit is strictly closer.  A miss
/// means no member hits within the window at all.
pub proof fn lemma_nearest_is_min<T: Hittable>(items: Seq<T>, ray: Ray, t_min: int, t_max: int)
    ensures
        match nearest_s(items, ray, t_min, t_max) {
            Some(h) => (exists|i: int|
                0 <= i < items.len() && #[trigger] items[i].hit_spec(ray, t_min, t_max) == Some(h))
                && (forall|i: int|
                0 <= i < items.len() ==> match #[trigger] items[i].hit_spec(ray, t_min, t_max) {
                    Some(hi) => h.t@ <= hi.t@,
                    None => true,
                }),
            None => forall|i: int|
                0 <= i < items.len() ==> #[trigger] items[i].hit_spec(ray, t_min, t_max) is None,
        },
    decreases items.len(),
{
    if items.len() > 0 {
        let init = items.drop_last();
        lemma_nearest_is_min(init, ray, t_min, t_max);
        assert(forall|i: int| 0 <= i < init.len() ==> init[i] == items[i]);
        assert(items.last() == items[items.len() - 1]);
    }
}

/// Shrink-bound traversal shared by every scene shape: each member is
/// tested against a window whose upper end is the best parameter so far.
fn hit_nearest<T: Hittable>(items: &Vec<T>, ray: &Ray, t_min: Fx, t_max: Fx) -> (r: Option<
    HitRecord,
>)
    requires
        forall|i: int| 0 <= i < items@.len() ==> #[trigger] items@[i].wf(),
        ray_wf(*ray),
        hit_domain(*ray),
        -(B_COORD as int) <= t_min@,
        t_max@ <= B_COORD as int,
    ensures
        r == nearest_s(items@, *ray, t_min@, t_max@),
{
    let mut record: Option<HitRecord> = None;
    let mut t_closest = t_max;
    let mut idx: usize = 0;
    while idx < items.len()
        invariant
            0 <= idx <= items@.len(),
            forall|i: int| 0 <= i < items@.len() ==> #[trigger] items@[i].wf(),
            ray_wf(*ray),
            hit_domain(*ray),
            -(B_COORD as int) <= t_min@,
            t_max@ <= B_COORD as int,
            record == nearest_s(items@.take(idx as int), *ray, t_min@, t_max@),
            match record {
                Some(h) => t_closest == h.t && t_min@ <= h.t@ <= t_max@,
                None => t_closest == t_max,
            },
        decreases items@.len() - idx,
    {
        let item = &items[idx];
        proof {
            item.lemma_hit_spec_narrow(*ray, t_min@, t_closest@, t_max@);
            item.lemma_hit_spec_ok(*ray, t_min@, t_closest@);
            assert(items@.take(idx + 1).drop_last() =~= items@.take(idx as int));
            assert(items@.take(idx + 1).last() == items@[idx as int]);
        }
        let res = item.hit(ray, t_min, t_closest);
        if let Some(rec) = res {
            t_closest = rec.t;
            record = Some(rec);
        }
        idx = idx + 1;
    }
    proof {
        assert(items@.take(items@.len() as int) =~= items@);
    }
    record
}

/// Closed union of surface kinds, the member type of the heterogeneous
/// scene.  Dynamic dispatch over the capability trait is out of the
/// verifier's reach, so heterogeneity lives in a tagged union, which
/// carries the same `Hittable` contract through each variant.
#[derive(Clone, Copy, Debug)]
pub enum Body {
    Sphere(Sphere),
}

impl Hittable for Body {
    open spec fn wf(&self) -> bool {
        match self {
            Body::Sphere(s) => s.wf(),
        }
    }

    open spec fn hit_spec(&self, ray: Ray, t_min: int, t_max: int) -> Option<HitRecord> {
        match self {
            Body::Sphere(s) => s.hit_spec(ray, t_min, t_max),
        }
    }

    proof fn lemma_hit_spec_ok(&self, ray: Ray, t_min: int, t_max: int) {
        match self {
            Body::Sphere(s) => s.lemma_hit_spec_ok(ray, t_min, t_max),
        }
    }

    proof fn lemma_hit_spec_narrow(&self, ray: Ray, t_min: int, tc: int, t_max: int) {
        match self {
            Body::Sphere(s) => s.lemma_hit_spec_narrow(ray, t_min, tc, t_max),
        }
    }

    fn hit(&self, ray: &Ray, t_min: Fx, t_max: Fx) -> (r: Option<HitRecord>) {
        match self {
            Body::Sphere(s) => s.hit(ray, t_min, t_max),
        }
    }
}

/// Heterogeneous scene aggregate: an ordered collection of bodies of any
/// kind, exposing the same `Hittable` capability as its members and
/// resolving their nearest hit.
pub struct HittableScene {
    bodies: Vec<Body>,
}

impl HittableScene {
    pub fn new() -> (r: HittableScene)
        ensures
            r@ =~= Seq::<Body>::empty(),
    {
        HittableScene { bodies: Vec::new() }
    }

    pub fn add(&mut self, object: Sphere)
        requires
            sphere_wf(object),
        ensures
            final(self)@ == old(self)@.push(Body::Sphere(object)),
    {
        self.bodies.push(Body::Sphere(object));
    }
}

impl View for HittableScene {
    type V = Seq<Body>;

    closed spec fn view(&self) -> Seq<Body> {
        self.bodies@
    }
}

impl Default for HittableScene {
    fn default() -> (r: HittableScene)
        ensures
            r@ =~= Seq::<Body>::empty(),
    {
        HittableScene::new()
    }
}

impl Hittable for HittableScene {
    /// Every member body is well formed.
    open spec fn wf(&self) -> bool {
        forall|i: int| 0 <= i < self@.len() ==> #[trigger] self@[i].wf()
    }

    open spec fn hit_spec(&self, ray: Ray, t_min: int, t_max: int) -> Option<HitRecord> {
        nearest_s(self@, ray, t_min, t_max)
    }

    proof fn lemma_hit_spec_ok(&self, ray: Ray, t_min: int, t_max: int) {
        lemma_nearest_ok(self@, ray, t_min, t_max);
    }

    proof fn lemma_hit_spec_narrow(&self, ray: Ray, t_min: int, tc: int, t_max: int) {
        lemma_nearest_narrow(self@, ray, t_min, tc, t_max);
    }

    fn hit(&self, ray: &Ray, t_min: Fx, t_max: Fx) -> (r: Option<HitRecord>) {
        proof {
            assert(self@ == self.bodies@);
        }
        hit_nearest(&self.bodies, ray, t_min, t_max)
    }
}

/// Homogeneous scene aggregate: a plain collection of spheres, satisfying
/// the same traversal and the same capability as the heterogeneous shape.
pub struct SphereScene {
    bodies: Vec<Sphere>,
}

impl SphereScene {
    pub fn new() -> (r: SphereScene)
        ensures
            r@ =~= Seq::<Sphere>::empty(),
    {
        SphereScene { bodies: Vec::new() }
    }

    pub fn add(&mut self, object: Sphere)
        requires
            sphere_wf(object),
        ensures
            final(self)@ == old(self)@.push(object),
    {
        self.bodies.push(object);
    }
}

impl View for SphereScene {
    type V = Seq<Sphere>;

    closed spec fn view(&self) -> Seq<Sphere> {
        self.bodies@
    }
}

impl Default for SphereScene {
    fn default() -> (r: SphereScene)
        ensures
            r@ =~= Seq::<Sphere>::empty(),
    {
        SphereScene::new()
    }
}

impl Hittable for SphereScene {
    /// Every member sphere is well formed.
    open spec fn wf(&self) -> bool {
        forall|i: int| 0 <= i < self@.len() ==> #[trigger] self@[i].wf()
    }

    open spec fn hit_spec(&self, ray: Ray, t_min: int, t_max: int) -> Option<HitRecord> {
        nearest_s(self@, ray, t_min, t_max)
    }

    proof fn lemma_hit_spec_ok(&self, ray: Ray, t_min: int, t_max: int) {
        lemma_nearest_ok(self@, ray, t_min, t_max);
    }

    proof fn lemma_hit_spec_narrow(&self, ray: Ray, t_min: int, tc: int, t_max: int) {
        lemma_nearest_narrow(self@, ray, t_min, tc, t_max);
    }

    fn hit(&self, ray: &Ray, t_min: Fx, t_max: Fx) -> (r: Option<HitRecord>) {
        proof {
            assert(self@ == self.bodies@);
        }
        hit_nearest(&self.bodies, ray, t_min, t_max)
    }
}

/// Near-hit distance law (axial family): a ray from the origin aimed
/// straight at a sphere centered on the negative z axis hits at parameter
/// `distance - radius`, on the front face, with the exact outward unit
/// normal — for every center distance and radius on the 1/256 grid, where
/// the quadratic arithmetic is exact.
pub proof fn lemma_axial_near_hit(d: int, r: int, t_min: int, t_max: int, m: Material)
    requires
        d % 256 == 0,
        r % 256 == 0,
        256 <= r < d <= B_COORD as int,
        t_min <= d - r <= t_max,
    ensures
        ({
            let s = Sphere {
                center: of_v3(V3 { x: 0, y: 0, z: -d }),
                radius: Fx { raw: r as i64 },
                material: m,
            };
            let ray = Ray {
                origin: of_v3(V3 { x: 0, y: 0, z: 0 }),
                direction: of_v3(V3 { x: 0, y: 0, z: -(SCALE as int) }),
            };
            sphere_hit_s(s, ray, t_min, t_max) == Some(
                HitRecord {
                    point: of_v3(V3 { x: 0, y: 0, z: -(d - r) }),
                    t: Fx { raw: (d - r) as i64 },
                    normal: of_v3(V3 { x: 0, y: 0, z: SCALE as int }),
                    is_front_face: true,
                    material: m,
                },
            )
        }),
{
    let sc = SCALE as int;
    let s = Sphere {
        center: of_v3(V3 { x: 0, y: 0, z: -d }),
        radius: Fx { raw: r as i64 },
        material: m,
    };
    let ray = Ray {
        origin: of_v3(V3 { x: 0, y: 0, z: 0 }),
        direction: of_v3(V3 { x: 0, y: 0, z: -sc }),
    };
    assert(s.center@ == (V3 { x: 0, y: 0, z: -d }));
    assert(ray.origin@ == (V3 { x: 0, y: 0, z: 0 }));
    assert(ray.direction@ == (V3 { x: 0, y: 0, z: -sc }));
    assert(s.radius@ == r);
    // products with zero components vanish
    crate::fixed::lemma_fx_mul_zero(0);
    crate::fixed::lemma_fx_mul_zero(-sc);
    crate::fixed::lemma_fx_mul_zero(d - r);
    // the quadratic pieces, all exact on the grid
    crate::fixed::lemma_fx_square_grid(sc);
    crate::fixed::lemma_fx_square_grid(d);
    crate::fixed::lemma_fx_square_grid(r);
    crate::fixed::lemma_fx_mul_one(d);
    crate::fixed::lemma_fx_mul_neg(d, sc);
    assert(sph_oc(s, ray) == (V3 { x: 0, y: 0, z: d }));
    assert(sph_a(ray) == sc);
    assert(sph_half_b(s, ray) == -d);
    crate::fixed::lemma_fx_mul_one(sph_c(s, ray));
    assert(sph_disc(s, ray) == fx_mul(r, r));
    assert(fx_mul(r, r) >= 1) by (nonlinear_arith)
        requires
            fx_mul(r, r) == (r / 256) * (r / 256),
            r / 256 >= 1,
    ;
    assert(r / 256 >= 1) by {
        vstd::arithmetic::div_mod::lemma_div_non_zero(r, 256);
    }
    assert(fx_sqrt(sph_disc(s, ray)) == r);
    crate::fixed::lemma_fx_div_unit(d - r);
    assert(sph_t1(s, ray) == d - r);
    // the record at the near root
    crate::fixed::lemma_fx_mul_one(d - r);
    crate::fixed::lemma_fx_mul_neg(d - r, sc);
    let point = at_s(ray, d - r);
    assert(point == (V3 { x: 0, y: 0, z: -(d - r) }));
    let pc = sub_s(point, s.center@);
    assert(pc == (V3 { x: 0, y: 0, z: r }));
    assert(nsq_s(pc) == fx_mul(r, r));
    // exact unit outward normal
    vstd::arithmetic::div_mod::lemma_div_of0(r);
    crate::fixed::lemma_fx_div_mag(0, r);
    crate::fixed::lemma_fx_div_self(r);
    assert(norm_s(pc) == r);
    assert(unit_s(pc) == (V3 { x: 0, y: 0, z: sc }));
    // the normal faces the ray: front face
    crate::fixed::lemma_fx_mul_one(sc);
    crate::fixed::lemma_fx_mul_neg(sc, sc);
    assert(dot_s(ray.direction@, unit_s(pc)) == -sc);
}

/// Far-wall fallback law (axial family): a ray starting at the center of a
/// sphere leaves through the far wall at parameter `radius`, with the
/// smaller root rejected, the back face flagged, and the stored normal
/// flipped to the exact inward-facing unit vector — for every radius on
/// the 1/256 grid.
pub proof fn lemma_axial_far_wall(d: int, r: int, t_min: int, t_max: int, m: Material)
    requires
        r % 256 == 0,
        256 <= r <= B_COORD as int,
        0 <= d <= B_COORD as int,
        0 <= t_min <= r <= t_max,
    ensures
        ({
            let s = Sphere {
                center: of_v3(V3 { x: 0, y: 0, z: -d }),
                radius: Fx { raw: r as i64 },
                material: m,
            };
            let ray = Ray {
                origin: of_v3(V3 { x: 0, y: 0, z: -d }),
                direction: of_v3(V3 { x: 0, y: 0, z: -(SCALE as int) }),
            };
            sphere_hit_s(s, ray, t_min, t_max) == Some(
                HitRecord {
                    point: of_v3(V3 { x: 0, y: 0, z: -d - r }),
                    t: Fx { raw: r as i64 },
                    normal: of_v3(V3 { x: 0, y: 0, z: SCALE as int }),
                    is_front_face: false,
                    material: m,
                },
            )
        }),
{
    let sc = SCALE as int;
    let s = Sphere {
        center: of_v3(V3 { x: 0, y: 0, z: -d }),
        radius: Fx { raw: r as i64 },
        material: m,
    };
    let ray = Ray {
        origin: of_v3(V3 { x: 0, y: 0, z: -d }),
        direction: of_v3(V3 { x: 0, y: 0, z: -sc }),
    };
    assert(s.center@ == (V3 { x: 0, y: 0, z: -d }));
    assert(ray.origin@ == (V3 { x: 0, y: 0, z: -d }));
    assert(ray.direction@ == (V3 { x: 0, y: 0, z: -sc }));
    assert(s.radius@ == r);
    crate::fixed::lemma_fx_mul_zero(0);
    crate::fixed::lemma_fx_mul_zero(-sc);
    crate::fixed::lemma_fx_mul_zero(r);
    crate::fixed::lemma_fx_square_grid(sc);
    crate::fixed::lemma_fx_square_grid(r);
    assert(sph_oc(s, ray) == (V3 { x: 0, y: 0, z: 0 }));
    assert(sph_a(ray) == sc);
    assert(sph_half_b(s, ray) == 0);
    assert(sph_c(s, ray) == -fx_mul(r, r));
    crate::fixed::lemma_fx_mul_one(-fx_mul(r, r));
    assert(sph_disc(s, ray) == fx_mul(r, r));
    assert(r / 256 >= 1) by {
        vstd::arithmetic::div_mod::lemma_div_non_zero(r, 256);
    }
    assert(fx_mul(r, r) >= 1) by (nonlinear_arith)
        requires
            fx_mul(r, r) == (r / 256) * (r / 256),
            r / 256 >= 1,
    ;
    assert(fx_sqrt(sph_disc(s, ray)) == r);
    crate::fixed::lemma_fx_div_unit(-r);
    crate::fixed::lemma_fx_div_unit(r);
    assert(sph_t1(s, ray) == -r);
    assert(sph_t2(s, ray) == r);
    // the smaller root lies before the window: the far wall is used
    assert(!(t_min <= sph_t1(s, ray) <= t_max));
    crate::fixed::lemma_fx_mul_one(r);
    crate::fixed::lemma_fx_mul_neg(r, sc);
    let point = at_s(ray, r);
    assert(point == (V3 { x: 0, y: 0, z: -d - r }));
    let pc = sub_s(point, s.center@);
    assert(pc == (V3 { x: 0, y: 0, z: -r }));
    assert(nsq_s(pc) == fx_mul(r, r));
    vstd::arithmetic::div_mod::lemma_div_of0(r);
    crate::fixed::lemma_fx_div_mag(0, r);
    crate::fixed::lemma_fx_div_self(r);
    assert(norm_s(pc) == r);
    assert(unit_s(pc) == (V3 { x: 0, y: 0, z: -sc }));
    // the geometric normal points back along the ray: back face, flipped
    crate::fixed::lemma_fx_mul_one(sc);
    crate::fixed::lemma_fx_mul_neg(sc, sc);
    crate::fixed::lemma_fx_mul_neg(-sc, sc);
    assert(dot_s(ray.direction@, unit_s(pc)) == sc);
    assert(neg_s(unit_s(pc)) == (V3 { x: 0, y: 0, z: sc }));
}

} // verus!
