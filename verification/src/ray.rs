//! Rays, intersection records and the `Hittable` capability that every
//! surface and every aggregate of surfaces implements.

use crate::fixed::Fx;
use crate::fixed::SCALE;
use crate::linalg::{
    add_s, dot_s, lemma_dot_neg, lemma_mul_comp_bound, neg_s, nsq_s, scale_s, sub_s, unit_s,
    v3_bounded, Vector3D, V3, B_DIR, B_DOT_ARG,
};
use crate::material::{material_wf, Material};
use vstd::prelude::*;

verus! {

/// Cap on scene coordinates, sphere radii and ray-parameter windows.
pub const B_COORD: i64 = 0x400_0000;

/// Cap on the origin of any ray handed to an intersection test.
pub const B_HIT_ORIGIN: i64 = 0x4_0000_0000;

/// Cap on the components of a hit point produced by an intersection test.
pub const B_POINT: i64 = 0x8_0000_0000;

/// Cap on the origin of any constructed ray (scattered rays start at hit
/// points, which stay well below this).
pub const B_RAY_ORIGIN: i64 = 0x100_0000_0000;

/// Ray with an origin and a direction normalized at construction time.
#[derive(Clone, Copy, Debug)]
pub struct Ray {
    pub origin: Vector3D,
    pub direction: Vector3D,
}

/// Every constructed ray keeps a bounded origin and an (approximately)
/// unit direction: components within two units, squared norm at least a
/// quarter.
pub open spec fn ray_wf(r: Ray) -> bool {
    &&& v3_bounded(r.origin@, B_RAY_ORIGIN as int)
    &&& v3_bounded(r.direction@, 2 * (SCALE as int))
    &&& nsq_s(r.direction@) >= 16384
}

/// Rays handed to intersection tests keep their origin within the scene
/// domain, so every intermediate product of the quadratic fits the scalar.
pub open spec fn hit_domain(r: Ray) -> bool {
    v3_bounded(r.origin@, B_HIT_ORIGIN as int)
}

/// Point evaluation of the ray parametrization: `origin + t * direction`.
pub open spec fn at_s(r: Ray, t: int) -> V3 {
    add_s(r.origin@, scale_s(t, r.direction@))
}

/// A ray-parameter value within the coordinate cap keeps the evaluated
/// point within the point cap, for a domain-bounded ray.
pub proof fn lemma_at_s_bound(r: Ray, t: int)
    requires
        ray_wf(r),
        hit_domain(r),
        -(B_COORD as int) <= t <= B_COORD as int,
    ensures
        v3_bounded(at_s(r, t), B_POINT as int),
{
    lemma_mul_comp_bound(t, r.direction@, B_COORD as int, 2 * (SCALE as int));
}

impl Ray {
    /// Build a ray; the direction is normalized here and never again.  A
    /// direction whose squared norm quantizes to zero has no usable
    /// normalization, so keeping it above one raw unit is the caller's
    /// obligation.
    pub fn new(origin: Vector3D, direction: Vector3D) -> (r: Ray)
        requires
            v3_bounded(origin@, B_RAY_ORIGIN as int),
            v3_bounded(direction@, B_DOT_ARG as int),
            nsq_s(direction@) >= 1,
        ensures
            r.origin == origin,
            r.direction@ == unit_s(direction@),
            ray_wf(r),
    {
        Ray { origin, direction: direction.unit() }
    }

    /// The point `origin + t * direction`.
    pub fn at(&self, t: Fx) -> (r: Vector3D)
        requires
            ray_wf(*self),
            -(B_COORD as int) <= t@ <= B_COORD as int,
        ensures
            r@ == at_s(*self, t@),
            hit_domain(*self) ==> v3_bounded(r@, B_POINT as int),
    {
        proof {
            lemma_mul_comp_bound(t@, self.direction@, B_COORD as int, 2 * (SCALE as int));
            if hit_domain(*self) {
                lemma_at_s_bound(*self, t@);
            }
        }
        self.origin.add(&self.direction.scale(t))
    }
}

/// Description of one ray/surface intersection.  The material is held by
/// value: materials are small immutable records, so sharing a handle would
/// save nothing over a copy.
#[derive(Clone, Copy, Debug)]
pub struct HitRecord {
    pub point: Vector3D,
    pub t: Fx,
    pub normal: Vector3D,
    pub is_front_face: bool,
    pub material: Material,
}

/// What every intersection test guarantees of a record it returns: the
/// stored normal is near unit length (components within two units, squared
/// norm at least a quarter).
pub open spec fn hit_record_wf(h: HitRecord) -> bool {
    &&& v3_bounded(h.point@, B_POINT as int)
    &&& v3_bounded(h.normal@, B_DIR as int)
    &&& nsq_s(h.normal@) >= 16384
    &&& material_wf(h.material)
}

impl HitRecord {
    pub fn new(point: Vector3D, t: Fx, normal: Vector3D, material: Material) -> (r: HitRecord)
        ensures
            r.point == point,
            r.t == t,
            r.normal == normal,
            r.material == material,
            r.is_front_face,
    {
        HitRecord { point, t, normal, material, is_front_face: true }
    }

    /// Resolve sidedness: the stored normal always faces the incoming ray.
    /// Afterwards `dot(ray.direction, normal) <= 0` holds — the orientation
    /// invariant every scattering rule relies on.
    pub fn set_ray_facing_normal(&mut self, ray: &Ray)
        requires
            v3_bounded(old(self).normal@, B_DOT_ARG as int),
            v3_bounded(ray.direction@, B_DOT_ARG as int),
        ensures
            final(self).is_front_face == (dot_s(ray.direction@, old(self).normal@) < 0),
            final(self).normal@ == if final(self).is_front_face {
                old(self).normal@
            } else {
                neg_s(old(self).normal@)
            },
            final(self).point == old(self).point,
            final(self).t == old(self).t,
            final(self).material == old(self).material,
            dot_s(ray.direction@, final(self).normal@) <= 0,
    {
        let d = ray.direction.dot(&self.normal);
        self.is_front_face = d.raw < 0;
        if !self.is_front_face {
            proof {
                lemma_dot_neg(ray.direction@, self.normal@);
            }
            self.normal = self.normal.neg();
        }
    }
}

/// Capability of everything a ray can intersect: one polymorphic operation,
/// identical in signature for single surfaces and whole aggregates, plus the
/// spec-level description of what it returns and two proof obligations the
/// nearest-hit traversal relies on.
pub trait Hittable: Sized {
    /// Well-formedness of the surface (bounded geometry, valid material).
    spec fn wf(&self) -> bool;

    /// What `hit` returns, as a function of ray and parameter window.
    spec fn hit_spec(&self, ray: Ray, t_min: int, t_max: int) -> Option<HitRecord>;

    /// A returned record is well formed, lies within the window, and its
    /// normal faces the ray.
    proof fn lemma_hit_spec_ok(&self, ray: Ray, t_min: int, t_max: int)
        requires
            self.wf(),
            ray_wf(ray),
            hit_domain(ray),
            -(B_COORD as int) <= t_min,
            t_max <= B_COORD as int,
        ensures
            match self.hit_spec(ray, t_min, t_max) {
                Some(h) => hit_record_wf(h) && t_min <= h.t@ <= t_max && dot_s(
                    ray.direction@,
                    h.normal@,
                ) <= 0,
                None => true,
            },
    ;

    /// Narrowing the upper end of the window cannot change a hit that lies
    /// inside the narrowed window, and a miss on the narrowed window means
    /// any hit on the full window lies beyond it.
    proof fn lemma_hit_spec_narrow(&self, ray: Ray, t_min: int, tc: int, t_max: int)
        requires
            self.wf(),
            ray_wf(ray),
            hit_domain(ray),
            -(B_COORD as int) <= t_min,
            t_max <= B_COORD as int,
            tc <= t_max,
        ensures
            self.hit_spec(ray, t_min, tc) is Some ==> self.hit_spec(ray, t_min, t_max) == self
                .hit_spec(ray, t_min, tc),
            self.hit_spec(ray, t_min, tc) is None ==> match self.hit_spec(ray, t_min, t_max) {
                Some(h) => h.t@ > tc,
                None => true,
            },
    ;

    /// Intersect; a hit outside `[t_min, t_max]` is rejected even if
    /// geometrically real.  No side effects.
    fn hit(&self, ray: &Ray, t_min: Fx, t_max: Fx) -> (r: Option<HitRecord>)
        requires
            self.wf(),
            ray_wf(*ray),
            hit_domain(*ray),
            -(B_COORD as int) <= t_min@,
            t_max@ <= B_COORD as int,
        ensures
            r == self.hit_spec(*ray, t_min@, t_max@),
    ;
}

} // verus!
