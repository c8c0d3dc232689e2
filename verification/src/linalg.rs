//! Three-component fixed-point vectors, used both as geometry and as RGB
//! colors, together with the reflection and refraction helpers.

use crate::fixed::{
    fx_div, fx_mul, fx_sqrt, isqrt, lemma_fx_mul_mag, lemma_fx_mul_bound, lemma_fx_mul_unit_interval,
    lemma_isqrt_correct, mag, Fx, HALF_RAW, SCALE,
};
use crate::rng::draw_in;
use vstd::arithmetic::div_mod::{
    lemma_div_denominator, lemma_div_is_ordered, lemma_div_is_ordered_by_denominator,
    lemma_div_multiples_vanish, lemma_div_pos_is_pos,
};
use vstd::arithmetic::mul::{lemma_mul_is_commutative, lemma_mul_nonnegative, lemma_mul_upper_bound};
use vstd::prelude::*;

verus! {

/// Blanket per-component magnitude cap under which the products inside a dot
/// product cannot overflow.
pub const B_DOT_ARG: i64 = 0x10_0000_0000;

/// Component cap for (approximately) unit-length directions.
pub const B_DIR: i64 = 262144;

/// Spec-level model of a vector: three raw scalar components.
pub struct V3 {
    pub x: int,
    pub y: int,
    pub z: int,
}

/// Three-component vector; components are fixed-point scalars.
#[derive(Clone, Copy, Debug, PartialEq, Eq, Structural)]
pub struct Vector3D {
    pub x: Fx,
    pub y: Fx,
    pub z: Fx,
}

impl View for Vector3D {
    type V = V3;

    open spec fn view(&self) -> V3 {
        V3 { x: self.x@, y: self.y@, z: self.z@ }
    }
}

pub open spec fn v3_bounded(v: V3, m: int) -> bool {
    &&& -m <= v.x <= m
    &&& -m <= v.y <= m
    &&& -m <= v.z <= m
}

pub open spec fn add_s(a: V3, b: V3) -> V3 {
    V3 { x: a.x + b.x, y: a.y + b.y, z: a.z + b.z }
}

pub open spec fn sub_s(a: V3, b: V3) -> V3 {
    V3 { x: a.x - b.x, y: a.y - b.y, z: a.z - b.z }
}

pub open spec fn neg_s(a: V3) -> V3 {
    V3 { x: -a.x, y: -a.y, z: -a.z }
}

/// Componentwise scaling by a raw scalar.
pub open spec fn scale_s(k: int, a: V3) -> V3 {
    V3 { x: fx_mul(k, a.x), y: fx_mul(k, a.y), z: fx_mul(k, a.z) }
}

/// Componentwise (Hadamard) product, the color-attenuation product.
pub open spec fn mul_s(a: V3, b: V3) -> V3 {
    V3 { x: fx_mul(a.x, b.x), y: fx_mul(a.y, b.y), z: fx_mul(a.z, b.z) }
}

pub open spec fn dot_s(a: V3, b: V3) -> int {
    fx_mul(a.x, b.x) + fx_mul(a.y, b.y) + fx_mul(a.z, b.z)
}

pub open spec fn cross_s(a: V3, b: V3) -> V3 {
    V3 {
        x: fx_mul(a.y, b.z) - fx_mul(a.z, b.y),
        y: fx_mul(a.z, b.x) - fx_mul(a.x, b.z),
        z: fx_mul(a.x, b.y) - fx_mul(a.y, b.x),
    }
}

pub open spec fn nsq_s(a: V3) -> int {
    dot_s(a, a)
}

pub open spec fn norm_s(a: V3) -> int {
    fx_sqrt(nsq_s(a))
}

/// A vector counts as near zero when its squared norm quantizes to zero:
/// any threshold far below one raw unit (such as the classical `1e-7`)
/// collapses to exactly this test.
pub open spec fn near_zero_s(a: V3) -> bool {
    nsq_s(a) == 0
}

pub open spec fn unit_s(a: V3) -> V3 {
    let n = norm_s(a);
    V3 { x: fx_div(a.x, n), y: fx_div(a.y, n), z: fx_div(a.z, n) }
}

pub open spec fn reflect_s(v: V3, n: V3) -> V3 {
    sub_s(v, scale_s(dot_s(v, n) + dot_s(v, n), n))
}

/// Squared norms are sums of nonnegative products.
pub proof fn lemma_nsq_nonneg(a: V3)
    ensures
        nsq_s(a) >= 0,
        fx_mul(a.x, a.x) >= 0,
        fx_mul(a.y, a.y) >= 0,
        fx_mul(a.z, a.z) >= 0,
{
    lemma_fx_mul_mag(a.x, a.x);
    lemma_fx_mul_mag(a.y, a.y);
    lemma_fx_mul_mag(a.z, a.z);
    lemma_mul_nonnegative(mag(a.x), mag(a.x));
    lemma_mul_nonnegative(mag(a.y), mag(a.y));
    lemma_mul_nonnegative(mag(a.z), mag(a.z));
    lemma_div_pos_is_pos(mag(a.x) * mag(a.x), SCALE as int);
    lemma_div_pos_is_pos(mag(a.y) * mag(a.y), SCALE as int);
    lemma_div_pos_is_pos(mag(a.z) * mag(a.z), SCALE as int);
}

/// Components bounded by `m` bound the dot product by `3 * m * m / SCALE`.
pub proof fn lemma_dot_bound(a: V3, b: V3, m: int)
    requires
        0 <= m,
        v3_bounded(a, m),
        v3_bounded(b, m),
    ensures
        -3 * ((m * m) / (SCALE as int)) <= dot_s(a, b) <= 3 * ((m * m) / (SCALE as int)),
{
    lemma_mul_upper_bound(mag(a.x), m, mag(b.x), m);
    lemma_mul_upper_bound(mag(a.y), m, mag(b.y), m);
    lemma_mul_upper_bound(mag(a.z), m, mag(b.z), m);
    lemma_mul_nonnegative(mag(a.x), mag(b.x));
    lemma_mul_nonnegative(mag(a.y), mag(b.y));
    lemma_mul_nonnegative(mag(a.z), mag(b.z));
    lemma_fx_mul_bound(a.x, b.x, m * m);
    lemma_fx_mul_bound(a.y, b.y, m * m);
    lemma_fx_mul_bound(a.z, b.z, m * m);
}

/// Negating one argument negates the dot product.
pub proof fn lemma_dot_neg(a: V3, b: V3)
    ensures
        dot_s(neg_s(a), b) == -dot_s(a, b),
        dot_s(a, neg_s(b)) == -dot_s(a, b),
{
    crate::fixed::lemma_fx_mul_neg(a.x, b.x);
    crate::fixed::lemma_fx_mul_neg(a.y, b.y);
    crate::fixed::lemma_fx_mul_neg(a.z, b.z);
}

impl Default for Vector3D {
    /// The zero vector.
    fn default() -> (r: Vector3D)
        ensures
            r@ == (V3 { x: 0int, y: 0int, z: 0int }),
    {
        Vector3D::zero()
    }
}

impl Vector3D {
    pub fn new(x: Fx, y: Fx, z: Fx) -> (r: Vector3D)
        ensures
            r@ == (V3 { x: x@, y: y@, z: z@ }),
    {
        Vector3D { x, y, z }
    }

    pub fn zero() -> (r: Vector3D)
        ensures
            r@ == (V3 { x: 0int, y: 0int, z: 0int }),
    {
        Vector3D { x: Fx { raw: 0 }, y: Fx { raw: 0 }, z: Fx { raw: 0 } }
    }

    pub fn unit_x() -> (r: Vector3D)
        ensures
            r@ == (V3 { x: SCALE as int, y: 0int, z: 0int }),
    {
        Vector3D { x: Fx { raw: SCALE }, y: Fx { raw: 0 }, z: Fx { raw: 0 } }
    }

    pub fn unit_y() -> (r: Vector3D)
        ensures
            r@ == (V3 { x: 0int, y: SCALE as int, z: 0int }),
    {
        Vector3D { x: Fx { raw: 0 }, y: Fx { raw: SCALE }, z: Fx { raw: 0 } }
    }

    pub fn unit_z() -> (r: Vector3D)
        ensures
            r@ == (V3 { x: 0int, y: 0int, z: SCALE as int }),
    {
        Vector3D { x: Fx { raw: 0 }, y: Fx { raw: 0 }, z: Fx { raw: SCALE } }
    }

    /// Component read; indices outside `0..3` are a usage error and ruled
    /// out by precondition.
    pub fn index(&self, index: usize) -> (r: Fx)
        requires
            index < 3,
        ensures
            r@ == if index == 0 {
                self@.x
            } else if index == 1 {
                self@.y
            } else {
                self@.z
            },
    {
        if index == 0 {
            self.x
        } else if index == 1 {
            self.y
        } else {
            self.z
        }
    }

    pub fn add(&self, other: &Vector3D) -> (r: Vector3D)
        requires
            v3_bounded(self@, 0x2000_0000_0000_0000),
            v3_bounded(other@, 0x2000_0000_0000_0000),
        ensures
            r@ == add_s(self@, other@),
    {
        Vector3D { x: self.x.add(other.x), y: self.y.add(other.y), z: self.z.add(other.z) }
    }

    pub fn sub(&self, other: &Vector3D) -> (r: Vector3D)
        requires
            v3_bounded(self@, 0x2000_0000_0000_0000),
            v3_bounded(other@, 0x2000_0000_0000_0000),
        ensures
            r@ == sub_s(self@, other@),
    {
        Vector3D { x: self.x.sub(other.x), y: self.y.sub(other.y), z: self.z.sub(other.z) }
    }

    pub fn neg(&self) -> (r: Vector3D)
        requires
            v3_bounded(self@, 0x2000_0000_0000_0000),
        ensures
            r@ == neg_s(self@),
    {
        Vector3D { x: self.x.neg(), y: self.y.neg(), z: self.z.neg() }
    }

    /// Scale every component by the scalar `k`.
    pub fn scale(&self, k: Fx) -> (r: Vector3D)
        requires
            v3_bounded(self@, B_DOT_ARG as int),
            -(B_DOT_ARG as int) <= k@ <= B_DOT_ARG as int,
        ensures
            r@ == scale_s(k@, self@),
    {
        proof {
            lemma_mul_upper_bound(mag(k@), B_DOT_ARG as int, mag(self@.x), B_DOT_ARG as int);
            lemma_mul_upper_bound(mag(k@), B_DOT_ARG as int, mag(self@.y), B_DOT_ARG as int);
            lemma_mul_upper_bound(mag(k@), B_DOT_ARG as int, mag(self@.z), B_DOT_ARG as int);
        }
        Vector3D { x: k.mul(self.x), y: k.mul(self.y), z: k.mul(self.z) }
    }

    /// Componentwise product (colors attenuating colors).
    pub fn mul(&self, other: &Vector3D) -> (r: Vector3D)
        requires
            v3_bounded(self@, B_DOT_ARG as int),
            v3_bounded(other@, B_DOT_ARG as int),
        ensures
            r@ == mul_s(self@, other@),
    {
        proof {
            lemma_mul_upper_bound(mag(self@.x), B_DOT_ARG as int, mag(other@.x), B_DOT_ARG as int);
            lemma_mul_upper_bound(mag(self@.y), B_DOT_ARG as int, mag(other@.y), B_DOT_ARG as int);
            lemma_mul_upper_bound(mag(self@.z), B_DOT_ARG as int, mag(other@.z), B_DOT_ARG as int);
        }
        Vector3D { x: self.x.mul(other.x), y: self.y.mul(other.y), z: self.z.mul(other.z) }
    }

    pub fn dot(&self, other: &Vector3D) -> (r: Fx)
        requires
            v3_bounded(self@, B_DOT_ARG as int),
            v3_bounded(other@, B_DOT_ARG as int),
        ensures
            r@ == dot_s(self@, other@),
    {
        proof {
            lemma_mul_upper_bound(mag(self@.x), B_DOT_ARG as int, mag(other@.x), B_DOT_ARG as int);
            lemma_mul_upper_bound(mag(self@.y), B_DOT_ARG as int, mag(other@.y), B_DOT_ARG as int);
            lemma_mul_upper_bound(mag(self@.z), B_DOT_ARG as int, mag(other@.z), B_DOT_ARG as int);
            lemma_fx_mul_bound(self@.x, other@.x, (B_DOT_ARG as int) * (B_DOT_ARG as int));
            lemma_fx_mul_bound(self@.y, other@.y, (B_DOT_ARG as int) * (B_DOT_ARG as int));
            lemma_fx_mul_bound(self@.z, other@.z, (B_DOT_ARG as int) * (B_DOT_ARG as int));
        }
        let xx = self.x.mul(other.x);
        let yy = self.y.mul(other.y);
        let zz = self.z.mul(other.z);
        xx.add(yy).add(zz)
    }

    pub fn cross(&self, other: &Vector3D) -> (r: Vector3D)
        requires
            v3_bounded(self@, B_DOT_ARG as int),
            v3_bounded(other@, B_DOT_ARG as int),
        ensures
            r@ == cross_s(self@, other@),
    {
        proof {
            let m = B_DOT_ARG as int;
            lemma_mul_upper_bound(mag(self@.x), m, mag(other@.y), m);
            lemma_mul_upper_bound(mag(self@.x), m, mag(other@.z), m);
            lemma_mul_upper_bound(mag(self@.y), m, mag(other@.x), m);
            lemma_mul_upper_bound(mag(self@.y), m, mag(other@.z), m);
            lemma_mul_upper_bound(mag(self@.z), m, mag(other@.x), m);
            lemma_mul_upper_bound(mag(self@.z), m, mag(other@.y), m);
            lemma_fx_mul_bound(self@.y, other@.z, m * m);
            lemma_fx_mul_bound(self@.z, other@.y, m * m);
            lemma_fx_mul_bound(self@.z, other@.x, m * m);
            lemma_fx_mul_bound(self@.x, other@.z, m * m);
            lemma_fx_mul_bound(self@.x, other@.y, m * m);
            lemma_fx_mul_bound(self@.y, other@.x, m * m);
        }
        Vector3D {
            x: self.y.mul(other.z).sub(self.z.mul(other.y)),
            y: self.z.mul(other.x).sub(self.x.mul(other.z)),
            z: self.x.mul(other.y).sub(self.y.mul(other.x)),
        }
    }

    pub fn norm_squared(&self) -> (r: Fx)
        requires
            v3_bounded(self@, B_DOT_ARG as int),
        ensures
            r@ == nsq_s(self@),
            r@ >= 0,
    {
        proof {
            lemma_nsq_nonneg(self@);
        }
        self.dot(self)
    }

    pub fn norm(&self) -> (r: Fx)
        requires
            v3_bounded(self@, B_DOT_ARG as int),
        ensures
            r@ == norm_s(self@),
            0 <= r@ < 0x100_0000_0000,
    {
        self.norm_squared().sqrt()
    }

    /// True when the squared norm quantizes to zero, the fixed-point form
    /// of a `norm() < 1e-7` test.
    pub fn is_near_zero(&self) -> (r: bool)
        requires
            v3_bounded(self@, B_DOT_ARG as int),
        ensures
            r == near_zero_s(self@),
    {
        let n = self.norm_squared();
        n.raw == 0
    }

    /// Normalize to (approximately) unit length.  The caller keeps the
    /// squared norm at one raw unit or more; below that the direction is
    /// lost to quantization, just as a zero vector has no direction.
    pub fn unit(&self) -> (r: Vector3D)
        requires
            v3_bounded(self@, B_DOT_ARG as int),
            nsq_s(self@) >= 1,
        ensures
            r@ == unit_s(self@),
            v3_bounded(r@, 2 * (SCALE as int)),
            nsq_s(r@) >= 16384,
    {
        let nsq = self.norm_squared();
        let n = nsq.sqrt();
        proof {
            lemma_unit_shape(self@);
        }
        Vector3D { x: self.x.div(n), y: self.y.div(n), z: self.z.div(n) }
    }

    /// Uniform draw from the axis-aligned cube `[min, max)^3`.
    pub fn random(min: Fx, max: Fx, rng: &mut rand::rngs::ThreadRng) -> (r: Vector3D)
        requires
            min@ < max@,
        ensures
            min@ <= r@.x < max@,
            min@ <= r@.y < max@,
            min@ <= r@.z < max@,
    {
        let x = draw_in(rng, min.raw, max.raw);
        let y = draw_in(rng, min.raw, max.raw);
        let z = draw_in(rng, min.raw, max.raw);
        Vector3D { x: Fx { raw: x }, y: Fx { raw: y }, z: Fx { raw: z } }
    }

    /// Rejection-sample a vector from the open unit ball.  An unbounded
    /// retry loop has no termination measure, so the retry count is bounded;
    /// the acceptance chance per round is about one half, which makes the
    /// fixed interior fallback statistically unreachable.
    pub fn unit_sphere_sample(rng: &mut rand::rngs::ThreadRng) -> (r: Vector3D)
        ensures
            v3_bounded(r@, SCALE as int),
            nsq_s(r@) < SCALE as int,
    {
        let lo = Fx { raw: -SCALE };
        let hi = Fx { raw: SCALE };
        let mut tries: u32 = 64;
        while tries > 0
            invariant
                lo@ == -(SCALE as int),
                hi@ == SCALE as int,
            decreases tries,
        {
            let v = Vector3D::random(lo, hi, rng);
            let nsq = v.norm_squared();
            if nsq.raw < SCALE {
                return v;
            }
            tries = tries - 1;
        }
        let fallback = Vector3D { x: Fx { raw: HALF_RAW }, y: Fx { raw: 0 }, z: Fx { raw: 0 } };
        proof {
            lemma_fx_mul_mag(HALF_RAW as int, HALF_RAW as int);
            lemma_fx_mul_mag(0, 0);
            assert((32768int * 32768int) / (SCALE as int) == 16384int);
            assert((0int * 0int) / (SCALE as int) == 0int);
        }
        fallback
    }

    /// A normalized sample of the cube `[-1, 1)^3`, the diffuse-bounce
    /// direction ingredient.  Samples whose squared norm quantizes to zero
    /// cannot be normalized and are redrawn (boundedly; the fallback is the
    /// x axis and statistically unreachable).
    pub fn random_unit(rng: &mut rand::rngs::ThreadRng) -> (r: Vector3D)
        ensures
            v3_bounded(r@, 2 * (SCALE as int)),
            nsq_s(r@) >= 1,
    {
        let lo = Fx { raw: -SCALE };
        let hi = Fx { raw: SCALE };
        let mut tries: u32 = 64;
        while tries > 0
            invariant
                lo@ == -(SCALE as int),
                hi@ == SCALE as int,
            decreases tries,
        {
            let v = Vector3D::random(lo, hi, rng);
            let nsq = v.norm_squared();
            if nsq.raw >= 1 {
                return v.unit();
            }
            tries = tries - 1;
        }
        let fallback = Vector3D::unit_x();
        proof {
            crate::fixed::lemma_fx_mul_one(SCALE as int);
            lemma_fx_mul_mag(0, 0);
            assert((0int * 0int) / (SCALE as int) == 0int);
        }
        fallback
    }
}

/// The shape facts about `unit_s` that `unit` needs: each component of the
/// normalized vector stays within two units, and the largest component keeps
/// at least half a unit of magnitude.
pub proof fn lemma_unit_shape(a: V3)
    requires
        v3_bounded(a, B_DOT_ARG as int),
        nsq_s(a) >= 1,
    ensures
        norm_s(a) >= 256,
        v3_bounded(unit_s(a), 2 * (SCALE as int)),
        nsq_s(unit_s(a)) >= 16384,
{
    let nsq = nsq_s(a);
    let n = norm_s(a);
    lemma_nsq_nonneg(a);
    assert(n == isqrt((nsq * (SCALE as int)) as nat));
    lemma_isqrt_correct((nsq * (SCALE as int)) as nat);
    // n >= 256: nsq * SCALE >= 65536 = 256 * 256, and (n + 1)^2 exceeds it
    assert(nsq * (SCALE as int) >= 65536) by (nonlinear_arith)
        requires
            nsq >= 1,
    ;
    assert(n >= 256) by (nonlinear_arith)
        requires
            (n + 1) * (n + 1) > 65536,
            n >= 0,
    ;
    lemma_unit_comp_small(a.x, nsq, n);
    lemma_unit_comp_small(a.y, nsq, n);
    lemma_unit_comp_small(a.z, nsq, n);
    // the largest component of `a` keeps at least half a unit
    let u = unit_s(a);
    if mag(a.x) >= mag(a.y) && mag(a.x) >= mag(a.z) {
        lemma_unit_comp_large(a.x, a, n);
        lemma_comp_sq_lower(u.x, u);
    } else if mag(a.y) >= mag(a.z) {
        lemma_unit_comp_large(a.y, a, n);
        lemma_comp_sq_lower(u.y, u);
    } else {
        lemma_unit_comp_large(a.z, a, n);
        lemma_comp_sq_lower(u.z, u);
    }
}

/// One normalized component stays within two units.
proof fn lemma_unit_comp_small(x: int, nsq: int, n: int)
    requires
        fx_mul(x, x) <= nsq,
        nsq >= 1,
        n == fx_sqrt(nsq),
        n >= 256,
    ensures
        mag(fx_div(x, n)) <= 2 * (SCALE as int),
{
    let s = SCALE as int;
    lemma_isqrt_correct((nsq * s) as nat);
    lemma_fx_mul_mag(x, x);
    // x * x < SCALE * (nsq + 1) <= (n + 1)^2 + SCALE <= (2n)^2
    assert(mag(x) * mag(x) < s * nsq + s) by {
        vstd::arithmetic::div_mod::lemma_fundamental_div_mod(mag(x) * mag(x), s);
    }
    assert(mag(x) <= 2 * n) by (nonlinear_arith)
        requires
            mag(x) >= 0,
            n >= 256,
            mag(x) * mag(x) < s * nsq + s,
            nsq * s <= (n + 1) * (n + 1) - 1,
            s == 65536,
    ;
    assert(mag(fx_div(x, n)) == (mag(x) * s) / n) by {
        lemma_mul_nonnegative(mag(x), s);
        lemma_div_pos_is_pos(mag(x) * s, n);
    }
    assert((mag(x) * s) / n <= (2 * n * s) / n) by {
        assert(mag(x) * s <= 2 * n * s) by (nonlinear_arith)
            requires
                mag(x) <= 2 * n,
                s > 0,
        ;
        lemma_div_is_ordered(mag(x) * s, 2 * n * s, n);
    }
    assert((2 * n * s) / n == 2 * s) by {
        lemma_mul_is_commutative(n, 2 * s);
        lemma_div_multiples_vanish(2 * s, n);
        assert(2 * n * s == n * (2 * s)) by (nonlinear_arith);
    }
}

/// The largest component of `a` keeps at least half a unit after
/// normalization.
proof fn lemma_unit_comp_large(x: int, a: V3, n: int)
    requires
        mag(a.x) <= mag(x),
        mag(a.y) <= mag(x),
        mag(a.z) <= mag(x),
        x == a.x || x == a.y || x == a.z,
        nsq_s(a) >= 1,
        n == norm_s(a),
        n >= 256,
    ensures
        mag(fx_div(x, n)) >= HALF_RAW as int,
{
    let s = SCALE as int;
    let nsq = nsq_s(a);
    lemma_nsq_nonneg(a);
    lemma_fx_mul_mag(a.x, a.x);
    lemma_fx_mul_mag(a.y, a.y);
    lemma_fx_mul_mag(a.z, a.z);
    // each squared term is at most the largest one
    assert(mag(a.x) * mag(a.x) <= mag(x) * mag(x)) by (nonlinear_arith)
        requires
            0 <= mag(a.x) <= mag(x),
    ;
    assert(mag(a.y) * mag(a.y) <= mag(x) * mag(x)) by (nonlinear_arith)
        requires
            0 <= mag(a.y) <= mag(x),
    ;
    assert(mag(a.z) * mag(a.z) <= mag(x) * mag(x)) by (nonlinear_arith)
        requires
            0 <= mag(a.z) <= mag(x),
    ;
    lemma_div_is_ordered(mag(a.x) * mag(a.x), mag(x) * mag(x), s);
    lemma_div_is_ordered(mag(a.y) * mag(a.y), mag(x) * mag(x), s);
    lemma_div_is_ordered(mag(a.z) * mag(a.z), mag(x) * mag(x), s);
    assert(nsq <= 3 * ((mag(x) * mag(x)) / s));
    // nsq * s <= 3 * x^2, and n^2 <= nsq * s, so n <= 2 * |x|
    assert(((mag(x) * mag(x)) / s) * s <= mag(x) * mag(x)) by {
        vstd::arithmetic::div_mod::lemma_fundamental_div_mod(mag(x) * mag(x), s);
    }
    lemma_isqrt_correct((nsq * s) as nat);
    assert(n * n <= nsq * s);
    assert(n <= 2 * mag(x)) by (nonlinear_arith)
        requires
            n >= 0,
            n * n <= nsq * s,
            nsq <= 3 * ((mag(x) * mag(x)) / s),
            ((mag(x) * mag(x)) / s) * s <= mag(x) * mag(x),
            s > 0,
    ;
    assert(mag(x) >= 1) by (nonlinear_arith)
        requires
            n >= 256,
            n <= 2 * mag(x),
    ;
    assert(mag(fx_div(x, n)) == (mag(x) * s) / n) by {
        lemma_mul_nonnegative(mag(x), s);
        lemma_div_pos_is_pos(mag(x) * s, n);
    }
    lemma_div_is_ordered_by_denominator(mag(x) * s, n, 2 * mag(x));
    assert((mag(x) * s) / (2 * mag(x)) == s / 2) by {
        lemma_div_denominator(mag(x) * s, mag(x), 2);
        lemma_mul_is_commutative(mag(x), s);
        lemma_div_multiples_vanish(s, mag(x));
        lemma_mul_is_commutative(mag(x), 2);
    }
}

/// A component of magnitude at least one half forces the squared norm to
/// at least a quarter.
proof fn lemma_comp_sq_lower(c: int, u: V3)
    requires
        c == u.x || c == u.y || c == u.z,
        mag(c) >= HALF_RAW as int,
    ensures
        nsq_s(u) >= 16384,
{
    let s = SCALE as int;
    lemma_nsq_nonneg(u);
    lemma_fx_mul_mag(c, c);
    assert(mag(c) * mag(c) >= (HALF_RAW as int) * (HALF_RAW as int)) by (nonlinear_arith)
        requires
            mag(c) >= HALF_RAW as int,
    ;
    lemma_div_is_ordered((HALF_RAW as int) * (HALF_RAW as int), mag(c) * mag(c), s);
    assert(((HALF_RAW as int) * (HALF_RAW as int)) / s == 16384);
}

/// The exec vector whose components carry the given raw values.
pub open spec fn of_v3(v: V3) -> Vector3D {
    Vector3D { x: Fx { raw: v.x as i64 }, y: Fx { raw: v.y as i64 }, z: Fx { raw: v.z as i64 } }
}

/// Bounds on the operands bound the cross product's components.
pub proof fn lemma_cross_bound(a: V3, b: V3, ma: int, mb: int)
    requires
        0 <= ma,
        0 <= mb,
        v3_bounded(a, ma),
        v3_bounded(b, mb),
    ensures
        v3_bounded(cross_s(a, b), 2 * ((ma * mb) / (SCALE as int))),
{
    lemma_mul_upper_bound(mag(a.x), ma, mag(b.y), mb);
    lemma_mul_upper_bound(mag(a.x), ma, mag(b.z), mb);
    lemma_mul_upper_bound(mag(a.y), ma, mag(b.x), mb);
    lemma_mul_upper_bound(mag(a.y), ma, mag(b.z), mb);
    lemma_mul_upper_bound(mag(a.z), ma, mag(b.x), mb);
    lemma_mul_upper_bound(mag(a.z), ma, mag(b.y), mb);
    lemma_fx_mul_bound(a.y, b.z, ma * mb);
    lemma_fx_mul_bound(a.z, b.y, ma * mb);
    lemma_fx_mul_bound(a.z, b.x, ma * mb);
    lemma_fx_mul_bound(a.x, b.z, ma * mb);
    lemma_fx_mul_bound(a.x, b.y, ma * mb);
    lemma_fx_mul_bound(a.y, b.x, ma * mb);
    lemma_mul_nonnegative(ma, mb);
    lemma_div_pos_is_pos(ma * mb, SCALE as int);
}

/// Rebuilding a vector from its raw view gives the vector back.
pub proof fn lemma_of_v3_roundtrip(v: Vector3D)
    ensures
        of_v3(v@) == v,
{
    assert(of_v3(v@).x == v.x);
    assert(of_v3(v@).y == v.y);
    assert(of_v3(v@).z == v.z);
}

/// Negation preserves the squared norm.
/// Scaling by the zero scalar yields the zero vector.
pub proof fn lemma_scale_zero(v: V3)
    ensures
        scale_s(0, v) == (V3 { x: 0int, y: 0int, z: 0int }),
{
    lemma_fx_mul_mag(0, v.x);
    lemma_fx_mul_mag(0, v.y);
    lemma_fx_mul_mag(0, v.z);
    vstd::arithmetic::mul::lemma_mul_by_zero_is_zero(mag(v.x));
    vstd::arithmetic::mul::lemma_mul_by_zero_is_zero(mag(v.y));
    vstd::arithmetic::mul::lemma_mul_by_zero_is_zero(mag(v.z));
    assert(0int / (SCALE as int) == 0int);
}

pub proof fn lemma_nsq_neg(v: V3)
    ensures
        nsq_s(neg_s(v)) == nsq_s(v),
{
    lemma_dot_neg(v, neg_s(v));
    lemma_dot_neg(v, v);
}

/// Componentwise scaling respects componentwise magnitude bounds.
pub proof fn lemma_mul_comp_bound(k: int, v: V3, mk: int, mv: int)
    requires
        0 <= mk,
        0 <= mv,
        -mk <= k <= mk,
        v3_bounded(v, mv),
    ensures
        v3_bounded(scale_s(k, v), (mk * mv) / (SCALE as int)),
{
    lemma_mul_upper_bound(mag(k), mk, mag(v.x), mv);
    lemma_mul_upper_bound(mag(k), mk, mag(v.y), mv);
    lemma_mul_upper_bound(mag(k), mk, mag(v.z), mv);
    lemma_mul_nonnegative(mag(k), mag(v.x));
    lemma_mul_nonnegative(mag(k), mag(v.y));
    lemma_mul_nonnegative(mag(k), mag(v.z));
    lemma_fx_mul_bound(k, v.x, mk * mv);
    lemma_fx_mul_bound(k, v.y, mk * mv);
    lemma_fx_mul_bound(k, v.z, mk * mv);
    vstd::arithmetic::div_mod::lemma_div_pos_is_pos(mk * mv, SCALE as int);
    lemma_mul_nonnegative(mk, mv);
}

/// Mirror reflection of `vec` about the unit normal `normal`:
/// `vec - 2 * dot(vec, normal) * normal`.
pub fn reflect(vec: &Vector3D, normal: &Vector3D) -> (r: Vector3D)
    requires
        v3_bounded(vec@, B_DIR as int),
        v3_bounded(normal@, B_DIR as int),
    ensures
        r@ == reflect_s(vec@, normal@),
        v3_bounded(r@, 0x200_0000),
{
    let d = vec.dot(normal);
    proof {
        lemma_dot_bound(vec@, normal@, B_DIR as int);
        lemma_mul_upper_bound(mag(d@ + d@), 0x60_0000, mag(normal@.x), B_DIR as int);
        lemma_mul_upper_bound(mag(d@ + d@), 0x60_0000, mag(normal@.y), B_DIR as int);
        lemma_mul_upper_bound(mag(d@ + d@), 0x60_0000, mag(normal@.z), B_DIR as int);
        lemma_fx_mul_bound(d@ + d@, normal@.x, 0x60_0000 * (B_DIR as int));
        lemma_fx_mul_bound(d@ + d@, normal@.y, 0x60_0000 * (B_DIR as int));
        lemma_fx_mul_bound(d@ + d@, normal@.z, 0x60_0000 * (B_DIR as int));
    }
    let d2 = d.add(d);
    vec.sub(&normal.scale(d2))
}

/// Reflect identity: a vector `(a, -a, 0)` meeting the y-axis unit normal
/// at forty-five degrees reflects exactly to `(a, a, 0)`, for every
/// magnitude `a` — no quantization error enters this family.
pub proof fn lemma_reflect_diagonal(a: int)
    ensures
        reflect_s(
            V3 { x: a, y: -a, z: 0 },
            V3 { x: 0, y: SCALE as int, z: 0 },
        ) == (V3 { x: a, y: a, z: 0 }),
{
    let v = V3 { x: a, y: -a, z: 0 };
    let n = V3 { x: 0, y: SCALE as int, z: 0 };
    crate::fixed::lemma_fx_mul_one(-a);
    assert(fx_mul(a, 0) == 0) by {
        lemma_fx_mul_mag(a, 0);
    }
    assert(fx_mul(0, 0) == 0) by {
        lemma_fx_mul_mag(0, 0);
        assert((0int * 0int) / (SCALE as int) == 0int);
    }
    assert(dot_s(v, n) == -a);
    let d2 = dot_s(v, n) + dot_s(v, n);
    crate::fixed::lemma_fx_mul_one(d2);
    crate::fixed::lemma_fx_mul_comm(d2, SCALE as int);
    assert(fx_mul(d2, 0) == 0) by {
        lemma_fx_mul_mag(d2, 0);
    }
}

/// Snell refraction of `v` at a surface with unit normal `n`, decomposed
/// into the components perpendicular and parallel to the normal.
pub open spec fn refract_s(v: V3, n: V3, ri: int) -> V3 {
    let s = SCALE as int;
    let d = dot_s(neg_s(v), n);
    let cos = if d <= s {
        d
    } else {
        s
    };
    let perp = scale_s(ri, add_s(v, scale_s(cos, n)));
    let para_len = fx_sqrt(mag(s - nsq_s(perp)));
    let para = scale_s(-para_len, n);
    add_s(perp, para)
}

/// Refract `vec` about the unit normal `normal` with the given relative
/// refraction index (Snell's law, perpendicular/parallel decomposition).
pub fn refract(vec: &Vector3D, normal: &Vector3D, refraction_index: Fx) -> (r: Vector3D)
    requires
        v3_bounded(vec@, B_DIR as int),
        v3_bounded(normal@, B_DIR as int),
        0 <= refraction_index@ <= 0x10_0000,
    ensures
        r@ == refract_s(vec@, normal@, refraction_index@),
        v3_bounded(r@, 0x2_0000_0000),
{
    let one = Fx { raw: SCALE };
    let nv = vec.neg();
    let d = nv.dot(normal);
    proof {
        lemma_dot_bound(nv@, normal@, B_DIR as int);
        assert(((B_DIR as int) * (B_DIR as int)) / (SCALE as int) == 0x10_0000int);
    }
    let cos = d.min(one);
    proof {
        lemma_mul_comp_bound(cos@, normal@, 0x30_0000, B_DIR as int);
        assert((0x30_0000int * (B_DIR as int)) / (SCALE as int) == 0xC0_0000int);
    }
    let cn = normal.scale(cos);
    let vpc = vec.add(&cn);
    proof {
        lemma_mul_comp_bound(refraction_index@, vpc@, 0x10_0000, 0x100_0000);
        assert((0x10_0000int * 0x100_0000int) / (SCALE as int) == 0x1000_0000int);
    }
    let perp = vpc.scale(refraction_index);
    proof {
        lemma_dot_bound(perp@, perp@, 0x1000_0000);
        assert((0x1000_0000int * 0x1000_0000int) / (SCALE as int) == 0x100_0000_0000int);
    }
    let np = perp.norm_squared();
    let om = one.sub(np);
    let pl = om.abs_val().sqrt();
    proof {
        assert(mag(om@) * (SCALE as int) < 0x4000_0000int * 0x4000_0000int) by (nonlinear_arith)
            requires
                mag(om@) <= 0x301_0000_0000,
        ;
        crate::fixed::lemma_fx_sqrt_upper(mag(om@), 0x4000_0000);
        lemma_mul_comp_bound(-pl@, normal@, 0x4000_0000, B_DIR as int);
        assert((0x4000_0000int * (B_DIR as int)) / (SCALE as int) == 0x1_0000_0000int);
    }
    let para = normal.scale(pl.neg());
    perp.add(&para)
}

/// Schlick's polynomial approximation of the angle-dependent reflectance of
/// a dielectric interface.
pub open spec fn shlick_s(cos: int, ri: int) -> int {
    let s = SCALE as int;
    let r0 = fx_div(s - ri, s + ri);
    let r0sq = fx_mul(r0, r0);
    let u = s - cos;
    let u5 = fx_mul(fx_mul(fx_mul(fx_mul(u, u), u), u), u);
    r0sq + fx_mul(s - r0sq, u5)
}

pub fn shlick_reflectance(cos_theta: Fx, refraction_index: Fx) -> (r: Fx)
    requires
        -0x40_0000 <= cos_theta@ <= SCALE as int,
        0 <= refraction_index@ <= 0x10_0000,
    ensures
        r@ == shlick_s(cos_theta@, refraction_index@),
{
    let ghost s = SCALE as int;
    let one = Fx { raw: SCALE };
    let num = one.sub(refraction_index);
    let den = one.add(refraction_index);
    let r0 = num.div(den);
    proof {
        crate::fixed::lemma_fx_div_le_one(num@, den@);
        lemma_mul_upper_bound(mag(r0@), s, mag(r0@), s);
        lemma_fx_mul_bound(r0@, r0@, s * s);
        lemma_div_multiples_vanish(s, s);
        lemma_fx_mul_mag(r0@, r0@);
        lemma_mul_nonnegative(mag(r0@), mag(r0@));
        lemma_div_pos_is_pos(mag(r0@) * mag(r0@), s);
    }
    let r0sq = r0.mul(r0);
    let u = one.sub(cos_theta);
    proof {
        lemma_pow_step(u@, u@, 0x50_0000, 0x50_0000);
    }
    let u2 = u.mul(u);
    proof {
        lemma_pow_step(u2@, u@, 0x1900_0000, 0x50_0000);
    }
    let u3 = u2.mul(u);
    proof {
        lemma_pow_step(u3@, u@, 0x7_d000_0000, 0x50_0000);
    }
    let u4 = u3.mul(u);
    proof {
        lemma_pow_step(u4@, u@, 0x271_0000_0000, 0x50_0000);
    }
    let u5 = u4.mul(u);
    let k = one.sub(r0sq);
    proof {
        lemma_pow_step(k@, u5@, SCALE as int, 0xc350_0000_0000);
    }
    let term = k.mul(u5);
    r0sq.add(term)
}

/// One step of a bounded product chain: operand bounds carry to the scaled
/// product, and the multiplication precondition holds.
pub proof fn lemma_pow_step(a: int, b: int, ma: int, mb: int)
    requires
        0 <= ma,
        0 <= mb,
        mag(a) <= ma,
        mag(b) <= mb,
    ensures
        mag(a) * mag(b) <= ma * mb,
        mag(fx_mul(a, b)) <= (ma * mb) / (SCALE as int),
{
    lemma_mul_upper_bound(mag(a), ma, mag(b), mb);
    lemma_fx_mul_bound(a, b, ma * mb);
}

} // verus!
