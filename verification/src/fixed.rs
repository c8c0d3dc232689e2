//! Fixed-point scalar arithmetic.
//!
//! A scalar is stored as a raw `i64` count of `1/SCALE` units.  All
//! operations are defined by sign-magnitude arithmetic: the magnitudes are
//! combined with truncating (Euclidean, nonnegative) division and the sign is
//! reattached afterwards, so that every operation is an exact mirror of its
//! spec-level counterpart and negation commutes with every product.

use vstd::arithmetic::div_mod::{
    lemma_div_is_ordered, lemma_div_multiples_vanish, lemma_div_nonincreasing,
};
use vstd::prelude::*;

verus! {

/// Number of raw units per 1.0: scalars carry 16 fractional bits.
pub const SCALE: i64 = 65536;

/// Raw value of one half.
pub const HALF_RAW: i64 = 32768;

/// Magnitude cap under which `Fx::mul` cannot overflow: the raw product of
/// the operands may not exceed 2^78, so the scaled result stays below 2^62.
pub open spec fn lim_prod() -> int {
    0x4000_0000_0000_0000_0000
}

/// Magnitude cap on the numerator of `Fx::div`: below 2^46 the rescaled
/// numerator stays below 2^62, so the quotient always fits in the raw type.
pub const LIM_DIV_NUM: i64 = 0x4000_0000_0000;

/// Magnitude of an integer.
pub open spec fn mag(x: int) -> int {
    if x < 0 {
        -x
    } else {
        x
    }
}

/// Fixed-point scalar: `raw` counts units of `1/SCALE`.
#[derive(Clone, Copy, Debug, PartialEq, Eq, Structural)]
pub struct Fx {
    pub raw: i64,
}

impl View for Fx {
    type V = int;

    open spec fn view(&self) -> int {
        self.raw as int
    }
}

/// Product of two raw scalars: magnitudes are multiplied, scaled down by
/// truncating division, and the sign of the real product is reattached.
pub open spec fn fx_mul(a: int, b: int) -> int {
    if (a < 0) != (b < 0) {
        -((mag(a) * mag(b)) / (SCALE as int))
    } else {
        (mag(a) * mag(b)) / (SCALE as int)
    }
}

/// Quotient of two raw scalars, scaled so that the result is again a raw
/// scalar; sign-magnitude with truncating division, unspecified for `b == 0`.
pub open spec fn fx_div(a: int, b: int) -> int {
    if (a < 0) != (b < 0) {
        -((mag(a) * (SCALE as int)) / mag(b))
    } else {
        (mag(a) * (SCALE as int)) / mag(b)
    }
}

/// Integer square root: the largest `r` with `r * r <= n`.
pub open spec fn isqrt(n: nat) -> nat
    decreases n,
{
    if n == 0 {
        0
    } else {
        let r = isqrt(n / 4);
        if (2 * r + 1) * (2 * r + 1) <= n {
            2 * r + 1
        } else {
            2 * r
        }
    }
}

/// Square root of a raw scalar, as a raw scalar: the scaled magnitude keeps
/// the square root of the represented value in the same units.
pub open spec fn fx_sqrt(a: int) -> int {
    isqrt((a * (SCALE as int)) as nat) as int
}

pub proof fn lemma_isqrt_correct(n: nat)
    ensures
        isqrt(n) * isqrt(n) <= n,
        n < (isqrt(n) + 1) * (isqrt(n) + 1),
    decreases n,
{
    if n == 0 {
        assert(isqrt(n) == 0);
        vstd::arithmetic::mul::lemma_mul_strictly_positive(
            (isqrt(n) + 1) as int,
            (isqrt(n) + 1) as int,
        );
    } else {
        reveal_with_fuel(isqrt, 2);
        lemma_isqrt_correct(n / 4);
        let r = isqrt(n / 4);
        assert(isqrt(n) == if (2 * r + 1) * (2 * r + 1) <= n {
            2 * r + 1
        } else {
            2 * r
        });
        assert(4 * (n / 4) <= n && n < 4 * (n / 4) + 4) by {
            vstd::arithmetic::div_mod::lemma_fundamental_div_mod(n as int, 4);
        }
        if (2 * r + 1) * (2 * r + 1) <= n {
            assert((2 * r + 1 + 1) * (2 * r + 1 + 1) == 4 * ((r + 1) * (r + 1))) by (
            nonlinear_arith);
            assert(n < 4 * ((r + 1) * (r + 1)));
        } else {
            assert((2 * r) * (2 * r) == 4 * (r * r)) by (nonlinear_arith);
            assert(4 * (r * r) <= n);
        }
    }
}

pub proof fn lemma_isqrt_unique(n: nat, r: nat)
    requires
        r * r <= n,
        n < (r + 1) * (r + 1),
    ensures
        r == isqrt(n),
{
    let s = isqrt(n);
    lemma_isqrt_correct(n);
    if r < s {
        assert((r + 1) * (r + 1) <= s * s) by (nonlinear_arith)
            requires
                r + 1 <= s,
        ;
    } else if s < r {
        assert((s + 1) * (s + 1) <= r * r) by (nonlinear_arith)
            requires
                s + 1 <= r,
        ;
    }
}

/// The magnitude of a product is the scaled product of the magnitudes.
pub proof fn lemma_fx_mul_mag(a: int, b: int)
    ensures
        mag(fx_mul(a, b)) == (mag(a) * mag(b)) / (SCALE as int),
        fx_mul(a, b) >= 0 <==> (a < 0) == (b < 0) || (mag(a) * mag(b)) / (SCALE as int) == 0,
{
    vstd::arithmetic::mul::lemma_mul_nonnegative(mag(a), mag(b));
    vstd::arithmetic::div_mod::lemma_div_pos_is_pos(mag(a) * mag(b), SCALE as int);
}

/// A bound on the operand magnitudes bounds the product.
pub proof fn lemma_fx_mul_bound(a: int, b: int, bound: int)
    requires
        mag(a) * mag(b) <= bound,
    ensures
        mag(fx_mul(a, b)) <= bound / (SCALE as int),
{
    lemma_fx_mul_mag(a, b);
    vstd::arithmetic::mul::lemma_mul_nonnegative(mag(a), mag(b));
    lemma_div_is_ordered(mag(a) * mag(b), bound, SCALE as int);
}

/// Negating either operand negates the product.
pub proof fn lemma_fx_mul_neg(a: int, b: int)
    ensures
        fx_mul(-a, b) == -fx_mul(a, b),
        fx_mul(a, -b) == -fx_mul(a, b),
{
    assert(mag(-a) == mag(a));
    assert(mag(-b) == mag(b));
    vstd::arithmetic::mul::lemma_mul_nonnegative(mag(a), mag(b));
    vstd::arithmetic::div_mod::lemma_div_pos_is_pos(mag(a) * mag(b), SCALE as int);
    if a == 0 || b == 0 {
        assert(mag(a) * mag(b) == 0) by (nonlinear_arith)
            requires
                mag(a) == 0 || mag(b) == 0,
        ;
        assert(0int / (SCALE as int) == 0);
    }
}

pub proof fn lemma_fx_mul_comm(a: int, b: int)
    ensures
        fx_mul(a, b) == fx_mul(b, a),
{
    vstd::arithmetic::mul::lemma_mul_is_commutative(mag(a), mag(b));
}

/// Multiplying by the unit scalar is the identity.
pub proof fn lemma_fx_mul_one(x: int)
    ensures
        fx_mul(SCALE as int, x) == x,
        fx_mul(x, SCALE as int) == x,
{
    lemma_div_multiples_vanish(mag(x), SCALE as int);
    lemma_fx_mul_comm(SCALE as int, x);
}

/// Both product forms of one half equal the sign-magnitude halving.
pub proof fn lemma_fx_half(y: int)
    ensures
        fx_mul(HALF_RAW as int, y) == fx_div(y, 2 * (SCALE as int)),
        mag(fx_mul(HALF_RAW as int, y)) == mag(y) / 2,
{
    assert(((HALF_RAW as int) * mag(y)) / (SCALE as int) == mag(y) / 2) by {
        vstd::arithmetic::div_mod::lemma_div_denominator(
            (HALF_RAW as int) * mag(y),
            HALF_RAW as int,
            2,
        );
        lemma_div_multiples_vanish(mag(y), HALF_RAW as int);
    }
    assert((mag(y) * (SCALE as int)) / (2 * (SCALE as int)) == mag(y) / 2) by {
        vstd::arithmetic::div_mod::lemma_div_denominator(mag(y) * (SCALE as int), SCALE as int, 2);
        vstd::arithmetic::mul::lemma_mul_is_commutative(mag(y), SCALE as int);
        lemma_div_multiples_vanish(mag(y), SCALE as int);
        vstd::arithmetic::mul::lemma_mul_is_commutative(2, SCALE as int);
    }
    vstd::arithmetic::div_mod::lemma_div_pos_is_pos(mag(y), 2);
}

/// The magnitude of a quotient is the rescaled quotient of the magnitudes.
pub proof fn lemma_fx_div_mag(a: int, b: int)
    requires
        b != 0,
    ensures
        mag(fx_div(a, b)) == (mag(a) * (SCALE as int)) / mag(b),
        fx_div(a, b) >= 0 <==> (a < 0) == (b < 0) || (mag(a) * (SCALE as int)) / mag(b) == 0,
{
    vstd::arithmetic::mul::lemma_mul_nonnegative(mag(a), SCALE as int);
    vstd::arithmetic::div_mod::lemma_div_pos_is_pos(mag(a) * (SCALE as int), mag(b));
}

/// A numerator no larger than the denominator gives a quotient no larger
/// than one.
pub proof fn lemma_fx_div_le_one(a: int, b: int)
    requires
        0 < b,
        mag(a) <= b,
    ensures
        mag(fx_div(a, b)) <= SCALE as int,
{
    lemma_fx_div_mag(a, b);
    lemma_div_is_ordered(mag(a) * (SCALE as int), b * (SCALE as int), b);
    lemma_div_multiples_vanish(SCALE as int, b);
}

/// Multiplying by the zero scalar gives zero.
pub proof fn lemma_fx_mul_zero(x: int)
    ensures
        fx_mul(0, x) == 0,
        fx_mul(x, 0) == 0,
{
    vstd::arithmetic::mul::lemma_mul_by_zero_is_zero(mag(x));
    assert(0int / (SCALE as int) == 0int);
}

/// Dividing by the unit scalar is the identity.
pub proof fn lemma_fx_div_unit(a: int)
    ensures
        fx_div(a, SCALE as int) == a,
{
    lemma_fx_div_mag(a, SCALE as int);
    vstd::arithmetic::mul::lemma_mul_is_commutative(mag(a), SCALE as int);
    lemma_div_multiples_vanish(mag(a), SCALE as int);
}

/// A scalar divided by itself is the unit, for a positive scalar.
pub proof fn lemma_fx_div_self(a: int)
    requires
        0 < a,
    ensures
        fx_div(a, a) == SCALE as int,
        fx_div(-a, a) == -(SCALE as int),
{
    lemma_fx_div_mag(a, a);
    lemma_fx_div_mag(-a, a);
    lemma_div_multiples_vanish(SCALE as int, a);
}

/// On the 1/256 grid the fixed-point square is exact: for `x` a
/// nonnegative multiple of 256, `x * x` is a multiple of the scale, the
/// scaled square holds it exactly, and its square root recovers `x`.
pub proof fn lemma_fx_square_grid(x: int)
    requires
        0 <= x,
        x % 256 == 0,
    ensures
        fx_mul(x, x) == (x / 256) * (x / 256),
        fx_mul(x, x) * (SCALE as int) == x * x,
        fx_sqrt(fx_mul(x, x)) == x,
        fx_mul(-x, -x) == fx_mul(x, x),
{
    let k = x / 256;
    vstd::arithmetic::div_mod::lemma_fundamental_div_mod(x, 256);
    assert(x == 256 * k);
    assert(x * x == 65536 * (k * k)) by (nonlinear_arith)
        requires
            x == 256 * k,
    ;
    vstd::arithmetic::mul::lemma_mul_nonnegative(x, x);
    lemma_div_multiples_vanish(k * k, 65536);
    assert(mag(x) * mag(x) == x * x);
    assert(fx_mul(x, x) == k * k);
    assert(k * k >= 0) by (nonlinear_arith)
        requires
            x == 256 * k,
            0 <= x,
    ;
    assert((k * k) * (SCALE as int) == x * x) by (nonlinear_arith)
        requires
            x == 256 * k,
    ;
    assert(x * x < (x + 1) * (x + 1)) by (nonlinear_arith)
        requires
            0 <= x,
    ;
    lemma_isqrt_unique((x * x) as nat, x as nat);
}

/// A divisor of at least one (in scalar units) cannot grow the magnitude.
pub proof fn lemma_fx_div_shrink(a: int, b: int)
    requires
        SCALE as int <= b,
    ensures
        mag(fx_div(a, b)) <= mag(a),
{
    lemma_fx_div_mag(a, b);
    vstd::arithmetic::mul::lemma_mul_nonnegative(mag(a), SCALE as int);
    vstd::arithmetic::div_mod::lemma_div_is_ordered_by_denominator(
        mag(a) * (SCALE as int),
        SCALE as int,
        b,
    );
    vstd::arithmetic::mul::lemma_mul_is_commutative(mag(a), SCALE as int);
    lemma_div_multiples_vanish(mag(a), SCALE as int);
}

/// Square-root upper bound: a strict bound on the scaled radicand bounds
/// the root.
pub proof fn lemma_fx_sqrt_upper(a: int, m: int)
    requires
        0 <= a,
        0 <= m,
        a * (SCALE as int) < m * m,
    ensures
        fx_sqrt(a) < m,
{
    let n = (a * (SCALE as int)) as nat;
    lemma_isqrt_correct(n);
    assert(isqrt(n) < m) by (nonlinear_arith)
        requires
            isqrt(n) * isqrt(n) <= n < m * m,
            0 <= m,
    ;
}

/// Square-root lower bound.
pub proof fn lemma_fx_sqrt_lower(a: int, m: int)
    requires
        0 <= m,
        m * m <= a * (SCALE as int),
    ensures
        fx_sqrt(a) >= m,
{
    let n = (a * (SCALE as int)) as nat;
    lemma_isqrt_correct(n);
    assert(isqrt(n) >= m) by (nonlinear_arith)
        requires
            n < (isqrt(n) + 1) * (isqrt(n) + 1),
            m * m <= n,
            0 <= m,
    ;
}

/// Division by a fixed positive scalar is monotone in the numerator.
pub proof fn lemma_fx_div_monotone(x: int, y: int, d: int)
    requires
        x <= y,
        0 < d,
    ensures
        fx_div(x, d) <= fx_div(y, d),
{
    let s = SCALE as int;
    lemma_fx_div_mag(x, d);
    lemma_fx_div_mag(y, d);
    if 0 <= x {
        assert(mag(x) * s <= mag(y) * s) by (nonlinear_arith)
            requires
                mag(x) <= mag(y),
                s > 0,
        ;
        lemma_div_is_ordered(mag(x) * s, mag(y) * s, d);
    } else if y < 0 {
        assert(mag(y) * s <= mag(x) * s) by (nonlinear_arith)
            requires
                mag(y) <= mag(x),
                s > 0,
        ;
        lemma_div_is_ordered(mag(y) * s, mag(x) * s, d);
    }
}

/// A product of scalars from `[0, 1]` stays in `[0, 1]` and under either
/// factor.
pub proof fn lemma_fx_mul_unit_interval(a: int, b: int)
    requires
        0 <= a <= SCALE as int,
        0 <= b <= SCALE as int,
    ensures
        0 <= fx_mul(a, b) <= b,
        fx_mul(a, b) <= a,
{
    lemma_fx_mul_mag(a, b);
    assert(a * b <= (SCALE as int) * b) by (nonlinear_arith)
        requires
            a <= SCALE as int,
            0 <= b,
    ;
    assert(a * b <= a * (SCALE as int)) by (nonlinear_arith)
        requires
            b <= SCALE as int,
            0 <= a,
    ;
    lemma_div_is_ordered(a * b, (SCALE as int) * b, SCALE as int);
    lemma_div_is_ordered(a * b, a * (SCALE as int), SCALE as int);
    vstd::arithmetic::mul::lemma_mul_is_commutative(SCALE as int, b);
    lemma_div_multiples_vanish(b, SCALE as int);
    lemma_div_multiples_vanish(a, SCALE as int);
    vstd::arithmetic::mul::lemma_mul_nonnegative(a, b);
    vstd::arithmetic::div_mod::lemma_div_pos_is_pos(a * b, SCALE as int);
}

impl Fx {
    /// Raw zero.
    pub fn zero() -> (r: Fx)
        ensures
            r@ == 0,
    {
        Fx { raw: 0 }
    }

    /// The scalar representing the integer `v`.
    pub fn from_int(v: i64) -> (r: Fx)
        requires
            -0x100_0000_0000 <= v <= 0x100_0000_0000,
        ensures
            r@ == v * (SCALE as int),
    {
        Fx { raw: v * SCALE }
    }

    /// The scalar closest to `n / d` from below in magnitude.
    pub fn from_ratio(n: i64, d: i64) -> (r: Fx)
        requires
            0 < d <= 0x100_0000_0000,
            -0x4000_0000 <= n <= 0x4000_0000,
        ensures
            r@ == fx_div(n * (SCALE as int), d * (SCALE as int)),
            mag(r@) <= mag(n as int) * (SCALE as int),
            0 <= n ==> 0 <= r@,
            n <= 0 ==> r@ <= 0,
            0 < n && d <= n * (SCALE as int) ==> 1 <= r@,
    {
        proof {
            let s = SCALE as int;
            lemma_fx_div_mag(n * s, d * s);
            assert(mag(n * s) == mag(n as int) * s);
            assert(s <= d * s);
            lemma_fx_div_shrink(n * s, d * s);
            vstd::arithmetic::mul::lemma_mul_nonnegative(mag(n * s), s);
            vstd::arithmetic::div_mod::lemma_div_pos_is_pos(mag(n * s) * s, d * s);
            if 0 < n && d <= n * s {
                assert(d * s <= mag(n * s) * s);
                vstd::arithmetic::div_mod::lemma_div_non_zero(mag(n * s) * s, d * s);
            }
        }
        Fx::from_int(n).div(Fx::from_int(d))
    }

    pub fn add(self, other: Fx) -> (r: Fx)
        requires
            i64::MIN <= self@ + other@ <= i64::MAX,
        ensures
            r@ == self@ + other@,
    {
        Fx { raw: self.raw + other.raw }
    }

    pub fn sub(self, other: Fx) -> (r: Fx)
        requires
            i64::MIN <= self@ - other@ <= i64::MAX,
        ensures
            r@ == self@ - other@,
    {
        Fx { raw: self.raw - other.raw }
    }

    pub fn neg(self) -> (r: Fx)
        requires
            self@ != i64::MIN,
        ensures
            r@ == -self@,
    {
        Fx { raw: -self.raw }
    }

    pub fn abs_val(self) -> (r: Fx)
        requires
            self@ != i64::MIN,
        ensures
            r@ == mag(self@),
    {
        if self.raw < 0 {
            Fx { raw: -self.raw }
        } else {
            self
        }
    }

    pub fn min(self, other: Fx) -> (r: Fx)
        ensures
            r@ == if self@ <= other@ { self@ } else { other@ },
    {
        if self.raw <= other.raw {
            self
        } else {
            other
        }
    }

    pub fn max(self, other: Fx) -> (r: Fx)
        ensures
            r@ == if self@ >= other@ { self@ } else { other@ },
    {
        if self.raw >= other.raw {
            self
        } else {
            other
        }
    }

    /// Clamp into `[lo, hi]`.
    pub fn clamp(self, lo: Fx, hi: Fx) -> (r: Fx)
        requires
            lo@ <= hi@,
        ensures
            r@ == if self@ < lo@ { lo@ } else if self@ > hi@ { hi@ } else { self@ },
    {
        if self.raw < lo.raw {
            lo
        } else if self.raw > hi.raw {
            hi
        } else {
            self
        }
    }

    /// Fixed-point product.
    pub fn mul(self, other: Fx) -> (r: Fx)
        requires
            mag(self@) * mag(other@) <= lim_prod(),
        ensures
            r@ == fx_mul(self@, other@),
    {
        let neg = (self.raw < 0) != (other.raw < 0);
        let ma: u64 = if self.raw < 0 {
            (-(self.raw as i128)) as u64
        } else {
            self.raw as u64
        };
        let mb: u64 = if other.raw < 0 {
            (-(other.raw as i128)) as u64
        } else {
            other.raw as u64
        };
        proof {
            assert(ma as int == mag(self@));
            assert(mb as int == mag(other@));
        }
        let p: u128 = (ma as u128) * (mb as u128);
        let q: u128 = p / (SCALE as u128);
        proof {
            lemma_div_is_ordered(p as int, lim_prod(), SCALE as int);
        }
        let rq = q as i64;
        proof {
            lemma_fx_mul_mag(self@, other@);
        }
        if neg {
            Fx { raw: -rq }
        } else {
            Fx { raw: rq }
        }
    }

    /// Fixed-point quotient.
    pub fn div(self, other: Fx) -> (r: Fx)
        requires
            other@ != 0,
            -(LIM_DIV_NUM as int) <= self@ <= LIM_DIV_NUM as int,
        ensures
            r@ == fx_div(self@, other@),
    {
        let neg = (self.raw < 0) != (other.raw < 0);
        let ma: u64 = if self.raw < 0 {
            (-self.raw) as u64
        } else {
            self.raw as u64
        };
        let mb: u64 = if other.raw < 0 {
            (-(other.raw as i128)) as u64
        } else {
            other.raw as u64
        };
        let p: u128 = (ma as u128) * (SCALE as u128);
        let q: u128 = p / (mb as u128);
        proof {
            assert(ma as int == mag(self@));
            assert(mb as int == mag(other@));
            lemma_div_nonincreasing(p as int, mb as int);
        }
        let rq = q as i64;
        if neg {
            Fx { raw: -rq }
        } else {
            Fx { raw: rq }
        }
    }

    /// Fixed-point square root (of a nonnegative scalar).
    pub fn sqrt(self) -> (r: Fx)
        requires
            self@ >= 0,
        ensures
            r@ == fx_sqrt(self@),
            0 <= r@ < 0x100_0000_0000,
    {
        let n: u128 = (self.raw as u128) * (SCALE as u128);
        let mut lo: u128 = 0;
        let mut hi: u128 = 0x100_0000_0000;
        proof {
            assert((n as int) < 0x100_0000_0000 * 0x100_0000_0000) by (nonlinear_arith)
                requires
                    n as int == self@ * (SCALE as int),
                    self@ <= i64::MAX as int,
            ;
        }
        while lo + 1 < hi
            invariant
                lo < hi <= 0x100_0000_0000,
                (lo as int) * (lo as int) <= n as int,
                (n as int) < (hi as int) * (hi as int),
            decreases hi - lo,
        {
            let mid = lo + (hi - lo) / 2;
            proof {
                vstd::arithmetic::mul::lemma_mul_upper_bound(
                    mid as int,
                    0x100_0000_0000,
                    mid as int,
                    0x100_0000_0000,
                );
            }
            if mid * mid <= n {
                lo = mid;
            } else {
                hi = mid;
            }
        }
        proof {
            lemma_isqrt_unique(n as nat, lo as nat);
        }
        Fx { raw: lo as i64 }
    }
}

} // verus!
