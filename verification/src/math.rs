//! Two-dimensional vectors over fixed-point components.
//!
//! Sums, differences, dot and cross products are exact. `dot`, `cross` and
//! `len_squared` return products of raw values, which count in units of
//! `1 / (ONE * ONE)`; they are wide enough never to round. `scale`, `rotate`
//! and `normalize` return vectors of raw values and round each component
//! toward zero.

use crate::fixed::{
    abs, cos_fx, div_trunc, fx_cos, fx_mul, fx_sin, is_sqrt, isqrt, lemma_mul_abs_le,
    lemma_mul_fx_le,
    lemma_sqrt_exists, lemma_sqrt_le, lemma_trunc_div_le, mul_fx, rem_floor, sin_fx, sqrt_floor,
    trunc_div, ONE,
};
use vstd::prelude::*;

verus! {

/// Largest magnitude of a component for which products of two vectors are
/// exact and lengths and rotations are raw values: two to the power 61.
pub const COMPONENT_MAX: i64 = 0x2000_0000_0000_0000;

/// A vector, or a point, of the plane.
#[derive(Clone, Copy, Debug, PartialEq, Eq, Structural)]
pub struct Vec2D {
    pub x: i64,
    pub y: i64,
}

impl core::ops::Add for Vec2D {
    type Output = Vec2D;

    fn add(self, other: Vec2D) -> (sum: Vec2D) {
        Vec2D { x: self.x + other.x, y: self.y + other.y }
    }
}

impl vstd::std_specs::ops::AddSpecImpl for Vec2D {
    open spec fn obeys_add_spec() -> bool {
        true
    }

    open spec fn add_req(self, other: Vec2D) -> bool {
        self.can_add(other)
    }

    open spec fn add_spec(self, other: Vec2D) -> Vec2D {
        self.plus(other)
    }
}

impl core::ops::Sub for Vec2D {
    type Output = Vec2D;

    fn sub(self, other: Vec2D) -> (difference: Vec2D) {
        Vec2D { x: self.x - other.x, y: self.y - other.y }
    }
}

impl vstd::std_specs::ops::SubSpecImpl for Vec2D {
    open spec fn obeys_sub_spec() -> bool {
        true
    }

    open spec fn sub_req(self, other: Vec2D) -> bool {
        self.can_sub(other)
    }

    open spec fn sub_spec(self, other: Vec2D) -> Vec2D {
        self.minus(other)
    }
}

impl Vec2D {
    /// Both components are at most `m` in magnitude.
    pub open spec fn within(self, m: int) -> bool {
        -m <= self.x <= m && -m <= self.y <= m
    }

    /// The component-wise sum is a vector of raw values.
    pub open spec fn can_add(self, other: Vec2D) -> bool {
        &&& i64::MIN <= self.x + other.x <= i64::MAX
        &&& i64::MIN <= self.y + other.y <= i64::MAX
    }

    /// The component-wise difference is a vector of raw values.
    pub open spec fn can_sub(self, other: Vec2D) -> bool {
        &&& i64::MIN <= self.x - other.x <= i64::MAX
        &&& i64::MIN <= self.y - other.y <= i64::MAX
    }

    /// Component-wise sum.
    pub open spec fn plus(self, other: Vec2D) -> Vec2D {
        Vec2D { x: (self.x + other.x) as i64, y: (self.y + other.y) as i64 }
    }

    /// Component-wise difference.
    pub open spec fn minus(self, other: Vec2D) -> Vec2D {
        Vec2D { x: (self.x - other.x) as i64, y: (self.y - other.y) as i64 }
    }

    /// Dot product of the raw components.
    pub open spec fn spec_dot(self, other: Vec2D) -> int {
        self.x * other.x + self.y * other.y
    }

    /// Third component of the cross product of the raw components.
    pub open spec fn spec_cross(self, other: Vec2D) -> int {
        self.x * other.y - self.y * other.x
    }

    /// Squared length of the raw components.
    pub open spec fn spec_len_squared(self) -> int {
        self.x * self.x + self.y * self.y
    }

    /// Length as a raw value: the integer square root of the squared length.
    pub open spec fn spec_len(self) -> int {
        sqrt_floor(self.spec_len_squared())
    }

    /// Each component multiplied by `factor` as a fixed-point number.
    pub open spec fn spec_scale(self, factor: int) -> Vec2D {
        Vec2D { x: mul_fx(self.x as int, factor) as i64, y: mul_fx(self.y as int, factor) as i64 }
    }

    /// The vector turned by `angle` raw radians.
    pub open spec fn spec_rotate(self, angle: int) -> Vec2D {
        Vec2D {
            x: (mul_fx(self.x as int, cos_fx(angle)) - mul_fx(self.y as int, sin_fx(angle))) as i64,
            y: (mul_fx(self.y as int, cos_fx(angle)) + mul_fx(self.x as int, sin_fx(angle))) as i64,
        }
    }

    /// The factor by which `normalize` scales the vector before it divides
    /// it by its length: `ONE * ONE` for a vector shorter than two to the
    /// power 32 raw units, whose length is then taken with sixteen more
    /// binary places, and `ONE` for a longer one.
    pub open spec fn unit_scale(self) -> int {
        if self.spec_len_squared() < 0x1_0000_0000_0000_0000 {
            0x1_0000_0000
        } else {
            0x1_0000
        }
    }

    /// The length that `normalize` divides by: the integer square root of
    /// the squared length of the scaled vector, in units of `1 / ONE`.
    pub open spec fn unit_length(self) -> int {
        if self.spec_len_squared() < 0x1_0000_0000_0000_0000 {
            sqrt_floor(self.spec_len_squared() * 0x1_0000_0000)
        } else {
            sqrt_floor(self.spec_len_squared())
        }
    }

    /// The vector of length one in the same direction, where there is one:
    /// each component times `ONE`, divided by the length.
    pub open spec fn spec_normalize(self) -> Option<Vec2D> {
        if self.x == 0 && self.y == 0 {
            None
        } else {
            Some(
                Vec2D {
                    x: trunc_div(self.x * self.unit_scale(), self.unit_length()) as i64,
                    y: trunc_div(self.y * self.unit_scale(), self.unit_length()) as i64,
                },
            )
        }
    }

    /// The length of this vector differs from one by less than four raw
    /// units.
    pub open spec fn is_unit(self) -> bool {
        (ONE - 3) * (ONE - 3) <= self.spec_len_squared() < (ONE + 1) * (ONE + 1)
    }

    /// Each component reduced to its non-negative remainder by the matching
    /// component of `modulus`.
    pub open spec fn spec_rem_euclid(self, modulus: Vec2D) -> Vec2D {
        Vec2D { x: (self.x % modulus.x) as i64, y: (self.y % modulus.y) as i64 }
    }

    /// The squared length is never negative, and bounded by the components.
    pub proof fn lemma_len_squared_bounds(self, m: int)
        requires
            self.within(m),
        ensures
            0 <= self.spec_len_squared() <= 2 * (m * m),
    {
        lemma_mul_abs_le(self.x as int, self.x as int, m, m);
        lemma_mul_abs_le(self.y as int, self.y as int, m, m);
        assert(self.x * self.x >= 0) by (nonlinear_arith);
        assert(self.y * self.y >= 0) by (nonlinear_arith);
    }

    /// Dot and cross products are bounded by the components.
    pub proof fn lemma_product_bounds(self, other: Vec2D, m: int, n: int)
        requires
            self.within(m),
            other.within(n),
        ensures
            -2 * (m * n) <= self.spec_dot(other) <= 2 * (m * n),
            -2 * (m * n) <= self.spec_cross(other) <= 2 * (m * n),
    {
        lemma_mul_abs_le(self.x as int, other.x as int, m, n);
        lemma_mul_abs_le(self.y as int, other.y as int, m, n);
        lemma_mul_abs_le(self.x as int, other.y as int, m, n);
        lemma_mul_abs_le(self.y as int, other.x as int, m, n);
    }

    /// The length is zero only for the zero vector, is at least the magnitude
    /// of each component, and at most twice the larger one.
    pub proof fn lemma_len_bounds(self, m: int)
        requires
            self.within(m),
        ensures
            is_sqrt(self.spec_len_squared(), self.spec_len()),
            self.spec_len() == 0 <==> (self.x == 0 && self.y == 0),
            self.x <= self.spec_len() && -self.x <= self.spec_len(),
            self.y <= self.spec_len() && -self.y <= self.spec_len(),
            self.spec_len() <= 2 * m,
    {
        self.lemma_len_squared_bounds(m);
        let n = self.spec_len_squared();
        let r = sqrt_floor(n);
        lemma_sqrt_exists(n);
        let x = self.x as int;
        let y = self.y as int;
        assert(n == x * x + y * y);
        assert(x * x >= 0 && y * y >= 0) by (nonlinear_arith);
        if r == 0 {
            assert((r + 1) * (r + 1) == 1) by (nonlinear_arith)
                requires
                    r == 0,
            ;
            assert(x == 0) by (nonlinear_arith)
                requires
                    x * x <= 0,
            ;
            assert(y == 0) by (nonlinear_arith)
                requires
                    y * y <= 0,
            ;
        }
        if x == 0 && y == 0 {
            assert(x * x == 0 && y * y == 0) by (nonlinear_arith)
                requires
                    x == 0,
                    y == 0,
            ;
            assert(r == 0) by (nonlinear_arith)
                requires
                    r * r <= 0,
                    0 <= r,
            ;
        }
        assert(x <= r && -x <= r) by (nonlinear_arith)
            requires
                x * x <= n,
                n < (r + 1) * (r + 1),
                0 <= r,
        ;
        assert(y <= r && -y <= r) by (nonlinear_arith)
            requires
                y * y <= n,
                n < (r + 1) * (r + 1),
                0 <= r,
        ;
        assert(n <= (2 * m) * (2 * m)) by (nonlinear_arith)
            requires
                n <= 2 * (m * m),
                0 <= m * m,
        ;
        assert(m >= 0);
        lemma_sqrt_le(n, r, 2 * m);
    }

    /// Turning keeps the length within a hundredth. Before its components
    /// are divided by `ONE` and rounded, the turned vector has the squared
    /// length of this vector times the sum of the squares of the sine and of
    /// the cosine, which is `ONE * ONE` within a hundredth; the rounding
    /// moves each of the two products of a component by less than one raw
    /// unit.
    pub proof fn lemma_rotate_length(self, angle: int)
        ensures
            ({
                let c = cos_fx(angle);
                let s = sin_fx(angle);
                let x = self.x * c - self.y * s;
                let y = self.y * c + self.x * s;
                &&& x * x + y * y == self.spec_len_squared() * (c * c + s * s)
                &&& 198 * (ONE * ONE) * self.spec_len_squared() <= 200 * (x * x + y * y)
                &&& 200 * (x * x + y * y) <= 201 * (ONE * ONE) * self.spec_len_squared()
            }),
    {
        let c = cos_fx(angle);
        let s = sin_fx(angle);
        let x = self.x * c - self.y * s;
        let y = self.y * c + self.x * s;
        let squared = self.spec_len_squared();
        let unit = c * c + s * s;
        crate::nearest::lemma_dot_cross(c, -s, self.x as int, self.y as int);
        assert(c * self.x + (-s) * self.y == x && c * self.y - (-s) * self.x == y)
            by (nonlinear_arith)
            requires
                x == self.x * c - self.y * s,
                y == self.y * c + self.x * s,
        ;
        assert((-s) * (-s) == s * s) by (nonlinear_arith);
        assert(x * x + y * y == unit * squared);
        crate::fixed::lemma_sin_cos_unit(angle);
        assert(squared >= 0) by (nonlinear_arith)
            requires
                squared == self.x * self.x + self.y * self.y,
        ;
        let oo = ONE * ONE;
        assert(198 * oo * squared <= 200 * (unit * squared) && 200 * (unit * squared) <= 201 * oo
            * squared) by (nonlinear_arith)
            requires
                198 * oo <= 200 * unit <= 201 * oo,
                squared >= 0,
        ;
        assert(unit * squared == squared * unit) by (nonlinear_arith);
    }

    /// Turning by no angle, or by a full turn, changes nothing.
    pub proof fn lemma_rotate_none(self)
        ensures
            self.spec_rotate(0) == self,
            self.spec_rotate(crate::fixed::TAU as int) == self,
    {
        crate::fixed::lemma_quarter_turns();
        crate::fixed::lemma_sin_periodic(0);
        lemma_mul_one(self.x as int);
        lemma_mul_one(self.y as int);
    }

    /// A quarter turn swaps the components and negates the first.
    pub proof fn lemma_rotate_quarter(self)
        requires
            self.within(COMPONENT_MAX as int),
        ensures
            self.spec_rotate(crate::fixed::HALF_PI as int) == (Vec2D {
                x: (-self.y) as i64,
                y: self.x,
            }),
    {
        crate::fixed::lemma_quarter_turns();
        lemma_mul_one(self.x as int);
        lemma_mul_one(self.y as int);
    }

    /// The zero vector.
    pub fn zero() -> (v: Vec2D)
        ensures
            v == (Vec2D { x: 0, y: 0 }),
    {
        Vec2D { x: 0, y: 0 }
    }

    /// The vector of length one along the first axis.
    pub fn one() -> (v: Vec2D)
        ensures
            v == (Vec2D { x: ONE, y: 0 }),
    {
        Vec2D { x: ONE, y: 0 }
    }

    /// Adds `other` to this vector in place.
    pub fn add_assign(&mut self, other: Vec2D)
        requires
            old(self).can_add(other),
        ensures
            *final(self) == old(self).plus(other),
    {
        self.x = self.x + other.x;
        self.y = self.y + other.y;
    }

    /// Subtracts `other` from this vector in place.
    pub fn sub_assign(&mut self, other: Vec2D)
        requires
            old(self).can_sub(other),
        ensures
            *final(self) == old(self).minus(other),
    {
        self.x = self.x - other.x;
        self.y = self.y - other.y;
    }

    /// Exact dot product, in squared raw units.
    pub fn dot(self, other: Vec2D) -> (d: i128)
        requires
            self.within(COMPONENT_MAX as int),
            other.within(COMPONENT_MAX as int),
        ensures
            d == self.spec_dot(other),
    {
        proof {
            lemma_mul_abs_le(self.x as int, other.x as int, 0x2000_0000_0000_0000, 0x2000_0000_0000_0000);
            lemma_mul_abs_le(self.y as int, other.y as int, 0x2000_0000_0000_0000, 0x2000_0000_0000_0000);
        }
        let a: i128 = (self.x as i128) * (other.x as i128);
        let b: i128 = (self.y as i128) * (other.y as i128);
        a + b
    }

    /// Exact squared length, in squared raw units.
    pub fn len_squared(self) -> (d: i128)
        requires
            self.within(COMPONENT_MAX as int),
        ensures
            d == self.spec_len_squared(),
            d >= 0,
    {
        proof {
            self.lemma_len_squared_bounds(COMPONENT_MAX as int);
        }
        self.dot(self)
    }

    /// Length as a raw value, rounded down.
    pub fn len(self) -> (l: i64)
        requires
            self.within(COMPONENT_MAX as int),
        ensures
            l == self.spec_len(),
            is_sqrt(self.spec_len_squared(), l as int),
    {
        proof {
            self.lemma_len_bounds(COMPONENT_MAX as int);
            self.lemma_len_squared_bounds(COMPONENT_MAX as int);
        }
        let squared: i128 = self.len_squared();
        let root: u64 = isqrt(squared as u128);
        assert(root <= i64::MAX) by {
            lemma_sqrt_le(squared as int, root as int, 0x7fff_ffff_ffff_ffff);
        }
        root as i64
    }

    /// Third component of the cross product, in squared raw units.
    pub fn cross(self, other: Vec2D) -> (d: i128)
        requires
            self.within(COMPONENT_MAX as int),
            other.within(COMPONENT_MAX as int),
        ensures
            d == self.spec_cross(other),
    {
        proof {
            lemma_mul_abs_le(self.x as int, other.y as int, 0x2000_0000_0000_0000, 0x2000_0000_0000_0000);
            lemma_mul_abs_le(self.y as int, other.x as int, 0x2000_0000_0000_0000, 0x2000_0000_0000_0000);
        }
        let a: i128 = (self.x as i128) * (other.y as i128);
        let b: i128 = (self.y as i128) * (other.x as i128);
        a - b
    }

    /// The vector of length one in this direction, or nothing for the zero
    /// vector, which has no direction. The length of the result differs from
    /// one by less than four raw units, and its components have the signs
    /// of the components of this vector.
    pub fn normalize(&self) -> (unit: Option<Vec2D>)
        requires
            self.within(COMPONENT_MAX as int),
        ensures
            unit == self.spec_normalize(),
            unit is None <==> (self.x == 0 && self.y == 0),
            unit matches Some(u) ==> u.is_unit() && u.within(ONE as int),
            unit matches Some(u) ==> (self.x >= 0 ==> u.x >= 0) && (self.x <= 0 ==> u.x <= 0),
            unit matches Some(u) ==> (self.y >= 0 ==> u.y >= 0) && (self.y <= 0 ==> u.y <= 0),
    {
        if self.x == 0 && self.y == 0 {
            return None;
        }
        proof {
            self.lemma_len_squared_bounds(COMPONENT_MAX as int);
            self.lemma_len_bounds(COMPONENT_MAX as int);
        }
        let squared: i128 = self.len_squared();
        let scale: i128 = if squared < 0x1_0000_0000_0000_0000 {
            0x1_0000_0000
        } else {
            0x1_0000
        };
        let length: i128 = if squared < 0x1_0000_0000_0000_0000 {
            isqrt((squared as u128) * 0x1_0000_0000) as i128
        } else {
            isqrt(squared as u128) as i128
        };
        proof {
            lemma_sqrt_exists(squared as int);
            lemma_unit(self.x as int, self.y as int, scale as int, length as int);
            let x = self.x as int;
            let y = self.y as int;
            if squared < 0x1_0000_0000_0000_0000 {
                assert(x * x >= 0 && y * y >= 0) by (nonlinear_arith);
                assert(-0x1_0000_0000 < x < 0x1_0000_0000) by (nonlinear_arith)
                    requires
                        x * x < 0x1_0000_0000_0000_0000,
                ;
                assert(-0x1_0000_0000 < y < 0x1_0000_0000) by (nonlinear_arith)
                    requires
                        y * y < 0x1_0000_0000_0000_0000,
                ;
            }
            crate::fixed::lemma_trunc_div_bounds(x * scale, length as int);
            crate::fixed::lemma_trunc_div_bounds(y * scale, length as int);
        }
        let x: i128 = div_trunc((self.x as i128) * scale, length);
        let y: i128 = div_trunc((self.y as i128) * scale, length);
        Some(Vec2D { x: x as i64, y: y as i64 })
    }

    /// The vector turned by `angle` raw radians, by the rotation matrix of the
    /// fixed-point sine and cosine. `lemma_rotate_length` says how well the
    /// length is kept.
    pub fn rotate(&self, angle: i64) -> (turned: Vec2D)
        requires
            self.within(COMPONENT_MAX as int),
        ensures
            turned == self.spec_rotate(angle as int),
    {
        let sin: i64 = fx_sin(angle);
        let cos: i64 = fx_cos(angle);
        proof {
            lemma_mul_fx_le(self.x as int, cos as int, 0x2000_0000_0000_0000, 65536);
            lemma_mul_fx_le(self.y as int, sin as int, 0x2000_0000_0000_0000, 65536);
            lemma_mul_fx_le(self.y as int, cos as int, 0x2000_0000_0000_0000, 65536);
            lemma_mul_fx_le(self.x as int, sin as int, 0x2000_0000_0000_0000, 65536);
        }
        Vec2D {
            x: fx_mul(self.x, cos) - fx_mul(self.y, sin),
            y: fx_mul(self.y, cos) + fx_mul(self.x, sin),
        }
    }

    /// The vector multiplied by the fixed-point number `factor`.
    pub fn scale(&self, factor: i64) -> (scaled: Vec2D)
        requires
            i64::MIN <= mul_fx(self.x as int, factor as int) <= i64::MAX,
            i64::MIN <= mul_fx(self.y as int, factor as int) <= i64::MAX,
        ensures
            scaled == self.spec_scale(factor as int),
    {
        Vec2D { x: fx_mul(self.x, factor), y: fx_mul(self.y, factor) }
    }

    /// Wraps the vector into the box spanned by `modulus`: each component
    /// becomes its non-negative remainder.
    pub fn rem_euclid_assign(&mut self, modulus: &Vec2D)
        requires
            modulus.x > 0,
            modulus.y > 0,
        ensures
            *final(self) == old(self).spec_rem_euclid(*modulus),
            0 <= final(self).x < modulus.x,
            0 <= final(self).y < modulus.y,
    {
        self.x = rem_floor(self.x, modulus.x);
        self.y = rem_floor(self.y, modulus.y);
    }
}

/// A vector scaled by `k` and divided by a length `m` that is the integer
/// square root of its squared length in units of `k / ONE` is a unit vector:
/// its length differs from one by less than four raw units.
///
/// `k` is `ONE` or `ONE * ONE`; `m` is the integer square root of `(x * x +
/// y * y) * k * k / (ONE * ONE)`, and the vector is not zero.
pub proof fn lemma_unit(x: int, y: int, k: int, m: int)
    requires
        k == 0x1_0000 || k == 0x1_0000_0000,
        is_sqrt((x * x + y * y) * (k * k / 0x1_0000_0000), m),
        x != 0 || y != 0,
        k == 0x1_0000 ==> x * x + y * y >= 0x1_0000_0000,
    ensures
        m >= ONE,
        ({
            let p = trunc_div(x * k, m);
            let q = trunc_div(y * k, m);
            &&& (ONE - 3) * (ONE - 3) <= p * p + q * q < (ONE + 1) * (ONE + 1)
            &&& -ONE <= p <= ONE
            &&& -ONE <= q <= ONE
        }),
        (x >= 0 ==> x * k >= 0) && (x <= 0 ==> x * k <= 0),
        (y >= 0 ==> y * k >= 0) && (y <= 0 ==> y * k <= 0),
{
    let one = 0x1_0000int;
    let squared = x * x + y * y;
    let f = k * k / 0x1_0000_0000;
    assert(f == 1 || f == 0x1_0000_0000) by {
        if k == 0x1_0000 {
            assert(k * k == 0x1_0000_0000) by (nonlinear_arith)
                requires
                    k == 0x1_0000,
            ;
        } else {
            assert(k * k == 0x1_0000_0000_0000_0000) by (nonlinear_arith)
                requires
                    k == 0x1_0000_0000,
            ;
        }
    }
    let n = squared * f;
    assert(squared >= 1) by (nonlinear_arith)
        requires
            squared == x * x + y * y,
            x != 0 || y != 0,
    ;
    assert(n >= 0x1_0000_0000) by (nonlinear_arith)
        requires
            n == squared * f,
            (f == 1 && squared >= 0x1_0000_0000) || (f == 0x1_0000_0000 && squared >= 1),
    ;
    // the length is at least one
    if m < one {
        assert((m + 1) * (m + 1) <= one * one) by (nonlinear_arith)
            requires
                0 <= m,
                m + 1 <= one,
        ;
        assert(one * one == 0x1_0000_0000) by (nonlinear_arith)
            requires
                one == 0x1_0000,
        ;
        assert(false);
    }
    let xk = x * k;
    let yk = y * k;
    let total = xk * xk + yk * yk;
    // total == n * one * one
    assert(xk * xk == (x * x) * (k * k)) by (nonlinear_arith)
        requires
            xk == x * k,
    ;
    assert(yk * yk == (y * y) * (k * k)) by (nonlinear_arith)
        requires
            yk == y * k,
    ;
    let kk = k * k;
    assert(kk == f * 0x1_0000_0000);
    assert(total == squared * kk) by (nonlinear_arith)
        requires
            total == (x * x) * kk + (y * y) * kk,
            squared == x * x + y * y,
    ;
    assert(total == n * 0x1_0000_0000) by (nonlinear_arith)
        requires
            total == squared * kk,
            kk == f * 0x1_0000_0000,
            n == squared * f,
    ;
    let mm = m * m;
    let m1 = (m + 1) * (m + 1);
    assert(mm * 0x1_0000_0000 <= total < m1 * 0x1_0000_0000);
    let p = trunc_div(xk, m);
    let q = trunc_div(yk, m);
    let pa = abs(p);
    let qa = abs(q);
    let a = abs(xk);
    let b = abs(yk);
    crate::fixed::lemma_trunc_div_bounds(xk, m);
    crate::fixed::lemma_trunc_div_bounds(yk, m);
    assert(xk * xk == a * a && yk * yk == b * b && p * p == pa * pa && q * q == qa * qa)
        by (nonlinear_arith)
        requires
            a == abs(xk),
            b == abs(yk),
            pa == abs(p),
            qa == abs(q),
    ;
    // from above
    let pm = pa * m;
    let qm = qa * m;
    assert(pm * pm <= a * a && qm * qm <= b * b) by (nonlinear_arith)
        requires
            0 <= pm <= a,
            0 <= qm <= b,
    ;
    assert(pm * pm == (pa * pa) * mm && qm * qm == (qa * qa) * mm) by (nonlinear_arith)
        requires
            pm == pa * m,
            qm == qa * m,
            mm == m * m,
    ;
    let s = pa * pa + qa * qa;
    assert(s * mm == (pa * pa) * mm + (qa * qa) * mm) by (nonlinear_arith)
        requires
            s == pa * pa + qa * qa,
    ;
    assert(s * mm < m1 * 0x1_0000_0000);
    let top = (one + 1) * (one + 1);
    assert(m1 * 0x1_0000_0000 <= mm * top) by (nonlinear_arith)
        requires
            m1 == (m + 1) * (m + 1),
            mm == m * m,
            top == (one + 1) * (one + 1),
            one == 0x1_0000,
            m >= one,
    {
        assert((m + 1) * one <= m * (one + 1));
        assert(((m + 1) * one) * ((m + 1) * one) <= (m * (one + 1)) * (m * (one + 1)));
        assert(((m + 1) * one) * ((m + 1) * one) == ((m + 1) * (m + 1)) * 0x1_0000_0000);
        assert((m * (one + 1)) * (m * (one + 1)) == (m * m) * ((one + 1) * (one + 1)));
    }
    assert(mm > 0) by (nonlinear_arith)
        requires
            mm == m * m,
            m >= 0x1_0000,
    ;
    assert(s < top) by (nonlinear_arith)
        requires
            s * mm < mm * top,
            mm > 0,
    ;
    assert(top == 4295098369) by (nonlinear_arith)
        requires
            top == (one + 1) * (one + 1),
            one == 0x1_0000,
    ;
    assert(pa * pa >= 0 && qa * qa >= 0) by (nonlinear_arith);
    assert(pa <= one) by (nonlinear_arith)
        requires
            pa * pa < 4295098369,
            pa >= 0,
            one == 0x1_0000,
    ;
    assert(qa <= one) by (nonlinear_arith)
        requires
            qa * qa < 4295098369,
            qa >= 0,
            one == 0x1_0000,
    ;
    // from below
    let pu = (pa + 1) * m;
    let qu = (qa + 1) * m;
    assert(pu * pu >= a * a && qu * qu >= b * b) by (nonlinear_arith)
        requires
            0 <= a < pu,
            0 <= b < qu,
    ;
    let su = (pa + 1) * (pa + 1) + (qa + 1) * (qa + 1);
    assert(pu * pu + qu * qu == su * mm) by (nonlinear_arith)
        requires
            pu == (pa + 1) * m,
            qu == (qa + 1) * m,
            mm == m * m,
            su == (pa + 1) * (pa + 1) + (qa + 1) * (qa + 1),
    {
        assert(pu * pu == ((pa + 1) * (pa + 1)) * (m * m));
        assert(qu * qu == ((qa + 1) * (qa + 1)) * (m * m));
    }
    assert(su >= 0x1_0000_0000) by (nonlinear_arith)
        requires
            su * mm >= mm * 0x1_0000_0000,
            mm > 0,
    ;
    assert(su == s + 2 * pa + 2 * qa + 2) by (nonlinear_arith)
        requires
            su == (pa + 1) * (pa + 1) + (qa + 1) * (qa + 1),
            s == pa * pa + qa * qa,
    ;
    assert((one - 3) * (one - 3) == 4294574089) by (nonlinear_arith)
        requires
            one == 0x1_0000,
    ;
    assert(x >= 0 ==> x * k >= 0) by (nonlinear_arith)
        requires
            k > 0,
    ;
    assert(x <= 0 ==> x * k <= 0) by (nonlinear_arith)
        requires
            k > 0,
    ;
    assert(y >= 0 ==> y * k >= 0) by (nonlinear_arith)
        requires
            k > 0,
    ;
    assert(y <= 0 ==> y * k <= 0) by (nonlinear_arith)
        requires
            k > 0,
    ;
}

/// The fixed-point products with one and with zero are exact.
pub proof fn lemma_mul_one(a: int)
    ensures
        mul_fx(a, ONE as int) == a,
        mul_fx(a, 0) == 0,
{
    assert(a * 0 == 0);
    if a >= 0 {
        vstd::arithmetic::div_mod::lemma_div_multiples_vanish(a, ONE as int);
        assert(a * ONE == ONE * a);
    } else {
        vstd::arithmetic::div_mod::lemma_div_multiples_vanish(-a, ONE as int);
        assert(-(a * ONE) == ONE * (-a));
    }
}

} // verus!
