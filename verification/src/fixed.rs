//! Fixed-point scalars.
//!
//! Every quantity of the simulation (lengths, speeds, angles, time steps) is a
//! signed 64-bit integer with sixteen binary places: the raw value `v` stands
//! for the number `v / ONE`. Sums and differences of raw values are exact. A
//! product of two raw values is divided by `ONE` with rounding toward zero,
//! so that negating an operand negates the result. Integers make every
//! result the same on every machine.
//!
//! Sines and cosines are those of a rational formula that is exact at the
//! quarter turns. The squares of the sine and of the cosine of an angle add
//! up to one within a hundredth (`lemma_sin_cos_unit`).

use vstd::prelude::*;

verus! {

/// Raw value of the number one.
pub const ONE: i64 = 65536;

/// Half a turn in radians, as a raw value: `ONE` times pi, rounded to the
/// nearest multiple of four, so that a quarter turn is an even raw value.
pub const PI: i64 = 205888;

/// A quarter turn in radians, as a raw value.
pub const HALF_PI: i64 = 102944;

/// A full turn in radians, as a raw value.
pub const TAU: i64 = 411776;

/// Quotient of `a` by a positive `b`, rounded toward zero.
pub open spec fn trunc_div(a: int, b: int) -> int {
    if a >= 0 {
        a / b
    } else {
        -((-a) / b)
    }
}

/// Fixed-point product: the exact product of the two numbers, rounded toward
/// zero to a raw value.
pub open spec fn mul_fx(a: int, b: int) -> int {
    trunc_div(a * b, ONE as int)
}

/// Absolute value.
pub open spec fn abs(a: int) -> int {
    if a >= 0 {
        a
    } else {
        -a
    }
}

/// Rounding toward zero never increases the magnitude, keeps the sign, and
/// loses less than one.
pub proof fn lemma_trunc_div_bounds(a: int, b: int)
    requires
        b > 0,
    ensures
        abs(trunc_div(a, b)) * b <= abs(a),
        abs(a) < (abs(trunc_div(a, b)) + 1) * b,
        a >= 0 ==> trunc_div(a, b) >= 0,
        a <= 0 ==> trunc_div(a, b) <= 0,
        trunc_div(-a, b) == -trunc_div(a, b),
{
    let m = abs(a);
    assert(m == b * (m / b) + m % b) by {
        vstd::arithmetic::div_mod::lemma_fundamental_div_mod(m, b);
    }
    assert(0 <= m % b < b) by {
        vstd::arithmetic::div_mod::lemma_mod_bound(m, b);
    }
    assert(m / b >= 0) by {
        vstd::arithmetic::div_mod::lemma_div_pos_is_pos(m, b);
    }
    assert(b * (m / b) == (m / b) * b) by (nonlinear_arith);
    assert((m / b + 1) * b == (m / b) * b + b) by (nonlinear_arith);
}

/// A quotient rounded toward zero is no larger in magnitude than a bound on
/// the dividend divided by the divisor.
pub proof fn lemma_trunc_div_le(a: int, b: int, m: int)
    requires
        b > 0,
        abs(a) <= m,
    ensures
        abs(trunc_div(a, b)) <= m / b,
{
    lemma_trunc_div_bounds(a, b);
    let q = abs(trunc_div(a, b));
    assert(q * b <= m);
    assert(q <= m / b) by {
        vstd::arithmetic::div_mod::lemma_div_is_ordered(q * b, m, b);
        vstd::arithmetic::div_mod::lemma_div_multiples_vanish(q, b);
        assert(b * q == q * b) by (nonlinear_arith);
    }
}

/// The magnitude of a product is bounded by the product of bounds on the
/// factors.
pub proof fn lemma_mul_abs_le(a: int, b: int, ma: int, mb: int)
    requires
        abs(a) <= ma,
        abs(b) <= mb,
    ensures
        abs(a * b) <= ma * mb,
        -(ma * mb) <= a * b <= ma * mb,
{
    assert(abs(a * b) <= ma * mb) by (nonlinear_arith)
        requires
            abs(a) <= ma,
            abs(b) <= mb,
    ;
}

/// A fixed-point product is bounded by the product of bounds on the factors,
/// divided by `ONE`.
pub proof fn lemma_mul_fx_le(a: int, b: int, ma: int, mb: int)
    requires
        abs(a) <= ma,
        abs(b) <= mb,
    ensures
        abs(mul_fx(a, b)) <= (ma * mb) / (ONE as int),
{
    lemma_mul_abs_le(a, b, ma, mb);
    lemma_trunc_div_le(a * b, ONE as int, ma * mb);
}

/// Quotient of `a` by a positive `b`, rounded toward zero.
pub fn div_trunc(a: i128, b: i128) -> (r: i128)
    requires
        b > 0,
    ensures
        r == trunc_div(a as int, b as int),
{
    a / b
}

/// Fixed-point product of two raw values.
pub fn fx_mul(a: i64, b: i64) -> (r: i64)
    requires
        i64::MIN <= mul_fx(a as int, b as int) <= i64::MAX,
    ensures
        r == mul_fx(a as int, b as int),
{
    proof {
        lemma_mul_abs_le(a as int, b as int, 0x8000_0000_0000_0000, 0x8000_0000_0000_0000);
    }
    let wide: i128 = (a as i128) * (b as i128);
    let q: i128 = wide / (ONE as i128);
    q as i64
}

/// `r` is the integer square root of `n`: the largest integer whose square
/// does not exceed `n`.
pub open spec fn is_sqrt(n: int, r: int) -> bool {
    0 <= r && r * r <= n < (r + 1) * (r + 1)
}

/// The integer square root of a non-negative `n`.
pub open spec fn sqrt_floor(n: int) -> int {
    choose|r: int| is_sqrt(n, r)
}

/// The smallest integer whose square is at least `n`, for a non-negative `n`.
pub open spec fn sqrt_ceil(n: int) -> int {
    let r = sqrt_floor(n);
    if r * r == n {
        r
    } else {
        r + 1
    }
}

/// At most one integer is the integer square root of `n`.
pub proof fn lemma_sqrt_unique(n: int, r1: int, r2: int)
    requires
        is_sqrt(n, r1),
        is_sqrt(n, r2),
    ensures
        r1 == r2,
{
    if r1 < r2 {
        assert((r1 + 1) * (r1 + 1) <= r2 * r2) by (nonlinear_arith)
            requires
                0 <= r1,
                r1 + 1 <= r2,
        ;
    } else if r2 < r1 {
        assert((r2 + 1) * (r2 + 1) <= r1 * r1) by (nonlinear_arith)
            requires
                0 <= r2,
                r2 + 1 <= r1,
        ;
    }
}

/// Every non-negative integer has an integer square root, and `sqrt_floor`
/// names it.
pub proof fn lemma_sqrt_exists(n: int)
    requires
        0 <= n,
    ensures
        is_sqrt(n, sqrt_floor(n)),
    decreases n,
{
    if n == 0 {
        assert(is_sqrt(0, 0));
    } else {
        let m = n - 1;
        lemma_sqrt_exists(m);
        let r = sqrt_floor(m);
        if (r + 1) * (r + 1) <= n {
            assert((r + 2) * (r + 2) > n) by (nonlinear_arith)
                requires
                    (r + 1) * (r + 1) == n,
                    r >= 0,
            ;
            assert(is_sqrt(n, r + 1));
        } else {
            assert(is_sqrt(n, r));
        }
    }
}

/// An integer that passes `is_sqrt` is the value of `sqrt_floor`.
pub proof fn lemma_sqrt_floor_is(n: int, r: int)
    requires
        is_sqrt(n, r),
    ensures
        sqrt_floor(n) == r,
{
    lemma_sqrt_unique(n, r, sqrt_floor(n));
}

/// The integer square root is monotone: a bound on `n` by a square bounds the
/// root.
pub proof fn lemma_sqrt_le(n: int, r: int, m: int)
    requires
        is_sqrt(n, r),
        0 <= m,
        n <= m * m,
    ensures
        r <= m,
{
    if r > m {
        assert((m + 1) * (m + 1) <= r * r) by (nonlinear_arith)
            requires
                0 <= m,
                m + 1 <= r,
        ;
        assert(m * m < (m + 1) * (m + 1)) by (nonlinear_arith)
            requires
                0 <= m,
        ;
    }
}

/// Integer square root, by bisection.
pub fn isqrt(n: u128) -> (r: u64)
    ensures
        is_sqrt(n as int, r as int),
        r == sqrt_floor(n as int),
{
    let mut lo: u128 = 0;
    let mut hi: u128 = 0x1_0000_0000_0000_0000;
    assert(0x1_0000_0000_0000_0000int * 0x1_0000_0000_0000_0000int > u128::MAX) by (nonlinear_arith);
    while hi - lo > 1
        invariant
            lo < hi <= 0x1_0000_0000_0000_0000,
            lo * lo <= n,
            n < hi * hi,
        decreases hi - lo,
    {
        let mid: u128 = lo + (hi - lo) / 2;
        assert(mid * mid <= u128::MAX) by (nonlinear_arith)
            requires
                0 <= mid <= 0xffff_ffff_ffff_ffff,
        ;
        if mid * mid <= n {
            lo = mid;
        } else {
            hi = mid;
        }
    }
    proof {
        lemma_sqrt_floor_is(n as int, lo as int);
    }
    lo as u64
}

/// Integer square root rounded up.
pub fn isqrt_ceil(n: u128) -> (r: u128)
    ensures
        r == sqrt_ceil(n as int),
        r * r >= n,
        n > 0 ==> r > 0,
{
    let root: u64 = isqrt(n);
    let wide: u128 = root as u128;
    assert(wide * wide <= u128::MAX) by (nonlinear_arith)
        requires
            0 <= wide <= 0xffff_ffff_ffff_ffff,
    ;
    if wide * wide == n {
        wide
    } else {
        assert((wide + 1) * (wide + 1) >= n);
        wide + 1
    }
}

/// The rational approximation `16 t (PI - t) / (5 PI^2 - 4 t (PI - t))` of the
/// sine of `t` radians on the half turn `0 <= t <= PI`, as a raw value.
pub open spec fn sin_half_turn(t: int) -> int {
    let p = t * (PI - t);
    (16 * p * ONE) / (5 * PI * PI - 4 * p)
}

/// Sine of an angle given in raw radians. The angle is reduced modulo `TAU`;
/// the second half turn mirrors the first.
pub open spec fn sin_fx(angle: int) -> int {
    let t = angle % (TAU as int);
    if t <= PI {
        sin_half_turn(t)
    } else {
        -sin_half_turn(t - PI)
    }
}

/// Cosine of an angle given in raw radians: the sine a quarter turn later.
pub open spec fn cos_fx(angle: int) -> int {
    sin_fx(angle + HALF_PI)
}

/// On the half turn the approximation stays between zero and `ONE`.
pub proof fn lemma_sin_half_turn_range(t: int)
    requires
        0 <= t <= PI,
    ensures
        0 <= sin_half_turn(t) <= ONE,
        0 <= t * (PI - t) <= 10597467136,
{
    let p = t * (PI - t);
    assert(0 <= p && 4 * p <= PI * PI) by (nonlinear_arith)
        requires
            0 <= t <= PI,
            p == t * (PI - t),
    {
        assert((PI - 2 * t) * (PI - 2 * t) >= 0);
        assert((PI - 2 * t) * (PI - 2 * t) == PI * PI - 4 * (t * (PI - t)));
    }
    let d = 5 * PI * PI - 4 * p;
    assert(PI * PI == 42389868544);
    assert(d > 0);
    assert(16 * p * ONE >= 0);
    assert(16 * p * ONE <= ONE * d);
    vstd::arithmetic::div_mod::lemma_div_pos_is_pos(16 * p * ONE, d);
    vstd::arithmetic::div_mod::lemma_div_is_ordered(16 * p * ONE, ONE * d, d);
    vstd::arithmetic::div_mod::lemma_div_multiples_vanish(ONE as int, d);
    assert(d * ONE == ONE * d);
}

/// Sines and cosines lie between minus one and one.
pub proof fn lemma_sin_cos_range(angle: int)
    ensures
        -ONE <= sin_fx(angle) <= ONE,
        -ONE <= cos_fx(angle) <= ONE,
{
    let t = angle % (TAU as int);
    if t <= PI {
        lemma_sin_half_turn_range(t);
    } else {
        lemma_sin_half_turn_range(t - PI);
    }
    let u = (angle + HALF_PI) % (TAU as int);
    if u <= PI {
        lemma_sin_half_turn_range(u);
    } else {
        lemma_sin_half_turn_range(u - PI);
    }
}

/// At the quarter turns the sine and the cosine are exact.
pub proof fn lemma_quarter_turns()
    ensures
        sin_fx(0) == 0,
        sin_fx(HALF_PI as int) == ONE,
        sin_fx(PI as int) == 0,
        sin_fx(3 * HALF_PI) == -ONE,
        cos_fx(0) == ONE,
        cos_fx(HALF_PI as int) == 0,
        cos_fx(PI as int) == -ONE,
        cos_fx(3 * HALF_PI) == 0,
{
    assert(PI * PI == 42389868544);
    assert(0 * (PI - 0) == 0);
    assert(PI * (PI - PI) == 0);
    assert(HALF_PI * (PI - HALF_PI) == 10597467136);
    assert(16 * 10597467136 * ONE == 11112249699598336);
    assert(11112249699598336int / 169559474176int == 65536);
    assert(sin_half_turn(0) == 0);
    assert(sin_half_turn(HALF_PI as int) == ONE);
    assert(sin_half_turn(PI as int) == 0);
}

/// The approximation on the half turn is the same at `t` and at `PI - t`.
pub proof fn lemma_half_turn_mirror(t: int)
    ensures
        sin_half_turn(PI - t) == sin_half_turn(t),
{
    assert((PI - t) * (PI - (PI - t)) == t * (PI - t)) by (nonlinear_arith);
}

/// In the first quarter turn the squares of the sine and of the cosine add
/// up to one within a hundredth.
///
/// With `m = t (H - t) / H^2` for the quarter turn `H`, the squares of the
/// two rational formulas add up to `1 + m^2 (31 m^2 - 176 m + 24) / (m^2 - 8
/// m + 20)^2`, and `m` lies between zero and a quarter.
#[verifier::rlimit(60)]
pub proof fn lemma_quarter_unit(t: int)
    requires
        0 <= t <= HALF_PI,
    ensures
        ({
            let s = sin_half_turn(t);
            let c = sin_half_turn(t + HALF_PI);
            198 * (ONE * ONE) <= 200 * (s * s + c * c) <= 201 * (ONE * ONE)
        }),
{
    let one = 65536int;
    let big = 102944int;
    let h = 10597467136int;
    assert(big * big == h);
    assert(PI * PI == 4 * h);
    assert(ONE * ONE == 4294967296);
    let s = sin_half_turn(t);
    let c = sin_half_turn(t + HALF_PI);
    lemma_sin_half_turn_range(t);
    lemma_sin_half_turn_range(t + HALF_PI);
    let alpha = (big - t) * (big - t);
    let beta = t * t;
    let m = t * (big - t);
    let p = t * (PI - t);
    let pc = (t + HALF_PI) * (PI - (t + HALF_PI));
    assert(p == h - alpha) by (nonlinear_arith)
        requires
            p == t * (2 * big - t),
            alpha == (big - t) * (big - t),
            h == big * big,
    ;
    assert(pc == h - beta) by (nonlinear_arith)
        requires
            pc == (t + big) * (big - t),
            beta == t * t,
            h == big * big,
    ;
    assert(alpha + beta + 2 * m == h) by (nonlinear_arith)
        requires
            alpha == (big - t) * (big - t),
            beta == t * t,
            m == t * (big - t),
            h == big * big,
    ;
    let w = m * m;
    assert(alpha * beta == w) by (nonlinear_arith)
        requires
            alpha == (big - t) * (big - t),
            beta == t * t,
            m == t * (big - t),
            w == m * m,
    ;
    assert(0 <= m && 4 * m <= h) by (nonlinear_arith)
        requires
            m == t * (big - t),
            h == big * big,
            0 <= t <= big,
    {
        assert((big - 2 * t) * (big - 2 * t) >= 0);
        assert((big - 2 * t) * (big - 2 * t) == big * big - 4 * (t * (big - t)));
    }
    assert(alpha >= 0 && beta >= 0) by (nonlinear_arith)
        requires
            alpha == (big - t) * (big - t),
            beta == t * t,
    ;
    // the two quotients
    let ba = 4 * h + alpha;
    let bb = 4 * h + beta;
    assert(5 * PI * PI - 4 * p == 4 * ba);
    assert(5 * PI * PI - 4 * pc == 4 * bb);
    lemma_quotient(16 * p * ONE, 4 * ba);
    lemma_quotient(16 * pc * ONE, 4 * bb);
    let sba = s * ba;
    let cbb = c * bb;
    assert(s * (4 * ba) == 4 * sba && (s + 1) * (4 * ba) == 4 * sba + 4 * ba) by (nonlinear_arith)
        requires
            sba == s * ba,
    ;
    assert(c * (4 * bb) == 4 * cbb && (c + 1) * (4 * bb) == 4 * cbb + 4 * bb) by (nonlinear_arith)
        requires
            cbb == c * bb,
    ;
    assert(16 * p * ONE == 4 * (4 * one * p) && 16 * pc * ONE == 4 * (4 * one * pc));
    let k = 4 * one;
    assert(sba <= k * p < sba + ba);
    assert(cbb <= k * pc < cbb + bb);
    let x = p * bb;
    let y = pc * ba;
    let z = ba * bb;
    assert(p >= 0 && pc >= 0);
    // s z <= k x < (s + 1) z, and the same for c
    let sz = s * z;
    let cz = c * z;
    assert(sz == sba * bb && cz == cbb * ba) by (nonlinear_arith)
        requires
            sz == s * z,
            cz == c * z,
            z == ba * bb,
            sba == s * ba,
            cbb == c * bb,
    ;
    let kx = k * x;
    let ky = k * y;
    assert(kx == (k * p) * bb && ky == (k * pc) * ba) by (nonlinear_arith)
        requires
            kx == k * x,
            ky == k * y,
            x == p * bb,
            y == pc * ba,
    ;
    assert(sz <= kx && kx < sz + z) by (nonlinear_arith)
        requires
            sz == sba * bb,
            kx == (k * p) * bb,
            z == ba * bb,
            sba <= k * p < sba + ba,
            bb > 0,
    ;
    assert(cz <= ky && ky < cz + z) by (nonlinear_arith)
        requires
            cz == cbb * ba,
            ky == (k * pc) * ba,
            z == ba * bb,
            cbb <= k * pc < cbb + bb,
            ba > 0,
    ;
    // the identity: 16 (x^2 + y^2) == z^2 + w (31 w - 176 v + 24 u)
    let u = h * h;
    let v = h * m;
    assert(v * v == u * w) by (nonlinear_arith)
        requires
            u == h * h,
            v == h * m,
            w == m * m,
    ;
    let sum = x + y;
    let dif = x - y;
    assert(x == 4 * u + h * beta - 4 * (h * alpha) - w) by (nonlinear_arith)
        requires
            x == (h - alpha) * (4 * h + beta),
            u == h * h,
            w == alpha * beta,
    ;
    assert(y == 4 * u + h * alpha - 4 * (h * beta) - w) by (nonlinear_arith)
        requires
            y == (h - beta) * (4 * h + alpha),
            u == h * h,
            w == alpha * beta,
    ;
    assert(h * alpha + h * beta == u - 2 * v) by (nonlinear_arith)
        requires
            alpha + beta == h - 2 * m,
            u == h * h,
            v == h * m,
    ;
    assert(sum == 5 * u + 6 * v - 2 * w);
    let gap = beta - alpha;
    assert(dif == 5 * (h * gap)) by (nonlinear_arith)
        requires
            dif == 5 * (h * beta) - 5 * (h * alpha),
            gap == beta - alpha,
    ;
    let gg = gap * gap;
    assert(gg == h * h - 4 * (h * m)) by (nonlinear_arith)
        requires
            gg == (beta - alpha) * (beta - alpha),
            alpha + beta == h - 2 * m,
            alpha * beta == m * m,
    {
        assert((beta - alpha) * (beta - alpha) == (alpha + beta) * (alpha + beta) - 4 * (alpha
            * beta));
        assert((h - 2 * m) * (h - 2 * m) == h * h - 4 * (h * m) + 4 * (m * m));
    }
    let hg = h * gap;
    assert(hg * hg == u * gg) by (nonlinear_arith)
        requires
            hg == h * gap,
            u == h * h,
            gg == gap * gap,
    ;
    assert(u * gg == u * u - 4 * (u * v)) by (nonlinear_arith)
        requires
            gg == u - 4 * v,
    ;
    assert(dif * dif == 25 * (u * u) - 100 * (u * v)) by (nonlinear_arith)
        requires
            dif == 5 * hg,
            hg * hg == u * u - 4 * (u * v),
    ;
    assert(2 * (x * x + y * y) == sum * sum + dif * dif) by (nonlinear_arith)
        requires
            sum == x + y,
            dif == x - y,
    ;
    assert(sum * sum == 25 * (u * u) + 36 * (v * v) + 4 * (w * w) + 60 * (u * v) - 20 * (u * w)
        - 24 * (v * w)) by (nonlinear_arith)
        requires
            sum == 5 * u + 6 * v - 2 * w,
    ;
    assert(z == 20 * u - 8 * v + w) by (nonlinear_arith)
        requires
            z == (4 * h + alpha) * (4 * h + beta),
            u == h * h,
            w == alpha * beta,
            h * alpha + h * beta == u - 2 * v,
    ;
    let zz = z * z;
    assert(zz == 400 * (u * u) + 64 * (v * v) + w * w - 320 * (u * v) + 40 * (u * w) - 16 * (v
        * w)) by (nonlinear_arith)
        requires
            zz == z * z,
            z == 20 * u - 8 * v + w,
    ;
    let e = 31 * (w * w) + 24 * (u * w) - 176 * (v * w);
    let n = 16 * (x * x + y * y);
    assert(n == zz + e);
    // the error is small beside z^2
    assert(u > 0 && v >= 0 && w >= 0 && 4 * v <= u && 4 * w <= v) by (nonlinear_arith)
        requires
            u == h * h,
            v == h * m,
            w == m * m,
            h > 0,
            0 <= m,
            4 * m <= h,
    ;
    assert(z >= 18 * u);
    let uu = u * u;
    assert(zz >= 324 * uu) by (nonlinear_arith)
        requires
            zz == z * z,
            z >= 18 * u,
            u > 0,
            uu == u * u,
    ;
    assert(16 * (u * w) <= uu && 4 * (v * w) <= u * w && 4 * (w * w) <= v * w && uu > 0)
        by (nonlinear_arith)
        requires
            uu == u * u,
            u > 0,
            v >= 0,
            w >= 0,
            4 * v <= u,
            4 * w <= v,
    ;
    assert(v * w >= 0 && u * w >= 0 && w * w >= 0) by (nonlinear_arith)
        requires
            u > 0,
            v >= 0,
            w >= 0,
    ;
    assert(200 * e <= zz && -200 * e <= zz);
    // from above
    let ss = s * s + c * c;
    assert(sz * sz <= kx * kx && cz * cz <= ky * ky) by (nonlinear_arith)
        requires
            0 <= sz <= kx,
            0 <= cz <= ky,
    ;
    assert(sz * sz + cz * cz == ss * zz) by (nonlinear_arith)
        requires
            sz == s * z,
            cz == c * z,
            zz == z * z,
            ss == s * s + c * c,
    ;
    let kk = k * k;
    assert(kx * kx + ky * ky == kk * (x * x + y * y)) by (nonlinear_arith)
        requires
            kx == k * x,
            ky == k * y,
            kk == k * k,
    ;
    assert(kk == 16 * 4294967296) by (nonlinear_arith)
        requires
            kk == k * k,
            k == 262144,
    ;
    let oo = 4294967296int;
    assert(kk * (x * x + y * y) == oo * n) by (nonlinear_arith)
        requires
            kk == 16 * oo,
            n == 16 * (x * x + y * y),
    ;
    assert(zz > 0);
    assert(200 * ss <= 201 * oo) by (nonlinear_arith)
        requires
            ss * zz <= oo * n,
            n == zz + e,
            200 * e <= zz,
            zz > 0,
            oo == 4294967296,
    {
        assert(200 * (ss * zz) <= 200 * (oo * (zz + e)));
        assert(200 * (oo * (zz + e)) == oo * (200 * zz) + oo * (200 * e));
        assert(oo * (200 * e) <= oo * zz);
        assert((200 * ss) * zz <= (201 * oo) * zz);
    }
    // from below
    let s1 = (s + 1) * z;
    let c1 = (c + 1) * z;
    assert(s1 == sz + z && c1 == cz + z) by (nonlinear_arith)
        requires
            s1 == (s + 1) * z,
            c1 == (c + 1) * z,
            sz == s * z,
            cz == c * z,
    ;
    assert(kx >= 0 && ky >= 0) by (nonlinear_arith)
        requires
            kx == k * x,
            ky == k * y,
            x == p * bb,
            y == pc * ba,
            k > 0,
            p >= 0,
            pc >= 0,
            ba > 0,
            bb > 0,
    ;
    assert(s1 * s1 >= kx * kx && c1 * c1 >= ky * ky) by (nonlinear_arith)
        requires
            0 <= kx <= s1,
            0 <= ky <= c1,
    ;
    let up = (s + 1) * (s + 1) + (c + 1) * (c + 1);
    assert(s1 * s1 + c1 * c1 == up * zz) by (nonlinear_arith)
        requires
            s1 == (s + 1) * z,
            c1 == (c + 1) * z,
            zz == z * z,
            up == (s + 1) * (s + 1) + (c + 1) * (c + 1),
    ;
    assert(200 * up >= 199 * oo) by (nonlinear_arith)
        requires
            up * zz >= oo * n,
            n == zz + e,
            -200 * e <= zz,
            zz > 0,
            oo == 4294967296,
    {
        assert(200 * (up * zz) >= 200 * (oo * (zz + e)));
        assert(200 * (oo * (zz + e)) == oo * (200 * zz) + oo * (200 * e));
        assert(oo * (200 * e) >= -(oo * zz));
        assert((200 * up) * zz >= (199 * oo) * zz);
    }
    assert(up == ss + 2 * s + 2 * c + 2) by (nonlinear_arith)
        requires
            up == (s + 1) * (s + 1) + (c + 1) * (c + 1),
            ss == s * s + c * c,
    ;
}

/// The squares of the sine and of the cosine of any angle add up to one
/// within a hundredth, so that a rotation changes the length of a vector by
/// less than a hundredth of it, and the rounding of its components.
pub proof fn lemma_sin_cos_unit(angle: int)
    ensures
        198 * (ONE * ONE) <= 200 * (sin_fx(angle) * sin_fx(angle) + cos_fx(angle) * cos_fx(angle))
            <= 201 * (ONE * ONE),
{
    let r = angle % (TAU as int);
    let r2 = (angle + HALF_PI) % (TAU as int);
    vstd::arithmetic::div_mod::lemma_add_mod_noop(angle, HALF_PI as int, TAU as int);
    vstd::arithmetic::div_mod::lemma_small_mod(HALF_PI as nat, TAU as nat);
    assert(r2 == (r + HALF_PI) % (TAU as int));
    if r + HALF_PI < TAU {
        vstd::arithmetic::div_mod::lemma_small_mod((r + HALF_PI) as nat, TAU as nat);
    } else {
        vstd::arithmetic::div_mod::lemma_mod_add_multiples_vanish(r + HALF_PI - TAU, TAU as int);
        vstd::arithmetic::div_mod::lemma_small_mod((r + HALF_PI - TAU) as nat, TAU as nat);
    }
    let t = if r <= HALF_PI {
        r
    } else if r <= PI {
        PI - r
    } else if r <= 3 * HALF_PI {
        r - PI
    } else {
        TAU - r
    };
    let s = sin_half_turn(t);
    let c = sin_half_turn(t + HALF_PI);
    lemma_quarter_unit(t);
    lemma_half_turn_mirror(t);
    lemma_half_turn_mirror(HALF_PI - t);
    lemma_half_turn_mirror(0);
    assert(sin_fx(angle) == s || sin_fx(angle) == -s);
    assert(cos_fx(angle) == c || cos_fx(angle) == -c);
    assert((-s) * (-s) == s * s && (-c) * (-c) == c * c) by (nonlinear_arith);
}

/// A quotient of a non-negative number by a positive one, by its two
/// bounds.
proof fn lemma_quotient(a: int, b: int)
    requires
        0 <= a,
        0 < b,
    ensures
        (a / b) * b <= a < (a / b + 1) * b,
        0 <= a / b,
{
    vstd::arithmetic::div_mod::lemma_fundamental_div_mod(a, b);
    vstd::arithmetic::div_mod::lemma_mod_bound(a, b);
    vstd::arithmetic::div_mod::lemma_div_pos_is_pos(a, b);
    assert(b * (a / b) == (a / b) * b) by (nonlinear_arith);
    assert((a / b + 1) * b == (a / b) * b + b) by (nonlinear_arith);
}

/// The sine has period `TAU`.
pub proof fn lemma_sin_periodic(angle: int)
    ensures
        sin_fx(angle + TAU) == sin_fx(angle),
        cos_fx(angle + TAU) == cos_fx(angle),
{
    vstd::arithmetic::div_mod::lemma_mod_add_multiples_vanish(angle, TAU as int);
    vstd::arithmetic::div_mod::lemma_mod_add_multiples_vanish(angle + HALF_PI, TAU as int);
}

/// Remainder of `a` by a positive `m`, in `0 .. m`.
pub fn rem_floor(a: i64, m: i64) -> (r: i64)
    requires
        m > 0,
    ensures
        r == (a as int) % (m as int),
        0 <= r < m,
{
    match a.checked_rem_euclid(m) {
        Some(r) => r,
        None => 0,
    }
}

/// Sine of an angle in raw radians, as a raw value.
pub fn fx_sin(angle: i64) -> (r: i64)
    ensures
        r == sin_fx(angle as int),
        -ONE <= r <= ONE,
{
    proof {
        lemma_sin_cos_range(angle as int);
    }
    let t: i64 = rem_floor(angle, TAU);
    if t <= PI {
        half_turn_sine(t)
    } else {
        -half_turn_sine(t - PI)
    }
}

/// Cosine of an angle in raw radians, as a raw value.
pub fn fx_cos(angle: i64) -> (r: i64)
    ensures
        r == cos_fx(angle as int),
        -ONE <= r <= ONE,
{
    proof {
        lemma_sin_cos_range(angle as int);
    }
    let t: i64 = rem_floor(angle, TAU);
    let shifted: i64 = rem_floor(t + HALF_PI, TAU);
    assert(shifted == (angle as int + HALF_PI) % (TAU as int)) by {
        vstd::arithmetic::div_mod::lemma_add_mod_noop(angle as int, HALF_PI as int, TAU as int);
        vstd::arithmetic::div_mod::lemma_small_mod(HALF_PI as nat, TAU as nat);
    }
    if shifted <= PI {
        half_turn_sine(shifted)
    } else {
        -half_turn_sine(shifted - PI)
    }
}

fn half_turn_sine(t: i64) -> (r: i64)
    requires
        0 <= t <= PI,
    ensures
        r == sin_half_turn(t as int),
        0 <= r <= ONE,
{
    proof {
        lemma_sin_half_turn_range(t as int);
    }
    let p: i64 = t * (PI - t);
    let num: i64 = 16 * p * ONE;
    let den: i64 = 5 * PI * PI - 4 * p;
    num / den
}

} // verus!
