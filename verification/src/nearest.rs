//! Why the closest point is the nearest.
//!
//! The region of a point decides which point of the triangle is returned
//! for it. The laws of this file say that the decision is right: in a corner
//! region no point of the triangle is nearer than the corner, in an edge
//! region none is nearer than the projection on the edge, and the face is
//! the triangle itself. They hold for every triangle with an area.

use crate::fixed::{abs, lemma_trunc_div_bounds, trunc_div};
use crate::geom::{
    along_edge, circle_meets_triangle, closest_point_on_triangle,
    lemma_edge_parts, region_of, Region, COORD_MAX,
};
use crate::math::Vec2D;
use vstd::prelude::*;

verus! {

/// On which side of the line from `a` to `b` the point `p` lies: positive
/// on the left, negative on the right, zero on the line.
pub open spec fn side(a: Vec2D, b: Vec2D, p: Vec2D) -> int {
    b.minus(a).spec_cross(p.minus(a))
}

/// `q` lies in the closed triangle `a b c`: on no edge on the outer side.
pub open spec fn in_triangle(q: Vec2D, a: Vec2D, b: Vec2D, c: Vec2D) -> bool {
    let ab = side(a, b, q);
    let bc = side(b, c, q);
    let ca = side(c, a, q);
    (ab >= 0 && bc >= 0 && ca >= 0) || (ab <= 0 && bc <= 0 && ca <= 0)
}

/// The squared distance of two points, in squared raw units.
pub open spec fn distance_squared(p: Vec2D, q: Vec2D) -> int {
    p.minus(q).spec_len_squared()
}

/// A vector `w` in the basis of `u` and `v`: `(u x v) w == (w x v) u + (u x
/// w) v`, here dotted with a fourth vector `z`.
pub proof fn lemma_basis_dot(
    ux: int,
    uy: int,
    vx: int,
    vy: int,
    wx: int,
    wy: int,
    zx: int,
    zy: int,
)
    ensures
        (ux * vy - uy * vx) * (wx * zx + wy * zy) == (wx * vy - wy * vx) * (ux * zx + uy * zy) + (ux
            * wy - uy * wx) * (vx * zx + vy * zy),
{
    let area = ux * vy - uy * vx;
    let left = ux * wy - uy * wx;
    let right = wx * vy - wy * vx;
    assert(area * wx == right * ux + left * vx) by (nonlinear_arith)
        requires
            area == ux * vy - uy * vx,
            left == ux * wy - uy * wx,
            right == wx * vy - wy * vx,
    ;
    assert(area * wy == right * uy + left * vy) by (nonlinear_arith)
        requires
            area == ux * vy - uy * vx,
            left == ux * wy - uy * wx,
            right == wx * vy - wy * vx,
    ;
    let sx = area * wx;
    let sy = area * wy;
    let wz = wx * zx + wy * zy;
    assert(area * wz == sx * zx + sy * zy) by (nonlinear_arith)
        requires
            wz == wx * zx + wy * zy,
            sx == area * wx,
            sy == area * wy,
    ;
    let uxz = ux * zx;
    let uyz = uy * zy;
    let vxz = vx * zx;
    let vyz = vy * zy;
    assert(sx * zx == right * uxz + left * vxz) by (nonlinear_arith)
        requires
            sx == right * ux + left * vx,
            uxz == ux * zx,
            vxz == vx * zx,
    ;
    assert(sy * zy == right * uyz + left * vyz) by (nonlinear_arith)
        requires
            sy == right * uy + left * vy,
            uyz == uy * zy,
            vyz == vy * zy,
    ;
    let uz = uxz + uyz;
    let vz = vxz + vyz;
    assert(right * uz == right * uxz + right * uyz) by (nonlinear_arith)
        requires
            uz == uxz + uyz,
    ;
    assert(left * vz == left * vxz + left * vyz) by (nonlinear_arith)
        requires
            vz == vxz + vyz,
    ;
}

/// The squares of the dot and of the cross product of two vectors add up
/// to the product of their squared lengths.
pub proof fn lemma_dot_cross(ux: int, uy: int, xx: int, xy: int)
    ensures
        (ux * ux + uy * uy) * (xx * xx + xy * xy) == (ux * xx + uy * xy) * (ux * xx + uy * xy) + (ux
            * xy - uy * xx) * (ux * xy - uy * xx),
{
    let a = ux * xx;
    let b = uy * xy;
    let c = ux * xy;
    let d = uy * xx;
    let uu = ux * ux + uy * uy;
    let ll = xx * xx + xy * xy;
    assert((ux * ux) * (xx * xx) == a * a) by (nonlinear_arith)
        requires
            a == ux * xx,
    ;
    assert((ux * ux) * (xy * xy) == c * c) by (nonlinear_arith)
        requires
            c == ux * xy,
    ;
    assert((uy * uy) * (xx * xx) == d * d) by (nonlinear_arith)
        requires
            d == uy * xx,
    ;
    assert((uy * uy) * (xy * xy) == b * b) by (nonlinear_arith)
        requires
            b == uy * xy,
    ;
    let p = ux * ux;
    let q = uy * uy;
    let r = xx * xx;
    let s = xy * xy;
    assert((p + q) * (r + s) == p * r + p * s + q * r + q * s) by (nonlinear_arith);
    assert(a * b == c * d) by (nonlinear_arith)
        requires
            a == ux * xx,
            b == uy * xy,
            c == ux * xy,
            d == uy * xx,
    ;
    assert((a + b) * (a + b) == a * a + 2 * (a * b) + b * b) by (nonlinear_arith);
    assert((c - d) * (c - d) == c * c - 2 * (c * d) + d * d) by (nonlinear_arith);
}

/// The three sides of a point with respect to a triangle add up to the
/// side of the third corner with respect to the first edge, which is twice
/// the area; and the sides stay what they are when the corners are named in
/// a turned order.
pub proof fn lemma_sides(a: Vec2D, b: Vec2D, c: Vec2D, q: Vec2D)
    requires
        a.within(COORD_MAX as int),
        b.within(COORD_MAX as int),
        c.within(COORD_MAX as int),
        q.within(COORD_MAX as int),
    ensures
        side(a, b, q) + side(b, c, q) + side(c, a, q) == side(a, b, c),
        side(b, c, a) == side(a, b, c),
        side(c, a, b) == side(a, b, c),
        side(a, b, q) == b.minus(a).spec_cross(q.minus(a)),
        side(c, a, q) == q.minus(a).spec_cross(c.minus(a)),
        side(a, b, c) == b.minus(a).spec_cross(c.minus(a)),
{
    let ux = b.x - a.x;
    let uy = b.y - a.y;
    let vx = c.x - a.x;
    let vy = c.y - a.y;
    let zx = q.x - a.x;
    let zy = q.y - a.y;
    let area = ux * vy - uy * vx;
    let sz = zx * vy - zy * vx;
    let tz = ux * zy - uy * zx;
    // side of q on the edge from c to a
    let cax = a.x - c.x;
    let cay = a.y - c.y;
    let cqx = q.x - c.x;
    let cqy = q.y - c.y;
    assert(side(c, a, q) == cax * cqy - cay * cqx);
    assert(cax * cqy - cay * cqx == sz) by (nonlinear_arith)
        requires
            cax == -vx,
            cay == -vy,
            cqx == zx - vx,
            cqy == zy - vy,
            sz == zx * vy - zy * vx,
    ;
    // side of q on the edge from b to c
    let bcx = c.x - b.x;
    let bcy = c.y - b.y;
    let bqx = q.x - b.x;
    let bqy = q.y - b.y;
    assert(side(b, c, q) == bcx * bqy - bcy * bqx);
    let first = bcx * bqy;
    let second = bcy * bqx;
    assert(first == vx * zy - vx * uy - ux * zy + ux * uy) by (nonlinear_arith)
        requires
            first == bcx * bqy,
            bcx == vx - ux,
            bqy == zy - uy,
    ;
    assert(second == vy * zx - vy * ux - uy * zx + uy * ux) by (nonlinear_arith)
        requires
            second == bcy * bqx,
            bcy == vy - uy,
            bqx == zx - ux,
    ;
    assert(ux * uy == uy * ux && vx * zy == zy * vx && vy * zx == zx * vy && vx * uy == uy * vx
        && vy * ux == ux * vy) by (nonlinear_arith);
    assert(side(b, c, q) == area - sz - tz);
    // the area, seen from b and from c
    let bax = a.x - b.x;
    let bay = a.y - b.y;
    assert(side(b, c, a) == bcx * bay - bcy * bax);
    assert(bcx * bay - bcy * bax == area) by (nonlinear_arith)
        requires
            bcx == vx - ux,
            bcy == vy - uy,
            bax == -ux,
            bay == -uy,
            area == ux * vy - uy * vx,
    ;
    let cbx = b.x - c.x;
    let cby = b.y - c.y;
    assert(side(c, a, b) == cax * cby - cay * cbx);
    assert(cax * cby - cay * cbx == area) by (nonlinear_arith)
        requires
            cax == -vx,
            cay == -vy,
            cbx == ux - vx,
            cby == uy - vy,
            area == ux * vy - uy * vx,
    ;
}

/// Turning the names of the corners does not change the triangle.
pub proof fn lemma_in_triangle_turned(q: Vec2D, a: Vec2D, b: Vec2D, c: Vec2D)
    ensures
        in_triangle(q, b, c, a) == in_triangle(q, a, b, c),
        in_triangle(q, c, a, b) == in_triangle(q, a, b, c),
{
}

/// A point that projects before the start of both edges that leave a corner
/// has no point of the triangle nearer than the corner.
///
/// The corner is `x`, its neighbours are `y` and `z`, in the order of the
/// triangle.
pub proof fn lemma_corner_is_nearest(p: Vec2D, x: Vec2D, y: Vec2D, z: Vec2D, q: Vec2D)
    requires
        p.within(COORD_MAX as int),
        x.within(COORD_MAX as int),
        y.within(COORD_MAX as int),
        z.within(COORD_MAX as int),
        q.within(COORD_MAX as int),
        side(x, y, z) != 0,
        in_triangle(q, x, y, z),
        p.minus(x).spec_dot(y.minus(x)) <= 0,
        p.minus(x).spec_dot(z.minus(x)) <= 0,
    ensures
        distance_squared(p, x) <= distance_squared(p, q),
{
    let ux = y.x - x.x;
    let uy = y.y - x.y;
    let vx = z.x - x.x;
    let vy = z.y - x.y;
    let wx = p.x - x.x;
    let wy = p.y - x.y;
    let zx = q.x - x.x;
    let zy = q.y - x.y;
    let area = ux * vy - uy * vx;
    let sz = zx * vy - zy * vx;
    let tz = ux * zy - uy * zx;
    let uw = wx * ux + wy * uy;
    let vw = wx * vx + wy * vy;
    let zw = zx * wx + zy * wy;
    lemma_sides(x, y, z, q);
    assert(area != 0);
    // q lies between the edges: both of its coordinates have the sign of
    // the area
    let along_u = area * sz;
    let along_v = area * tz;
    assert(along_u >= 0 && along_v >= 0) by (nonlinear_arith)
        requires
            along_u == area * sz,
            along_v == area * tz,
            (tz >= 0 && area - sz - tz >= 0 && sz >= 0) || (tz <= 0 && area - sz - tz <= 0 && sz
                <= 0),
            area != 0,
    ;
    lemma_basis_dot(ux, uy, vx, vy, zx, zy, wx, wy);
    assert(ux * wx + uy * wy == uw && vx * wx + vy * wy == vw) by (nonlinear_arith)
        requires
            uw == wx * ux + wy * uy,
            vw == wx * vx + wy * vy,
    ;
    assert(area * zw == sz * uw + tz * vw);
    let azw = area * zw;
    assert(area * azw == along_u * uw + along_v * vw) by (nonlinear_arith)
        requires
            azw == sz * uw + tz * vw,
            along_u == area * sz,
            along_v == area * tz,
    ;
    assert(along_u * uw <= 0 && along_v * vw <= 0) by (nonlinear_arith)
        requires
            along_u >= 0,
            along_v >= 0,
            uw <= 0,
            vw <= 0,
    ;
    assert(zw <= 0) by (nonlinear_arith)
        requires
            area * azw <= 0,
            azw == area * zw,
            area != 0,
    ;
    // |w - z|^2 == |w|^2 - 2 z.w + |z|^2
    let dx = p.x - q.x;
    let dy = p.y - q.y;
    assert(dx * dx == wx * wx - 2 * (zx * wx) + zx * zx) by (nonlinear_arith)
        requires
            dx == wx - zx,
    ;
    assert(dy * dy == wy * wy - 2 * (zy * wy) + zy * zy) by (nonlinear_arith)
        requires
            dy == wy - zy,
    ;
    assert(zx * zx >= 0 && zy * zy >= 0) by (nonlinear_arith);
}

/// A point on the outer side of an edge, or on it, is no nearer to any point
/// of the triangle than to the line through the edge: its side with respect
/// to the edge, squared, is the squared distance from the line times the
/// squared length of the edge.
///
/// Where the point projects onto the edge, the projection is a point of the
/// triangle at that distance, so it is the nearest. The edge leads from `x`
/// to `y`, the third corner is `z`.
pub proof fn lemma_edge_is_nearest(p: Vec2D, x: Vec2D, y: Vec2D, z: Vec2D, q: Vec2D)
    requires
        p.within(COORD_MAX as int),
        x.within(COORD_MAX as int),
        y.within(COORD_MAX as int),
        z.within(COORD_MAX as int),
        q.within(COORD_MAX as int),
        side(x, y, z) != 0,
        in_triangle(q, x, y, z),
        side(x, y, z) * side(x, y, p) <= 0,
    ensures
        side(x, y, p) * side(x, y, p) <= y.minus(x).spec_len_squared() * distance_squared(p, q),
{
    let ux = y.x - x.x;
    let uy = y.y - x.y;
    let wx = p.x - x.x;
    let wy = p.y - x.y;
    let zx = q.x - x.x;
    let zy = q.y - x.y;
    let dx = p.x - q.x;
    let dy = p.y - q.y;
    let area = side(x, y, z);
    let tp = ux * wy - uy * wx;
    let tq = ux * zy - uy * zx;
    lemma_sides(x, y, z, q);
    assert(side(x, y, p) == tp);
    assert(side(x, y, q) == tq);
    let aq = area * tq;
    let ap = area * tp;
    assert(aq >= 0) by (nonlinear_arith)
        requires
            aq == area * tq,
            (tq >= 0 && area >= tq) || (tq <= 0 && area <= tq),
    ;
    // the two sides do not have the same strict sign
    assert(tp * tq <= 0) by (nonlinear_arith)
        requires
            area * tp <= 0,
            area * tq >= 0,
            area != 0,
    ;
    let cross = ux * dy - uy * dx;
    assert(cross == tp - tq) by (nonlinear_arith)
        requires
            cross == ux * dy - uy * dx,
            dx == wx - zx,
            dy == wy - zy,
            tp == ux * wy - uy * wx,
            tq == ux * zy - uy * zx,
    ;
    assert(cross * cross >= tp * tp) by (nonlinear_arith)
        requires
            cross == tp - tq,
            tp * tq <= 0,
    {
        assert((tp - tq) * (tp - tq) == tp * tp - 2 * (tp * tq) + tq * tq);
        assert(tq * tq >= 0);
    }
    lemma_dot_cross(ux, uy, dx, dy);
    let dot = ux * dx + uy * dy;
    assert(dot * dot >= 0) by (nonlinear_arith);
}

/// The point that is returned in an edge region is the projection on the
/// edge, with each coordinate moved toward the start of the edge by less
/// than one raw unit; it lies between the ends of the edge.
///
/// With `e` the edge from `start` to `end`, `num = (p - start) . e` and
/// `den = e . e`, the projection is `start + e * num / den`.
pub proof fn lemma_edge_point(p: Vec2D, start: Vec2D, end: Vec2D)
    requires
        p.within(COORD_MAX as int),
        start.within(COORD_MAX as int),
        end.within(COORD_MAX as int),
        0 <= p.minus(start).spec_dot(end.minus(start)) <= end.minus(start).spec_len_squared(),
        end.minus(start).spec_len_squared() > 0,
    ensures
        ({
            let e = end.minus(start);
            let num = p.minus(start).spec_dot(e);
            let den = e.spec_len_squared();
            let r = along_edge(start, e, num, den);
            &&& -den < e.x * num - den * (r.x - start.x) < den
            &&& -den < e.y * num - den * (r.y - start.y) < den
            &&& e.x >= 0 ==> start.x <= r.x <= end.x
            &&& e.x <= 0 ==> end.x <= r.x <= start.x
            &&& e.y >= 0 ==> start.y <= r.y <= end.y
            &&& e.y <= 0 ==> end.y <= r.y <= start.y
        }),
{
    let e = end.minus(start);
    let num = p.minus(start).spec_dot(e);
    let den = e.spec_len_squared();
    lemma_rounded_step(e.x as int, num, den);
    lemma_rounded_step(e.y as int, num, den);
}

/// A step `e * num / den` with `0 <= num <= den`, rounded toward zero, lies
/// between zero and `e` and is off by less than one.
proof fn lemma_rounded_step(e: int, num: int, den: int)
    requires
        0 <= num <= den,
        den > 0,
    ensures
        -den < e * num - den * trunc_div(e * num, den) < den,
        e >= 0 ==> 0 <= trunc_div(e * num, den) <= e,
        e <= 0 ==> e <= trunc_div(e * num, den) <= 0,
{
    let a = e * num;
    let t = trunc_div(a, den);
    lemma_trunc_div_bounds(a, den);
    let m = abs(t);
    let dm = den * m;
    assert(m * den == dm && (m + 1) * den == dm + den) by (nonlinear_arith)
        requires
            dm == den * m,
    ;
    assert(dm <= abs(a) < dm + den);
    if t >= 0 {
        assert(den * t == dm) by (nonlinear_arith)
            requires
                dm == den * m,
                m == t,
        ;
    } else {
        assert(den * t == -dm) by (nonlinear_arith)
            requires
                dm == den * m,
                m == -t,
        ;
    }
    if t == 0 {
        assert(dm == 0) by (nonlinear_arith)
            requires
                dm == den * m,
                m == 0,
        ;
    }
    assert(abs(a) <= abs(e) * den) by (nonlinear_arith)
        requires
            a == e * num,
            0 <= num <= den,
    ;
    assert(abs(t) <= abs(e)) by (nonlinear_arith)
        requires
            abs(t) * den <= abs(a),
            abs(a) <= abs(e) * den,
            den > 0,
    ;
    assert(e >= 0 ==> a >= 0) by (nonlinear_arith)
        requires
            a == e * num,
            0 <= num,
    ;
    assert(e <= 0 ==> a <= 0) by (nonlinear_arith)
        requires
            a == e * num,
            0 <= num,
    ;
}

/// The algebra of a point that has turned round a corner.
///
/// Let `u` and `v` be the edges that leave a corner and `w` lead from the
/// corner to a point with the coordinates `p / d` along `u` and `q / d` along
/// `v`. A point with a negative `q`, a negative dot product with `u` and a
/// positive one with `v` has a negative `p`, and the angle of the corner is
/// obtuse.
proof fn lemma_turn(uu: int, vv: int, uv: int, wu: int, wv: int, p: int, q: int, d: int)
    requires
        d > 0,
        uu > 0,
        vv > 0,
        d == uu * vv - uv * uv,
        d * wu == p * uu + q * uv,
        d * wv == p * uv + q * vv,
        q < 0,
        wu < 0,
        wv > 0,
    ensures
        p < 0,
        uv < 0,
{
    let dwu = d * wu;
    let dwv = d * wv;
    let puu = p * uu;
    let puv = p * uv;
    let quv = q * uv;
    let qvv = q * vv;
    assert(dwv > 0) by (nonlinear_arith)
        requires
            dwv == d * wv,
            d > 0,
            wv > 0,
    ;
    assert(dwu < 0) by (nonlinear_arith)
        requires
            dwu == d * wu,
            d > 0,
            wu < 0,
    ;
    assert(qvv < 0) by (nonlinear_arith)
        requires
            qvv == q * vv,
            q < 0,
            vv > 0,
    ;
    assert(puv > 0);
    if p > 0 {
        assert(uv > 0) by (nonlinear_arith)
            requires
                puv == p * uv,
                puv > 0,
                p > 0,
        ;
        let m = -q;
        let muv = m * uv;
        let mvv = m * vv;
        assert(muv == -quv && mvv == -qvv) by (nonlinear_arith)
            requires
                m == -q,
                muv == m * uv,
                mvv == m * vv,
                quv == q * uv,
                qvv == q * vv,
        ;
        assert(puu < muv);
        assert(puv > mvv);
        let left = puu * uv;
        let right = puv * uu;
        assert(left == right) by (nonlinear_arith)
            requires
                left == puu * uv,
                right == puv * uu,
                puu == p * uu,
                puv == p * uv,
        ;
        assert(left < muv * uv) by (nonlinear_arith)
            requires
                left == puu * uv,
                puu < muv,
                uv > 0,
        ;
        assert(right > mvv * uu) by (nonlinear_arith)
            requires
                right == puv * uu,
                puv > mvv,
                uu > 0,
        ;
        let vvuu = vv * uu;
        let uvuv = uv * uv;
        assert(mvv * uu == m * vvuu) by (nonlinear_arith)
            requires
                mvv == m * vv,
                vvuu == vv * uu,
        ;
        assert(muv * uv == m * uvuv) by (nonlinear_arith)
            requires
                muv == m * uv,
                uvuv == uv * uv,
        ;
        assert(vvuu < uvuv) by (nonlinear_arith)
            requires
                m * vvuu < m * uvuv,
                m > 0,
        ;
        assert(vvuu == uu * vv) by (nonlinear_arith)
            requires
                vvuu == vv * uu,
        ;
        assert(false);
    }
    assert(p != 0) by (nonlinear_arith)
        requires
            puv == p * uv,
            puv > 0,
    ;
    assert(uv < 0) by (nonlinear_arith)
        requires
            puv == p * uv,
            puv > 0,
            p < 0,
    ;
}

/// A point that has turned round a corner.
///
/// Let `x` be a corner of a triangle with an area, and `y` and `z` its
/// neighbours. A point strictly outside the edge to `y` that projects
/// before `x` on that edge, but after `x` on the edge to `z`, lies strictly
/// outside the edge to `z` too, and the angle at `x` is obtuse. The same
/// holds with `y` and `z` in each other's place.
pub proof fn lemma_turn_at(x: Vec2D, y: Vec2D, z: Vec2D, p: Vec2D)
    requires
        p.within(COORD_MAX as int),
        x.within(COORD_MAX as int),
        y.within(COORD_MAX as int),
        z.within(COORD_MAX as int),
        side(x, y, z) != 0,
    ensures
        ({
            let area = side(x, y, z);
            let wu = p.minus(x).spec_dot(y.minus(x));
            let wv = p.minus(x).spec_dot(z.minus(x));
            let uv = y.minus(x).spec_dot(z.minus(x));
            &&& area * side(x, y, p) < 0 && wu < 0 && wv > 0 ==> area * side(z, x, p) < 0 && uv
                < 0
            &&& area * side(z, x, p) < 0 && wv < 0 && wu > 0 ==> area * side(x, y, p) < 0 && uv
                < 0
            &&& y.minus(x).spec_len_squared() > 0
            &&& z.minus(x).spec_len_squared() > 0
        }),
{
    let ux = y.x - x.x;
    let uy = y.y - x.y;
    let vx = z.x - x.x;
    let vy = z.y - x.y;
    let wx = p.x - x.x;
    let wy = p.y - x.y;
    let area = ux * vy - uy * vx;
    let s = wx * vy - wy * vx;
    let t = ux * wy - uy * wx;
    let uu = ux * ux + uy * uy;
    let vv = vx * vx + vy * vy;
    let uv = ux * vx + uy * vy;
    let wu = wx * ux + wy * uy;
    let wv = wx * vx + wy * vy;
    lemma_sides(x, y, z, p);
    assert(side(x, y, z) == area);
    assert(side(x, y, p) == t);
    assert(side(z, x, p) == s);
    let d = area * area;
    lemma_dot_cross(ux, uy, vx, vy);
    assert(uu * vv == uv * uv + d);
    assert(d > 0) by (nonlinear_arith)
        requires
            d == area * area,
            area != 0,
    ;
    assert(uv * uv >= 0) by (nonlinear_arith);
    assert(uu >= 0 && vv >= 0) by (nonlinear_arith)
        requires
            uu == ux * ux + uy * uy,
            vv == vx * vx + vy * vy,
    ;
    assert(uu > 0 && vv > 0) by (nonlinear_arith)
        requires
            uu * vv > 0,
            uu >= 0,
            vv >= 0,
    ;
    lemma_basis_dot(ux, uy, vx, vy, wx, wy, ux, uy);
    lemma_basis_dot(ux, uy, vx, vy, wx, wy, vx, vy);
    assert(vx * ux + vy * uy == uv) by (nonlinear_arith)
        requires
            uv == ux * vx + uy * vy,
    ;
    assert(area * wu == s * uu + t * uv);
    assert(area * wv == s * uv + t * vv);
    let ps = area * s;
    let qt = area * t;
    let awu = area * wu;
    let awv = area * wv;
    assert(d * wu == ps * uu + qt * uv) by (nonlinear_arith)
        requires
            d == area * area,
            awu == area * wu,
            awu == s * uu + t * uv,
            ps == area * s,
            qt == area * t,
    {
        assert(d * wu == area * awu);
        assert(area * (s * uu + t * uv) == (area * s) * uu + (area * t) * uv);
    }
    assert(d * wv == ps * uv + qt * vv) by (nonlinear_arith)
        requires
            d == area * area,
            awv == area * wv,
            awv == s * uv + t * vv,
            ps == area * s,
            qt == area * t,
    {
        assert(d * wv == area * awv);
        assert(area * (s * uv + t * vv) == (area * s) * uv + (area * t) * vv);
    }
    if qt < 0 && wu < 0 && wv > 0 {
        lemma_turn(uu, vv, uv, wu, wv, ps, qt, d);
    }
    if ps < 0 && wv < 0 && wu > 0 {
        assert(d == vv * uu - uv * uv) by (nonlinear_arith)
            requires
                uu * vv == uv * uv + d,
        ;
        lemma_turn(vv, uu, uv, wv, wu, qt, ps, d);
    }
}

/// What the tests of the regions look at, in terms of sides and of the dot
/// products at the corners.
pub proof fn lemma_tests(p: Vec2D, a: Vec2D, b: Vec2D, c: Vec2D)
    requires
        p.within(COORD_MAX as int),
        a.within(COORD_MAX as int),
        b.within(COORD_MAX as int),
        c.within(COORD_MAX as int),
    ensures
        b.minus(a).spec_cross(a.minus(c)) == -side(a, b, c),
        p.minus(a).spec_cross(p.minus(b)) == side(a, b, p),
        p.minus(b).spec_cross(p.minus(c)) == side(b, c, p),
        p.minus(c).spec_cross(p.minus(a)) == side(c, a, p),
        -p.minus(b).spec_dot(b.minus(a)) == p.minus(b).spec_dot(a.minus(b)),
        -p.minus(a).spec_dot(a.minus(c)) == p.minus(a).spec_dot(c.minus(a)),
        -p.minus(c).spec_dot(c.minus(b)) == p.minus(c).spec_dot(b.minus(c)),
{
    lemma_cross_of_ends(a, b, p);
    lemma_cross_of_ends(b, c, p);
    lemma_cross_of_ends(c, a, p);
    lemma_dot_reversed(p.minus(b), a, b);
    lemma_dot_reversed(p.minus(a), c, a);
    lemma_dot_reversed(p.minus(c), b, c);
    let ux = b.x - a.x;
    let uy = b.y - a.y;
    let vx = c.x - a.x;
    let vy = c.y - a.y;
    assert(ux * (-vy) - uy * (-vx) == -(ux * vy - uy * vx)) by (nonlinear_arith);
}

/// The cross product of the vectors from the two ends of an edge to a point
/// is the side of the point.
proof fn lemma_cross_of_ends(x: Vec2D, y: Vec2D, p: Vec2D)
    requires
        p.within(COORD_MAX as int),
        x.within(COORD_MAX as int),
        y.within(COORD_MAX as int),
    ensures
        p.minus(x).spec_cross(p.minus(y)) == side(x, y, p),
{
    let ux = y.x - x.x;
    let uy = y.y - x.y;
    let wx = p.x - x.x;
    let wy = p.y - x.y;
    let tx = p.x - y.x;
    let ty = p.y - y.y;
    assert(wx * ty - wy * tx == ux * wy - uy * wx) by (nonlinear_arith)
        requires
            tx == wx - ux,
            ty == wy - uy,
    ;
}

/// The dot product with an edge changes its sign when the edge is walked
/// the other way.
proof fn lemma_dot_reversed(w: Vec2D, x: Vec2D, y: Vec2D)
    requires
        x.within(COORD_MAX as int),
        y.within(COORD_MAX as int),
    ensures
        -w.spec_dot(y.minus(x)) == w.spec_dot(x.minus(y)),
{
    let ex = y.x - x.x;
    let ey = y.y - x.y;
    assert(-(w.x * ex + w.y * ey) == w.x * (-ex) + w.y * (-ey)) by (nonlinear_arith);
}

/// The dot products of the two edges at the ends of an edge add up to the
/// squared length of the edge, so at most one angle of a triangle is not
/// acute.
pub proof fn lemma_angles(x: Vec2D, y: Vec2D, z: Vec2D)
    requires
        x.within(COORD_MAX as int),
        y.within(COORD_MAX as int),
        z.within(COORD_MAX as int),
    ensures
        y.minus(x).spec_dot(z.minus(x)) + z.minus(y).spec_dot(x.minus(y)) == y.minus(
            x,
        ).spec_len_squared(),
{
    let ux = y.x - x.x;
    let uy = y.y - x.y;
    let vx = z.x - x.x;
    let vy = z.y - x.y;
    let sx = z.x - y.x;
    let sy = z.y - y.y;
    assert(ux * vx + sx * (-ux) == ux * ux) by (nonlinear_arith)
        requires
            sx == vx - ux,
    ;
    assert(uy * vy + sy * (-uy) == uy * uy) by (nonlinear_arith)
        requires
            sy == vy - uy,
    ;
}

/// The face of a triangle with an area is the triangle: a point that lies
/// in no corner region and in no edge region lies on no edge on the outer
/// side.
pub proof fn lemma_face_is_inside(p: Vec2D, a: Vec2D, b: Vec2D, c: Vec2D)
    requires
        p.within(COORD_MAX as int),
        a.within(COORD_MAX as int),
        b.within(COORD_MAX as int),
        c.within(COORD_MAX as int),
        side(a, b, c) != 0,
        region_of(p, a, b, c) == Region::Face,
    ensures
        in_triangle(p, a, b, c),
{
    let area = side(a, b, c);
    let t = side(a, b, p);
    let r = side(b, c, p);
    let s = side(c, a, p);
    lemma_sides(a, b, c, p);
    lemma_tests(p, a, b, c);
    lemma_turn_at(a, b, c, p);
    lemma_turn_at(b, c, a, p);
    lemma_turn_at(c, a, b, p);
    lemma_angles(a, b, c);
    lemma_angles(b, c, a);
    lemma_angles(c, a, b);
    lemma_edge_parts(a, b, p);
    lemma_edge_parts(b, c, p);
    lemma_edge_parts(c, a, p);
    // dot products at the corners
    let wu_a = p.minus(a).spec_dot(b.minus(a));
    let wv_a = p.minus(a).spec_dot(c.minus(a));
    let wu_b = p.minus(b).spec_dot(c.minus(b));
    let wv_b = p.minus(b).spec_dot(a.minus(b));
    let wu_c = p.minus(c).spec_dot(a.minus(c));
    let wv_c = p.minus(c).spec_dot(b.minus(c));
    let uv_a = b.minus(a).spec_dot(c.minus(a));
    let uv_b = c.minus(b).spec_dot(a.minus(b));
    let uv_c = a.minus(c).spec_dot(b.minus(c));
    let n = b.minus(a).spec_cross(a.minus(c));
    let in_ab = area * t;
    let in_bc = area * r;
    let in_ca = area * s;
    assert(n * t == -in_ab && n * r == -in_bc && n * s == -in_ca) by (nonlinear_arith)
        requires
            n == -area,
            in_ab == area * t,
            in_bc == area * r,
            in_ca == area * s,
    ;
    // the edges have a length
    assert(wu_a + wv_b > 0 && wu_b + wv_c > 0 && wu_c + wv_a > 0);
    // no corner region and no edge region holds p
    assert(!(wu_a <= 0 && wv_a <= 0));
    assert(!(wu_b <= 0 && wv_b <= 0));
    assert(!(wu_c <= 0 && wv_c <= 0));
    assert(!(in_ab <= 0 && wu_a >= 0 && wv_b >= 0));
    assert(!(in_bc <= 0 && wu_b >= 0 && wv_c >= 0));
    assert(!(in_ca <= 0 && wu_c >= 0 && wv_a >= 0));
    // side(z, x, p) of the turn at a corner is the side of the edge that
    // arrives at the corner
    assert(side(b, c, a) == area && side(c, a, b) == area);
    // at most one angle is obtuse
    assert(!(uv_a < 0 && uv_b < 0) && !(uv_b < 0 && uv_c < 0) && !(uv_c < 0 && uv_a < 0)) by {
        assert(b.minus(a).spec_len_squared() >= 0);
        assert(c.minus(b).spec_len_squared() >= 0);
        assert(a.minus(c).spec_len_squared() >= 0);
    }
    assert(in_ab >= 0 && in_bc >= 0 && in_ca >= 0);
    assert((t >= 0 && r >= 0 && s >= 0) || (t <= 0 && r <= 0 && s <= 0)) by (nonlinear_arith)
        requires
            in_ab == area * t,
            in_bc == area * r,
            in_ca == area * s,
            in_ab >= 0,
            in_bc >= 0,
            in_ca >= 0,
            area != 0,
    ;
}

/// The closest point is the nearest point of the triangle.
///
/// Let `q` be any point of a triangle with an area. Where `p` lies in a
/// corner region, the point returned for `p` is no farther from `p` than `q`
/// is. Where `p` lies in the face, `p` is returned and lies in the triangle.
/// Where `p` lies in an edge region, `p` is no nearer to `q` than to the
/// line through the edge; the point returned is the projection of `p` on
/// the edge, rounded as `lemma_edge_point` says.
pub proof fn lemma_closest_is_nearest(p: Vec2D, a: Vec2D, b: Vec2D, c: Vec2D, q: Vec2D)
    requires
        p.within(COORD_MAX as int),
        a.within(COORD_MAX as int),
        b.within(COORD_MAX as int),
        c.within(COORD_MAX as int),
        q.within(COORD_MAX as int),
        side(a, b, c) != 0,
        in_triangle(q, a, b, c),
    ensures
        match region_of(p, a, b, c) {
            Region::CornerA | Region::CornerB | Region::CornerC => distance_squared(
                p,
                closest_point_on_triangle(p, a, b, c),
            ) <= distance_squared(p, q),
            Region::Face => closest_point_on_triangle(p, a, b, c) == p && in_triangle(p, a, b, c),
            Region::EdgeAB => side(a, b, p) * side(a, b, p) <= b.minus(a).spec_len_squared()
                * distance_squared(p, q),
            Region::EdgeBC => side(b, c, p) * side(b, c, p) <= c.minus(b).spec_len_squared()
                * distance_squared(p, q),
            Region::EdgeCA => side(c, a, p) * side(c, a, p) <= a.minus(c).spec_len_squared()
                * distance_squared(p, q),
        },
{
    lemma_sides(a, b, c, p);
    lemma_tests(p, a, b, c);
    lemma_in_triangle_turned(q, a, b, c);
    let area = side(a, b, c);
    let n = b.minus(a).spec_cross(a.minus(c));
    match region_of(p, a, b, c) {
        Region::CornerA => {
            lemma_corner_is_nearest(p, a, b, c, q);
        },
        Region::CornerB => {
            lemma_corner_is_nearest(p, b, c, a, q);
        },
        Region::CornerC => {
            lemma_corner_is_nearest(p, c, a, b, q);
        },
        Region::EdgeAB => {
            let t = side(a, b, p);
            assert(area * t == -(n * t)) by (nonlinear_arith)
                requires
                    n == -area,
            ;
            lemma_edge_is_nearest(p, a, b, c, q);
        },
        Region::EdgeBC => {
            let t = side(b, c, p);
            assert(area * t == -(n * t)) by (nonlinear_arith)
                requires
                    n == -area,
            ;
            lemma_edge_is_nearest(p, b, c, a, q);
        },
        Region::EdgeCA => {
            let t = side(c, a, p);
            assert(area * t == -(n * t)) by (nonlinear_arith)
                requires
                    n == -area,
            ;
            lemma_edge_is_nearest(p, c, a, b, q);
        },
        Region::Face => {
            lemma_face_is_inside(p, a, b, c);
        },
    }
}

/// A disc that holds a point of a triangle with an area is found by the
/// circle test, where its centre lies in a corner region or in the face.
/// (In an edge region the test looks at the rounded projection, which may
/// be farther from the centre than the edge is by the rounding.)
pub proof fn lemma_circle_test_finds(
    center: Vec2D,
    radius: int,
    a: Vec2D,
    b: Vec2D,
    c: Vec2D,
    q: Vec2D,
)
    requires
        center.within(COORD_MAX as int),
        a.within(COORD_MAX as int),
        b.within(COORD_MAX as int),
        c.within(COORD_MAX as int),
        q.within(COORD_MAX as int),
        side(a, b, c) != 0,
        in_triangle(q, a, b, c),
        distance_squared(center, q) <= radius * radius,
        !(region_of(center, a, b, c) is EdgeAB),
        !(region_of(center, a, b, c) is EdgeBC),
        !(region_of(center, a, b, c) is EdgeCA),
    ensures
        circle_meets_triangle(center, radius, a, b, c),
{
    lemma_closest_is_nearest(center, a, b, c, q);
    if region_of(center, a, b, c) == Region::Face {
        lemma_no_distance(center);
        assert(radius * radius >= 0) by (nonlinear_arith);
    }
}

/// A point has no distance from itself.
proof fn lemma_no_distance(p: Vec2D)
    ensures
        distance_squared(p, p) == 0,
        p.minus(p).spec_len_squared() == 0,
{
    let x = p.x - p.x;
    let y = p.y - p.y;
    assert(x * x + y * y == 0) by (nonlinear_arith)
        requires
            x == 0,
            y == 0,
    ;
}

/// In an edge region the point that is returned is nearly as near as any
/// point of the triangle: a disc that holds a point of the triangle with two
/// raw units to spare holds the returned point.
///
/// The edge leads from `x` to `y`, the third corner is `z`; `p` lies on the
/// outer side of the edge, or on it, and projects onto it.
pub proof fn lemma_edge_point_near(
    p: Vec2D,
    x: Vec2D,
    y: Vec2D,
    z: Vec2D,
    q: Vec2D,
    radius: int,
)
    requires
        p.within(COORD_MAX as int),
        x.within(COORD_MAX as int),
        y.within(COORD_MAX as int),
        z.within(COORD_MAX as int),
        q.within(COORD_MAX as int),
        side(x, y, z) != 0,
        in_triangle(q, x, y, z),
        side(x, y, z) * side(x, y, p) <= 0,
        0 <= p.minus(x).spec_dot(y.minus(x)) <= y.minus(x).spec_len_squared(),
        y.minus(x).spec_len_squared() > 0,
        radius >= 2,
        distance_squared(p, q) <= (radius - 2) * (radius - 2),
    ensures
        distance_squared(
            p,
            along_edge(
                x,
                y.minus(x),
                p.minus(x).spec_dot(y.minus(x)),
                y.minus(x).spec_len_squared(),
            ),
        ) <= radius * radius,
{
    let ex = y.x - x.x;
    let ey = y.y - x.y;
    let wx = p.x - x.x;
    let wy = p.y - x.y;
    let num = wx * ex + wy * ey;
    let den = ex * ex + ey * ey;
    let e = y.minus(x);
    let r = along_edge(x, e, num, den);
    lemma_edge_point(p, x, y);
    lemma_edge_is_nearest(p, x, y, z, q);
    let tx = r.x - x.x;
    let ty = r.y - x.y;
    let rho_x = ex * num - den * tx;
    let rho_y = ey * num - den * ty;
    assert(-den < rho_x < den && -den < rho_y < den);
    // g leads from the projection to p, times den
    let gx = den * wx - ex * num;
    let gy = den * wy - ey * num;
    let t = ex * wy - ey * wx;
    assert(side(x, y, p) == t);
    // g == t * (-ey, ex)
    let xx = ex * ex;
    let yy = ey * ey;
    let xy = ex * ey;
    assert(den * wx == xx * wx + yy * wx && den * wy == xx * wy + yy * wy) by (nonlinear_arith)
        requires
            den == xx + yy,
    ;
    assert(ex * num == xx * wx + xy * wy) by (nonlinear_arith)
        requires
            num == wx * ex + wy * ey,
            xx == ex * ex,
            xy == ex * ey,
    ;
    assert(ey * num == xy * wx + yy * wy) by (nonlinear_arith)
        requires
            num == wx * ex + wy * ey,
            yy == ey * ey,
            xy == ex * ey,
    ;
    assert(t * ey == xy * wy - yy * wx) by (nonlinear_arith)
        requires
            t == ex * wy - ey * wx,
            yy == ey * ey,
            xy == ex * ey,
    ;
    assert(t * ex == xx * wy - xy * wx) by (nonlinear_arith)
        requires
            t == ex * wy - ey * wx,
            xx == ex * ex,
            xy == ex * ey,
    ;
    assert(gx == -(t * ey) && gy == t * ex);
    let tt = t * t;
    let gg = gx * gx + gy * gy;
    assert(gg == tt * den) by (nonlinear_arith)
        requires
            gx == -(t * ey),
            gy == t * ex,
            tt == t * t,
            gg == gx * gx + gy * gy,
            den == ex * ex + ey * ey,
    {
        assert((t * ey) * (t * ey) == (t * t) * (ey * ey));
        assert((t * ex) * (t * ex) == (t * t) * (ex * ex));
    }
    let reach = radius - 2;
    let rr = reach * reach;
    let limit = den * reach;
    assert(tt <= den * rr) by (nonlinear_arith)
        requires
            tt <= den * distance_squared(p, q),
            distance_squared(p, q) <= rr,
            den > 0,
    ;
    assert(gg <= limit * limit) by (nonlinear_arith)
        requires
            gg == tt * den,
            tt <= den * rr,
            den > 0,
            limit == den * reach,
            rr == reach * reach,
    {
        assert(tt * den <= (den * rr) * den);
        assert((den * reach) * (den * reach) == (den * rr) * den);
    }
    // the cross term
    let ax = abs(gx);
    let ay = abs(gy);
    let both = ax + ay;
    assert(gx * gx == ax * ax && gy * gy == ay * ay) by (nonlinear_arith)
        requires
            ax == abs(gx),
            ay == abs(gy),
    ;
    assert(both * both <= 2 * gg) by (nonlinear_arith)
        requires
            both == ax + ay,
            gg == ax * ax + ay * ay,
    {
        assert((ax - ay) * (ax - ay) >= 0);
        assert((ax + ay) * (ax + ay) + (ax - ay) * (ax - ay) == 2 * (ax * ax + ay * ay));
    }
    assert(limit >= 0) by (nonlinear_arith)
        requires
            limit == den * reach,
            den > 0,
            reach >= 0,
    ;
    assert(2 * both <= 3 * limit) by (nonlinear_arith)
        requires
            both * both <= 2 * (limit * limit),
            both >= 0,
            limit >= 0,
    {
        if 2 * both > 3 * limit {
            assert((2 * both) * (2 * both) > (3 * limit) * (3 * limit));
            assert((2 * both) * (2 * both) == 4 * (both * both));
            assert((3 * limit) * (3 * limit) == 9 * (limit * limit));
        }
    }
    let mixed = gx * rho_x + gy * rho_y;
    assert(gx * rho_x <= ax * den && gy * rho_y <= ay * den) by (nonlinear_arith)
        requires
            ax == abs(gx),
            ay == abs(gy),
            -den < rho_x < den,
            -den < rho_y < den,
    ;
    assert(ax * den + ay * den == both * den) by (nonlinear_arith)
        requires
            both == ax + ay,
    ;
    assert(2 * (both * den) <= 3 * (limit * den)) by (nonlinear_arith)
        requires
            2 * both <= 3 * limit,
            den > 0,
    ;
    let dd = den * den;
    assert(rho_x * rho_x <= dd && rho_y * rho_y <= dd) by (nonlinear_arith)
        requires
            -den < rho_x < den,
            -den < rho_y < den,
            dd == den * den,
    ;
    // den * (p - r) == g + rho
    let px = p.x - r.x;
    let py = p.y - r.y;
    let hx = den * px;
    let hy = den * py;
    assert(hx == gx + rho_x && hy == gy + rho_y) by (nonlinear_arith)
        requires
            hx == den * px,
            hy == den * py,
            px == wx - tx,
            py == wy - ty,
            gx == den * wx - ex * num,
            gy == den * wy - ey * num,
            rho_x == ex * num - den * tx,
            rho_y == ey * num - den * ty,
    ;
    let found = px * px + py * py;
    assert(distance_squared(p, r) == found);
    assert(hx * hx + hy * hy == dd * found) by (nonlinear_arith)
        requires
            hx == den * px,
            hy == den * py,
            dd == den * den,
            found == px * px + py * py,
    {
        assert((den * px) * (den * px) == (den * den) * (px * px));
        assert((den * py) * (den * py) == (den * den) * (py * py));
    }
    assert(hx * hx + hy * hy == gg + 2 * mixed + rho_x * rho_x + rho_y * rho_y)
        by (nonlinear_arith)
        requires
            hx == gx + rho_x,
            hy == gy + rho_y,
            gg == gx * gx + gy * gy,
            mixed == gx * rho_x + gy * rho_y,
    ;
    let ll = limit * limit;
    let ld = limit * den;
    assert(dd * found <= ll + 3 * ld + 2 * dd);
    assert(ll + 3 * ld + 2 * dd <= dd * (radius * radius)) by (nonlinear_arith)
        requires
            ll == limit * limit,
            ld == limit * den,
            dd == den * den,
            limit == den * reach,
            reach == radius - 2,
            radius >= 2,
            den > 0,
    {
        assert(limit * limit == dd * (reach * reach));
        assert(limit * den == dd * reach);
        assert(reach * reach + 3 * reach + 2 <= radius * radius);
        assert(dd * (reach * reach) + 3 * (dd * reach) + 2 * dd == dd * (reach * reach + 3 * reach
            + 2));
    }
    assert(found <= radius * radius) by (nonlinear_arith)
        requires
            dd * found <= dd * (radius * radius),
            dd == den * den,
            den > 0,
    ;
}

/// The circle test finds every disc that holds a point of a triangle with
/// two raw units to spare, in whatever region its centre lies.
pub proof fn lemma_circle_test_finds_near(
    center: Vec2D,
    radius: int,
    a: Vec2D,
    b: Vec2D,
    c: Vec2D,
    q: Vec2D,
)
    requires
        center.within(COORD_MAX as int),
        a.within(COORD_MAX as int),
        b.within(COORD_MAX as int),
        c.within(COORD_MAX as int),
        q.within(COORD_MAX as int),
        side(a, b, c) != 0,
        in_triangle(q, a, b, c),
        radius >= 2,
        distance_squared(center, q) <= (radius - 2) * (radius - 2),
    ensures
        circle_meets_triangle(center, radius, a, b, c),
{
    assert((radius - 2) * (radius - 2) <= radius * radius) by (nonlinear_arith)
        requires
            radius >= 2,
    ;
    lemma_sides(a, b, c, center);
    lemma_tests(center, a, b, c);
    lemma_in_triangle_turned(q, a, b, c);
    lemma_edge_parts(a, b, center);
    lemma_edge_parts(b, c, center);
    lemma_edge_parts(c, a, center);
    let area = side(a, b, c);
    let n = b.minus(a).spec_cross(a.minus(c));
    match region_of(center, a, b, c) {
        Region::EdgeAB => {
            let t = side(a, b, center);
            assert(area * t == -(n * t)) by (nonlinear_arith)
                requires
                    n == -area,
            ;
            lemma_edge_point_near(center, a, b, c, q, radius);
        },
        Region::EdgeBC => {
            let t = side(b, c, center);
            assert(area * t == -(n * t)) by (nonlinear_arith)
                requires
                    n == -area,
            ;
            lemma_edge_point_near(center, b, c, a, q, radius);
        },
        Region::EdgeCA => {
            let t = side(c, a, center);
            assert(area * t == -(n * t)) by (nonlinear_arith)
                requires
                    n == -area,
            ;
            lemma_edge_point_near(center, c, a, b, q, radius);
        },
        _ => {
            lemma_circle_test_finds(center, radius, a, b, c, q);
        },
    }
}

/// A triangle whose area the centre of a disc lies strictly in is met by
/// the disc, whatever the radius.
pub proof fn lemma_circle_inside(center: Vec2D, radius: int, a: Vec2D, b: Vec2D, c: Vec2D)
    requires
        center.within(COORD_MAX as int),
        a.within(COORD_MAX as int),
        b.within(COORD_MAX as int),
        c.within(COORD_MAX as int),
        crate::geom::strictly_inside(center, a, b, c),
    ensures
        circle_meets_triangle(center, radius, a, b, c),
{
    crate::geom::lemma_inside_is_fixed(center, a, b, c);
    lemma_no_distance(center);
    assert(radius * radius >= 0) by (nonlinear_arith);
}

} // verus!
