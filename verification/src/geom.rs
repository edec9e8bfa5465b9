//! Closest point of a triangle, and circle intersection tests.
//!
//! A triangle is given by its three corners in either winding. All
//! comparisons are closed: a point exactly on an edge or a corner counts as
//! touching.

use crate::fixed::{
    abs, div_trunc, lemma_mul_abs_le, lemma_trunc_div_bounds, lemma_trunc_div_le, trunc_div,
};
use crate::math::Vec2D;
use vstd::prelude::*;

verus! {

/// Largest magnitude of a coordinate that the geometric tests accept: two to
/// the power 40, about sixteen million units.
pub const COORD_MAX: i64 = 0x100_0000_0000;

/// The point `origin + edge * num / den`, each component rounded toward
/// `origin`.
pub open spec fn along_edge(origin: Vec2D, edge: Vec2D, num: int, den: int) -> Vec2D {
    Vec2D {
        x: (origin.x + trunc_div(edge.x * num, den)) as i64,
        y: (origin.y + trunc_div(edge.y * num, den)) as i64,
    }
}

/// Where a point lies with respect to a triangle `a b c`.
#[derive(Clone, Copy, Debug, PartialEq, Eq, Structural)]
pub enum Region {
    /// Before the start of both edges that leave `a`.
    CornerA,
    /// Before the start of both edges that leave `b`.
    CornerB,
    /// Before the start of both edges that leave `c`.
    CornerC,
    /// On the outer side of the edge from `a` to `b`, or on it, and above
    /// it.
    EdgeAB,
    /// On the outer side of the edge from `b` to `c`, or on it, and above
    /// it.
    EdgeBC,
    /// On the outer side of the edge from `c` to `a`, or on it, and above
    /// it.
    EdgeCA,
    /// Everywhere else: inside the triangle.
    Face,
}

/// The region of the triangle `a b c` that holds `p`.
///
/// The plane is cut into seven regions. Around each corner lies the region
/// of the points that project before the start of both edges that leave the
/// corner. Beside each edge lies the region of the points that are on the
/// outer side of the edge, or on it, and project onto it. An edge without
/// length has no region: its two corners are one. Everything else is the
/// face. Where regions meet, the corners come first, then the edges, each
/// in the order of their names.
pub open spec fn region_of(p: Vec2D, a: Vec2D, b: Vec2D, c: Vec2D) -> Region {
    let ab = b.minus(a);
    let ap = p.minus(a);
    let bc = c.minus(b);
    let bp = p.minus(b);
    let ca = a.minus(c);
    let cp = p.minus(c);
    let c_nom = ap.spec_dot(ab);
    let c_denom = -bp.spec_dot(ab);
    let b_nom = cp.spec_dot(ca);
    let b_denom = -ap.spec_dot(ca);
    let a_nom = bp.spec_dot(bc);
    let a_denom = -cp.spec_dot(bc);
    let n = ab.spec_cross(ca);
    if c_nom <= 0 && b_denom <= 0 {
        Region::CornerA
    } else if a_nom <= 0 && c_denom <= 0 {
        Region::CornerB
    } else if b_nom <= 0 && a_denom <= 0 {
        Region::CornerC
    } else if n * ap.spec_cross(bp) >= 0 && c_nom >= 0 && c_denom >= 0 && c_nom + c_denom > 0 {
        Region::EdgeAB
    } else if n * bp.spec_cross(cp) >= 0 && a_nom >= 0 && a_denom >= 0 && a_nom + a_denom > 0 {
        Region::EdgeBC
    } else if n * cp.spec_cross(ap) >= 0 && b_nom >= 0 && b_denom >= 0 && b_nom + b_denom > 0 {
        Region::EdgeCA
    } else {
        Region::Face
    }
}

/// The point of the closed triangle `a b c` that is nearest to `p`: the
/// corner in a corner region, the projection on the edge in an edge region,
/// `p` itself in the face.
///
/// The projection of `p` on the edge from `a` to `b` is
/// `a + ab * t` with `t = (ap . ab) / (ab . ab)`; its coordinates are rounded
/// toward `a`.
pub open spec fn closest_point_on_triangle(p: Vec2D, a: Vec2D, b: Vec2D, c: Vec2D) -> Vec2D {
    let ab = b.minus(a);
    let bc = c.minus(b);
    let ca = a.minus(c);
    match region_of(p, a, b, c) {
        Region::CornerA => a,
        Region::CornerB => b,
        Region::CornerC => c,
        Region::EdgeAB => along_edge(a, ab, p.minus(a).spec_dot(ab), ab.spec_len_squared()),
        Region::EdgeBC => along_edge(b, bc, p.minus(b).spec_dot(bc), bc.spec_len_squared()),
        Region::EdgeCA => along_edge(c, ca, p.minus(c).spec_dot(ca), ca.spec_len_squared()),
        Region::Face => p,
    }
}

/// `point` lies in the closed disc around `center`.
pub open spec fn circle_holds_point(center: Vec2D, radius: int, point: Vec2D) -> bool {
    center.minus(point).spec_len_squared() <= radius * radius
}

/// The closed disc around `center` reaches the closed triangle `a b c`.
pub open spec fn circle_meets_triangle(
    center: Vec2D,
    radius: int,
    a: Vec2D,
    b: Vec2D,
    c: Vec2D,
) -> bool {
    circle_holds_point(center, radius, closest_point_on_triangle(center, a, b, c))
}

/// `p` lies strictly inside the triangle `a b c`: strictly on the same side
/// of all three edges.
pub open spec fn strictly_inside(p: Vec2D, a: Vec2D, b: Vec2D, c: Vec2D) -> bool {
    let side_ab = b.minus(a).spec_cross(p.minus(a));
    let side_bc = c.minus(b).spec_cross(p.minus(b));
    let side_ca = a.minus(c).spec_cross(p.minus(c));
    (side_ab > 0 && side_bc > 0 && side_ca > 0) || (side_ab < 0 && side_bc < 0 && side_ca < 0)
}

/// A product is non-negative exactly when its factors do not have opposite
/// strict signs.
pub proof fn lemma_product_sign(n: int, k: int)
    ensures
        n * k >= 0 <==> ((n >= 0 && k >= 0) || (n <= 0 && k <= 0)),
{
    assert(n * k >= 0 <==> ((n >= 0 && k >= 0) || (n <= 0 && k <= 0))) by (nonlinear_arith);
}

/// A point strictly inside a triangle is its own closest point.
pub proof fn lemma_inside_is_fixed(p: Vec2D, a: Vec2D, b: Vec2D, c: Vec2D)
    requires
        p.within(COORD_MAX as int),
        a.within(COORD_MAX as int),
        b.within(COORD_MAX as int),
        c.within(COORD_MAX as int),
        strictly_inside(p, a, b, c),
    ensures
        closest_point_on_triangle(p, a, b, c) == p,
{
    let abx = b.x - a.x;
    let aby = b.y - a.y;
    let apx = p.x - a.x;
    let apy = p.y - a.y;
    let bcx = c.x - b.x;
    let bcy = c.y - b.y;
    let bpx = p.x - b.x;
    let bpy = p.y - b.y;
    let cax = a.x - c.x;
    let cay = a.y - c.y;
    let cpx = p.x - c.x;
    let cpy = p.y - c.y;
    let ab = b.minus(a);
    let ap = p.minus(a);
    let bc = c.minus(b);
    let bp = p.minus(b);
    let ca = a.minus(c);
    let cp = p.minus(c);
    assert(ab.x == abx && ab.y == aby && ap.x == apx && ap.y == apy);
    assert(bc.x == bcx && bc.y == bcy && bp.x == bpx && bp.y == bpy);
    assert(ca.x == cax && ca.y == cay && cp.x == cpx && cp.y == cpy);
    let side_ab = abx * apy - aby * apx;
    let side_bc = bcx * bpy - bcy * bpx;
    let side_ca = cax * cpy - cay * cpx;
    let n = abx * cay - aby * cax;
    // The three sides add up to the doubled area, which is minus `n`.
    let turn = cax * apy - cay * apx;
    assert(side_ca == turn) by (nonlinear_arith)
        requires
            side_ca == cax * cpy - cay * cpx,
            turn == cax * apy - cay * apx,
            cpx == apx + cax,
            cpy == apy + cay,
    ;
    let sx = abx + cax;
    let sy = aby + cay;
    let first = sx * bpy;
    let second = sy * bpx;
    assert(first == abx * apy - abx * aby + cax * apy - cax * aby) by (nonlinear_arith)
        requires
            first == sx * bpy,
            sx == abx + cax,
            bpy == apy - aby,
    ;
    assert(second == aby * apx - aby * abx + cay * apx - cay * abx) by (nonlinear_arith)
        requires
            second == sy * bpx,
            sy == aby + cay,
            bpx == apx - abx,
    ;
    assert(bcx * bpy == -first) by (nonlinear_arith)
        requires
            bcx == -sx,
            first == sx * bpy,
    ;
    assert(bcy * bpx == -second) by (nonlinear_arith)
        requires
            bcy == -sy,
            second == sy * bpx,
    ;
    assert(abx * aby == aby * abx) by (nonlinear_arith);
    assert(side_bc == -side_ab - turn - n);
    assert(side_ab + side_bc + side_ca == -n);
    // Each edge test looks at the side of the edge, negated or not.
    assert(ap.spec_cross(bp) == side_ab) by (nonlinear_arith)
        requires
            ap.spec_cross(bp) == apx * bpy - apy * bpx,
            side_ab == abx * apy - aby * apx,
            bpx == apx - abx,
            bpy == apy - aby,
    ;
    assert(bp.spec_cross(cp) == side_bc) by (nonlinear_arith)
        requires
            bp.spec_cross(cp) == bpx * cpy - bpy * cpx,
            side_bc == bcx * bpy - bcy * bpx,
            cpx == bpx - bcx,
            cpy == bpy - bcy,
    ;
    assert(cp.spec_cross(ap) == side_ca) by (nonlinear_arith)
        requires
            cp.spec_cross(ap) == cpx * apy - cpy * apx,
            side_ca == cax * cpy - cay * cpx,
            apx == cpx - cax,
            apy == cpy - cay,
    ;
    lemma_product_sign(n, side_ab);
    lemma_product_sign(n, side_bc);
    lemma_product_sign(n, side_ca);
    // No corner region holds `p`: `n` times the squared distance to a corner
    // is a combination of the two dot products with the weights of the
    // neighbouring sides.
    let c_nom = apx * abx + apy * aby;
    let c_denom = -(bpx * abx + bpy * aby);
    let b_nom = cpx * cax + cpy * cay;
    let b_denom = -(apx * cax + apy * cay);
    let a_nom = bpx * bcx + bpy * bcy;
    let a_denom = -(cpx * bcx + cpy * bcy);
    assert(!(c_nom <= 0 && b_denom <= 0)) by {
        assert(abx * (-cay) - aby * (-cax) == -n) by (nonlinear_arith)
            requires
                n == abx * cay - aby * cax,
        ;
        assert(apx * (-cay) - apy * (-cax) == side_ca) by (nonlinear_arith)
            requires
                side_ca == cax * cpy - cay * cpx,
                cpx == apx + cax,
                cpy == apy + cay,
        ;
        assert(apx * (-cax) + apy * (-cay) == b_denom) by (nonlinear_arith)
            requires
                b_denom == -(apx * cax + apy * cay),
        ;
        lemma_corner_excluded(abx, aby, -cax, -cay, apx, apy);
    }
    assert(!(a_nom <= 0 && c_denom <= 0)) by {
        assert(bcx * (-aby) - bcy * (-abx) == -n) by (nonlinear_arith)
            requires
                n == abx * cay - aby * cax,
                bcx == -abx - cax,
                bcy == -aby - cay,
        ;
        assert(bpx * (-aby) - bpy * (-abx) == side_ab) by (nonlinear_arith)
            requires
                side_ab == abx * apy - aby * apx,
                bpx == apx - abx,
                bpy == apy - aby,
        ;
        assert(bpx * (-abx) + bpy * (-aby) == c_denom) by (nonlinear_arith)
            requires
                c_denom == -(bpx * abx + bpy * aby),
        ;
        lemma_corner_excluded(bcx, bcy, -abx, -aby, bpx, bpy);
    }
    assert(!(b_nom <= 0 && a_denom <= 0)) by {
        assert(cax * (-bcy) - cay * (-bcx) == -n) by (nonlinear_arith)
            requires
                n == abx * cay - aby * cax,
                bcx == -abx - cax,
                bcy == -aby - cay,
        ;
        assert(cpx * (-bcy) - cpy * (-bcx) == side_bc) by (nonlinear_arith)
            requires
                side_bc == bcx * bpy - bcy * bpx,
                cpx == bpx - bcx,
                cpy == bpy - bcy,
        ;
        assert(cpx * (-bcx) + cpy * (-bcy) == a_denom) by (nonlinear_arith)
            requires
                a_denom == -(cpx * bcx + cpy * bcy),
        ;
        lemma_corner_excluded(cax, cay, -bcx, -bcy, cpx, cpy);
    }
}

/// Let `u` and `v` be the two edges that leave a corner and `w` lead from the
/// corner to a point strictly between them (the cross products `u x w` and
/// `w x v` have the strict sign of `u x v`). Then `w` has a positive dot
/// product with `u` or with `v`.
pub proof fn lemma_corner_excluded(ux: int, uy: int, vx: int, vy: int, wx: int, wy: int)
    requires
        ({
            let area = ux * vy - uy * vx;
            let left = ux * wy - uy * wx;
            let right = wx * vy - wy * vx;
            (area > 0 && left > 0 && right > 0) || (area < 0 && left < 0 && right < 0)
        }),
    ensures
        !(wx * ux + wy * uy <= 0 && wx * vx + wy * vy <= 0),
{
    let area = ux * vy - uy * vx;
    let left = ux * wy - uy * wx;
    let right = wx * vy - wy * vx;
    let du = wx * ux + wy * uy;
    let dv = wx * vx + wy * vy;
    let ww = wx * wx + wy * wy;
    // area * w == right * u + left * v, component by component, then dotted
    // with w.
    assert(area * wx == right * ux + left * vx) by (nonlinear_arith)
        requires
            area == ux * vy - uy * vx,
            left == ux * wy - uy * wx,
            right == wx * vy - wy * vx,
    ;
    assert(area * wy == right * uy + left * vy) by (nonlinear_arith)
        requires
            area == ux * vy - uy * vx,
            left == ux * wy - uy * wx,
            right == wx * vy - wy * vx,
    ;
    let sx = area * wx;
    let sy = area * wy;
    assert(area * ww == sx * wx + sy * wy) by (nonlinear_arith)
        requires
            ww == wx * wx + wy * wy,
            sx == area * wx,
            sy == area * wy,
    ;
    let uxw = ux * wx;
    let uyw = uy * wy;
    let vxw = vx * wx;
    let vyw = vy * wy;
    assert(sx * wx == right * uxw + left * vxw) by (nonlinear_arith)
        requires
            sx == right * ux + left * vx,
            uxw == ux * wx,
            vxw == vx * wx,
    ;
    assert(sy * wy == right * uyw + left * vyw) by (nonlinear_arith)
        requires
            sy == right * uy + left * vy,
            uyw == uy * wy,
            vyw == vy * wy,
    ;
    assert(du == uxw + uyw && dv == vxw + vyw) by (nonlinear_arith)
        requires
            du == wx * ux + wy * uy,
            dv == wx * vx + wy * vy,
            uxw == ux * wx,
            uyw == uy * wy,
            vxw == vx * wx,
            vyw == vy * wy,
    ;
    assert(right * du == right * uxw + right * uyw) by (nonlinear_arith)
        requires
            du == uxw + uyw,
    ;
    assert(left * dv == left * vxw + left * vyw) by (nonlinear_arith)
        requires
            dv == vxw + vyw,
    ;
    assert(ww > 0) by (nonlinear_arith)
        requires
            ww == wx * wx + wy * wy,
            left == ux * wy - uy * wx,
            left != 0,
    ;
    if du <= 0 && dv <= 0 {
        if area > 0 {
            assert(area * ww > 0) by (nonlinear_arith)
                requires
                    area > 0,
                    ww > 0,
            ;
            assert(right * du + left * dv <= 0) by (nonlinear_arith)
                requires
                    right > 0,
                    left > 0,
                    du <= 0,
                    dv <= 0,
            ;
        } else {
            assert(area * ww < 0) by (nonlinear_arith)
                requires
                    area < 0,
                    ww > 0,
            ;
            assert(right * du + left * dv >= 0) by (nonlinear_arith)
                requires
                    right < 0,
                    left < 0,
                    du <= 0,
                    dv <= 0,
            ;
        }
    }
}

/// The interpolated point stays in the coordinate range when both ends of
/// the edge do.
proof fn lemma_along_edge_within(origin: Vec2D, end: Vec2D, num: int, den: int)
    requires
        origin.within(COORD_MAX as int),
        end.within(COORD_MAX as int),
        0 <= num <= den,
        0 < den,
    ensures
        along_edge(origin, end.minus(origin), num, den).within(COORD_MAX as int),
{
    let edge = end.minus(origin);
    lemma_step_toward(edge.x as int, num, den);
    lemma_step_toward(edge.y as int, num, den);
}

/// A fraction `num / den` in `0 ..= 1` of a step `e` lies between zero and
/// `e`.
proof fn lemma_step_toward(e: int, num: int, den: int)
    requires
        0 <= num <= den,
        den > 0,
    ensures
        e >= 0 ==> 0 <= trunc_div(e * num, den) <= e,
        e <= 0 ==> e <= trunc_div(e * num, den) <= 0,
{
    lemma_trunc_div_bounds(e * num, den);
    assert(abs(e * num) <= abs(e) * den) by (nonlinear_arith)
        requires
            0 <= num <= den,
    ;
    lemma_trunc_div_le(e * num, den, abs(e) * den);
    vstd::arithmetic::div_mod::lemma_div_multiples_vanish(abs(e), den);
    assert(abs(e) * den == den * abs(e)) by (nonlinear_arith);
    assert(e >= 0 ==> e * num >= 0) by (nonlinear_arith)
        requires
            0 <= num,
    ;
    assert(e <= 0 ==> e * num <= 0) by (nonlinear_arith)
        requires
            0 <= num,
    ;
}

/// The two parts into which the projection of a point cuts an edge add up
/// to the edge: with `w` leading from the start of the edge `e` to the
/// point, `w . e - (w - e) . e == e . e`.
pub proof fn lemma_edge_parts(start: Vec2D, end: Vec2D, p: Vec2D)
    requires
        start.within(COORD_MAX as int),
        end.within(COORD_MAX as int),
        p.within(COORD_MAX as int),
    ensures
        p.minus(start).spec_dot(end.minus(start)) - p.minus(end).spec_dot(end.minus(start))
            == end.minus(start).spec_len_squared(),
        end.minus(start).spec_len_squared() >= 0,
{
    let ex = end.x - start.x;
    let ey = end.y - start.y;
    let wx = p.x - start.x;
    let wy = p.y - start.y;
    let tx = p.x - end.x;
    let ty = p.y - end.y;
    assert(wx * ex - tx * ex == ex * ex) by (nonlinear_arith)
        requires
            tx == wx - ex,
    ;
    assert(wy * ey - ty * ey == ey * ey) by (nonlinear_arith)
        requires
            ty == wy - ey,
    ;
    assert(ex * ex >= 0 && ey * ey >= 0) by (nonlinear_arith);
}

/// The sign test `n * k >= 0` without forming the product.
fn product_is_nonneg(n: i128, k: i128) -> (r: bool)
    ensures
        r == (n * k >= 0),
{
    proof {
        lemma_product_sign(n as int, k as int);
    }
    (n >= 0 && k >= 0) || (n <= 0 && k <= 0)
}

/// The point `origin + edge * num / den` of an edge that starts at `origin`.
fn point_along_edge(origin: Vec2D, end: Vec2D, num: i128, den: i128) -> (q: Vec2D)
    requires
        origin.within(COORD_MAX as int),
        end.within(COORD_MAX as int),
        0 <= num <= den,
        0 < den <= 0x20_0000_0000_0000_0000_0000,
    ensures
        q == along_edge(origin, end.minus(origin), num as int, den as int),
        q.within(COORD_MAX as int),
{
    proof {
        lemma_along_edge_within(origin, end, num as int, den as int);
    }
    let ex: i128 = (end.x - origin.x) as i128;
    let ey: i128 = (end.y - origin.y) as i128;
    proof {
        lemma_mul_abs_le(ex as int, num as int, 0x200_0000_0000, 0x20_0000_0000_0000_0000_0000);
        lemma_mul_abs_le(ey as int, num as int, 0x200_0000_0000, 0x20_0000_0000_0000_0000_0000);
        lemma_step_toward(ex as int, num as int, den as int);
        lemma_step_toward(ey as int, num as int, den as int);
    }
    let dx: i128 = div_trunc(ex * num, den);
    let dy: i128 = div_trunc(ey * num, den);
    Vec2D { x: origin.x + (dx as i64), y: origin.y + (dy as i64) }
}

/// The point of the closed triangle `a b c` that is nearest to `p`, with
/// coordinates rounded toward the start of the edge it lies on.
pub fn closest_triangle_point(p: Vec2D, a: Vec2D, b: Vec2D, c: Vec2D) -> (q: Vec2D)
    requires
        p.within(COORD_MAX as int),
        a.within(COORD_MAX as int),
        b.within(COORD_MAX as int),
        c.within(COORD_MAX as int),
    ensures
        q == closest_point_on_triangle(p, a, b, c),
        q.within(COORD_MAX as int),
{
    let ab: Vec2D = b - a;
    let ap: Vec2D = p - a;
    let bc: Vec2D = c - b;
    let bp: Vec2D = p - b;
    let ca: Vec2D = a - c;
    let cp: Vec2D = p - c;
    proof {
        lemma_edge_parts(a, b, p);
        lemma_edge_parts(b, c, p);
        lemma_edge_parts(c, a, p);
        ap.lemma_product_bounds(ab, 0x200_0000_0000, 0x200_0000_0000);
        bp.lemma_product_bounds(ab, 0x200_0000_0000, 0x200_0000_0000);
        cp.lemma_product_bounds(ca, 0x200_0000_0000, 0x200_0000_0000);
        ap.lemma_product_bounds(ca, 0x200_0000_0000, 0x200_0000_0000);
        bp.lemma_product_bounds(bc, 0x200_0000_0000, 0x200_0000_0000);
        cp.lemma_product_bounds(bc, 0x200_0000_0000, 0x200_0000_0000);
    }

    // Corner regions: the parameter of the projection of `p` on an edge is
    // nom / (nom + denom).
    let c_nom: i128 = ap.dot(ab);
    let c_denom: i128 = -bp.dot(ab);
    let b_nom: i128 = cp.dot(ca);
    let b_denom: i128 = -ap.dot(ca);
    if c_nom <= 0 && b_denom <= 0 {
        return a;
    }
    let a_nom: i128 = bp.dot(bc);
    let a_denom: i128 = -cp.dot(bc);
    if a_nom <= 0 && c_denom <= 0 {
        return b;
    }
    if b_nom <= 0 && a_denom <= 0 {
        return c;
    }
    // Edge regions: `p` is outside an edge, or on it, when the side of the
    // edge that it lies on is not the side of the third corner.

    let n: i128 = ab.cross(ca);
    if product_is_nonneg(n, ap.cross(bp)) && c_nom >= 0 && c_denom >= 0 && c_nom + c_denom > 0 {
        return point_along_edge(a, b, c_nom, c_nom + c_denom);
    }
    if product_is_nonneg(n, bp.cross(cp)) && a_nom >= 0 && a_denom >= 0 && a_nom + a_denom > 0 {
        return point_along_edge(b, c, a_nom, a_nom + a_denom);
    }
    if product_is_nonneg(n, cp.cross(ap)) && b_nom >= 0 && b_denom >= 0 && b_nom + b_denom > 0 {
        return point_along_edge(c, a, b_nom, b_nom + b_denom);
    }
    // Face region.

    p
}

/// Whether the closed disc around `center` reaches the closed triangle
/// `a b c`.
pub fn test_circle_triangle(center: Vec2D, radius: i64, a: Vec2D, b: Vec2D, c: Vec2D) -> (hit:
    bool)
    requires
        center.within(COORD_MAX as int),
        a.within(COORD_MAX as int),
        b.within(COORD_MAX as int),
        c.within(COORD_MAX as int),
    ensures
        hit == circle_meets_triangle(center, radius as int, a, b, c),
{
    test_circle_point(center, radius, closest_triangle_point(center, a, b, c))
}

/// Whether `point` lies in the closed disc around `center`: its squared
/// distance to `center` is at most the squared radius.
pub fn test_circle_point(center: Vec2D, radius: i64, point: Vec2D) -> (hit: bool)
    requires
        center.within(COORD_MAX as int),
        point.within(COORD_MAX as int),
    ensures
        hit == circle_holds_point(center, radius as int, point),
{
    proof {
        lemma_mul_abs_le(
            radius as int,
            radius as int,
            0x8000_0000_0000_0000,
            0x8000_0000_0000_0000,
        );
    }
    let wide: i128 = radius as i128;
    (center - point).len_squared() <= wide * wide
}

} // verus!
