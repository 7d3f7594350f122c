//! Screen-space triangle membership: half-plane edge tests, the winding
//! convention they impose, and the clamped bounding box of a triangle.

use vstd::prelude::*;

use crate::vmath::clamp;
use crate::vmath::spec_clamp;
use crate::vmath::IVec2;

verus! {

/// The edge function of the directed line `(ax, ay) -> (bx, by)` at the
/// point `(px, py)`: the dot product of `p - a` with the right-hand
/// perpendicular of `b - a`. It is zero on the line, and its sign tells
/// the side of the line on which `p` lies.
pub open spec fn edge_fn(ax: int, ay: int, bx: int, by: int, px: int, py: int) -> int {
    (px - ax) * (by - ay) - (py - ay) * (bx - ax)
}

/// The edge function over screen points.
pub open spec fn edge_value(a: IVec2, b: IVec2, p: IVec2) -> int {
    edge_fn(a.x as int, a.y as int, b.x as int, b.y as int, p.x as int, p.y as int)
}

/// Triangle membership: `p` lies on the non-positive side of all three
/// directed edges `a -> b`, `b -> c` and `c -> a`. The test is
/// winding-sensitive: it accepts points only for one vertex order.
pub open spec fn spec_point_in_triangle(p: IVec2, a: IVec2, b: IVec2, c: IVec2) -> bool {
    &&& edge_value(a, b, p) <= 0
    &&& edge_value(b, c, p) <= 0
    &&& edge_value(c, a, p) <= 0
}

/// The smallest of three values.
pub open spec fn min3(a: int, b: int, c: int) -> int {
    if a <= b && a <= c {
        a
    } else if b <= c {
        b
    } else {
        c
    }
}

/// The largest of three values.
pub open spec fn max3(a: int, b: int, c: int) -> int {
    if a >= b && a >= c {
        a
    } else if b >= c {
        b
    } else {
        c
    }
}

/// The lower edge of a triangle's bounding box along one axis, clamped
/// to the viewport range `[0, limit - 1]`.
pub open spec fn spec_bound_lo(a: int, b: int, c: int, limit: int) -> int {
    spec_clamp(min3(a, b, c), 0, limit - 1)
}

/// The upper edge of a triangle's bounding box along one axis, clamped
/// to the viewport range `[0, limit - 1]`.
pub open spec fn spec_bound_hi(a: int, b: int, c: int, limit: int) -> int {
    spec_clamp(max3(a, b, c), 0, limit - 1)
}

proof fn lemma_edge_cyclic(ax: int, ay: int, bx: int, by: int, cx: int, cy: int)
    ensures
        edge_fn(ax, ay, bx, by, cx, cy) == edge_fn(bx, by, cx, cy, ax, ay),
        edge_fn(ax, ay, bx, by, cx, cy) == edge_fn(cx, cy, ax, ay, bx, by),
{
    let e0 = edge_fn(ax, ay, bx, by, cx, cy);
    let e1 = edge_fn(bx, by, cx, cy, ax, ay);
    let e2 = edge_fn(cx, cy, ax, ay, bx, by);
    assert(e0 == e1 && e0 == e2) by (nonlinear_arith)
        requires
            e0 == (cx - ax) * (by - ay) - (cy - ay) * (bx - ax),
            e1 == (ax - bx) * (cy - by) - (ay - by) * (cx - bx),
            e2 == (bx - cx) * (ay - cy) - (by - cy) * (ax - cx),
    ;
}

proof fn lemma_edge_sum(ax: int, ay: int, bx: int, by: int, cx: int, cy: int, px: int, py: int)
    ensures
        edge_fn(bx, by, cx, cy, px, py) + edge_fn(cx, cy, ax, ay, px, py) + edge_fn(
            ax,
            ay,
            bx,
            by,
            px,
            py,
        ) == edge_fn(ax, ay, bx, by, cx, cy),
{
    let e1 = edge_fn(bx, by, cx, cy, px, py);
    let e2 = edge_fn(cx, cy, ax, ay, px, py);
    let e3 = edge_fn(ax, ay, bx, by, px, py);
    let e0 = edge_fn(ax, ay, bx, by, cx, cy);
    let dxa = ax - px;
    let dya = ay - py;
    let dxb = bx - px;
    let dyb = by - py;
    let dxc = cx - px;
    let dyc = cy - py;
    assert(e1 == dxc * dyb - dxb * dyc) by (nonlinear_arith)
        requires
            e1 == (px - bx) * (cy - by) - (py - by) * (cx - bx),
            dxb == bx - px,
            dyb == by - py,
            dxc == cx - px,
            dyc == cy - py,
    ;
    assert(e2 == dxa * dyc - dxc * dya) by (nonlinear_arith)
        requires
            e2 == (px - cx) * (ay - cy) - (py - cy) * (ax - cx),
            dxa == ax - px,
            dya == ay - py,
            dxc == cx - px,
            dyc == cy - py,
    ;
    assert(e3 == dxb * dya - dxa * dyb) by (nonlinear_arith)
        requires
            e3 == (px - ax) * (by - ay) - (py - ay) * (bx - ax),
            dxa == ax - px,
            dya == ay - py,
            dxb == bx - px,
            dyb == by - py,
    ;
    assert(e0 == dxc * dyb - dxb * dyc + dxa * dyc - dxc * dya + dxb * dya - dxa * dyb)
        by (nonlinear_arith)
        requires
            e0 == (cx - ax) * (by - ay) - (cy - ay) * (bx - ax),
            dxa == ax - px,
            dya == ay - py,
            dxb == bx - px,
            dyb == by - py,
            dxc == cx - px,
            dyc == cy - py,
    ;
}

proof fn lemma_edge_barycentric(
    ax: int,
    ay: int,
    bx: int,
    by: int,
    cx: int,
    cy: int,
    px: int,
    py: int,
)
    ensures
        edge_fn(bx, by, cx, cy, px, py) * ax + edge_fn(cx, cy, ax, ay, px, py) * bx + edge_fn(
            ax,
            ay,
            bx,
            by,
            px,
            py,
        ) * cx == edge_fn(ax, ay, bx, by, cx, cy) * px,
        edge_fn(bx, by, cx, cy, px, py) * ay + edge_fn(cx, cy, ax, ay, px, py) * by + edge_fn(
            ax,
            ay,
            bx,
            by,
            px,
            py,
        ) * cy == edge_fn(ax, ay, bx, by, cx, cy) * py,
{
    let e1 = edge_fn(bx, by, cx, cy, px, py);
    let e2 = edge_fn(cx, cy, ax, ay, px, py);
    let e3 = edge_fn(ax, ay, bx, by, px, py);
    let e0 = edge_fn(ax, ay, bx, by, cx, cy);
    let dxa = ax - px;
    let dya = ay - py;
    let dxb = bx - px;
    let dyb = by - py;
    let dxc = cx - px;
    let dyc = cy - py;
    assert(e1 == dxc * dyb - dxb * dyc) by (nonlinear_arith)
        requires
            e1 == (px - bx) * (cy - by) - (py - by) * (cx - bx),
            dxb == bx - px,
            dyb == by - py,
            dxc == cx - px,
            dyc == cy - py,
    ;
    assert(e2 == dxa * dyc - dxc * dya) by (nonlinear_arith)
        requires
            e2 == (px - cx) * (ay - cy) - (py - cy) * (ax - cx),
            dxa == ax - px,
            dya == ay - py,
            dxc == cx - px,
            dyc == cy - py,
    ;
    assert(e3 == dxb * dya - dxa * dyb) by (nonlinear_arith)
        requires
            e3 == (px - ax) * (by - ay) - (py - ay) * (bx - ax),
            dxa == ax - px,
            dya == ay - py,
            dxb == bx - px,
            dyb == by - py,
    ;
    lemma_edge_sum(ax, ay, bx, by, cx, cy, px, py);
    assert(e1 * dxa == dxa * dxc * dyb - dxa * dxb * dyc) by (nonlinear_arith)
        requires
            e1 == dxc * dyb - dxb * dyc,
    ;
    assert(e2 * dxb == dxa * dxb * dyc - dxb * dxc * dya) by (nonlinear_arith)
        requires
            e2 == dxa * dyc - dxc * dya,
    ;
    assert(e3 * dxc == dxb * dxc * dya - dxa * dxc * dyb) by (nonlinear_arith)
        requires
            e3 == dxb * dya - dxa * dyb,
    ;
    assert(e1 * ax == e1 * dxa + e1 * px) by (nonlinear_arith)
        requires
            ax == dxa + px,
    ;
    assert(e2 * bx == e2 * dxb + e2 * px) by (nonlinear_arith)
        requires
            bx == dxb + px,
    ;
    assert(e3 * cx == e3 * dxc + e3 * px) by (nonlinear_arith)
        requires
            cx == dxc + px,
    ;
    assert(e1 * px + e2 * px + e3 * px == e0 * px) by (nonlinear_arith)
        requires
            e0 == e1 + e2 + e3,
    ;
    assert(e1 * ax + e2 * bx + e3 * cx == e0 * px);
    assert(e1 * dya == dya * dxc * dyb - dya * dxb * dyc) by (nonlinear_arith)
        requires
            e1 == dxc * dyb - dxb * dyc,
    ;
    assert(e2 * dyb == dyb * dxa * dyc - dyb * dxc * dya) by (nonlinear_arith)
        requires
            e2 == dxa * dyc - dxc * dya,
    ;
    assert(e3 * dyc == dyc * dxb * dya - dyc * dxa * dyb) by (nonlinear_arith)
        requires
            e3 == dxb * dya - dxa * dyb,
    ;
    assert(dya * dxc * dyb == dyb * dxc * dya && dya * dxb * dyc == dyc * dxb * dya && dyb * dxa
        * dyc == dyc * dxa * dyb) by (nonlinear_arith);
    assert(e1 * ay == e1 * dya + e1 * py) by (nonlinear_arith)
        requires
            ay == dya + py,
    ;
    assert(e2 * by == e2 * dyb + e2 * py) by (nonlinear_arith)
        requires
            by == dyb + py,
    ;
    assert(e3 * cy == e3 * dyc + e3 * py) by (nonlinear_arith)
        requires
            cy == dyc + py,
    ;
    assert(e1 * py + e2 * py + e3 * py == e0 * py) by (nonlinear_arith)
        requires
            e0 == e1 + e2 + e3,
    ;
    assert(e1 * ay + e2 * by + e3 * cy == e0 * py);
}

proof fn lemma_edge_centroid(
    ax: int,
    ay: int,
    bx: int,
    by: int,
    cx: int,
    cy: int,
    gx: int,
    gy: int,
)
    requires
        3 * gx == ax + bx + cx,
        3 * gy == ay + by + cy,
    ensures
        3 * edge_fn(ax, ay, bx, by, gx, gy) == edge_fn(ax, ay, bx, by, cx, cy),
{
    let eg = edge_fn(ax, ay, bx, by, gx, gy);
    let ec = edge_fn(ax, ay, bx, by, cx, cy);
    assert(3 * eg == ec) by (nonlinear_arith)
        requires
            eg == (gx - ax) * (by - ay) - (gy - ay) * (bx - ax),
            ec == (cx - ax) * (by - ay) - (cy - ay) * (bx - ax),
            3 * gx == ax + bx + cx,
            3 * gy == ay + by + cy,
    ;
}

proof fn lemma_weighted_average(
    la: int,
    lb: int,
    lc: int,
    va: int,
    vb: int,
    vc: int,
    v: int,
    lo: int,
    hi: int,
)
    by (nonlinear_arith)
    requires
        la >= 0,
        lb >= 0,
        lc >= 0,
        la + lb + lc > 0,
        la * va + lb * vb + lc * vc == (la + lb + lc) * v,
        lo <= va,
        lo <= vb,
        lo <= vc,
        va <= hi,
        vb <= hi,
        vc <= hi,
    ensures
        lo <= v <= hi,
{
}

/// Law: in a triangle wound the accepted way (the third vertex on the
/// non-positive side of the first edge), the triangle's own centroid
/// passes the membership test. The centroid is given as the exact point
/// `g` with `3 * g == a + b + c`, so the law covers every triangle whose
/// centroid falls on the integer grid.
pub proof fn lemma_centroid_inside(a: IVec2, b: IVec2, c: IVec2, g: IVec2)
    requires
        edge_value(a, b, c) <= 0,
        3 * g.x == a.x + b.x + c.x,
        3 * g.y == a.y + b.y + c.y,
    ensures
        spec_point_in_triangle(g, a, b, c),
{
    let ax = a.x as int;
    let ay = a.y as int;
    let bx = b.x as int;
    let by = b.y as int;
    let cx = c.x as int;
    let cy = c.y as int;
    let gx = g.x as int;
    let gy = g.y as int;
    lemma_edge_centroid(ax, ay, bx, by, cx, cy, gx, gy);
    lemma_edge_centroid(bx, by, cx, cy, ax, ay, gx, gy);
    lemma_edge_centroid(cx, cy, ax, ay, bx, by, gx, gy);
    lemma_edge_cyclic(ax, ay, bx, by, cx, cy);
}

/// Law: the membership test is winding-sensitive. For a triangle wound
/// the opposite way (the third vertex strictly on the positive side of
/// the first edge), no point at all passes the test.
pub proof fn lemma_opposite_winding_never_inside(a: IVec2, b: IVec2, c: IVec2, p: IVec2)
    requires
        edge_value(a, b, c) > 0,
    ensures
        !spec_point_in_triangle(p, a, b, c),
{
    lemma_edge_sum(
        a.x as int,
        a.y as int,
        b.x as int,
        b.y as int,
        c.x as int,
        c.y as int,
        p.x as int,
        p.y as int,
    );
}

/// Law: a non-degenerate triangle wound the accepted way covers no point
/// outside its own axis-aligned bounding box; every point the test
/// accepts lies between the least and greatest vertex coordinates on
/// both axes.
pub proof fn lemma_outside_bounding_box(a: IVec2, b: IVec2, c: IVec2, p: IVec2)
    requires
        edge_value(a, b, c) < 0,
        p.x < min3(a.x as int, b.x as int, c.x as int) || p.x > max3(
            a.x as int,
            b.x as int,
            c.x as int,
        ) || p.y < min3(a.y as int, b.y as int, c.y as int) || p.y > max3(
            a.y as int,
            b.y as int,
            c.y as int,
        ),
    ensures
        !spec_point_in_triangle(p, a, b, c),
{
    if spec_point_in_triangle(p, a, b, c) {
        let ax = a.x as int;
        let ay = a.y as int;
        let bx = b.x as int;
        let by = b.y as int;
        let cx = c.x as int;
        let cy = c.y as int;
        let px = p.x as int;
        let py = p.y as int;
        let e = edge_value(a, b, c);
        let la = -edge_value(b, c, p);
        let lb = -edge_value(c, a, p);
        let lc = -edge_value(a, b, p);
        lemma_edge_sum(ax, ay, bx, by, cx, cy, px, py);
        assert(la + lb + lc == -e);
        lemma_edge_barycentric(ax, ay, bx, by, cx, cy, px, py);
        assert(la * ax + lb * bx + lc * cx == (la + lb + lc) * px) by (nonlinear_arith)
            requires
                (-la) * ax + (-lb) * bx + (-lc) * cx == e * px,
                la + lb + lc == -e,
        ;
        assert(la * ay + lb * by + lc * cy == (la + lb + lc) * py) by (nonlinear_arith)
            requires
                (-la) * ay + (-lb) * by + (-lc) * cy == e * py,
                la + lb + lc == -e,
        ;
        lemma_weighted_average(
            la,
            lb,
            lc,
            ax,
            bx,
            cx,
            px,
            min3(ax, bx, cx),
            max3(ax, bx, cx),
        );
        lemma_weighted_average(
            la,
            lb,
            lc,
            ay,
            by,
            cy,
            py,
            min3(ay, by, cy),
            max3(ay, by, cy),
        );
    }
}

/// Decide on which side of the directed line `a -> b` the point lies.
///
/// True exactly when the edge function is non-positive. The arithmetic
/// is exact for every representable coordinate: differences are taken
/// at twice the coordinate width and products at twice that again.
pub fn is_point_on_rightside_of_line(point: IVec2, a: IVec2, b: IVec2) -> (r: bool)
    ensures
        r == (edge_value(a, b, point) <= 0),
{
    let abx: i64 = b.x as i64 - a.x as i64;
    let aby: i64 = b.y as i64 - a.y as i64;
    let apx: i64 = point.x as i64 - a.x as i64;
    let apy: i64 = point.y as i64 - a.y as i64;
    proof {
        assert(apx as i128 * aby as i128 <= 0x1_0000_0000_0000_0000i128
            && apx as i128 * aby as i128 >= -0x1_0000_0000_0000_0000i128) by (nonlinear_arith)
            requires
                -0x1_0000_0000i64 <= apx <= 0x1_0000_0000i64,
                -0x1_0000_0000i64 <= aby <= 0x1_0000_0000i64;
        assert(apy as i128 * abx as i128 <= 0x1_0000_0000_0000_0000i128
            && apy as i128 * abx as i128 >= -0x1_0000_0000_0000_0000i128) by (nonlinear_arith)
            requires
                -0x1_0000_0000i64 <= apy <= 0x1_0000_0000i64,
                -0x1_0000_0000i64 <= abx <= 0x1_0000_0000i64;
    }
    let d: i128 = apx as i128 * aby as i128 - apy as i128 * abx as i128;
    d <= 0
}

/// Classify a point against a whole triangle: inside exactly when all
/// three edge tests pass.
pub fn is_point_in_triangle(point: IVec2, a: IVec2, b: IVec2, c: IVec2) -> (r: bool)
    ensures
        r == spec_point_in_triangle(point, a, b, c),
{
    let check0 = is_point_on_rightside_of_line(point, a, b);
    let check1 = is_point_on_rightside_of_line(point, b, c);
    let check2 = is_point_on_rightside_of_line(point, c, a);
    check0 && check1 && check2
}

/// The dot product of two screen vectors.
pub fn dot(a: IVec2, b: IVec2) -> (r: i64)
    requires
        i64::MIN <= a.x * b.x + a.y * b.y <= i64::MAX,
    ensures
        r == a.x * b.x + a.y * b.y,
{
    proof {
        assert(a.x as i64 * b.x as i64 <= 0x4000_0000_0000_0000i64
            && a.x as i64 * b.x as i64 >= -0x4000_0000_0000_0000i64) by (nonlinear_arith)
            requires
                -0x8000_0000i64 <= a.x as i64 <= 0x7fff_ffffi64,
                -0x8000_0000i64 <= b.x as i64 <= 0x7fff_ffffi64;
        assert(a.y as i64 * b.y as i64 <= 0x4000_0000_0000_0000i64
            && a.y as i64 * b.y as i64 >= -0x4000_0000_0000_0000i64) by (nonlinear_arith)
            requires
                -0x8000_0000i64 <= a.y as i64 <= 0x7fff_ffffi64,
                -0x8000_0000i64 <= b.y as i64 <= 0x7fff_ffffi64;
    }
    a.x as i64 * b.x as i64 + a.y as i64 * b.y as i64
}

fn min_i32(a: i32, b: i32) -> (r: i32)
    ensures
        r == (if a <= b { a as int } else { b as int }),
{
    if a <= b {
        a
    } else {
        b
    }
}

fn max_i32(a: i32, b: i32) -> (r: i32)
    ensures
        r == (if a >= b { a as int } else { b as int }),
{
    if a >= b {
        a
    } else {
        b
    }
}

/// The axis-aligned bounding box of a screen triangle, clamped to the
/// viewport: both corners always land inside `[0, width - 1]` by
/// `[0, height - 1]`, however far outside the vertices lie.
pub fn triangle_bounds(a: IVec2, b: IVec2, c: IVec2, width: i32, height: i32) -> (r: (
    IVec2,
    IVec2,
))
    requires
        1 <= width,
        1 <= height,
    ensures
        r.0.x == spec_bound_lo(a.x as int, b.x as int, c.x as int, width as int),
        r.0.y == spec_bound_lo(a.y as int, b.y as int, c.y as int, height as int),
        r.1.x == spec_bound_hi(a.x as int, b.x as int, c.x as int, width as int),
        r.1.y == spec_bound_hi(a.y as int, b.y as int, c.y as int, height as int),
        0 <= r.0.x <= r.1.x <= width - 1,
        0 <= r.0.y <= r.1.y <= height - 1,
{
    let lo_x = clamp(min_i32(a.x, min_i32(b.x, c.x)), 0, width - 1);
    let lo_y = clamp(min_i32(a.y, min_i32(b.y, c.y)), 0, height - 1);
    let hi_x = clamp(max_i32(a.x, max_i32(b.x, c.x)), 0, width - 1);
    let hi_y = clamp(max_i32(a.y, max_i32(b.y, c.y)), 0, height - 1);
    (IVec2::new(lo_x, lo_y), IVec2::new(hi_x, hi_y))
}

} // verus!
