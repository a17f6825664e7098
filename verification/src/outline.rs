//! Which polygons are convex, and on which side of such a polygon its
//! outline lies.

use crate::geometry::{edge_normal, outline_vertex};
use crate::scalar::{trunc_div, Scalar, MIN_RAW};
use crate::vector2::Vector2;
use vstd::prelude::*;

verus! {

/// The vertex after vertex `j`, round the polygon.
pub open spec fn following(vertices: Seq<Vector2>, j: int) -> int {
    if j + 1 < vertices.len() {
        j + 1
    } else {
        0
    }
}

/// The vertex before vertex `j`, round the polygon.
pub open spec fn preceding(vertices: Seq<Vector2>, j: int) -> int {
    if j < 1 {
        vertices.len() - 1
    } else {
        j - 1
    }
}

/// The edge that leaves vertex `j`.
pub open spec fn edge(vertices: Seq<Vector2>, j: int) -> Vector2 {
    vertices[following(vertices, j)].spec_minus(vertices[j])
}

/// Largest raw coordinate of a polygon of which this module speaks: none
/// of its differences saturates.
pub const REACH: i32 = 0x1000_0000;

/// Whether every coordinate of every vertex is within `REACH`.
pub open spec fn is_within_reach(vertices: Seq<Vector2>) -> bool {
    forall|j: int|
        0 <= j < vertices.len() ==> -REACH <= (#[trigger] vertices[j]).x.raw <= REACH && -REACH
            <= vertices[j].y.raw <= REACH
}

/// Whether the polygon turns to the left at vertex `j`, and by a right
/// angle at the most.
pub open spec fn is_gentle_corner(vertices: Seq<Vector2>, j: int) -> bool {
    let arriving = edge(vertices, preceding(vertices, j));
    let leaving = edge(vertices, j);
    arriving.cross_exact(leaving) > 0 && arriving.dot_exact(leaving) >= 0
}

/// Twice the area of the triangles from the first vertex to the edges up
/// to vertex `upto`, counted positive where they run counter-clockwise.
pub open spec fn fan_area(vertices: Seq<Vector2>, upto: int) -> int
    decreases upto,
{
    if upto < 2 {
        0
    } else {
        fan_area(vertices, upto - 1) + vertices[upto - 1].spec_minus(vertices[0]).cross_exact(
            vertices[upto].spec_minus(vertices[0]),
        )
    }
}

/// Twice the signed area of the polygon, in units of `1 / 65536²`:
/// positive where the vertices run counter-clockwise.
pub open spec fn doubled_area(vertices: Seq<Vector2>) -> int {
    fan_area(vertices, vertices.len() - 1)
}

/// Whether the polygon has three vertices or more, runs counter-clockwise
/// and turns gently at every vertex; such a polygon is convex.
pub open spec fn is_gently_convex(vertices: Seq<Vector2>) -> bool {
    &&& vertices.len() >= 3
    &&& is_within_reach(vertices)
    &&& doubled_area(vertices) > 0
    &&& forall|j: int| 0 <= j < vertices.len() ==> #[trigger] is_gentle_corner(vertices, j)
}

/// Whether a point lies in a convex counter-clockwise polygon or on its
/// boundary: it lies to the right of none of the edges.
pub open spec fn lies_inside(vertices: Seq<Vector2>, point: Vector2) -> bool {
    forall|j: int|
        0 <= j < vertices.len() ==> (#[trigger] edge(vertices, j)).cross_exact(
            point.spec_minus(vertices[j]),
        ) >= 0
}

/// A whole number's distance from zero.
pub open spec fn magnitude(v: int) -> int {
    if v >= 0 {
        v
    } else {
        -v
    }
}

/// What a quotient rounded toward zero leaves over is less than the
/// divisor, either way.
proof fn lemma_truncation_remainder(n: int, d: int)
    requires
        d > 0,
    ensures
        -d < n - trunc_div(n, d) * d < d,
{
    if n >= 0 {
        assert(0 <= n - (n / d) * d < d) by (nonlinear_arith)
            requires
                d > 0,
                n >= 0,
        ;
    } else {
        let m = -n;
        assert(0 <= m - (m / d) * d < d) by (nonlinear_arith)
            requires
                d > 0,
                m >= 0,
        ;
        assert((-(m / d)) * d == -((m / d) * d)) by (nonlinear_arith);
    }
}

/// A product with a factor between `-d` and `d` lies between the products
/// with them.
proof fn lemma_bounded_product(x: int, r: int, d: int)
    requires
        -d < r < d,
    ensures
        -(magnitude(x) * d) <= x * r <= magnitude(x) * d,
{
    if x >= 0 {
        assert(-(x * d) <= x * r <= x * d) by (nonlinear_arith)
            requires
                x >= 0,
                -d < r < d,
        ;
    } else {
        let m = -x;
        assert(-(m * d) <= m * r <= m * d) by (nonlinear_arith)
            requires
                m >= 0,
                -d < r < d,
        ;
        assert(x * r == -(m * r)) by (nonlinear_arith)
            requires
                m == -x,
        ;
    }
}

/// Scaling a vector `(vx, vy)` by `k / d` and rounding its coordinates
/// toward zero moves it across the line along `(ex, ey)` by less than the
/// edge is long: `d` times the cross product with the scaled vector is at
/// most `k` times that with the vector, and `d` for each unit of the edge.
proof fn lemma_side_after_scaling(ex: int, ey: int, vx: int, vy: int, k: int, d: int)
    requires
        d > 0,
    ensures
        (ex * trunc_div(vy * k, d) - ey * trunc_div(vx * k, d)) * d <= k * (ex * vy - ey * vx) + (
        magnitude(ex) + magnitude(ey)) * d,
{
    let wx = trunc_div(vx * k, d);
    let wy = trunc_div(vy * k, d);
    let rx = vx * k - wx * d;
    let ry = vy * k - wy * d;
    lemma_truncation_remainder(vx * k, d);
    lemma_truncation_remainder(vy * k, d);
    lemma_bounded_product(ex, ry, d);
    lemma_bounded_product(ey, rx, d);
    let a = wy * d;
    let b = wx * d;
    assert((ex * wy - ey * wx) * d == ex * a - ey * b) by (nonlinear_arith)
        requires
            a == wy * d,
            b == wx * d,
    ;
    let p = vy * k;
    let q = vx * k;
    assert(ex * a == ex * p - ex * ry) by (nonlinear_arith)
        requires
            a == p - ry,
    ;
    assert(ey * b == ey * q - ey * rx) by (nonlinear_arith)
        requires
            b == q - rx,
    ;
    assert(ex * p == k * (ex * vy)) by (nonlinear_arith)
        requires
            p == vy * k,
    ;
    assert(ey * q == k * (ey * vx)) by (nonlinear_arith)
        requires
            q == vx * k,
    ;
    assert(k * (ex * vy - ey * vx) == k * (ex * vy) - k * (ey * vx)) by (nonlinear_arith);
    assert((magnitude(ex) + magnitude(ey)) * d == magnitude(ex) * d + magnitude(ey) * d)
        by (nonlinear_arith);
}

/// The offset at a corner points to the right of an edge that meets
/// there, where the other edge does not turn back against it.
///
/// With `edge` one of the two edges and `other` the other one, neither
/// without length and the two at a right angle at the sharpest, the
/// direction between their right-hand normals, scaled by a margin of nine
/// raw units or more, lies strictly to the right of `edge`.
pub proof fn lemma_offset_lies_right(edge: Vector2, other: Vector2, margin: Scalar)
    requires
        edge.norm2() > 0,
        other.norm2() > 0,
        edge.dot_exact(other) >= 0,
        edge.x.raw > MIN_RAW,
        edge.y.raw > MIN_RAW,
        other.x.raw > MIN_RAW,
        other.y.raw > MIN_RAW,
        margin.raw >= 9,
    ensures
        edge.cross_exact(
            edge.spec_right().spec_normalized().spec_plus(
                other.spec_right().spec_normalized(),
            ).spec_normalized().spec_scaled(margin),
        ) < 0,
{
    let ex = edge.x.raw as int;
    let ey = edge.y.raw as int;
    let a = magnitude(ex) + magnitude(ey);
    let big = 0x1_0000_0000int;
    assert(a >= 1) by (nonlinear_arith)
        requires
            ex * ex + ey * ey > 0,
            a == magnitude(ex) + magnitude(ey),
    ;
    // the normal of the edge itself
    let own = edge.spec_right();
    assert(own.x.raw == ey && own.y.raw == -ex);
    assert(own.norm2() == edge.norm2()) by (nonlinear_arith)
        requires
            own.norm2() == own.x.raw * own.x.raw + own.y.raw * own.y.raw,
            edge.norm2() == ex * ex + ey * ey,
            own.x.raw == ey,
            own.y.raw == -ex,
    ;
    own.lemma_normalized_parts();
    let l = own.fine_length();
    let n1 = own.spec_normalized();
    lemma_side_after_scaling(ex, ey, own.x.raw as int, own.y.raw as int, big, l);
    let c1 = ex * n1.y.raw - ey * n1.x.raw;
    assert(ex * own.y.raw - ey * own.x.raw == -edge.norm2()) by (nonlinear_arith)
        requires
            own.x.raw == ey,
            own.y.raw == -ex,
            edge.norm2() == ex * ex + ey * ey,
    ;
    assert(c1 * l <= -(l * l) + a * l) by (nonlinear_arith)
        requires
            c1 * l <= big * (-edge.norm2()) + a * l,
            l * l <= edge.norm2() * big,
            big == 0x1_0000_0000,
    ;
    assert(c1 <= -l + a) by (nonlinear_arith)
        requires
            c1 * l <= -(l * l) + a * l,
            l > 0,
    ;
    assert(a * 32768 <= l);
    // the normal of the other edge
    let far = other.spec_right();
    assert(far.x.raw == other.y.raw && far.y.raw == -other.x.raw);
    assert(far.norm2() == other.norm2()) by (nonlinear_arith)
        requires
            far.norm2() == far.x.raw * far.x.raw + far.y.raw * far.y.raw,
            other.norm2() == other.x.raw * other.x.raw + other.y.raw * other.y.raw,
            far.x.raw == other.y.raw,
            far.y.raw == -other.x.raw,
    ;
    far.lemma_normalized_parts();
    far.lemma_normalized_is_unit();
    own.lemma_normalized_is_unit();
    let m = far.fine_length();
    let n2 = far.spec_normalized();
    lemma_side_after_scaling(ex, ey, far.x.raw as int, far.y.raw as int, big, m);
    let c2 = ex * n2.y.raw - ey * n2.x.raw;
    assert(ex * far.y.raw - ey * far.x.raw == -edge.dot_exact(other)) by (nonlinear_arith)
        requires
            far.x.raw == other.y.raw,
            far.y.raw == -other.x.raw,
            edge.dot_exact(other) == ex * other.x.raw + ey * other.y.raw,
    ;
    assert(c2 <= a) by (nonlinear_arith)
        requires
            c2 * m <= big * (-edge.dot_exact(other)) + a * m,
            edge.dot_exact(other) >= 0,
            big > 0,
            m > 0,
    ;
    // their sum
    let s = n1.spec_plus(n2);
    assert(s.x.raw == n1.x.raw + n2.x.raw && s.y.raw == n1.y.raw + n2.y.raw);
    let c3 = ex * s.y.raw - ey * s.x.raw;
    assert(c3 == c1 + c2) by (nonlinear_arith)
        requires
            c3 == ex * (n1.y.raw + n2.y.raw) - ey * (n1.x.raw + n2.x.raw),
            c1 == ex * n1.y.raw - ey * n1.x.raw,
            c2 == ex * n2.y.raw - ey * n2.x.raw,
    ;
    assert(c3 <= -(32766 * a));
    assert(s.norm2() > 0) by {
        if s.x.raw == 0 && s.y.raw == 0 {
            assert(c3 == 0) by (nonlinear_arith)
                requires
                    c3 == ex * s.y.raw - ey * s.x.raw,
                    s.x.raw == 0,
                    s.y.raw == 0,
            ;
        }
        assert(s.x.raw * s.x.raw + s.y.raw * s.y.raw > 0) by (nonlinear_arith)
            requires
                s.x.raw != 0 || s.y.raw != 0,
        ;
    }
    // the direction of the sum
    s.lemma_normalized_parts();
    s.lemma_normalized_is_unit();
    let t = s.fine_length();
    let dir = s.spec_normalized();
    assert(s.norm2() <= 0x8_0000_0000) by (nonlinear_arith)
        requires
            s.norm2() == s.x.raw * s.x.raw + s.y.raw * s.y.raw,
            -131072 <= s.x.raw <= 131072,
            -131072 <= s.y.raw <= 131072,
    ;
    assert(t < 0x4_0000_0000) by (nonlinear_arith)
        requires
            t >= 0,
            t * t <= s.norm2() * 0x1_0000_0000,
            s.norm2() <= 0x8_0000_0000,
    ;
    lemma_side_after_scaling(ex, ey, s.x.raw as int, s.y.raw as int, big, t);
    let c4 = ex * dir.y.raw - ey * dir.x.raw;
    assert(c4 <= -(8190 * a)) by (nonlinear_arith)
        requires
            c4 * t <= big * c3 + a * t,
            c3 <= -(32766 * a),
            big == 0x1_0000_0000,
            0 < t < 0x4_0000_0000,
            a >= 1,
    ;
    // as far as the margin
    let o = dir.spec_scaled(margin);
    let ox = trunc_div(dir.x.raw * margin.raw, 65536);
    let oy = trunc_div(dir.y.raw * margin.raw, 65536);
    assert(-margin.raw <= ox <= margin.raw) by (nonlinear_arith)
        requires
            -65536 <= dir.x.raw <= 65536,
            margin.raw >= 0,
            ox == trunc_div(dir.x.raw * margin.raw, 65536),
    ;
    assert(-margin.raw <= oy <= margin.raw) by (nonlinear_arith)
        requires
            -65536 <= dir.y.raw <= 65536,
            margin.raw >= 0,
            oy == trunc_div(dir.y.raw * margin.raw, 65536),
    ;
    assert(o.x.raw == ox && o.y.raw == oy);
    lemma_side_after_scaling(ex, ey, dir.x.raw as int, dir.y.raw as int, margin.raw as int, 65536);
    let c5 = ex * oy - ey * ox;
    assert(c5 < 0) by (nonlinear_arith)
        requires
            c5 * 65536 <= margin.raw * c4 + a * 65536,
            c4 <= -(8190 * a),
            margin.raw >= 9,
            a >= 1,
    ;
}

/// The outline of a polygon lies outside it at every gentle corner: the
/// outline vertex lies strictly to the right of both edges that meet at
/// the corner, so not in the polygon, and no farther from the corner than
/// the margin along either axis.
pub proof fn lemma_outline_vertex_lies_outside(vertices: Seq<Vector2>, margin: Scalar, j: int)
    requires
        vertices.len() >= 2,
        0 <= j < vertices.len(),
        is_within_reach(vertices),
        is_gentle_corner(vertices, j),
        9 <= margin.raw <= REACH,
    ensures
        edge(vertices, j).cross_exact(
            outline_vertex(vertices, margin, j).spec_minus(vertices[j]),
        ) < 0,
        edge(vertices, preceding(vertices, j)).cross_exact(
            outline_vertex(vertices, margin, j).spec_minus(vertices[preceding(vertices, j)]),
        ) < 0,
        !lies_inside(vertices, outline_vertex(vertices, margin, j)),
        -margin.raw <= outline_vertex(vertices, margin, j).x.raw - vertices[j].x.raw <= margin.raw,
        -margin.raw <= outline_vertex(vertices, margin, j).y.raw - vertices[j].y.raw <= margin.raw,
{
    let before = preceding(vertices, j);
    let after = following(vertices, j);
    assert(following(vertices, before) == j);
    let here = vertices[j];
    let back = vertices[before];
    let ahead = vertices[after];
    let arriving = edge(vertices, before);
    let leaving = edge(vertices, j);
    assert(arriving.x.raw == here.x.raw - back.x.raw && arriving.y.raw == here.y.raw - back.y.raw);
    assert(leaving.x.raw == ahead.x.raw - here.x.raw && leaving.y.raw == ahead.y.raw - here.y.raw);
    assert(arriving.norm2() > 0 && leaving.norm2() > 0) by (nonlinear_arith)
        requires
            arriving.x.raw * leaving.y.raw - arriving.y.raw * leaving.x.raw > 0,
            arriving.norm2() == arriving.x.raw * arriving.x.raw + arriving.y.raw * arriving.y.raw,
            leaving.norm2() == leaving.x.raw * leaving.x.raw + leaving.y.raw * leaving.y.raw,
    ;
    assert(leaving.dot_exact(arriving) == arriving.dot_exact(leaving)) by (nonlinear_arith)
        requires
            leaving.dot_exact(arriving) == leaving.x.raw * arriving.x.raw + leaving.y.raw
                * arriving.y.raw,
            arriving.dot_exact(leaving) == arriving.x.raw * leaving.x.raw + arriving.y.raw
                * leaving.y.raw,
    ;
    let n_leaving = leaving.spec_right().spec_normalized();
    let n_arriving = arriving.spec_right().spec_normalized();
    assert(edge_normal(vertices, j) == n_leaving);
    assert(edge_normal(vertices, before) == n_arriving);
    let offset = n_leaving.spec_plus(n_arriving).spec_normalized().spec_scaled(margin);
    assert(n_arriving.spec_plus(n_leaving) == n_leaving.spec_plus(n_arriving));
    lemma_offset_lies_right(leaving, arriving, margin);
    lemma_offset_lies_right(arriving, leaving, margin);
    // the offset is no longer than the margin, so nothing saturates
    let dir = n_leaving.spec_plus(n_arriving).spec_normalized();
    leaving.spec_right().lemma_normalized_is_unit_or_zero();
    arriving.spec_right().lemma_normalized_is_unit_or_zero();
    n_leaving.spec_plus(n_arriving).lemma_normalized_is_unit_or_zero();
    assert(-margin.raw <= trunc_div(dir.x.raw * margin.raw, 65536) <= margin.raw)
        by (nonlinear_arith)
        requires
            -65536 <= dir.x.raw <= 65536,
            margin.raw >= 0,
    ;
    assert(-margin.raw <= trunc_div(dir.y.raw * margin.raw, 65536) <= margin.raw)
        by (nonlinear_arith)
        requires
            -65536 <= dir.y.raw <= 65536,
            margin.raw >= 0,
    ;
    let moved = outline_vertex(vertices, margin, j);
    assert(moved == here.spec_plus(offset));
    assert(moved.spec_minus(here) == offset);
    let across = moved.spec_minus(back);
    assert(across.x.raw == arriving.x.raw + offset.x.raw);
    assert(across.y.raw == arriving.y.raw + offset.y.raw);
    assert(arriving.cross_exact(across) == arriving.cross_exact(offset)) by (nonlinear_arith)
        requires
            arriving.cross_exact(across) == arriving.x.raw * (arriving.y.raw + offset.y.raw)
                - arriving.y.raw * (arriving.x.raw + offset.x.raw),
            arriving.cross_exact(offset) == arriving.x.raw * offset.y.raw - arriving.y.raw
                * offset.x.raw,
    ;
    assert(edge(vertices, j).cross_exact(moved.spec_minus(vertices[j])) < 0);
}

} // verus!
