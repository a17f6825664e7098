//! Segments, circles and polygons, and the time at which a moving point
//! meets a circle.

use crate::scalar::{
    ceil_sqrt, floor_sqrt, isqrt, lemma_sqrt_exists, saturate, saturate_i128, trunc_div, Scalar,
    ONE_RAW,
};
use crate::outline::{
    is_gentle_corner, is_gently_convex, lemma_outline_vertex_lies_outside, lies_inside, REACH,
};
use crate::vector2::{raw_product, Vector2};
use vstd::prelude::*;

verus! {

/// The path from `start` to `end`.
#[derive(Clone, Copy, PartialEq, Eq, Structural, Debug)]
pub struct Segment2 {
    pub start: Vector2,
    pub end: Vector2,
}

/// The circle round `center`.
#[derive(Clone, Copy, PartialEq, Eq, Structural, Debug)]
pub struct Circle {
    pub center: Vector2,
    pub radius: Scalar,
}

/// The coefficients of `a t² + 2 b t + c = 0`, the equation of the times `t`
/// at which the point `start + t (end - start)` lies on the circle, in units of
/// `1 / 65536²`.
pub struct HitEquation {
    pub a: int,
    pub b: int,
    pub c: int,
}

impl HitEquation {
    /// The quarter discriminant `b² - a c`.
    pub open spec fn discriminant(self) -> int {
        self.b * self.b - self.a * self.c
    }

    /// The numerator `n` of the smallest root `n / a` in `(0, 1]`.
    ///
    /// The roots are `(-b ± √d) / a`. The smaller one is taken when it lies
    /// in `(0, 1]`, else the larger one when it does; whether a root lies in
    /// the interval is decided exactly. The square root in the numerator is
    /// rounded to a whole number, down for the smaller root and up for the
    /// larger one.
    pub open spec fn numerator(self) -> Option<int> {
        let d = self.discriminant();
        if self.a <= 0 || d < 0 {
            None
        } else if -self.b > floor_sqrt(d) && -self.b - self.a <= floor_sqrt(d) {
            Some(-self.b - floor_sqrt(d))
        } else if self.b < ceil_sqrt(d) && self.a + self.b >= ceil_sqrt(d) {
            Some(-self.b + ceil_sqrt(d))
        } else {
            None
        }
    }

    /// The smallest root in `(0, 1]` as a raw scalar, rounded up, so that a
    /// root is never reported as zero.
    pub open spec fn time(self) -> Option<Scalar> {
        match self.numerator() {
            Some(n) => Some(Scalar { raw: ((n * ONE_RAW + self.a - 1) / self.a) as i32 }),
            None => None,
        }
    }
}

/// The equation of the times at which `segment` meets `circle`. The offsets
/// from the start to the end and from the centre to the start are
/// saturating differences: a path that is longer than the largest scalar
/// counts as far as that.
pub open spec fn hit_equation(segment: Segment2, circle: Circle) -> HitEquation {
    let d = segment.end.spec_minus(segment.start);
    let f = segment.start.spec_minus(circle.center);
    HitEquation {
        a: d.norm2(),
        b: d.dot_exact(f),
        c: f.norm2() - circle.radius.raw * circle.radius.raw,
    }
}

/// The equation is that of the circle: the point `start + (m / k) (end -
/// start)` lies as far from the centre as the coefficients say, for every
/// time `m / k`. With `d` the offset from the start to the end and `f` that
/// from the centre to the start, `|k f + m d|² - k² r²` is `a m² + 2 b m k +
/// c k²`; so the point lies on the circle exactly where `m / k` is a root.
pub proof fn lemma_hit_equation_is_the_circle(segment: Segment2, circle: Circle, m: int, k: int)
    ensures
        ({
            let d = segment.end.spec_minus(segment.start);
            let f = segment.start.spec_minus(circle.center);
            let e = hit_equation(segment, circle);
            let x = k * f.x.raw + m * d.x.raw;
            let y = k * f.y.raw + m * d.y.raw;
            x * x + y * y - (k * k) * (circle.radius.raw * circle.radius.raw) == e.a * (m * m)
                + 2 * (e.b * (m * k)) + e.c * (k * k)
        }),
{
    let d = segment.end.spec_minus(segment.start);
    let f = segment.start.spec_minus(circle.center);
    let e = hit_equation(segment, circle);
    let (dx, dy, fx, fy) = (d.x.raw as int, d.y.raw as int, f.x.raw as int, f.y.raw as int);
    let rr = circle.radius.raw * circle.radius.raw;
    assert(e.a == dx * dx + dy * dy);
    assert(e.b == dx * fx + dy * fy);
    assert(e.c == fx * fx + fy * fy - rr);
    let (mm, mk, kk) = (m * m, m * k, k * k);
    lemma_square_of_a_sum(k, fx, m, dx);
    lemma_square_of_a_sum(k, fy, m, dy);
    assert((dx * dx + dy * dy) * mm == (dx * dx) * mm + (dy * dy) * mm) by (nonlinear_arith);
    assert((dx * fx + dy * fy) * mk == (dx * fx) * mk + (dy * fy) * mk) by (nonlinear_arith);
    assert((fx * fx + fy * fy - rr) * kk == (fx * fx) * kk + (fy * fy) * kk - kk * rr)
        by (nonlinear_arith);
}

/// The square of `k f + m d`, written out.
proof fn lemma_square_of_a_sum(k: int, f: int, m: int, d: int)
    ensures
        (k * f + m * d) * (k * f + m * d) == (f * f) * (k * k) + 2 * ((d * f) * (m * k)) + (d * d)
            * (m * m),
{
    let a = k * f;
    let b = m * d;
    assert((a + b) * (a + b) == a * a + 2 * (a * b) + b * b) by (nonlinear_arith);
    assert(a * a == (f * f) * (k * k)) by (nonlinear_arith)
        requires
            a == k * f,
    ;
    assert(b * b == (d * d) * (m * m)) by (nonlinear_arith)
        requires
            b == m * d,
    ;
    assert(a * b == (d * f) * (m * k)) by (nonlinear_arith)
        requires
            a == k * f,
            b == m * d,
    ;
}

/// The numerator of a root in `(0, 1]` lies in `[1, a]`, so the time lies in
/// `(0, 1]` too.
pub proof fn lemma_hit_time_in_unit_interval(e: HitEquation)
    requires
        e.numerator() is Some,
    ensures
        1 <= e.numerator().unwrap() <= e.a,
        e.time() is Some,
        1 <= e.time().unwrap().raw <= ONE_RAW,
{
    let n = e.numerator().unwrap();
    let a = e.a;
    let d = e.discriminant();
    lemma_sqrt_exists(d);
    assert(1 <= n <= a);
    let q = (n * ONE_RAW + a - 1) / a;
    assert(1 <= q <= ONE_RAW) by (nonlinear_arith)
        requires
            1 <= n <= a,
            q == (n * 65536 + a - 1) / a,
    ;
}

/// How near the time reported is to a root of the equation.
///
/// The roots are `(-b ± √d) / a`. The numerator `n` that is reported
/// differs from the numerator of a root by less than one: `-b - n` is the
/// square root of `d` rounded down, or `n + b` is that root rounded up. The
/// time `q / 65536` is the quotient `n / a` rounded up to the next raw
/// number.
pub proof fn lemma_hit_time_is_near_a_root(e: HitEquation)
    requires
        e.numerator() is Some,
    ensures
        e.a > 0,
        e.discriminant() >= 0,
        ({
            let n = e.numerator().unwrap();
            let s = -e.b - n;
            let r = n + e.b;
            ||| 0 <= s && s * s <= e.discriminant() < (s + 1) * (s + 1)
            ||| 0 <= r && r * r >= e.discriminant() && (r > 0 ==> (r - 1) * (r - 1)
                < e.discriminant())
        }),
        (e.time().unwrap().raw - 1) * e.a < e.numerator().unwrap() * ONE_RAW <= e.time().unwrap().raw
            * e.a,
{
    let d = e.discriminant();
    lemma_sqrt_exists(d);
    lemma_hit_time_in_unit_interval(e);
    let n = e.numerator().unwrap();
    let a = e.a;
    let q = (n * ONE_RAW + a - 1) / a;
    assert((q - 1) * a < n * 65536 <= q * a && 1 <= q <= 65536) by (nonlinear_arith)
        requires
            a > 0,
            1 <= n <= a,
            q == (n * 65536 + a - 1) / a,
    ;
    assert(e.time().unwrap().raw == q);
    let f = floor_sqrt(d);
    if !(-e.b > f && -e.b - e.a <= f) {
        let r = ceil_sqrt(d);
        assert(r == n + e.b);
        if r > 0 {
            if f * f == d {
                assert((r - 1) * (r - 1) < r * r) by (nonlinear_arith)
                    requires
                        r > 0,
                ;
            } else {
                assert(r - 1 == f);
            }
        }
    }
}

/// The smallest time in `(0, 1]` at which the point that runs along
/// `segment` lies on `circle`, or `None` where it never does. A segment
/// without length meets nothing.
pub fn segment_circle_min_positive_intersect_time(segment: &Segment2, circle: &Circle) -> (t:
    Option<Scalar>)
    ensures
        t == hit_equation(*segment, *circle).time(),
        t is Some ==> 1 <= t.unwrap().raw <= ONE_RAW,
{
    let d = segment.end.minus(segment.start);
    let f = segment.start.minus(circle.center);
    let a: i128 = d.norm2_wide() as i128;
    let b: i128 = d.dot_wide(f);
    let ff: i128 = f.norm2_wide() as i128;
    let rr: i128 = raw_product(circle.radius.raw, circle.radius.raw);
    assert(rr >= 0) by (nonlinear_arith)
        requires
            rr == circle.radius.raw * circle.radius.raw,
    ;
    let c: i128 = ff - rr;
    let ghost e = hit_equation(*segment, *circle);
    assert(e.a == a && e.b == b && e.c == c);
    if a <= 0 {
        return None;
    }
    assert(0 <= b * b <= 0x4000_0000_0000_0000_0000_0000_0000_0000) by (nonlinear_arith)
        requires
            -0x8000_0000_0000_0000 <= b <= 0x8000_0000_0000_0000,
    ;
    assert(-0x2000_0000_0000_0000_0000_0000_0000_0000 <= a * c
        <= 0x4000_0000_0000_0000_0000_0000_0000_0000) by (nonlinear_arith)
        requires
            0 <= a <= 0x8000_0000_0000_0000,
            -0x4000_0000_0000_0000 <= c <= 0x8000_0000_0000_0000,
    ;
    let disc: i128 = b * b - a * c;
    if disc < 0 {
        return None;
    }
    let lo: i128 = isqrt(disc as u128) as i128;
    let hi: i128 = if lo * lo == disc {
        lo
    } else {
        lo + 1
    };
    assert(lo == floor_sqrt(e.discriminant()) && hi == ceil_sqrt(e.discriminant()));
    let n: i128 = if -b > lo && -b - a <= lo {
        -b - lo
    } else if b < hi && a + b >= hi {
        -b + hi
    } else {
        return None;
    };
    proof {
        lemma_hit_time_in_unit_interval(e);
    }
    let q: i128 = (n * 65536 + a - 1) / a;
    Some(Scalar { raw: q as i32 })
}

/// A closed polygon, given by its vertices in order.
#[derive(Clone, Debug)]
pub struct Polygon(pub Vec<Vector2>);

impl View for Polygon {
    type V = Seq<Vector2>;

    open spec fn view(&self) -> Seq<Vector2> {
        self.0@
    }
}

/// The unit normal of the edge that leaves vertex `j`: the right-hand
/// perpendicular of the edge, which points outward where the vertices run
/// counter-clockwise, as those of every building do.
pub open spec fn edge_normal(vertices: Seq<Vector2>, j: int) -> Vector2
    recommends
        0 <= j < vertices.len(),
{
    let next = if j + 1 < vertices.len() {
        j + 1
    } else {
        0
    };
    vertices[next].spec_minus(vertices[j]).spec_right().spec_normalized()
}

/// The normals of all edges, in the order of the vertices.
pub open spec fn edge_normals(vertices: Seq<Vector2>) -> Seq<Vector2> {
    Seq::new(vertices.len(), |j: int| edge_normal(vertices, j))
}

/// Sum of the raw `x` coordinates of the first `count` vertices.
pub open spec fn raw_x_sum(vertices: Seq<Vector2>, count: int) -> int
    decreases count,
{
    if count <= 0 {
        0
    } else {
        raw_x_sum(vertices, count - 1) + vertices[count - 1].x.raw
    }
}

/// Sum of the raw `y` coordinates of the first `count` vertices.
pub open spec fn raw_y_sum(vertices: Seq<Vector2>, count: int) -> int
    decreases count,
{
    if count <= 0 {
        0
    } else {
        raw_y_sum(vertices, count - 1) + vertices[count - 1].y.raw
    }
}

/// The mean of the vertices; the zero vector for a polygon without vertices.
pub open spec fn vertex_mean(vertices: Seq<Vector2>) -> Vector2 {
    if vertices.len() == 0 {
        Vector2::spec_zero()
    } else {
        Vector2 {
            x: Scalar {
                raw: saturate(
                    trunc_div(raw_x_sum(vertices, vertices.len() as int), vertices.len() as int),
                ) as i32,
            },
            y: Scalar {
                raw: saturate(
                    trunc_div(raw_y_sum(vertices, vertices.len() as int), vertices.len() as int),
                ) as i32,
            },
        }
    }
}

/// Vertex `j` moved outward by `margin` along the direction between the
/// normals of the two edges that meet in it.
pub open spec fn outline_vertex(vertices: Seq<Vector2>, margin: Scalar, j: int) -> Vector2
    recommends
        0 <= j < vertices.len(),
{
    let previous = if j < 1 {
        vertices.len() - 1
    } else {
        j - 1
    };
    let direction = edge_normal(vertices, j).spec_plus(
        edge_normal(vertices, previous),
    ).spec_normalized();
    vertices[j].spec_plus(direction.spec_scaled(margin))
}

/// The polygon whose every vertex is moved outward by `margin`.
pub open spec fn outline_vertices(vertices: Seq<Vector2>, margin: Scalar) -> Seq<Vector2> {
    Seq::new(vertices.len(), |j: int| outline_vertex(vertices, margin, j))
}

impl Polygon {
    /// Number of sides, which is the number of vertices.
    pub fn num_sides(&self) -> (n: usize)
        ensures
            n == self@.len(),
    {
        self.0.len()
    }

    /// Vertex `j`.
    pub fn get(&self, j: usize) -> (v: Vector2)
        requires
            j < self@.len(),
        ensures
            v == self@[j as int],
    {
        self.0[j]
    }

    /// The outward unit normal of edge `j`.
    pub fn normal(&self, j: usize) -> (n: Vector2)
        requires
            j < self@.len(),
        ensures
            n == edge_normal(self@, j as int),
    {
        let n: usize = self.0.len();
        let next: usize = if j + 1 < n {
            j + 1
        } else {
            0
        };
        self.0[next].minus(self.0[j]).right().normalized()
    }

    /// The outward unit normals of all edges.
    pub fn normals(&self) -> (ns: Vec<Vector2>)
        ensures
            ns@ == edge_normals(self@),
    {
        let mut ns: Vec<Vector2> = Vec::new();
        let mut j: usize = 0;
        while j < self.0.len()
            invariant
                j <= self@.len(),
                ns@.len() == j,
                forall|k: int| 0 <= k < j ==> ns@[k] == edge_normal(self@, k),
            decreases self@.len() - j,
        {
            ns.push(self.normal(j));
            j += 1;
        }
        assert(ns@ =~= edge_normals(self@));
        ns
    }

    /// The mean of the vertices.
    pub fn centroid(&self) -> (c: Vector2)
        ensures
            c == vertex_mean(self@),
    {
        let n: usize = self.0.len();
        if n == 0 {
            return Vector2::zero();
        }
        let mut sx: i128 = 0;
        let mut sy: i128 = 0;
        let mut j: usize = 0;
        while j < n
            invariant
                n == self@.len(),
                j <= n,
                sx == raw_x_sum(self@, j as int),
                sy == raw_y_sum(self@, j as int),
                -0x8000_0000 * j <= sx <= 0x8000_0000 * j,
                -0x8000_0000 * j <= sy <= 0x8000_0000 * j,
            decreases n - j,
        {
            let v = self.0[j];
            sx = sx + v.x.raw as i128;
            sy = sy + v.y.raw as i128;
            j += 1;
        }
        Vector2 {
            x: Scalar { raw: saturate_i128(sx / (n as i128)) },
            y: Scalar { raw: saturate_i128(sy / (n as i128)) },
        }
    }

    /// The outline at distance `margin`: the boundary that the centre of a
    /// body of that radius can walk along. Round a convex polygon that runs
    /// counter-clockwise and turns gently, every vertex of the outline lies
    /// outside the polygon.
    pub fn outline(&self, margin: Scalar) -> (o: Polygon)
        ensures
            o@ == outline_vertices(self@, margin),
            is_gently_convex(self@) && 9 <= margin.raw <= REACH ==> forall|j: int|
                0 <= j < self@.len() ==> !lies_inside(self@, #[trigger] o@[j]),
    {
        let n: usize = self.0.len();
        let mut vs: Vec<Vector2> = Vec::new();
        let mut j: usize = 0;
        while j < n
            invariant
                n == self@.len(),
                j <= n,
                vs@.len() == j,
                forall|k: int| 0 <= k < j ==> vs@[k] == outline_vertex(self@, margin, k),
            decreases n - j,
        {
            let previous: usize = if j < 1 {
                n - 1
            } else {
                j - 1
            };
            let direction = self.normal(j).plus(self.normal(previous)).normalized();
            vs.push(self.0[j].plus(direction.scaled(margin)));
            j += 1;
        }
        assert(vs@ =~= outline_vertices(self@, margin));
        proof {
            if is_gently_convex(self@) && 9 <= margin.raw <= REACH {
                assert forall|j: int| 0 <= j < self@.len() implies !lies_inside(
                    self@,
                    #[trigger] vs@[j],
                ) by {
                    assert(is_gentle_corner(self@, j));
                    lemma_outline_vertex_lies_outside(self@, margin, j);
                }
            }
        }
        Polygon(vs)
    }
}

} // verus!
