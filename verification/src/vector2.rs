//! Two-dimensional vectors over fixed-point scalars.

use crate::scalar::{
    floor_sqrt, isqrt, lemma_sqrt_exists, saturate, saturate_i128, trunc_div, Scalar, ONE_RAW,
};
use vstd::prelude::*;

verus! {

/// An immutable pair of coordinates.
#[derive(Clone, Copy, PartialEq, Eq, Structural, Debug)]
pub struct Vector2 {
    pub x: Scalar,
    pub y: Scalar,
}

/// A rotation of the plane, given by the cosine and the sine of its angle.
#[derive(Clone, Copy, PartialEq, Eq, Structural, Debug)]
pub struct Rotation {
    pub cos: Scalar,
    pub sin: Scalar,
}

/// Whether a vector has length one but for the rounding of a
/// normalisation: the square of its length misses one by less than
/// `5 / 65536`.
pub open spec fn is_unit(v: Vector2) -> bool {
    0x1_0000_0000 - 0x4_0002 < v.norm2() < 0x1_0000_0000 + 0x3_0000
}

/// Computes `is_unit`.
pub fn has_unit_length(v: Vector2) -> (r: bool)
    ensures
        r == is_unit(v),
{
    let n: u128 = v.norm2_wide();
    0x1_0000_0000 - 0x4_0002 < n && n < 0x1_0000_0000 + 0x3_0000
}

/// The rotation by the angle zero is a rotation by an angle.
pub proof fn lemma_identity_is_turn()
    ensures
        Rotation::spec_identity().spec_is_turn(),
{
    let v = Vector2 { x: Scalar { raw: ONE_RAW }, y: Scalar { raw: 0 } };
    assert(v.norm2() == 0x1_0000_0000) by (nonlinear_arith)
        requires
            v.norm2() == v.x.raw * v.x.raw + v.y.raw * v.y.raw,
            v.x.raw == 65536,
            v.y.raw == 0,
    ;
}

impl Rotation {
    /// Whether this is a rotation by an angle: its cosine and sine are
    /// those of one angle, but for rounding.
    pub open spec fn spec_is_turn(self) -> bool {
        is_unit(Vector2 { x: self.cos, y: self.sin })
    }

    #[verifier::when_used_as_spec(spec_is_turn)]
    pub fn is_turn(self) -> (r: bool)
        ensures
            r == self.spec_is_turn(),
    {
        has_unit_length(Vector2 { x: self.cos, y: self.sin })
    }

    pub open spec fn spec_identity() -> Rotation {
        Rotation { cos: Scalar { raw: ONE_RAW }, sin: Scalar { raw: 0 } }
    }

    /// The rotation by the angle zero.
    #[verifier::when_used_as_spec(spec_identity)]
    pub fn identity() -> (r: Rotation)
        ensures
            r == Rotation::spec_identity(),
    {
        Rotation { cos: Scalar { raw: 65536 }, sin: Scalar { raw: 0 } }
    }
}

/// Bounds the exact product of two raw coordinates.
pub proof fn lemma_raw_product_bound(a: int, b: int)
    requires
        -0x8000_0000 <= a <= 0x8000_0000,
        -0x8000_0000 <= b <= 0x8000_0000,
    ensures
        -0x4000_0000_0000_0000 <= a * b <= 0x4000_0000_0000_0000,
{
    assert(-0x4000_0000_0000_0000 <= a * b <= 0x4000_0000_0000_0000) by (nonlinear_arith)
        requires
            -0x8000_0000 <= a <= 0x8000_0000,
            -0x8000_0000 <= b <= 0x8000_0000,
    ;
}

/// Exact product of two raw coordinates.
pub fn raw_product(a: i32, b: i32) -> (p: i128)
    ensures
        p == a * b,
        -0x4000_0000_0000_0000 <= p <= 0x4000_0000_0000_0000,
{
    proof {
        lemma_raw_product_bound(a as int, b as int);
    }
    (a as i128) * (b as i128)
}

/// The quotients of the coordinates of a vector by its length, as
/// `normalized` rounds them: neither exceeds one, and the sum of their
/// squares misses one by less than `5 / 65536`.
pub proof fn lemma_unit_quotients(x: int, y: int, l: int, p: int, q: int)
    requires
        x >= 0,
        y >= 0,
        x * x + y * y > 0,
        l >= 0,
        l * l <= (x * x + y * y) * 0x1_0000_0000 < (l + 1) * (l + 1),
        p == (x * 0x1_0000_0000) / l,
        q == (y * 0x1_0000_0000) / l,
    ensures
        l >= 65536,
        x * 65536 <= l,
        y * 65536 <= l,
        0 <= p <= 65536,
        0 <= q <= 65536,
        0x1_0000_0000 - 0x4_0002 < p * p + q * q < 0x1_0000_0000 + 0x3_0000,
{
    let n = x * x + y * y;
    let big = 0x1_0000_0000int;
    assert(l >= 65536) by (nonlinear_arith)
        requires
            n >= 1,
            l >= 0,
            n * 0x1_0000_0000 < (l + 1) * (l + 1),
    ;
    assert(p * l <= x * big < (p + 1) * l && p >= 0) by (nonlinear_arith)
        requires
            l > 0,
            x >= 0,
            big == 0x1_0000_0000,
            p == (x * big) / l,
    ;
    assert(q * l <= y * big < (q + 1) * l && q >= 0) by (nonlinear_arith)
        requires
            l > 0,
            y >= 0,
            big == 0x1_0000_0000,
            q == (y * big) / l,
    ;
    assert(x * 65536 <= l) by (nonlinear_arith)
        requires
            x >= 0,
            y >= 0,
            l >= 0,
            (x * x + y * y) * 0x1_0000_0000 < (l + 1) * (l + 1),
    ;
    assert(y * 65536 <= l) by (nonlinear_arith)
        requires
            x >= 0,
            y >= 0,
            l >= 0,
            (x * x + y * y) * 0x1_0000_0000 < (l + 1) * (l + 1),
    ;
    assert(p <= 65536) by (nonlinear_arith)
        requires
            p * l <= x * big,
            x * 65536 <= l,
            big == 0x1_0000_0000,
            l > 0,
            p >= 0,
    ;
    assert(q <= 65536) by (nonlinear_arith)
        requires
            q * l <= y * big,
            y * 65536 <= l,
            big == 0x1_0000_0000,
            l > 0,
            q >= 0,
    ;
    // from above: the squares of p l and q l are no more than those of the
    // coordinates
    assert((p * l) * (p * l) <= (x * big) * (x * big)) by (nonlinear_arith)
        requires
            0 <= p * l <= x * big,
    ;
    assert((q * l) * (q * l) <= (y * big) * (y * big)) by (nonlinear_arith)
        requires
            0 <= q * l <= y * big,
    ;
    assert((p * p + q * q) * (l * l) == (p * l) * (p * l) + (q * l) * (q * l))
        by (nonlinear_arith);
    assert((x * x + y * y) * big * big == (x * big) * (x * big) + (y * big) * (y * big))
        by (nonlinear_arith);
    assert((p * p + q * q) * (l * l) <= n * big * big);
    assert(n * big * big < (l * l + 2 * l + 1) * big) by (nonlinear_arith)
        requires
            n * big < (l + 1) * (l + 1),
            big > 0,
    ;
    assert(p * p + q * q < big + 0x3_0000) by (nonlinear_arith)
        requires
            (p * p + q * q) * (l * l) < (l * l + 2 * l + 1) * big,
            big == 0x1_0000_0000,
            l >= 65536,
    ;
    // from below: the squares of (p + 1) l and (q + 1) l are more
    assert((x * big) * (x * big) < ((p + 1) * l) * ((p + 1) * l)) by (nonlinear_arith)
        requires
            0 <= x * big < (p + 1) * l,
    ;
    assert((y * big) * (y * big) < ((q + 1) * l) * ((q + 1) * l)) by (nonlinear_arith)
        requires
            0 <= y * big < (q + 1) * l,
    ;
    assert(((p + 1) * (p + 1) + (q + 1) * (q + 1)) * (l * l) == ((p + 1) * l) * ((p + 1) * l) + ((q
        + 1) * l) * ((q + 1) * l)) by (nonlinear_arith);
    assert(n * big * big < ((p + 1) * (p + 1) + (q + 1) * (q + 1)) * (l * l));
    assert((l * l) * big <= n * big * big) by (nonlinear_arith)
        requires
            l * l <= n * big,
            big > 0,
    ;
    assert((p + 1) * (p + 1) + (q + 1) * (q + 1) > big) by (nonlinear_arith)
        requires
            (l * l) * big < ((p + 1) * (p + 1) + (q + 1) * (q + 1)) * (l * l),
            l > 0,
    ;
    assert((p + 1) * (p + 1) + (q + 1) * (q + 1) == p * p + q * q + 2 * p + 2 * q + 2)
        by (nonlinear_arith);
}

impl Vector2 {
    pub open spec fn spec_new(x: Scalar, y: Scalar) -> Vector2 {
        Vector2 { x, y }
    }

    #[verifier::when_used_as_spec(spec_new)]
    pub fn new(x: Scalar, y: Scalar) -> (r: Vector2)
        ensures
            r == Vector2::spec_new(x, y),
    {
        Vector2 { x, y }
    }

    pub open spec fn spec_zero() -> Vector2 {
        Vector2 { x: Scalar { raw: 0 }, y: Scalar { raw: 0 } }
    }

    #[verifier::when_used_as_spec(spec_zero)]
    pub fn zero() -> (r: Vector2)
        ensures
            r == Vector2::spec_zero(),
    {
        Vector2 { x: Scalar { raw: 0 }, y: Scalar { raw: 0 } }
    }

    pub open spec fn spec_plus(self, other: Vector2) -> Vector2 {
        Vector2 { x: self.x.spec_plus(other.x), y: self.y.spec_plus(other.y) }
    }

    /// Componentwise saturating sum.
    #[verifier::when_used_as_spec(spec_plus)]
    pub fn plus(self, other: Vector2) -> (r: Vector2)
        ensures
            r == self.spec_plus(other),
    {
        Vector2 { x: self.x.plus(other.x), y: self.y.plus(other.y) }
    }

    pub open spec fn spec_minus(self, other: Vector2) -> Vector2 {
        Vector2 { x: self.x.spec_minus(other.x), y: self.y.spec_minus(other.y) }
    }

    /// Componentwise saturating difference.
    #[verifier::when_used_as_spec(spec_minus)]
    pub fn minus(self, other: Vector2) -> (r: Vector2)
        ensures
            r == self.spec_minus(other),
    {
        Vector2 { x: self.x.minus(other.x), y: self.y.minus(other.y) }
    }

    pub open spec fn spec_negated(self) -> Vector2 {
        Vector2 { x: self.x.spec_negated(), y: self.y.spec_negated() }
    }

    /// The opposite vector.
    #[verifier::when_used_as_spec(spec_negated)]
    pub fn negated(self) -> (r: Vector2)
        ensures
            r == self.spec_negated(),
    {
        Vector2 { x: self.x.negated(), y: self.y.negated() }
    }

    pub open spec fn spec_scaled(self, k: Scalar) -> Vector2 {
        Vector2 { x: self.x.spec_times(k), y: self.y.spec_times(k) }
    }

    /// The vector multiplied by the number `k`.
    #[verifier::when_used_as_spec(spec_scaled)]
    pub fn scaled(self, k: Scalar) -> (r: Vector2)
        ensures
            r == self.spec_scaled(k),
    {
        Vector2 { x: self.x.times(k), y: self.y.times(k) }
    }

    pub open spec fn spec_halved(self) -> Vector2 {
        Vector2 { x: self.x.spec_halved(), y: self.y.spec_halved() }
    }

    /// Half of the vector.
    #[verifier::when_used_as_spec(spec_halved)]
    pub fn halved(self) -> (r: Vector2)
        ensures
            r == self.spec_halved(),
    {
        Vector2 { x: self.x.halved(), y: self.y.halved() }
    }

    /// Exact dot product of the raw coordinates, in units of `1 / 65536²`.
    pub open spec fn dot_exact(self, other: Vector2) -> int {
        self.x.raw * other.x.raw + self.y.raw * other.y.raw
    }

    /// Computes `dot_exact`.
    pub fn dot_wide(self, other: Vector2) -> (r: i128)
        ensures
            r == self.dot_exact(other),
            -0x8000_0000_0000_0000 <= r <= 0x8000_0000_0000_0000,
    {
        raw_product(self.x.raw, other.x.raw) + raw_product(self.y.raw, other.y.raw)
    }

    /// Exact cross product of the raw coordinates, in units of `1 / 65536²`:
    /// positive where `other` lies to the left of the vector.
    pub open spec fn cross_exact(self, other: Vector2) -> int {
        self.x.raw * other.y.raw - self.y.raw * other.x.raw
    }

    /// Computes `cross_exact`.
    pub fn cross_wide(self, other: Vector2) -> (r: i128)
        ensures
            r == self.cross_exact(other),
    {
        raw_product(self.x.raw, other.y.raw) - raw_product(self.y.raw, other.x.raw)
    }

    /// Exact square of the distance between two points, in units of
    /// `1 / 65536²`; nothing saturates in it.
    pub open spec fn distance2(self, other: Vector2) -> int {
        (self.x.raw - other.x.raw) * (self.x.raw - other.x.raw) + (self.y.raw - other.y.raw) * (
        self.y.raw - other.y.raw)
    }

    /// Computes `distance2`.
    pub fn distance2_wide(self, other: Vector2) -> (r: u128)
        ensures
            r == self.distance2(other),
    {
        let dx: i128 = self.x.raw as i128 - other.x.raw as i128;
        let dy: i128 = self.y.raw as i128 - other.y.raw as i128;
        assert(0 <= dx * dx <= 0x1_0000_0000_0000_0000) by (nonlinear_arith)
            requires
                -0x1_0000_0000 <= dx <= 0x1_0000_0000,
        ;
        assert(0 <= dy * dy <= 0x1_0000_0000_0000_0000) by (nonlinear_arith)
            requires
                -0x1_0000_0000 <= dy <= 0x1_0000_0000,
        ;
        (dx * dx + dy * dy) as u128
    }

    pub open spec fn spec_dot(self, other: Vector2) -> Scalar {
        Scalar { raw: saturate(trunc_div(self.dot_exact(other), ONE_RAW as int)) as i32 }
    }

    /// Dot product, rounded once.
    #[verifier::when_used_as_spec(spec_dot)]
    pub fn dot(self, other: Vector2) -> (r: Scalar)
        ensures
            r == self.spec_dot(other),
    {
        Scalar { raw: saturate_i128(self.dot_wide(other) / 65536) }
    }

    /// Exact squared length of the raw coordinates, in units of `1 / 65536²`.
    pub open spec fn norm2(self) -> int {
        self.dot_exact(self)
    }

    /// Computes `norm2`.
    pub fn norm2_wide(self) -> (r: u128)
        ensures
            r == self.norm2(),
            r <= 0x8000_0000_0000_0000,
    {
        let d: i128 = self.dot_wide(self);
        assert(d >= 0) by (nonlinear_arith)
            requires
                d == self.x.raw * self.x.raw + self.y.raw * self.y.raw,
        ;
        d as u128
    }

    pub open spec fn spec_length_squared(self) -> Scalar {
        self.spec_dot(self)
    }

    /// Squared length, rounded once.
    #[verifier::when_used_as_spec(spec_length_squared)]
    pub fn length_squared(self) -> (r: Scalar)
        ensures
            r == self.spec_length_squared(),
    {
        self.dot(self)
    }

    /// Raw length: the integer part of the square root of `norm2`.
    pub open spec fn length_raw(self) -> int {
        floor_sqrt(self.norm2())
    }

    pub open spec fn spec_length(self) -> Scalar {
        Scalar { raw: saturate(self.length_raw()) as i32 }
    }

    /// Length, rounded down and saturated.
    #[verifier::when_used_as_spec(spec_length)]
    pub fn length(self) -> (r: Scalar)
        ensures
            r == self.spec_length(),
    {
        let root: u128 = isqrt(self.norm2_wide());
        Scalar { raw: saturate_i128(root as i128) }
    }

    /// The length in units of `1 / 65536²`, rounded down: fine enough to
    /// tell the direction of the shortest vectors.
    pub open spec fn fine_length(self) -> int {
        floor_sqrt(self.norm2() * 0x1_0000_0000)
    }

    pub open spec fn spec_normalized(self) -> Vector2 {
        if self.norm2() == 0 {
            Vector2::spec_zero()
        } else {
            Vector2 {
                x: Scalar {
                    raw: saturate(trunc_div(self.x.raw * 0x1_0000_0000, self.fine_length())) as i32,
                },
                y: Scalar {
                    raw: saturate(trunc_div(self.y.raw * 0x1_0000_0000, self.fine_length())) as i32,
                },
            }
        }
    }

    /// The vector of length one in the same direction, each coordinate
    /// rounded toward zero. The zero vector has no direction: its
    /// normalisation is the zero vector.
    #[verifier::when_used_as_spec(spec_normalized)]
    pub fn normalized(self) -> (r: Vector2)
        ensures
            r == self.spec_normalized(),
    {
        let n: u128 = self.norm2_wide();
        if n == 0 {
            return Vector2::zero();
        }
        let root: u128 = isqrt(n * 0x1_0000_0000);
        assert(root >= 1) by (nonlinear_arith)
            requires
                n >= 1,
                n * 0x1_0000_0000 < (root + 1) * (root + 1),
                root >= 0,
        ;
        let len: i128 = root as i128;
        let x: i128 = (self.x.raw as i128) * 0x1_0000_0000 / len;
        let y: i128 = (self.y.raw as i128) * 0x1_0000_0000 / len;
        Vector2 { x: Scalar { raw: saturate_i128(x) }, y: Scalar { raw: saturate_i128(y) } }
    }

    /// The normalisation of a vector other than zero has length one but
    /// for the rounding: no coordinate exceeds one, and the square of the
    /// length misses one by less than `5 / 65536`.
    pub proof fn lemma_normalized_is_unit(self)
        requires
            self.norm2() > 0,
        ensures
            -ONE_RAW <= self.spec_normalized().x.raw <= ONE_RAW,
            -ONE_RAW <= self.spec_normalized().y.raw <= ONE_RAW,
            0x1_0000_0000 - 0x4_0002 < self.spec_normalized().norm2() < 0x1_0000_0000 + 0x3_0000,
    {
        let x = if self.x.raw >= 0 {
            self.x.raw as int
        } else {
            -self.x.raw
        };
        let y = if self.y.raw >= 0 {
            self.y.raw as int
        } else {
            -self.y.raw
        };
        let l = self.fine_length();
        assert(x * x + y * y == self.norm2()) by (nonlinear_arith)
            requires
                x == self.x.raw || x == -self.x.raw,
                y == self.y.raw || y == -self.y.raw,
                self.norm2() == self.x.raw * self.x.raw + self.y.raw * self.y.raw,
        ;
        lemma_sqrt_exists(self.norm2() * 0x1_0000_0000);
        let p = (x * 0x1_0000_0000) / l;
        let q = (y * 0x1_0000_0000) / l;
        lemma_unit_quotients(x, y, l, p, q);
        let nx = trunc_div(self.x.raw * 0x1_0000_0000, l);
        let ny = trunc_div(self.y.raw * 0x1_0000_0000, l);
        assert(nx == p || nx == -p);
        assert(ny == q || ny == -q);
        assert(nx * nx + ny * ny == p * p + q * q) by (nonlinear_arith)
            requires
                nx == p || nx == -p,
                ny == q || ny == -q,
        ;
    }

    /// No coordinate of a normalisation exceeds one.
    pub proof fn lemma_normalized_is_unit_or_zero(self)
        ensures
            -ONE_RAW <= self.spec_normalized().x.raw <= ONE_RAW,
            -ONE_RAW <= self.spec_normalized().y.raw <= ONE_RAW,
    {
        if self.norm2() != 0 {
            assert(self.norm2() > 0) by (nonlinear_arith)
                requires
                    self.norm2() != 0,
                    self.norm2() == self.x.raw * self.x.raw + self.y.raw * self.y.raw,
            ;
            self.lemma_normalized_is_unit();
        }
    }

    /// What a normalisation computes with: the fine length is the square
    /// root of the squared length, rounded down, it is no less than either
    /// coordinate, and the coordinates of the normalisation are the
    /// quotients by it, which do not saturate.
    pub proof fn lemma_normalized_parts(self)
        requires
            self.norm2() > 0,
        ensures
            self.fine_length() >= 65536,
            self.fine_length() * self.fine_length() <= self.norm2() * 0x1_0000_0000 < (
            self.fine_length() + 1) * (self.fine_length() + 1),
            -self.fine_length() <= self.x.raw * 65536 <= self.fine_length(),
            -self.fine_length() <= self.y.raw * 65536 <= self.fine_length(),
            self.spec_normalized().x.raw == trunc_div(
                self.x.raw * 0x1_0000_0000,
                self.fine_length(),
            ),
            self.spec_normalized().y.raw == trunc_div(
                self.y.raw * 0x1_0000_0000,
                self.fine_length(),
            ),
    {
        let x = if self.x.raw >= 0 {
            self.x.raw as int
        } else {
            -self.x.raw
        };
        let y = if self.y.raw >= 0 {
            self.y.raw as int
        } else {
            -self.y.raw
        };
        let l = self.fine_length();
        assert(x * x + y * y == self.norm2()) by (nonlinear_arith)
            requires
                x == self.x.raw || x == -self.x.raw,
                y == self.y.raw || y == -self.y.raw,
                self.norm2() == self.x.raw * self.x.raw + self.y.raw * self.y.raw,
        ;
        lemma_sqrt_exists(self.norm2() * 0x1_0000_0000);
        let p = (x * 0x1_0000_0000) / l;
        let q = (y * 0x1_0000_0000) / l;
        lemma_unit_quotients(x, y, l, p, q);
        let nx = trunc_div(self.x.raw * 0x1_0000_0000, l);
        let ny = trunc_div(self.y.raw * 0x1_0000_0000, l);
        assert(nx == p || nx == -p);
        assert(ny == q || ny == -q);
    }

    pub open spec fn spec_right(self) -> Vector2 {
        Vector2 { x: self.y, y: self.x.spec_negated() }
    }

    /// The right-hand perpendicular: the vector turned a quarter clockwise.
    #[verifier::when_used_as_spec(spec_right)]
    pub fn right(self) -> (r: Vector2)
        ensures
            r == self.spec_right(),
    {
        Vector2 { x: self.y, y: self.x.negated() }
    }

    pub open spec fn spec_left(self) -> Vector2 {
        Vector2 { x: self.y.spec_negated(), y: self.x }
    }

    /// The left-hand perpendicular: the vector turned a quarter
    /// counter-clockwise.
    #[verifier::when_used_as_spec(spec_left)]
    pub fn left(self) -> (r: Vector2)
        ensures
            r == self.spec_left(),
    {
        Vector2 { x: self.y.negated(), y: self.x }
    }

    pub open spec fn spec_rotated_by(self, rotation: Rotation) -> Vector2 {
        Vector2 {
            x: Scalar {
                raw: saturate(
                    trunc_div(
                        self.x.raw * rotation.cos.raw - self.y.raw * rotation.sin.raw,
                        ONE_RAW as int,
                    ),
                ) as i32,
            },
            y: Scalar {
                raw: saturate(
                    trunc_div(
                        self.x.raw * rotation.sin.raw + self.y.raw * rotation.cos.raw,
                        ONE_RAW as int,
                    ),
                ) as i32,
            },
        }
    }

    /// Applies the rotation matrix `[cos, -sin; sin, cos]`, rounding each
    /// coordinate once.
    #[verifier::when_used_as_spec(spec_rotated_by)]
    pub fn rotated_by(self, rotation: Rotation) -> (r: Vector2)
        ensures
            r == self.spec_rotated_by(rotation),
    {
        let xc: i128 = raw_product(self.x.raw, rotation.cos.raw);
        let ys: i128 = raw_product(self.y.raw, rotation.sin.raw);
        let xs: i128 = raw_product(self.x.raw, rotation.sin.raw);
        let yc: i128 = raw_product(self.y.raw, rotation.cos.raw);
        Vector2 {
            x: Scalar { raw: saturate_i128((xc - ys) / 65536) },
            y: Scalar { raw: saturate_i128((xs + yc) / 65536) },
        }
    }
}

} // verus!
