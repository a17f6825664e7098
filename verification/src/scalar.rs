//! Fixed-point scalars.
//!
//! A `Scalar` stands for the rational number `raw / 65536`. Every operation
//! computes the exact result over the integers, rounds it toward zero onto
//! the grid and saturates it to the representable range, so no operation
//! wraps, overflows or fails.

use vstd::prelude::*;

verus! {

/// Raw representation of the number one.
pub const ONE_RAW: i32 = 65536;

/// Raw representation of the number minus one.
pub const MINUS_ONE_RAW: i32 = -65536;

/// Largest raw representation.
pub const MAX_RAW: i32 = 2147483647;

/// Smallest raw representation.
pub const MIN_RAW: i32 = -2147483648;

/// Clamps an integer to the representable raw range `[MIN_RAW, MAX_RAW]`.
pub open spec fn saturate(v: int) -> int {
    if v > MAX_RAW {
        MAX_RAW as int
    } else if v < MIN_RAW {
        MIN_RAW as int
    } else {
        v
    }
}

/// Quotient rounded toward zero, for a positive divisor.
pub open spec fn trunc_div(n: int, d: int) -> int
    recommends
        d > 0,
{
    if n >= 0 {
        n / d
    } else {
        -((-n) / d)
    }
}

/// `r` is the integer part of the square root of `n`.
pub open spec fn is_floor_sqrt(n: int, r: int) -> bool {
    0 <= r && r * r <= n < (r + 1) * (r + 1)
}

/// The integer part of the square root of `n`.
pub open spec fn floor_sqrt(n: int) -> int
    recommends
        n >= 0,
{
    choose|r: int| is_floor_sqrt(n, r)
}

/// The least integer whose square is at least `n`.
pub open spec fn ceil_sqrt(n: int) -> int
    recommends
        n >= 0,
{
    let r = floor_sqrt(n);
    if r * r == n {
        r
    } else {
        r + 1
    }
}

/// There is only one integer part of a square root.
pub proof fn lemma_floor_sqrt_unique(n: int, r1: int, r2: int)
    requires
        is_floor_sqrt(n, r1),
        is_floor_sqrt(n, r2),
    ensures
        r1 == r2,
{
    if r1 < r2 {
        assert((r1 + 1) * (r1 + 1) <= r2 * r2) by (nonlinear_arith)
            requires
                0 <= r1,
                r1 + 1 <= r2,
        ;
    } else if r2 < r1 {
        assert((r2 + 1) * (r2 + 1) <= r1 * r1) by (nonlinear_arith)
            requires
                0 <= r2,
                r2 + 1 <= r1,
        ;
    }
}

/// Any witness of `is_floor_sqrt` is the value of `floor_sqrt`.
pub proof fn lemma_floor_sqrt_is(n: int, r: int)
    requires
        is_floor_sqrt(n, r),
    ensures
        floor_sqrt(n) == r,
{
    let c = floor_sqrt(n);
    assert(is_floor_sqrt(n, c));
    lemma_floor_sqrt_unique(n, c, r);
}

/// Every natural number has an integer square root.
pub proof fn lemma_sqrt_exists(n: int)
    requires
        n >= 0,
    ensures
        is_floor_sqrt(n, floor_sqrt(n)),
        0 <= floor_sqrt(n) <= ceil_sqrt(n) <= floor_sqrt(n) + 1,
        ceil_sqrt(n) * ceil_sqrt(n) >= n,
    decreases n,
{
    if n == 0 {
        assert(is_floor_sqrt(0, 0));
    } else {
        lemma_sqrt_exists(n - 1);
        let r = floor_sqrt(n - 1);
        if (r + 1) * (r + 1) <= n {
            assert(n < (r + 2) * (r + 2)) by (nonlinear_arith)
                requires
                    n - 1 < (r + 1) * (r + 1),
                    r >= 0,
            ;
            assert(is_floor_sqrt(n, r + 1));
        } else {
            assert(is_floor_sqrt(n, r));
        }
    }
    let s = floor_sqrt(n);
    assert((s + 1) * (s + 1) >= n);
}

/// Integer square root of a 128-bit number, by bisection.
pub fn isqrt(n: u128) -> (r: u128)
    ensures
        r == floor_sqrt(n as int),
        is_floor_sqrt(n as int, r as int),
        r < 0x1_0000_0000_0000_0000,
{
    let mut lo: u128 = 0;
    let mut hi: u128 = 0x1_0000_0000_0000_0000;
    assert(n < hi * hi) by (nonlinear_arith)
        requires
            hi == 0x1_0000_0000_0000_0000,
            n <= u128::MAX,
    ;
    while hi - lo > 1
        invariant
            lo < hi <= 0x1_0000_0000_0000_0000,
            lo * lo <= n,
            n < hi * hi,
        decreases hi - lo,
    {
        let mid: u128 = lo + (hi - lo) / 2;
        assert(mid * mid < 0x1_0000_0000_0000_0000_0000_0000_0000_0000) by (nonlinear_arith)
            requires
                mid < 0x1_0000_0000_0000_0000,
        ;
        if mid * mid <= n {
            lo = mid;
        } else {
            hi = mid;
        }
    }
    proof {
        assert(hi == lo + 1);
        lemma_floor_sqrt_is(n as int, lo as int);
    }
    lo
}

/// A fixed-point number with sixteen fractional bits.
#[derive(Clone, Copy, PartialEq, Eq, Structural, Debug)]
pub struct Scalar {
    pub raw: i32,
}

/// Narrows a wide intermediate result to the raw range, saturating.
pub fn saturate_i128(v: i128) -> (r: i32)
    ensures
        r == saturate(v as int),
{
    if v > 2147483647 {
        2147483647
    } else if v < -2147483648 {
        -2147483648
    } else {
        v as i32
    }
}

impl Scalar {
    pub open spec fn spec_from_raw(raw: i32) -> Scalar {
        Scalar { raw }
    }

    /// The scalar with the given raw representation.
    #[verifier::when_used_as_spec(spec_from_raw)]
    pub fn from_raw(raw: i32) -> (r: Scalar)
        ensures
            r == Scalar::spec_from_raw(raw),
    {
        Scalar { raw }
    }

    pub open spec fn spec_zero() -> Scalar {
        Scalar { raw: 0 }
    }

    #[verifier::when_used_as_spec(spec_zero)]
    pub fn zero() -> (r: Scalar)
        ensures
            r == Scalar::spec_zero(),
    {
        Scalar { raw: 0 }
    }

    pub open spec fn spec_from_int(v: i32) -> Scalar {
        Scalar { raw: saturate(v * ONE_RAW) as i32 }
    }

    /// The scalar nearest to the whole number `v`.
    #[verifier::when_used_as_spec(spec_from_int)]
    pub fn from_int(v: i32) -> (r: Scalar)
        ensures
            r == Scalar::spec_from_int(v),
    {
        let wide: i128 = (v as i128) * 65536;
        Scalar { raw: saturate_i128(wide) }
    }

    pub open spec fn spec_plus(self, other: Scalar) -> Scalar {
        Scalar { raw: saturate(self.raw + other.raw) as i32 }
    }

    /// Saturating sum.
    #[verifier::when_used_as_spec(spec_plus)]
    pub fn plus(self, other: Scalar) -> (r: Scalar)
        ensures
            r == self.spec_plus(other),
    {
        Scalar { raw: saturate_i128(self.raw as i128 + other.raw as i128) }
    }

    pub open spec fn spec_minus(self, other: Scalar) -> Scalar {
        Scalar { raw: saturate(self.raw - other.raw) as i32 }
    }

    /// Saturating difference.
    #[verifier::when_used_as_spec(spec_minus)]
    pub fn minus(self, other: Scalar) -> (r: Scalar)
        ensures
            r == self.spec_minus(other),
    {
        Scalar { raw: saturate_i128(self.raw as i128 - other.raw as i128) }
    }

    pub open spec fn spec_negated(self) -> Scalar {
        Scalar { raw: saturate(-self.raw) as i32 }
    }

    /// The opposite number; that of the smallest number is the largest.
    #[verifier::when_used_as_spec(spec_negated)]
    pub fn negated(self) -> (r: Scalar)
        ensures
            r == self.spec_negated(),
    {
        Scalar { raw: saturate_i128(-(self.raw as i128)) }
    }

    pub open spec fn spec_times(self, other: Scalar) -> Scalar {
        Scalar { raw: saturate(trunc_div(self.raw * other.raw, ONE_RAW as int)) as i32 }
    }

    /// Product, rounded toward zero and saturated.
    #[verifier::when_used_as_spec(spec_times)]
    pub fn times(self, other: Scalar) -> (r: Scalar)
        ensures
            r == self.spec_times(other),
    {
        let a: i128 = self.raw as i128;
        let b: i128 = other.raw as i128;
        assert(-0x4000_0000_0000_0000 <= a * b <= 0x4000_0000_0000_0000) by (nonlinear_arith)
            requires
                -0x8000_0000 <= a <= 0x8000_0000,
                -0x8000_0000 <= b <= 0x8000_0000,
        ;
        let p: i128 = a * b;
        Scalar { raw: saturate_i128(p / 65536) }
    }

    pub open spec fn spec_halved(self) -> Scalar {
        Scalar { raw: trunc_div(self.raw as int, 2) as i32 }
    }

    /// Half of the number, rounded toward zero.
    #[verifier::when_used_as_spec(spec_halved)]
    pub fn halved(self) -> (r: Scalar)
        ensures
            r == self.spec_halved(),
    {
        Scalar { raw: self.raw / 2 }
    }
}

} // verus!
