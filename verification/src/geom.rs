use vstd::prelude::*;

verus! {

/// Fixed-point unit: this many sub-units make 1.0 in the fraction scale used
/// for actions, drag factors, unit tangents and normalized observations.
pub const SCALE: i64 = 65536;

/// A 2D point or vector in integer world coordinates.
///
/// All world geometry in this crate is integer-valued; callers pick the
/// physical meaning of one unit (for example 1/1024 of a screen pixel).
/// Integer coordinates make every geometric query an exact, bit-reproducible
/// function of its inputs.
#[derive(Clone, Copy, Debug, PartialEq, Eq, Structural)]
pub struct Vec2 {
    pub x: i64,
    pub y: i64,
}

/// Squared Euclidean distance between two points, as a mathematical integer.
pub open spec fn dist_sq_spec(a: Vec2, b: Vec2) -> int {
    (a.x - b.x) * (a.x - b.x) + (a.y - b.y) * (a.y - b.y)
}

/// Widening product of two 64-bit values; never overflows.
pub fn mul64(a: i64, b: i64) -> (r: i128)
    ensures
        r == a * b,
{
    proof {
        assert(-0x8000_0000_0000_0000_0000_0000_0000_0000 <= (a as int) * (b as int)
            < 0x8000_0000_0000_0000_0000_0000_0000_0000) by (nonlinear_arith);
    }
    (a as i128) * (b as i128)
}

/// Product of two 128-bit values whose mathematical product stays in range.
pub fn mul128(a: i128, b: i128) -> (r: i128)
    requires
        -0x8000_0000_0000_0000_0000_0000_0000_0000 <= a * b
            < 0x8000_0000_0000_0000_0000_0000_0000_0000,
    ensures
        r == a * b,
{
    a * b
}

/// Floor division (round toward negative infinity) by a positive divisor.
/// Agrees with the mathematical `/` of specifications.
pub fn div_floor128(num: i128, den: i128) -> (q: i128)
    requires
        den > 0,
        num > -0x8000_0000_0000_0000_0000_0000_0000_0000,
    ensures
        q == num / den,
{
    if num >= 0 {
        num / den
    } else {
        let d = (-num) / den;
        let r = (-num) % den;
        proof {
            assert((-num) == d * den + r) by (nonlinear_arith)
                requires
                    den > 0,
                    num < 0,
                    d == (-num) as int / den as int,
                    r == (-num) as int % den as int,
            ;
            if r == 0 {
                assert(num == (-d) * den + 0) by (nonlinear_arith)
                    requires
                        (-num) == d * den + r,
                        r == 0,
                ;
                assert(num / den == -d) by (nonlinear_arith)
                    requires
                        den > 0,
                        num == (-d) * den + 0,
                ;
            } else {
                assert(num == (-d - 1) * den + (den - r)) by (nonlinear_arith)
                    requires
                        (-num) == d * den + r,
                ;
                assert(num / den == -d - 1) by (nonlinear_arith)
                    requires
                        den > 0,
                        0 < den - r < den,
                        num == (-d - 1) * den + (den - r),
                ;
            }
        }
        if r == 0 {
            -d
        } else {
            -d - 1
        }
    }
}

/// Magnitude of `x`.
pub open spec fn abs_i(x: int) -> int {
    if x < 0 {
        -x
    } else {
        x
    }
}

/// `a * b / den` rounded toward negative infinity, for a proportion
/// `0 <= b <= den`: the result keeps the magnitude of `a` (up to the floor).
pub fn mul_div_floor(a: i64, b: i128, den: i128) -> (q: i128)
    requires
        den > 0,
        0 <= b <= den,
        -0x40_0000_0000 <= a <= 0x40_0000_0000,
        den <= 0x1_0000_0000_0000_0000_0000,
    ensures
        q == ((a as int) * (b as int)) / (den as int),
        -abs_i(a as int) - 1 <= q <= abs_i(a as int),
{
    proof {
        assert(-0x8000_0000_0000_0000_0000_0000_0000_0000 < (a as int) * (b as int)
            < 0x8000_0000_0000_0000_0000_0000_0000_0000 && -abs_i(a as int) * (den as int)
            <= (a as int) * (b as int) <= abs_i(a as int) * (den as int)) by (nonlinear_arith)
            requires
                0 <= b <= den,
                0 < den <= 0x1_0000_0000_0000_0000_0000,
                -0x40_0000_0000 <= a <= 0x40_0000_0000,
        ;
    }
    let q = div_floor128(mul128(a as i128, b), den);
    proof {
        assert(-abs_i(a as int) - 1 <= ((a as int) * (b as int)) / (den as int) <= abs_i(a as int))
            by (nonlinear_arith)
            requires
                den > 0,
                -abs_i(a as int) * (den as int) <= (a as int) * (b as int) <= abs_i(a as int)
                    * (den as int),
                0 <= abs_i(a as int),
        ;
    }
    q
}

/// Narrowing of a 128-bit value known to fit in 64 bits.
pub fn narrow64(x: i128) -> (r: i64)
    requires
        i64::MIN <= x <= i64::MAX,
    ensures
        r == x,
{
    x as i64
}

/// Squared distance between two points whose coordinate differences are
/// bounded; exact in 128 bits.
pub fn dist_sq(a: Vec2, b: Vec2) -> (r: i128)
    requires
        -0x4000_0000_0000_0000 <= a.x - b.x <= 0x4000_0000_0000_0000,
        -0x4000_0000_0000_0000 <= a.y - b.y <= 0x4000_0000_0000_0000,
    ensures
        r == dist_sq_spec(a, b),
{
    let dx = (a.x as i128) - (b.x as i128);
    let dy = (a.y as i128) - (b.y as i128);
    proof {
        assert(dx * dx + dy * dy < 0x8000_0000_0000_0000_0000_0000_0000_0000
            && 0 <= dx * dx && 0 <= dy * dy) by (nonlinear_arith)
            requires
                -0x4000_0000_0000_0000 <= dx <= 0x4000_0000_0000_0000,
                -0x4000_0000_0000_0000 <= dy <= 0x4000_0000_0000_0000,
        ;
    }
    let qx = mul128(dx, dx);
    let qy = mul128(dy, dy);
    qx + qy
}

/// `r` is the integer square root of `v`.
pub open spec fn is_isqrt(v: int, r: int) -> bool {
    0 <= r && r * r <= v && v < (r + 1) * (r + 1)
}

/// The integer square root (floor of the real square root) of `v`.
pub open spec fn isqrt_s(v: int) -> int {
    choose|r: int| is_isqrt(v, r)
}

pub proof fn lemma_isqrt_unique(v: int, r1: int, r2: int)
    by (nonlinear_arith)
    requires
        is_isqrt(v, r1),
        is_isqrt(v, r2),
    ensures
        r1 == r2,
{
}

/// Every nonnegative integer has an integer square root, so `isqrt_s` is
/// well defined on them.
pub proof fn lemma_isqrt_exists(v: int)
    requires
        v >= 0,
    ensures
        is_isqrt(v, isqrt_s(v)),
        0 <= isqrt_s(v),
        isqrt_s(v) * isqrt_s(v) <= v,
    decreases v,
{
    if v == 0 {
        assert(is_isqrt(0, 0));
    } else {
        lemma_isqrt_exists(v - 1);
        let r = isqrt_s(v - 1);
        if (r + 1) * (r + 1) == v {
            assert(is_isqrt(v, r + 1)) by (nonlinear_arith)
                requires
                    is_isqrt(v - 1, r),
                    (r + 1) * (r + 1) == v,
            ;
        } else {
            assert(is_isqrt(v, r)) by (nonlinear_arith)
                requires
                    is_isqrt(v - 1, r),
                    (r + 1) * (r + 1) != v,
            ;
        }
        assert(exists|q: int| is_isqrt(v, q));
        lemma_isqrt_unique(v, isqrt_s(v), choose|q: int| is_isqrt(v, q));
    }
}

/// Integer square root by binary search.
pub fn isqrt128(v: i128) -> (r: i64)
    requires
        0 <= v <= 0x1000_0000_0000_0000_0000_0000_0000_0000,
    ensures
        is_isqrt(v as int, r as int),
        r == isqrt_s(v as int),
{
    let mut lo: i64 = 0;
    let mut hi: i64 = 0x4000_0000_0000_0000;
    proof {
        assert(v < (0x4000_0000_0000_0000i64 + 1) * (0x4000_0000_0000_0000i64 + 1))
            by (nonlinear_arith)
            requires
                v <= 0x1000_0000_0000_0000_0000_0000_0000_0000,
        ;
    }
    while lo < hi
        invariant
            0 <= lo <= hi <= 0x4000_0000_0000_0000,
            lo * lo <= v,
            v < (hi + 1) * (hi + 1),
        decreases hi - lo,
    {
        let mid = lo + (hi - lo + 1) / 2;
        let sq = mul64(mid, mid);
        if sq <= v {
            lo = mid;
        } else {
            hi = mid - 1;
        }
    }
    proof {
        assert(is_isqrt(v as int, lo as int));
        lemma_isqrt_unique(v as int, lo as int, isqrt_s(v as int));
    }
    lo
}

/// Magnitude bound of a product from magnitude bounds of its factors.
pub proof fn lemma_mul_bounds(a: int, b: int, ma: int, mb: int)
    by (nonlinear_arith)
    requires
        -ma <= a <= ma,
        -mb <= b <= mb,
        0 <= ma,
        0 <= mb,
    ensures
        -(ma * mb) <= a * b <= ma * mb,
{
}

/// Magnitude bound of a floor quotient from a magnitude bound of the
/// dividend.
pub proof fn lemma_div_bounds(a: int, b: int, m: int)
    by (nonlinear_arith)
    requires
        b > 0,
        0 <= m,
        -m <= a <= m,
    ensures
        -(m / b) - 1 <= a / b <= m / b,
{
}

/// Division by a positive divisor never grows the magnitude (beyond the
/// floor step).
pub proof fn lemma_div_shrinks(num: int, b: int)
    by (nonlinear_arith)
    requires
        b >= 1,
    ensures
        -abs_i(num) - 1 <= num / b <= abs_i(num),
{
}

/// Clamp `x` into `[lo, hi]`, as a specification-level value.
pub open spec fn clamp_spec(x: int, lo: int, hi: int) -> int {
    if x < lo {
        lo
    } else if x > hi {
        hi
    } else {
        x
    }
}

/// Clamp `x` into `[lo, hi]`.
pub fn clamp64(x: i64, lo: i64, hi: i64) -> (r: i64)
    requires
        lo <= hi,
    ensures
        r == clamp_spec(x as int, lo as int, hi as int),
{
    if x < lo {
        lo
    } else if x > hi {
        hi
    } else {
        x
    }
}

} // verus!
