use vstd::prelude::*;
use crate::geom::{SCALE, mul64, mul128, narrow64};

verus! {

/// Angle units: this many units make a half turn (the angle pi).
/// A full turn is twice this; a right angle is half of it.
pub const ANGLE_HALF_TURN: i64 = 1048576;

/// Angle units in a full turn.
pub const ANGLE_FULL_TURN: i64 = 2097152;

/// Angle units in a quarter turn (a right angle).
pub const ANGLE_QUARTER_TURN: i64 = 524288;

/// Curvature coefficient of the arctangent approximation, in angle units.
pub const ATAN_CURVE: i64 = 95100;

/// The representative of `a` in the half-open interval
/// `(-ANGLE_HALF_TURN, ANGLE_HALF_TURN]`, congruent to `a` modulo a full turn.
#[verifier::opaque]
pub open spec fn wrap_angle_spec(a: int) -> int {
    let m = a % (ANGLE_FULL_TURN as int);
    if m > ANGLE_HALF_TURN {
        m - ANGLE_FULL_TURN
    } else {
        m
    }
}

/// Wraps an angle into `(-ANGLE_HALF_TURN, ANGLE_HALF_TURN]`.
pub fn wrap_angle(a: i64) -> (r: i64)
    requires
        -0x4000_0000_0000_0000 <= a <= 0x4000_0000_0000_0000,
    ensures
        r == wrap_angle_spec(a as int),
        -ANGLE_HALF_TURN < r <= ANGLE_HALF_TURN,
{
    proof {
        reveal(wrap_angle_spec);
    }
    let m0 = a % ANGLE_FULL_TURN;
    let m = if m0 < 0 {
        m0 + ANGLE_FULL_TURN
    } else {
        m0
    };
    if m > ANGLE_HALF_TURN {
        m - ANGLE_FULL_TURN
    } else {
        m
    }
}

/// Rational approximation of `SCALE * sin(pi * x / ANGLE_HALF_TURN)`
/// for `x` in `[0, ANGLE_HALF_TURN]`; exact at 0, the quarter turn, and
/// the half turn.
#[verifier::opaque]
pub open spec fn sin_half_spec(x: int) -> int {
    let p = x * (ANGLE_HALF_TURN - x);
    (p * (16 * SCALE)) / (
    5 * (ANGLE_HALF_TURN as int) * (ANGLE_HALF_TURN as int) - 4 * p)
}

/// Fixed-point sine of an angle in angle units, scaled by `SCALE`.
#[verifier::opaque]
pub open spec fn sin_fp_spec(a: int) -> int {
    let w = wrap_angle_spec(a);
    if w >= 0 {
        sin_half_spec(w)
    } else {
        -sin_half_spec(-w)
    }
}

/// Fixed-point cosine of an angle in angle units, scaled by `SCALE`.
#[verifier::opaque]
pub open spec fn cos_fp_spec(a: int) -> int {
    sin_fp_spec(wrap_angle_spec(a) + ANGLE_QUARTER_TURN)
}

/// Sine on the nonnegative half-wave.
fn sin_half(x: i64) -> (r: i64)
    requires
        0 <= x <= ANGLE_HALF_TURN,
    ensures
        r == sin_half_spec(x as int),
        0 <= r <= SCALE,
{
    proof {
        reveal(sin_half_spec);
    }
    let p = mul64(x, ANGLE_HALF_TURN - x);
    proof {
        assert(0 <= p && 4 * p <= (ANGLE_HALF_TURN as int) * (ANGLE_HALF_TURN as int))
            by (nonlinear_arith)
            requires
                p == x * (ANGLE_HALF_TURN - x),
                0 <= x <= ANGLE_HALF_TURN,
        ;
        assert(p * ((16 * SCALE) as int) <= 0x0400_0000_0000_0000_0000
            && 0 <= p * ((16 * SCALE) as int)) by (nonlinear_arith)
            requires
                0 <= p <= 0x100_0000_0000,
        ;
    }
    let num = mul128(p, 16 * SCALE as i128);
    let den = 5 * (ANGLE_HALF_TURN as i128) * (ANGLE_HALF_TURN as i128) - 4 * p;
    let q = num / den;
    proof {
        assert(num <= SCALE * den && 0 <= num && den > 0) by (nonlinear_arith)
            requires
                num == p * (16 * SCALE),
                den == 5 * (ANGLE_HALF_TURN as int) * (ANGLE_HALF_TURN as int) - 4 * p,
                0 <= p,
                4 * p <= (ANGLE_HALF_TURN as int) * (ANGLE_HALF_TURN as int),
        ;
        assert(0 <= num / den <= SCALE) by (nonlinear_arith)
            requires
                den > 0,
                0 <= num,
                num <= SCALE * den,
        ;
    }
    narrow64(q)
}

/// Fixed-point sine: `SCALE` stands for 1.
pub fn sin_fp(a: i64) -> (r: i64)
    requires
        -0x4000_0000_0000_0000 <= a <= 0x4000_0000_0000_0000,
    ensures
        r == sin_fp_spec(a as int),
        -SCALE <= r <= SCALE,
{
    proof {
        reveal(sin_fp_spec);
    }
    let w = wrap_angle(a);
    if w >= 0 {
        sin_half(w)
    } else {
        -sin_half(-w)
    }
}

/// Fixed-point cosine: `SCALE` stands for 1.
pub fn cos_fp(a: i64) -> (r: i64)
    requires
        -0x4000_0000_0000_0000 <= a <= 0x4000_0000_0000_0000,
    ensures
        r == cos_fp_spec(a as int),
        -SCALE <= r <= SCALE,
{
    proof {
        reveal(cos_fp_spec);
        reveal(sin_fp_spec);
    }
    let w = wrap_angle(a);
    let s = wrap_angle(w + ANGLE_QUARTER_TURN);
    proof {
        crate::trig::lemma_wrap_idempotent_shift(w as int);
    }
    if s >= 0 {
        sin_half(s)
    } else {
        -sin_half(-s)
    }
}

/// Wrapping after a quarter-turn shift of an already wrapped angle agrees
/// with evaluating the sine at the shifted angle directly.
proof fn lemma_wrap_idempotent_shift(w: int)
    requires
        -ANGLE_HALF_TURN < w <= ANGLE_HALF_TURN,
    ensures
        sin_fp_spec(w + ANGLE_QUARTER_TURN) == ({
            let s = wrap_angle_spec(w + ANGLE_QUARTER_TURN);
            if s >= 0 {
                sin_half_spec(s)
            } else {
                -sin_half_spec(-s)
            }
        }),
{
    reveal(wrap_angle_spec);
    reveal(sin_fp_spec);
    let v = w + ANGLE_QUARTER_TURN;
    let s = wrap_angle_spec(v);
    assert(wrap_angle_spec(s) == s) by {
        assert(-ANGLE_HALF_TURN < s <= ANGLE_HALF_TURN);
        if s >= 0 {
            assert(s % (ANGLE_FULL_TURN as int) == s);
        } else {
            assert(s % (ANGLE_FULL_TURN as int) == s + ANGLE_FULL_TURN);
        }
    }
    assert(wrap_angle_spec(v) == s);
}

/// Arctangent of `num/den` for `0 <= num <= den`, in angle units:
/// a linear term plus a symmetric curvature correction, exact at the
/// endpoints 0 and a one-eighth turn.
#[verifier::opaque]
pub open spec fn atan_frac_spec(num: int, den: int) -> int {
    let q = (num * SCALE) / den;
    (q * ((ANGLE_QUARTER_TURN / 2) as int)) / (SCALE as int) + (q * (SCALE - q) * (
    ATAN_CURVE as int)) / ((SCALE as int) * (SCALE as int))
}

/// The angle of the vector `(x, y)` from the positive x-axis, in angle units,
/// in `[-ANGLE_HALF_TURN, ANGLE_HALF_TURN]`; 0 for the zero vector.
#[verifier::opaque]
pub open spec fn atan2_fp_spec(y: int, x: int) -> int {
    if x == 0 && y == 0 {
        0
    } else {
        let ax = if x >= 0 { x } else { -x };
        let ay = if y >= 0 { y } else { -y };
        let base = if ax >= ay {
            atan_frac_spec(ay, ax)
        } else {
            ANGLE_QUARTER_TURN - atan_frac_spec(ax, ay)
        };
        let a1 = if x >= 0 { base } else { ANGLE_HALF_TURN - base };
        if y >= 0 { a1 } else { -a1 }
    }
}

/// Arctangent of a fraction in the first octant.
fn atan_frac(num: i128, den: i128) -> (r: i64)
    requires
        0 <= num <= den,
        0 < den <= 0x1_0000_0000_0000_0000,
    ensures
        r == atan_frac_spec(num as int, den as int),
        0 <= r <= ANGLE_QUARTER_TURN / 2 + ATAN_CURVE,
{
    proof {
        reveal(atan_frac_spec);
    }
    let nums = mul128(num, SCALE as i128);
    let q = nums / den;
    proof {
        assert(0 <= nums / den <= SCALE && nums / den * den <= nums) by (nonlinear_arith)
            requires
                den > 0,
                0 <= nums,
                nums == num * SCALE,
                num <= den,
        ;
    }
    proof {
        assert(0 <= q * (SCALE - q) <= SCALE * SCALE) by (nonlinear_arith)
            requires
                0 <= q <= SCALE,
        ;
        assert(0 <= q * ((ANGLE_QUARTER_TURN / 2) as int) <= SCALE * ((ANGLE_QUARTER_TURN
            / 2) as int)) by (nonlinear_arith)
            requires
                0 <= q <= SCALE,
        ;
    }
    let t1 = (q * ((ANGLE_QUARTER_TURN / 2) as i128)) / (SCALE as i128);
    let c = mul128(q, (SCALE as i128) - q);
    proof {
        assert(q * (SCALE - q) * (ATAN_CURVE as int) <= SCALE * SCALE * (ATAN_CURVE as int)
            && 0 <= q * (SCALE - q) * (ATAN_CURVE as int)) by (nonlinear_arith)
            requires
                0 <= q * (SCALE - q) <= SCALE * SCALE,
        ;
    }
    let t2 = mul128(c, ATAN_CURVE as i128) / ((SCALE as i128) * (SCALE as i128));
    proof {
        assert(t1 <= ANGLE_QUARTER_TURN / 2) by (nonlinear_arith)
            requires
                t1 == (q * ((ANGLE_QUARTER_TURN / 2) as int)) / (SCALE as int),
                0 <= q * ((ANGLE_QUARTER_TURN / 2) as int) <= SCALE * ((ANGLE_QUARTER_TURN
                    / 2) as int),
        ;
        assert(t2 <= ATAN_CURVE) by (nonlinear_arith)
            requires
                t2 == (q * (SCALE - q) * (ATAN_CURVE as int)) / ((SCALE as int) * (
                SCALE as int)),
                0 <= q * (SCALE - q) * (ATAN_CURVE as int) <= SCALE * SCALE * (
                ATAN_CURVE as int),
        ;
    }
    narrow64(t1 + t2)
}

/// The angle of the vector `(x, y)` from the positive x-axis, in angle units.
pub fn atan2_fp(y: i64, x: i64) -> (r: i64)
    ensures
        r == atan2_fp_spec(y as int, x as int),
        -ANGLE_HALF_TURN <= r <= ANGLE_HALF_TURN,
{
    proof {
        reveal(atan2_fp_spec);
    }
    if x == 0 && y == 0 {
        return 0;
    }
    let ax: i128 = if x >= 0 { x as i128 } else { -(x as i128) };
    let ay: i128 = if y >= 0 { y as i128 } else { -(y as i128) };
    let base = if ax >= ay {
        atan_frac(ay, ax)
    } else {
        ANGLE_QUARTER_TURN - atan_frac(ax, ay)
    };
    let a1 = if x >= 0 { base } else { ANGLE_HALF_TURN - base };
    if y >= 0 { a1 } else { -a1 }
}

} // verus!
