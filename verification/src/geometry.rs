//! Scalar and vector helpers for the fixed-point world.
//!
//! Lengths are in units of 1/3600 pixel, angles in microradians. A full turn
//! is `TAU_URAD` microradians; every stored angle is normalised to
//! `[0, TAU_URAD)`.

use vstd::prelude::*;

verus! {

/// Microradians in a full turn (2 * pi * 1_000_000, rounded).
pub const TAU_URAD: i64 = 6_283_185;

/// A 2D point or vector in world coordinates (units of 1/3600 pixel).
#[derive(Clone, Copy, Debug, PartialEq, Eq, Structural)]
pub struct Vec2 {
    pub x: i64,
    pub y: i64,
}

impl Vec2 {
    /// The squared Euclidean norm, as a mathematical integer.
    pub open spec fn norm_sq(self) -> int {
        self.x * self.x + self.y * self.y
    }
}

/// One normalisation step for an angle that left `[0, TAU_URAD)` by less
/// than a full turn.
pub open spec fn norm_angle(a: int) -> int {
    if a < 0 {
        a + TAU_URAD
    } else if a >= TAU_URAD {
        a - TAU_URAD
    } else {
        a
    }
}

/// Toroidal wrap of a scalar coordinate onto `[-s/2, s/2]`: one screen of
/// width `s` is added or subtracted when the coordinate left the range.
pub open spec fn wrap1(x: int, s: int) -> int {
    if x > s / 2 {
        x - s
    } else if x < -(s / 2) {
        x + s
    } else {
        x
    }
}

/// Wrapping is idempotent: once a coordinate has been wrapped back onto the
/// screen, wrapping it again changes nothing. This holds whenever the input
/// is at most one screen outside the wrapped range, which the velocity cap
/// guarantees for every actor the simulation produces.
pub proof fn lemma_wrap_idempotent(x: int, s: int)
    requires
        s > 0,
        s % 2 == 0,
        -(s / 2) - s <= x <= s / 2 + s,
    ensures
        wrap1(wrap1(x, s), s) == wrap1(x, s),
{
}

/// The wrapped coordinate lies on the screen whenever the input was at most
/// one screen outside it.
pub proof fn lemma_wrap_in_range(x: int, s: int)
    requires
        s > 0,
        s % 2 == 0,
        -(s / 2) - s <= x <= s / 2 + s,
    ensures
        -(s / 2) <= wrap1(x, s) <= s / 2,
{
}

/// `n` is the least integer whose square is at least `s`.
pub open spec fn is_ceil_sqrt(s: int, n: int) -> bool {
    &&& n >= 0
    &&& n * n >= s
    &&& n > 0 ==> (n - 1) * (n - 1) < s
}

/// The least integer whose square is at least `s` (for `s >= 0`).
pub open spec fn ceil_sqrt(s: int) -> int {
    choose|n: int| is_ceil_sqrt(s, n)
}

proof fn lemma_ceil_sqrt_unique(s: int, a: int, b: int)
    by (nonlinear_arith)
    requires
        is_ceil_sqrt(s, a),
        is_ceil_sqrt(s, b),
    ensures
        a == b,
{
}

/// Any witness of `is_ceil_sqrt` is the value of `ceil_sqrt`.
pub proof fn lemma_ceil_sqrt_is(s: int, n: int)
    requires
        is_ceil_sqrt(s, n),
    ensures
        ceil_sqrt(s) == n,
{
    assert(exists|m: int| is_ceil_sqrt(s, m)) by {
        assert(is_ceil_sqrt(s, n));
    }
    lemma_ceil_sqrt_unique(s, ceil_sqrt(s), n);
}

/// Rounded-up integer square root, by binary search.
///
/// Rounding up (rather than down) is what lets the velocity clamp stay at or
/// below the cap exactly.
pub fn isqrt_ceil(s: u64) -> (r: u64)
    ensures
        r <= 0x1_0000_0000,
        is_ceil_sqrt(s as int, r as int),
        ceil_sqrt(s as int) == r,
{
    let mut lo: u64 = 0;
    let mut hi: u64 = 0x1_0000_0000;
    proof {
        assert((0x1_0000_0000int) * (0x1_0000_0000int) >= s) by (nonlinear_arith)
            requires
                s <= u64::MAX,
        ;
    }
    while lo < hi
        invariant
            lo <= hi <= 0x1_0000_0000,
            (hi as int) * (hi as int) >= s,
            lo > 0 ==> ((lo - 1) as int) * ((lo - 1) as int) < s,
        decreases hi - lo,
    {
        let mid: u64 = lo + (hi - lo) / 2;
        proof {
            assert(mid < 0x1_0000_0000);
            assert(mid * mid <= 0xFFFF_FFFFu64 * 0xFFFF_FFFFu64) by (nonlinear_arith)
                requires
                    mid <= 0xFFFF_FFFFu64,
            ;
        }
        if mid * mid >= s {
            hi = mid;
        } else {
            lo = mid + 1;
        }
    }
    proof {
        lemma_ceil_sqrt_is(s as int, lo as int);
    }
    lo
}

/// Truncating scale of a signed component: `x * num / den`, rounded toward
/// zero. Used by the velocity clamp, where `den >= num > 0` so the result
/// never grows in magnitude.
pub open spec fn scale_trunc(x: int, num: int, den: int) -> int {
    if x >= 0 {
        (x * num) / den
    } else {
        -((-x * num) / den)
    }
}

/// Computes `scale_trunc` on machine integers.
pub fn scale_trunc_exec(x: i64, num: u64, den: u64) -> (r: i64)
    requires
        den > 0,
        num <= 0x10_0000,
        -0x1000_0000 <= x <= 0x1000_0000,
    ensures
        r == scale_trunc(x as int, num as int, den as int),
{
    if x >= 0 {
        proof {
            assert((x as u64) * num <= 0x1000_0000u64 * 0x10_0000u64) by (nonlinear_arith)
                requires
                    (x as u64) <= 0x1000_0000u64,
                    num <= 0x10_0000u64,
            ;
        }
        let prod: u64 = (x as u64) * num;
        let q: u64 = prod / den;
        proof {
            assert(q <= prod) by (nonlinear_arith)
                requires
                    q == prod / den,
                    den > 0,
            ;
        }
        q as i64
    } else {
        let neg: u64 = (-x) as u64;
        proof {
            assert(neg * num <= 0x1000_0000u64 * 0x10_0000u64) by (nonlinear_arith)
                requires
                    neg <= 0x1000_0000u64,
                    num <= 0x10_0000u64,
            ;
        }
        let prod: u64 = neg * num;
        let q: u64 = prod / den;
        proof {
            assert(q <= prod) by (nonlinear_arith)
                requires
                    q == prod / den,
                    den > 0,
            ;
        }
        -(q as i64)
    }
}

} // verus!
