//! Integer scalar and vector utilities shared by the rasterization pipeline.

use vstd::prelude::*;

verus! {

use vstd::arithmetic::div_mod::lemma_div_is_ordered_by_denominator;
use vstd::arithmetic::div_mod::lemma_div_nonincreasing;
use vstd::arithmetic::div_mod::lemma_div_pos_is_pos;

/// What `clamp` returns: `lo` below the range, `hi` above it, `x` inside it.
///
/// When `lo > hi` the lower test wins, matching the executable order of
/// comparisons; callers normally pass `lo <= hi`.
pub open spec fn spec_clamp(x: int, lo: int, hi: int) -> int {
    if x < lo {
        lo
    } else if x > hi {
        hi
    } else {
        x
    }
}

/// Clamp `x` into the range `[from, to]`.
pub fn clamp(x: i32, from: i32, to: i32) -> (r: i32)
    ensures
        r == spec_clamp(x as int, from as int, to as int),
{
    if x < from {
        from
    } else if x > to {
        to
    } else {
        x
    }
}

/// A two-component integer vector: a pixel coordinate on the screen.
#[derive(Clone, Copy, PartialEq, Eq, Structural, Debug)]
pub struct IVec2 {
    pub x: i32,
    pub y: i32,
}

impl IVec2 {
    /// Build a vector from its two components.
    pub fn new(x: i32, y: i32) -> (r: Self)
        ensures
            r.x == x,
            r.y == y,
    {
        Self { x: x, y: y }
    }

    /// Broadcast one scalar to both components.
    pub fn splat(v: i32) -> (r: Self)
        ensures
            r.x == v,
            r.y == v,
    {
        Self { x: v, y: v }
    }
}

/// The magnitude of an integer.
pub open spec fn spec_abs(a: int) -> int {
    if a >= 0 {
        a
    } else {
        -a
    }
}

/// Division rounding toward zero, as the machine division of signed
/// integers behaves (ghost `/` alone rounds toward negative infinity
/// when exactly one operand is negative).
pub open spec fn spec_div_trunc(a: int, b: int) -> int {
    if (a >= 0) == (b >= 0) {
        spec_abs(a) / spec_abs(b)
    } else {
        -(spec_abs(a) / spec_abs(b))
    }
}

/// What `map` returns: `x` rescaled linearly from the range
/// `[in_min, in_max]` to the range `[out_min, out_max]`, with the
/// division rounding toward zero.
pub open spec fn spec_map_range(x: int, in_min: int, in_max: int, out_min: int, out_max: int) -> int {
    spec_div_trunc((x - in_min) * (out_max - out_min), in_max - in_min) + out_min
}

/// Rescale `x` linearly from `[in_min, in_max]` to `[out_min, out_max]`.
///
/// The two ranges need not be ordered; `x` need not lie inside the input
/// range. The bounds in `requires` only keep every intermediate product,
/// quotient and sum inside the machine range.
pub fn map(x: i64, in_min: i64, in_max: i64, out_min: i64, out_max: i64) -> (r: i64)
    requires
        in_max != in_min,
        i64::MIN <= x - in_min <= i64::MAX,
        i64::MIN <= out_max - out_min <= i64::MAX,
        i64::MIN < in_max - in_min <= i64::MAX,
        i64::MIN <= (x - in_min) * (out_max - out_min) <= i64::MAX,
        (x - in_min) * (out_max - out_min) != i64::MIN || in_max - in_min != -1,
        i64::MIN <= spec_map_range(x as int, in_min as int, in_max as int, out_min as int, out_max as int) <= i64::MAX,
    ensures
        r == spec_map_range(x as int, in_min as int, in_max as int, out_min as int, out_max as int),
{
    let num = (x - in_min) * (out_max - out_min);
    let den = in_max - in_min;
    let q = if den > 0 {
        num / den
    } else {
        proof {
            let n = num as int;
            let d = -(den as int);
            if num >= 0 {
                lemma_div_pos_is_pos(n, d);
                lemma_div_nonincreasing(n, d);
            } else {
                lemma_div_pos_is_pos(-n, d);
                if n == i64::MIN {
                    lemma_div_is_ordered_by_denominator(-n, 2, d);
                } else {
                    lemma_div_nonincreasing(-n, d);
                }
            }
        }
        -(num / (-den))
    };
    assert(q == spec_div_trunc(num as int, den as int));
    q + out_min
}

} // verus!
