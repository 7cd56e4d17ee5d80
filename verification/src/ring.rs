//! The identifier space: a ring of `RING_SIZE` positions on which nodes and
//! keys are placed, with clockwise distance and interval tests.

use vstd::prelude::*;

verus! {

/// Number of positions on the ring; a power of two.
pub const RING_SIZE: i32 = 1024;

/// Number of finger slots per node: the base-2 logarithm of `RING_SIZE`.
pub const FINGER_COUNT: i32 = 10;

/// Whether `x` is a position on the ring.
pub open spec fn on_ring(x: int) -> bool {
    0 <= x < 1024
}

/// Clockwise distance from `a` to `b`: `(b - a) mod RING_SIZE`.
pub open spec fn spec_distance(a: int, b: int) -> int {
    (b - a) % 1024
}

/// Whether `x` lies in the clockwise interval that starts at `lo` (inclusive)
/// and ends at `hi` (exclusive). An interval whose two ends coincide covers
/// the whole ring.
pub open spec fn spec_in_range(x: int, lo: int, hi: int) -> bool {
    spec_distance(lo, hi) == 0 || spec_distance(lo, x) < spec_distance(lo, hi)
}

/// Whether `x` lies strictly between `lo` and `hi` going clockwise from `lo`.
pub open spec fn strictly_between(x: int, lo: int, hi: int) -> bool {
    0 < spec_distance(lo, x) < spec_distance(lo, hi)
}

/// Two to the power `i`.
pub open spec fn pow2(i: nat) -> nat
    decreases i,
{
    if i == 0 {
        1
    } else {
        2 * pow2((i - 1) as nat)
    }
}

/// The position that finger slot `i` of node `id` aims at:
/// `(id + 2^i) mod RING_SIZE`.
pub open spec fn spec_finger_target(id: int, i: nat) -> int {
    (id + pow2(i)) % 1024
}

/// Clockwise distance from `a` to `b` on the ring.
pub fn distance(a: i32, b: i32) -> (d: i32)
    ensures
        d == spec_distance(a as int, b as int),
        0 <= d < RING_SIZE,
{
    if b >= a {
        let diff: i64 = b as i64 - a as i64;
        (diff % 1024) as i32
    } else {
        let back: i64 = (a as i64 - b as i64) % 1024;
        if back == 0 {
            0
        } else {
            (1024 - back) as i32
        }
    }
}

/// Interval test on the ring: `lo` inclusive, `hi` exclusive, clockwise.
pub fn in_range(x: i32, lo: i32, hi: i32) -> (inside: bool)
    ensures
        inside == spec_in_range(x as int, lo as int, hi as int),
{
    let span: i32 = distance(lo, hi);
    span == 0 || distance(lo, x) < span
}

/// The position that finger slot `i` of node `id` aims at.
pub fn finger_target(id: i32, i: i32) -> (target: i32)
    requires
        0 <= i < FINGER_COUNT,
    ensures
        target == spec_finger_target(id as int, i as nat),
        on_ring(target as int),
{
    let mut step: i32 = 1;
    let mut k: i32 = 0;
    while k < i
        invariant
            0 <= k <= i < 10,
            step == pow2(k as nat),
            1 <= step <= 512,
        decreases i - k,
    {
        proof {
            lemma_pow2_values();
        }
        step = step * 2;
        k = k + 1;
    }
    distance(0, distance(0, id) + step)
}

/// The values of the powers of two that the finger slots use.
pub proof fn lemma_pow2_values()
    ensures
        pow2(0) == 1,
        pow2(1) == 2,
        pow2(2) == 4,
        pow2(3) == 8,
        pow2(4) == 16,
        pow2(5) == 32,
        pow2(6) == 64,
        pow2(7) == 128,
        pow2(8) == 256,
        pow2(9) == 512,
        pow2(10) == 1024,
{
    reveal_with_fuel(pow2, 12);
}

} // verus!
