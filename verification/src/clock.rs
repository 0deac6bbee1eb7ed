//! Instants and deadlines, in nanoseconds.
use vstd::prelude::*;

verus! {

/// The smaller of two numbers.
pub open spec fn min_int(a: int, b: int) -> int {
    if a <= b {
        a
    } else {
        b
    }
}

/// How far from the Unix epoch a wall clock can point, in nanoseconds.
pub const WALL_LIMIT: i128 = 0x4000_0000_0000_0000_0000_0000;

/// What the clocks show: the wall clock in nanoseconds from the Unix epoch, and
/// the monotonic clock.
#[derive(Clone, Copy, Debug, PartialEq, Eq, Structural)]
pub struct Reading {
    pub wall: i128,
    pub monotonic: u64,
}

impl Reading {
    /// The wall clock is within its reach.
    pub open spec fn wf(self) -> bool {
        -WALL_LIMIT <= self.wall <= WALL_LIMIT
    }
}

/// The monotonic clock's reading in nanoseconds, from its seconds and
/// nanoseconds. A part that is negative counts as zero.
pub fn monotonic_nanos(seconds: i64, nanos: i64) -> (reading: u64)
    ensures
        reading == min_int(
            at_least_zero(seconds as int) * 1_000_000_000 + at_least_zero(nanos as int),
            u64::MAX as int,
        ),
{
    let whole: u64 = if seconds > 0 {
        seconds as u64
    } else {
        0
    };
    let rest: u64 = if nanos > 0 {
        nanos as u64
    } else {
        0
    };
    match whole.checked_mul(1_000_000_000) {
        Some(scaled) => scaled.saturating_add(rest),
        None => 0xffff_ffff_ffff_ffff,
    }
}

/// A number, or zero in place of a negative one.
pub open spec fn at_least_zero(a: int) -> int {
    if a > 0 {
        a
    } else {
        0
    }
}

/// The deadline that lies `duration` nanoseconds after `base`, held at the
/// largest instant the clock can express.
pub fn add(base: u64, duration: u128) -> (deadline: u64)
    ensures
        deadline == min_int(base + duration, u64::MAX as int),
{
    if duration > 0xffff_ffff_ffff_ffff {
        0xffff_ffff_ffff_ffff
    } else {
        base.saturating_add(duration as u64)
    }
}

/// The nanoseconds from `now` to `deadline`, or zero once it has passed.
pub fn remaining(now: u64, deadline: u64) -> (left: u64)
    ensures
        left == if now < deadline {
            deadline - now
        } else {
            0
        },
{
    deadline.saturating_sub(now)
}

/// The smaller of two numbers is one of them and not above the other, and a
/// number or zero is never below either.
pub proof fn bounds_are_kept(a: int, b: int)
    ensures
        min_int(a, b) <= a && min_int(a, b) <= b,
        min_int(a, b) == a || min_int(a, b) == b,
        at_least_zero(a) >= 0 && at_least_zero(a) >= a,
        at_least_zero(a) == 0 || at_least_zero(a) == a,
{
}

} // verus!
