//! Wraparound-safe tick ("generation counter") arithmetic.
//!
//! The store stamps every resource write with the value of a global 32-bit
//! counter that the driver advances once per tick and that is allowed to wrap
//! around. Whether a stamp is newer than a watermark is therefore decided by
//! comparing the *ages* of the two relative to the current counter value,
//! each clamped at [`MAX_TICK_AGE`].

use vstd::prelude::*;

verus! {

/// Oldest age that the comparison distinguishes; anything older is treated
/// as exactly this old. Half the tick circle, so that an age below the bound
/// is unambiguous.
pub const MAX_TICK_AGE: u32 = 0x7fff_ffff;

/// Number of distinct tick values (the counter wraps modulo this).
pub const TICK_MODULUS: u64 = 0x1_0000_0000;

/// Age of the stamp `t` relative to the current counter value `now`,
/// measured backwards on the wrapping 32-bit circle.
pub open spec fn tick_age(now: u32, t: u32) -> int {
    if now >= t {
        now - t
    } else {
        now + TICK_MODULUS - t
    }
}

/// Age clamped at [`MAX_TICK_AGE`].
pub open spec fn clamped_age(now: u32, t: u32) -> int {
    if tick_age(now, t) <= MAX_TICK_AGE {
        tick_age(now, t)
    } else {
        MAX_TICK_AGE as int
    }
}

/// The stamp `t` is newer than the watermark `last`, judged from the current
/// counter value `now`: `t` has a strictly smaller clamped age.
pub open spec fn spec_newer_than(t: u32, last: u32, now: u32) -> bool {
    clamped_age(now, last) > clamped_age(now, t)
}

/// The counter value that follows `t`.
pub open spec fn tick_inc(t: u32) -> u32 {
    if t == 0xffff_ffff {
        0
    } else {
        (t + 1) as u32
    }
}

/// Age of `t` relative to `now`, computed on the wrapping circle.
fn wrapping_age(now: u32, t: u32) -> (r: u32)
    ensures
        r == tick_age(now, t),
{
    if now >= t {
        now - t
    } else {
        let wide: u64 = now as u64 + TICK_MODULUS - t as u64;
        assert(wide < TICK_MODULUS);
        wide as u32
    }
}

/// Wraparound-safe "newer than" comparison: is the stamp `t` newer than the
/// watermark `last`, judged from the current counter value `now`?
pub fn tick_newer_than(t: u32, last: u32, now: u32) -> (r: bool)
    ensures
        r == spec_newer_than(t, last, now),
{
    let mut age_t = wrapping_age(now, t);
    if age_t > MAX_TICK_AGE {
        age_t = MAX_TICK_AGE;
    }
    let mut age_last = wrapping_age(now, last);
    if age_last > MAX_TICK_AGE {
        age_last = MAX_TICK_AGE;
    }
    age_last > age_t
}

/// A stamp that is at least as old as the watermark is never reported as
/// newer: clamping preserves the order of ages.
pub proof fn lemma_older_not_newer(t: u32, last: u32, now: u32)
    requires
        tick_age(now, t) >= tick_age(now, last),
    ensures
        !spec_newer_than(t, last, now),
{
}

/// A stamp strictly younger than the watermark is reported as newer whenever
/// its age is within the clamping bound.
pub proof fn lemma_younger_is_newer(t: u32, last: u32, now: u32)
    requires
        tick_age(now, t) < tick_age(now, last),
        tick_age(now, t) < MAX_TICK_AGE,
    ensures
        spec_newer_than(t, last, now),
{
}

} // verus!
