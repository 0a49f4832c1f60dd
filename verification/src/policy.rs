//! When a session ends: a pluggable predicate, with the periodic policy as the
//! provided implementation.  The first session lasts `offset` blocks and every
//! later one `period` blocks, so a session ends exactly on the blocks
//! `offset`, `offset + period`, `offset + 2 * period`, and so on.
use vstd::prelude::*;

use crate::BlockNumber;
use crate::fraction::Percent;

verus! {

/// Decides whether the session should be ended at a given block.
pub trait ShouldEndSession {
    /// Return `true` if the session should be ended after block `now`.
    fn should_end_session(&self, now: BlockNumber) -> bool;
}

/// Ends the session after a fixed period of blocks.
///
/// The first session has length `offset` and every following session has
/// length `period`.  A configuration with `offset >= period` is accepted; it
/// merely makes the earliest sessions very short.
#[derive(Clone, Copy, PartialEq, Eq, Structural, Debug)]
pub struct PeriodicSessions {
    /// Length in blocks of every session after the first.
    pub period: BlockNumber,
    /// Block at which the first session ends.
    pub offset: BlockNumber,
}

/// Whether the periodic policy ends a session at block `now`.
pub open spec fn spec_should_end(period: BlockNumber, offset: BlockNumber, now: BlockNumber) -> bool {
    now >= offset && (now - offset) % (period as int) == 0
}

/// Progress through the current session at block `now`, in whole parts per
/// hundred, rounded down.  The block being evaluated counts as elapsed, so the
/// last block of a session reports 100% and 0% is never reported.
pub open spec fn spec_progress_parts(
    period: BlockNumber,
    offset: BlockNumber,
    now: BlockNumber,
) -> int {
    if now >= offset {
        (((now - offset) % (period as int) + 1) * 100) / (period as int)
    } else {
        ((now + 1) * 100) / (offset as int)
    }
}

/// The block of the next expected rotation as estimated at block `now`,
/// assuming a rotation due exactly at `now` has already happened.  The sum is
/// clipped to the largest block number rather than wrapping.
pub open spec fn spec_next_rotation(
    period: BlockNumber,
    offset: BlockNumber,
    now: BlockNumber,
) -> BlockNumber {
    if now > offset {
        let rem = (now - offset) % (period as int);
        if rem > 0 {
            clip(now + period - rem)
        } else {
            clip(now + period)
        }
    } else {
        offset
    }
}

/// An unbounded block count, clipped to the largest representable block.
pub open spec fn clip(x: int) -> BlockNumber {
    if x > u64::MAX {
        u64::MAX
    } else {
        x as u64
    }
}

impl PeriodicSessions {
    /// Well-formedness: the period is never zero.
    pub open spec fn wf(self) -> bool {
        self.period >= 1
    }

    /// A periodic policy with the given session length and first-session end.
    pub fn new(period: BlockNumber, offset: BlockNumber) -> (r: PeriodicSessions)
        requires
            period >= 1,
        ensures
            r.wf(),
            r.period == period,
            r.offset == offset,
    {
        PeriodicSessions { period, offset }
    }

    /// The expected length of a session: the period.
    pub fn average_session_length(&self) -> (r: BlockNumber)
        ensures
            r == self.period,
    {
        self.period
    }

    /// How far the current session has progressed at block `now`.  The block
    /// being evaluated counts as already elapsed, so the last block of a
    /// session reports exactly 100% and 0% is never reported.  Before the
    /// first session ends, progress is measured against `offset` instead.
    pub fn estimate_current_session_progress(&self, now: BlockNumber) -> (r: Option<Percent>)
        requires
            self.wf(),
        ensures
            r matches Some(p) && p.wf() && p.parts == spec_progress_parts(
                self.period,
                self.offset,
                now,
            ),
    {
        if now >= self.offset {
            let current: u64 = (now - self.offset) % self.period + 1;
            Some(Percent::from_rational(current, self.period))
        } else {
            Some(Percent::from_rational(now + 1, self.offset))
        }
    }

    /// The next block at which a rotation is expected, as estimated at block
    /// `now`.  A rotation due exactly at `now` is assumed to have already
    /// happened, so the estimate then points one full period ahead.
    pub fn estimate_next_session_rotation(&self, now: BlockNumber) -> (r: Option<BlockNumber>)
        requires
            self.wf(),
        ensures
            r == Some(spec_next_rotation(self.period, self.offset, now)),
    {
        if now > self.offset {
            let rem: u64 = (now - self.offset) % self.period;
            if rem > 0 {
                Some(saturating_add(now, self.period - rem))
            } else {
                Some(saturating_add(now, self.period))
            }
        } else {
            Some(self.offset)
        }
    }
}

impl ShouldEndSession for PeriodicSessions {
    /// True exactly on the blocks `offset`, `offset + period`, and so on.
    fn should_end_session(&self, now: BlockNumber) -> (r: bool)
        ensures
            self.wf() ==> r == spec_should_end(self.period, self.offset, now),
    {
        if self.period == 0 {
            false
        } else {
            now >= self.offset && (now - self.offset) % self.period == 0
        }
    }
}

/// The sum of two block counts, clipped to the largest block number.
fn saturating_add(a: BlockNumber, b: BlockNumber) -> (r: BlockNumber)
    ensures
        r == clip(a as int + b as int),
{
    if a > u64::MAX - b {
        u64::MAX
    } else {
        a + b
    }
}

} // verus!
