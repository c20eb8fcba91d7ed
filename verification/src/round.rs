//! Staking rounds: the current round number, the block it started at and how
//! many blocks it lasts.

use crate::RoundIndex;
use vstd::prelude::*;

verus! {

/// `a + b`, saturating at `u64::MAX`.
pub open spec fn sat_add_u64(a: u64, b: u64) -> u64 {
    if a + b > u64::MAX {
        u64::MAX
    } else {
        (a + b) as u64
    }
}

/// The current round and when it started.
#[derive(Clone, Copy, Debug, PartialEq, Eq, Structural)]
pub struct RoundInfo {
    /// The current round.
    pub current: RoundIndex,
    /// The first block of the current round.
    pub first: u64,
    /// The length of the current round in blocks.
    pub length: u32,
}

impl RoundInfo {
    /// A round `current` starting at block `first` and lasting `length` blocks.
    pub fn new(current: RoundIndex, first: u64, length: u32) -> (r: RoundInfo)
        ensures
            r == (RoundInfo { current, first, length }),
    {
        RoundInfo { current, first, length }
    }

    /// Whether block `now` is the last block of the round (or later).
    pub fn should_update(&self, now: u64) -> (r: bool)
        ensures
            r == (sat_add_u64(now, 1) >= sat_add_u64(self.first, self.length as u64)),
    {
        now.saturating_add(1) >= self.first.saturating_add(self.length as u64)
    }

    /// Starts the next round at block `now`.
    pub fn update(&mut self, now: u64)
        ensures
            final(self).current == (if old(self).current == u32::MAX {
                u32::MAX
            } else {
                (old(self).current + 1) as u32
            }),
            final(self).first == now,
            final(self).length == old(self).length,
    {
        self.current = self.current.saturating_add(1u32);
        self.first = now;
    }

    /// Round zero, starting at block zero, lasting twenty blocks.
    pub fn default() -> (r: RoundInfo)
        ensures
            r == (RoundInfo { current: 0, first: 0, length: 20 }),
    {
        RoundInfo::new(0u32, 0u64, 20u32)
    }
}

} // verus!
