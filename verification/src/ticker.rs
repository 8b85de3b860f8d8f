//! The heartbeat ticker: a free-running source of monotonically increasing
//! round numbers consumed by the registry to drive ping/pong liveness. The
//! ticker has no state beyond the next round number and its interval
//! configuration; the timer that paces it lives with the caller.

use vstd::prelude::*;
use crate::models::PingTime;

verus! {

/// The round interval the hub runs with, in seconds.
pub const DEFAULT_ROUND_INTERVAL_SECS: u32 = 10;

/// The whole state of the heartbeat ticker.
pub struct HeartbeatTicker {
    pub interval: PingTime,
    pub next_round: u64,
}

impl HeartbeatTicker {
    /// A fresh ticker; the first round handed out is 1.
    pub fn new(interval: PingTime) -> (r: HeartbeatTicker)
        ensures
            r.interval == interval,
            r.next_round == 1,
    {
        HeartbeatTicker { interval, next_round: 1 }
    }

    /// Hand out the next round number. Rounds increase by one per tick and
    /// never decrease; at the end of the number space the ticker saturates
    /// rather than wrap.
    pub fn tick(&mut self) -> (round: u64)
        ensures
            round == old(self).next_round,
            final(self).interval == old(self).interval,
            old(self).next_round < u64::MAX ==> final(self).next_round == old(self).next_round
                + 1,
            old(self).next_round == u64::MAX ==> final(self).next_round == u64::MAX,
            final(self).next_round >= old(self).next_round,
    {
        let round = self.next_round;
        if self.next_round < u64::MAX {
            self.next_round = self.next_round + 1;
        }
        round
    }

    /// The bounds, in seconds, between which the caller waits before the
    /// next tick: nothing for `Never`, a fixed interval for `Every`, and an
    /// inclusive range for `RandomBetween`.
    pub fn interval_bounds(&self) -> (r: Option<(u32, u32)>)
        ensures
            r == (match self.interval {
                PingTime::Never => None::<(u32, u32)>,
                PingTime::Every(s) => Some((s, s)),
                PingTime::RandomBetween(a, b) => Some((a, b)),
            }),
    {
        match self.interval {
            PingTime::Never => None,
            PingTime::Every(s) => Some((s, s)),
            PingTime::RandomBetween(a, b) => Some((a, b)),
        }
    }
}

} // verus!
