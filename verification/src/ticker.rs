//! The tick governor: it pads short iterations up to a floor duration and
//! measures throughput over a rolling one-second window.
//!
//! The governor itself performs no clock reads and no sleeping; the loop
//! driver hands it monotonic timestamps in nanoseconds and sleeps for the
//! padding it returns.  `end_tick` guarantees that work time plus padding
//! reaches the floor; `record_tick` publishes the tick count of a window
//! once the window has spanned more than a second.

use vstd::prelude::*;

verus! {

/// Nanoseconds per millisecond.
pub const NANOS_PER_MILLI: u64 = 1_000_000;

/// Tick counter increment; it saturates rather than wrap.
pub open spec fn count_next(c: int) -> int {
    if c < usize::MAX {
        c + 1
    } else {
        c
    }
}

/// Paces a loop to a minimum tick duration and measures ticks per second.
pub struct Ticker {
    /// Timestamp of the current tick's start.
    pub tick_start: u64,
    /// Floor duration of one tick, in nanoseconds.
    pub min_tick_time: u64,
    /// Timestamp at which the current measurement window opened.
    pub last_tps_measurement: u64,
    /// Ticks completed in the current window.
    pub tick_count: usize,
    /// Last published ticks-per-second value.
    pub tps: usize,
}

impl Ticker {
    /// A governor with the given floor, opening its first window at
    /// `now`.
    pub fn new(min_tick_time: u64, now: u64) -> (r: Ticker)
        ensures
            r.tick_start == now,
            r.min_tick_time == min_tick_time,
            r.last_tps_measurement == now,
            r.tick_count == 0,
            r.tps == 0,
    {
        Ticker {
            tick_start: now,
            min_tick_time,
            last_tps_measurement: now,
            tick_count: 0,
            tps: 0,
        }
    }

    /// Mark the start of a tick's work.
    pub fn start_tick(&mut self, now: u64)
        ensures
            final(self).tick_start == now,
            final(self).min_tick_time == old(self).min_tick_time,
            final(self).last_tps_measurement == old(self).last_tps_measurement,
            final(self).tick_count == old(self).tick_count,
            final(self).tps == old(self).tps,
    {
        self.tick_start = now;
    }

    /// How long the caller must still sleep so that the tick spans at
    /// least the floor duration.  Work time plus the returned padding
    /// never falls short of `min_tick_time`.
    pub fn end_tick(&self, now: u64) -> (pad: u64)
        ensures
            pad as int == ({
                let elapsed = if now >= self.tick_start {
                    now - self.tick_start
                } else {
                    0
                };
                if elapsed < self.min_tick_time {
                    self.min_tick_time - elapsed
                } else {
                    0
                }
            }),
            now >= self.tick_start ==> (now - self.tick_start) + pad >= self.min_tick_time,
    {
        let elapsed = if now >= self.tick_start {
            now - self.tick_start
        } else {
            0
        };
        if elapsed < self.min_tick_time {
            self.min_tick_time - elapsed
        } else {
            0
        }
    }

    /// Count a completed tick at `now`; when the rolling window has
    /// spanned more than a second, publish its tick count as the rate and
    /// open a new window.
    pub fn record_tick(&mut self, now: u64)
        ensures
            final(self).tick_start == old(self).tick_start,
            final(self).min_tick_time == old(self).min_tick_time,
            ({
                let counted = count_next(old(self).tick_count as int);
                let since = if now >= old(self).last_tps_measurement {
                    now - old(self).last_tps_measurement
                } else {
                    0
                };
                if since / (NANOS_PER_MILLI as int) > 1000 {
                    &&& final(self).tps == counted
                    &&& final(self).tick_count == 0
                    &&& final(self).last_tps_measurement == now
                } else {
                    &&& final(self).tps == old(self).tps
                    &&& final(self).tick_count == counted
                    &&& final(self).last_tps_measurement == old(self).last_tps_measurement
                }
            }),
    {
        if self.tick_count < usize::MAX {
            self.tick_count = self.tick_count + 1;
        }
        let since = if now >= self.last_tps_measurement {
            now - self.last_tps_measurement
        } else {
            0
        };
        if since / NANOS_PER_MILLI > 1000 {
            self.tps = self.tick_count;
            self.tick_count = 0;
            self.last_tps_measurement = now;
        }
    }

    /// Last published ticks-per-second value.
    pub fn get_tps(&self) -> (r: usize)
        ensures
            r == self.tps,
    {
        self.tps
    }

    /// Change the floor duration for subsequent ticks.
    pub fn set_min_tick_time(&mut self, t: u64)
        ensures
            final(self).min_tick_time == t,
            final(self).tick_start == old(self).tick_start,
            final(self).last_tps_measurement == old(self).last_tps_measurement,
            final(self).tick_count == old(self).tick_count,
            final(self).tps == old(self).tps,
    {
        self.min_tick_time = t;
    }
}

} // verus!
