//! A counter of amounts within a time window.
use vstd::prelude::*;

verus! {

pub enum MeterTickResult {
    Within,
    Exceeds,
}

/// The state of a [`Meter`]; times are in nanoseconds on one clock.
pub struct MeterState {
    pub limit: u64,
    pub window: u64,
    pub last: u64,
    pub count: u64,
}

/// Counts amounts; once a window has passed since the last reset, one
/// window's allowance (`limit`) is taken off the count.
pub struct Meter {
    limit: u64,
    window: u64,
    last: u64,
    count: u64,
}

impl View for Meter {
    type V = MeterState;

    closed spec fn view(&self) -> MeterState {
        MeterState { limit: self.limit, window: self.window, last: self.last, count: self.count }
    }
}

/// The time from `last` to `now`, or zero when `now` is not later.
pub open spec fn elapsed(last: u64, now: u64) -> int {
    if now >= last {
        now - last
    } else {
        0
    }
}

impl Meter {
    /// A meter allowing `limit` per `window` nanoseconds, started at `now`.
    pub fn new(limit: u64, window: u64, now: u64) -> (m: Self)
        ensures
            m@ == (MeterState { limit, window, last: now, count: 0 }),
    {
        Meter { limit, window, last: now, count: 0 }
    }

    /// Adds `amt` at time `now`; when more than a window has passed since the
    /// last reset, one window's allowance is taken off and the window starts
    /// again at `now`. Tells whether the count exceeds the limit.
    pub fn tick(&mut self, amt: u64, now: u64) -> (res: MeterTickResult)
        requires
            old(self)@.count + amt <= u64::MAX,
            elapsed(old(self)@.last, now) > old(self)@.window ==> old(self)@.count + amt >= old(
                self,
            )@.limit,
        ensures
            final(self)@.limit == old(self)@.limit,
            final(self)@.window == old(self)@.window,
            elapsed(old(self)@.last, now) > old(self)@.window ==> final(self)@.count == old(self)@.count
                + amt - old(self)@.limit && final(self)@.last == now,
            elapsed(old(self)@.last, now) <= old(self)@.window ==> final(self)@.count == old(
                self,
            )@.count + amt && final(self)@.last == old(self)@.last,
            res == (if final(self)@.count > final(self)@.limit {
                MeterTickResult::Exceeds
            } else {
                MeterTickResult::Within
            }),
    {
        self.count = self.count + amt;
        let since = if now >= self.last {
            now - self.last
        } else {
            0
        };
        if since > self.window {
            self.count = self.count - self.limit;
            self.last = now;
        }
        if self.count > self.limit {
            MeterTickResult::Exceeds
        } else {
            MeterTickResult::Within
        }
    }
}

} // verus!
