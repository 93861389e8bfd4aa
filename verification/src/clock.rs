//! Monotonic time: instants and durations in ticks of a free-running counter,
//! and the clock that stretches a 32-bit hardware counter to 64 bits.

use vstd::prelude::*;

verus! {

/// Ticks in one millisecond: the counter runs at one megahertz.
pub const TICKS_PER_MILLI: u64 = 1_000;

/// Ticks in one second.
pub const TICKS_PER_SEC: u64 = 1_000_000;

/// The number of values of the hardware counter.
pub const COUNTER_SPAN: u64 = 0x1_0000_0000;

/// A point in time, in ticks since the clock was started.
#[derive(Clone, Copy, Debug, PartialEq, Eq, Structural)]
pub struct Instant {
    /// Ticks since the start.
    pub ticks: u64,
}

/// A span of time, in ticks.
#[derive(Clone, Copy, Debug, PartialEq, Eq, Structural)]
pub struct Duration {
    /// The length in ticks.
    pub ticks: u64,
}

/// The instant `duration` after `now`. Past the last instant the count starts
/// again at zero.
pub open spec fn deadline_of(now: Instant, duration: Duration) -> Instant {
    if now.ticks + duration.ticks <= u64::MAX {
        Instant { ticks: (now.ticks + duration.ticks) as u64 }
    } else {
        Instant { ticks: (now.ticks + duration.ticks - u64::MAX - 1) as u64 }
    }
}

/// The time after the counter was read as `counter`: the first instant at or
/// after `time` whose low 32 bits are `counter`. Past the last instant the
/// count starts again at `counter`.
pub open spec fn advanced(time: u64, counter: u32) -> u64 {
    let low = time % COUNTER_SPAN;
    if counter >= low {
        (time - low + counter) as u64
    } else if time - low + COUNTER_SPAN + counter <= u64::MAX {
        (time - low + COUNTER_SPAN + counter) as u64
    } else {
        counter as u64
    }
}

impl Duration {
    /// A span of so many ticks.
    pub fn from_ticks(ticks: u64) -> (r: Duration)
        ensures
            r.ticks == ticks,
    {
        Duration { ticks }
    }

    /// A span of so many milliseconds.
    pub fn millis(ms: u32) -> (r: Duration)
        ensures
            r.ticks == ms * TICKS_PER_MILLI,
    {
        Duration { ticks: ms as u64 * TICKS_PER_MILLI }
    }

    /// A span of so many seconds.
    pub fn secs(secs: u32) -> (r: Duration)
        ensures
            r.ticks == secs * TICKS_PER_SEC,
    {
        Duration { ticks: secs as u64 * TICKS_PER_SEC }
    }
}

impl Instant {
    /// The instant so many ticks after the start.
    pub fn from_ticks(ticks: u64) -> (r: Instant)
        ensures
            r.ticks == ticks,
    {
        Instant { ticks }
    }

    /// Whether something due at this instant is due at `now`.
    pub fn is_due(self, now: Instant) -> (r: bool)
        ensures
            r == (self.ticks <= now.ticks),
    {
        self.ticks <= now.ticks
    }
}

/// The instant at which something asked for at `now`, to happen after
/// `duration`, is due.
pub fn deadline(now: Instant, duration: Duration) -> (r: Instant)
    ensures
        r == deadline_of(now, duration),
{
    if duration.ticks <= u64::MAX - now.ticks {
        Instant { ticks: now.ticks + duration.ticks }
    } else {
        Instant { ticks: duration.ticks - (u64::MAX - now.ticks) - 1 }
    }
}

/// Keeps the time. The hardware counter is 32 bits wide and wraps; the clock
/// counts its wraps, so that the instants it gives keep growing as long as the
/// counter is read at least once in each of its rounds.
pub struct MonotonicClock {
    time: u64,
}

impl MonotonicClock {
    /// The time of the last reading, in ticks.
    pub closed spec fn view(&self) -> u64 {
        self.time
    }

    /// A clock at the start of time.
    pub fn new() -> (r: MonotonicClock)
        ensures
            r@ == 0,
    {
        MonotonicClock { time: 0 }
    }

    /// The time, given what the hardware counter reads now. It is not before
    /// the time of the last reading, except where the 64-bit count itself
    /// starts again.
    pub fn now(&mut self, counter: u32) -> (r: Instant)
        ensures
            final(self)@ == advanced(old(self)@, counter),
            r.ticks == final(self)@,
            r.ticks >= old(self)@ || (r.ticks == counter && old(self)@ > u64::MAX - 2
                * COUNTER_SPAN),
    {
        let low: u64 = self.time % COUNTER_SPAN;
        let base: u64 = self.time - low;
        if counter as u64 >= low {
            self.time = base + counter as u64;
        } else if base <= u64::MAX - COUNTER_SPAN - counter as u64 {
            self.time = base + COUNTER_SPAN + counter as u64;
        } else {
            self.time = counter as u64;
        }
        Instant { ticks: self.time }
    }

    /// The time of the last reading.
    pub fn last(&self) -> (r: Instant)
        ensures
            r.ticks == self@,
    {
        Instant { ticks: self.time }
    }
}

/// Time does not run backwards: a reading never gives an earlier instant than
/// the one before, except where the 64-bit count itself starts again, and it
/// is later by less than one round of the counter.
pub proof fn law_clock_monotonic(time: u64, counter: u32)
    ensures
        advanced(time, counter) % COUNTER_SPAN == counter,
        time - time % COUNTER_SPAN + COUNTER_SPAN + counter <= u64::MAX ==> time <= advanced(
            time,
            counter,
        ) < time + COUNTER_SPAN,
        advanced(time, counter) < time ==> advanced(time, counter) == counter && time > u64::MAX
            - 2 * COUNTER_SPAN,
{
}

/// A deadline is never before the instant it was asked at, except where the
/// count starts again; a zero duration is due at once.
pub proof fn law_deadline(now: Instant, duration: Duration)
    ensures
        duration.ticks == 0 ==> deadline_of(now, duration) == now,
        now.ticks + duration.ticks <= u64::MAX ==> deadline_of(now, duration).ticks == now.ticks
            + duration.ticks,
        now.ticks + duration.ticks > u64::MAX ==> deadline_of(now, duration).ticks < now.ticks,
{
}

} // verus!
