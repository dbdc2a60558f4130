//! Time keeping with the CPU's time-stamp counter, calibrated against the PIT.

use vstd::prelude::*;

verus! {

/// The PIT's input clock, in Hz.
pub const PIT_FREQUENCY: u64 = 1_193_182;
/// How long the TSC is measured against the PIT, in milliseconds.
pub const CALIBRATION_MS: u64 = 50;

/// The PIT ticks in `us` microseconds.
pub fn pit_ticks_for(us: u64) -> (t: u64)
    requires
        us * 1_193_182 <= u64::MAX,
    ensures
        t == us * 1_193_182 / 1_000_000,
{
    (us * PIT_FREQUENCY) / 1_000_000
}

/// How to wait for a span of time.
#[derive(Debug, Clone, Copy, PartialEq, Eq, Structural)]
pub enum SleepPlan {
    /// The TSC is not calibrated: let the PIT wait this many microseconds.
    Pit(u64),
    /// Spin until the TSC has advanced by this many ticks.
    Spin(u64),
}

/// The time-stamp counter's calibration: its frequency in Hz, 0 until calibrated.
pub struct Tsc {
    freq: u64,
}

impl Tsc {
    /// The frequency, in Hz (0 before calibration).
    pub closed spec fn spec_frequency(&self) -> u64 {
        self.freq
    }

    /// A counter not yet calibrated.
    pub fn uncalibrated() -> (t: Self)
        ensures
            t.spec_frequency() == 0,
    {
        Tsc { freq: 0 }
    }

    /// The calibration from a measurement: the TSC advanced `tsc_delta`
    /// while the PIT counted `pit_ticks`; no PIT ticks give frequency 0.
    pub fn calibrated(tsc_delta: u64, pit_ticks: u64) -> (t: Self)
        requires
            tsc_delta * 1_193_182 <= u64::MAX,
        ensures
            t.spec_frequency() == (if pit_ticks == 0 {
                0
            } else {
                tsc_delta * 1_193_182 / pit_ticks as int
            }),
    {
        let freq = match (tsc_delta * PIT_FREQUENCY).checked_div(pit_ticks) {
            Some(f) => f,
            None => 0,
        };
        Tsc { freq }
    }

    /// The TSC frequency in Hz.
    pub fn frequency(&self) -> (f: u64)
        ensures
            f == self.spec_frequency(),
    {
        self.freq
    }

    /// Milliseconds since boot when the counter reads `ticks` (0 before calibration).
    pub fn uptime_ms(&self, ticks: u64) -> (ms: u64)
        ensures
            ms == (if self.spec_frequency() == 0 {
                0
            } else {
                ((ticks * 1000) / (self.spec_frequency() as int)) as u64
            }),
    {
        if self.freq == 0 {
            return 0;
        }
        ((ticks as u128 * 1000) / self.freq as u128) as u64
    }

    /// Microseconds since boot when the counter reads `ticks` (0 before calibration).
    pub fn uptime_us(&self, ticks: u64) -> (us: u64)
        ensures
            us == (if self.spec_frequency() == 0 {
                0
            } else {
                ((ticks * 1_000_000) / (self.spec_frequency() as int)) as u64
            }),
    {
        if self.freq == 0 {
            return 0;
        }
        ((ticks as u128 * 1_000_000) / self.freq as u128) as u64
    }

    /// How to sleep for `us` microseconds.
    pub fn sleep_us(&self, us: u64) -> (p: SleepPlan)
        requires
            us * self.spec_frequency() <= u64::MAX,
        ensures
            self.spec_frequency() == 0 ==> p == SleepPlan::Pit(us),
            self.spec_frequency() != 0 ==> p == SleepPlan::Spin(
                (us * self.spec_frequency() / 1_000_000) as u64,
            ),
    {
        if self.freq == 0 {
            return SleepPlan::Pit(us);
        }
        SleepPlan::Spin((us * self.freq) / 1_000_000)
    }
}

/// Whether a spin that started at counter value `start` and waits `ticks` is over at `now`.
pub fn spin_done(start: u64, now: u64, ticks: u64) -> (done: bool)
    requires
        start <= now,
    ensures
        done == (now - start >= ticks),
{
    now - start >= ticks
}

/// Time since boot never goes backwards: a later counter value gives no
/// fewer milliseconds, for a counter of at least 1 kHz (where the count of
/// milliseconds always fits).
pub proof fn lemma_uptime_never_goes_back(tsc: Tsc, t1: u64, t2: u64)
    requires
        tsc.spec_frequency() >= 1000,
        t1 <= t2,
    ensures
        ((t1 * 1000) / (tsc.spec_frequency() as int)) as u64 <= ((t2 * 1000) / (tsc.spec_frequency() as int)) as u64,
{
    let f = tsc.spec_frequency() as int;
    vstd::arithmetic::div_mod::lemma_div_is_ordered(t1 * 1000, t2 * 1000, f);
    vstd::arithmetic::div_mod::lemma_div_is_ordered_by_denominator(t2 * 1000, 1000, f);
    vstd::arithmetic::div_mod::lemma_div_is_ordered_by_denominator(t1 * 1000, 1000, f);
    assert((t2 * 1000) / 1000 == t2 as int);
    assert((t1 * 1000) / 1000 == t1 as int);
}

} // verus!
