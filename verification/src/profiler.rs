//! Timing: the operating system's clock, and the bookkeeping of a
//! calibration run that measures one second of it.

use vstd::prelude::*;

verus! {

#[verifier::external_type_specification]
#[verifier::external_body]
pub struct ExSystemTime(std::time::SystemTime);

#[verifier::external_type_specification]
#[verifier::external_body]
pub struct ExSystemTimeError(std::time::SystemTimeError);

/// `SystemTime::now` of the standard library reads the system clock.
/// Nothing is claimed of the time that it gives.
pub assume_specification[ std::time::SystemTime::now ]() -> (now: std::time::SystemTime);

/// `SystemTime::duration_since` of the standard library gives the time that
/// has passed since `earlier`, or an error where `earlier` is the later of
/// the two. Nothing is claimed of which it gives.
pub assume_specification[ std::time::SystemTime::duration_since ](
    time: &std::time::SystemTime,
    earlier: std::time::SystemTime,
) -> (elapsed: Result<std::time::Duration, std::time::SystemTimeError>);

/// `Duration::as_micros` of the standard library gives the whole
/// microseconds of a duration. Nothing is claimed of their number.
pub assume_specification[ std::time::Duration::as_micros ](duration: &std::time::Duration) -> (micros:
    u128);

/// The constant `UNIX_EPOCH` of the standard library: the start of
/// 1970-01-01 UTC as a system time.
#[verifier::external_body]
fn unix_epoch() -> (epoch: std::time::SystemTime) {
    std::time::UNIX_EPOCH
}

/// The number of ticks of the operating system's timer in one second.
pub fn get_os_timer_frequency() -> (frequency: u128)
    ensures
        frequency == 1_000_000,
{
    1_000_000
}

/// Reads the operating system's timer: the microseconds since the start of
/// 1970, or `None` where the clock stands before that.
pub fn read_os_timer() -> (ticks: Option<u128>) {
    // The clock alone decides what is read: nothing is promised of it.
    let now = std::time::SystemTime::now();
    let elapsed = now.duration_since(unix_epoch());
    // What becomes of each outcome of the comparison, `ticks_since_epoch` says.
    ticks_since_epoch(elapsed)
}

/// The reading of the timer for what a comparison of the clock with the
/// start of 1970 gave: the whole microseconds of the time that has passed,
/// and no reading exactly where the comparison failed, which it does where
/// the clock stands before that start.
///
/// The number of microseconds is the one that `Duration::as_micros` gives;
/// the standard library's durations have no model here in which it could be
/// stated.
pub fn ticks_since_epoch(
    elapsed: Result<std::time::Duration, std::time::SystemTimeError>,
) -> (ticks: Option<u128>)
    ensures
        ticks is Some <==> elapsed is Ok,
{
    match elapsed {
        Ok(elapsed) => Some(elapsed.as_micros()),
        Err(_) => None,
    }
}

/// What a calibration run does next.
#[derive(Debug, Clone, Copy, PartialEq, Eq)]
pub enum CalibrationStep {
    /// Read the timer again and hand the reading in.
    ReadTimer,
    /// The wanted time has passed.
    Finished,
}

/// The state of a calibration run: it reads the timer until a wanted number
/// of ticks has passed since its start.
#[derive(Debug, Clone, Copy, PartialEq, Eq)]
pub struct Calibration {
    /// The ticks to wait for.
    pub wanted: u128,
    /// The reading at the start.
    pub os_start: u128,
    /// The last reading, 0 before the first.
    pub os_end: u128,
    /// The ticks between the start and the last reading.
    pub os_elapsed: u128,
}

impl Calibration {
    /// A run that starts at the reading `os_start` and waits for `wanted`
    /// ticks.
    pub fn start(wanted: u128, os_start: u128) -> (run: Self)
        ensures
            run == (Calibration { wanted, os_start, os_end: 0, os_elapsed: 0 }),
    {
        Calibration { wanted, os_start, os_end: 0, os_elapsed: 0 }
    }

    /// What to do next: read the timer as long as fewer ticks than wanted
    /// have passed.
    pub fn next_step(&self) -> (step: CalibrationStep)
        ensures
            step == if self.os_elapsed < self.wanted {
                CalibrationStep::ReadTimer
            } else {
                CalibrationStep::Finished
            },
    {
        if self.os_elapsed < self.wanted {
            CalibrationStep::ReadTimer
        } else {
            CalibrationStep::Finished
        }
    }

    /// Takes in the reading `os_now`, which is not earlier than the start.
    pub fn observe(&mut self, os_now: u128)
        requires
            os_now >= old(self).os_start,
        ensures
            *final(self) == (Calibration {
                os_end: os_now,
                os_elapsed: (os_now - old(self).os_start) as u128,
                ..*old(self)
            }),
    {
        self.os_end = os_now;
        self.os_elapsed = os_now - self.os_start;
    }

    /// The whole seconds that have passed, for a timer of `frequency` ticks
    /// a second.
    pub fn seconds(&self, frequency: u128) -> (seconds: u128)
        requires
            frequency > 0,
        ensures
            seconds == self.os_elapsed / frequency,
    {
        self.os_elapsed / frequency
    }
}

/// The cycles between two readings of a cycle counter that does not run
/// backwards.
pub fn elapsed_cycles(cpu_start: u64, cpu_end: u64) -> (cycles: u64)
    requires
        cpu_start <= cpu_end,
    ensures
        cycles == cpu_end - cpu_start,
{
    cpu_end - cpu_start
}

} // verus!
