use haversine_json::profiler::{
    elapsed_cycles, get_os_timer_frequency, read_os_timer, ticks_since_epoch, Calibration,
    CalibrationStep,
};
use std::time::{Duration, UNIX_EPOCH};

#[test]
fn os_timer_ticks_in_microseconds() {
    assert_eq!(get_os_timer_frequency(), 1_000_000);
}

#[test]
fn os_timer_reads_the_time_since_1970() {
    let ticks = read_os_timer().unwrap();
    // later than the start of 2020, in microseconds
    assert!(ticks > 1_577_836_800_000_000);
    let again = read_os_timer().unwrap();
    assert!(again + 60_000_000 > ticks);
}

#[test]
fn calibration_starts_with_nothing_elapsed() {
    let run = Calibration::start(1_000_000, 42);
    assert_eq!(run, Calibration { wanted: 1_000_000, os_start: 42, os_end: 0, os_elapsed: 0 });
    assert_eq!(run.next_step(), CalibrationStep::ReadTimer);
}

#[test]
fn calibration_finishes_when_the_wanted_ticks_have_passed() {
    let mut run = Calibration::start(1_000_000, 500);
    run.observe(500);
    assert_eq!(run.os_elapsed, 0);
    assert_eq!(run.next_step(), CalibrationStep::ReadTimer);
    run.observe(1_000_499);
    assert_eq!(run.os_end, 1_000_499);
    assert_eq!(run.os_elapsed, 999_999);
    assert_eq!(run.next_step(), CalibrationStep::ReadTimer);
    run.observe(1_000_500);
    assert_eq!(run.os_elapsed, 1_000_000);
    assert_eq!(run.next_step(), CalibrationStep::Finished);
    assert_eq!(run.seconds(get_os_timer_frequency()), 1);
    run.observe(3_500_500);
    assert_eq!(run.next_step(), CalibrationStep::Finished);
    assert_eq!(run.seconds(get_os_timer_frequency()), 3);
    assert_eq!(run.os_start, 500);
    assert_eq!(run.wanted, 1_000_000);
}

#[test]
fn calibration_for_no_ticks_is_finished_at_once() {
    assert_eq!(Calibration::start(0, 7).next_step(), CalibrationStep::Finished);
}

#[test]
fn calibration_against_the_clock() {
    let start = read_os_timer().unwrap();
    let mut run = Calibration::start(2_000, start);
    let mut reads = 0u64;
    while run.next_step() == CalibrationStep::ReadTimer {
        let now = read_os_timer().unwrap();
        if now >= run.os_start {
            run.observe(now);
        }
        reads += 1;
    }
    assert!(reads > 0);
    assert!(run.os_elapsed >= 2_000);
    assert_eq!(run.os_end - run.os_start, run.os_elapsed);
}

#[test]
fn cycles_between_two_readings() {
    assert_eq!(elapsed_cycles(10, 25), 15);
    assert_eq!(elapsed_cycles(0, u64::MAX), u64::MAX);
    assert_eq!(elapsed_cycles(9, 9), 0);
}

#[test]
fn ticks_of_an_elapsed_time_are_its_whole_microseconds() {
    assert_eq!(ticks_since_epoch(Ok(Duration::from_micros(1_234_567))), Some(1_234_567));
    assert_eq!(ticks_since_epoch(Ok(Duration::new(3, 999_999_999))), Some(3_999_999));
    assert_eq!(ticks_since_epoch(Ok(Duration::from_nanos(999))), Some(0));
    assert_eq!(ticks_since_epoch(Ok(Duration::ZERO)), Some(0));
    assert_eq!(
        ticks_since_epoch(Ok(Duration::MAX)),
        Some(u64::MAX as u128 * 1_000_000 + 999_999)
    );
    let later = UNIX_EPOCH + Duration::from_secs(60);
    assert_eq!(ticks_since_epoch(later.duration_since(UNIX_EPOCH)), Some(60_000_000));
}

#[test]
fn no_ticks_where_the_clock_stands_before_the_start() {
    let later = UNIX_EPOCH + Duration::from_secs(60);
    assert_eq!(ticks_since_epoch(UNIX_EPOCH.duration_since(later)), None);
    let earlier = UNIX_EPOCH - Duration::from_micros(1);
    assert_eq!(ticks_since_epoch(earlier.duration_since(UNIX_EPOCH)), None);
}
