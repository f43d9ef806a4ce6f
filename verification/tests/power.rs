use yasa::error::ConfigError;
use yasa::power::{floor_div, mean_of, peak_of, Policy, PowerSink};

fn windowed(size: usize, first: usize, count: usize, window: u32) -> PowerSink {
    PowerSink::new(size, Policy::WindowedMean { first, count, window }).unwrap()
}

#[test]
fn window_of_constant_power_reports_it_once() {
    let mut sink = windowed(4096, 2000, 46, 1000);
    let block = vec![Some(-61_250); 4096];
    let mut reports = Vec::new();
    for i in 0..3000 {
        let done = sink.process(&block, false);
        assert_eq!(done.consumed, 4096);
        for reading in done.output {
            reports.push((i, reading));
        }
    }
    assert_eq!(reports, vec![(999, -61_250), (1999, -61_250), (2999, -61_250)]);
}

#[test]
fn small_window_reports_every_time_it_fills() {
    let mut sink = windowed(4, 1, 2, 3);
    let mut out = Vec::new();
    for level in [10, 20, 30, 40, 50, 60, 70] {
        let block = [Some(1_000), Some(level), Some(level + 2), Some(-1_000)];
        out.push(sink.process(&block, false).output);
    }
    assert_eq!(out, vec![vec![], vec![], vec![21], vec![], vec![], vec![51], vec![]]);
}

#[test]
fn blocks_of_unexpected_size_are_discarded() {
    let mut sink = windowed(4, 0, 4, 2);
    assert!(sink.process(&[Some(8); 4], false).output.is_empty());
    let short = sink.process(&[Some(100); 3], false);
    assert_eq!(short.consumed, 3);
    assert!(short.output.is_empty());
    let long = sink.process(&[Some(100); 5], false);
    assert_eq!(long.consumed, 5);
    assert!(long.output.is_empty());
    assert!(sink.process(&[], false).output.is_empty());
    assert_eq!(sink.process(&[Some(10); 4], true).output, vec![9]);
}

#[test]
fn bins_that_are_not_finite_are_left_out() {
    assert_eq!(mean_of(&[Some(10), None, Some(20), None]), 15);
    assert_eq!(mean_of(&[None, Some(-7), None]), -7);
    assert_eq!(peak_of(&[None, Some(-7), None, Some(-9)]), -7);
}

#[test]
fn degenerate_blocks_measure_zero() {
    assert_eq!(mean_of(&[]), 0);
    assert_eq!(mean_of(&[None, None, None]), 0);
    let mut part = windowed(3, 1, 2, 1);
    assert_eq!(part.process(&[Some(5), None, None], false).output, vec![0]);
    let mut nothing = windowed(2, 1, 0, 1);
    assert_eq!(nothing.process(&[Some(5), Some(6)], false).output, vec![0]);
    assert_eq!(peak_of(&[]), 0);
    assert_eq!(peak_of(&[None, None]), 0);
    let mut sink = windowed(3, 0, 3, 2);
    assert!(sink.process(&[None, None, None], false).output.is_empty());
    assert_eq!(sink.process(&[None, None, None], false).output, vec![0]);
    let mut empty = windowed(0, 0, 0, 1);
    assert_eq!(empty.process(&[], false).output, vec![0]);
}

#[test]
fn mean_is_rounded_down() {
    assert_eq!(mean_of(&[Some(3), Some(4)]), 3);
    assert_eq!(mean_of(&[Some(-3), Some(-4)]), -4);
    assert_eq!(mean_of(&[Some(-1), Some(0), Some(0)]), -1);
    assert_eq!(mean_of(&[Some(i32::MAX), Some(i32::MAX)]), i32::MAX);
    assert_eq!(mean_of(&[Some(i32::MIN), Some(i32::MIN), Some(i32::MIN)]), i32::MIN);
    assert_eq!(floor_div(7, 2), 3);
    assert_eq!(floor_div(-7, 2), -4);
    assert_eq!(floor_div(-8, 2), -4);
    assert_eq!(floor_div(-1, 2), -1);
    assert_eq!(floor_div(0, 5), 0);
    assert_eq!(floor_div(i128::MIN, 1), i128::MIN);
    assert_eq!(floor_div(i128::MIN, u64::MAX), -9223372036854775809);
    assert_eq!(floor_div(i128::MAX, 2), i128::MAX / 2);
}

#[test]
fn extreme_readings_do_not_overflow() {
    let mut sink = windowed(2, 0, 2, u32::MAX);
    for _ in 0..1000 {
        assert!(sink.process(&[Some(i32::MIN), Some(i32::MIN)], false).output.is_empty());
    }
    let mut sink = windowed(1, 0, 1, 3);
    sink.process(&[Some(i32::MAX)], false);
    sink.process(&[Some(i32::MAX)], false);
    assert_eq!(sink.process(&[Some(i32::MAX)], false).output, vec![i32::MAX]);
}

#[test]
fn peak_is_reported_above_the_floor() {
    let mut sink = PowerSink::new(4, Policy::Peak { floor: -40 }).unwrap();
    assert_eq!(sink.process(&[Some(-80), Some(-35), None, Some(-60)], false).output, vec![-35]);
    assert!(sink.process(&[Some(-80), Some(-45), None, Some(-60)], false).output.is_empty());
    assert!(sink.process(&[Some(-40), Some(-40), Some(-40), Some(-40)], false).output.is_empty());
    assert_eq!(sink.process(&[None, None, None, None], true).output, vec![0]);
    assert!(sink.process(&[Some(0)], false).output.is_empty());
}

#[test]
fn peak_of_an_empty_block_is_zero() {
    let mut sink = PowerSink::new(0, Policy::Peak { floor: -40 }).unwrap();
    let done = sink.process(&[], true);
    assert_eq!(done.output, vec![0]);
    assert!(done.finished);
}

#[test]
fn sink_refuses_bad_configuration() {
    let zero_window = Policy::WindowedMean { first: 0, count: 1, window: 0 };
    assert_eq!(PowerSink::new(4, zero_window).err(), Some(ConfigError::ZeroWindow));
    let outside = Policy::WindowedMean { first: 3, count: 2, window: 1 };
    assert_eq!(PowerSink::new(4, outside).err(), Some(ConfigError::BinsOutOfBlock));
    let far = Policy::WindowedMean { first: usize::MAX, count: usize::MAX, window: 1 };
    assert_eq!(PowerSink::new(4, far).err(), Some(ConfigError::BinsOutOfBlock));
    let edge = Policy::WindowedMean { first: 2, count: 2, window: 1 };
    assert!(PowerSink::new(4, edge).is_ok());
}

#[test]
fn end_of_stream_is_passed_on() {
    let mut sink = windowed(2, 0, 2, 5);
    assert!(!sink.process(&[Some(1), Some(2)], false).finished);
    assert!(sink.process(&[Some(1), Some(2)], true).finished);
    assert!(sink.process(&[Some(1)], true).finished);
}
