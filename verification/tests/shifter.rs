use num_complex::Complex64;
use yasa::error::ConfigError;
use yasa::shifter::{reduce, FrequencyShifter, Rotation};

fn phases(rotation: Rotation) -> (u64, bool) {
    (rotation.phase, rotation.renormalize)
}

fn rotate(sample: Complex64, rotation: Rotation) -> Complex64 {
    let angle = 2.0 * std::f64::consts::PI * rotation.phase as f64 / rotation.rate as f64;
    sample * Complex64::from_polar(1.0, angle)
}

fn tone(frequency: f64, rate: f64, n: usize) -> Vec<Complex64> {
    let turn = 2.0 * std::f64::consts::PI * frequency / rate;
    (0..n).map(|i| Complex64::from_polar(1.0, turn * i as f64)).collect()
}

fn measured_frequency(samples: &[Complex64], rate: f64) -> f64 {
    let last = samples.len() - 1;
    let turn = (samples[last] * samples[last - 1].conj()).arg();
    turn * rate / (2.0 * std::f64::consts::PI)
}

#[test]
fn reduce_brings_offsets_into_range() {
    assert_eq!(reduce(250_000, 1_000_000), 250_000);
    assert_eq!(reduce(-250_000, 1_000_000), 750_000);
    assert_eq!(reduce(1_000_000, 1_000_000), 0);
    assert_eq!(reduce(-1_000_000, 1_000_000), 0);
    assert_eq!(reduce(-1, 7), 6);
    assert_eq!(reduce(i64::MIN, 10), 2);
    assert_eq!(reduce(i64::MAX, 10), 7);
}

#[test]
fn shifter_counts_phase_exactly() {
    let mut shifter = FrequencyShifter::new(3, 8, 4).unwrap();
    let seen: Vec<(u64, bool)> = (0..10).map(|_| phases(shifter.advance())).collect();
    assert_eq!(
        seen,
        vec![
            (0, true),
            (3, false),
            (6, false),
            (1, false),
            (4, true),
            (7, false),
            (2, false),
            (5, false),
            (0, true),
            (3, false),
        ]
    );
}

#[test]
fn shifter_first_sample_is_not_turned() {
    let mut shifter = FrequencyShifter::new(250_000, 1_000_000, 1024).unwrap();
    let input = [Complex64::new(0.5, -2.0), Complex64::new(1.0, 0.0)];
    let done = shifter.process(&input, false, rotate);
    assert_eq!(done.consumed, 2);
    assert_eq!(done.output.len(), 2);
    assert!((done.output[0] - input[0]).norm() < 1e-12);
    assert!((done.output[1] - Complex64::new(0.0, 1.0)).norm() < 1e-12);
}

#[test]
fn shifter_moves_tone_by_offset() {
    let rate = 1_000_000u64;
    for (frequency, offset) in [(10_000i64, 250_000i64), (-250_000, 250_000), (120_000, -70_000)] {
        let mut shifter = FrequencyShifter::new(offset, rate, 512).unwrap();
        let input = tone(frequency as f64, rate as f64, 20_000);
        let done = shifter.process(&input, true, rotate);
        assert!(done.finished);
        assert_eq!(done.output.len(), input.len());
        let got = measured_frequency(&done.output, rate as f64);
        assert!((got - (frequency + offset) as f64).abs() < 1e-3, "{got}");
        for sample in &done.output {
            assert!((sample.norm() - 1.0).abs() < 1e-9);
        }
    }
}

#[test]
fn shifter_does_not_drift_across_blocks() {
    let rate = 48_000u64;
    let input = tone(1_000.0, rate as f64, 30_000);
    let mut whole = FrequencyShifter::new(-1_000, rate, 100).unwrap();
    let at_once = whole.process(&input, false, rotate).output;
    let mut split = FrequencyShifter::new(-1_000, rate, 100).unwrap();
    let mut in_parts = Vec::new();
    for chunk in input.chunks(777) {
        in_parts.extend(split.process(chunk, false, rotate).output);
    }
    assert_eq!(in_parts, at_once);
    // the tone is brought to rest
    for sample in &at_once {
        assert!((sample - Complex64::new(1.0, 0.0)).norm() < 1e-9);
    }
}

#[test]
fn shifter_renormalizes_on_cadence() {
    let mut shifter = FrequencyShifter::new(1, 10, 3).unwrap();
    let input = [0u8; 8];
    let done = shifter.process(&input, false, |_, r: Rotation| r.renormalize as u8);
    assert_eq!(done.output, vec![1, 0, 0, 1, 0, 0, 1, 0]);
    let done = shifter.process(&input[..3], false, |_, r: Rotation| r.renormalize as u8);
    assert_eq!(done.output, vec![0, 1, 0]);
}

#[test]
fn retune_takes_effect_at_block_boundary() {
    let mut shifter = FrequencyShifter::new(1, 100, 10).unwrap();
    let block = [0u64; 4];
    let first = shifter.process(&block, false, |_, r: Rotation| r.phase);
    assert_eq!(first.output, vec![0, 1, 2, 3]);
    shifter.retune(-10);
    assert_eq!(shifter.advance().step, 1);
    let second = shifter.process(&block, false, |_, r: Rotation| r.phase);
    assert_eq!(second.output, vec![5, 95, 85, 75]);
    let third = shifter.process(&block, false, |_, r: Rotation| r.step);
    assert_eq!(third.output, vec![90, 90, 90, 90]);
}

#[test]
fn shifter_refuses_bad_configuration() {
    assert_eq!(FrequencyShifter::new(1, 0, 1).err(), Some(ConfigError::ZeroRate));
    assert_eq!(FrequencyShifter::new(1, 5, 0).err(), Some(ConfigError::ZeroCadence));
    assert_eq!(FrequencyShifter::new(1, 0, 0).err(), Some(ConfigError::ZeroRate));
}

#[test]
fn shifter_empty_block() {
    let mut shifter = FrequencyShifter::new(1, 5, 2).unwrap();
    let none: [u64; 0] = [];
    let done = shifter.process(&none, true, |_, r: Rotation| r.phase);
    assert_eq!(done.consumed, 0);
    assert!(done.output.is_empty());
    assert!(done.finished);
    assert_eq!(shifter.advance().phase, 0);
}

#[test]
fn kept_phasor_is_renormalized() {
    let rate = 1_000_000u64;
    let mut exact = FrequencyShifter::new(123_457, rate, 1_000).unwrap();
    let mut kept = FrequencyShifter::new(123_457, rate, 1_000).unwrap();
    let mut phasor = num_complex::Complex32::new(1.0, 0.0);
    let mut increment = num_complex::Complex32::new(1.0, 0.0);
    let unit = |part: u64, whole: u64| {
        let angle = 2.0 * std::f64::consts::PI * part as f64 / whole as f64;
        num_complex::Complex32::from_polar(1.0, angle as f32)
    };
    let mut renormalized = 0;
    kept.begin_block();
    for _ in 0..300_000 {
        let rotation = kept.advance();
        if rotation.renormalize {
            phasor = unit(rotation.phase, rotation.rate);
            increment = unit(rotation.step, rotation.rate);
            renormalized += 1;
        }
        let wanted = rotate(Complex64::new(1.0, 0.0), exact.advance());
        assert!((phasor.norm() - 1.0).abs() < 1e-3);
        assert!((phasor.re as f64 - wanted.re).abs() < 1e-2);
        assert!((phasor.im as f64 - wanted.im).abs() < 1e-2);
        phasor *= increment;
    }
    assert_eq!(renormalized, 300);
}
