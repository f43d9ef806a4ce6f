use num_complex::Complex32;
use yasa::demod::QuadratureDemodulator;

fn detect(current: Complex32, previous: Complex32) -> f32 {
    let product = current * previous.conj();
    if product.norm_sqr() == 0.0 {
        0.0
    } else {
        product.arg()
    }
}

fn tone(turns_per_sample: f32, n: usize) -> Vec<Complex32> {
    let turn = 2.0 * std::f32::consts::PI * turns_per_sample;
    (0..n).map(|i| Complex32::from_polar(1.0, turn * i as f32)).collect()
}

#[test]
fn demodulated_tone_is_constant() {
    for turns in [0.01f32, 0.125, -0.2, 0.0] {
        let mut demod = QuadratureDemodulator::new(Complex32::new(0.0, 0.0));
        let done = demod.process(&tone(turns, 500), false, detect);
        assert_eq!(done.consumed, 500);
        assert_eq!(done.output.len(), 500);
        for angle in &done.output[1..] {
            assert!((angle - 2.0 * std::f32::consts::PI * turns).abs() < 1e-3, "{angle}");
        }
    }
}

#[test]
fn first_output_reflects_the_zero_sample() {
    let mut demod = QuadratureDemodulator::new(Complex32::new(0.0, 0.0));
    let done = demod.process(&[Complex32::new(0.0, 1.0)], false, detect);
    assert_eq!(done.output, vec![0.0]);
}

#[test]
fn zero_magnitude_gives_zero_angle() {
    let mut demod = QuadratureDemodulator::new(Complex32::new(0.0, 0.0));
    let input = [Complex32::new(1.0, 0.0), Complex32::new(0.0, 0.0), Complex32::new(0.0, 1.0)];
    let done = demod.process(&input, true, detect);
    assert_eq!(done.output, vec![0.0, 0.0, 0.0]);
    assert!(done.output.iter().all(|a| a.is_finite()));
    assert!(done.finished);
}

#[test]
fn previous_sample_is_kept_across_calls() {
    let samples = tone(0.05, 64);
    let mut whole = QuadratureDemodulator::new(Complex32::new(0.0, 0.0));
    let at_once = whole.process(&samples, false, detect).output;
    let mut split = QuadratureDemodulator::new(Complex32::new(0.0, 0.0));
    let mut in_parts = Vec::new();
    for chunk in [&samples[..1], &samples[1..1], &samples[1..40], &samples[40..]] {
        in_parts.extend(split.process(chunk, false, detect).output);
    }
    assert_eq!(in_parts, at_once);
}

#[test]
fn detector_pairs_each_sample_with_its_predecessor() {
    let mut demod = QuadratureDemodulator::new(0i32);
    let done = demod.process(&[5, 7, 12], false, |current: i32, previous: i32| (current, previous));
    assert_eq!(done.output, vec![(5, 0), (7, 5), (12, 7)]);
    let done = demod.process(&[13], false, |current: i32, previous: i32| (current, previous));
    assert_eq!(done.output, vec![(13, 12)]);
    let none: [i32; 0] = [];
    let done = demod.process(&none, false, |current: i32, previous: i32| (current, previous));
    assert!(done.output.is_empty());
    let done = demod.process(&[14], false, |current: i32, previous: i32| (current, previous));
    assert_eq!(done.output, vec![(14, 13)]);
}
