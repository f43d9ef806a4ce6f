use futuredsp::firdes;
use yasa::design::FilterSpec;
use yasa::error::ConfigError;
use yasa::radio::FMRadio;
use yasa::ratio::Ratio;
use yasa::resampler::RationalResampler;

#[test]
fn filter_spec_is_checked() {
    let spec = FilterSpec::new(2_000, 10_000, 240_000).unwrap();
    assert_eq!((spec.cutoff(), spec.transition(), spec.rate()), (2_000, 10_000, 240_000));
    assert!(FilterSpec::new(0, 1, 2).is_ok());
    assert_eq!(FilterSpec::new(2_000, 10_000, 0).err(), Some(ConfigError::ZeroRate));
    assert_eq!(FilterSpec::new(2_000, 0, 240_000).err(), Some(ConfigError::ZeroTransition));
    assert_eq!(FilterSpec::new(2_000, 0, 0).err(), Some(ConfigError::ZeroRate));
}

#[test]
fn filter_spec_stays_below_nyquist() {
    assert!(FilterSpec::new(2_000, 10_000, 14_001).is_ok());
    assert_eq!(FilterSpec::new(2_000, 10_000, 14_000).err(), Some(ConfigError::BeyondNyquist));
    assert_eq!(FilterSpec::new(50_000, 1, 100_000).err(), Some(ConfigError::BeyondNyquist));
    assert!(FilterSpec::new(49_999, 1, 100_000).is_ok());
    assert_eq!(
        FilterSpec::new(u64::MAX, u64::MAX, u64::MAX).err(),
        Some(ConfigError::BeyondNyquist)
    );
}

#[test]
fn designed_audio_filter_passes_a_constant() {
    let radio = FMRadio::start(100_000_000, 1_000_000, &[48_000]).unwrap();
    let (spec, decimation) = radio.audio_filter();
    let cutoff = spec.cutoff() as f64 / spec.rate() as f64;
    let transition = spec.transition() as f64 / spec.rate() as f64;
    let taps = firdes::kaiser::lowpass::<f32>(cutoff, transition, 0.1);
    let width = taps.len();
    let mut stage = RationalResampler::new(decimation, taps).unwrap();
    assert_eq!(stage.memory(), width - 1);
    let input = vec![1.0f32; 2_000];
    let done = stage.process(&input, true, 0.0, |acc: f32, x: f32, h: f32| acc + x * h);
    assert_eq!(done.output.len(), (2_000 - width + 1 + 4) / 5);
    for sample in &done.output {
        assert!((sample - 1.0).abs() < 0.1, "{sample}");
    }
}

fn amplitude_after_filter(spec: &FilterSpec, ripple: f64, tone: f64) -> f32 {
    let cutoff = spec.cutoff() as f64 / spec.rate() as f64;
    let transition = spec.transition() as f64 / spec.rate() as f64;
    let taps = firdes::kaiser::lowpass::<f32>(cutoff, transition, ripple);
    let settle = taps.len();
    let mut stage = RationalResampler::new(Ratio::new(1, 1).unwrap(), taps).unwrap();
    let turn = 2.0 * std::f64::consts::PI * tone / spec.rate() as f64;
    let input: Vec<f32> = (0..4_000).map(|i| (turn * i as f64).sin() as f32).collect();
    let done = stage.process(&input, true, 0.0, |acc: f32, x: f32, h: f32| acc + x * h);
    done.output[settle..].iter().fold(0.0f32, |peak, v| peak.max(v.abs()))
}

#[test]
fn designed_filter_attenuates_the_stopband() {
    let spec = FilterSpec::new(2_000, 10_000, 240_000).unwrap();
    for tone in [12_500.0, 20_000.0, 60_000.0, 110_000.0] {
        let left = amplitude_after_filter(&spec, 0.1, tone);
        assert!(left < 0.1, "{tone} Hz: {left}");
    }
    for tone in [100.0, 1_000.0] {
        let left = amplitude_after_filter(&spec, 0.1, tone);
        assert!((left - 1.0).abs() < 0.1, "{tone} Hz: {left}");
    }
    let sharp = FilterSpec::new(20_000, 5_000, 240_000).unwrap();
    for tone in [26_000.0, 40_000.0, 100_000.0] {
        let left = amplitude_after_filter(&sharp, 0.001, tone);
        assert!(left < 0.002, "{tone} Hz: {left}");
    }
}
