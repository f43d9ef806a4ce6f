use vstd::prelude::*;

verus! {

/// A configuration that no pipeline can be built from. Each is found while the
/// pipeline is put together, before the first sample is processed.
#[derive(Clone, Copy, Debug, PartialEq, Eq, Structural)]
pub enum ConfigError {
    /// The sample rate is zero.
    ZeroRate,
    /// The interpolation factor is zero.
    ZeroInterpolation,
    /// The decimation factor is zero.
    ZeroDecimation,
    /// The filter has no taps.
    EmptyFilter,
    /// The number of taps is no multiple of the interpolation factor.
    RaggedFilter,
    /// The transition band has no width.
    ZeroTransition,
    /// Cutoff plus half the transition band reaches the Nyquist frequency.
    BeyondNyquist,
    /// The oscillator would never be renormalized.
    ZeroCadence,
    /// The aggregation window holds no observation.
    ZeroWindow,
    /// The selected bins do not lie inside the block.
    BinsOutOfBlock,
    /// The audio device offers no sample rate.
    NoAudioRate,
    /// A frequency does not fit the machine's integers.
    FrequencyOverflow,
}

} // verus!
