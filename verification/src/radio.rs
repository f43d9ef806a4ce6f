use vstd::prelude::*;
use crate::design::{below_nyquist, FilterSpec};
use crate::error::ConfigError;
use crate::demod::QuadratureDemodulator;
use crate::ratio::{gcd_of, greatest_common_divisor, Ratio};
use crate::shifter::{step_of, FrequencyShifter};

verus! {

/// The channel is brought down to at most this many times the audio rate.
pub const MAX_AUDIO_MULTIPLE: u32 = 5;

/// How far beyond the offset the channel's rate may reach, in hertz.
pub const CHANNEL_MARGIN: u64 = 100_000;

/// The cutoff of the audio filter, in hertz.
pub const AUDIO_CUTOFF: u64 = 2_000;

/// The transition band of the audio filter, in hertz.
pub const AUDIO_TRANSITION: u64 = 10_000;

/// Stations are tuned to above this frequency only, in hertz.
pub const TUNING_FLOOR: u64 = 10;

/// Stations are tuned to below this frequency only, in hertz.
pub const TUNING_CEILING: u64 = 1_500_000_000;

/// How far above the station the hardware is tuned: a quarter of the sample
/// rate, so that the station keeps clear of the hardware's own centre.
pub open spec fn offset_for(rate: int) -> int {
    rate / 4
}

/// Place `i` holds the audio rate to use: one that shares the greatest
/// divisor with the sample rate, and the first such in the device's order.
pub open spec fn is_best_rate(rates: Seq<u32>, rate: u32, i: int) -> bool {
    &&& 0 <= i < rates.len()
    &&& forall|j: int|
        0 <= j < rates.len() ==> gcd_of((#[trigger] rates[j]) as nat, rate as nat) <= gcd_of(
            rates[i] as nat,
            rate as nat,
        )
    &&& forall|j: int|
        0 <= j < i ==> gcd_of((#[trigger] rates[j]) as nat, rate as nat) < gcd_of(
            rates[i] as nat,
            rate as nat,
        )
}

/// The audio rate to use among those the device offers.
pub open spec fn best_rate(rates: Seq<u32>, rate: u32) -> u32 {
    rates[choose|i: int| is_best_rate(rates, rate, i)]
}

/// Only one place holds the audio rate to use.
pub proof fn lemma_best_rate_unique(rates: Seq<u32>, rate: u32, i: int)
    requires
        is_best_rate(rates, rate, i),
    ensures
        best_rate(rates, rate) == rates[i],
{
    let c = choose|c: int| is_best_rate(rates, rate, c);
    if c < i {
        assert(gcd_of(rates[c] as nat, rate as nat) < gcd_of(rates[i] as nat, rate as nat));
    } else if i < c {
        assert(gcd_of(rates[i] as nat, rate as nat) < gcd_of(rates[c] as nat, rate as nat));
    }
}

/// The audio rate to use: of the rates the device offers, the first of those
/// that share the greatest divisor with the sample rate. None where the device
/// offers no rate.
pub fn select_audio_rate(rates: &[u32], rate: u32) -> (r: Option<u32>)
    ensures
        rates@.len() == 0 ==> r is None,
        rates@.len() != 0 ==> r == Some(best_rate(rates@, rate)),
        r matches Some(a) ==> exists|i: int| is_best_rate(rates@, rate, i) && rates@[i] == a,
{
    if rates.len() == 0 {
        return None;
    }
    let mut best: usize = 0;
    let mut shared: u64 = greatest_common_divisor(rates[0] as u64, rate as u64);
    let mut i: usize = 1;
    while i < rates.len()
        invariant
            1 <= i <= rates@.len(),
            best < i,
            shared == gcd_of(rates@[best as int] as nat, rate as nat),
            forall|j: int|
                0 <= j < i ==> gcd_of((#[trigger] rates@[j]) as nat, rate as nat) <= shared,
            forall|j: int|
                0 <= j < best ==> gcd_of((#[trigger] rates@[j]) as nat, rate as nat) < shared,
        decreases rates@.len() - i,
    {
        let g = greatest_common_divisor(rates[i] as u64, rate as u64);
        if g > shared {
            best = i;
            shared = g;
        }
        i = i + 1;
    }
    proof {
        assert(is_best_rate(rates@, rate, best as int));
        lemma_best_rate_unique(rates@, rate, best as int);
    }
    Some(rates[best])
}

/// The channel at `multiple` times the audio rate stays within the offset
/// and its margin.
pub open spec fn multiple_fits(multiple: int, audio_rate: int, rate: int) -> bool {
    multiple * audio_rate <= offset_for(rate) + CHANNEL_MARGIN
}

/// The largest multiple from `from` down that fits; zero always does.
pub open spec fn largest_multiple(from: nat, audio_rate: int, rate: int) -> nat
    decreases from,
{
    if from == 0 || multiple_fits(from as int, audio_rate, rate) {
        from
    } else {
        largest_multiple((from - 1) as nat, audio_rate, rate)
    }
}

/// The multiple of the audio rate at which the channel is demodulated: the
/// largest, of at most `MAX_AUDIO_MULTIPLE`, that fits.
pub fn audio_multiple(audio_rate: u32, rate: u32) -> (m: u32)
    ensures
        m == largest_multiple(MAX_AUDIO_MULTIPLE as nat, audio_rate as int, rate as int),
        m <= MAX_AUDIO_MULTIPLE,
        multiple_fits(m as int, audio_rate as int, rate as int),
        forall|k: int|
            m < k <= MAX_AUDIO_MULTIPLE ==> !multiple_fits(k, audio_rate as int, rate as int),
{
    let bound: u64 = (rate / 4) as u64 + CHANNEL_MARGIN;
    let mut m: u32 = MAX_AUDIO_MULTIPLE;
    while m > 0 && product(m, audio_rate) > bound
        invariant
            m <= MAX_AUDIO_MULTIPLE,
            bound == offset_for(rate as int) + CHANNEL_MARGIN,
            largest_multiple(MAX_AUDIO_MULTIPLE as nat, audio_rate as int, rate as int)
                == largest_multiple(m as nat, audio_rate as int, rate as int),
            forall|k: int|
                m < k <= MAX_AUDIO_MULTIPLE ==> !multiple_fits(k, audio_rate as int, rate as int),
        decreases m,
    {
        m = m - 1;
    }
    proof {
        assert(0 * (audio_rate as int) == 0) by (nonlinear_arith);
    }
    m
}

/// The product of two rates or factors.
fn product(a: u32, b: u32) -> (p: u64)
    ensures
        p == a * b,
{
    assert(a * b <= 0xffff_ffff * 0xffff_ffff) by (nonlinear_arith)
        requires
            a <= 0xffff_ffff,
            b <= 0xffff_ffff,
    ;
    (a as u64) * (b as u64)
}

/// Whether a station frequency is one the receiver tunes to.
pub fn tunable(frequency: u64) -> (ok: bool)
    ensures
        ok == (TUNING_FLOOR < frequency < TUNING_CEILING),
{
    frequency > TUNING_FLOOR && frequency < TUNING_CEILING
}

/// An FM receiver put together: where the hardware is tuned, and the rates and
/// ratios of the stages between the hardware and the audio device.
///
/// The hardware is tuned above the station by the offset; the shifter brings
/// the station back to the centre, the channel resampler takes the stream to a
/// multiple of the audio rate, the demodulator recovers the audio, and the
/// audio filter takes it down to the audio rate.
pub struct FMRadio {
    frequency: u64,
    rate: u32,
    audio_rate: u32,
    audio_multiple: u32,
    channel: Ratio,
    audio: Ratio,
    filter: FilterSpec,
}

impl FMRadio {
    /// The station's frequency.
    pub closed spec fn spec_frequency(&self) -> u64 {
        self.frequency
    }

    /// The hardware's sample rate.
    pub closed spec fn spec_rate(&self) -> u32 {
        self.rate
    }

    /// The audio device's sample rate.
    pub closed spec fn spec_audio_rate(&self) -> u32 {
        self.audio_rate
    }

    /// How many times the audio rate the demodulator runs at.
    pub closed spec fn spec_audio_multiple(&self) -> u32 {
        self.audio_multiple
    }

    /// The rate change from the hardware to the demodulator.
    pub closed spec fn spec_channel(&self) -> Ratio {
        self.channel
    }

    /// The rate change from the demodulator to the audio device.
    pub closed spec fn spec_audio(&self) -> Ratio {
        self.audio
    }

    /// What the audio filter is to do.
    pub closed spec fn spec_filter(&self) -> FilterSpec {
        self.filter
    }

    /// How far above the station the hardware is tuned.
    pub open spec fn spec_offset(&self) -> u32 {
        offset_for(self.rate() as int) as u32
    }

    /// The frequency that the hardware is tuned to.
    pub open spec fn spec_tuned(&self) -> u64 {
        (self.frequency() + self.offset()) as u64
    }

    /// The receiver is one that `start` can give.
    pub open spec fn wf(&self) -> bool {
        &&& self.rate() > 0
        &&& 0 < self.audio_multiple() <= MAX_AUDIO_MULTIPLE
        &&& self.frequency() + self.offset() <= u64::MAX
        &&& self.channel().wf()
        &&& self.channel().interp() * self.rate() == self.channel().decim() * (self.audio_rate()
            * self.audio_multiple())
        &&& self.audio().wf()
        &&& self.audio().interp() == 1
        &&& self.audio().decim() == self.audio_multiple()
        &&& self.spec_filter().wf()
        &&& self.spec_filter().cutoff() == AUDIO_CUTOFF
        &&& self.spec_filter().transition() == AUDIO_TRANSITION
        &&& self.spec_filter().rate() == self.audio_rate() * self.audio_multiple()
    }

    #[verifier::type_invariant]
    spec fn inv(self) -> bool {
        self.wf()
    }

    /// Plans the receiver for a station at `frequency`, hardware that samples
    /// at `rate`, and an audio device that offers `audio_rates`.
    ///
    /// Refused, in this order: a sample rate of zero; a device without audio
    /// rates; a channel rate of zero, be it that the chosen audio rate is zero
    /// or that not even the audio rate itself fits; a channel rate or a
    /// hardware frequency beyond the machine's integers; a channel too narrow
    /// for the audio filter.
    pub fn start(frequency: u64, rate: u32, audio_rates: &[u32]) -> (r: Result<
        FMRadio,
        ConfigError,
    >)
        ensures
            match start_error(frequency, rate, audio_rates@) {
                Some(e) => r == Err::<FMRadio, ConfigError>(e),
                None => {
                    &&& r matches Ok(radio)
                    &&& radio.wf()
                    &&& radio.frequency() == frequency
                    &&& radio.rate() == rate
                    &&& radio.audio_rate() == best_rate(audio_rates@, rate)
                    &&& radio.audio_multiple() == largest_multiple(
                        MAX_AUDIO_MULTIPLE as nat,
                        radio.audio_rate() as int,
                        rate as int,
                    )
                },
            },
    {
        if rate == 0 {
            return Err(ConfigError::ZeroRate);
        }
        let audio_rate = match select_audio_rate(audio_rates, rate) {
            Some(a) => a,
            None => {
                return Err(ConfigError::NoAudioRate);
            },
        };
        let audio_multiple = audio_multiple(audio_rate, rate);
        let channel_rate: u64 = product(audio_rate, audio_multiple);
        if channel_rate == 0 {
            return Err(ConfigError::ZeroInterpolation);
        }
        if channel_rate > usize::MAX as u64 {
            return Err(ConfigError::FrequencyOverflow);
        }
        let offset: u64 = (rate / 4) as u64;
        if frequency > u64::MAX - offset {
            return Err(ConfigError::FrequencyOverflow);
        }
        proof {
            assert(audio_multiple > 0) by (nonlinear_arith)
                requires
                    channel_rate == audio_rate * audio_multiple,
                    channel_rate != 0,
                    audio_multiple >= 0,
            ;
        }
        let filter = match FilterSpec::new(AUDIO_CUTOFF, AUDIO_TRANSITION, channel_rate) {
            Ok(f) => f,
            Err(e) => {
                return Err(e);
            },
        };
        let channel = match Ratio::new(channel_rate as usize, rate as usize) {
            Ok(c) => c,
            Err(e) => {
                return Err(e);
            },
        };
        let audio = match Ratio::decimation(audio_multiple as usize) {
            Ok(a) => a,
            Err(e) => {
                return Err(e);
            },
        };
        Ok(FMRadio { frequency, rate, audio_rate, audio_multiple, channel, audio, filter })
    }

    /// The station's frequency.
    #[verifier::when_used_as_spec(spec_frequency)]
    pub fn frequency(&self) -> (f: u64)
        ensures
            f == self.frequency(),
    {
        self.frequency
    }

    /// The hardware's sample rate.
    #[verifier::when_used_as_spec(spec_rate)]
    pub fn rate(&self) -> (f: u32)
        ensures
            f == self.rate(),
    {
        self.rate
    }

    /// The audio device's sample rate.
    #[verifier::when_used_as_spec(spec_audio_rate)]
    pub fn audio_rate(&self) -> (f: u32)
        ensures
            f == self.audio_rate(),
    {
        self.audio_rate
    }

    /// How many times the audio rate the demodulator runs at.
    #[verifier::when_used_as_spec(spec_audio_multiple)]
    pub fn audio_multiple(&self) -> (m: u32)
        ensures
            m == self.audio_multiple(),
    {
        self.audio_multiple
    }

    /// The rate change from the hardware to the demodulator.
    #[verifier::when_used_as_spec(spec_channel)]
    pub fn channel(&self) -> (c: Ratio)
        ensures
            c == self.channel(),
            self.wf(),
    {
        proof {
            use_type_invariant(self);
        }
        self.channel
    }

    /// The rate change from the demodulator to the audio device.
    #[verifier::when_used_as_spec(spec_audio)]
    pub fn audio(&self) -> (a: Ratio)
        ensures
            a == self.audio(),
            self.wf(),
    {
        proof {
            use_type_invariant(self);
        }
        self.audio
    }

    /// How far above the station the hardware is tuned.
    #[verifier::when_used_as_spec(spec_offset)]
    pub fn offset(&self) -> (o: u32)
        ensures
            o == self.offset(),
            o == offset_for(self.rate() as int),
    {
        self.rate / 4
    }

    /// The frequency that the hardware is tuned to.
    #[verifier::when_used_as_spec(spec_tuned)]
    pub fn tuned(&self) -> (f: u64)
        ensures
            f == self.tuned(),
            f == self.frequency() + self.offset(),
    {
        proof {
            use_type_invariant(self);
        }
        self.frequency + (self.rate / 4) as u64
    }

    /// Moves the receiver to another station. The hardware is to be tuned to
    /// the frequency returned, which lies above the station by the offset; a
    /// station so high that this is beyond the machine's integers is refused
    /// and the receiver stays where it is.
    pub fn tune_to(&mut self, frequency: u64) -> (r: Result<u64, ConfigError>)
        ensures
            final(self).wf(),
            final(self).rate() == old(self).rate(),
            final(self).audio_rate() == old(self).audio_rate(),
            final(self).audio_multiple() == old(self).audio_multiple(),
            final(self).channel() == old(self).channel(),
            final(self).audio() == old(self).audio(),
            final(self).spec_filter() == old(self).spec_filter(),
            frequency + old(self).offset() <= u64::MAX ==> r == Ok::<u64, ConfigError>(
                (frequency + old(self).offset()) as u64,
            ) && final(self).frequency() == frequency,
            frequency + old(self).offset() > u64::MAX ==> r == Err::<u64, ConfigError>(
                ConfigError::FrequencyOverflow,
            ) && final(self).frequency() == old(self).frequency(),
    {
        proof {
            use_type_invariant(&*self);
        }
        let offset: u64 = (self.rate / 4) as u64;
        if frequency > u64::MAX - offset {
            return Err(ConfigError::FrequencyOverflow);
        }
        self.frequency = frequency;
        Ok(frequency + offset)
    }

    /// The shifter that brings the station from the offset back to the
    /// centre; it renormalizes every `cadence` samples.
    pub fn shift(&self, cadence: u64) -> (r: Result<FrequencyShifter, ConfigError>)
        ensures
            cadence == 0 ==> r == Err::<FrequencyShifter, ConfigError>(ConfigError::ZeroCadence),
            cadence != 0 ==> {
                &&& r matches Ok(s)
                &&& s.wf()
                &&& s.rate() == self.rate()
                &&& s.cadence() == cadence
                &&& s.step() == step_of(self.offset() as int, self.rate() as int)
                &&& s.phase() == 0
                &&& s.since() == 0
                &&& s.pending() == None::<i64>
            },
    {
        proof {
            use_type_invariant(self);
        }
        FrequencyShifter::new((self.rate / 4) as i64, self.rate as u64, cadence)
    }

    /// The demodulator; `zero` is the zero sample, which stands before the
    /// first sample of the stream.
    pub fn fm_demodulation<T: Copy>(&self, zero: T) -> (d: QuadratureDemodulator<T>)
        ensures
            d.previous() == zero,
    {
        QuadratureDemodulator::new(zero)
    }

    /// What the audio filter is to do, and the decimation that follows it.
    pub fn audio_filter(&self) -> (r: (FilterSpec, Ratio))
        ensures
            r.0 == self.spec_filter(),
            r.1 == self.audio(),
            self.wf(),
    {
        proof {
            use_type_invariant(self);
        }
        (self.filter, self.audio)
    }
}

/// Why no receiver can be planned, if anything stands against it.
pub open spec fn start_error(frequency: u64, rate: u32, audio_rates: Seq<u32>) -> Option<
    ConfigError,
> {
    let audio_rate = best_rate(audio_rates, rate) as int;
    let channel_rate = audio_rate * largest_multiple(
        MAX_AUDIO_MULTIPLE as nat,
        audio_rate,
        rate as int,
    );
    if rate == 0 {
        Some(ConfigError::ZeroRate)
    } else if audio_rates.len() == 0 {
        Some(ConfigError::NoAudioRate)
    } else if channel_rate == 0 {
        Some(ConfigError::ZeroInterpolation)
    } else if channel_rate > usize::MAX || frequency + offset_for(rate as int) > u64::MAX {
        Some(ConfigError::FrequencyOverflow)
    } else if !below_nyquist(AUDIO_CUTOFF as int, AUDIO_TRANSITION as int, channel_rate) {
        Some(ConfigError::BeyondNyquist)
    } else {
        None
    }
}

} // verus!
