use vstd::prelude::*;
use crate::block::Processed;
use crate::error::ConfigError;

verus! {

/// The oscillator's position for one sample, as the rotation kernel gets it.
/// Angles are counted in units of `1 / rate` of a turn, so that the phasor for
/// the sample is the unit vector at `2π · phase / rate`.
#[derive(Clone, Copy, Debug, PartialEq, Eq, Structural)]
pub struct Rotation {
    /// The angle of the phasor; below `rate`.
    pub phase: u64,
    /// The angle by which the phasor moves from one sample to the next; below `rate`.
    pub step: u64,
    /// The number of units in a full turn: the sample rate.
    pub rate: u64,
    /// The phasor is to be set afresh from `phase` at this sample, which
    /// forces its magnitude back to one.
    pub renormalize: bool,
}

/// The phase step that shifts by `offset` at sample rate `rate`.
pub open spec fn step_of(offset: int, rate: int) -> int {
    offset % rate
}

/// The phase `n` samples after `phase`, moving by `step` per sample.
pub open spec fn phase_after(phase: int, step: int, rate: int, n: int) -> int {
    (phase + n * step) % rate
}

/// Whether the sample `n` places after one that stands `since` samples
/// behind the last renormalization is renormalized itself.
pub open spec fn renormalized_at(since: int, cadence: int, n: int) -> bool {
    (since + n) % cadence == 0
}

/// A numerically controlled oscillator that rotates a sample stream.
///
/// The phase is an integer number of `1 / rate` turns, so it does not drift,
/// however long the stream runs. Kernels that keep a floating-point phasor
/// between samples are told every `cadence` samples to set it afresh.
pub struct FrequencyShifter {
    rate: u64,
    step: u64,
    phase: u64,
    cadence: u64,
    since: u64,
    pending: Option<i64>,
}

impl FrequencyShifter {
    /// The sample rate.
    pub closed spec fn rate(&self) -> u64 {
        self.rate
    }

    /// The phase step in force.
    pub closed spec fn step(&self) -> u64 {
        self.step
    }

    /// The phase of the next sample.
    pub closed spec fn phase(&self) -> u64 {
        self.phase
    }

    /// The number of samples from one renormalization to the next.
    pub closed spec fn cadence(&self) -> u64 {
        self.cadence
    }

    /// The number of samples since the last renormalization.
    pub closed spec fn since(&self) -> u64 {
        self.since
    }

    /// The offset that takes effect with the next block, if one was asked for.
    pub closed spec fn pending(&self) -> Option<i64> {
        self.pending
    }

    /// The state is one that `new` and the methods can reach.
    pub open spec fn wf(&self) -> bool {
        &&& self.rate() > 0
        &&& self.cadence() > 0
        &&& self.step() < self.rate()
        &&& self.phase() < self.rate()
        &&& self.since() < self.cadence()
    }

    #[verifier::type_invariant]
    spec fn inv(self) -> bool {
        self.wf()
    }

    /// The step that is in force once a pending retune has been applied.
    pub open spec fn next_step(&self) -> int {
        match self.pending() {
            Some(offset) => step_of(offset as int, self.rate() as int),
            None => self.step() as int,
        }
    }

    /// What the kernel is handed for the sample `n` places into the next block.
    pub open spec fn rotation_at(&self, n: int) -> Rotation {
        Rotation {
            phase: phase_after(self.phase() as int, self.next_step(), self.rate() as int, n) as u64,
            step: self.next_step() as u64,
            rate: self.rate(),
            renormalize: renormalized_at(self.since() as int, self.cadence() as int, n),
        }
    }

    /// An oscillator at phase zero that shifts by `offset` at sample rate
    /// `rate` and renormalizes every `cadence` samples, the first sample included.
    pub fn new(offset: i64, rate: u64, cadence: u64) -> (r: Result<FrequencyShifter, ConfigError>)
        ensures
            rate == 0 ==> r == Err::<FrequencyShifter, ConfigError>(ConfigError::ZeroRate),
            rate != 0 && cadence == 0 ==> r == Err::<FrequencyShifter, ConfigError>(
                ConfigError::ZeroCadence,
            ),
            rate != 0 && cadence != 0 ==> {
                &&& r matches Ok(s)
                &&& s.wf()
                &&& s.rate() == rate
                &&& s.cadence() == cadence
                &&& s.step() == step_of(offset as int, rate as int)
                &&& s.phase() == 0
                &&& s.since() == 0
                &&& s.pending() == None::<i64>
            },
    {
        if rate == 0 {
            return Err(ConfigError::ZeroRate);
        }
        if cadence == 0 {
            return Err(ConfigError::ZeroCadence);
        }
        let step = reduce(offset, rate);
        Ok(FrequencyShifter { rate, step, phase: 0, cadence, since: 0, pending: None })
    }

    /// Asks for a new offset. The request is only noted: it takes effect at the
    /// start of the next block, so no block is rotated with two offsets.
    pub fn retune(&mut self, offset: i64)
        ensures
            final(self).wf(),
            final(self).pending() == Some(offset),
            final(self).rate() == old(self).rate(),
            final(self).step() == old(self).step(),
            final(self).phase() == old(self).phase(),
            final(self).cadence() == old(self).cadence(),
            final(self).since() == old(self).since(),
    {
        proof {
            use_type_invariant(&*self);
        }
        self.pending = Some(offset);
    }

    /// Starts a block: a pending retune takes effect. The phase is kept, so
    /// the phasor turns on from where it stands.
    pub fn begin_block(&mut self)
        ensures
            final(self).wf(),
            final(self).pending() == None::<i64>,
            final(self).step() == old(self).next_step(),
            final(self).rate() == old(self).rate(),
            final(self).phase() == old(self).phase(),
            final(self).cadence() == old(self).cadence(),
            final(self).since() == old(self).since(),
    {
        proof {
            use_type_invariant(&*self);
        }
        match self.pending {
            Some(offset) => {
                self.step = reduce(offset, self.rate);
                self.pending = None;
            },
            None => {},
        }
    }

    /// The rotation for the next sample; the oscillator moves on by one sample.
    pub fn advance(&mut self) -> (r: Rotation)
        ensures
            final(self).wf(),
            r == (Rotation {
                phase: old(self).phase(),
                step: old(self).step(),
                rate: old(self).rate(),
                renormalize: old(self).since() == 0,
            }),
            final(self).phase() == phase_after(
                old(self).phase() as int,
                old(self).step() as int,
                old(self).rate() as int,
                1,
            ),
            final(self).since() == (old(self).since() + 1) % (old(self).cadence() as int),
            final(self).rate() == old(self).rate(),
            final(self).step() == old(self).step(),
            final(self).cadence() == old(self).cadence(),
            final(self).pending() == old(self).pending(),
    {
        proof {
            use_type_invariant(&*self);
        }
        let r = Rotation {
            phase: self.phase,
            step: self.step,
            rate: self.rate,
            renormalize: self.since == 0,
        };
        let room: u64 = self.rate - self.step;
        proof {
            let p = self.phase as int;
            let s = self.step as int;
            let m = self.rate as int;
            if p >= m - s {
                vstd::arithmetic::div_mod::lemma_fundamental_div_mod_converse(
                    p + s,
                    m,
                    1,
                    p + s - m,
                );
            } else {
                vstd::arithmetic::div_mod::lemma_fundamental_div_mod_converse(p + s, m, 0, p + s);
            }
            let c = self.cadence as int;
            let k = self.since as int;
            if k + 1 == c {
                vstd::arithmetic::div_mod::lemma_fundamental_div_mod_converse(k + 1, c, 1, 0);
            } else {
                vstd::arithmetic::div_mod::lemma_fundamental_div_mod_converse(k + 1, c, 0, k + 1);
            }
        }
        if self.phase >= room {
            self.phase = self.phase - room;
        } else {
            self.phase = self.phase + self.step;
        }
        if self.since + 1 == self.cadence {
            self.since = 0;
        } else {
            self.since = self.since + 1;
        }
        r
    }

    /// Rotates a block. A pending retune takes effect first; then each sample
    /// goes through `rotate` together with the oscillator's position for it.
    /// All of the input is consumed, and the end of the stream is passed on.
    pub fn process<T: Copy, F: Fn(T, Rotation) -> T>(
        &mut self,
        input: &[T],
        last: bool,
        rotate: F,
    ) -> (r: Processed<T>)
        requires
            forall|i: int|
                0 <= i < input@.len() ==> call_requires(
                    rotate,
                    (#[trigger] input@[i], old(self).rotation_at(i)),
                ),
        ensures
            final(self).wf(),
            r.consumed == input@.len(),
            r.honours(input@.len(), last),
            r.output@.len() == input@.len(),
            forall|i: int|
                0 <= i < input@.len() ==> call_ensures(
                    rotate,
                    (input@[i], old(self).rotation_at(i)),
                    #[trigger] r.output@[i],
                ),
            final(self).rate() == old(self).rate(),
            final(self).cadence() == old(self).cadence(),
            final(self).pending() == None::<i64>,
            final(self).step() == old(self).next_step(),
            final(self).phase() == phase_after(
                old(self).phase() as int,
                old(self).next_step(),
                old(self).rate() as int,
                input@.len() as int,
            ),
            final(self).since() == (old(self).since() + input@.len()) % (
            old(self).cadence() as int),
    {
        proof {
            use_type_invariant(&*self);
        }
        let ghost before = *self;
        self.begin_block();
        let mut output: Vec<T> = Vec::with_capacity(input.len());
        let mut i: usize = 0;
        proof {
            lemma_phase_start(before.phase() as int, before.next_step(), before.rate() as int);
            vstd::arithmetic::div_mod::lemma_small_mod(
                before.since() as nat,
                before.cadence() as nat,
            );
        }
        while i < input.len()
            invariant
                self.wf(),
                before.wf(),
                i <= input@.len(),
                output@.len() == i,
                self.rate() == before.rate(),
                self.cadence() == before.cadence(),
                self.pending() == None::<i64>,
                self.step() == before.next_step(),
                self.phase() == phase_after(
                    before.phase() as int,
                    before.next_step(),
                    before.rate() as int,
                    i as int,
                ),
                self.since() == (before.since() + i) % (before.cadence() as int),
                forall|j: int|
                    0 <= j < input@.len() ==> call_requires(
                        rotate,
                        (#[trigger] input@[j], before.rotation_at(j)),
                    ),
                forall|j: int|
                    0 <= j < i ==> call_ensures(
                        rotate,
                        (input@[j], before.rotation_at(j)),
                        #[trigger] output@[j],
                    ),
            decreases input@.len() - i,
        {
            let ghost at = *self;
            let rotation = self.advance();
            proof {
                lemma_phase_step(
                    before.phase() as int,
                    before.next_step(),
                    before.rate() as int,
                    i as int,
                );
                lemma_count_step(before.since() as int, before.cadence() as int, i as int);
                assert(rotation == before.rotation_at(i as int));
            }
            let sample = input[i];
            let turned = rotate(sample, rotation);
            output.push(turned);
            i = i + 1;
        }
        Processed { output, consumed: input.len(), finished: last }
    }
}

/// `offset` brought into `0 .. rate`.
pub fn reduce(offset: i64, rate: u64) -> (step: u64)
    requires
        rate > 0,
    ensures
        step == step_of(offset as int, rate as int),
        step < rate,
{
    if offset >= 0 {
        (offset as u64) % rate
    } else {
        let magnitude: u64 = ((-(offset as i128)) as u128) as u64;
        let m: u64 = magnitude % rate;
        proof {
            let r = rate as int;
            let a = magnitude as int;
            vstd::arithmetic::div_mod::lemma_fundamental_div_mod(a, r);
            let q = a / r;
            if m == 0 {
                assert(offset as int == r * (-q) + 0) by (nonlinear_arith)
                    requires
                        a == r * q + 0,
                        offset as int == -a,
                ;
                vstd::arithmetic::div_mod::lemma_fundamental_div_mod_converse(
                    offset as int,
                    r,
                    -q,
                    0,
                );
            } else {
                assert(offset as int == r * (-q - 1) + (r - m)) by (nonlinear_arith)
                    requires
                        a == r * q + m,
                        offset as int == -a,
                ;
                vstd::arithmetic::div_mod::lemma_fundamental_div_mod_converse(
                    offset as int,
                    r,
                    -q - 1,
                    r - m,
                );
            }
        }
        if m == 0 {
            0
        } else {
            rate - m
        }
    }
}

/// A phase below the rate is its own remainder.
pub proof fn lemma_phase_start(phase: int, step: int, rate: int)
    requires
        0 <= phase < rate,
    ensures
        phase_after(phase, step, rate, 0) == phase,
{
    assert(0 * step == 0) by (nonlinear_arith);
    vstd::arithmetic::div_mod::lemma_small_mod(phase as nat, rate as nat);
}

/// Moving on by one sample from the phase after `n` samples gives the phase
/// after `n + 1`.
pub proof fn lemma_phase_step(phase: int, step: int, rate: int, n: int)
    requires
        rate > 0,
    ensures
        phase_after(phase_after(phase, step, rate, n), step, rate, 1) == phase_after(
            phase,
            step,
            rate,
            n + 1,
        ),
{
    lemma_phase_sum(phase, step, rate, n, 1);
}

/// The oscillator does not drift: the phase reached in two runs of `a` and
/// `b` samples is the phase reached in one run of `a + b`.
pub proof fn lemma_phase_sum(phase: int, step: int, rate: int, a: int, b: int)
    requires
        rate > 0,
    ensures
        phase_after(phase_after(phase, step, rate, a), step, rate, b) == phase_after(
            phase,
            step,
            rate,
            a + b,
        ),
{
    let x = phase + a * step;
    let y = b * step;
    vstd::arithmetic::div_mod::lemma_add_mod_noop(x, y, rate);
    vstd::arithmetic::div_mod::lemma_mod_twice(x, rate);
    vstd::arithmetic::div_mod::lemma_add_mod_noop(x % rate, y, rate);
    assert(x + y == phase + (a + b) * step) by (nonlinear_arith)
        requires
            x == phase + a * step,
            y == b * step,
    ;
}

/// The phase of a tone of frequency `frequency`, sampled at `rate`, at its
/// sample `n`; the tone starts at phase zero.
pub open spec fn tone_phase(frequency: int, rate: int, n: int) -> int {
    phase_after(0, step_of(frequency, rate), rate, n)
}

/// Shifting moves a tone by the offset. Multiplying a sample by the phasor
/// adds the two angles, and the sum of the angle of a tone at `frequency` and
/// that of an oscillator shifting by `offset` is, at every sample, the angle
/// of a tone at `frequency + offset`. So a shift by `-o` turns a tone at `f`
/// into one at `f - o`, exactly and for any number of samples.
pub proof fn lemma_shift_moves_tone(frequency: int, offset: int, rate: int, n: int)
    requires
        rate > 0,
    ensures
        (tone_phase(frequency, rate, n) + phase_after(0, step_of(offset, rate), rate, n)) % rate
            == tone_phase(frequency + offset, rate, n),
{
    let f = frequency % rate;
    let o = offset % rate;
    // a factor may be replaced by its remainder, and so may each term of a sum
    vstd::arithmetic::div_mod::lemma_mul_mod_noop_right(n, frequency, rate);
    vstd::arithmetic::div_mod::lemma_mul_mod_noop_right(n, offset, rate);
    vstd::arithmetic::div_mod::lemma_mul_mod_noop_right(n, frequency + offset, rate);
    vstd::arithmetic::div_mod::lemma_add_mod_noop(n * f, n * o, rate);
    vstd::arithmetic::div_mod::lemma_add_mod_noop(n * frequency, n * offset, rate);
    assert(n * frequency + n * offset == n * (frequency + offset)) by (nonlinear_arith);
}

/// Counting one more sample since the last renormalization.
proof fn lemma_count_step(since: int, cadence: int, n: int)
    requires
        cadence > 0,
    ensures
        (((since + n) % cadence) + 1) % cadence == (since + (n + 1)) % cadence,
{
    vstd::arithmetic::div_mod::lemma_add_mod_noop(since + n, 1, cadence);
    vstd::arithmetic::div_mod::lemma_mod_twice(since + n, cadence);
    vstd::arithmetic::div_mod::lemma_add_mod_noop((since + n) % cadence, 1, cadence);
}

} // verus!
