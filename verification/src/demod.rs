use vstd::prelude::*;
use crate::block::Processed;
use crate::shifter::{lemma_phase_sum, step_of, tone_phase};

verus! {

/// A quadrature detector: each output is made of a sample and the one before it.
///
/// The detection kernel gets the current sample and the previous one, in this
/// order; for FM it returns the angle of the current sample times the
/// conjugate of the previous one. The detector keeps exactly one sample
/// across calls.
pub struct QuadratureDemodulator<T> {
    previous: T,
}

/// The sample that stands before `input[i]` in a stream whose last sample
/// before `input` was `previous`.
pub open spec fn sample_before<T>(previous: T, input: Seq<T>, i: int) -> T {
    if i == 0 {
        previous
    } else {
        input[i - 1]
    }
}

impl<T: Copy> QuadratureDemodulator<T> {
    /// The sample before the next one.
    pub closed spec fn previous(&self) -> T {
        self.previous
    }

    /// A detector at the start of a stream. `initial` stands for the sample
    /// before the first: the zero sample, which the first output reflects.
    pub fn new(initial: T) -> (d: Self)
        ensures
            d.previous() == initial,
    {
        QuadratureDemodulator { previous: initial }
    }

    /// Demodulates a block: one output for each input, made by `detect` of the
    /// sample and its predecessor. All of the input is consumed, its last
    /// sample is kept for the next call, and the end of the stream is passed on.
    pub fn process<U, F: Fn(T, T) -> U>(&mut self, input: &[T], last: bool, detect: F) -> (r:
        Processed<U>)
        requires
            forall|i: int|
                0 <= i < input@.len() ==> call_requires(
                    detect,
                    (#[trigger] input@[i], sample_before(old(self).previous(), input@, i)),
                ),
        ensures
            r.consumed == input@.len(),
            r.honours(input@.len(), last),
            r.output@.len() == input@.len(),
            forall|i: int|
                0 <= i < input@.len() ==> call_ensures(
                    detect,
                    (input@[i], sample_before(old(self).previous(), input@, i)),
                    #[trigger] r.output@[i],
                ),
            final(self).previous() == sample_before(
                old(self).previous(),
                input@,
                input@.len() as int,
            ),
    {
        let ghost first = self.previous;
        let mut output: Vec<U> = Vec::with_capacity(input.len());
        let mut i: usize = 0;
        while i < input.len()
            invariant
                i <= input@.len(),
                output@.len() == i,
                self.previous == sample_before(first, input@, i as int),
                forall|j: int|
                    0 <= j < input@.len() ==> call_requires(
                        detect,
                        (#[trigger] input@[j], sample_before(first, input@, j)),
                    ),
                forall|j: int|
                    0 <= j < i ==> call_ensures(
                        detect,
                        (input@[j], sample_before(first, input@, j)),
                        #[trigger] output@[j],
                    ),
            decreases input@.len() - i,
        {
            let current = input[i];
            let angle = detect(current, self.previous);
            output.push(angle);
            self.previous = current;
            i = i + 1;
        }
        Processed { output, consumed: input.len(), finished: last }
    }
}

/// The angle between a sample of a tone and the sample before it is the same
/// at every place of the stream: the tone's frequency over the sample rate,
/// in turns. It is this angle that the detector is handed the two samples
/// for, so a tone demodulates to a constant from its second sample on.
pub proof fn lemma_tone_turns_evenly(frequency: int, rate: int, n: int)
    requires
        rate > 0,
    ensures
        (tone_phase(frequency, rate, n + 1) - tone_phase(frequency, rate, n)) % rate == step_of(
            frequency,
            rate,
        ),
{
    let s = step_of(frequency, rate);
    let x = tone_phase(frequency, rate, n);
    lemma_phase_sum(0, s, rate, n, 1);
    assert(1 * s == s) by (nonlinear_arith);
    // the next phase is the remainder of x + s
    assert(tone_phase(frequency, rate, n + 1) == (x + s) % rate);
    // taking remainders before subtracting changes nothing, and both x and s are remainders
    vstd::arithmetic::div_mod::lemma_sub_mod_noop(x + s, x, rate);
    vstd::arithmetic::div_mod::lemma_small_mod(x as nat, rate as nat);
    vstd::arithmetic::div_mod::lemma_small_mod(s as nat, rate as nat);
}

} // verus!
