use vstd::prelude::*;
use crate::error::ConfigError;

verus! {

/// What a low-pass filter is asked to do: pass up to `cutoff`, and stop from
/// `cutoff + transition` on, all in hertz at sample rate `rate`. The designer
/// works on the same numbers taken as fractions of the rate.
#[derive(Clone, Copy, Debug, PartialEq, Eq, Structural)]
pub struct FilterSpec {
    cutoff: u64,
    transition: u64,
    rate: u64,
}

/// The band edges can be met at the rate: the cutoff plus half the transition
/// band stays below half the rate.
pub open spec fn below_nyquist(cutoff: int, transition: int, rate: int) -> bool {
    2 * cutoff + transition < rate
}

impl FilterSpec {
    /// The cutoff frequency.
    pub closed spec fn spec_cutoff(&self) -> u64 {
        self.cutoff
    }

    /// The width of the transition band.
    pub closed spec fn spec_transition(&self) -> u64 {
        self.transition
    }

    /// The sample rate.
    pub closed spec fn spec_rate(&self) -> u64 {
        self.rate
    }

    /// The specification is one that a filter can meet.
    pub open spec fn wf(&self) -> bool {
        &&& self.rate() > 0
        &&& self.transition() > 0
        &&& below_nyquist(self.cutoff() as int, self.transition() as int, self.rate() as int)
    }

    #[verifier::type_invariant]
    spec fn inv(self) -> bool {
        self.wf()
    }

    /// Checks a specification. A rate of zero, a transition band without
    /// width and band edges that reach the Nyquist frequency are refused, in
    /// this order.
    pub fn new(cutoff: u64, transition: u64, rate: u64) -> (r: Result<FilterSpec, ConfigError>)
        ensures
            rate == 0 ==> r == Err::<FilterSpec, ConfigError>(ConfigError::ZeroRate),
            rate != 0 && transition == 0 ==> r == Err::<FilterSpec, ConfigError>(
                ConfigError::ZeroTransition,
            ),
            rate != 0 && transition != 0 && !below_nyquist(
                cutoff as int,
                transition as int,
                rate as int,
            ) ==> r == Err::<FilterSpec, ConfigError>(ConfigError::BeyondNyquist),
            rate != 0 && transition != 0 && below_nyquist(
                cutoff as int,
                transition as int,
                rate as int,
            ) ==> {
                &&& r matches Ok(s)
                &&& s.wf()
                &&& s.cutoff() == cutoff
                &&& s.transition() == transition
                &&& s.rate() == rate
            },
    {
        if rate == 0 {
            return Err(ConfigError::ZeroRate);
        }
        if transition == 0 {
            return Err(ConfigError::ZeroTransition);
        }
        if 2 * (cutoff as u128) + (transition as u128) >= rate as u128 {
            return Err(ConfigError::BeyondNyquist);
        }
        Ok(FilterSpec { cutoff, transition, rate })
    }

    /// The cutoff frequency.
    #[verifier::when_used_as_spec(spec_cutoff)]
    pub fn cutoff(&self) -> (f: u64)
        ensures
            f == self.cutoff(),
    {
        self.cutoff
    }

    /// The width of the transition band.
    #[verifier::when_used_as_spec(spec_transition)]
    pub fn transition(&self) -> (f: u64)
        ensures
            f == self.transition(),
    {
        self.transition
    }

    /// The sample rate.
    #[verifier::when_used_as_spec(spec_rate)]
    pub fn rate(&self) -> (f: u64)
        ensures
            f == self.rate(),
            self.wf(),
    {
        proof {
            use_type_invariant(self);
        }
        self.rate
    }
}

} // verus!
