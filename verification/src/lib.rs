//! The signal-processing chain of a software-defined radio receiver: from a
//! stream of complex baseband samples to demodulated audio, or to a power
//! measurement per block of spectrum.
//!
//! Every stage owns its state, takes a bounded slice of samples, returns what
//! it produced together with the number of samples it consumed, and passes
//! the end of the stream on. The arithmetic on the samples themselves is
//! handed to a stage as a kernel; the stage decides which samples meet which
//! kernel call, in what order, and what is carried from one block to the next.
//!
//! * [`shifter`]: the oscillator that moves a channel to the centre.
//! * [`resampler`]: the polyphase filter that changes the sample rate.
//! * [`design`]: what a filter is asked to do.
//! * [`demod`]: the quadrature detector.
//! * [`power`]: power readings averaged over a window, or their peak.
//! * [`radio`]: the plan of an FM receiver.
//! * [`sweep`]: the layout of a recorded power sweep.
//! * [`ratio`], [`block`], [`error`]: what the stages share.

pub mod block;
pub mod demod;
pub mod design;
pub mod error;
pub mod power;
pub mod radio;
pub mod ratio;
pub mod resampler;
pub mod shifter;
pub mod sweep;
