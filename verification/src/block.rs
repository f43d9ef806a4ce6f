use vstd::prelude::*;

verus! {

/// What one call of a stage leaves behind: the samples it produced, how many
/// of the offered samples it took, and whether the stream has ended with it.
pub struct Processed<T> {
    /// The produced samples, oldest first.
    pub output: Vec<T>,
    /// How many samples were taken from the front of the input.
    pub consumed: usize,
    /// The producer has no more data and the stage holds none back that could
    /// still give output.
    pub finished: bool,
}

/// A stage reports the end of the stream exactly when its producer has ended
/// and it has taken everything that was offered.
pub open spec fn stream_ended(last: bool, consumed: nat, offered: nat) -> bool {
    last && consumed == offered
}

impl<T> Processed<T> {
    /// The streaming contract, which every stage keeps to in every call, so
    /// that any scheduler can drive it: of the `offered` samples it takes some
    /// from the front and never more than there are, and it passes the end of
    /// the stream on, neither early nor late. What it needs of the input
    /// later it has copied into its own state.
    pub open spec fn honours(&self, offered: nat, last: bool) -> bool {
        &&& self.consumed <= offered
        &&& self.finished == stream_ended(last, self.consumed as nat, offered)
    }
}

} // verus!
