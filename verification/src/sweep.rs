use vstd::prelude::*;

verus! {

/// The band of one line of a power sweep, in hertz.
#[derive(Clone, Copy, Debug, PartialEq, Eq, Structural)]
pub struct Band {
    pub freq_low: u64,
    pub freq_high: u64,
}

/// How the lines of a power sweep make up sweeps: the band that one sweep
/// covers, and the number of lines it takes.
#[derive(Clone, Copy, Debug, PartialEq, Eq, Structural)]
pub struct SweepLayout {
    pub freq_low: u64,
    pub freq_high: u64,
    pub sweep_steps: usize,
}

/// The lines from the second to place `n` all start above the first line.
pub open spec fn rising(lines: Seq<Band>, n: int) -> bool {
    forall|i: int| 1 <= i < n ==> (#[trigger] lines[i]).freq_low > lines[0].freq_low
}

/// `steps` lines make up the first sweep: the first line and every line after
/// it up to the first that does not start above it.
pub open spec fn is_sweep_length(lines: Seq<Band>, steps: int) -> bool {
    if lines.len() == 0 {
        steps == 1
    } else {
        &&& 1 <= steps <= lines.len()
        &&& rising(lines, steps)
        &&& steps < lines.len() ==> lines[steps].freq_low <= lines[0].freq_low
    }
}

/// The layout of a power sweep. The sweep starts where its first line starts
/// and ends where its last line ends; without lines it is one step at zero.
pub fn layout(lines: &[Band]) -> (r: SweepLayout)
    ensures
        is_sweep_length(lines@, r.sweep_steps as int),
        lines@.len() == 0 ==> r.freq_low == 0 && r.freq_high == 0,
        lines@.len() != 0 ==> r.freq_low == lines@[0].freq_low,
        lines@.len() != 0 ==> r.freq_high == lines@[r.sweep_steps - 1].freq_high,
{
    if lines.len() == 0 {
        return SweepLayout { freq_low: 0, freq_high: 0, sweep_steps: 1 };
    }
    let first = lines[0];
    let mut steps: usize = 1;
    while steps < lines.len() && lines[steps].freq_low > first.freq_low
        invariant
            1 <= steps <= lines@.len(),
            first == lines@[0],
            rising(lines@, steps as int),
        decreases lines@.len() - steps,
    {
        steps = steps + 1;
    }
    SweepLayout {
        freq_low: first.freq_low,
        freq_high: lines[steps - 1].freq_high,
        sweep_steps: steps,
    }
}

} // verus!
