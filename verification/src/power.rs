use vstd::prelude::*;
use vstd::slice::slice_subrange;
use crate::block::Processed;
use crate::error::ConfigError;

verus! {

/// How many bins hold a reading.
pub open spec fn finite_count(bins: Seq<Option<i32>>) -> nat
    decreases bins.len(),
{
    if bins.len() == 0 {
        0
    } else {
        finite_count(bins.drop_last()) + (if bins.last() is Some {
            1nat
        } else {
            0nat
        })
    }
}

/// The sum of the readings.
pub open spec fn finite_sum(bins: Seq<Option<i32>>) -> int
    decreases bins.len(),
{
    if bins.len() == 0 {
        0
    } else {
        finite_sum(bins.drop_last()) + (match bins.last() {
            Some(v) => v as int,
            None => 0,
        })
    }
}

/// The mean of the readings, rounded down; zero where there is none.
pub open spec fn mean_power(bins: Seq<Option<i32>>) -> int {
    if finite_count(bins) == 0 {
        0
    } else {
        finite_sum(bins) / (finite_count(bins) as int)
    }
}

/// The highest reading; zero where there is none.
pub open spec fn peak_power(bins: Seq<Option<i32>>) -> int
    decreases bins.len(),
{
    if bins.len() == 0 {
        0
    } else {
        match bins.last() {
            Some(v) => if finite_count(bins.drop_last()) == 0 || v > peak_power(
                bins.drop_last(),
            ) {
                v as int
            } else {
                peak_power(bins.drop_last())
            },
            None => peak_power(bins.drop_last()),
        }
    }
}

/// How a block becomes a measurement. One policy is fixed for the life of an
/// aggregator.
#[derive(Clone, Copy, Debug, PartialEq, Eq, Structural)]
pub enum Policy {
    /// The mean of `count` bins from `first` on is taken of each block, and
    /// the mean of `window` such block means is reported.
    WindowedMean { first: usize, count: usize, window: u32 },
    /// The highest bin of each block is reported where it lies above `floor`.
    Peak { floor: i32 },
}

/// What an aggregator carries from block to block: the sum of the block means
/// of the open window, and how many there are.
pub struct Tally {
    pub total: int,
    pub seen: int,
}

/// The bins of a block that the policy looks at.
pub open spec fn block_bins(policy: Policy, block: Seq<Option<i32>>) -> Seq<Option<i32>> {
    match policy {
        Policy::WindowedMean { first, count, window } => block.subrange(
            first as int,
            first + count,
        ),
        Policy::Peak { floor } => block,
    }
}

/// The measurement of one block of the expected size, before any windowing.
pub open spec fn block_power(policy: Policy, block: Seq<Option<i32>>) -> int {
    match policy {
        Policy::WindowedMean { first, count, window } => mean_power(block_bins(policy, block)),
        Policy::Peak { floor } => peak_power(block_bins(policy, block)),
    }
}

/// The tally after a block.
pub open spec fn tally_after(
    size: int,
    policy: Policy,
    tally: Tally,
    block: Seq<Option<i32>>,
) -> Tally {
    match policy {
        Policy::WindowedMean { first, count, window } => if block.len() != size {
            tally
        } else if tally.seen + 1 == window {
            Tally { total: 0, seen: 0 }
        } else {
            Tally { total: tally.total + block_power(policy, block), seen: tally.seen + 1 }
        },
        Policy::Peak { floor } => tally,
    }
}

/// The report that a block gives rise to, if any.
pub open spec fn report_of(
    size: int,
    policy: Policy,
    tally: Tally,
    block: Seq<Option<i32>>,
) -> Option<int> {
    if block.len() != size {
        None
    } else {
        match policy {
            Policy::WindowedMean { first, count, window } => if tally.seen + 1 == window {
                Some((tally.total + block_power(policy, block)) / (window as int))
            } else {
                None
            },
            Policy::Peak { floor } => if block_power(policy, block) > floor {
                Some(block_power(policy, block))
            } else {
                None
            },
        }
    }
}

/// Turns blocks of per-bin power readings into scalar measurements.
///
/// A bin is a power reading in fixed point, or `None` where the measurement
/// was not finite; such bins are left out. Blocks of any but the expected
/// size are left out whole.
pub struct PowerSink {
    size: usize,
    policy: Policy,
    total: i64,
    seen: u32,
}

impl PowerSink {
    /// The expected block size.
    pub closed spec fn size(&self) -> usize {
        self.size
    }

    /// The policy in force.
    pub closed spec fn policy(&self) -> Policy {
        self.policy
    }

    /// The open window.
    pub closed spec fn tally(&self) -> Tally {
        Tally { total: self.total as int, seen: self.seen as int }
    }

    /// The state is one that `new` and `process` can reach.
    pub open spec fn wf(&self) -> bool {
        match self.policy() {
            Policy::WindowedMean { first, count, window } => {
                &&& window > 0
                &&& first + count <= self.size()
                &&& 0 <= self.tally().seen < window
                &&& -0x8000_0000 * self.tally().seen <= self.tally().total <= 0x7fff_ffff
                    * self.tally().seen
            },
            Policy::Peak { floor } => self.tally().seen == 0 && self.tally().total == 0,
        }
    }

    #[verifier::type_invariant]
    spec fn inv(self) -> bool {
        self.wf()
    }

    /// An aggregator with an empty window.
    pub fn new(size: usize, policy: Policy) -> (r: Result<PowerSink, ConfigError>)
        ensures
            match policy {
                Policy::WindowedMean { first, count, window } => if window == 0 {
                    r == Err::<PowerSink, ConfigError>(ConfigError::ZeroWindow)
                } else if first + count > size {
                    r == Err::<PowerSink, ConfigError>(ConfigError::BinsOutOfBlock)
                } else {
                    r is Ok
                },
                Policy::Peak { floor } => r is Ok,
            },
            r matches Ok(a) ==> a.wf() && a.size() == size && a.policy() == policy && a.tally()
                == (Tally { total: 0, seen: 0 }),
    {
        match policy {
            Policy::WindowedMean { first, count, window } => {
                if window == 0 {
                    return Err(ConfigError::ZeroWindow);
                }
                if first > size || count > size - first {
                    return Err(ConfigError::BinsOutOfBlock);
                }
            },
            Policy::Peak { floor } => {},
        }
        Ok(PowerSink { size, policy, total: 0, seen: 0 })
    }

    /// Takes one block. A block of any but the expected size is discarded. Of
    /// any other the power is measured; under the windowed policy it joins
    /// the window, which reports its mean and empties once it is full, and
    /// under the peak policy it is reported at once where it lies above the
    /// floor. All of the input is consumed, and at most one reading comes out.
    pub fn process(&mut self, block: &[Option<i32>], last: bool) -> (r: Processed<i32>)
        ensures
            final(self).wf(),
            final(self).size() == old(self).size(),
            final(self).policy() == old(self).policy(),
            final(self).tally() == tally_after(
                old(self).size() as int,
                old(self).policy(),
                old(self).tally(),
                block@,
            ),
            r.consumed == block@.len(),
            r.honours(block@.len(), last),
            match report_of(
                old(self).size() as int,
                old(self).policy(),
                old(self).tally(),
                block@,
            ) {
                Some(v) => r.output@ == seq![v as i32] && v == v as i32,
                None => r.output@.len() == 0,
            },
    {
        proof {
            use_type_invariant(&*self);
        }
        let mut output: Vec<i32> = Vec::new();
        if block.len() == self.size {
            match self.policy {
                Policy::WindowedMean { first, count, window } => {
                    let power = mean_of(slice_subrange(block, first, first + count));
                    if self.seen + 1 == window {
                        let total: i64 = self.total + power as i64;
                        let reading = floor_div(total as i128, window as u64);
                        proof {
                            lemma_quotient_between(
                                total as int,
                                window as int,
                                -0x8000_0000,
                                0x7fff_ffff,
                            );
                        }
                        output.push(reading as i32);
                        self.total = 0;
                        self.seen = 0;
                    } else {
                        self.seen = self.seen + 1;
                        self.total = self.total + power as i64;
                    }
                },
                Policy::Peak { floor } => {
                    let power = peak_of(block);
                    if power > floor {
                        output.push(power);
                    }
                },
            }
        }
        Processed { output, consumed: block.len(), finished: last }
    }
}

/// The quotient of `a` by `n`, rounded down.
pub fn floor_div(a: i128, n: u64) -> (q: i128)
    requires
        n > 0,
    ensures
        q == (a as int) / (n as int),
{
    if a >= 0 {
        a / (n as i128)
    } else {
        // a negative number lies one step below the quotient of what is short of it
        let short: i128 = -(a + 1);
        let down: i128 = short / (n as i128);
        proof {
            let d = n as int;
            vstd::arithmetic::div_mod::lemma_fundamental_div_mod(short as int, d);
            let e = (short as int) % d;
            assert(a as int == (-(down as int) - 1) * d + (d - 1 - e)) by (nonlinear_arith)
                requires
                    short as int == d * (down as int) + e,
                    short as int == -(a as int) - 1,
            ;
            vstd::arithmetic::div_mod::lemma_fundamental_div_mod_converse(
                a as int,
                d,
                -(down as int) - 1,
                d - 1 - e,
            );
            assert(0 <= down <= short) by (nonlinear_arith)
                requires
                    short as int == d * (down as int) + e,
                    0 <= e < d,
                    short >= 0,
            ;
        }
        -down - 1
    }
}

/// A quotient rounded down lies between the bounds that hold of each of its
/// `n` parts.
pub proof fn lemma_quotient_between(a: int, n: int, low: int, high: int)
    requires
        n > 0,
        low * n <= a <= high * n,
    ensures
        low <= a / n <= high,
{
    vstd::arithmetic::div_mod::lemma_fundamental_div_mod(a, n);
    let q = a / n;
    let r = a % n;
    assert(low <= q <= high) by (nonlinear_arith)
        requires
            a == n * q + r,
            0 <= r < n,
            low * n <= a <= high * n,
    ;
}

/// The mean of the readings, rounded down; zero where no bin holds one.
pub fn mean_of(bins: &[Option<i32>]) -> (m: i32)
    ensures
        m == mean_power(bins@),
{
    let mut sum: i128 = 0;
    let mut found: usize = 0;
    let mut i: usize = 0;
    while i < bins.len()
        invariant
            i <= bins@.len(),
            found == finite_count(bins@.subrange(0, i as int)),
            sum == finite_sum(bins@.subrange(0, i as int)),
            found <= i,
            -0x8000_0000 * found <= sum <= 0x7fff_ffff * found,
        decreases bins@.len() - i,
    {
        proof {
            assert(bins@.subrange(0, i + 1).drop_last() == bins@.subrange(0, i as int));
            assert(bins@.subrange(0, i + 1).last() == bins@[i as int]);
        }
        match bins[i] {
            Some(v) => {
                sum = sum + v as i128;
                found = found + 1;
            },
            None => {},
        }
        i = i + 1;
    }
    proof {
        assert(bins@.subrange(0, bins@.len() as int) == bins@);
    }
    if found == 0 {
        0
    } else {
        proof {
            lemma_quotient_between(sum as int, found as int, -0x8000_0000, 0x7fff_ffff);
        }
        floor_div(sum, found as u64) as i32
    }
}

/// The highest reading of the block; zero where no bin holds one.
pub fn peak_of(bins: &[Option<i32>]) -> (m: i32)
    ensures
        m == peak_power(bins@),
{
    let mut best: i32 = 0;
    let mut found: bool = false;
    let mut i: usize = 0;
    while i < bins.len()
        invariant
            i <= bins@.len(),
            found == (finite_count(bins@.subrange(0, i as int)) != 0),
            best == peak_power(bins@.subrange(0, i as int)),
        decreases bins@.len() - i,
    {
        proof {
            assert(bins@.subrange(0, i + 1).drop_last() == bins@.subrange(0, i as int));
            assert(bins@.subrange(0, i + 1).last() == bins@[i as int]);
        }
        match bins[i] {
            Some(v) => {
                if !found || v > best {
                    best = v;
                }
                found = true;
            },
            None => {},
        }
        i = i + 1;
    }
    proof {
        assert(bins@.subrange(0, bins@.len() as int) == bins@);
    }
    best
}

/// The tally after a run of blocks, taken in order.
pub open spec fn tally_after_all(
    size: int,
    policy: Policy,
    tally: Tally,
    blocks: Seq<Seq<Option<i32>>>,
) -> Tally
    decreases blocks.len(),
{
    if blocks.len() == 0 {
        tally
    } else {
        tally_after(
            size,
            policy,
            tally_after_all(size, policy, tally, blocks.drop_last()),
            blocks.last(),
        )
    }
}

/// What a run of blocks gives rise to: for each block its report, if any.
pub open spec fn reports_of_all(
    size: int,
    policy: Policy,
    tally: Tally,
    blocks: Seq<Seq<Option<i32>>>,
) -> Seq<Option<int>>
    decreases blocks.len(),
{
    if blocks.len() == 0 {
        Seq::empty()
    } else {
        reports_of_all(size, policy, tally, blocks.drop_last()).push(
            report_of(
                size,
                policy,
                tally_after_all(size, policy, tally, blocks.drop_last()),
                blocks.last(),
            ),
        )
    }
}

/// Some bin holds a reading, and every reading is `power`.
pub open spec fn constant_power(bins: Seq<Option<i32>>, power: int) -> bool {
    &&& finite_count(bins) > 0
    &&& forall|i: int| 0 <= i < bins.len() && bins[i] is Some ==> bins[i] == Some(power as i32)
    &&& power == power as i32
}

/// The readings of a block of constant power add up to so many times the power.
proof fn lemma_constant_sum(bins: Seq<Option<i32>>, power: int)
    requires
        forall|i: int| 0 <= i < bins.len() && bins[i] is Some ==> bins[i] == Some(power as i32),
        power == power as i32,
    ensures
        finite_sum(bins) == power * finite_count(bins),
    decreases bins.len(),
{
    if bins.len() > 0 {
        lemma_constant_sum(bins.drop_last(), power);
        let n = finite_count(bins.drop_last()) as int;
        assert(power * (n + 1) == power * n + power) by (nonlinear_arith);
    } else {
        assert(power * 0 == 0) by (nonlinear_arith);
    }
}

/// The mean of a constant is the constant.
pub proof fn lemma_constant_mean(bins: Seq<Option<i32>>, power: int)
    requires
        constant_power(bins, power),
    ensures
        mean_power(bins) == power,
{
    lemma_constant_sum(bins, power);
    vstd::arithmetic::div_mod::lemma_fundamental_div_mod_converse(
        power * finite_count(bins),
        finite_count(bins) as int,
        power,
        0,
    );
}

/// The highest reading is a reading, and none is higher.
pub proof fn lemma_peak_is_highest(bins: Seq<Option<i32>>)
    requires
        finite_count(bins) > 0,
    ensures
        exists|i: int| 0 <= i < bins.len() && #[trigger] bins[i] == Some(peak_power(bins) as i32),
        forall|i: int|
            0 <= i < bins.len() ==> (#[trigger] bins[i] matches Some(v) ==> v <= peak_power(bins)),
        peak_power(bins) == peak_power(bins) as i32,
    decreases bins.len(),
{
    let rest = bins.drop_last();
    let n = bins.len() - 1;
    if finite_count(rest) > 0 {
        lemma_peak_is_highest(rest);
        let at = choose|i: int|
            0 <= i < rest.len() && #[trigger] rest[i] == Some(peak_power(rest) as i32);
        assert(bins[at] == rest[at]);
        assert forall|i: int| 0 <= i < bins.len() implies (#[trigger] bins[i] matches Some(v) ==> v
            <= peak_power(bins)) by {
            if i < n {
                assert(bins[i] == rest[i]);
            }
        }
        if peak_power(bins) == peak_power(rest) {
            assert(bins[at] == Some(peak_power(bins) as i32));
        } else {
            assert(bins[n] == Some(peak_power(bins) as i32));
        }
    } else {
        lemma_none_finite(rest);
        assert(bins[n] == Some(peak_power(bins) as i32));
        assert forall|i: int| 0 <= i < bins.len() implies (#[trigger] bins[i] matches Some(v) ==> v
            <= peak_power(bins)) by {
            if i < n {
                assert(bins[i] == rest[i]);
            }
        }
    }
}

/// Where no reading is counted, no bin holds one.
proof fn lemma_none_finite(bins: Seq<Option<i32>>)
    requires
        finite_count(bins) == 0,
    ensures
        forall|i: int| 0 <= i < bins.len() ==> #[trigger] bins[i] is None,
        finite_sum(bins) == 0,
        peak_power(bins) == 0,
    decreases bins.len(),
{
    if bins.len() > 0 {
        let rest = bins.drop_last();
        lemma_none_finite(rest);
        assert forall|i: int| 0 <= i < bins.len() implies #[trigger] bins[i] is None by {
            if i < bins.len() - 1 {
                assert(bins[i] == rest[i]);
            }
        }
    }
}

/// A block without a single reading, be it empty or all its bins not finite,
/// measures zero under either policy: nothing is divided by zero, and nothing
/// that is not a number comes out.
pub proof fn lemma_degenerate_block(bins: Seq<Option<i32>>)
    requires
        forall|i: int| 0 <= i < bins.len() ==> #[trigger] bins[i] is None,
    ensures
        finite_count(bins) == 0,
        mean_power(bins) == 0,
        peak_power(bins) == 0,
    decreases bins.len(),
{
    if bins.len() > 0 {
        let rest = bins.drop_last();
        assert forall|i: int| 0 <= i < rest.len() implies #[trigger] rest[i] is None by {
            assert(rest[i] == bins[i]);
        }
        lemma_degenerate_block(rest);
        assert(bins.last() == bins[bins.len() - 1]);
    }
}

/// While a window of constant power is still open, it has reported nothing
/// and holds so many times the power.
proof fn lemma_open_window(
    size: int,
    policy: Policy,
    blocks: Seq<Seq<Option<i32>>>,
    power: int,
)
    requires
        policy matches Policy::WindowedMean { first, count, window } && blocks.len() < window
            && first + count <= size,
        forall|i: int|
            0 <= i < blocks.len() ==> (#[trigger] blocks[i]).len() == size && constant_power(
                block_bins(policy, blocks[i]),
                power,
            ),
    ensures
        tally_after_all(size, policy, Tally { total: 0, seen: 0 }, blocks) == (Tally {
            total: power * blocks.len(),
            seen: blocks.len() as int,
        }),
        forall|i: int|
            0 <= i < blocks.len() ==> #[trigger] reports_of_all(
                size,
                policy,
                Tally { total: 0, seen: 0 },
                blocks,
            )[i] is None,
        reports_of_all(size, policy, Tally { total: 0, seen: 0 }, blocks).len() == blocks.len(),
    decreases blocks.len(),
{
    if blocks.len() > 0 {
        let rest = blocks.drop_last();
        assert forall|i: int| 0 <= i < rest.len() implies (#[trigger] rest[i]).len() == size
            && constant_power(block_bins(policy, rest[i]), power) by {
            assert(rest[i] == blocks[i]);
        }
        lemma_open_window(size, policy, rest, power);
        assert(blocks.last() == blocks[blocks.len() - 1]);
        lemma_constant_mean(block_bins(policy, blocks.last()), power);
        let n = rest.len() as int;
        assert(power * (n + 1) == power * n + power) by (nonlinear_arith);
    } else {
        assert(power * 0 == 0) by (nonlinear_arith);
    }
}

/// A window of constant power reports that power, once. Fed to an aggregator
/// with an empty window, as many blocks as the window holds, each of the
/// expected size and of the same constant power, give no report but for the
/// last, which gives the power itself; and the window is empty again.
pub proof fn lemma_window_of_constant(
    size: int,
    policy: Policy,
    blocks: Seq<Seq<Option<i32>>>,
    power: int,
)
    requires
        policy matches Policy::WindowedMean { first, count, window } && blocks.len() == window
            && window > 0 && first + count <= size,
        forall|i: int|
            0 <= i < blocks.len() ==> (#[trigger] blocks[i]).len() == size && constant_power(
                block_bins(policy, blocks[i]),
                power,
            ),
    ensures
        reports_of_all(size, policy, Tally { total: 0, seen: 0 }, blocks).len() == blocks.len(),
        forall|i: int|
            0 <= i < blocks.len() - 1 ==> #[trigger] reports_of_all(
                size,
                policy,
                Tally { total: 0, seen: 0 },
                blocks,
            )[i] is None,
        reports_of_all(size, policy, Tally { total: 0, seen: 0 }, blocks)[blocks.len() - 1]
            == Some(power),
        tally_after_all(size, policy, Tally { total: 0, seen: 0 }, blocks) == (Tally {
            total: 0,
            seen: 0,
        }),
{
    let rest = blocks.drop_last();
    assert forall|i: int| 0 <= i < rest.len() implies (#[trigger] rest[i]).len() == size
        && constant_power(block_bins(policy, rest[i]), power) by {
        assert(rest[i] == blocks[i]);
    }
    lemma_open_window(size, policy, rest, power);
    assert(blocks.last() == blocks[blocks.len() - 1]);
    lemma_constant_mean(block_bins(policy, blocks.last()), power);
    let n = rest.len() as int;
    assert(power * n + power == power * (n + 1)) by (nonlinear_arith);
    vstd::arithmetic::div_mod::lemma_fundamental_div_mod_converse(power * (n + 1), n + 1, power, 0);
}

} // verus!
