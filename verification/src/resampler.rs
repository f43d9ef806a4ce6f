use vstd::prelude::*;
use crate::block::Processed;
use crate::error::ConfigError;
use crate::ratio::Ratio;

verus! {

/// The place in the input stream where the window of output `k` starts.
pub open spec fn window_start(interp: int, decim: int, k: int) -> int {
    (k * decim) / interp
}

/// The polyphase branch that filters output `k`.
pub open spec fn window_bank(interp: int, decim: int, k: int) -> int {
    (k * decim) % interp
}

/// How many outputs `n` input samples give: the rate change applied to the
/// samples beyond the filter's memory of `width - 1` samples, rounded up.
pub open spec fn outputs_after(interp: int, decim: int, width: int, n: int) -> int {
    if n < width {
        0
    } else {
        ((n - width + 1) * interp + decim - 1) / decim
    }
}

/// Where the prototype filter holds the tap that branch `bank` applies to the
/// sample at place `t` of its window. The window runs oldest sample first, so
/// the branch holds the taps in reverse.
pub open spec fn tap_index(interp: int, width: int, bank: int, t: int) -> int {
    interp * (width - 1 - t) + bank
}

/// The taps of branch `bank`, in the order in which the window meets them.
pub open spec fn branch_of<U>(taps: Seq<U>, interp: int, bank: int) -> Seq<U> {
    Seq::new(
        (taps.len() / (interp as nat)) as nat,
        |t: int| taps[tap_index(interp, taps.len() as int / interp, bank, t)],
    )
}

/// The window of output `k`: the `width` samples of the stream from where the
/// window starts.
pub open spec fn window_of<T>(stream: Seq<T>, interp: int, decim: int, width: int, k: int) -> Seq<
    T,
> {
    stream.subrange(window_start(interp, decim, k), window_start(interp, decim, k) + width)
}

/// `sums` are the steps of an accumulation over `window`: it starts at
/// `init`, and each further entry is what `mac` makes of the entry before, the
/// next sample and the tap at the same place.
pub open spec fn accumulates<T, U, F: Fn(T, T, U) -> T>(
    mac: F,
    init: T,
    window: Seq<T>,
    taps: Seq<U>,
    sums: Seq<T>,
) -> bool {
    &&& sums.len() == window.len() + 1
    &&& sums[0] == init
    &&& forall|t: int|
        0 <= t < window.len() ==> call_ensures(
            mac,
            (sums[t], #[trigger] window[t], taps[t]),
            sums[t + 1],
        )
}

/// `acc` is what `mac` accumulates from `init` over the samples of `window`,
/// each with the tap at the same place, oldest sample first.
pub open spec fn accumulated<T, U, F: Fn(T, T, U) -> T>(
    mac: F,
    init: T,
    window: Seq<T>,
    taps: Seq<U>,
    acc: T,
) -> bool {
    exists|sums: Seq<T>| #[trigger] accumulates(mac, init, window, taps, sums) && sums.last() == acc
}

/// Output `k` is owed exactly when its whole window lies within the first `n`
/// samples.
pub proof fn lemma_output_owed(interp: int, decim: int, width: int, n: int, k: int)
    requires
        interp > 0,
        decim > 0,
        width > 0,
        k >= 0,
    ensures
        k < outputs_after(interp, decim, width, n) <==> window_start(interp, decim, k) + width
            <= n,
{
    let x = k * decim;
    assert(x >= 0) by (nonlinear_arith)
        requires
            x == k * decim,
            k >= 0,
            decim > 0,
    ;
    vstd::arithmetic::div_mod::lemma_fundamental_div_mod(x, interp);
    let s = x / interp;
    let r = x % interp;
    assert(s >= 0) by (nonlinear_arith)
        requires
            x == interp * s + r,
            x >= 0,
            0 <= r < interp,
            interp > 0,
    ;
    if n < width {
    } else {
        let a = n - width;
        let b = (a + 1) * interp;
        // the window fits exactly when x < b
        assert(s <= a <==> x < b) by (nonlinear_arith)
            requires
                x == interp * s + r,
                0 <= r < interp,
                b == (a + 1) * interp,
        ;
        let c = b + decim - 1;
        vstd::arithmetic::div_mod::lemma_fundamental_div_mod(c, decim);
        let q = c / decim;
        let e = c % decim;
        assert(k < q <==> x < b) by (nonlinear_arith)
            requires
                c == decim * q + e,
                0 <= e < decim,
                c == b + decim - 1,
                x == k * decim,
        ;
    }
}

/// The rate is exact. Once the first window is complete, the number of
/// outputs is the number of samples beyond the filter's memory, times
/// `interp / decim`, rounded up: it falls short of the rate change applied to
/// all `n` samples by no more than the filter's memory is worth, and exceeds
/// it by less than one.
pub proof fn lemma_rate_is_exact(interp: int, decim: int, width: int, n: int)
    requires
        interp > 0,
        decim > 0,
        width > 0,
        n >= width,
    ensures
        (outputs_after(interp, decim, width, n) - 1) * decim < (n - (width - 1)) * interp,
        (n - (width - 1)) * interp <= outputs_after(interp, decim, width, n) * decim,
        outputs_after(interp, decim, width, n) * decim < n * interp + decim,
{
    let live = (n - width + 1) * interp;
    let c = live + decim - 1;
    vstd::arithmetic::div_mod::lemma_fundamental_div_mod(c, decim);
    let q = c / decim;
    let e = c % decim;
    assert((q - 1) * decim < live && live <= q * decim && q * decim < n * interp + decim)
        by (nonlinear_arith)
        requires
            c == decim * q + e,
            0 <= e < decim,
            c == live + decim - 1,
            live == (n - width + 1) * interp,
            width > 0,
            interp > 0,
    ;
}

/// From one output to the next the window moves on by the whole part, and the
/// branch becomes the remainder, of the old branch plus the decimation factor
/// over the interpolation factor.
pub proof fn lemma_next_window(interp: int, decim: int, k: int)
    requires
        interp > 0,
        decim > 0,
        k >= 0,
    ensures
        window_start(interp, decim, k + 1) == window_start(interp, decim, k) + (window_bank(
            interp,
            decim,
            k,
        ) + decim) / interp,
        window_bank(interp, decim, k + 1) == (window_bank(interp, decim, k) + decim) % interp,
        0 <= window_bank(interp, decim, k) < interp,
        window_start(interp, decim, k) >= 0,
{
    let x = k * decim;
    assert(x >= 0) by (nonlinear_arith)
        requires
            x == k * decim,
            k >= 0,
            decim > 0,
    ;
    vstd::arithmetic::div_mod::lemma_fundamental_div_mod(x, interp);
    let s = x / interp;
    let b = x % interp;
    assert(s >= 0) by (nonlinear_arith)
        requires
            x == interp * s + b,
            x >= 0,
            0 <= b < interp,
            interp > 0,
    ;
    let y = b + decim;
    vstd::arithmetic::div_mod::lemma_fundamental_div_mod(y, interp);
    let q = y / interp;
    let r = y % interp;
    assert((k + 1) * decim == (s + q) * interp + r) by (nonlinear_arith)
        requires
            x == k * decim,
            x == interp * s + b,
            y == b + decim,
            y == interp * q + r,
    ;
    vstd::arithmetic::div_mod::lemma_fundamental_div_mod_converse(
        (k + 1) * decim,
        interp,
        s + q,
        r,
    );
}

/// A polyphase rational resampler: it changes the rate of a stream by
/// `interp / decim` and filters it with the taps of a prototype filter.
///
/// Output `k` is the prototype filter's answer, at place
/// `k * decim + interp * (width - 1)` of the stream with `interp - 1` zeros put
/// between its samples, to that stream; the zeros are never multiplied. The
/// samples that the next window needs are kept from one call to the next.
pub struct RationalResampler<T, U> {
    interp: usize,
    decim: usize,
    width: usize,
    taps: Vec<U>,
    buffer: Vec<T>,
    lead: usize,
    bank: usize,
    stream: Ghost<Seq<T>>,
    produced: Ghost<nat>,
}

impl<T: Copy, U: Copy> RationalResampler<T, U> {
    /// The interpolation factor.
    pub closed spec fn interp(&self) -> int {
        self.interp as int
    }

    /// The decimation factor.
    pub closed spec fn decim(&self) -> int {
        self.decim as int
    }

    /// The number of taps in each branch: the length of a window.
    pub closed spec fn width(&self) -> int {
        self.width as int
    }

    /// The taps of the prototype filter.
    pub closed spec fn taps(&self) -> Seq<U> {
        self.taps@
    }

    /// The samples kept for the next window, oldest first.
    pub closed spec fn buffer(&self) -> Seq<T> {
        self.buffer@
    }

    /// How many samples yet to come lie before the next window.
    pub closed spec fn lead(&self) -> int {
        self.lead as int
    }

    /// The branch of the next output.
    pub closed spec fn bank(&self) -> int {
        self.bank as int
    }

    /// The input stream: every sample that the stage has taken since the
    /// stream began, oldest first.
    pub closed spec fn stream(&self) -> Seq<T> {
        self.stream@
    }

    /// How many samples the stage has taken since the stream began.
    pub open spec fn consumed(&self) -> nat {
        self.stream().len()
    }

    /// How many samples the stage has given since the stream began.
    pub closed spec fn produced(&self) -> nat {
        self.produced@
    }

    /// The state is one that `new` and `process` can reach. Its last line is
    /// the rate law: whatever the blocks were in which the input came, the
    /// number of outputs is a function of the number of inputs alone.
    pub open spec fn wf(&self) -> bool {
        &&& self.interp() > 0
        &&& self.decim() > 0
        &&& self.width() > 0
        &&& self.taps().len() == self.interp() * self.width()
        &&& self.lead() >= 0
        &&& (self.lead() > 0 ==> self.buffer().len() == 0)
        &&& self.buffer().len() <= self.consumed()
        &&& self.buffer() == self.stream().subrange(
            self.consumed() - self.buffer().len(),
            self.consumed() as int,
        )
        &&& self.consumed() - self.buffer().len() + self.lead() == window_start(
            self.interp(),
            self.decim(),
            self.produced() as int,
        )
        &&& self.bank() == window_bank(self.interp(), self.decim(), self.produced() as int)
        &&& self.produced() == outputs_after(
            self.interp(),
            self.decim(),
            self.width(),
            self.consumed() as int,
        )
    }

    /// The taps that meet the window of output `k`.
    pub open spec fn branch(&self, k: int) -> Seq<U> {
        branch_of(self.taps(), self.interp(), window_bank(self.interp(), self.decim(), k))
    }

    /// The window of output `k`.
    pub open spec fn window(&self, k: int) -> Seq<T> {
        window_of(self.stream(), self.interp(), self.decim(), self.width(), k)
    }

    /// A resampler at the start of a stream. The taps are those of the
    /// prototype filter at the interpolated rate; there must be some, and their
    /// number must be a multiple of the interpolation factor.
    pub fn new(ratio: Ratio, taps: Vec<U>) -> (r: Result<Self, ConfigError>)
        ensures
            taps@.len() == 0 ==> r == Err::<Self, ConfigError>(ConfigError::EmptyFilter),
            taps@.len() != 0 && taps@.len() % (ratio.interp() as nat) != 0 ==> r == Err::<
                Self,
                ConfigError,
            >(ConfigError::RaggedFilter),
            taps@.len() != 0 && taps@.len() % (ratio.interp() as nat) == 0 ==> {
                &&& r matches Ok(s)
                &&& s.wf()
                &&& s.interp() == ratio.interp()
                &&& s.decim() == ratio.decim()
                &&& s.width() == taps@.len() / (ratio.interp() as nat)
                &&& s.taps() == taps@
                &&& s.stream().len() == 0
                &&& s.produced() == 0
            },
    {
        let interp = ratio.interp();
        let decim = ratio.decim();
        if taps.len() == 0 {
            return Err(ConfigError::EmptyFilter);
        }
        if taps.len() % interp != 0 {
            return Err(ConfigError::RaggedFilter);
        }
        let width = taps.len() / interp;
        proof {
            let n = taps@.len() as int;
            let l = interp as int;
            vstd::arithmetic::div_mod::lemma_fundamental_div_mod(n, l);
            assert(width > 0 && l * width == n) by (nonlinear_arith)
                requires
                    n == l * (width as int) + 0,
                    n > 0,
                    l > 0,
                    width >= 0,
            ;
            assert(0int * (decim as int) == 0) by (nonlinear_arith);
            vstd::arithmetic::div_mod::lemma_fundamental_div_mod_converse(0, l, 0, 0);
            assert(Seq::<T>::empty().subrange(0, 0) == Seq::<T>::empty());
        }
        Ok(
            RationalResampler {
                interp,
                decim,
                width,
                taps,
                buffer: Vec::new(),
                lead: 0,
                bank: 0,
                stream: Ghost(Seq::empty()),
                produced: Ghost(0),
            },
        )
    }

    /// How many samples the filter remembers: the samples that must precede
    /// one for an output to be made of it.
    pub fn memory(&self) -> (m: usize)
        requires
            self.wf(),
        ensures
            m == self.width() - 1,
    {
        self.width - 1
    }

    /// How many of `available` input samples the stage can be given so that
    /// what it gives in turn fits into `room` samples: all of them, or as
    /// many as leave the window of the first output without room incomplete.
    pub fn budget(&self, available: usize, room: usize) -> (n: usize)
        requires
            self.wf(),
        ensures
            n <= available,
            outputs_after(self.interp(), self.decim(), self.width(), self.consumed() + n)
                - self.produced() <= room,
            n < available ==> outputs_after(
                self.interp(),
                self.decim(),
                self.width(),
                self.consumed() + n + 1,
            ) - self.produced() > room,
    {
        let ghost k = self.produced() as int;
        let ghost total = self.consumed() as int;
        let ahead: u128 = ((self.bank as u128) + product(room, self.decim)) / (self.interp as u128);
        proof {
            lemma_window_ahead(self.interp(), self.decim(), k, room as int);
            lemma_output_owed(self.interp(), self.decim(), self.width(), total, k);
            lemma_output_owed(
                self.interp(),
                self.decim(),
                self.width(),
                total + available,
                k + room,
            );
        }
        if ahead >= available as u128 {
            return available;
        }
        let slack: usize = self.width - 1 - self.buffer.len();
        let most: u128 = self.lead as u128 + ahead + slack as u128;
        let n: usize = if most >= available as u128 {
            available
        } else {
            most as usize
        };
        proof {
            lemma_output_owed(self.interp(), self.decim(), self.width(), total + n, k + room);
            lemma_output_owed(self.interp(), self.decim(), self.width(), total + n + 1, k + room);
        }
        n
    }

    /// Resamples a block. The input joins the stream, and every output whose
    /// window is complete with it is produced, in order; each is what `mac`
    /// accumulates from `init` over its window and its branch of taps. So the
    /// outputs depend on the stream alone, not on the blocks it came in. All
    /// of the input is consumed; what the next windows need of it is kept. A
    /// block too short for any window gives no output and is kept whole.
    pub fn process<F: Fn(T, T, U) -> T>(&mut self, input: &[T], last: bool, init: T, mac: F) -> (r:
        Processed<T>)
        requires
            old(self).wf(),
            forall|acc: T, x: T, h: U| call_requires(mac, (acc, x, h)),
        ensures
            final(self).wf(),
            final(self).interp() == old(self).interp(),
            final(self).decim() == old(self).decim(),
            final(self).width() == old(self).width(),
            final(self).taps() == old(self).taps(),
            final(self).stream() == old(self).stream() + input@,
            final(self).produced() == old(self).produced() + r.output@.len(),
            r.consumed == input@.len(),
            r.honours(input@.len(), last),
            forall|j: int|
                0 <= j < r.output@.len() ==> accumulated(
                    mac,
                    init,
                    final(self).window(old(self).produced() + j),
                    final(self).branch(old(self).produced() + j),
                    #[trigger] r.output@[j],
                ),
    {
        let ghost before = *self;
        let ghost stream = before.stream() + input@;
        let ghost base = before.consumed() - before.buffer().len();
        let ghost total = before.consumed() + input@.len();
        let interp = self.interp;
        let decim = self.decim;
        let width = self.width;
        let ntaps: usize = self.taps.len();
        let whole: usize = decim / interp;
        let part: usize = decim % interp;
        // Samples that lie before the next window are passed over.
        let skip: usize = if self.lead < input.len() {
            self.lead
        } else {
            input.len()
        };
        let mut lead: usize = self.lead - skip;
        let mut held: Vec<T> = Vec::new();
        core::mem::swap(&mut self.buffer, &mut held);
        let mut i: usize = skip;
        assert(held@ == stream.subrange(base + skip, before.consumed() + skip));
        while i < input.len()
            invariant
                skip <= i <= input@.len(),
                0 <= base + skip <= before.consumed() + i,
                stream == before.stream() + input@,
                held@ == stream.subrange(base + skip, before.consumed() + i),
            decreases input@.len() - i,
        {
            held.push(input[i]);
            i = i + 1;
        }
        assert(held@ == stream.subrange(base + skip, stream.len() as int));
        let mut output: Vec<T> = Vec::new();
        let mut pos: usize = 0;
        let mut bank: usize = self.bank;
        let ghost mut k: int = before.produced() as int;
        proof {
            vstd::arithmetic::div_mod::lemma_fundamental_div_mod(decim as int, interp as int);
            if before.produced() > 0 {
                lemma_output_owed(
                    interp as int,
                    decim as int,
                    width as int,
                    before.consumed() as int,
                    before.produced() - 1,
                );
                lemma_output_owed(
                    interp as int,
                    decim as int,
                    width as int,
                    total as int,
                    before.produced() - 1,
                );
            }
        }
        while lead == 0 && width <= held.len() - pos
            invariant
                before.wf(),
                interp == before.interp(),
                decim == before.decim(),
                width == before.width(),
                self.taps@ == before.taps(),
                ntaps == self.taps@.len(),
                decim == interp * whole + part,
                part < interp,
                stream == before.stream() + input@,
                base == before.consumed() - before.buffer().len(),
                total == before.consumed() + input@.len(),
                held@ == stream.subrange(base + skip, stream.len() as int),
                0 <= base + skip <= stream.len(),
                pos <= held@.len(),
                lead > 0 ==> pos == held@.len(),
                k == before.produced() + output@.len(),
                base + skip + pos + lead == window_start(interp as int, decim as int, k),
                bank == window_bank(interp as int, decim as int, k),
                k <= outputs_after(interp as int, decim as int, width as int, total as int),
                forall|acc: T, x: T, h: U| call_requires(mac, (acc, x, h)),
                forall|j: int|
                    0 <= j < output@.len() ==> accumulated(
                        mac,
                        init,
                        window_of(
                            stream,
                            interp as int,
                            decim as int,
                            width as int,
                            before.produced() + j,
                        ),
                        before.branch(before.produced() + j),
                        #[trigger] output@[j],
                    ),
            decreases outputs_after(interp as int, decim as int, width as int, total as int) - k,
        {
            proof {
                lemma_output_owed(interp as int, decim as int, width as int, total as int, k);
            }
            let ghost window = window_of(stream, interp as int, decim as int, width as int, k);
            let ghost branch = before.branch(k);
            assert(window == held@.subrange(pos as int, pos + width));
            proof {
                vstd::arithmetic::div_mod::lemma_div_by_multiple(width as int, interp as int);
                assert(interp * width == width * interp) by (nonlinear_arith);
            }
            let mut acc = init;
            let mut t: usize = 0;
            let ghost mut sums: Seq<T> = seq![init];
            while t < width
                invariant
                    t <= width,
                    width > 0,
                    interp > 0,
                    bank < interp,
                    pos + width <= held@.len(),
                    self.taps@.len() == interp * width,
                    ntaps == self.taps@.len(),
                    held@.len() <= usize::MAX,
                    window == held@.subrange(pos as int, pos + width),
                    branch == branch_of(self.taps@, interp as int, bank as int),
                    branch.len() == width,
                    sums.len() == t + 1,
                    sums[0] == init,
                    sums.last() == acc,
                    forall|i: int|
                        0 <= i < t ==> call_ensures(
                            mac,
                            (sums[i], #[trigger] window[i], branch[i]),
                            sums[i + 1],
                        ),
                    forall|acc: T, x: T, h: U| call_requires(mac, (acc, x, h)),
                decreases width - t,
            {
                proof {
                    lemma_tap_in_range(interp as int, width as int, bank as int, t as int);
                    vstd::arithmetic::div_mod::lemma_div_by_multiple(width as int, interp as int);
                    assert(interp * width == width * interp) by (nonlinear_arith);
                }
                let at: usize = interp * (width - 1 - t) + bank;
                let tap = self.taps[at];
                let sample = held[pos + t];
                acc = mac(acc, sample, tap);
                proof {
                    assert(window[t as int] == sample);
                    assert(branch[t as int] == tap);
                    sums = sums.push(acc);
                }
                t = t + 1;
            }
            assert(accumulates(mac, init, window, branch, sums));
            output.push(acc);
            proof {
                lemma_next_window(interp as int, decim as int, k);
                lemma_output_owed(interp as int, decim as int, width as int, total as int, k);
            }
            // The next window starts `whole` samples on, or one more where the
            // branch wraps round.
            let wraps = bank >= interp - part;
            proof {
                let y = bank + decim;
                if wraps {
                    assert(y == (whole + 1) * interp + (bank + part - interp)) by (nonlinear_arith)
                        requires
                            y == bank + decim,
                            decim == interp * whole + part,
                    ;
                    vstd::arithmetic::div_mod::lemma_fundamental_div_mod_converse(
                        y,
                        interp as int,
                        whole + 1,
                        bank + part - interp,
                    );
                    assert(whole < usize::MAX) by (nonlinear_arith)
                        requires
                            decim == interp * whole + part,
                            part > 0,
                            interp > 0,
                            decim <= usize::MAX,
                    ;
                } else {
                    assert(y == whole * interp + (bank + part)) by (nonlinear_arith)
                        requires
                            y == bank + decim,
                            decim == interp * whole + part,
                    ;
                    vstd::arithmetic::div_mod::lemma_fundamental_div_mod_converse(
                        y,
                        interp as int,
                        whole as int,
                        bank + part,
                    );
                }
            }
            let steps: usize = if wraps {
                whole + 1
            } else {
                whole
            };
            bank = if wraps {
                bank - (interp - part)
            } else {
                bank + part
            };
            let room: usize = held.len() - pos;
            if steps <= room {
                pos = pos + steps;
            } else {
                lead = steps - room;
                pos = held.len();
            }
            proof {
                k = k + 1;
            }
        }
        proof {
            lemma_next_window(interp as int, decim as int, k);
            lemma_output_owed(interp as int, decim as int, width as int, total as int, k);
        }
        // What lies before the next window is dropped.
        let mut rest: Vec<T> = Vec::new();
        let mut m: usize = pos;
        while m < held.len()
            invariant
                pos <= m <= held@.len(),
                rest@ == held@.subrange(pos as int, m as int),
            decreases held@.len() - m,
        {
            rest.push(held[m]);
            m = m + 1;
        }
        assert(rest@ == stream.subrange(stream.len() - rest@.len(), stream.len() as int));
        self.buffer = rest;
        self.lead = lead;
        self.bank = bank;
        self.stream = Ghost(stream);
        self.produced = Ghost(k as nat);
        Processed { output, consumed: input.len(), finished: last }
    }
}

/// The polyphase form is the filter at work on the interpolated stream.
///
/// Put `interp - 1` zeros after each input sample, so that sample `n` stands
/// at place `n * interp`, and let the prototype filter answer at place
/// `k * decim + interp * (width - 1)`. Then each sample of the window of
/// output `k` meets, in its branch, the very tap that the filter would apply
/// to it there; and every tap that falls on a sample rather than on a zero is
/// one of these.
pub proof fn lemma_polyphase_is_filtering(interp: int, decim: int, width: int, k: int)
    requires
        interp > 0,
        decim > 0,
        width > 0,
        k >= 0,
    ensures
        forall|t: int|
            0 <= t < width ==> (window_start(interp, decim, k) + t) * interp + #[trigger] tap_index(
                interp,
                width,
                window_bank(interp, decim, k),
                t,
            ) == k * decim + interp * (width - 1),
        forall|tap: int|
            0 <= tap < interp * width && #[trigger] ((k * decim + interp * (width - 1) - tap)
                % interp) == 0 ==> exists|t: int|
                0 <= t < width && tap == #[trigger] tap_index(
                    interp,
                    width,
                    window_bank(interp, decim, k),
                    t,
                ),
{
    lemma_next_window(interp, decim, k);
    let start = window_start(interp, decim, k);
    let bank = window_bank(interp, decim, k);
    let place = k * decim + interp * (width - 1);
    vstd::arithmetic::div_mod::lemma_fundamental_div_mod(k * decim, interp);
    assert forall|t: int| 0 <= t < width implies (start + t) * interp + #[trigger] tap_index(
        interp,
        width,
        bank,
        t,
    ) == place by {
        assert((start + t) * interp + (interp * (width - 1 - t) + bank) == (interp * start + bank)
            + interp * (width - 1)) by (nonlinear_arith);
    }
    assert forall|tap: int|
        0 <= tap < interp * width && #[trigger] ((place - tap) % interp) == 0 implies exists|
        t: int,
    |
        0 <= t < width && tap == #[trigger] tap_index(interp, width, bank, t) by {
        // place - tap is a multiple of interp, and so is place - bank
        let whole = (place - tap) / interp;
        vstd::arithmetic::div_mod::lemma_fundamental_div_mod(place - tap, interp);
        let j = start + (width - 1) - whole;
        assert(tap == bank + interp * j) by (nonlinear_arith)
            requires
                place - tap == interp * whole,
                place == (interp * start + bank) + interp * (width - 1),
                j == start + (width - 1) - whole,
        ;
        assert(0 <= j < width) by (nonlinear_arith)
            requires
                tap == bank + interp * j,
                0 <= tap < interp * width,
                0 <= bank < interp,
                interp > 0,
        ;
        let t = width - 1 - j;
        assert(tap == tap_index(interp, width, bank, t));
    }
}

/// `r` outputs on, the window has moved by the whole part, and the branch
/// has become the remainder, of the old branch plus `r` times the decimation
/// factor over the interpolation factor.
pub proof fn lemma_window_ahead(interp: int, decim: int, k: int, r: int)
    requires
        interp > 0,
        decim > 0,
        k >= 0,
        r >= 0,
    ensures
        window_start(interp, decim, k + r) == window_start(interp, decim, k) + (window_bank(
            interp,
            decim,
            k,
        ) + r * decim) / interp,
        window_bank(interp, decim, k + r) == (window_bank(interp, decim, k) + r * decim) % interp,
{
    let x = k * decim;
    vstd::arithmetic::div_mod::lemma_fundamental_div_mod(x, interp);
    let s = x / interp;
    let b = x % interp;
    let y = b + r * decim;
    vstd::arithmetic::div_mod::lemma_fundamental_div_mod(y, interp);
    let q = y / interp;
    let e = y % interp;
    assert((k + r) * decim == (s + q) * interp + e) by (nonlinear_arith)
        requires
            x == k * decim,
            x == interp * s + b,
            y == b + r * decim,
            y == interp * q + e,
    ;
    vstd::arithmetic::div_mod::lemma_fundamental_div_mod_converse(
        (k + r) * decim,
        interp,
        s + q,
        e,
    );
}

/// The product of two sizes.
fn product(a: usize, b: usize) -> (p: u128)
    ensures
        p == a * b,
        p <= 0xffff_ffff_ffff_ffff * 0xffff_ffff_ffff_ffff,
{
    assert(a * b <= 0xffff_ffff_ffff_ffff * 0xffff_ffff_ffff_ffff) by (nonlinear_arith)
        requires
            a <= 0xffff_ffff_ffff_ffff,
            b <= 0xffff_ffff_ffff_ffff,
    ;
    (a as u128) * (b as u128)
}

/// Every tap index of a branch lies within the prototype filter.
proof fn lemma_tap_in_range(interp: int, width: int, bank: int, t: int)
    requires
        interp > 0,
        0 <= bank < interp,
        0 <= t < width,
    ensures
        0 <= tap_index(interp, width, bank, t) < interp * width,
        0 <= interp * (width - 1 - t) < interp * width,
{
    assert(0 <= interp * (width - 1 - t) && interp * (width - 1 - t) + bank < interp * width)
        by (nonlinear_arith)
        requires
            interp > 0,
            0 <= bank < interp,
            0 <= t < width,
    ;
}

} // verus!
