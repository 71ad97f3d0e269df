//! Sliding window of per-line typing-speed samples.
//!
//! A sample is the rate at which one completed line was typed, measured in
//! milli-characters per second (so `5000` means 5 characters per second).
//! The window holds at most its capacity of most recent samples, evicting
//! the oldest first, and reports their arithmetic mean.

use vstd::prelude::*;

verus! {

/// Rate in milli-characters per second for `chars` characters typed in
/// `elapsed_ms` milliseconds, capped at `u32::MAX`.
pub open spec fn rate_of(chars: u64, elapsed_ms: u64) -> u32
    recommends
        elapsed_ms > 0,
{
    let r = (chars as int) * 1000000 / (elapsed_ms as int);
    if r > u32::MAX {
        u32::MAX as u32
    } else {
        r as u32
    }
}

/// The window contents after appending `r` to `s` under capacity `cap`:
/// the oldest sample is evicted once the length exceeds the capacity.
pub open spec fn pushed(s: Seq<u32>, cap: nat, r: u32) -> Seq<u32> {
    let grown = s.push(r);
    if grown.len() > cap {
        grown.subrange(1, grown.len() as int)
    } else {
        grown
    }
}

/// Sum of all samples in `s`.
pub open spec fn sum_of(s: Seq<u32>) -> int
    decreases s.len(),
{
    if s.len() == 0 {
        0
    } else {
        sum_of(s.drop_last()) + s.last()
    }
}

/// Arithmetic mean of the samples in `s`, rounded towards zero.
pub open spec fn avg_of(s: Seq<u32>) -> int
    recommends
        s.len() > 0,
{
    sum_of(s) / (s.len() as int)
}

/// Fixed-capacity FIFO of recent speed samples, together with the start
/// instant of an in-progress line measurement.
pub struct SpeedWindow {
    samples: Vec<u32>,
    max_size: usize,
    started: Option<u64>,
}

/// Relies on `std::time::SystemTime::now`: the current wall-clock time,
/// converted to whole milliseconds since the Unix epoch. Nothing is assumed
/// of the value; a clock set before the epoch yields zero.
#[verifier::external_body]
fn now_millis() -> u64 {
    std::time::SystemTime::now()
        .duration_since(std::time::UNIX_EPOCH)
        .map(|d| d.as_millis() as u64)
        .unwrap_or(0)
}

/// How a window's samples may change when an in-progress measurement is
/// finished: untouched when none was in progress, and otherwise either
/// unchanged (a degenerate sample was skipped) or extended by one sample.
pub open spec fn finish_rel(s0: Seq<u32>, was_timing: bool, cap: nat, s1: Seq<u32>) -> bool {
    if was_timing {
        s1 == s0 || exists|r: u32| s1 == pushed(s0, cap, r)
    } else {
        s1 == s0
    }
}

proof fn lemma_sum_of_bound(s: Seq<u32>)
    ensures
        0 <= sum_of(s) <= s.len() * (u32::MAX as int),
    decreases s.len(),
{
    if s.len() > 0 {
        lemma_sum_of_bound(s.drop_last());
    }
}

impl SpeedWindow {
    /// The recorded samples, oldest first.
    pub closed spec fn samples(&self) -> Seq<u32> {
        self.samples@
    }

    /// The capacity the window was created with.
    pub closed spec fn cap(&self) -> nat {
        self.max_size as nat
    }

    /// Whether a line measurement is in progress.
    pub closed spec fn is_timing(&self) -> bool {
        self.started is Some
    }

    pub fn new(max_size: usize) -> (w: SpeedWindow)
        ensures
            w.samples() == Seq::<u32>::empty(),
            w.cap() == max_size,
            !w.is_timing(),
    {
        SpeedWindow { samples: Vec::new(), max_size, started: None }
    }

    /// Record the sample for one completed line. A zero duration or a zero
    /// character count is degenerate and leaves the window unchanged.
    pub fn push(&mut self, elapsed_ms: u64, chars: u64)
        ensures
            final(self).cap() == old(self).cap(),
            final(self).is_timing() == old(self).is_timing(),
            elapsed_ms == 0 || chars == 0 ==> final(self).samples() == old(self).samples(),
            elapsed_ms > 0 && chars > 0 ==> final(self).samples() == pushed(
                old(self).samples(),
                old(self).cap(),
                rate_of(chars, elapsed_ms),
            ),
    {
        if elapsed_ms == 0 || chars == 0 {
            return ;
        }
        let prod: u128 = (chars as u128) * 1000000;
        let q: u128 = prod / (elapsed_ms as u128);
        let r: u32 = if q > u32::MAX as u128 {
            u32::MAX
        } else {
            q as u32
        };
        assert(r == rate_of(chars, elapsed_ms));
        self.samples.push(r);
        if self.samples.len() > self.max_size {
            self.samples.remove(0);
        }
        assert(self.samples@ =~= pushed(old(self).samples(), old(self).cap(), r));
    }

    /// Begin measuring a line, unless a measurement is already in progress:
    /// a second start before a finish or cancel must not reset the clock.
    pub fn start_timing(&mut self)
        ensures
            final(self).samples() == old(self).samples(),
            final(self).cap() == old(self).cap(),
            final(self).is_timing(),
            old(self).is_timing() ==> *final(self) == *old(self),
    {
        if self.started.is_none() {
            self.started = Some(now_millis());
        }
    }

    /// Discard any in-progress measurement without recording a sample.
    pub fn cancel_timing(&mut self)
        ensures
            final(self).samples() == old(self).samples(),
            final(self).cap() == old(self).cap(),
            !final(self).is_timing(),
    {
        self.started = None;
    }

    /// Finish an in-progress measurement, recording a sample for `chars`
    /// characters typed since the start. Without one in progress, or with a
    /// degenerate elapsed time or character count, no sample is recorded.
    pub fn finish_timing(&mut self, chars: usize)
        ensures
            final(self).cap() == old(self).cap(),
            !final(self).is_timing(),
            finish_rel(
                old(self).samples(),
                old(self).is_timing(),
                old(self).cap(),
                final(self).samples(),
            ),
    {
        match self.started {
            Some(start) => {
                let now = now_millis();
                let elapsed: u64 = if now >= start {
                    now - start
                } else {
                    0
                };
                let chars64 = chars as u64;
                self.push(elapsed, chars64);
                proof {
                    if elapsed > 0 && chars64 > 0 {
                        assert(self.samples@ == pushed(
                            old(self).samples(),
                            old(self).cap(),
                            rate_of(chars64, elapsed),
                        ));
                    }
                }
                self.started = None;
            },
            None => {},
        }
    }

    /// Arithmetic mean of the current samples; no value while empty.
    pub fn average(&self) -> (r: Option<u32>)
        ensures
            self.samples().len() == 0 ==> r is None,
            self.samples().len() > 0 ==> r == Some(avg_of(self.samples()) as u32) && avg_of(
                self.samples(),
            ) == avg_of(self.samples()) as u32 as int,
    {
        let n = self.samples.len();
        if n == 0 {
            return None;
        }
        let mut sum: u128 = 0;
        let mut i: usize = 0;
        while i < n
            invariant
                n == self.samples@.len(),
                0 <= i <= n,
                sum == sum_of(self.samples@.take(i as int)),
                sum <= i * (u32::MAX as int),
            decreases n - i,
        {
            proof {
                assert(self.samples@.take(i + 1).drop_last() =~= self.samples@.take(i as int));
                assert(self.samples@.take(i + 1).last() == self.samples@[i as int]);
            }
            sum = sum + (self.samples[i] as u128);
            i = i + 1;
        }
        proof {
            assert(self.samples@.take(n as int) =~= self.samples@);
            lemma_sum_of_bound(self.samples@);
            vstd::arithmetic::div_mod::lemma_div_is_ordered(
                sum as int,
                n * (u32::MAX as int),
                n as int,
            );
            vstd::arithmetic::div_mod::lemma_div_by_multiple(u32::MAX as int, n as int);
        }
        let avg: u128 = sum / (n as u128);
        Some(avg as u32)
    }
}

} // verus!
