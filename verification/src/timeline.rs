//! The frame synchronizer.
//!
//! Given the sources' frame counts and rates, the timeline fixes one
//! output frame rate (the fastest source's rate, so no source has to
//! skip relative to its native smoothness), the number of output frames
//! (the longest source's play-through expressed at the output rate,
//! rounded up so the slowest-looping source completes at least one full
//! cycle), and a deterministic, stateless mapping from output frame and
//! source to that source's frame index. Sources loop independently by
//! modulo wraparound.

use crate::config::{ConfigError, DisplayContext};
use crate::rate::{lemma_u32_mul_fits_u64, Rate};
use vstd::arithmetic::div_mod::{
    lemma_div_denominator, lemma_div_is_ordered, lemma_div_multiples_vanish,
    lemma_div_multiples_vanish_fancy, lemma_small_mod,
};
use vstd::arithmetic::mul::{
    lemma_mul_is_associative, lemma_mul_is_commutative, lemma_mul_strictly_positive,
    lemma_mul_upper_bound,
};
use vstd::prelude::*;

verus! {

/// `l1 / r1 <= l2 / r2`: source one's natural play-through length, in
/// seconds, is at most source two's, by cross multiplication.
pub open spec fn natlen_le(l1: int, r1: Rate, l2: int, r2: Rate) -> bool {
    l1 * r1.den * r2.num <= l2 * r2.den * r1.num
}

/// Source `j` plays at least as long, in seconds, as every source.
pub open spec fn src_longest(sources: Seq<DisplayContext>, j: int) -> bool {
    &&& 0 <= j < sources.len()
    &&& forall|i: int|
        0 <= i < sources.len() ==> natlen_le(
            (#[trigger] sources[i]).images@.len() as int,
            sources[i].fps,
            sources[j].images@.len() as int,
            sources[j].fps,
        )
}

/// Source `m`'s rate is at least every source's rate.
pub open spec fn src_max_rate(sources: Seq<DisplayContext>, m: int) -> bool {
    &&& 0 <= m < sources.len()
    &&& forall|i: int|
        0 <= i < sources.len() ==> (#[trigger] sources[i]).fps.spec_le(sources[m].fps)
}

/// Division rounding up.
pub open spec fn ceil_div(a: int, b: int) -> int {
    (a + b - 1) / b
}

/// The number of output frames that one source's play-through takes at
/// the output rate: `ceil(len / rate * out)`.
pub open spec fn spec_frame_count(len: int, r: Rate, out: Rate) -> int {
    ceil_div(len * r.den * out.num, r.num * out.den)
}

/// The source frame shown at output frame `f`:
/// `floor(f * rate / out) mod len`.
pub open spec fn spec_index_map(f: int, r: Rate, out: Rate, len: int) -> int {
    ((f * r.num * out.den) / (r.den * out.num)) % len
}

/// The reconciled output timeline of a list of sources.
#[derive(Debug)]
pub struct Timeline {
    /// The fastest source rate.
    pub output_rate: Rate,
    /// Output frames before every source has completed a whole number
    /// of cycles of the longest source's play-through.
    pub output_frame_count: usize,
    /// Each source's native rate, in declaration order.
    pub rates: Vec<Rate>,
    /// Each source's frame count, in declaration order.
    pub lens: Vec<usize>,
}

impl Timeline {
    /// Source `j` plays at least as long as any other source.
    pub open spec fn longest_source(self, j: int) -> bool {
        &&& 0 <= j < self.lens@.len()
        &&& forall|i: int|
            0 <= i < self.lens@.len() ==> natlen_le(
                self.lens@[i] as int,
                #[trigger] self.rates@[i],
                self.lens@[j] as int,
                self.rates@[j],
            )
    }

    /// The output rate is one of the source rates and no source rate
    /// exceeds it.
    pub open spec fn max_rate(self) -> bool {
        &&& exists|i: int| 0 <= i < self.rates@.len() && self.rates@[i] == self.output_rate
        &&& forall|i: int|
            0 <= i < self.rates@.len() ==> (#[trigger] self.rates@[i]).spec_le(self.output_rate)
    }

    /// Well-formed timeline: at least one source, positive rates,
    /// non-empty frame lists, the output rate the maximum, and the
    /// output frame count the longest source's rounded-up play-through.
    pub open spec fn wf(self) -> bool {
        &&& self.rates@.len() == self.lens@.len()
        &&& self.lens@.len() >= 1
        &&& forall|i: int| 0 <= i < self.rates@.len() ==> (#[trigger] self.rates@[i]).valid()
        &&& forall|i: int| 0 <= i < self.lens@.len() ==> (#[trigger] self.lens@[i]) >= 1
        &&& self.output_rate.valid()
        &&& self.max_rate()
        &&& exists|j: int|
            #[trigger] self.longest_source(j) && self.output_frame_count == spec_frame_count(
                self.lens@[j] as int,
                self.rates@[j],
                self.output_rate,
            )
        &&& self.output_frame_count >= 1
    }

    /// Build the timeline for `sources`. Fails, before any compositing
    /// work, when there is no source, when a source's rate is not a
    /// positive fraction, when a source has no frames, or when the
    /// output frame count does not fit a machine word.
    pub fn new(sources: &Vec<DisplayContext>) -> (r: Result<Timeline, ConfigError>)
        ensures
            match r {
                Ok(tl) => {
                    &&& tl.wf()
                    &&& tl.rates@ =~= sources@.map_values(|c: DisplayContext| c.fps)
                    &&& tl.lens@.len() == sources@.len()
                    &&& forall|i: int|
                        0 <= i < sources@.len() ==> tl.lens@[i] == (
                        #[trigger] sources@[i]).images@.len()
                    &&& forall|i: int|
                        0 <= i < sources@.len() ==> (#[trigger] sources@[i]).fps.valid()
                            && sources@[i].images@.len() >= 1
                },
                Err(ConfigError::NoSources) => sources@.len() == 0,
                Err(ConfigError::NonPositiveRate) => exists|i: int|
                    0 <= i < sources@.len() && !(#[trigger] sources@[i]).fps.valid(),
                Err(ConfigError::EmptyFrames { source }) => {
                    &&& 0 <= source < sources@.len()
                    &&& sources@[source as int].images@.len() == 0
                    &&& forall|i: int|
                        0 <= i < sources@.len() ==> (#[trigger] sources@[i]).fps.valid()
                },
                Err(ConfigError::FrameCountOverflow) => exists|j: int, m: int|
                    #![trigger src_longest(sources@, j), src_max_rate(sources@, m)]
                    {
                        &&& src_longest(sources@, j)
                        &&& src_max_rate(sources@, m)
                        &&& spec_frame_count(
                            sources@[j].images@.len() as int,
                            sources@[j].fps,
                            sources@[m].fps,
                        ) > usize::MAX
                    },
                _ => false,
            },
    {
        let n = sources.len();
        if n == 0 {
            return Err(ConfigError::NoSources);
        }
        // Validate every source and collect its rate and frame count.
        let mut rates: Vec<Rate> = Vec::new();
        let mut lens: Vec<usize> = Vec::new();
        let mut i: usize = 0;
        while i < n
            invariant
                i <= n,
                n == sources@.len(),
                rates@.len() == i,
                lens@.len() == i,
                forall|k: int| 0 <= k < i ==> (#[trigger] rates@[k]) == sources@[k].fps,
                forall|k: int|
                    0 <= k < i ==> (#[trigger] lens@[k]) == sources@[k].images@.len(),
                forall|k: int| 0 <= k < i ==> (#[trigger] sources@[k]).fps.valid(),
                forall|k: int| 0 <= k < i ==> (#[trigger] sources@[k]).images@.len() >= 1,
            decreases n - i,
        {
            let src = &sources[i];
            if src.fps.num == 0 || src.fps.den == 0 {
                return Err(ConfigError::NonPositiveRate);
            }
            if src.images.len() == 0 {
                // A rate found invalid later must not be masked: check
                // the remaining rates before reporting the empty source.
                let mut k: usize = i + 1;
                while k < n
                    invariant
                        i < k <= n,
                        n == sources@.len(),
                        forall|m: int| 0 <= m < i ==> (#[trigger] sources@[m]).fps.valid(),
                        sources@[i as int].fps.valid(),
                        forall|m: int| i < m < k ==> (#[trigger] sources@[m]).fps.valid(),
                    decreases n - k,
                {
                    let s2 = &sources[k];
                    if s2.fps.num == 0 || s2.fps.den == 0 {
                        return Err(ConfigError::NonPositiveRate);
                    }
                    k += 1;
                }
                return Err(ConfigError::EmptyFrames { source: i });
            }
            rates.push(src.fps);
            lens.push(src.images.len());
            i += 1;
        }
        // The output rate is the fastest source rate.
        let mut out: Rate = rates[0];
        let mut i: usize = 1;
        while i < n
            invariant
                1 <= i <= n,
                n == rates@.len(),
                forall|k: int| 0 <= k < n ==> (#[trigger] rates@[k]).valid(),
                out.valid(),
                exists|k: int| 0 <= k < i && rates@[k] == out,
                forall|k: int| 0 <= k < i ==> (#[trigger] rates@[k]).spec_le(out),
            decreases n - i,
        {
            if out.le(&rates[i]) {
                proof {
                    lemma_rate_le_trans_all(rates@, out, rates@[i as int], i as int);
                }
                out = rates[i];
            }
            i += 1;
        }
        // The longest play-through decides the output frame count.
        let mut longest: usize = 0;
        let mut i: usize = 1;
        while i < n
            invariant
                1 <= i <= n,
                n == rates@.len(),
                n == lens@.len(),
                longest < i,
                forall|k: int| 0 <= k < n ==> (#[trigger] rates@[k]).valid(),
                forall|k: int| 0 <= k < n ==> (#[trigger] lens@[k]) >= 1,
                forall|k: int|
                    0 <= k < i ==> natlen_le(
                        lens@[k] as int,
                        #[trigger] rates@[k],
                        lens@[longest as int] as int,
                        rates@[longest as int],
                    ),
            decreases n - i,
        {
            if !natlen_le_exec(lens[longest], &rates[longest], lens[i], &rates[i]) {
            } else {
                proof {
                    lemma_natlen_le_trans_all(
                        lens@,
                        rates@,
                        longest as int,
                        i as int,
                        i as int,
                    );
                }
                longest = i;
            }
            i += 1;
        }
        // count = ceil(lens[longest] / rates[longest] * out)
        let lj = lens[longest];
        let rj = rates[longest];
        proof {
            lemma_mul_upper_bound(lj as int, u64::MAX as int, rj.den as int, u32::MAX as int);
            lemma_mul_upper_bound(
                lj as int * rj.den as int,
                u64::MAX as int * u32::MAX as int,
                out.num as int,
                u32::MAX as int,
            );
            lemma_u32_mul_fits_u64(rj.num, out.den);
            lemma_mul_strictly_positive(rj.num as int, out.den as int);
        }
        let a: u128 = (lj as u128) * (rj.den as u128) * (out.num as u128);
        let b: u128 = (rj.num as u128) * (out.den as u128);
        let c: u128 = (a + b - 1) / b;
        proof {
            lemma_mul_strictly_positive(lj as int, rj.den as int);
            lemma_mul_strictly_positive(lj as int * rj.den as int, out.num as int);
            assert(a >= 1);
            lemma_div_is_ordered(b as int, a as int + b - 1, b as int);
            assert(b as int / b as int == 1) by {
                lemma_div_multiples_vanish(1, b as int);
            }
        }
        if c > usize::MAX as u128 {
            proof {
                let m = choose|k: int| 0 <= k < n && rates@[k] == out;
                assert forall|i: int| 0 <= i < sources@.len() implies natlen_le(
                    (#[trigger] sources@[i]).images@.len() as int,
                    sources@[i].fps,
                    sources@[longest as int].images@.len() as int,
                    sources@[longest as int].fps,
                ) by {
                    assert(rates@[i] == sources@[i].fps);
                    assert(lens@[i] == sources@[i].images@.len());
                    assert(natlen_le(
                        lens@[i] as int,
                        rates@[i],
                        lens@[longest as int] as int,
                        rates@[longest as int],
                    ));
                }
                assert(src_longest(sources@, longest as int));
                assert forall|i: int|
                    0 <= i < sources@.len() implies (#[trigger] sources@[i]).fps.spec_le(
                    sources@[m].fps,
                ) by {
                    assert(rates@[i] == sources@[i].fps);
                    assert(rates@[i].spec_le(out));
                }
                assert(src_max_rate(sources@, m));
                assert(spec_frame_count(
                    sources@[longest as int].images@.len() as int,
                    sources@[longest as int].fps,
                    sources@[m].fps,
                ) > usize::MAX);
            }
            return Err(ConfigError::FrameCountOverflow);
        }
        let tl = Timeline { output_rate: out, output_frame_count: c as usize, rates, lens };
        proof {
            assert(tl.longest_source(longest as int));
            assert(tl.output_frame_count == spec_frame_count(
                tl.lens@[longest as int] as int,
                tl.rates@[longest as int],
                tl.output_rate,
            ));
            assert(tl.wf());
            assert(tl.rates@ =~= sources@.map_values(|cx: DisplayContext| cx.fps));
        }
        Ok(tl)
    }

    /// The source frame of `source` shown at output frame `f`.
    pub fn index_map(&self, f: usize, source: usize) -> (r: usize)
        requires
            self.wf(),
            source < self.lens@.len(),
        ensures
            r == spec_index_map(
                f as int,
                self.rates@[source as int],
                self.output_rate,
                self.lens@[source as int] as int,
            ),
            r < self.lens@[source as int],
    {
        let rt = self.rates[source];
        let len = self.lens[source];
        let out = self.output_rate;
        proof {
            lemma_mul_upper_bound(f as int, u64::MAX as int, rt.num as int, u32::MAX as int);
            lemma_mul_upper_bound(
                f as int * rt.num as int,
                u64::MAX as int * u32::MAX as int,
                out.den as int,
                u32::MAX as int,
            );
            lemma_u32_mul_fits_u64(rt.den, out.num);
            lemma_mul_strictly_positive(rt.den as int, out.num as int);
        }
        let num: u128 = (f as u128) * (rt.num as u128) * (out.den as u128);
        let den: u128 = (rt.den as u128) * (out.num as u128);
        let idx: u128 = (num / den) % (len as u128);
        idx as usize
    }

    /// The steady-state delay between two presented frames: one second
    /// over the output rate, in whole microseconds, truncated.
    pub fn frame_interval_micros(&self) -> (r: u64)
        requires
            self.wf(),
        ensures
            r == 1_000_000int * self.output_rate.den / (self.output_rate.num as int),
    {
        proof {
            lemma_mul_upper_bound(
                1_000_000,
                1_000_000,
                self.output_rate.den as int,
                u32::MAX as int,
            );
        }
        (1_000_000u64 * self.output_rate.den as u64) / (self.output_rate.num as u64)
    }
}

/// A source whose rate equals the output rate shows its frame `f mod len`
/// at output frame `f`: the mapping is the identity up to wraparound.
pub proof fn lemma_index_map_same_rate(f: int, r: Rate, out: Rate, len: int)
    requires
        f >= 0,
        r.valid(),
        out.valid(),
        r.spec_eq_value(out),
        len >= 1,
    ensures
        spec_index_map(f, r, out, len) == f % len,
{
    let k = r.den as int * out.num as int;
    lemma_mul_strictly_positive(r.den as int, out.num as int);
    assert(f * r.num * out.den == k * f) by (nonlinear_arith)
        requires
            r.num * out.den == out.num * r.den,
            k == r.den as int * out.num as int,
    ;
    lemma_div_multiples_vanish(f, k);
    assert((f * r.num * out.den) / (r.den * out.num) == f);
}

/// A play-through of a source whose rate is the output rate takes
/// exactly one output frame per source frame: no rounding is involved.
pub proof fn lemma_count_same_rate(l: int, r: Rate, out: Rate)
    requires
        l >= 1,
        r.valid(),
        out.valid(),
        r.spec_eq_value(out),
    ensures
        spec_frame_count(l, r, out) == l,
{
    let b = r.num as int * out.den as int;
    lemma_mul_strictly_positive(r.num as int, out.den as int);
    assert(l * r.den * out.num == b * l) by (nonlinear_arith)
        requires
            r.num * out.den == out.num * r.den,
            b == r.num as int * out.den as int,
    ;
    lemma_div_multiples_vanish_fancy(l, b - 1, b);
}

/// A single source reduces the timeline to the trivial case: the output
/// rate is that source's own rate and the output frame count is its own
/// frame count, with no rounding error.
pub proof fn lemma_single_source(tl: Timeline)
    requires
        tl.wf(),
        tl.lens@.len() == 1,
    ensures
        tl.output_rate == tl.rates@[0],
        tl.output_frame_count == tl.lens@[0],
{
    assert(tl.output_rate == tl.rates@[0]) by {
        let i = choose|i: int| 0 <= i < tl.rates@.len() && tl.rates@[i] == tl.output_rate;
        assert(i == 0);
    }
    let j = choose|j: int|
        #[trigger] tl.longest_source(j) && tl.output_frame_count == spec_frame_count(
            tl.lens@[j] as int,
            tl.rates@[j],
            tl.output_rate,
        );
    assert(j == 0);
    lemma_count_same_rate(tl.lens@[0] as int, tl.rates@[0], tl.output_rate);
}

/// When every source has the same rate and the same frame count, the
/// mapping collapses to the identity: at output frame `f`, every source
/// shows its own frame `f`, and the timeline is exactly one cycle long.
pub proof fn lemma_index_map_identity(tl: Timeline)
    requires
        tl.wf(),
        forall|i: int, j: int|
            0 <= i < tl.rates@.len() && 0 <= j < tl.rates@.len() ==> (
            #[trigger] tl.rates@[i]).spec_eq_value(#[trigger] tl.rates@[j]),
        forall|i: int, j: int|
            0 <= i < tl.lens@.len() && 0 <= j < tl.lens@.len() ==> (#[trigger] tl.lens@[i]) == (
            #[trigger] tl.lens@[j]),
    ensures
        forall|i: int| 0 <= i < tl.lens@.len() ==> tl.output_frame_count == #[trigger] tl.lens@[i],
        forall|i: int, f: int|
            0 <= i < tl.lens@.len() && 0 <= f < tl.output_frame_count ==> #[trigger] spec_index_map(
                f,
                tl.rates@[i],
                tl.output_rate,
                tl.lens@[i] as int,
            ) == f,
{
    let m = choose|m: int| 0 <= m < tl.rates@.len() && tl.rates@[m] == tl.output_rate;
    let j = choose|j: int|
        #[trigger] tl.longest_source(j) && tl.output_frame_count == spec_frame_count(
            tl.lens@[j] as int,
            tl.rates@[j],
            tl.output_rate,
        );
    assert(tl.rates@[j].spec_eq_value(tl.output_rate));
    lemma_count_same_rate(tl.lens@[j] as int, tl.rates@[j], tl.output_rate);
    assert forall|i: int| 0 <= i < tl.lens@.len() implies tl.output_frame_count == (
    #[trigger] tl.lens@[i]) by {
        assert(tl.lens@[i] == tl.lens@[j]);
    }
    assert forall|i: int, f: int|
        0 <= i < tl.lens@.len() && 0 <= f < tl.output_frame_count implies #[trigger] spec_index_map(
        f,
        tl.rates@[i],
        tl.output_rate,
        tl.lens@[i] as int,
    ) == f by {
        assert(tl.rates@[i].spec_eq_value(tl.output_rate));
        lemma_index_map_same_rate(f, tl.rates@[i], tl.output_rate, tl.lens@[i] as int);
        lemma_small_mod(f as nat, tl.lens@[i] as nat);
    }
}

/// Two sources, the first at twice the second's rate with equal natural
/// play-through lengths: at output frame `f`, the faster source shows
/// frame `f mod len` (it advances every output tick) and the slower one
/// shows frame `(f / 2) mod len` (it advances every other tick).
pub proof fn lemma_double_rate(tl: Timeline, f: int)
    requires
        tl.wf(),
        tl.lens@.len() == 2,
        // The first source's rate is exactly twice the second's.
        tl.rates@[0].num * tl.rates@[1].den == 2 * tl.rates@[1].num * tl.rates@[0].den,
        // Equal natural lengths: len0 / rate0 == len1 / rate1.
        tl.lens@[0] * tl.rates@[0].den * tl.rates@[1].num == tl.lens@[1] * tl.rates@[1].den
            * tl.rates@[0].num,
        f >= 0,
    ensures
        tl.output_rate == tl.rates@[0],
        tl.lens@[0] == 2 * tl.lens@[1],
        tl.output_frame_count == tl.lens@[0],
        spec_index_map(f, tl.rates@[0], tl.output_rate, tl.lens@[0] as int) == f % (
        tl.lens@[0] as int),
        spec_index_map(f, tl.rates@[1], tl.output_rate, tl.lens@[1] as int) == (f / 2) % (
        tl.lens@[1] as int),
{
    let n0 = tl.rates@[0].num as int;
    let d0 = tl.rates@[0].den as int;
    let n1 = tl.rates@[1].num as int;
    let d1 = tl.rates@[1].den as int;
    let l0 = tl.lens@[0] as int;
    let l1 = tl.lens@[1] as int;
    let k = n1 * d0;
    lemma_mul_strictly_positive(n1, d0);
    // The first source's rate is strictly the larger, so it is the output rate.
    assert(tl.output_rate == tl.rates@[0]) by {
        let m = choose|m: int| 0 <= m < tl.rates@.len() && tl.rates@[m] == tl.output_rate;
        if m != 0 {
            assert(tl.rates@[0].spec_le(tl.rates@[1]));
            assert(false) by (nonlinear_arith)
                requires
                    n0 * d1 <= n1 * d0,
                    n0 * d1 == 2 * n1 * d0,
                    n1 * d0 >= 1,
            ;
        }
    }
    // Equal natural lengths force the faster source to have twice the frames.
    assert(l0 == 2 * l1) by (nonlinear_arith)
        requires
            l0 * d0 * n1 == l1 * d1 * n0,
            n0 * d1 == 2 * n1 * d0,
            k == n1 * d0,
            k >= 1,
            l0 >= 1,
            l1 >= 1,
    ;
    // The faster source maps one-to-one.
    lemma_index_map_same_rate(f, tl.rates@[0], tl.output_rate, l0);
    lemma_small_mod_noop(f, l0);
    // The slower source advances once per two output frames.
    assert(f * n1 * d0 == f * k) by (nonlinear_arith)
        requires
            k == n1 * d0,
    ;
    assert(d1 * n0 == 2 * k) by (nonlinear_arith)
        requires
            n0 * d1 == 2 * n1 * d0,
            k == n1 * d0,
    ;
    assert((f * k) / (2 * k) == f / 2) by {
        lemma_div_multiples_vanish(f, k);
        assert(f * k == k * f) by (nonlinear_arith);
        lemma_div_denominator(f * k, k, 2);
        assert(k * 2 == 2 * k) by (nonlinear_arith);
    }
    assert(spec_index_map(f, tl.rates@[1], tl.output_rate, l1) == (f / 2) % l1);
    // The output frame count is one full cycle of the faster source.
    let j = choose|j: int|
        #[trigger] tl.longest_source(j) && tl.output_frame_count == spec_frame_count(
            tl.lens@[j] as int,
            tl.rates@[j],
            tl.output_rate,
        );
    if j == 0 {
        lemma_count_same_rate(l0, tl.rates@[0], tl.output_rate);
    } else {
        assert(j == 1);
        assert(l1 * d1 * n0 == k * (2 * l1)) by (nonlinear_arith)
            requires
                d1 * n0 == 2 * k,
        ;
        lemma_div_multiples_vanish_fancy(2 * l1, k - 1, k);
        assert(spec_frame_count(l1, tl.rates@[1], tl.output_rate) == 2 * l1);
    }
}

/// `f % l == f` for `0 <= f < l`, stated on ints for direct use.
proof fn lemma_small_mod_noop(f: int, l: int)
    requires
        0 <= f,
        1 <= l,
    ensures
        f < l ==> f % l == f,
{
    if f < l {
        lemma_small_mod(f as nat, l as nat);
    }
}

/// Whether source one plays no longer than source two.
fn natlen_le_exec(l1: usize, r1: &Rate, l2: usize, r2: &Rate) -> (b: bool)
    ensures
        b == natlen_le(l1 as int, *r1, l2 as int, *r2),
{
    proof {
        lemma_mul_upper_bound(l1 as int, u64::MAX as int, r1.den as int, u32::MAX as int);
        lemma_mul_upper_bound(
            l1 as int * r1.den as int,
            u64::MAX as int * u32::MAX as int,
            r2.num as int,
            u32::MAX as int,
        );
        lemma_mul_upper_bound(l2 as int, u64::MAX as int, r2.den as int, u32::MAX as int);
        lemma_mul_upper_bound(
            l2 as int * r2.den as int,
            u64::MAX as int * u32::MAX as int,
            r1.num as int,
            u32::MAX as int,
        );
    }
    (l1 as u128) * (r1.den as u128) * (r2.num as u128) <= (l2 as u128) * (r2.den as u128) * (
    r1.num as u128)
}

/// `spec_le` on rates is transitive.
proof fn lemma_rate_le_trans(a: Rate, b: Rate, c: Rate)
    requires
        a.valid(),
        b.valid(),
        c.valid(),
        a.spec_le(b),
        b.spec_le(c),
    ensures
        a.spec_le(c),
{
    assert(a.num * c.den <= c.num * a.den) by (nonlinear_arith)
        requires
            a.num * b.den <= b.num * a.den,
            b.num * c.den <= c.num * b.den,
            a.num >= 1 && a.den >= 1,
            b.num >= 1 && b.den >= 1,
            c.num >= 1 && c.den >= 1,
    ;
}

/// Everything below `upto` stays below a new maximum.
proof fn lemma_rate_le_trans_all(rs: Seq<Rate>, old_max: Rate, new_max: Rate, upto: int)
    requires
        0 <= upto <= rs.len(),
        old_max.valid(),
        new_max.valid(),
        forall|k: int| 0 <= k < rs.len() ==> (#[trigger] rs[k]).valid(),
        forall|k: int| 0 <= k < upto ==> (#[trigger] rs[k]).spec_le(old_max),
        old_max.spec_le(new_max),
    ensures
        forall|k: int| 0 <= k < upto ==> (#[trigger] rs[k]).spec_le(new_max),
{
    assert forall|k: int| 0 <= k < upto implies (#[trigger] rs[k]).spec_le(new_max) by {
        lemma_rate_le_trans(rs[k], old_max, new_max);
    }
}

/// `natlen_le` is transitive.
proof fn lemma_natlen_le_trans(l1: int, r1: Rate, l2: int, r2: Rate, l3: int, r3: Rate)
    requires
        r1.valid(),
        r2.valid(),
        r3.valid(),
        l1 >= 0,
        l2 >= 0,
        l3 >= 0,
        natlen_le(l1, r1, l2, r2),
        natlen_le(l2, r2, l3, r3),
    ensures
        natlen_le(l1, r1, l3, r3),
{
    assert(l1 * r1.den * r3.num <= l3 * r3.den * r1.num) by (nonlinear_arith)
        requires
            l1 * r1.den * r2.num <= l2 * r2.den * r1.num,
            l2 * r2.den * r3.num <= l3 * r3.den * r2.num,
            r1.num >= 1 && r1.den >= 1,
            r2.num >= 1 && r2.den >= 1,
            r3.num >= 1 && r3.den >= 1,
            l1 >= 0 && l2 >= 0 && l3 >= 0,
    ;
}

/// Everything no longer than the old longest source is no longer than
/// a new longest one.
proof fn lemma_natlen_le_trans_all(ls: Seq<usize>, rs: Seq<Rate>, oldj: int, newj: int, upto: int)
    requires
        ls.len() == rs.len(),
        0 <= oldj < rs.len(),
        0 <= newj < rs.len(),
        0 <= upto <= rs.len(),
        forall|k: int| 0 <= k < rs.len() ==> (#[trigger] rs[k]).valid(),
        forall|k: int|
            0 <= k < upto ==> natlen_le(
                ls[k] as int,
                #[trigger] rs[k],
                ls[oldj] as int,
                rs[oldj],
            ),
        natlen_le(ls[oldj] as int, rs[oldj], ls[newj] as int, rs[newj]),
    ensures
        forall|k: int|
            0 <= k < upto ==> natlen_le(
                ls[k] as int,
                #[trigger] rs[k],
                ls[newj] as int,
                rs[newj],
            ),
{
    assert forall|k: int|
        0 <= k < upto implies natlen_le(
        ls[k] as int,
        #[trigger] rs[k],
        ls[newj] as int,
        rs[newj],
    ) by {
        lemma_natlen_le_trans(
            ls[k] as int,
            rs[k],
            ls[oldj] as int,
            rs[oldj],
            ls[newj] as int,
            rs[newj],
        );
    }
}

} // verus!
