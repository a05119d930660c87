//! The window maximizer and the power-curve engine.
//!
//! For one candidate duration `d`, the maximizer scans every contiguous
//! window of `d` samples and keeps the highest window total, folding with a
//! running maximum seeded at zero. The engine pairs each candidate duration
//! with its highest window total, fanning the independent per-duration
//! computations out across a thread pool and assembling the rows in ascending
//! duration order. A row's best average power is its total divided by its
//! duration; that division is left to the caller, so every value here is an
//! exact integer.

use crate::staircase::MAX_DURATION;
use crate::staircase::STAIRCASE_LEN;
use crate::staircase::capped;
use crate::staircase::get_power_curve_buckets;
use crate::staircase::lemma_staircase_count_zero_iff;
use crate::staircase::lemma_staircase_entry_increasing;
use crate::staircase::staircase_count;
use crate::staircase::staircase_entry;
use rayon::iter::IntoParallelRefIterator;
use rayon::iter::ParallelIterator;
use vstd::prelude::*;

verus! {

/// Total power over the window of `d` samples starting at index `i`.
pub open spec fn window_sum(s: Seq<u64>, i: int, d: int) -> int
    decreases d,
{
    if d <= 0 {
        0
    } else {
        s[i] + window_sum(s, i + 1, d - 1)
    }
}

/// Running maximum of the window totals for the first `k` starting offsets,
/// seeded at zero exactly as the engine's fold is.
pub open spec fn best_total_upto(s: Seq<u64>, d: int, k: int) -> int
    decreases k,
{
    if k <= 0 {
        0
    } else {
        let prev = best_total_upto(s, d, k - 1);
        let w = window_sum(s, k - 1, d);
        if w > prev {
            w
        } else {
            prev
        }
    }
}

/// The highest total power over any contiguous window of `d` samples,
/// floored at zero by the seed of the fold.
pub open spec fn best_window_total(s: Seq<u64>, d: int) -> int {
    best_total_upto(s, d, s.len() - d + 1)
}

proof fn lemma_window_sum_bounds(s: Seq<u64>, i: int, d: int)
    requires
        0 <= i,
        0 <= d,
        i + d <= s.len(),
    ensures
        0 <= window_sum(s, i, d) <= d * (u64::MAX as int),
    decreases d,
{
    if d > 0 {
        lemma_window_sum_bounds(s, i + 1, d - 1);
    }
}

proof fn lemma_window_sum_extend(s: Seq<u64>, i: int, j: int)
    requires
        0 <= i,
        0 <= j,
        i + j < s.len(),
    ensures
        window_sum(s, i, j + 1) == window_sum(s, i, j) + s[i + j],
    decreases j,
{
    if j == 0 {
        assert(window_sum(s, i + 1, 0) == 0);
    } else {
        lemma_window_sum_extend(s, i + 1, j - 1);
        assert(window_sum(s, i, j + 1) == s[i] + window_sum(s, i + 1, j));
        assert(window_sum(s, i, j) == s[i] + window_sum(s, i + 1, j - 1));
    }
}

proof fn lemma_best_upto_dominates(s: Seq<u64>, d: int, i: int, k: int)
    requires
        0 <= i < k,
    ensures
        best_total_upto(s, d, k) >= window_sum(s, i, d),
    decreases k,
{
    if i < k - 1 {
        lemma_best_upto_dominates(s, d, i, k - 1);
    }
}

/// The reported total for duration `d` is at least the total of every
/// individual window of `d` samples.
pub proof fn lemma_best_total_dominates(s: Seq<u64>, d: int, i: int)
    requires
        1 <= d <= s.len(),
        0 <= i <= s.len() - d,
    ensures
        best_window_total(s, d) >= window_sum(s, i, d),
{
    lemma_best_upto_dominates(s, d, i, s.len() - d + 1);
}

proof fn lemma_best_upto_attained(s: Seq<u64>, d: int, k: int)
    requires
        1 <= d,
        d <= s.len(),
        1 <= k <= s.len() - d + 1,
    ensures
        exists|i: int| 0 <= i < k && best_total_upto(s, d, k) == window_sum(s, i, d),
    decreases k,
{
    if k == 1 {
        lemma_window_sum_bounds(s, 0, d);
        assert(best_total_upto(s, d, 0) == 0);
        assert(best_total_upto(s, d, 1) == window_sum(s, 0, d));
    } else {
        lemma_best_upto_attained(s, d, k - 1);
        let prev = best_total_upto(s, d, k - 1);
        let w = window_sum(s, k - 1, d);
        if w > prev {
            assert(best_total_upto(s, d, k) == window_sum(s, k - 1, d));
        } else {
            let i0 = choose|i: int| 0 <= i < k - 1 && prev == window_sum(s, i, d);
            assert(best_total_upto(s, d, k) == window_sum(s, i0, d));
        }
    }
}

/// When at least one window exists, the reported total is the total of
/// some window; the zero seed never wins because samples are unsigned.
pub proof fn lemma_best_total_attained(s: Seq<u64>, d: int)
    requires
        1 <= d <= s.len(),
    ensures
        exists|i: int| 0 <= i <= s.len() - d && best_window_total(s, d) == window_sum(s, i, d),
{
    lemma_best_upto_attained(s, d, s.len() - d + 1);
}

proof fn lemma_best_upto_floor(s: Seq<u64>, d: int, k: int)
    ensures
        best_total_upto(s, d, k) >= 0,
    decreases k,
{
    if k > 0 {
        lemma_best_upto_floor(s, d, k - 1);
    }
}

/// The reported total is never negative; the fold is seeded at zero.
pub proof fn lemma_best_total_floor(s: Seq<u64>, d: int)
    ensures
        best_window_total(s, d) >= 0,
{
    lemma_best_upto_floor(s, d, s.len() - d + 1);
}

/// The sequence never rises: each sample is at most every earlier one.
pub open spec fn non_increasing(s: Seq<u64>) -> bool {
    forall|a: int, b: int| 0 <= a <= b < s.len() ==> #[trigger] s[b] <= #[trigger] s[a]
}

proof fn lemma_window_sum_shift(s: Seq<u64>, i1: int, i2: int, d: int)
    requires
        non_increasing(s),
        0 <= i1 <= i2,
        0 <= d,
        i2 + d <= s.len(),
    ensures
        window_sum(s, i2, d) <= window_sum(s, i1, d),
    decreases d,
{
    if d > 0 {
        assert(s[i2] <= s[i1]);
        lemma_window_sum_shift(s, i1 + 1, i2 + 1, d - 1);
    }
}

proof fn lemma_best_is_prefix(s: Seq<u64>, d: int)
    requires
        non_increasing(s),
        1 <= d <= s.len(),
    ensures
        best_window_total(s, d) == window_sum(s, 0, d),
{
    lemma_best_total_attained(s, d);
    let i0 = choose|i: int|
        0 <= i <= s.len() - d && best_window_total(s, d) == window_sum(s, i, d);
    lemma_window_sum_shift(s, 0, i0, d);
    lemma_best_total_dominates(s, d, 0);
}

proof fn lemma_window_sum_split(s: Seq<u64>, i: int, d1: int, d2: int)
    requires
        0 <= i,
        0 <= d1 <= d2,
        i + d2 <= s.len(),
    ensures
        window_sum(s, i, d2) == window_sum(s, i, d1) + window_sum(s, i + d1, d2 - d1),
    decreases d1,
{
    if d1 > 0 {
        lemma_window_sum_split(s, i + 1, d1 - 1, d2 - 1);
    }
}

proof fn lemma_window_sum_ge(s: Seq<u64>, i: int, d: int, c: int)
    requires
        0 <= i,
        0 <= d,
        i + d <= s.len(),
        forall|t: int| i <= t < i + d ==> c <= #[trigger] s[t],
    ensures
        window_sum(s, i, d) >= d * c,
    decreases d,
{
    if d > 0 {
        assert(c <= s[i]);
        lemma_window_sum_ge(s, i + 1, d - 1, c);
        assert(window_sum(s, i, d) == s[i] + window_sum(s, i + 1, d - 1));
        assert(window_sum(s, i + 1, d - 1) >= (d - 1) * c);
        assert(d * c == (d - 1) * c + c) by (nonlinear_arith);
    } else {
        assert(d * c == 0) by (nonlinear_arith)
            requires
                d == 0,
        ;
    }
}

proof fn lemma_window_sum_le(s: Seq<u64>, i: int, d: int, c: int)
    requires
        0 <= i,
        0 <= d,
        i + d <= s.len(),
        forall|t: int| i <= t < i + d ==> #[trigger] s[t] <= c,
    ensures
        window_sum(s, i, d) <= d * c,
    decreases d,
{
    if d > 0 {
        assert(s[i] <= c);
        lemma_window_sum_le(s, i + 1, d - 1, c);
        assert(window_sum(s, i, d) == s[i] + window_sum(s, i + 1, d - 1));
        assert(window_sum(s, i + 1, d - 1) <= (d - 1) * c);
        assert(d * c == (d - 1) * c + c) by (nonlinear_arith);
    } else {
        assert(d * c == 0) by (nonlinear_arith)
            requires
                d == 0,
        ;
    }
}

/// Over a non-increasing sample sequence, a shorter duration's best
/// average power is at least a longer one's. Averages are compared as exact
/// cross-multiplied ratios: `total1 / d1 >= total2 / d2` is stated as
/// `total1 * d2 >= total2 * d1`. Over arbitrary samples no such ordering
/// holds, and none is claimed.
pub proof fn lemma_non_increasing_monotone(s: Seq<u64>, d1: int, d2: int)
    requires
        non_increasing(s),
        1 <= d1 <= d2 <= s.len(),
    ensures
        best_window_total(s, d1) * d2 >= best_window_total(s, d2) * d1,
{
    lemma_best_is_prefix(s, d1);
    lemma_best_is_prefix(s, d2);
    lemma_window_sum_split(s, 0, d1, d2);
    let a = window_sum(s, 0, d1);
    let b = window_sum(s, d1, d2 - d1);
    let c: int = s[d1 - 1] as int;
    assert forall|t: int| 0 <= t < d1 implies c <= #[trigger] s[t] by {
        assert(s[d1 - 1] <= s[t]) by {
            assert(0 <= t <= d1 - 1 < s.len());
        }
    }
    assert forall|t: int| d1 <= t < d2 implies #[trigger] s[t] <= c by {
        assert(s[t] <= s[d1 - 1]);
    }
    lemma_window_sum_ge(s, 0, d1, c);
    lemma_window_sum_le(s, d1, d2 - d1, c);
    lemma_window_sum_bounds(s, d1, d2 - d1);
    assert(a * d2 >= (a + b) * d1) by (nonlinear_arith)
        requires
            a >= d1 * c,
            b <= (d2 - d1) * c,
            b >= 0,
            0 <= c,
            1 <= d1 <= d2,
    ;
}

/// Highest total power over any contiguous window of `duration` samples.
/// The best average power for this duration is the returned total divided
/// by `duration`.
pub fn best_window_sum(power_data: &Vec<u64>, duration: usize) -> (r: u128)
    requires
        1 <= duration,
        duration <= power_data.len(),
        duration <= MAX_DURATION,
    ensures
        r == best_window_total(power_data@, duration as int),
{
    let n = power_data.len();
    let mut best: u128 = 0;
    let mut i: usize = 0;
    while i <= n - duration
        invariant
            n == power_data@.len(),
            1 <= duration <= n,
            duration <= MAX_DURATION,
            i <= n - duration + 1,
            best == best_total_upto(power_data@, duration as int, i as int),
        decreases n - duration + 1 - i,
    {
        let mut sum: u128 = 0;
        let mut j: usize = 0;
        while j < duration
            invariant
                n == power_data@.len(),
                i + duration <= n,
                j <= duration,
                duration <= MAX_DURATION,
                sum == window_sum(power_data@, i as int, j as int),
            decreases duration - j,
        {
            proof {
                lemma_window_sum_bounds(power_data@, i as int, j as int);
                lemma_window_sum_extend(power_data@, i as int, j as int);
            }
            sum = sum + (power_data[i + j] as u128);
            j = j + 1;
        }
        if sum > best {
            best = sum;
        }
        i = i + 1;
    }
    best
}

/// One row of the power curve: a candidate duration and the highest total
/// power over any contiguous window of that many samples. The best average
/// power for the duration is `best_total / duration`.
#[derive(Clone, Copy, Debug, PartialEq, Eq, Structural)]
pub struct PowerCurveEntry {
    /// Window length, in seconds.
    pub duration: usize,
    /// Highest total power over any window of `duration` samples.
    pub best_total: u128,
}

/// The power-curve row for one candidate duration.
pub fn curve_entry(power_data: &Vec<u64>, duration: usize) -> (e: PowerCurveEntry)
    requires
        1 <= duration,
        duration <= power_data.len(),
        duration <= MAX_DURATION,
    ensures
        e.duration == duration,
        e.best_total == best_window_total(power_data@, duration as int),
{
    PowerCurveEntry { duration, best_total: best_window_sum(power_data, duration) }
}

/// Relies on rayon's `par_iter`, `map` and `collect` over a vector: `map`
/// applies its closure to each element exactly once, and collecting an
/// indexed parallel iterator into a `Vec` keeps the input order. The closure
/// only calls the verified `curve_entry`, whose contract gives each row the
/// shape stated below; the `requires` discharges that call's preconditions.
#[verifier::external_body]
fn par_curve_entries(power_data: &Vec<u64>, durations: &Vec<usize>) -> (r: Vec<PowerCurveEntry>)
    requires
        forall|k: int|
            0 <= k < durations@.len() ==> 1 <= #[trigger] durations@[k] && durations@[k]
                <= power_data@.len() && durations@[k] <= MAX_DURATION,
    ensures
        r@.len() == durations@.len(),
        forall|k: int| 0 <= k < r@.len() ==> (#[trigger] r@[k]).duration == durations@[k],
        forall|k: int|
            0 <= k < r@.len() ==> (#[trigger] r@[k]).best_total == best_window_total(
                power_data@,
                durations@[k] as int,
            ),
{
    durations.par_iter().map(|d: &usize| curve_entry(power_data, *d)).collect()
}

/// A power curve for the sample sequence `s`: one row per staircase entry at
/// most `min(s.len(), MAX_DURATION)`, row `k` carrying staircase entry `k` as
/// its duration and the highest window total for that duration.
pub open spec fn is_power_curve(s: Seq<u64>, r: Seq<PowerCurveEntry>) -> bool {
    &&& r.len() == staircase_count(capped(s.len() as int))
    &&& forall|k: int| 0 <= k < r.len() ==> (#[trigger] r[k]).duration == staircase_entry(k)
    &&& forall|k: int|
        0 <= k < r.len() ==> (#[trigger] r[k]).best_total == best_window_total(
            s,
            staircase_entry(k),
        )
}

/// The power curve of a recording: one row per candidate duration, ascending
/// by duration, each row holding the highest total power over any contiguous
/// window of that many seconds. A row's best average power is its total
/// divided by its duration; the caller performs that division. An empty
/// recording yields an empty curve.
pub fn calculate_power_curve(power_data: &Vec<u64>) -> (r: Vec<PowerCurveEntry>)
    ensures
        is_power_curve(power_data@, r@),
        forall|k: int|
            0 <= k < r@.len() ==> 1 <= (#[trigger] r@[k]).duration && r@[k].duration
                <= power_data@.len(),
        forall|k1: int, k2: int|
            0 <= k1 < k2 < r@.len() ==> r@[k1].duration < r@[k2].duration,
        r@.len() == 0 <==> power_data@.len() == 0,
{
    proof {
        lemma_staircase_count_zero_iff(capped(power_data@.len() as int));
    }
    if power_data.len() == 0 {
        return Vec::new();
    }
    let buckets = get_power_curve_buckets(power_data.len());
    let r = par_curve_entries(power_data, &buckets);
    proof {
        assert forall|k1: int, k2: int| 0 <= k1 < k2 < r@.len() implies r@[k1].duration
            < r@[k2].duration by {
            lemma_staircase_entry_increasing(k1, k2);
        }
    }
    r
}

/// The power curve is a function of the sample sequence alone; running
/// the engine twice on the same samples yields an identical curve.
pub proof fn lemma_power_curve_unique(
    s: Seq<u64>,
    r1: Seq<PowerCurveEntry>,
    r2: Seq<PowerCurveEntry>,
)
    requires
        is_power_curve(s, r1),
        is_power_curve(s, r2),
    ensures
        r1 == r2,
{
    assert forall|k: int| 0 <= k < r1.len() implies r1[k] == r2[k] by {
        assert(r1[k].duration == staircase_entry(k));
        assert(r2[k].duration == staircase_entry(k));
        assert(r1[k].best_total == best_window_total(s, staircase_entry(k)));
        assert(r2[k].best_total == best_window_total(s, staircase_entry(k)));
    }
    assert(r1 =~= r2);
}

} // verus!
