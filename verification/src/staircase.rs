//! The bucket sampler: the fixed staircase of candidate window durations.
//!
//! Evaluating every duration from one second up to a day against a long
//! recording would cost time quadratic in the recording length, so the
//! candidate durations follow a staircase that coarsens as durations grow:
//! every second up to five minutes, every ten seconds up to an hour, and
//! every thirty seconds up to a day. For a recording of `n` samples the
//! candidate set is the prefix of the staircase with entries at most
//! `min(n, MAX_DURATION)`.

use vstd::prelude::*;

verus! {

/// Longest duration ever evaluated: 24 hours of one-second samples.
pub const MAX_DURATION: usize = 86400;

/// Number of entries in the full staircase: 300 one-second steps,
/// 330 ten-second steps, and 2757 thirty-second steps.
pub const STAIRCASE_LEN: usize = 3387;

/// The staircase entry at index `i`: the durations 1..=300 second by second,
/// then 310..=3600 every ten seconds, then 3700..=86380 every thirty seconds.
pub open spec fn staircase_entry(i: int) -> int {
    if i < 300 {
        i + 1
    } else if i < 630 {
        310 + 10 * (i - 300)
    } else {
        3700 + 30 * (i - 630)
    }
}

/// Number of staircase entries among the first `i` that are at most `m`.
pub open spec fn staircase_count_upto(m: int, i: int) -> int
    decreases i,
{
    if i <= 0 {
        0
    } else {
        staircase_count_upto(m, i - 1) + if staircase_entry(i - 1) <= m {
            1int
        } else {
            0int
        }
    }
}

/// Number of staircase entries that are at most `m`.
pub open spec fn staircase_count(m: int) -> int {
    staircase_count_upto(m, STAIRCASE_LEN as int)
}

/// A recording length capped at the staircase ceiling.
pub open spec fn capped(n: int) -> int {
    if n < MAX_DURATION { n } else { MAX_DURATION as int }
}

/// The staircase is strictly increasing.
pub proof fn lemma_staircase_entry_increasing(i: int, j: int)
    requires
        0 <= i < j,
    ensures
        staircase_entry(i) < staircase_entry(j),
{
}

/// Every staircase entry is a positive duration.
pub proof fn lemma_staircase_entry_pos(i: int)
    requires
        0 <= i,
    ensures
        1 <= staircase_entry(i),
{
}

proof fn lemma_staircase_count_upto_empty(m: int, i: int)
    requires
        m < 1,
        0 <= i,
    ensures
        staircase_count_upto(m, i) == 0,
    decreases i,
{
    if i > 0 {
        lemma_staircase_count_upto_empty(m, i - 1);
        lemma_staircase_entry_pos(i - 1);
    }
}

proof fn lemma_staircase_count_upto_mono(m: int, i: int, j: int)
    requires
        0 <= i <= j,
    ensures
        staircase_count_upto(m, i) <= staircase_count_upto(m, j),
    decreases j - i,
{
    if i < j {
        lemma_staircase_count_upto_mono(m, i, j - 1);
    }
}

/// Below any positive threshold there are no staircase entries only when the
/// threshold is below one second.
pub proof fn lemma_staircase_count_zero_iff(m: int)
    ensures
        staircase_count(m) == 0 <==> m < 1,
{
    if m < 1 {
        lemma_staircase_count_upto_empty(m, STAIRCASE_LEN as int);
    } else {
        assert(staircase_count_upto(m, 0) == 0);
        assert(staircase_entry(0) == 1);
        assert(staircase_count_upto(m, 1) == 1);
        lemma_staircase_count_upto_mono(m, 1, STAIRCASE_LEN as int);
    }
}

/// The staircase entry at index `i`, as executable code.
pub fn staircase_entry_at(i: usize) -> (r: usize)
    requires
        i < STAIRCASE_LEN,
    ensures
        r as int == staircase_entry(i as int),
{
    if i < 300 {
        i + 1
    } else if i < 630 {
        310 + 10 * (i - 300)
    } else {
        3700 + 30 * (i - 630)
    }
}

/// Ordered candidate durations for a recording of `n` samples: the prefix of
/// the staircase whose entries are at most `min(n, MAX_DURATION)`.
pub fn get_power_curve_buckets(n: usize) -> (r: Vec<usize>)
    ensures
        r@.len() == staircase_count(capped(n as int)),
        forall|k: int| 0 <= k < r@.len() ==> #[trigger] r@[k] as int == staircase_entry(k),
        forall|k: int| 0 <= k < r@.len() ==> 1 <= #[trigger] r@[k] && r@[k] as int <= capped(
            n as int,
        ),
{
    let m: usize = if n < MAX_DURATION {
        n
    } else {
        MAX_DURATION
    };
    let mut r: Vec<usize> = Vec::new();
    let mut i: usize = 0;
    while i < STAIRCASE_LEN
        invariant
            i <= STAIRCASE_LEN,
            m as int == capped(n as int),
            r@.len() == staircase_count_upto(m as int, i as int),
            r@.len() <= i,
            forall|k: int|
                0 <= k < r@.len() ==> #[trigger] r@[k] as int == staircase_entry(k)
                    && staircase_entry(k) <= m,
            forall|k: int| r@.len() <= k < i ==> staircase_entry(k) > m,
        decreases STAIRCASE_LEN - i,
    {
        let e = staircase_entry_at(i);
        if e <= m {
            proof {
                if r@.len() < i as int {
                    lemma_staircase_entry_increasing(r@.len() as int, i as int);
                    assert(false);
                }
            }
            r.push(e);
        }
        i = i + 1;
    }
    proof {
        assert forall|k: int| 0 <= k < r@.len() implies 1 <= #[trigger] r@[k] && r@[k] as int
            <= capped(n as int) by {
            lemma_staircase_entry_pos(k);
        }
    }
    r
}

} // verus!
