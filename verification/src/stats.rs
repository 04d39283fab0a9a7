//! The mathematical model of the engine's accumulators and of the five
//! sub-scores and the composite score derived from them.
use vstd::prelude::*;

use vstd::arithmetic::mul::lemma_mul_inequality;
use vstd::multiset::{
    lemma_insert_increases_count_by_1, lemma_insert_other_elements_unchanged, Multiset,
};
use vstd::seq_lib::group_to_multiset_ensures;

use crate::score::{zero_score, Score};

verus! {

/// Number of entries among the first `n` of `d` that are nonzero.
pub open spec fn count_nonzero(d: Seq<u64>, n: int) -> int
    decreases n,
{
    if n <= 0 {
        0
    } else {
        count_nonzero(d, n - 1) + if d[n - 1] > 0 {
            1int
        } else {
            0int
        }
    }
}

/// Number of indices `j < n` with `d[j] == x`.
pub open spec fn occ_of(d: Seq<u64>, x: u64, n: int) -> int
    decreases n,
{
    if n <= 0 {
        0
    } else {
        occ_of(d, x, n - 1) + if d[n - 1] == x {
            1int
        } else {
            0int
        }
    }
}

/// Number of indices `j < n` whose entry is shared by no other index of
/// `d`: its value occurs exactly once over the whole of `d`.
pub open spec fn count_unique(d: Seq<u64>, n: int) -> int
    decreases n,
{
    if n <= 0 {
        0
    } else {
        count_unique(d, n - 1) + if occ_of(d, d[n - 1], d.len() as int) == 1 {
            1int
        } else {
            0int
        }
    }
}

/// Smallest entry among the first `n` of `d` (`u64::MAX` if `n <= 0`).
pub open spec fn min_count(d: Seq<u64>, n: int) -> int
    decreases n,
{
    if n <= 0 {
        u64::MAX as int
    } else {
        let prev = min_count(d, n - 1);
        if d[n - 1] < prev {
            d[n - 1] as int
        } else {
            prev
        }
    }
}

/// Largest entry among the first `n` of `d` (0 if `n <= 0`).
pub open spec fn max_count(d: Seq<u64>, n: int) -> int
    decreases n,
{
    if n <= 0 {
        0
    } else {
        let prev = max_count(d, n - 1);
        if d[n - 1] > prev {
            d[n - 1] as int
        } else {
            prev
        }
    }
}

/// Sum of the first `n` entries of `d`.
pub open spec fn sum_counts(d: Seq<u64>, n: int) -> int
    decreases n,
{
    if n <= 0 {
        0
    } else {
        sum_counts(d, n - 1) + d[n - 1]
    }
}

/// Significance bar for interval buckets: a bucket matters only when its
/// count exceeds one 4096th (truncating) of the sample counter.
pub open spec fn threshold(c: u64) -> int {
    c as int / 4096
}

/// Largest bucket index `g` with `1 <= g < n` and `iv[g] > t`, or 0 when
/// no such bucket exists.
pub open spec fn max_significant(iv: Seq<u64>, t: int, n: int) -> int
    decreases n,
{
    if n <= 1 {
        0
    } else if iv[n - 1] > t {
        n - 1
    } else {
        max_significant(iv, t, n - 1)
    }
}

/// Number of bucket indices `g` with `1 <= g < n` and `iv[g] > t`.
pub open spec fn count_significant(iv: Seq<u64>, t: int, n: int) -> int
    decreases n,
{
    if n <= 1 {
        0
    } else {
        count_significant(iv, t, n - 1) + if iv[n - 1] > t {
            1int
        } else {
            0int
        }
    }
}

/// Number of occurrences of the byte `v` in `s`.
pub open spec fn occ_bytes(s: Seq<u8>, v: u8) -> int
    decreases s.len(),
{
    if s.len() == 0 {
        0
    } else {
        occ_bytes(s.drop_last(), v) + if s.last() == v {
            1int
        } else {
            0int
        }
    }
}

/// The frequency table determined by a byte sequence: entry `i` counts
/// the occurrences of byte value `i` in `s`.
pub open spec fn dist_of(s: Seq<u8>) -> Seq<u64> {
    Seq::new(256, |i: int| occ_bytes(s, i as u8) as u64)
}

/// Coverage: the fraction of the 256 byte values seen at least once.
pub open spec fn coverage_score(c: u64, d: Seq<u64>) -> Score {
    if c == 0 {
        zero_score()
    } else {
        Score { num: count_nonzero(d, 256) as u128, den: 256 }
    }
}

/// Uniqueness: the fraction of byte values whose occurrence count is
/// shared by no other byte value.
pub open spec fn uniqueness_score(c: u64, d: Seq<u64>) -> Score {
    if c == 0 {
        zero_score()
    } else {
        Score { num: count_unique(d, 256) as u128, den: 256 }
    }
}

/// Amplitude: the least-frequent byte value's count over the
/// most-frequent one's. An engine that has ingested nothing reports the
/// zero score rather than the undefined ratio 0/0.
pub open spec fn amplitude_score(c: u64, d: Seq<u64>) -> Score {
    if c == 0 {
        zero_score()
    } else if max_count(d, 256) == 0 {
        zero_score()
    } else {
        Score { num: min_count(d, 256) as u128, den: max_count(d, 256) as u128 }
    }
}

/// Number of significant buckets strictly below the largest significant
/// bucket, plus one for that boundary bucket itself.
pub open spec fn populated_intervals(c: u64, iv: Seq<u64>) -> int {
    1 + count_significant(iv, threshold(c), max_significant(iv, threshold(c), 65536))
}

/// Interval continuity: how contiguously the significant gap lengths
/// fill the range up to the largest one, capped at 512 buckets.
pub open spec fn continuity_score(c: u64, iv: Seq<u64>) -> Score {
    if c == 0 {
        zero_score()
    } else {
        Score {
            num: (if populated_intervals(c, iv) < 512 {
                populated_intervals(c, iv)
            } else {
                512int
            }) as u128,
            den: 512,
        }
    }
}

/// Interval amplitude: the largest significant gap length relative to
/// twice the byte-value space, capped at 1.
pub open spec fn interval_amplitude_score(c: u64, iv: Seq<u64>) -> Score {
    if c == 0 {
        zero_score()
    } else {
        Score {
            num: (if max_significant(iv, threshold(c), 65536) > 512 {
                512int
            } else {
                max_significant(iv, threshold(c), 65536)
            }) as u128,
            den: 512,
        }
    }
}

/// The frequency table after ingesting byte `v`: only entry `v`
/// changes, and it grows by exactly one.
pub open spec fn step_dist(d: Seq<u64>, v: u8) -> Seq<u64> {
    d.update(v as int, (d[v as int] + 1) as u64)
}

/// The interval histogram after recording a gap that falls in bucket
/// `g`: only that bucket changes, and it grows by exactly one.
pub open spec fn step_interval(iv: Seq<u64>, g: int) -> Seq<u64> {
    iv.update(g, (iv[g] + 1) as u64)
}

/// The histogram bucket hit by one ingestion: the distance from the
/// byte value's previous occurrence to the new counter value, wrapped
/// modulo 65536.
pub open spec fn gap_of(new_counter: u64, last: u64) -> int {
    (new_counter - last) % 65536
}

/// Composite score: twenty times the sum of the five sub-scores, put
/// over the common denominator `512 * max`.
pub open spec fn composite_score(c: u64, d: Seq<u64>, iv: Seq<u64>) -> Score {
    if c == 0 {
        zero_score()
    } else {
        let a = count_nonzero(d, 256);
        let b = count_unique(d, 256);
        let mn = min_count(d, 256);
        let mx = max_count(d, 256);
        let p = if populated_intervals(c, iv) < 512 {
            populated_intervals(c, iv)
        } else {
            512int
        };
        let q = if max_significant(iv, threshold(c), 65536) > 512 {
            512int
        } else {
            max_significant(iv, threshold(c), 65536)
        };
        if mx == 0 {
            Score { num: (20 * (2 * a + 2 * b + p + q)) as u128, den: 512 }
        } else {
            Score {
                num: (20 * ((2 * a + 2 * b + p + q) * mx + 512 * mn)) as u128,
                den: (512 * mx) as u128,
            }
        }
    }
}

/// At most `n` of the first `n` entries are nonzero.
pub proof fn lemma_count_nonzero_bounds(d: Seq<u64>, n: int)
    ensures
        0 <= count_nonzero(d, n),
        count_nonzero(d, n) <= n || n < 0,
    decreases n,
{
    if n > 0 {
        lemma_count_nonzero_bounds(d, n - 1);
    }
}

/// A value occurs between 0 and `n` times among the first `n` entries.
pub proof fn lemma_occ_of_bounds(d: Seq<u64>, x: u64, n: int)
    ensures
        0 <= occ_of(d, x, n),
        occ_of(d, x, n) <= n || n < 0,
    decreases n,
{
    if n > 0 {
        lemma_occ_of_bounds(d, x, n - 1);
    }
}

/// At most `n` of the first `n` entries hold a value unique in `d`.
pub proof fn lemma_count_unique_bounds(d: Seq<u64>, n: int)
    ensures
        0 <= count_unique(d, n),
        count_unique(d, n) <= n || n < 0,
    decreases n,
{
    if n > 0 {
        lemma_count_unique_bounds(d, n - 1);
    }
}

/// Over a nonempty prefix the smallest entry is nonnegative and does
/// not exceed the largest one.
pub proof fn lemma_min_le_max(d: Seq<u64>, n: int)
    requires
        n >= 1,
    ensures
        0 <= min_count(d, n),
        min_count(d, n) <= max_count(d, n),
        max_count(d, n) <= u64::MAX,
    decreases n,
{
    if n > 1 {
        lemma_min_le_max(d, n - 1);
    } else {
        assert(min_count(d, 0) == u64::MAX as int);
        assert(max_count(d, 0) == 0);
    }
}

/// A prefix with a positive sum holds a positive entry, so its largest
/// entry is positive.
pub proof fn lemma_sum_pos_max_pos(d: Seq<u64>, n: int)
    requires
        sum_counts(d, n) > 0,
    ensures
        max_count(d, n) > 0,
    decreases n,
{
    if n > 0 {
        if d[n - 1] > 0 {
        } else {
            lemma_sum_pos_max_pos(d, n - 1);
        }
    }
}

/// Updating one entry inside the summed prefix shifts the sum by the
/// difference between the new and the old entry.
pub proof fn lemma_sum_update(d: Seq<u64>, i: int, x: u64, n: int)
    requires
        0 <= i < n <= d.len(),
    ensures
        sum_counts(d.update(i, x), n) == sum_counts(d, n) - d[i] + x,
    decreases n,
{
    if i == n - 1 {
        lemma_sum_unchanged(d, d.update(i, x), n - 1);
    } else {
        lemma_sum_update(d, i, x, n - 1);
    }
}

/// Two sequences that agree on a prefix have the same prefix sum.
pub proof fn lemma_sum_unchanged(d1: Seq<u64>, d2: Seq<u64>, n: int)
    requires
        forall|j: int| 0 <= j < n ==> d1[j] == d2[j],
    ensures
        sum_counts(d1, n) == sum_counts(d2, n),
    decreases n,
{
    if n > 0 {
        lemma_sum_unchanged(d1, d2, n - 1);
    }
}

/// At most `n - 1` buckets among `1..n` are significant.
pub proof fn lemma_count_significant_bounds(iv: Seq<u64>, t: int, n: int)
    ensures
        0 <= count_significant(iv, t, n),
        count_significant(iv, t, n) <= n - 1 || n <= 1,
    decreases n,
{
    if n > 1 {
        lemma_count_significant_bounds(iv, t, n - 1);
    }
}

/// The largest significant bucket lies in `0..n`.
pub proof fn lemma_max_significant_bounds(iv: Seq<u64>, t: int, n: int)
    requires
        n >= 1,
    ensures
        0 <= max_significant(iv, t, n),
        max_significant(iv, t, n) < n,
    decreases n,
{
    if n > 1 {
        lemma_max_significant_bounds(iv, t, n - 1);
    }
}

/// A byte occurs between 0 and `s.len()` times in `s`.
pub proof fn lemma_occ_bytes_bounds(s: Seq<u8>, v: u8)
    ensures
        0 <= occ_bytes(s, v),
        occ_bytes(s, v) <= s.len(),
    decreases s.len(),
{
    if s.len() > 0 {
        lemma_occ_bytes_bounds(s.drop_last(), v);
    }
}

/// Appending one byte raises exactly its own occurrence count by one.
pub proof fn lemma_occ_bytes_push(s: Seq<u8>, v: u8, w: u8)
    ensures
        occ_bytes(s.push(w), v) == occ_bytes(s, v) + if v == w {
            1int
        } else {
            0int
        },
{
    assert(s.push(w).drop_last() =~= s);
    assert(s.push(w).last() == w);
}

/// The occurrence count of a byte equals its multiplicity in the
/// sequence's multiset.
pub proof fn lemma_occ_bytes_multiset(s: Seq<u8>, v: u8)
    ensures
        occ_bytes(s, v) == s.to_multiset().count(v),
    decreases s.len(),
{
    broadcast use group_to_multiset_ensures;

    if s.len() == 0 {
        assert(s.to_multiset() =~= Multiset::<u8>::empty());
    } else {
        let t = s.drop_last();
        let x = s.last();
        lemma_occ_bytes_multiset(t, v);
        assert(t.push(x) =~= s);
        assert(s.to_multiset() =~= t.to_multiset().insert(x));
        if v == x {
            lemma_insert_increases_count_by_1(t.to_multiset(), x);
        } else {
            lemma_insert_other_elements_unchanged(t.to_multiset(), x, v);
        }
    }
}

/// Two byte sequences holding the same bytes, in whatever order,
/// determine the same frequency table.
pub proof fn lemma_counts_permutation_invariant(s1: Seq<u8>, s2: Seq<u8>)
    requires
        s1.to_multiset() == s2.to_multiset(),
    ensures
        dist_of(s1) == dist_of(s2),
{
    assert forall|i: int| 0 <= i < 256 implies dist_of(s1)[i] == dist_of(s2)[i] by {
        lemma_occ_bytes_multiset(s1, i as u8);
        lemma_occ_bytes_multiset(s2, i as u8);
    }
    assert(dist_of(s1) =~= dist_of(s2));
}

/// Coverage, uniqueness and amplitude depend only on which bytes were
/// ingested, never on their order: two streams that are permutations of
/// one another yield the same three frequency-derived scores.
pub proof fn lemma_frequency_scores_order_insensitive(c: u64, s1: Seq<u8>, s2: Seq<u8>)
    requires
        s1.to_multiset() == s2.to_multiset(),
    ensures
        coverage_score(c, dist_of(s1)) == coverage_score(c, dist_of(s2)),
        uniqueness_score(c, dist_of(s1)) == uniqueness_score(c, dist_of(s2)),
        amplitude_score(c, dist_of(s1)) == amplitude_score(c, dist_of(s2)),
{
    lemma_counts_permutation_invariant(s1, s2);
}

/// Ingesting a byte never lowers a frequency-table entry; the entry for
/// that byte grows by exactly one and the others stay put.
pub proof fn lemma_step_dist_monotonic(d: Seq<u64>, v: u8)
    requires
        d.len() == 256,
        d[v as int] < u64::MAX,
    ensures
        step_dist(d, v).len() == 256,
        forall|i: int| 0 <= i < 256 ==> step_dist(d, v)[i] >= d[i],
        step_dist(d, v)[v as int] == d[v as int] + 1,
        forall|i: int| 0 <= i < 256 && i != v as int ==> step_dist(d, v)[i] == d[i],
{
}

/// Recording a gap never lowers an interval-histogram bucket; the
/// bucket hit grows by exactly one and the others stay put.
pub proof fn lemma_step_interval_monotonic(iv: Seq<u64>, g: int)
    requires
        iv.len() == 65536,
        0 <= g < 65536,
        iv[g] < u64::MAX,
    ensures
        step_interval(iv, g).len() == 65536,
        forall|i: int| 0 <= i < 65536 ==> step_interval(iv, g)[i] >= iv[i],
        step_interval(iv, g)[g] == iv[g] + 1,
        forall|i: int| 0 <= i < 65536 && i != g ==> step_interval(iv, g)[i] == iv[i],
{
}

/// The coverage sub-score always lies in [0, 1].
pub proof fn lemma_coverage_in_unit(c: u64, d: Seq<u64>)
    requires
        d.len() == 256,
    ensures
        coverage_score(c, d).in_unit(),
{
    lemma_count_nonzero_bounds(d, 256);
}

/// The uniqueness sub-score always lies in [0, 1].
pub proof fn lemma_uniqueness_in_unit(c: u64, d: Seq<u64>)
    requires
        d.len() == 256,
    ensures
        uniqueness_score(c, d).in_unit(),
{
    lemma_count_unique_bounds(d, 256);
}

/// The amplitude sub-score always lies in [0, 1].
pub proof fn lemma_amplitude_in_unit(c: u64, d: Seq<u64>)
    requires
        d.len() == 256,
    ensures
        amplitude_score(c, d).in_unit(),
{
    lemma_min_le_max(d, 256);
}

/// The interval-continuity sub-score always lies in [0, 1].
pub proof fn lemma_continuity_in_unit(c: u64, iv: Seq<u64>)
    ensures
        continuity_score(c, iv).in_unit(),
{
    lemma_max_significant_bounds(iv, threshold(c), 65536);
    lemma_count_significant_bounds(iv, threshold(c), max_significant(iv, threshold(c), 65536));
}

/// The interval-amplitude sub-score always lies in [0, 1].
pub proof fn lemma_interval_amplitude_in_unit(c: u64, iv: Seq<u64>)
    ensures
        interval_amplitude_score(c, iv).in_unit(),
{
    lemma_max_significant_bounds(iv, threshold(c), 65536);
}

/// The composite score always lies in [0, 100].
pub proof fn lemma_composite_in_range(c: u64, d: Seq<u64>, iv: Seq<u64>)
    requires
        d.len() == 256,
    ensures
        composite_score(c, d, iv).in_composite_range(),
{
    if c != 0 {
        let a = count_nonzero(d, 256);
        let b = count_unique(d, 256);
        let mn = min_count(d, 256);
        let mx = max_count(d, 256);
        let p = if populated_intervals(c, iv) < 512 {
            populated_intervals(c, iv)
        } else {
            512int
        };
        let q = if max_significant(iv, threshold(c), 65536) > 512 {
            512int
        } else {
            max_significant(iv, threshold(c), 65536)
        };
        lemma_count_nonzero_bounds(d, 256);
        lemma_count_unique_bounds(d, 256);
        lemma_min_le_max(d, 256);
        lemma_max_significant_bounds(iv, threshold(c), 65536);
        lemma_count_significant_bounds(iv, threshold(c), max_significant(iv, threshold(c), 65536));
        assert(0 <= 2 * a + 2 * b + p + q <= 2048);
        if mx > 0 {
            lemma_mul_inequality(2 * a + 2 * b + p + q, 2048, mx);
            assert((2 * a + 2 * b + p + q) * mx <= 2048 * mx);
            assert(0 <= (2 * a + 2 * b + p + q) * mx) by (nonlinear_arith)
                requires
                    0 <= 2 * a + 2 * b + p + q,
                    0 < mx,
            ;
            assert(20 * ((2 * a + 2 * b + p + q) * mx + 512 * mn) <= 20 * (2048 * mx + 512 * mx));
            assert(20 * (2048 * mx + 512 * mx) == 100 * (512 * mx));
        }
    }
}

} // verus!
