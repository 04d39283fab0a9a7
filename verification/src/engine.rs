//! The byte statistics engine.
use vstd::prelude::*;

use vstd::string::StringExecFns;

use crate::digits::{push_score, scores_text};
use crate::score::Score;
use crate::stats::{
    amplitude_score, composite_score, continuity_score, count_nonzero, count_significant,
    count_unique, coverage_score, dist_of, gap_of, interval_amplitude_score,
    lemma_amplitude_in_unit, lemma_composite_in_range, lemma_continuity_in_unit,
    lemma_coverage_in_unit, lemma_interval_amplitude_in_unit, lemma_max_significant_bounds,
    lemma_min_le_max, lemma_occ_bytes_bounds, lemma_occ_bytes_push, lemma_sum_pos_max_pos,
    lemma_sum_update, lemma_uniqueness_in_unit, max_count, max_significant, min_count, occ_bytes,
    occ_of, populated_intervals, step_dist, step_interval, sum_counts, threshold,
    uniqueness_score,
};

verus! {

/// Streaming randomness estimator over a byte stream.
///
/// Bytes enter through [`Bytestat::analyze`], one at a time and in true
/// arrival order. Five sub-scores and a composite score can be queried
/// at any point; they are recomputed lazily, only when a query finds
/// the cached snapshot stale, and the cache stays valid until the next
/// byte arrives.
pub struct Bytestat {
    /// Total number of bytes ingested.
    counter: u64,
    /// Frequency table: occurrences of each of the 256 byte values.
    dist: Vec<u64>,
    /// Interval histogram: occurrences of each inter-occurrence gap,
    /// taken modulo 65536.
    interval: Vec<u64>,
    /// Sample-counter value at each byte value's most recent
    /// occurrence; 0 if never seen.
    last: Vec<u64>,
    /// Sample-counter value at which the cached scores were computed.
    score_counter: u64,
    /// Cached coverage sub-score.
    score_non_zero: Score,
    /// Cached uniqueness sub-score.
    score_unique: Score,
    /// Cached amplitude sub-score.
    score_amplitude: Score,
    /// Cached interval-continuity sub-score.
    score_interval_continuity: Score,
    /// Cached interval-amplitude sub-score.
    score_interval_amplitude: Score,
    /// Cached composite score.
    score: Score,
    /// The ingested bytes, in arrival order (model only).
    bytes: Ghost<Seq<u8>>,
}

impl Bytestat {
    /// Total number of bytes ingested so far.
    pub closed spec fn counter(self) -> u64 {
        self.counter
    }

    /// The frequency table.
    pub closed spec fn counts(self) -> Seq<u64> {
        self.dist@
    }

    /// The interval histogram.
    pub closed spec fn intervals(self) -> Seq<u64> {
        self.interval@
    }

    /// The last-seen table.
    pub closed spec fn last_seen(self) -> Seq<u64> {
        self.last@
    }

    /// The bytes ingested so far, in arrival order.
    pub closed spec fn ingested(self) -> Seq<u8> {
        self.bytes@
    }

    /// The cached score snapshot is valid for the current counter.
    pub closed spec fn fresh(self) -> bool {
        self.score_counter == self.counter
    }

    /// Well-formedness: table sizes, the tie between the tables and the
    /// ingested bytes, counter bounds, and validity of the cached
    /// snapshot whenever it is fresh.
    pub closed spec fn wf(self) -> bool {
        &&& self.dist@.len() == 256
        &&& self.last@.len() == 256
        &&& self.interval@.len() == 65536
        &&& self.score_counter <= self.counter
        &&& self.counter as int == self.bytes@.len()
        &&& self.dist@ == dist_of(self.bytes@)
        &&& sum_counts(self.dist@, 256) == self.counter
        &&& (forall|i: int| 0 <= i < 256 ==> self.dist@[i] <= self.counter)
        &&& (forall|i: int| 0 <= i < 256 ==> self.last@[i] <= self.counter)
        &&& (forall|g: int| 0 <= g < 65536 ==> self.interval@[g] <= self.counter)
        &&& (self.score_counter == self.counter ==> {
            &&& self.score_non_zero == coverage_score(self.counter, self.dist@)
            &&& self.score_unique == uniqueness_score(self.counter, self.dist@)
            &&& self.score_amplitude == amplitude_score(self.counter, self.dist@)
            &&& self.score_interval_continuity == continuity_score(self.counter, self.interval@)
            &&& self.score_interval_amplitude == interval_amplitude_score(
                self.counter,
                self.interval@,
            )
            &&& self.score == composite_score(self.counter, self.dist@, self.interval@)
        })
    }

    /// Create a fresh engine with all accumulators zeroed.
    pub fn new() -> (r: Bytestat)
        ensures
            r.wf(),
            r.counter() == 0,
            r.ingested() == Seq::<u8>::empty(),
            r.fresh(),
            forall|i: int| 0 <= i < 256 ==> r.counts()[i] == 0,
            forall|i: int| 0 <= i < 256 ==> r.last_seen()[i] == 0,
            forall|g: int| 0 <= g < 65536 ==> r.intervals()[g] == 0,
    {
        let r = Bytestat {
            counter: 0,
            dist: zeroed(256),
            interval: zeroed(65536),
            last: zeroed(256),
            score_counter: 0,
            score_non_zero: Score { num: 0, den: 1 },
            score_unique: Score { num: 0, den: 1 },
            score_amplitude: Score { num: 0, den: 1 },
            score_interval_continuity: Score { num: 0, den: 1 },
            score_interval_amplitude: Score { num: 0, den: 1 },
            score: Score { num: 0, den: 1 },
            bytes: Ghost(Seq::empty()),
        };
        proof {
            assert(r.dist@ =~= dist_of(r.bytes@)) by {
                assert forall|i: int| 0 <= i < 256 implies r.dist@[i] == dist_of(r.bytes@)[i] by {
                    assert(occ_bytes(r.bytes@, i as u8) == 0);
                }
            }
            lemma_sum_all_zero(r.dist@, 256);
        }
        r
    }

    /// Ingest one byte. Bytes must be supplied in true arrival order;
    /// the engine cannot detect reordering, which silently invalidates
    /// the interval-derived scores.
    ///
    /// The sample counter grows by exactly one, the frequency-table
    /// entry for `value` grows by exactly one, the interval-histogram
    /// bucket for the wrapped gap since `value` last occurred grows by
    /// exactly one, and `value`'s last-seen mark moves to the new
    /// counter; no other entry changes. The cached score snapshot
    /// becomes stale.
    pub fn analyze(&mut self, value: u8)
        requires
            old(self).wf(),
            old(self).counter() < u64::MAX,
        ensures
            final(self).wf(),
            final(self).counter() == old(self).counter() + 1,
            final(self).ingested() == old(self).ingested().push(value),
            final(self).counts() == step_dist(old(self).counts(), value),
            final(self).intervals() == step_interval(
                old(self).intervals(),
                gap_of((old(self).counter() + 1) as u64, old(self).last_seen()[value as int]),
            ),
            final(self).last_seen() == old(self).last_seen().update(
                value as int,
                (old(self).counter() + 1) as u64,
            ),
            !final(self).fresh(),
    {
        proof {
            lemma_occ_bytes_bounds(self.bytes@, value);
        }
        self.counter = self.counter + 1;
        let v = value as usize;
        let c = self.dist[v];
        self.dist[v] = c + 1;
        let gap: u64 = (self.counter - self.last[v]) % 65536;
        let gi = gap as usize;
        let ic = self.interval[gi];
        self.interval[gi] = ic + 1;
        self.last[v] = self.counter;
        proof {
            let old_bytes = self.bytes@;
            self.bytes@ = self.bytes@.push(value);
            assert forall|i: int| 0 <= i < 256 implies self.dist@[i] == dist_of(self.bytes@)[i] by {
                lemma_occ_bytes_push(old_bytes, i as u8, value);
                lemma_occ_bytes_bounds(old_bytes, i as u8);
            }
            assert(self.dist@ =~= dist_of(self.bytes@));
            lemma_sum_update(old(self).counts(), value as int, (c + 1) as u64, 256);
        }
    }

    /// Recompute the cached score snapshot if it is stale; afterwards
    /// it is valid for the current counter. The accumulators are left
    /// untouched.
    fn update_scores(&mut self)
        requires
            old(self).wf(),
        ensures
            final(self).wf(),
            final(self).fresh(),
            final(self).counter() == old(self).counter(),
            final(self).counts() == old(self).counts(),
            final(self).intervals() == old(self).intervals(),
            final(self).last_seen() == old(self).last_seen(),
            final(self).ingested() == old(self).ingested(),
    {
        if self.score_counter == self.counter {
            return ;
        }
        let (cov, unq, amp, cont, iamp, comp) = compute_scores(
            self.counter,
            &self.dist,
            &self.interval,
        );
        self.score_non_zero = cov;
        self.score_unique = unq;
        self.score_amplitude = amp;
        self.score_interval_continuity = cont;
        self.score_interval_amplitude = iamp;
        self.score = comp;
        self.score_counter = self.counter;
    }

    /// Coverage sub-score: the fraction of the 256 byte values seen at
    /// least once. Recomputes the snapshot only if it is stale.
    pub fn get_score_non_zero(&mut self) -> (r: Score)
        requires
            old(self).wf(),
        ensures
            final(self).wf(),
            final(self).fresh(),
            final(self).counter() == old(self).counter(),
            final(self).counts() == old(self).counts(),
            final(self).intervals() == old(self).intervals(),
            final(self).last_seen() == old(self).last_seen(),
            final(self).ingested() == old(self).ingested(),
            r == coverage_score(old(self).counter(), old(self).counts()),
            r.in_unit(),
    {
        self.update_scores();
        proof {
            lemma_coverage_in_unit(self.counter, self.dist@);
        }
        self.score_non_zero
    }

    /// Uniqueness sub-score: the fraction of byte values whose
    /// occurrence count is shared by no other byte value. Recomputes
    /// the snapshot only if it is stale.
    pub fn get_score_unique(&mut self) -> (r: Score)
        requires
            old(self).wf(),
        ensures
            final(self).wf(),
            final(self).fresh(),
            final(self).counter() == old(self).counter(),
            final(self).counts() == old(self).counts(),
            final(self).intervals() == old(self).intervals(),
            final(self).last_seen() == old(self).last_seen(),
            final(self).ingested() == old(self).ingested(),
            r == uniqueness_score(old(self).counter(), old(self).counts()),
            r.in_unit(),
    {
        self.update_scores();
        proof {
            lemma_uniqueness_in_unit(self.counter, self.dist@);
        }
        self.score_unique
    }

    /// Amplitude sub-score: the least-frequent byte value's count over
    /// the most-frequent one's; the zero score before any byte has
    /// been ingested. Recomputes the snapshot only if it is stale.
    pub fn get_score_amplitude(&mut self) -> (r: Score)
        requires
            old(self).wf(),
        ensures
            final(self).wf(),
            final(self).fresh(),
            final(self).counter() == old(self).counter(),
            final(self).counts() == old(self).counts(),
            final(self).intervals() == old(self).intervals(),
            final(self).last_seen() == old(self).last_seen(),
            final(self).ingested() == old(self).ingested(),
            r == amplitude_score(old(self).counter(), old(self).counts()),
            r.in_unit(),
    {
        self.update_scores();
        proof {
            lemma_amplitude_in_unit(self.counter, self.dist@);
        }
        self.score_amplitude
    }

    /// Interval-continuity sub-score: how contiguously the significant
    /// gap lengths fill the range up to the largest one. Recomputes the
    /// snapshot only if it is stale.
    pub fn get_score_interval_continuity(&mut self) -> (r: Score)
        requires
            old(self).wf(),
        ensures
            final(self).wf(),
            final(self).fresh(),
            final(self).counter() == old(self).counter(),
            final(self).counts() == old(self).counts(),
            final(self).intervals() == old(self).intervals(),
            final(self).last_seen() == old(self).last_seen(),
            final(self).ingested() == old(self).ingested(),
            r == continuity_score(old(self).counter(), old(self).intervals()),
            r.in_unit(),
    {
        self.update_scores();
        proof {
            lemma_continuity_in_unit(self.counter, self.interval@);
        }
        self.score_interval_continuity
    }

    /// Interval-amplitude sub-score: the largest significant gap
    /// length relative to twice the byte-value space, capped at 1.
    /// Recomputes the snapshot only if it is stale.
    pub fn get_score_interval_amplitude(&mut self) -> (r: Score)
        requires
            old(self).wf(),
        ensures
            final(self).wf(),
            final(self).fresh(),
            final(self).counter() == old(self).counter(),
            final(self).counts() == old(self).counts(),
            final(self).intervals() == old(self).intervals(),
            final(self).last_seen() == old(self).last_seen(),
            final(self).ingested() == old(self).ingested(),
            r == interval_amplitude_score(old(self).counter(), old(self).intervals()),
            r.in_unit(),
    {
        self.update_scores();
        proof {
            lemma_interval_amplitude_in_unit(self.counter, self.interval@);
        }
        self.score_interval_amplitude
    }

    /// Composite score: twenty times the sum of the five sub-scores,
    /// in [0, 100]. Recomputes the snapshot only if it is stale.
    pub fn get_score(&mut self) -> (r: Score)
        requires
            old(self).wf(),
        ensures
            final(self).wf(),
            final(self).fresh(),
            final(self).counter() == old(self).counter(),
            final(self).counts() == old(self).counts(),
            final(self).intervals() == old(self).intervals(),
            final(self).last_seen() == old(self).last_seen(),
            final(self).ingested() == old(self).ingested(),
            r == composite_score(old(self).counter(), old(self).counts(), old(self).intervals()),
            r.in_composite_range(),
    {
        self.update_scores();
        proof {
            lemma_composite_in_range(self.counter, self.dist@, self.interval@);
        }
        self.score
    }

    /// All six scores in the fixed reporting order: coverage,
    /// uniqueness, amplitude, interval continuity, interval amplitude,
    /// composite. Recomputes the snapshot only if it is stale.
    pub fn get_scores_array(&mut self) -> (r: [Score; 6])
        requires
            old(self).wf(),
        ensures
            final(self).wf(),
            final(self).fresh(),
            final(self).counter() == old(self).counter(),
            final(self).counts() == old(self).counts(),
            final(self).intervals() == old(self).intervals(),
            final(self).last_seen() == old(self).last_seen(),
            final(self).ingested() == old(self).ingested(),
            r@ == seq![
                coverage_score(old(self).counter(), old(self).counts()),
                uniqueness_score(old(self).counter(), old(self).counts()),
                amplitude_score(old(self).counter(), old(self).counts()),
                continuity_score(old(self).counter(), old(self).intervals()),
                interval_amplitude_score(old(self).counter(), old(self).intervals()),
                composite_score(old(self).counter(), old(self).counts(), old(self).intervals()),
            ],
    {
        self.update_scores();
        let r = [
            self.score_non_zero,
            self.score_unique,
            self.score_amplitude,
            self.score_interval_continuity,
            self.score_interval_amplitude,
            self.score,
        ];
        assert(r@ =~= seq![
            coverage_score(old(self).counter(), old(self).counts()),
            uniqueness_score(old(self).counter(), old(self).counts()),
            amplitude_score(old(self).counter(), old(self).counts()),
            continuity_score(old(self).counter(), old(self).intervals()),
            interval_amplitude_score(old(self).counter(), old(self).intervals()),
            composite_score(old(self).counter(), old(self).counts(), old(self).intervals()),
        ]);
        r
    }

    /// The six scores in the fixed reporting order, each rendered as
    /// `numerator/denominator` in decimal, joined by the caller's
    /// separator. Recomputes the snapshot only if it is stale.
    pub fn get_scores_string(&mut self, seperator: &str) -> (r: String)
        requires
            old(self).wf(),
        ensures
            final(self).wf(),
            final(self).fresh(),
            final(self).counter() == old(self).counter(),
            final(self).counts() == old(self).counts(),
            final(self).intervals() == old(self).intervals(),
            final(self).last_seen() == old(self).last_seen(),
            final(self).ingested() == old(self).ingested(),
            r@ == scores_text(
                coverage_score(old(self).counter(), old(self).counts()),
                uniqueness_score(old(self).counter(), old(self).counts()),
                amplitude_score(old(self).counter(), old(self).counts()),
                continuity_score(old(self).counter(), old(self).intervals()),
                interval_amplitude_score(old(self).counter(), old(self).intervals()),
                composite_score(old(self).counter(), old(self).counts(), old(self).intervals()),
                seperator@,
            ),
    {
        self.update_scores();
        let mut answer = String::new();
        push_score(&mut answer, self.score_non_zero);
        answer.append(seperator);
        push_score(&mut answer, self.score_unique);
        answer.append(seperator);
        push_score(&mut answer, self.score_amplitude);
        answer.append(seperator);
        push_score(&mut answer, self.score_interval_continuity);
        answer.append(seperator);
        push_score(&mut answer, self.score_interval_amplitude);
        answer.append(seperator);
        push_score(&mut answer, self.score);
        assert(answer@ =~= scores_text(
            coverage_score(old(self).counter(), old(self).counts()),
            uniqueness_score(old(self).counter(), old(self).counts()),
            amplitude_score(old(self).counter(), old(self).counts()),
            continuity_score(old(self).counter(), old(self).intervals()),
            interval_amplitude_score(old(self).counter(), old(self).intervals()),
            composite_score(old(self).counter(), old(self).counts(), old(self).intervals()),
            seperator@,
        ));
        answer
    }
}

/// What a well-formed engine's accumulators always satisfy: the tables
/// have their fixed sizes, the counter equals the number of bytes
/// ingested, the frequency table is exactly the occurrence count of
/// each byte value in the ingested stream, and the frequency-table
/// entries sum to the counter.
pub proof fn lemma_wf_model(e: Bytestat)
    requires
        e.wf(),
    ensures
        e.counts().len() == 256,
        e.last_seen().len() == 256,
        e.intervals().len() == 65536,
        e.counter() == e.ingested().len(),
        e.counts() == dist_of(e.ingested()),
        sum_counts(e.counts(), 256) == e.counter(),
{
}

/// The scores an engine reports are a function of its accumulators
/// alone: two engines holding the same counter, frequency table and
/// interval histogram report the same six scores, however they got
/// there. In particular, repeated queries with no ingestion in between
/// return identical values.
pub proof fn lemma_scores_deterministic(e1: Bytestat, e2: Bytestat)
    requires
        e1.counter() == e2.counter(),
        e1.counts() == e2.counts(),
        e1.intervals() == e2.intervals(),
    ensures
        coverage_score(e1.counter(), e1.counts()) == coverage_score(e2.counter(), e2.counts()),
        uniqueness_score(e1.counter(), e1.counts()) == uniqueness_score(e2.counter(), e2.counts()),
        amplitude_score(e1.counter(), e1.counts()) == amplitude_score(e2.counter(), e2.counts()),
        continuity_score(e1.counter(), e1.intervals()) == continuity_score(
            e2.counter(),
            e2.intervals(),
        ),
        interval_amplitude_score(e1.counter(), e1.intervals()) == interval_amplitude_score(
            e2.counter(),
            e2.intervals(),
        ),
        composite_score(e1.counter(), e1.counts(), e1.intervals()) == composite_score(
            e2.counter(),
            e2.counts(),
            e2.intervals(),
        ),
{
}

/// Derive all six scores from the accumulators of a stream that has
/// ingested at least one byte.
fn compute_scores(c: u64, dist: &Vec<u64>, iv: &Vec<u64>) -> (r: (
    Score,
    Score,
    Score,
    Score,
    Score,
    Score,
))
    requires
        c > 0,
        dist@.len() == 256,
        iv@.len() == 65536,
        sum_counts(dist@, 256) == c as int,
    ensures
        r.0 == coverage_score(c, dist@),
        r.1 == uniqueness_score(c, dist@),
        r.2 == amplitude_score(c, dist@),
        r.3 == continuity_score(c, iv@),
        r.4 == interval_amplitude_score(c, iv@),
        r.5 == composite_score(c, dist@, iv@),
{
    // Coverage: how many byte values have been seen at all.
    let mut nz: u64 = 0;
    for x in 0..256usize
        invariant
            dist@.len() == 256,
            nz as int == count_nonzero(dist@, x as int),
            nz as int <= x as int,
    {
        if dist[x] > 0 {
            nz = nz + 1;
        }
    }
    // Uniqueness: how many byte values have a count shared by no other.
    let mut uniq: u64 = 0;
    for x in 0..256usize
        invariant
            dist@.len() == 256,
            uniq as int == count_unique(dist@, x as int),
            uniq as int <= x as int,
    {
        let cx = dist[x];
        let mut occ: u64 = 0;
        for j in 0..256usize
            invariant
                dist@.len() == 256,
                x < 256,
                cx == dist@[x as int],
                occ as int == occ_of(dist@, cx, j as int),
                occ as int <= j as int,
        {
            if dist[j] == cx {
                occ = occ + 1;
            }
        }
        if occ == 1 {
            uniq = uniq + 1;
        }
    }
    // Amplitude: least frequent over most frequent.
    let mut mn: u64 = u64::MAX;
    let mut mx: u64 = 0;
    for x in 0..256usize
        invariant
            dist@.len() == 256,
            mn as int == min_count(dist@, x as int),
            mx as int == max_count(dist@, x as int),
    {
        let dx = dist[x];
        if dx < mn {
            mn = dx;
        }
        if dx > mx {
            mx = dx;
        }
    }
    proof {
        lemma_sum_pos_max_pos(dist@, 256);
        lemma_min_le_max(dist@, 256);
    }
    // Largest significant interval bucket.
    let t: u64 = c / 4096;
    let mut imax: usize = 0;
    for x in 1..65536usize
        invariant
            iv@.len() == 65536,
            t as int == threshold(c),
            imax as int == max_significant(iv@, t as int, x as int),
            imax < x,
    {
        if iv[x] > t {
            if x > imax {
                imax = x;
            }
        }
    }
    // How many buckets below the largest significant one are
    // themselves significant; the boundary bucket counts as one.
    let mut pop: u64 = 1;
    let mut x: usize = 1;
    while x < imax
        invariant
            iv@.len() == 65536,
            imax < 65536,
            t as int == threshold(c),
            1 <= x,
            x <= imax || x == 1,
            pop as int == 1 + count_significant(iv@, t as int, x as int),
            pop as int <= x as int,
        decreases imax as int - x as int,
    {
        if iv[x] > t {
            pop = pop + 1;
        }
        x = x + 1;
    }
    proof {
        if imax <= 1 {
            assert(count_significant(iv@, t as int, 1) == 0);
            assert(count_significant(iv@, t as int, imax as int) == 0);
            assert(pop == 1);
        } else {
            assert(x == imax);
        }
        assert(pop as int == populated_intervals(c, iv@));
    }
    let p: u64 = if pop < 512 {
        pop
    } else {
        512
    };
    let q: u64 = if imax > 512 {
        512
    } else {
        imax as u64
    };
    let cov = Score { num: nz as u128, den: 256 };
    let unq = Score { num: uniq as u128, den: 256 };
    let amp = Score { num: mn as u128, den: mx as u128 };
    let cont = Score { num: p as u128, den: 512 };
    let iamp = Score { num: q as u128, den: 512 };
    // Composite: twenty times the sum of the five sub-scores over the
    // common denominator 512 * mx.
    let fa: u128 = 2 * (nz as u128) + 2 * (uniq as u128) + (p as u128) + (q as u128);
    proof {
        lemma_max_significant_bounds(iv@, t as int, 65536);
        assert(fa <= 2048);
        assert(fa * (mx as u128) <= 2048 * 0xffff_ffff_ffff_ffffu128) by (nonlinear_arith)
            requires
                fa <= 2048,
                mx <= 0xffff_ffff_ffff_ffffu64,
        ;
    }
    let num: u128 = 20 * (fa * (mx as u128) + 512 * (mn as u128));
    let den: u128 = 512 * (mx as u128);
    let comp = Score { num, den };
    proof {
        let a = count_nonzero(dist@, 256);
        let b = count_unique(dist@, 256);
        let ps = if populated_intervals(c, iv@) < 512 {
            populated_intervals(c, iv@)
        } else {
            512int
        };
        let qs = if max_significant(iv@, threshold(c), 65536) > 512 {
            512int
        } else {
            max_significant(iv@, threshold(c), 65536)
        };
        assert(fa as int == 2 * a + 2 * b + ps + qs);
        assert(num as int == 20 * ((2 * a + 2 * b + ps + qs) * (mx as int) + 512 * (mn as int)));
        assert(comp == composite_score(c, dist@, iv@));
    }
    (cov, unq, amp, cont, iamp, comp)
}

/// A vector of `n` zeroed counters.
fn zeroed(n: usize) -> (v: Vec<u64>)
    ensures
        v@.len() == n,
        forall|i: int| 0 <= i < n ==> v@[i] == 0,
{
    let mut v: Vec<u64> = Vec::new();
    for k in 0..n
        invariant
            v@.len() == k,
            forall|i: int| 0 <= i < k ==> v@[i] == 0,
    {
        v.push(0);
    }
    v
}

/// A sequence whose first `n` entries are all zero sums to zero.
proof fn lemma_sum_all_zero(d: Seq<u64>, n: int)
    requires
        0 <= n <= d.len(),
        forall|i: int| 0 <= i < n ==> d[i] == 0,
    ensures
        sum_counts(d, n) == 0,
    decreases n,
{
    if n > 0 {
        lemma_sum_all_zero(d, n - 1);
    }
}

} // verus!
