//! Drawing an index with probability proportional to its weight.
use crate::error::SimulationError;
use crate::random::Random;
use vstd::prelude::*;

verus! {

/// Weights are fixed-point numbers: this many units make one.
pub const WEIGHT_UNIT: u64 = 1000;

/// Added to every weight (a tenth of a unit) so that no index is ever
/// unselectable.
pub const WEIGHT_OFFSET: u64 = 100;

/// The sum of the first `n` weights, each raised by the offset.
pub open spec fn offset_total(weights: Seq<u64>, n: int) -> int
    decreases n,
{
    if n <= 0 {
        0
    } else {
        offset_total(weights, n - 1) + weights[n - 1] + WEIGHT_OFFSET
    }
}

/// Offset totals grow strictly with the number of weights summed.
pub proof fn lemma_offset_total_increasing(weights: Seq<u64>, n: int, m: int)
    requires
        0 <= n < m,
    ensures
        offset_total(weights, n) < offset_total(weights, m),
        0 <= offset_total(weights, n),
    decreases m - n,
{
    if n + 1 < m {
        lemma_offset_total_increasing(weights, n, m - 1);
    } else {
        lemma_offset_total_nonneg(weights, n);
    }
}

/// Offset totals are never negative.
pub proof fn lemma_offset_total_nonneg(weights: Seq<u64>, n: int)
    ensures
        0 <= offset_total(weights, n),
    decreases n,
{
    if n > 0 {
        lemma_offset_total_nonneg(weights, n - 1);
    }
}

/// The draw `value` selects index `i` of `weights`: it lies among the offset
/// weight's share of `[0, total)` that belongs to `i`.
pub open spec fn picks(weights: Seq<u64>, value: int, i: int) -> bool {
    &&& 0 <= i < weights.len()
    &&& offset_total(weights, i) <= value < offset_total(weights, i + 1)
}

/// The index of `weights` that the draw `value` selects.
pub open spec fn pick(weights: Seq<u64>, value: int) -> int {
    choose|i: int| picks(weights, value, i)
}

/// A draw selects at most one index, so `pick` names the one it selects.
pub proof fn lemma_pick_unique(weights: Seq<u64>, value: int, i: int)
    requires
        picks(weights, value, i),
    ensures
        pick(weights, value) == i,
{
    let j = pick(weights, value);
    assert(picks(weights, value, j));
    if j < i {
        if j + 1 < i {
            lemma_offset_total_increasing(weights, j + 1, i);
        }
    }
    if i < j {
        if i + 1 < j {
            lemma_offset_total_increasing(weights, i + 1, j);
        }
    }
}

/// A sampler over weights `w[0..n)`: index `i` is drawn with probability
/// `(w[i] + WEIGHT_OFFSET) / sum_k (w[k] + WEIGHT_OFFSET)`.
pub struct WeightedIndices {
    cumulative: Vec<u64>,
}

impl WeightedIndices {
    /// The running totals of the offset weights.
    pub closed spec fn cumulative(&self) -> Seq<u64> {
        self.cumulative@
    }

    /// Number of indices the sampler draws from.
    pub open spec fn len(&self) -> nat {
        self.cumulative().len()
    }

    /// The least draw in `[0, total)` that selects index `i`; the draws that
    /// select it are `[lower(i), cumulative[i])`.
    pub open spec fn lower(&self, i: int) -> int {
        if i == 0 {
            0
        } else {
            self.cumulative()[i - 1] as int
        }
    }

    /// At least one index, and strictly increasing positive running totals.
    pub open spec fn wf(&self) -> bool {
        &&& self.len() > 0
        &&& forall|i: int, j: int|
            0 <= i < j < self.len() ==> #[trigger] self.cumulative()[i]
                < #[trigger] self.cumulative()[j]
        &&& self.cumulative()[0] > 0
    }

    /// The sum of all offset weights.
    pub open spec fn total(&self) -> int {
        self.cumulative()[self.len() - 1] as int
    }

    /// Builds a sampler over `weights`, each raised by `WEIGHT_OFFSET`.
    pub fn create(weights: &Vec<u64>) -> (r: Result<WeightedIndices, SimulationError>)
        ensures
            weights@.len() == 0 <==> r == Err::<WeightedIndices, SimulationError>(
                SimulationError::EmptyWeights,
            ),
            weights@.len() > 0 && offset_total(weights@, weights@.len() as int) > u64::MAX
                <==> r == Err::<WeightedIndices, SimulationError>(
                SimulationError::WeightOverflow,
            ),
            r is Ok <==> weights@.len() > 0 && offset_total(weights@, weights@.len() as int)
                <= u64::MAX,
            r is Ok ==> {
                let s = r->Ok_0;
                &&& s.wf()
                &&& s.len() == weights@.len()
                &&& forall|i: int|
                    0 <= i < s.len() ==> #[trigger] s.cumulative()[i] == offset_total(
                        weights@,
                        i + 1,
                    )
            },
    {
        if weights.len() == 0 {
            return Err(SimulationError::EmptyWeights);
        }
        let mut cumulative: Vec<u64> = Vec::with_capacity(weights.len());
        let mut total: u64 = 0;
        let mut i: usize = 0;
        while i < weights.len()
            invariant
                i <= weights@.len(),
                cumulative@.len() == i,
                total == offset_total(weights@, i as int),
                forall|k: int|
                    0 <= k < i ==> #[trigger] cumulative@[k] == offset_total(weights@, k + 1),
            decreases weights@.len() - i,
        {
            let w = weights[i];
            if w > u64::MAX - total || total + w > u64::MAX - WEIGHT_OFFSET {
                proof {
                    if i + 1 < weights@.len() {
                        lemma_offset_total_increasing(
                            weights@,
                            i as int + 1,
                            weights@.len() as int,
                        );
                    }
                }
                return Err(SimulationError::WeightOverflow);
            }
            total = total + w + WEIGHT_OFFSET;
            cumulative.push(total);
            i = i + 1;
        }
        let s = WeightedIndices { cumulative };
        proof {
            assert forall|a: int, b: int|
                0 <= a < b < s.len() implies #[trigger] s.cumulative()[a]
                < #[trigger] s.cumulative()[b] by {
                lemma_offset_total_increasing(weights@, a + 1, b + 1);
            }
            lemma_offset_total_increasing(weights@, 0, 1);
        }
        Ok(s)
    }

    /// The index selected by the draw `value`: the one whose interval
    /// `[lower(i), cumulative[i])` holds it.
    pub fn index_for(&self, value: u64) -> (r: usize)
        requires
            self.wf(),
            value < self.total(),
        ensures
            r < self.len(),
            self.lower(r as int) <= value < self.cumulative()[r as int],
    {
        let n = self.cumulative.len();
        let mut lo: usize = 0;
        let mut hi: usize = n;
        while lo < hi
            invariant
                self.wf(),
                n == self.len(),
                value < self.total(),
                lo <= hi <= n,
                forall|k: int| 0 <= k < lo ==> #[trigger] self.cumulative()[k] <= value,
                forall|k: int| hi <= k < n ==> #[trigger] self.cumulative()[k] > value,
            decreases hi - lo,
        {
            let mid = lo + (hi - lo) / 2;
            if self.cumulative[mid] <= value {
                proof {
                    assert forall|k: int| 0 <= k < mid + 1 implies #[trigger] self.cumulative()[k]
                        <= value by {
                        if k < mid {
                            assert(self.cumulative()[k] < self.cumulative()[mid as int]);
                        }
                    }
                }
                lo = mid + 1;
            } else {
                proof {
                    assert forall|k: int| mid <= k < n implies #[trigger] self.cumulative()[k]
                        > value by {
                        if k > mid {
                            assert(self.cumulative()[mid as int] < self.cumulative()[k]);
                        }
                    }
                }
                hi = mid;
            }
        }
        if lo == n {
            assert(self.cumulative()[n - 1] <= value);
        }
        lo
    }

    /// The sum of all offset weights.
    pub fn total_weight(&self) -> (r: u64)
        requires
            self.wf(),
        ensures
            r == self.total(),
    {
        self.cumulative[self.cumulative.len() - 1]
    }

    /// The draw `value` selects index `r` of the weights this sampler was
    /// built from.
    pub proof fn lemma_index_for_picks(&self, weights: Seq<u64>, value: int, r: int)
        requires
            self.len() == weights.len(),
            forall|k: int|
                0 <= k < self.len() ==> #[trigger] self.cumulative()[k] == offset_total(
                    weights,
                    k + 1,
                ),
            0 <= r < self.len(),
            self.lower(r) <= value < self.cumulative()[r],
        ensures
            picks(weights, value, r),
            pick(weights, value) == r,
    {
        if r > 0 {
            assert(self.cumulative()[r - 1] == offset_total(weights, r));
        }
        assert(self.cumulative()[r] == offset_total(weights, r + 1));
        lemma_pick_unique(weights, value, r);
    }

    /// Draws an index with probability proportional to its offset weight.
    pub fn sample(&self, rng: &mut Random) -> (r: usize)
        requires
            self.wf(),
        ensures
            r < self.len(),
    {
        let total = self.cumulative[self.cumulative.len() - 1];
        let value = rng.gen_range_u64(0, total);
        self.index_for(value)
    }
}

/// The draws that select index `i` number exactly its weight plus the offset,
/// so every index is drawn with positive probability, whatever its weight.
pub proof fn lemma_every_index_selectable(weights: Seq<u64>, s: WeightedIndices, i: int)
    requires
        s.len() == weights.len(),
        forall|k: int| 0 <= k < s.len() ==> #[trigger] s.cumulative()[k] == offset_total(weights, k + 1),
        0 <= i < weights.len(),
    ensures
        s.cumulative()[i] - s.lower(i) == weights[i] + WEIGHT_OFFSET,
        s.cumulative()[i] - s.lower(i) >= WEIGHT_OFFSET,
{
    assert(s.cumulative()[i] == offset_total(weights, i + 1));
    assert(offset_total(weights, i + 1) == offset_total(weights, i) + weights[i] + WEIGHT_OFFSET);
    if i > 0 {
        assert(s.cumulative()[i - 1] == offset_total(weights, i));
    } else {
        assert(offset_total(weights, 0) == 0);
    }
}

/// Offset totals are bounded by the count times any bound on the offset
/// weights.
pub proof fn lemma_offset_total_at_most(weights: Seq<u64>, m: int, b: int)
    requires
        0 <= m <= weights.len(),
        forall|k: int| 0 <= k < m ==> #[trigger] weights[k] + WEIGHT_OFFSET <= b,
    ensures
        offset_total(weights, m) <= m * b,
    decreases m,
{
    if m > 0 {
        lemma_offset_total_at_most(weights, m - 1, b);
        assert(offset_total(weights, m) == offset_total(weights, m - 1) + weights[m - 1]
            + WEIGHT_OFFSET);
        assert(weights[m - 1] + WEIGHT_OFFSET <= b);
        assert((m - 1) * b + b == m * b) by (nonlinear_arith);
    } else {
        assert(m * b == 0) by (nonlinear_arith)
            requires
                m == 0,
        ;
    }
}

} // verus!
