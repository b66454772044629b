//! Rarity tables: a layer's candidate value names with non-negative
//! integer weights, and weighted selection over them.
//!
//! Selection works from a uniform draw `x` in `[0, total)`: the chosen
//! index is the one whose cumulative-weight window contains `x`, so each
//! value is selected for exactly `weight` of the `total` possible draws.

use vstd::prelude::*;

use crate::errors::GenError;
use crate::rng::random_below;

verus! {

/// One candidate value of a layer: an asset file name and its weight.
pub struct WeightedValue {
    pub name: String,
    pub weight: u64,
}

/// A discrete distribution over a layer's possible values.
pub struct RarityTable {
    pub entries: Vec<WeightedValue>,
}

/// The sum of the first `i` weights.
pub open spec fn prefix_weight(ws: Seq<WeightedValue>, i: int) -> int
    decreases i,
{
    if i <= 0 {
        0
    } else {
        prefix_weight(ws, i - 1) + ws[i - 1].weight
    }
}

/// The sum of all weights.
pub open spec fn total_weight_of(ws: Seq<WeightedValue>) -> int {
    prefix_weight(ws, ws.len() as int)
}

pub proof fn lemma_prefix_weight_monotonic(ws: Seq<WeightedValue>, i: int, j: int)
    requires
        0 <= i <= j,
    ensures
        prefix_weight(ws, i) <= prefix_weight(ws, j),
    decreases j,
{
    if i < j {
        lemma_prefix_weight_monotonic(ws, i, j - 1);
    }
}

/// The index selected by the draw `x`: the first index whose cumulative
/// window reaches past `x`.
pub open spec fn pick_spec(ws: Seq<WeightedValue>, x: int) -> int
    decreases ws.len(),
{
    if ws.len() == 0 {
        0
    } else if x < ws[0].weight {
        0
    } else {
        1 + pick_spec(ws.skip(1), x - ws[0].weight)
    }
}

proof fn lemma_prefix_weight_skip(ws: Seq<WeightedValue>, k: int)
    requires
        ws.len() >= 1,
        0 <= k <= ws.len() - 1,
    ensures
        prefix_weight(ws, k + 1) == ws[0].weight + prefix_weight(ws.skip(1), k),
    decreases k,
{
    if k == 0 {
        assert(prefix_weight(ws, 0) == 0);
        assert(prefix_weight(ws.skip(1), 0) == 0);
    } else {
        lemma_prefix_weight_skip(ws, k - 1);
        assert(ws.skip(1)[k - 1] == ws[k]);
    }
}

pub proof fn lemma_pick_spec_window(ws: Seq<WeightedValue>, x: int)
    requires
        0 <= x < total_weight_of(ws),
    ensures
        0 <= pick_spec(ws, x) < ws.len(),
        prefix_weight(ws, pick_spec(ws, x)) <= x,
        x < prefix_weight(ws, pick_spec(ws, x) + 1),
    decreases ws.len(),
{
    if ws.len() == 0 {
        assert(total_weight_of(ws) == 0);
    } else if x < ws[0].weight {
        assert(prefix_weight(ws, 0) == 0);
        assert(prefix_weight(ws, 1) == ws[0].weight);
    } else {
        let tail = ws.skip(1);
        lemma_prefix_weight_skip(ws, ws.len() - 1);
        assert(total_weight_of(tail) == total_weight_of(ws) - ws[0].weight);
        lemma_pick_spec_window(tail, x - ws[0].weight);
        let j = pick_spec(tail, x - ws[0].weight);
        lemma_prefix_weight_skip(ws, j);
        lemma_prefix_weight_skip(ws, j + 1);
    }
}

/// Law: under a uniform draw `x` from `[0, total_weight_of(ws))`, each
/// index `i` is selected for exactly `ws[i].weight` of the possible draws:
/// the draws selecting `i` are precisely the integers of the window
/// `[prefix_weight(ws, i), prefix_weight(ws, i) + ws[i].weight)`, so a
/// value's selection frequency is proportional to its weight.
pub proof fn lemma_selection_frequency(ws: Seq<WeightedValue>, i: int, x: int)
    requires
        0 <= i < ws.len(),
        0 <= x < total_weight_of(ws),
    ensures
        prefix_weight(ws, i + 1) == prefix_weight(ws, i) + ws[i].weight,
        pick_spec(ws, x) == i <==> prefix_weight(ws, i) <= x < prefix_weight(ws, i) + ws[i].weight,
{
    lemma_pick_spec_window(ws, x);
    let j = pick_spec(ws, x);
    if j < i {
        lemma_prefix_weight_monotonic(ws, j + 1, i);
    }
    if i < j {
        lemma_prefix_weight_monotonic(ws, i + 1, j);
    }
}

impl RarityTable {
    /// A usable table: at least one entry, weights not all zero, and a
    /// total that the sampler's arithmetic can carry.
    pub open spec fn wf(self) -> bool {
        &&& self.entries@.len() >= 1
        &&& 1 <= total_weight_of(self.entries@) <= u64::MAX
    }

    /// Builds a table, rejecting the shapes on which sampling would be
    /// undefined: no entries, an all-zero weight sum, or a sum past `u64`.
    pub fn new(entries: Vec<WeightedValue>) -> (r: Result<RarityTable, GenError>)
        ensures
            (r is Ok) <==> (entries@.len() >= 1 && 1 <= total_weight_of(entries@) <= u64::MAX),
            r matches Ok(t) ==> t.entries@ == entries@ && t.wf(),
            entries@.len() == 0 ==> (r matches Err(e) && e is EmptyTable),
            entries@.len() >= 1 && total_weight_of(entries@) > u64::MAX ==> (r matches Err(e)
                && e is WeightSumOverflow),
            entries@.len() >= 1 && total_weight_of(entries@) == 0 ==> (r matches Err(e)
                && e is ZeroWeightSum),
    {
        if entries.len() == 0 {
            return Err(GenError::EmptyTable);
        }
        let mut cum: u64 = 0;
        let mut i: usize = 0;
        while i < entries.len()
            invariant
                i <= entries@.len(),
                cum as int == prefix_weight(entries@, i as int),
            decreases entries@.len() - i,
        {
            match cum.checked_add(entries[i].weight) {
                Some(next) => {
                    cum = next;
                }
                None => {
                    proof {
                        lemma_prefix_weight_monotonic(entries@, i as int + 1, entries@.len() as int);
                    }
                    return Err(GenError::WeightSumOverflow);
                }
            }
            i = i + 1;
        }
        if cum == 0 {
            Err(GenError::ZeroWeightSum)
        } else {
            Ok(RarityTable { entries })
        }
    }

    /// Whether this table is usable, as [`RarityTable::wf`] describes.
    pub fn is_wf(&self) -> (r: bool)
        ensures
            r == self.wf(),
    {
        if self.entries.len() == 0 {
            return false;
        }
        let mut cum: u64 = 0;
        let mut i: usize = 0;
        while i < self.entries.len()
            invariant
                i <= self.entries@.len(),
                cum as int == prefix_weight(self.entries@, i as int),
            decreases self.entries@.len() - i,
        {
            match cum.checked_add(self.entries[i].weight) {
                Some(next) => {
                    cum = next;
                }
                None => {
                    proof {
                        lemma_prefix_weight_monotonic(
                            self.entries@,
                            i as int + 1,
                            self.entries@.len() as int,
                        );
                    }
                    return false;
                }
            }
            i = i + 1;
        }
        cum >= 1
    }

    /// The sum of all weights.
    pub fn total(&self) -> (t: u64)
        requires
            self.wf(),
        ensures
            t as int == total_weight_of(self.entries@),
    {
        let mut cum: u64 = 0;
        let mut i: usize = 0;
        while i < self.entries.len()
            invariant
                i <= self.entries@.len(),
                cum as int == prefix_weight(self.entries@, i as int),
                total_weight_of(self.entries@) <= u64::MAX,
            decreases self.entries@.len() - i,
        {
            proof {
                lemma_prefix_weight_monotonic(self.entries@, i as int + 1, self.entries@.len() as int);
            }
            cum = cum + self.entries[i].weight;
            i = i + 1;
        }
        cum
    }

    /// The index whose cumulative-weight window contains the draw `x`.
    pub fn pick_index(&self, x: u64) -> (r: usize)
        requires
            self.wf(),
            x < total_weight_of(self.entries@),
        ensures
            r < self.entries@.len(),
            r as int == pick_spec(self.entries@, x as int),
            prefix_weight(self.entries@, r as int) <= x,
            x < prefix_weight(self.entries@, r as int + 1),
            self.entries@[r as int].weight > 0,
    {
        let mut cum: u64 = 0;
        let mut i: usize = 0;
        while i < self.entries.len()
            invariant
                i <= self.entries@.len(),
                cum as int == prefix_weight(self.entries@, i as int),
                cum <= x,
                x < total_weight_of(self.entries@) <= u64::MAX,
            decreases self.entries@.len() - i,
        {
            proof {
                lemma_prefix_weight_monotonic(self.entries@, i as int + 1, self.entries@.len() as int);
            }
            let w = self.entries[i].weight;
            if x < cum + w {
                proof {
                    lemma_selection_frequency(self.entries@, i as int, x as int);
                }
                return i;
            }
            cum = cum + w;
            i = i + 1;
        }
        proof {
            assert(false);
        }
        0
    }

    /// Draws one index at random, honoring the configured weights: the
    /// result is the cumulative-window selection of some draw from
    /// `[0, total)`, so only an index with positive weight can come back,
    /// and each index is eligible for exactly its weight's share of draws.
    pub fn sample(&self) -> (r: usize)
        requires
            self.wf(),
        ensures
            r < self.entries@.len(),
            self.entries@[r as int].weight > 0,
            exists|x: int|
                0 <= x < total_weight_of(self.entries@) && r as int == pick_spec(
                    self.entries@,
                    x,
                ),
    {
        let t = self.total();
        let x = random_below(t);
        let r = self.pick_index(x);
        proof {
            assert((x as int) < total_weight_of(self.entries@));
            assert(r as int == pick_spec(self.entries@, x as int));
        }
        r
    }
}

} // verus!
