//! The error taxonomy of the batch: configuration faults found while a
//! table or a condition is used, exhaustion of the uniqueness retry budget,
//! and a missing image asset discovered while a composite is planned.

use vstd::prelude::*;

verus! {

#[derive(Debug)]
pub enum GenError {
    /// A rarity table with no entries.
    EmptyTable,
    /// A rarity table whose weights are all zero, so sampling is undefined.
    ZeroWeightSum,
    /// A rarity table whose weights do not sum within `u64`.
    WeightSumOverflow,
    /// A conditional layer where no condition matched and no fallback exists.
    UnmatchedCondition { layer: String },
    /// The uniqueness retry budget ran out before a fresh roll appeared.
    UniquenessExhausted { retries: u32 },
    /// The asset file of one composited layer is absent.
    MissingAsset { layer_index: usize },
}

} // verus!
