//! The validated configuration model: collection-level fields, the ordered
//! layer declarations with their rarity tables, guaranteed rolls, and the
//! batch policy flags; and the choice of the table a layer samples from,
//! given the attributes resolved for earlier layers.

use vstd::prelude::*;

use crate::attributes::Trait;
use crate::attributes::trait_views;
use crate::condition::Condition;
use crate::condition::cond_holds;
use crate::errors::GenError;
use crate::rarity::RarityTable;

verus! {

/// One royalty recipient, copied verbatim into each metadata record.
pub struct Creator {
    pub address: String,
    pub share: u32,
}

/// The collection block, copied verbatim into each metadata record.
pub struct Collection {
    pub name: String,
    pub family: String,
}

/// One condition key of a conditional layer with the table it selects.
pub struct ConditionalCase {
    pub condition: Condition,
    pub table: RarityTable,
}

/// A layer's declaration: a single unconditional table, or a list of
/// condition keys each selecting a table, evaluated in declaration order.
pub enum Attribute {
    Flat(RarityTable),
    Conditional(Vec<ConditionalCase>),
}

/// One attribute layer: its name and its declaration.
pub struct LayerDecl {
    pub name: String,
    pub kind: Attribute,
}

/// The declarative input of one batch run.
pub struct Config {
    pub name: String,
    pub symbol: String,
    pub description: String,
    pub external_url: String,
    pub seller_fee_basis_points: u32,
    pub creators: Vec<Creator>,
    pub collection: Collection,
    pub attributes: Vec<LayerDecl>,
    pub guaranteed_attribute_rolls: Vec<Vec<String>>,
    pub amount: u32,
    pub require_unique: bool,
    pub max_retries: u32,
}

impl Attribute {
    /// Every table of the declaration is usable.
    pub open spec fn wf(self) -> bool {
        match self {
            Attribute::Flat(t) => t.wf(),
            Attribute::Conditional(cases) => forall|i: int|
                0 <= i < cases@.len() ==> (#[trigger] cases@[i].table).wf(),
        }
    }

    /// Whether every table of this declaration is usable.
    pub fn is_wf(&self) -> (r: bool)
        ensures
            r == self.wf(),
    {
        match self {
            Attribute::Flat(t) => t.is_wf(),
            Attribute::Conditional(cases) => {
                let mut i: usize = 0;
                while i < cases.len()
                    invariant
                        i <= cases@.len(),
                        *self == Attribute::Conditional(*cases),
                        forall|j: int| 0 <= j < i ==> (#[trigger] cases@[j].table).wf(),
                    decreases cases@.len() - i,
                {
                    if !cases[i].table.is_wf() {
                        proof {
                            assert(!(#[trigger] cases@[i as int].table).wf());
                        }
                        return false;
                    }
                    i = i + 1;
                }
                true
            }
        }
    }
}

impl Config {
    /// The spacing between guaranteed-roll slots:
    /// `amount / (guaranteed rolls + 1)`.
    pub open spec fn slot_width(self) -> int {
        self.amount as int / (self.guaranteed_attribute_rolls@.len() as int + 1)
    }

    /// A runnable configuration: every declared table is usable, every
    /// guaranteed roll names one value per layer, and when guaranteed
    /// rolls exist the batch is large enough to give them distinct slots.
    pub open spec fn wf(self) -> bool {
        &&& forall|i: int|
            0 <= i < self.attributes@.len() ==> (#[trigger] self.attributes@[i].kind).wf()
        &&& forall|i: int|
            0 <= i < self.guaranteed_attribute_rolls@.len() ==> (
            #[trigger] self.guaranteed_attribute_rolls@[i])@.len() == self.attributes@.len()
        &&& (self.guaranteed_attribute_rolls@.len() == 0 || self.slot_width() >= 1)
    }

    /// Whether this configuration is runnable, as [`Config::wf`] describes.
    pub fn is_wf(&self) -> (r: bool)
        ensures
            r == self.wf(),
    {
        let mut i: usize = 0;
        while i < self.attributes.len()
            invariant
                i <= self.attributes@.len(),
                forall|j: int| 0 <= j < i ==> (#[trigger] self.attributes@[j].kind).wf(),
            decreases self.attributes@.len() - i,
        {
            if !self.attributes[i].kind.is_wf() {
                return false;
            }
            i = i + 1;
        }
        let mut g: usize = 0;
        while g < self.guaranteed_attribute_rolls.len()
            invariant
                g <= self.guaranteed_attribute_rolls@.len(),
                forall|j: int| 0 <= j < g ==> (#[trigger] self.guaranteed_attribute_rolls@[j])@.len()
                    == self.attributes@.len(),
            decreases self.guaranteed_attribute_rolls@.len() - g,
        {
            if self.guaranteed_attribute_rolls[g].len() != self.attributes.len() {
                return false;
            }
            g = g + 1;
        }
        let rolls = self.guaranteed_attribute_rolls.len();
        if rolls == 0 {
            return true;
        }
        proof {
            let a = self.amount as int;
            let b = rolls as int + 1;
            assert((a >= b) == (a / b >= 1)) by (nonlinear_arith)
                requires
                    b > 1,
                    a >= 0,
            ;
        }
        (self.amount as u64) > (rolls as u64)
    }
}

/// Whether case `j` of a conditional layer matches: a non-fallback key
/// whose condition holds of the resolved pairs.
pub open spec fn case_matches(
    cases: Seq<ConditionalCase>,
    resolved: Seq<(Seq<char>, Seq<char>)>,
    j: int,
) -> bool {
    !(cases[j].condition is Fallback) && cond_holds(cases[j].condition, resolved)
}

/// The position of the first matching non-fallback case, or `-1`.
pub open spec fn first_matching_idx(
    cases: Seq<ConditionalCase>,
    resolved: Seq<(Seq<char>, Seq<char>)>,
) -> int
    decreases cases.len(),
{
    if cases.len() == 0 {
        -1
    } else if case_matches(cases, resolved, 0) {
        0
    } else if first_matching_idx(cases.skip(1), resolved) == -1 {
        -1
    } else {
        1 + first_matching_idx(cases.skip(1), resolved)
    }
}

/// The position of the first fallback case, or `-1`.
pub open spec fn first_fallback_idx(cases: Seq<ConditionalCase>) -> int
    decreases cases.len(),
{
    if cases.len() == 0 {
        -1
    } else if cases[0].condition is Fallback {
        0
    } else if first_fallback_idx(cases.skip(1)) == -1 {
        -1
    } else {
        1 + first_fallback_idx(cases.skip(1))
    }
}

/// The table a layer samples from, given the pairs resolved for earlier
/// layers: an unconditional table directly; otherwise the first matching
/// non-fallback case wins, the first fallback case applies when none
/// matched, and without either the layer cannot be resolved.
pub open spec fn chosen_table_spec(
    kind: Attribute,
    resolved: Seq<(Seq<char>, Seq<char>)>,
) -> Option<RarityTable> {
    match kind {
        Attribute::Flat(t) => Some(t),
        Attribute::Conditional(cases) => {
            let m = first_matching_idx(cases@, resolved);
            let f = first_fallback_idx(cases@);
            if m >= 0 {
                Some(cases@[m].table)
            } else if f >= 0 {
                Some(cases@[f].table)
            } else {
                None
            }
        }
    }
}

proof fn lemma_first_matching_hit(
    cases: Seq<ConditionalCase>,
    resolved: Seq<(Seq<char>, Seq<char>)>,
    k: int,
)
    requires
        0 <= k < cases.len(),
        case_matches(cases, resolved, k),
        forall|j: int| 0 <= j < k ==> !case_matches(cases, resolved, j),
    ensures
        first_matching_idx(cases, resolved) == k,
    decreases k,
{
    if k > 0 {
        assert forall|j: int| 0 <= j < k - 1 implies !case_matches(cases.skip(1), resolved, j) by {
            assert(cases.skip(1)[j] == cases[j + 1]);
            assert(!case_matches(cases, resolved, j + 1));
        }
        assert(cases.skip(1)[k - 1] == cases[k]);
        lemma_first_matching_hit(cases.skip(1), resolved, k - 1);
    }
}

proof fn lemma_first_matching_none(
    cases: Seq<ConditionalCase>,
    resolved: Seq<(Seq<char>, Seq<char>)>,
)
    requires
        forall|j: int| 0 <= j < cases.len() ==> !case_matches(cases, resolved, j),
    ensures
        first_matching_idx(cases, resolved) == -1,
    decreases cases.len(),
{
    if cases.len() > 0 {
        assert forall|j: int| 0 <= j < cases.len() - 1 implies !case_matches(
            cases.skip(1),
            resolved,
            j,
        ) by {
            assert(cases.skip(1)[j] == cases[j + 1]);
            assert(!case_matches(cases, resolved, j + 1));
        }
        lemma_first_matching_none(cases.skip(1), resolved);
    }
}

proof fn lemma_first_fallback_hit(cases: Seq<ConditionalCase>, k: int)
    requires
        0 <= k < cases.len(),
        cases[k].condition is Fallback,
        forall|j: int| 0 <= j < k ==> !(cases[j].condition is Fallback),
    ensures
        first_fallback_idx(cases) == k,
    decreases k,
{
    if k > 0 {
        assert(forall|j: int| 0 <= j < k - 1 ==> cases.skip(1)[j] == cases[j + 1]);
        lemma_first_fallback_hit(cases.skip(1), k - 1);
    }
}

proof fn lemma_first_fallback_none(cases: Seq<ConditionalCase>)
    requires
        forall|j: int| 0 <= j < cases.len() ==> !(cases[j].condition is Fallback),
    ensures
        first_fallback_idx(cases) == -1,
    decreases cases.len(),
{
    if cases.len() > 0 {
        assert(forall|j: int| 0 <= j < cases.len() - 1 ==> cases.skip(1)[j] == cases[j + 1]);
        lemma_first_fallback_none(cases.skip(1));
    }
}

/// The range of a non-negative first-index: it points at a case of the
/// list, so a chosen table is always one of the declared tables.
pub proof fn lemma_chosen_table_wf(
    kind: Attribute,
    resolved: Seq<(Seq<char>, Seq<char>)>,
)
    requires
        kind.wf(),
    ensures
        chosen_table_spec(kind, resolved) matches Some(t) ==> t.wf(),
{
    match kind {
        Attribute::Flat(_) => {}
        Attribute::Conditional(cases) => {
            lemma_first_matching_range(cases@, resolved);
            lemma_first_fallback_range(cases@);
        }
    }
}

proof fn lemma_first_matching_range(
    cases: Seq<ConditionalCase>,
    resolved: Seq<(Seq<char>, Seq<char>)>,
)
    ensures
        first_matching_idx(cases, resolved) == -1 || (0 <= first_matching_idx(cases, resolved)
            < cases.len()),
    decreases cases.len(),
{
    if cases.len() > 0 {
        lemma_first_matching_range(cases.skip(1), resolved);
    }
}

proof fn lemma_first_fallback_range(cases: Seq<ConditionalCase>)
    ensures
        first_fallback_idx(cases) == -1 || (0 <= first_fallback_idx(cases) < cases.len()),
    decreases cases.len(),
{
    if cases.len() > 0 {
        lemma_first_fallback_range(cases.skip(1));
    }
}

/// A fallback case somewhere in the list guarantees that the search for
/// one succeeds.
pub proof fn lemma_fallback_found(cases: Seq<ConditionalCase>, k: int)
    requires
        0 <= k < cases.len(),
        cases[k].condition is Fallback,
    ensures
        first_fallback_idx(cases) >= 0,
    decreases cases.len(),
{
    if !(cases[0].condition is Fallback) {
        assert(cases.skip(1)[k - 1] == cases[k]);
        lemma_fallback_found(cases.skip(1), k - 1);
    }
}

/// Selects the table a layer samples from, as [`chosen_table_spec`]
/// describes; the error names the layer whose keys all failed to apply.
pub fn choose_table<'a>(layer: &'a LayerDecl, resolved: &Vec<Trait>) -> (r: Result<
    &'a RarityTable,
    GenError,
>)
    ensures
        r matches Ok(t) ==> chosen_table_spec(layer.kind, trait_views(resolved@)) == Some(*t),
        r is Err ==> chosen_table_spec(layer.kind, trait_views(resolved@)) is None,
        r matches Err(e) ==> (e matches GenError::UnmatchedCondition { layer: l } && l@
            == layer.name@),
{
    match &layer.kind {
        Attribute::Flat(t) => Ok(t),
        Attribute::Conditional(cases) => {
            let ghost rv = trait_views(resolved@);
            let mut fallback: Option<usize> = None;
            let mut i: usize = 0;
            while i < cases.len()
                invariant
                    i <= cases@.len(),
                    layer.kind == Attribute::Conditional(*cases),
                    rv == trait_views(resolved@),
                    forall|j: int| 0 <= j < i ==> !case_matches(cases@, rv, j),
                    match fallback {
                        Some(f) => f < i && cases@[f as int].condition is Fallback && (forall|
                            j: int,
                        |
                            0 <= j < f ==> !(cases@[j].condition is Fallback)),
                        None => forall|j: int| 0 <= j < i ==> !(cases@[j].condition is Fallback),
                    },
                decreases cases@.len() - i,
            {
                let case = &cases[i];
                if case.condition.is_fallback() {
                    if fallback.is_none() {
                        fallback = Some(i);
                    }
                } else if crate::condition::eval_condition(&case.condition, resolved) {
                    proof {
                        assert(case_matches(cases@, rv, i as int));
                        lemma_first_matching_hit(cases@, rv, i as int);
                    }
                    return Ok(&cases[i].table);
                }
                i = i + 1;
            }
            proof {
                lemma_first_matching_none(cases@, rv);
            }
            match fallback {
                Some(f) => {
                    proof {
                        lemma_first_fallback_hit(cases@, f as int);
                    }
                    Ok(&cases[f].table)
                }
                None => {
                    proof {
                        lemma_first_fallback_none(cases@);
                    }
                    Err(GenError::UnmatchedCondition { layer: layer.name.clone() })
                }
            }
        }
    }
}

} // verus!
