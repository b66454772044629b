//! The batch pass: one roll per item index, with guaranteed rolls injected
//! at evenly spaced slots and the uniqueness guard applied to every
//! sampled roll.
//!
//! Slots are deterministic in `amount` and the number of guaranteed
//! rolls: with spacing `width = amount / (rolls + 1)`, the `m`-th roll
//! (1-based) is forced at index `m * width`.  Guaranteed rolls bypass both
//! sampling and the uniqueness check.

use vstd::prelude::*;

use crate::attributes::Trait;
use crate::attributes::non_meta_views;
use crate::attributes::trait_views;
use crate::config::Config;
use crate::config::LayerDecl;
use crate::errors::GenError;
use crate::resolve::config_total;
use crate::resolve::duplicate_of;
use crate::resolve::resolve_unique;
use crate::resolve::resolved_ok;
use crate::resolve::rolls_views;

verus! {

/// Whether item index `i` is a guaranteed-roll slot: a positive multiple
/// of the slot width that still has a roll left to consume.
pub open spec fn is_guaranteed_slot(config: Config, i: int) -> bool {
    &&& config.guaranteed_attribute_rolls@.len() > 0
    &&& i > 0
    &&& i % config.slot_width() == 0
    &&& i / config.slot_width() <= config.guaranteed_attribute_rolls@.len() as int
}

/// What a guaranteed slot holds: the pairs of roll `i / width - 1` zipped
/// verbatim with the declared layer names, in layer order.
pub open spec fn guaranteed_values_at(
    config: Config,
    rv: Seq<(Seq<char>, Seq<char>)>,
    i: int,
) -> bool {
    let roll = config.guaranteed_attribute_rolls@[i / config.slot_width() - 1];
    &&& rv.len() == config.attributes@.len()
    &&& forall|j: int|
        0 <= j < rv.len() ==> (#[trigger] rv[j]).0 == config.attributes@[j].name@ && rv[j].1
            == roll@[j]@
}

/// Law: what a finished batch satisfies.
///
/// Every roll is complete; each guaranteed slot holds its guaranteed
/// values verbatim; every other index holds a rule-honoring sampled
/// resolution; and under `require_unique` the sampled rolls are pairwise
/// distinct by their non-meta pairs — guaranteed slots are exempt.
pub open spec fn batch_ok(config: Config, rvs: Seq<Seq<(Seq<char>, Seq<char>)>>) -> bool {
    &&& rvs.len() == config.amount as int
    &&& forall|i: int|
        0 <= i < rvs.len() && is_guaranteed_slot(config, i) ==> guaranteed_values_at(
            config,
            #[trigger] rvs[i],
            i,
        )
    &&& forall|i: int|
        0 <= i < rvs.len() && !is_guaranteed_slot(config, i) ==> resolved_ok(
            config.attributes@,
            #[trigger] rvs[i],
        )
    &&& (config.require_unique ==> forall|i: int, j: int|
        #![trigger rvs[i], rvs[j]]
        0 <= i < j < rvs.len() && !is_guaranteed_slot(config, i) && !is_guaranteed_slot(config, j)
            ==> non_meta_views(rvs[i]) != non_meta_views(rvs[j]))
}

/// Law: a batch run under `require_unique` with no guaranteed rolls
/// yields `amount` attribute sets that are pairwise distinct by their
/// non-meta pairs.
pub proof fn lemma_unique_batch_all_distinct(
    config: Config,
    rvs: Seq<Seq<(Seq<char>, Seq<char>)>>,
    i: int,
    j: int,
)
    requires
        batch_ok(config, rvs),
        config.require_unique,
        config.guaranteed_attribute_rolls@.len() == 0,
        0 <= i < j < rvs.len(),
    ensures
        non_meta_views(rvs[i]) != non_meta_views(rvs[j]),
{
    assert(!is_guaranteed_slot(config, i));
    assert(!is_guaranteed_slot(config, j));
}

/// Builds the attribute set of a guaranteed roll: the roll's values,
/// kept verbatim with their extensions, zipped positionally with the
/// declared layer names.
pub fn build_guaranteed(roll: &Vec<String>, layers: &Vec<LayerDecl>) -> (r: Vec<Trait>)
    requires
        roll@.len() == layers@.len(),
    ensures
        trait_views(r@).len() == layers@.len(),
        forall|j: int|
            0 <= j < layers@.len() ==> (#[trigger] trait_views(r@)[j]).0 == layers@[j].name@
                && trait_views(r@)[j].1 == roll@[j]@,
{
    let mut r: Vec<Trait> = Vec::new();
    let mut j: usize = 0;
    while j < roll.len()
        invariant
            j <= roll@.len(),
            roll@.len() == layers@.len(),
            trait_views(r@).len() == j,
            forall|k: int|
                0 <= k < j ==> (#[trigger] trait_views(r@)[k]).0 == layers@[k].name@
                    && trait_views(r@)[k].1 == roll@[k]@,
        decreases roll@.len() - j,
    {
        let t = Trait { trait_type: layers[j].name.clone(), value: roll[j].clone() };
        let ghost old_r = r@;
        r.push(t);
        proof {
            assert(trait_views(r@) =~= trait_views(old_r).push(t@));
            assert(forall|k: int| 0 <= k < j ==> trait_views(r@)[k] == trait_views(old_r)[k]);
        }
        j = j + 1;
    }
    r
}

/// Runs the batch's roll pass: `amount` attribute sets in item order,
/// as [`batch_ok`] describes.  Success is owed when every conditional
/// layer has a fallback and uniqueness is not demanded; with uniqueness
/// the retry budget may run out, and the error says so.
pub fn generate_rolls(config: &Config) -> (r: Result<Vec<Vec<Trait>>, GenError>)
    requires
        config.wf(),
    ensures
        r matches Ok(rs) ==> batch_ok(*config, rolls_views(rs@)),
        r matches Err(e) ==> (e is UnmatchedCondition || (e is UniquenessExhausted
            && config.require_unique)),
        config_total(*config) && !config.require_unique ==> r is Ok,
{
    let g: usize = config.guaranteed_attribute_rolls.len();
    let width: u32 = if g == 0 {
        1
    } else {
        proof {
            let a = config.amount as int;
            let b = g as int + 1;
            assert(a / b >= 1 ==> a >= b) by (nonlinear_arith)
                requires
                    b > 1,
                    a >= 0,
            ;
        }
        config.amount / ((g as u32) + 1)
    };
    proof {
        if g > 0 {
            assert(width as int == config.slot_width());
            assert(width >= 1);
        }
    }
    let mut generated: Vec<Vec<Trait>> = Vec::new();
    let mut rs: Vec<Vec<Trait>> = Vec::new();
    let mut i: u32 = 0;
    while i < config.amount
        invariant
            i <= config.amount,
            config.wf(),
            g == config.guaranteed_attribute_rolls@.len(),
            g > 0 ==> width as int == config.slot_width() && width >= 1,
            rolls_views(rs@).len() == i as int,
            forall|j: int|
                0 <= j < i && is_guaranteed_slot(*config, j) ==> guaranteed_values_at(
                    *config,
                    #[trigger] rolls_views(rs@)[j],
                    j,
                ),
            forall|j: int|
                0 <= j < i && !is_guaranteed_slot(*config, j) ==> resolved_ok(
                    config.attributes@,
                    #[trigger] rolls_views(rs@)[j],
                ),
            config.require_unique ==> forall|j: int|
                0 <= j < i && !is_guaranteed_slot(*config, j) ==> rolls_views(generated@).contains(
                    #[trigger] rolls_views(rs@)[j],
                ),
            config.require_unique ==> forall|j1: int, j2: int|
                #![trigger rolls_views(rs@)[j1], rolls_views(rs@)[j2]]
                0 <= j1 < j2 < i && !is_guaranteed_slot(*config, j1) && !is_guaranteed_slot(
                    *config,
                    j2,
                ) ==> non_meta_views(rolls_views(rs@)[j1]) != non_meta_views(rolls_views(rs@)[j2]),
        decreases config.amount - i,
    {
        let slot = g > 0 && i > 0 && i % width == 0 && (i / width) as usize <= g;
        proof {
            assert(slot == is_guaranteed_slot(*config, i as int));
        }
        let ghost old_rvs = rolls_views(rs@);
        let ghost old_gen = rolls_views(generated@);
        if slot {
            let m: u32 = i / width;
            proof {
                assert(m >= 1) by (nonlinear_arith)
                    requires
                        width >= 1,
                        i >= 1,
                        i % width == 0,
                        m == i as int / width as int,
                ;
            }
            let roll = &config.guaranteed_attribute_rolls[(m - 1) as usize];
            let tr = build_guaranteed(roll, &config.attributes);
            rs.push(tr);
            proof {
                let rvs = rolls_views(rs@);
                assert(rvs =~= old_rvs.push(trait_views(rs@[i as int]@)));
                assert(guaranteed_values_at(*config, rvs[i as int], i as int));
                assert(forall|j: int| 0 <= j < i ==> rvs[j] == old_rvs[j]);
            }
        } else {
            match resolve_unique(config, &mut generated) {
                Err(e) => {
                    return Err(e);
                }
                Ok(rv) => {
                    let ghost rvv = trait_views(rv@);
                    rs.push(rv);
                    proof {
                        let rvs = rolls_views(rs@);
                        assert(rvs =~= old_rvs.push(rvv));
                        assert(forall|j: int| 0 <= j < i ==> rvs[j] == old_rvs[j]);
                        if config.require_unique {
                            assert(rolls_views(generated@) =~= old_gen.push(rvv));
                            assert(!duplicate_of(old_gen, rvv));
                            assert forall|j: int|
                                0 <= j < i + 1 && !is_guaranteed_slot(*config, j)
                                    implies rolls_views(generated@).contains(
                                #[trigger] rvs[j],
                            ) by {
                                if j < i {
                                    assert(old_gen.contains(old_rvs[j]));
                                    let k = choose|k: int|
                                        0 <= k < old_gen.len() && old_gen[k] == old_rvs[j];
                                    assert(rolls_views(generated@)[k] == old_rvs[j]);
                                } else {
                                    assert(rolls_views(generated@)[old_gen.len() as int] == rvv);
                                }
                            }
                            assert forall|j1: int, j2: int|
                                #![trigger rvs[j1], rvs[j2]]
                                0 <= j1 < j2 < i + 1 && !is_guaranteed_slot(*config, j1)
                                    && !is_guaranteed_slot(*config, j2) implies non_meta_views(
                                rvs[j1],
                            ) != non_meta_views(rvs[j2]) by {
                                if j2 == i {
                                    assert(old_gen.contains(old_rvs[j1]));
                                    let k = choose|k: int|
                                        0 <= k < old_gen.len() && old_gen[k] == old_rvs[j1];
                                    assert(non_meta_views(old_gen[k]) != non_meta_views(rvv));
                                } else {
                                    assert(non_meta_views(old_rvs[j1]) != non_meta_views(
                                        old_rvs[j2],
                                    ));
                                }
                            }
                        }
                    }
                }
            }
        }
        i = i + 1;
    }
    Ok(rs)
}

} // verus!
