//! The attribute resolver and the uniqueness guard.
//!
//! The resolver rolls one complete attribute set for an item: for each
//! layer in declared order it selects the table that the layer's
//! conditions pick against the earlier layers' pairs and draws one value
//! from it at random.  The guard wraps the resolver with a bounded retry
//! loop that rejects any roll whose non-meta pairs already appeared in the
//! batch, when the configuration demands uniqueness.

use vstd::prelude::*;

use crate::attributes::Trait;
use crate::attributes::filter_non_meta;
use crate::attributes::non_meta_views;
use crate::attributes::trait_views;
use crate::attributes::traits_equal;
use crate::config::Attribute;
use crate::config::Config;
use crate::config::LayerDecl;
use crate::config::choose_table;
use crate::config::chosen_table_spec;
use crate::config::lemma_chosen_table_wf;
use crate::config::lemma_fallback_found;
use crate::errors::GenError;
use crate::rarity::RarityTable;

verus! {

/// Whether `v` is a candidate of `t` that a draw can select: a value name
/// of the table with positive weight.
pub open spec fn value_in_table(v: Seq<char>, t: RarityTable) -> bool {
    exists|j: int|
        0 <= j < t.entries@.len() && t.entries@[j].name@ == v && t.entries@[j].weight > 0
}

/// Pair `j` of `rv` resolves layer `j`: it carries the layer's name, and
/// its value is a positive-weight candidate of the table that the layer's
/// conditions select against the pairs of the earlier layers alone.
pub open spec fn layer_resolved_ok(
    layers: Seq<LayerDecl>,
    rv: Seq<(Seq<char>, Seq<char>)>,
    j: int,
) -> bool {
    &&& rv[j].0 == layers[j].name@
    &&& match chosen_table_spec(layers[j].kind, rv.take(j)) {
        Some(t) => value_in_table(rv[j].1, t),
        None => false,
    }
}

/// A complete, rule-honoring resolution of `layers`.
pub open spec fn resolved_ok(layers: Seq<LayerDecl>, rv: Seq<(Seq<char>, Seq<char>)>) -> bool {
    &&& rv.len() == layers.len()
    &&& forall|j: int| 0 <= j < rv.len() ==> #[trigger] layer_resolved_ok(layers, rv, j)
}

/// A layer that can be resolved whatever was rolled before it: an
/// unconditional table, or a conditional one with a fallback case.
pub open spec fn layer_total(layer: LayerDecl) -> bool {
    match layer.kind {
        Attribute::Flat(_) => true,
        Attribute::Conditional(cases) => exists|j: int|
            0 <= j < cases@.len() && (#[trigger] cases@[j].condition) is Fallback,
    }
}

/// A configuration whose every layer is total: resolution cannot fail.
pub open spec fn config_total(config: Config) -> bool {
    forall|i: int|
        0 <= i < config.attributes@.len() ==> #[trigger] layer_total(config.attributes@[i])
}

/// Resolves one item's attribute set.  Success is owed whenever every
/// conditional layer has a fallback case; otherwise the layer whose keys
/// all failed to apply is named in the error.
pub fn resolve_item(config: &Config) -> (r: Result<Vec<Trait>, GenError>)
    requires
        config.wf(),
    ensures
        r matches Ok(rv) ==> resolved_ok(config.attributes@, trait_views(rv@)),
        r matches Err(e) ==> e is UnmatchedCondition,
        config_total(*config) ==> r is Ok,
{
    let mut resolved: Vec<Trait> = Vec::new();
    let mut i: usize = 0;
    while i < config.attributes.len()
        invariant
            i <= config.attributes@.len(),
            config.wf(),
            trait_views(resolved@).len() == i,
            forall|j: int| 0 <= j < i ==> #[trigger] layer_resolved_ok(
                config.attributes@,
                trait_views(resolved@),
                j,
            ),
        decreases config.attributes@.len() - i,
    {
        let layer = &config.attributes[i];
        match choose_table(layer, &resolved) {
            Err(e) => {
                proof {
                    if config_total(*config) {
                        assert(layer_total(config.attributes@[i as int]));
                        match &layer.kind {
                            Attribute::Flat(_) => {}
                            Attribute::Conditional(cases) => {
                                let k = choose|k: int|
                                    0 <= k < cases@.len() && (
                                    #[trigger] cases@[k].condition) is Fallback;
                                lemma_fallback_found(cases@, k);
                            }
                        }
                        assert(false);
                    }
                }
                return Err(e);
            }
            Ok(t) => {
                proof {
                    lemma_chosen_table_wf(layer.kind, trait_views(resolved@));
                }
                let j = t.sample();
                let tr = Trait {
                    trait_type: layer.name.clone(),
                    value: t.entries[j].name.clone(),
                };
                let ghost chosen = *t;
                let ghost old_rv = trait_views(resolved@);
                resolved.push(tr);
                proof {
                    let rv = trait_views(resolved@);
                    assert(rv =~= old_rv.push(tr@));
                    assert(rv.take(i as int) =~= old_rv);
                    assert(value_in_table(tr.value@, chosen)) by {
                        assert(chosen.entries@[j as int].name@ == tr.value@);
                        assert(chosen.entries@[j as int].weight > 0);
                    }
                    assert(layer_resolved_ok(config.attributes@, rv, i as int));
                    assert forall|j2: int| 0 <= j2 < i + 1 implies #[trigger] layer_resolved_ok(
                        config.attributes@,
                        rv,
                        j2,
                    ) by {
                        if j2 < i {
                            assert(layer_resolved_ok(config.attributes@, old_rv, j2));
                            assert(rv.take(j2) =~= old_rv.take(j2));
                            assert(rv[j2] == old_rv[j2]);
                        }
                    }
                }
            }
        }
        i = i + 1;
    }
    Ok(resolved)
}

/// The spec form of the batch's roll collection: each roll as its pair
/// sequence.
pub open spec fn rolls_views(rs: Seq<Vec<Trait>>) -> Seq<Seq<(Seq<char>, Seq<char>)>> {
    rs.map_values(|r: Vec<Trait>| trait_views(r@))
}

/// Whether `cand`, restricted to its non-meta pairs, already appears among
/// `prior` under the same restriction.
pub open spec fn duplicate_of(
    prior: Seq<Seq<(Seq<char>, Seq<char>)>>,
    cand: Seq<(Seq<char>, Seq<char>)>,
) -> bool {
    exists|i: int|
        0 <= i < prior.len() && non_meta_views(#[trigger] prior[i]) == non_meta_views(cand)
}

/// Whether the roll's non-meta pairs already appeared in the batch.
pub fn is_duplicate(generated: &Vec<Vec<Trait>>, cand: &Vec<Trait>) -> (r: bool)
    ensures
        r == duplicate_of(rolls_views(generated@), trait_views(cand@)),
{
    let cand_nm = filter_non_meta(cand);
    let mut i: usize = 0;
    while i < generated.len()
        invariant
            i <= generated@.len(),
            trait_views(cand_nm@) == non_meta_views(trait_views(cand@)),
            forall|j: int| 0 <= j < i ==> non_meta_views(#[trigger] rolls_views(generated@)[j])
                != non_meta_views(trait_views(cand@)),
        decreases generated@.len() - i,
    {
        let g_nm = filter_non_meta(&generated[i]);
        if traits_equal(&g_nm, &cand_nm) {
            proof {
                assert(rolls_views(generated@)[i as int] == trait_views(generated@[i as int]@));
                assert(non_meta_views(rolls_views(generated@)[i as int]) == non_meta_views(
                    trait_views(cand@),
                ));
            }
            return true;
        }
        proof {
            assert(rolls_views(generated@)[i as int] == trait_views(generated@[i as int]@));
        }
        i = i + 1;
    }
    false
}

/// An owned copy of a roll with the same pairs.
pub fn duplicate_roll(v: &Vec<Trait>) -> (c: Vec<Trait>)
    ensures
        trait_views(c@) == trait_views(v@),
{
    let mut c: Vec<Trait> = Vec::new();
    let mut i: usize = 0;
    while i < v.len()
        invariant
            i <= v@.len(),
            c@.len() == i,
            forall|j: int| 0 <= j < i ==> trait_views(c@)[j] == trait_views(v@)[j],
        decreases v@.len() - i,
    {
        let t = v[i].duplicate();
        c.push(t);
        i = i + 1;
    }
    proof {
        assert(trait_views(c@) =~= trait_views(v@));
    }
    c
}

/// Resolves one item under the uniqueness policy.  With `require_unique`
/// set, a roll whose non-meta pairs already appear in `generated` is
/// re-rolled, up to `max_retries` times before the batch is declared
/// exhausted; a fresh roll is recorded in `generated` before it is
/// returned.  Without the flag this is a pass-through: no bookkeeping, no
/// retry.
pub fn resolve_unique(config: &Config, generated: &mut Vec<Vec<Trait>>) -> (r: Result<
    Vec<Trait>,
    GenError,
>)
    requires
        config.wf(),
    ensures
        r matches Ok(rv) ==> resolved_ok(config.attributes@, trait_views(rv@)),
        r matches Ok(rv) ==> (config.require_unique ==> !duplicate_of(
            rolls_views(old(generated)@),
            trait_views(rv@),
        ) && rolls_views(final(generated)@) == rolls_views(old(generated)@).push(
            trait_views(rv@),
        )),
        !(r is Ok && config.require_unique) ==> final(generated)@ == old(generated)@,
        r matches Err(e) ==> (e is UnmatchedCondition || (e is UniquenessExhausted
            && config.require_unique)),
        config_total(*config) && !config.require_unique ==> r is Ok,
{
    let mut retries: u32 = 0;
    loop
        invariant
            config.wf(),
            generated@ == old(generated)@,
            retries <= config.max_retries,
        decreases config.max_retries - retries,
    {
        match resolve_item(config) {
            Err(e) => {
                return Err(e);
            }
            Ok(rv) => {
                if !config.require_unique {
                    return Ok(rv);
                }
                if !is_duplicate(generated, &rv) {
                    let copy = duplicate_roll(&rv);
                    let ghost old_g = generated@;
                    generated.push(copy);
                    proof {
                        assert(rolls_views(generated@) =~= rolls_views(old_g).push(
                            trait_views(rv@),
                        ));
                    }
                    return Ok(rv);
                }
                if retries >= config.max_retries {
                    return Err(GenError::UniquenessExhausted { retries });
                }
                retries = retries + 1;
            }
        }
    }
}

} // verus!
