//! Compositing plans.  The library never touches pixels or the
//! filesystem: it computes, for one item, the ordered list of asset paths
//! whose images are stacked (first path the base layer, every later one
//! drawn on top), and it judges the presence flags that the caller
//! gathered for those paths, failing the item on the first absent asset.

use vstd::prelude::*;

use crate::attributes::Trait;
use crate::attributes::filter_non_meta;
use crate::attributes::non_meta_views;
use crate::attributes::trait_views;
use crate::errors::GenError;
use crate::text::dec_str;
use crate::text::u32_to_string;

verus! {

/// The asset path of one layer: `<root>/<layer name>/<value name>`, the
/// value kept with its extension.
pub open spec fn asset_path_spec(root: Seq<char>, layer: Seq<char>, value: Seq<char>) -> Seq<char> {
    root + "/"@ + layer + "/"@ + value
}

/// The ordered asset paths of one item's composite: one per non-meta
/// pair, in layer declaration order.  The first path is the base image;
/// each later one is stacked on top of the result so far.
pub fn composite_plan(attributes: &Vec<Trait>, assets_root: &str) -> (plan: Vec<String>)
    ensures
        plan@.len() == non_meta_views(trait_views(attributes@)).len(),
        forall|i: int|
            0 <= i < plan@.len() ==> (#[trigger] plan@[i])@ == asset_path_spec(
                assets_root@,
                non_meta_views(trait_views(attributes@))[i].0,
                non_meta_views(trait_views(attributes@))[i].1,
            ),
{
    let nm = filter_non_meta(attributes);
    let mut plan: Vec<String> = Vec::new();
    let mut i: usize = 0;
    while i < nm.len()
        invariant
            i <= nm@.len(),
            trait_views(nm@) == non_meta_views(trait_views(attributes@)),
            plan@.len() == i,
            forall|j: int|
                0 <= j < i ==> (#[trigger] plan@[j])@ == asset_path_spec(
                    assets_root@,
                    trait_views(nm@)[j].0,
                    trait_views(nm@)[j].1,
                ),
        decreases nm@.len() - i,
    {
        let mut path = assets_root.to_owned();
        path.append("/");
        path.append(nm[i].trait_type.as_str());
        path.append("/");
        path.append(nm[i].value.as_str());
        let ghost old_plan = plan@;
        plan.push(path);
        proof {
            assert(forall|j: int| 0 <= j < i ==> plan@[j] == old_plan[j]);
            assert(trait_views(nm@)[i as int] == nm@[i as int]@);
        }
        i = i + 1;
    }
    plan
}

/// The output file name of item `id`: `<id>.png`.
pub fn output_image_name(id: u32) -> (s: String)
    ensures
        s@ == dec_str(id as nat) + ".png"@,
{
    let mut s = u32_to_string(id);
    s.append(".png");
    s
}

/// Judges the presence flags gathered for a composite plan's paths: the
/// item fails on the first absent asset, and the error names that layer's
/// position; with every asset present the item may be composited.
pub fn check_assets(present: &Vec<bool>) -> (r: Result<(), GenError>)
    ensures
        r is Ok <==> (forall|i: int| 0 <= i < present@.len() ==> present@[i]),
        r matches Err(e) ==> (e matches GenError::MissingAsset { layer_index } && layer_index
            < present@.len() && !present@[layer_index as int] && (forall|j: int|
            0 <= j < layer_index ==> present@[j])),
{
    let mut i: usize = 0;
    while i < present.len()
        invariant
            i <= present@.len(),
            forall|j: int| 0 <= j < i ==> present@[j],
        decreases present@.len() - i,
    {
        if !present[i] {
            return Err(GenError::MissingAsset { layer_index: i });
        }
        i = i + 1;
    }
    Ok(())
}

} // verus!
