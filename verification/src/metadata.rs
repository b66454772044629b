//! The metadata emitter's record: the public form of one item, with the
//! collection fields copied verbatim, the item index interpolated into the
//! name and the image file name, and the resolved pairs rendered as trait
//! entries — meta-attributes removed and value extensions stripped.  A
//! private form keeps every pair verbatim, so that meta-attributes and
//! extensions survive the handoff to the compositing phase.

use vstd::prelude::*;

use crate::attributes::Trait;
use crate::attributes::filter_non_meta;
use crate::attributes::non_meta_views;
use crate::attributes::stylize_all;
use crate::attributes::stylized_views;
use crate::attributes::trait_views;
use crate::config::Collection;
use crate::config::Config;
use crate::config::Creator;
use crate::text::dec_str;
use crate::text::u32_to_string;

verus! {

/// One file reference of the record's properties block.
pub struct PropertyFile {
    pub uri: String,
    pub file_type: String,
}

/// The record's properties block: the image file, the category, and the
/// creator list.
pub struct Properties {
    pub files: Vec<PropertyFile>,
    pub category: String,
    pub creators: Vec<Creator>,
}

/// One item's metadata record.
pub struct NFTMetadata {
    pub name: String,
    pub symbol: String,
    pub description: String,
    pub seller_fee_basis_points: u32,
    pub image: String,
    pub external_url: String,
    pub edition: u16,
    pub attributes: Vec<Trait>,
    pub properties: Properties,
    pub collection: Collection,
}

/// The spec form of a creator list.
pub open spec fn creators_views(cs: Seq<Creator>) -> Seq<(Seq<char>, u32)> {
    cs.map_values(|c: Creator| (c.address@, c.share))
}

/// Everything of a record except its trait list, as built for item `id`
/// from `config`: name `"<name> #<id>"`, image `"<id>.png"`, edition 0,
/// category `"image"`, one file entry for the image, and the remaining
/// fields copied verbatim.
pub open spec fn record_base_ok(m: NFTMetadata, id: u32, config: Config) -> bool {
    &&& m.name@ == config.name@ + " #"@ + dec_str(id as nat)
    &&& m.symbol@ == config.symbol@
    &&& m.description@ == config.description@
    &&& m.seller_fee_basis_points == config.seller_fee_basis_points
    &&& m.image@ == dec_str(id as nat) + ".png"@
    &&& m.external_url@ == config.external_url@
    &&& m.edition == 0
    &&& m.properties.files@.len() == 1
    &&& m.properties.files@[0].uri@ == m.image@
    &&& m.properties.files@[0].file_type@ == "image/png"@
    &&& m.properties.category@ == "image"@
    &&& creators_views(m.properties.creators@) == creators_views(config.creators@)
    &&& m.collection.name@ == config.collection.name@
    &&& m.collection.family@ == config.collection.family@
}

fn clone_creators(cs: &Vec<Creator>) -> (r: Vec<Creator>)
    ensures
        creators_views(r@) == creators_views(cs@),
{
    let mut r: Vec<Creator> = Vec::new();
    let mut i: usize = 0;
    while i < cs.len()
        invariant
            i <= cs@.len(),
            r@.len() == i,
            forall|j: int| 0 <= j < i ==> creators_views(r@)[j] == creators_views(cs@)[j],
        decreases cs@.len() - i,
    {
        let c = Creator { address: cs[i].address.clone(), share: cs[i].share };
        let ghost old_r = r@;
        r.push(c);
        proof {
            assert(forall|j: int| 0 <= j < i ==> creators_views(r@)[j] == creators_views(old_r)[j]);
        }
        i = i + 1;
    }
    proof {
        assert(creators_views(r@) =~= creators_views(cs@));
    }
    r
}

fn build_base(id: u32, attributes: Vec<Trait>, config: &Config) -> (m: NFTMetadata)
    ensures
        record_base_ok(m, id, *config),
        m.attributes@ == attributes@,
{
    let id_str = u32_to_string(id);
    let mut name = config.name.clone();
    name.append(" #");
    name.append(id_str.as_str());
    let mut image = id_str;
    image.append(".png");
    let uri = image.clone();
    NFTMetadata {
        name,
        symbol: config.symbol.clone(),
        description: config.description.clone(),
        seller_fee_basis_points: config.seller_fee_basis_points,
        image,
        external_url: config.external_url.clone(),
        edition: 0,
        attributes,
        properties: Properties {
            files: vec![PropertyFile { uri, file_type: "image/png".to_owned() }],
            category: "image".to_owned(),
            creators: clone_creators(&config.creators),
        },
        collection: Collection {
            name: config.collection.name.clone(),
            family: config.collection.family.clone(),
        },
    }
}

/// Builds the public metadata record of item `id`: the resolved pairs
/// with meta-attributes removed and value extensions stripped, over the
/// base fields that [`record_base_ok`] describes.
pub fn create_metadata(id: u32, attributes: &Vec<Trait>, config: &Config) -> (m: NFTMetadata)
    ensures
        record_base_ok(m, id, *config),
        trait_views(m.attributes@) == stylized_views(non_meta_views(trait_views(attributes@))),
{
    let public = stylize_all(&filter_non_meta(attributes));
    build_base(id, public, config)
}

/// Builds the private side-channel record of item `id`: every resolved
/// pair kept verbatim, meta-attributes and extensions included, so the
/// compositing phase can recover the full resolution.
pub fn create_metadata_private(id: u32, attributes: &Vec<Trait>, config: &Config) -> (m:
    NFTMetadata)
    ensures
        record_base_ok(m, id, *config),
        trait_views(m.attributes@) == trait_views(attributes@),
{
    let copy = crate::resolve::duplicate_roll(attributes);
    build_base(id, copy, config)
}

} // verus!
