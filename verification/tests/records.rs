use resin::attributes::Trait;
use resin::compose::check_assets;
use resin::compose::composite_plan;
use resin::compose::output_image_name;
use resin::config::Attribute;
use resin::config::Collection;
use resin::config::Config;
use resin::config::Creator;
use resin::config::LayerDecl;
use resin::errors::GenError;
use resin::json::parse_record_traits;
use resin::json::record_to_json;
use resin::metadata::create_metadata;
use resin::metadata::create_metadata_private;
use resin::rarity::RarityTable;
use resin::rarity::WeightedValue;

fn table(entries: Vec<(&str, u64)>) -> RarityTable {
    RarityTable::new(
        entries
            .into_iter()
            .map(|(n, w)| WeightedValue { name: n.to_string(), weight: w })
            .collect(),
    )
    .unwrap()
}

fn small_config() -> Config {
    Config {
        name: "A".to_string(),
        symbol: "S".to_string(),
        description: "D".to_string(),
        external_url: "U".to_string(),
        seller_fee_basis_points: 0,
        creators: vec![Creator { address: "addr".to_string(), share: 100 }],
        collection: Collection { name: "C".to_string(), family: "F".to_string() },
        attributes: vec![LayerDecl {
            name: "bg".to_string(),
            kind: Attribute::Flat(table(vec![("red.png", 1)])),
        }],
        guaranteed_attribute_rolls: vec![],
        amount: 1,
        require_unique: false,
        max_retries: 64,
    }
}

fn tr(t: &str, v: &str) -> Trait {
    Trait { trait_type: t.to_string(), value: v.to_string() }
}

#[test]
fn public_record_filters_and_strips() {
    let attrs = vec![tr("_key", "joker"), tr("bg", "red.png")];
    let m = create_metadata(7, &attrs, &small_config());
    assert_eq!(m.name, "A #7");
    assert_eq!(m.image, "7.png");
    assert_eq!(m.edition, 0);
    assert_eq!(m.seller_fee_basis_points, 0);
    assert_eq!(m.attributes.len(), 1);
    assert_eq!(m.attributes[0].trait_type, "bg");
    assert_eq!(m.attributes[0].value, "red");
    assert_eq!(m.properties.files.len(), 1);
    assert_eq!(m.properties.files[0].uri, "7.png");
    assert_eq!(m.properties.files[0].file_type, "image/png");
    assert_eq!(m.properties.category, "image");
    assert_eq!(m.properties.creators.len(), 1);
    assert_eq!(m.collection.name, "C");
}

#[test]
fn private_record_keeps_every_pair_verbatim() {
    let attrs = vec![tr("_key", "joker"), tr("bg", "red.png")];
    let m = create_metadata_private(7, &attrs, &small_config());
    assert_eq!(m.attributes.len(), 2);
    assert_eq!(m.attributes[0].trait_type, "_key");
    assert_eq!(m.attributes[0].value, "joker");
    assert_eq!(m.attributes[1].value, "red.png");
}

#[test]
fn record_json_has_the_exact_expected_shape() {
    let attrs = vec![tr("bg", "red.png")];
    let m = create_metadata(7, &attrs, &small_config());
    let s = record_to_json(&m);
    let expected = "{\"name\":\"A #7\",\"symbol\":\"S\",\"description\":\"D\",\"seller_fee_basis_points\":0,\"image\":\"7.png\",\"external_url\":\"U\",\"edition\":0,\"attributes\":[{\"trait_type\":\"bg\",\"value\":\"red\"}],\"properties\":{\"files\":[{\"uri\":\"7.png\",\"type\":\"image/png\"}],\"category\":\"image\",\"creators\":[{\"address\":\"addr\",\"share\":100}]},\"collection\":{\"name\":\"C\",\"family\":\"F\"}}";
    assert_eq!(s, expected);
}

#[test]
fn trait_list_survives_the_json_round_trip() {
    let attrs = vec![tr("_key", "joker"), tr("bg", "red.png"), tr("face", "gold-face.png")];
    let m = create_metadata_private(3, &attrs, &small_config());
    let s = record_to_json(&m);
    let parsed = parse_record_traits(&s).unwrap();
    assert_eq!(parsed.len(), attrs.len());
    for (p, a) in parsed.iter().zip(attrs.iter()) {
        assert_eq!(p.trait_type, a.trait_type);
        assert_eq!(p.value, a.value);
    }
}

#[test]
fn empty_trait_list_survives_the_round_trip() {
    let attrs: Vec<Trait> = vec![];
    let m = create_metadata_private(0, &attrs, &small_config());
    let parsed = parse_record_traits(&record_to_json(&m)).unwrap();
    assert_eq!(parsed.len(), 0);
}

#[test]
fn awkward_characters_survive_the_round_trip() {
    let attrs = vec![
        tr("quote\"layer", "va\\lue.png"),
        tr("tabs\tand\nbreaks", "ctrl\u{01}char.png"),
        tr("unicode", "ünïcödé.png"),
    ];
    let m = create_metadata_private(1, &attrs, &small_config());
    let parsed = parse_record_traits(&record_to_json(&m)).unwrap();
    assert_eq!(parsed.len(), 3);
    for (p, a) in parsed.iter().zip(attrs.iter()) {
        assert_eq!(p.trait_type, a.trait_type);
        assert_eq!(p.value, a.value);
    }
}

#[test]
fn garbage_input_does_not_parse() {
    assert!(parse_record_traits("not json at all").is_none());
    assert!(parse_record_traits("").is_none());
    assert!(parse_record_traits("{\"name\":\"unterminated").is_none());
}

#[test]
fn composite_plan_orders_non_meta_layers() {
    let attrs = vec![tr("_key", "joker"), tr("bg", "red.png"), tr("eyes", "big.png")];
    let plan = composite_plan(&attrs, "assets");
    assert_eq!(plan.len(), 2);
    assert_eq!(plan[0], "assets/bg/red.png");
    assert_eq!(plan[1], "assets/eyes/big.png");
}

#[test]
fn missing_second_layer_fails_only_that_item() {
    // item whose second layer's asset is absent fails with that position
    let broken = check_assets(&vec![true, false, true]);
    match broken {
        Err(GenError::MissingAsset { layer_index }) => assert_eq!(layer_index, 1),
        _ => panic!("expected a missing asset"),
    }
    // a sibling item with all assets present still completes
    assert!(check_assets(&vec![true, true, true]).is_ok());
}

#[test]
fn output_name_interpolates_the_index() {
    assert_eq!(output_image_name(0), "0.png");
    assert_eq!(output_image_name(42), "42.png");
}
