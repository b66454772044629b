use resin::batch::generate_rolls;
use resin::compose::composite_plan;
use resin::config::Attribute;
use resin::config::Collection;
use resin::config::Config;
use resin::config::LayerDecl;
use resin::json::parse_record_traits;
use resin::json::record_to_json;
use resin::metadata::create_metadata;
use resin::metadata::create_metadata_private;
use resin::rarity::RarityTable;
use resin::rarity::WeightedValue;

fn table(entries: Vec<(&str, u64)>) -> RarityTable {
    RarityTable::new(
        entries
            .into_iter()
            .map(|(n, w)| WeightedValue { name: n.to_string(), weight: w })
            .collect(),
    )
    .unwrap()
}

#[test]
fn two_layer_batch_produces_three_full_items() {
    // two layers, `bg` split evenly between red and blue, `eyes` fixed;
    // three items, no guaranteed rolls, no uniqueness
    let config = Config {
        name: "NFT Title".to_string(),
        symbol: "SNFT".to_string(),
        description: "Hello, NFT!".to_string(),
        external_url: "https://example.com".to_string(),
        seller_fee_basis_points: 0,
        creators: vec![],
        collection: Collection {
            name: "NFT Collection".to_string(),
            family: "NFT Family".to_string(),
        },
        attributes: vec![
            LayerDecl {
                name: "bg".to_string(),
                kind: Attribute::Flat(table(vec![("red.png", 1), ("blue.png", 1)])),
            },
            LayerDecl {
                name: "eyes".to_string(),
                kind: Attribute::Flat(table(vec![("big.png", 1)])),
            },
        ],
        guaranteed_attribute_rolls: vec![],
        amount: 3,
        require_unique: false,
        max_retries: 64,
    };
    assert!(config.is_wf());
    let rolls = generate_rolls(&config).unwrap();
    assert_eq!(rolls.len(), 3);

    for (i, roll) in rolls.iter().enumerate() {
        let public = create_metadata(i as u32, roll, &config);
        assert_eq!(public.attributes.len(), 2);
        assert_eq!(public.attributes[0].trait_type, "bg");
        assert!(public.attributes[0].value == "red" || public.attributes[0].value == "blue");
        assert_eq!(public.attributes[1].trait_type, "eyes");
        assert_eq!(public.attributes[1].value, "big");
        assert_eq!(public.name, format!("NFT Title #{}", i));
        assert_eq!(public.image, format!("{}.png", i));

        // the side channel record drives compositing: one bg under one eyes
        let private = create_metadata_private(i as u32, roll, &config);
        let recovered = parse_record_traits(&record_to_json(&private)).unwrap();
        let plan = composite_plan(&recovered, "assets");
        assert_eq!(plan.len(), 2);
        assert!(
            plan[0] == "assets/bg/red.png" || plan[0] == "assets/bg/blue.png",
            "unexpected base layer {}",
            plan[0]
        );
        assert_eq!(plan[1], "assets/eyes/big.png");
    }
}
