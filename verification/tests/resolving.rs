use resin::attributes::Trait;
use resin::batch::generate_rolls;
use resin::condition::Condition;
use resin::condition::eval_condition;
use resin::condition::parse_condition;
use resin::config::Attribute;
use resin::config::Collection;
use resin::config::Config;
use resin::config::ConditionalCase;
use resin::config::LayerDecl;
use resin::errors::GenError;
use resin::rarity::RarityTable;
use resin::rarity::WeightedValue;
use resin::resolve::resolve_item;

fn table(entries: Vec<(&str, u64)>) -> RarityTable {
    RarityTable::new(
        entries
            .into_iter()
            .map(|(n, w)| WeightedValue { name: n.to_string(), weight: w })
            .collect(),
    )
    .unwrap()
}

fn flat_layer(name: &str, entries: Vec<(&str, u64)>) -> LayerDecl {
    LayerDecl { name: name.to_string(), kind: Attribute::Flat(table(entries)) }
}

fn config(layers: Vec<LayerDecl>, amount: u32, require_unique: bool) -> Config {
    Config {
        name: "NFT Title".to_string(),
        symbol: "SNFT".to_string(),
        description: "Hello, NFT!".to_string(),
        external_url: "https://example.com".to_string(),
        seller_fee_basis_points: 0,
        creators: vec![],
        collection: Collection { name: "NFT Collection".to_string(), family: "NFT Family".to_string() },
        attributes: layers,
        guaranteed_attribute_rolls: vec![],
        amount,
        require_unique,
        max_retries: 64,
    }
}

#[test]
fn conditions_parse_into_the_expected_shapes() {
    assert!(matches!(parse_condition("_"), Condition::Fallback));
    match parse_condition("_key:joker") {
        Condition::Single(p) => {
            assert_eq!(p.trait_name, "_key");
            assert_eq!(p.value, "joker");
        }
        _ => panic!("expected a single predicate"),
    }
    match parse_condition("joker") {
        Condition::Single(p) => {
            assert_eq!(p.trait_name, "_key");
            assert_eq!(p.value, "joker");
        }
        _ => panic!("expected a single predicate"),
    }
    match parse_condition("bg:red & face:gold") {
        Condition::All(ps) => {
            assert_eq!(ps.len(), 2);
            assert_eq!(ps[0].trait_name, "bg");
            assert_eq!(ps[0].value, "red");
            assert_eq!(ps[1].trait_name, "face");
            assert_eq!(ps[1].value, "gold");
        }
        _ => panic!("expected a conjunction"),
    }
    match parse_condition("bg:red|bg:blue") {
        Condition::Any(ps) => {
            assert_eq!(ps.len(), 2);
            assert_eq!(ps[1].value, "blue");
        }
        _ => panic!("expected a disjunction"),
    }
}

#[test]
fn condition_matching_uses_stripped_values() {
    let resolved = vec![
        Trait { trait_type: "bg".to_string(), value: "red.png".to_string() },
        Trait { trait_type: "face".to_string(), value: "gold-face.png".to_string() },
    ];
    assert!(eval_condition(&parse_condition("bg:red"), &resolved));
    assert!(!eval_condition(&parse_condition("bg:red.png"), &resolved));
    assert!(eval_condition(&parse_condition("bg:red&face:gold-face"), &resolved));
    assert!(!eval_condition(&parse_condition("bg:blue&face:gold-face"), &resolved));
    assert!(eval_condition(&parse_condition("bg:blue|face:gold-face"), &resolved));
    assert!(!eval_condition(&parse_condition("bg:blue|face:silver"), &resolved));
    assert!(!eval_condition(&Condition::Fallback, &resolved));
}

#[test]
fn conditional_layer_prefers_matching_key_over_fallback() {
    // a keyed table selected when `_key` rolled `joker`, with a `_` fallback
    let layers = vec![
        flat_layer("_key", vec![("joker", 1)]),
        LayerDecl {
            name: "mouth".to_string(),
            kind: Attribute::Conditional(vec![
                ConditionalCase {
                    condition: parse_condition("_key:joker"),
                    table: table(vec![("triangle-mouth.png", 1)]),
                },
                ConditionalCase {
                    condition: parse_condition("_"),
                    table: table(vec![("block-mouth.png", 1)]),
                },
            ]),
        },
    ];
    let c = config(layers, 1, false);
    assert!(c.is_wf());
    let rolled = resolve_item(&c).unwrap();
    assert_eq!(rolled[1].trait_type, "mouth");
    assert_eq!(rolled[1].value, "triangle-mouth.png");
}

#[test]
fn conditional_layer_falls_back_when_nothing_matches() {
    let layers = vec![
        flat_layer("_key", vec![("plain", 1)]),
        LayerDecl {
            name: "mouth".to_string(),
            kind: Attribute::Conditional(vec![
                ConditionalCase {
                    condition: parse_condition("_key:joker"),
                    table: table(vec![("triangle-mouth.png", 1)]),
                },
                ConditionalCase {
                    condition: parse_condition("_"),
                    table: table(vec![("block-mouth.png", 1)]),
                },
            ]),
        },
    ];
    let c = config(layers, 1, false);
    let rolled = resolve_item(&c).unwrap();
    assert_eq!(rolled[1].value, "block-mouth.png");
}

#[test]
fn unmatched_condition_without_fallback_names_the_layer() {
    let layers = vec![
        flat_layer("_key", vec![("plain", 1)]),
        LayerDecl {
            name: "mouth".to_string(),
            kind: Attribute::Conditional(vec![ConditionalCase {
                condition: parse_condition("_key:joker"),
                table: table(vec![("triangle-mouth.png", 1)]),
            }]),
        },
    ];
    let c = config(layers, 1, false);
    match resolve_item(&c) {
        Err(GenError::UnmatchedCondition { layer }) => assert_eq!(layer, "mouth"),
        other => panic!("expected an unmatched condition, got {:?}", other.is_ok()),
    }
}

#[test]
fn unique_batch_yields_pairwise_distinct_rolls() {
    let layers = vec![
        flat_layer("bg", vec![("red.png", 1), ("blue.png", 1)]),
        flat_layer("eyes", vec![("big.png", 1), ("small.png", 1)]),
    ];
    let c = config(layers, 4, true);
    let rolls = generate_rolls(&c).unwrap();
    assert_eq!(rolls.len(), 4);
    for i in 0..rolls.len() {
        for j in (i + 1)..rolls.len() {
            let same = rolls[i].len() == rolls[j].len()
                && rolls[i]
                    .iter()
                    .zip(rolls[j].iter())
                    .all(|(a, b)| a.trait_type == b.trait_type && a.value == b.value);
            assert!(!same, "rolls {} and {} are identical", i, j);
        }
    }
}

#[test]
fn exhausted_uniqueness_budget_fails_the_batch() {
    let layers = vec![flat_layer("bg", vec![("red.png", 1)])];
    let c = config(layers, 2, true);
    match generate_rolls(&c) {
        Err(GenError::UniquenessExhausted { .. }) => {}
        _ => panic!("expected the uniqueness budget to run out"),
    }
}

#[test]
fn guaranteed_roll_lands_at_the_computed_slot() {
    // amount 10, one guaranteed roll: slot width 10 / 2 = 5, slot at index 5
    let layers = vec![
        flat_layer("bg", vec![("red.png", 1)]),
        flat_layer("face", vec![("cyan-face.png", 1)]),
    ];
    let mut c = config(layers, 10, false);
    c.guaranteed_attribute_rolls =
        vec![vec!["black.png".to_string(), "white-face.png".to_string()]];
    assert!(c.is_wf());
    let rolls = generate_rolls(&c).unwrap();
    assert_eq!(rolls.len(), 10);
    assert_eq!(rolls[5][0].trait_type, "bg");
    assert_eq!(rolls[5][0].value, "black.png");
    assert_eq!(rolls[5][1].trait_type, "face");
    assert_eq!(rolls[5][1].value, "white-face.png");
    for (i, roll) in rolls.iter().enumerate() {
        if i != 5 {
            assert_eq!(roll[0].value, "red.png");
            assert_eq!(roll[1].value, "cyan-face.png");
        }
    }
}

#[test]
fn guaranteed_rolls_are_exempt_from_uniqueness() {
    // the guaranteed roll duplicates the only sampled combination, and the
    // batch still succeeds because slots bypass the dedup check
    let layers = vec![flat_layer("bg", vec![("red.png", 1)])];
    let mut c = config(layers, 2, true);
    c.guaranteed_attribute_rolls = vec![vec!["red.png".to_string()]];
    let rolls = generate_rolls(&c).unwrap();
    assert_eq!(rolls.len(), 2);
    assert_eq!(rolls[1][0].value, "red.png");
}

#[test]
fn too_small_amount_for_guaranteed_rolls_is_rejected() {
    let layers = vec![flat_layer("bg", vec![("red.png", 1)])];
    let mut c = config(layers, 1, false);
    c.guaranteed_attribute_rolls = vec![vec!["red.png".to_string()], vec!["red.png".to_string()]];
    assert!(!c.is_wf());
}
