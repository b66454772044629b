use resin::rarity::RarityTable;
use resin::rarity::WeightedValue;

fn table(entries: Vec<(&str, u64)>) -> RarityTable {
    RarityTable::new(
        entries
            .into_iter()
            .map(|(n, w)| WeightedValue { name: n.to_string(), weight: w })
            .collect(),
    )
    .unwrap()
}

#[test]
fn integration() {
    assert!(true);
}

#[test]
fn attribute_generation() {
    assert!(true);
}

#[test]
fn creation() {
    assert!(true);
}

#[test]
fn tests_creation() {
    assert!(true);
}

#[test]
fn read_metadata() {
    assert!(true);
}

#[test]
fn pick_index_walks_cumulative_windows() {
    let t = table(vec![("a", 2), ("b", 3), ("c", 1)]);
    assert_eq!(t.total(), 6);
    assert_eq!(t.pick_index(0), 0);
    assert_eq!(t.pick_index(1), 0);
    assert_eq!(t.pick_index(2), 1);
    assert_eq!(t.pick_index(4), 1);
    assert_eq!(t.pick_index(5), 2);
}

#[test]
fn pick_index_skips_zero_weight_values() {
    let t = table(vec![("never", 0), ("always", 1)]);
    assert_eq!(t.pick_index(0), 1);
}

#[test]
fn sample_never_selects_zero_weight() {
    let t = table(vec![("never", 0), ("always", 1)]);
    for _ in 0..100 {
        assert_eq!(t.sample(), 1);
    }
}

#[test]
fn sampling_frequency_tracks_weights() {
    // weights 1:3, so the second value should appear about 75% of the time
    let t = table(vec![("rare", 1), ("common", 3)]);
    let draws = 4000;
    let mut common = 0u32;
    for _ in 0..draws {
        if t.sample() == 1 {
            common += 1;
        }
    }
    let freq = common as f64 / draws as f64;
    assert!((freq - 0.75).abs() < 0.08, "frequency {} too far from 0.75", freq);
}

#[test]
fn empty_table_is_rejected() {
    let r = RarityTable::new(vec![]);
    assert!(matches!(r, Err(resin::errors::GenError::EmptyTable)));
}

#[test]
fn all_zero_weights_are_rejected() {
    let r = RarityTable::new(vec![
        WeightedValue { name: "a".to_string(), weight: 0 },
        WeightedValue { name: "b".to_string(), weight: 0 },
    ]);
    assert!(matches!(r, Err(resin::errors::GenError::ZeroWeightSum)));
}

#[test]
fn overflowing_weights_are_rejected() {
    let r = RarityTable::new(vec![
        WeightedValue { name: "a".to_string(), weight: u64::MAX },
        WeightedValue { name: "b".to_string(), weight: 1 },
    ]);
    assert!(matches!(r, Err(resin::errors::GenError::WeightSumOverflow)));
}

#[test]
fn stylize_strips_the_last_extension() {
    assert_eq!(resin::text::stylize_asset_name("blue.png"), "blue");
    assert_eq!(resin::text::stylize_asset_name("archive.tar.gz"), "archive.tar");
    assert_eq!(resin::text::stylize_asset_name(".hidden"), ".hidden");
    assert_eq!(resin::text::stylize_asset_name("noext"), "noext");
    assert_eq!(resin::text::stylize_asset_name(""), "");
    assert_eq!(resin::text::stylize_asset_name("trailing."), "trailing");
}

#[test]
fn u32_rendering_is_decimal() {
    assert_eq!(resin::text::u32_to_string(0), "0");
    assert_eq!(resin::text::u32_to_string(7), "7");
    assert_eq!(resin::text::u32_to_string(1337), "1337");
    assert_eq!(resin::text::u32_to_string(4294967295), "4294967295");
}
