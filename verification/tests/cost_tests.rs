//! The cost model and the two mana-cost parsers: payments accumulate per
//! structural color key, hybrids are their own keys, and an empty cost is
//! the single entry {NoColor: 0}.
use mtg::colors::Color;
use mtg::cost::{costs_scan_ok, parse_costs, parse_costs_better, Cost, Payment};

fn hybrid(colors: Vec<Color>, costs: Vec<u8>) -> Color {
    Color::MultiColor { colors, multicolor_cost: costs }
}

#[test]
fn parse_costs_better_works() {
    let cost = parse_costs_better("{G}");
    assert_eq!(cost.get(&Color::G), Some(1));
}

#[test]
fn parse_costs_better_doesnt_duplicate_multicolors() {
    let cost = parse_costs_better("{G/W}{G/W}");
    let key = hybrid(vec![Color::G, Color::W], vec![1, 1]);
    assert_eq!(cost.get(&key), Some(2));
    // plain G and plain W must be absent from the result
    assert_eq!(cost.get(&Color::W), None);
    assert_eq!(cost.get(&Color::G), None);
    assert_eq!(cost.len(), 1);
}

#[test]
fn parse_costs_better_accepts_colorless_multicolors() {
    let cost = parse_costs_better("{2/U}{2/U}");
    let key = hybrid(vec![Color::C, Color::U], vec![2, 1]);
    assert_eq!(cost.get(&key), Some(2));
    // plain colorless must be absent
    assert_eq!(cost.get(&Color::C), None);
    assert_eq!(cost.len(), 1);
}

#[test]
fn parse_costs_better_hybrid_identity_is_structural() {
    let cost = parse_costs_better("{G/W}{W/G}");
    // source order matters: {G/W} and {W/G} are distinct ledger entries
    assert_eq!(cost.get(&hybrid(vec![Color::G, Color::W], vec![1, 1])), Some(1));
    assert_eq!(cost.get(&hybrid(vec![Color::W, Color::G], vec![1, 1])), Some(1));
    assert_eq!(cost.len(), 2);
}

#[test]
fn parse_costs_better_tolerates_unknown_symbols() {
    // unknown letters degrade to the sentinel color instead of failing
    let cost = parse_costs_better("{Z}{G}");
    assert_eq!(cost.get(&Color::NoColor), Some(1));
    assert_eq!(cost.get(&Color::G), Some(1));
}

#[test]
fn costs_scan_rejects_boundary_slashes() {
    assert!(!costs_scan_ok("/U"));
    assert!(!costs_scan_ok("2/"));
    assert!(costs_scan_ok("{2/U}{G}"));
    assert!(costs_scan_ok(""));
    // a slash consumed as a hybrid's second symbol is never processed itself
    assert!(costs_scan_ok("a//"));
}

#[test]
fn parse_costs_better_empty_is_costless() {
    let cost = parse_costs_better("");
    assert_eq!(cost.get(&Color::NoColor), Some(0));
    assert_eq!(cost.len(), 1);
}

#[test]
fn parse_costs_maps_variable_costs() {
    let cost = parse_costs("{X}{X}{G}");
    assert_eq!(cost.get(&Color::X), Some(2));
    assert_eq!(cost.get(&Color::G), Some(1));
}

#[test]
fn parse_costs_maps_colorless() {
    let cost = parse_costs("{4}");
    assert_eq!(cost.get(&Color::C), Some(4));
}

#[test]
fn parse_costs_maps_colors() {
    let cost = parse_costs("{G}{G}");
    assert_eq!(cost.get(&Color::G), Some(2));
}

#[test]
fn parse_costs_maps_everything() {
    let cost = parse_costs("{G}{G}{3}{R}{r}{blue}{w}{B}");
    assert_eq!(cost.get(&Color::G), Some(2));
    assert_eq!(cost.get(&Color::C), Some(3));
    assert_eq!(cost.get(&Color::R), Some(2));
    assert_eq!(cost.get(&Color::U), Some(1));
    assert_eq!(cost.get(&Color::W), Some(1));
    assert_eq!(cost.get(&Color::B), Some(1));
    // and no other keys
    assert_eq!(cost.len(), 6);
}

#[test]
fn parse_costs_maps_empty() {
    let cost = parse_costs("");
    assert_eq!(cost.get(&Color::NoColor), Some(0));
}

#[test]
fn parse_costs_skips_hybrid_symbols() {
    // the strict extractor only sees {word} tokens; {G/W} is not one
    let cost = parse_costs("{G/W}{B}");
    assert_eq!(cost.get(&Color::B), Some(1));
    assert_eq!(cost.len(), 1);
}

#[test]
fn cost_accepts_payment() {
    let cost = Cost::new(vec![Payment { color: Color::G, quantity: 2 }]);
    assert_eq!(cost.contains_key(&Color::G), true);
    assert_eq!(cost.contains_key(&Color::B), false);
    assert_eq!(cost.get(&Color::G).unwrap(), 2);
}

#[test]
fn cost_accepts_multiple_payments() {
    let cost = Cost::new(vec![
        Payment { color: Color::G, quantity: 2 },
        Payment { color: Color::R, quantity: 3 },
    ]);
    assert_eq!(cost.contains_key(&Color::G), true);
    assert_eq!(cost.contains_key(&Color::R), true);
    assert_eq!(cost.get(&Color::G).unwrap(), 2);
    assert_eq!(cost.get(&Color::R).unwrap(), 3);
}

#[test]
fn cost_accepts_multiple_payments_of_same_value() {
    let cost = Cost::new(vec![
        Payment { color: Color::G, quantity: 1 },
        Payment { color: Color::G, quantity: 3 },
    ]);
    assert_eq!(cost.contains_key(&Color::G), true);
    assert_eq!(cost.get(&Color::G).unwrap(), 4);
}

#[test]
fn cost_accepts_none_payments() {
    let cost = Cost::new(vec![]);
    assert_eq!(cost.get(&Color::NoColor).unwrap(), 0);
    assert_eq!(cost.contains_key(&Color::G), false);
    assert_eq!(cost.contains_key(&Color::NoColor), true);
    // {NoColor: 0} is one entry, not an empty mapping
    assert_eq!(cost.len(), 1);
}
