//! The behavior inference engine and card instances: tap detection over
//! rules text, the deck-construction quantity rule, and exact-name lookup.
use mtg::card::{can_tap, Card, CardLocation, CardType, RealCard, RealCardError, TapPurpose};
use mtg::card::{BattlefieldBehavior, EntranceBehavior, ExitBehavior, VisibilityBehavior};
use mtg::card_db::{CardDB, CardDBError};
use mtg::cost::parse_costs;

fn sample_card(
    name: &str,
    card_types: Vec<CardType>,
    supertypes: Vec<&str>,
    keywords: Vec<&str>,
    description: &str,
    power: &str,
    toughness: &str,
) -> Card {
    Card {
        card_type: String::new(),
        card_types,
        colors: vec![],
        color_identity: vec![],
        converted_mana_cost: 0,
        description: description.to_string(),
        keywords: keywords.into_iter().map(|k| k.to_string()).collect(),
        layout: "normal".to_string(),
        mana_cost: parse_costs(""),
        mana_value: 0,
        name: name.to_string(),
        power: power.to_string(),
        subtypes: vec![],
        supertypes: supertypes.into_iter().map(|s| s.to_string()).collect(),
        toughness: toughness.to_string(),
    }
}

fn sample_db() -> CardDB {
    let cards = vec![
        sample_card("Forest", vec![CardType::Land], vec!["Basic"], vec![], "{T}: Add {G}.", "0", "0"),
        sample_card(
            "Mind's Eye",
            vec![CardType::Artifact],
            vec![],
            vec![],
            "Whenever an opponent draws a card, you may pay {1}.",
            "0",
            "0",
        ),
        sample_card(
            "Fleet Swallower",
            vec![CardType::Creature],
            vec![],
            vec![],
            "Fleet Swallower enters the battlefield tapped.",
            "8",
            "8",
        ),
    ];
    let entries: Vec<(String, Vec<Card>)> =
        cards.into_iter().map(|c| (c.name.clone(), vec![c])).collect();
    CardDB::new(entries).unwrap()
}

#[test]
fn real_card_searches_carddb_for_card() {
    let db = sample_db();
    let card = RealCard::new(&db, "Forest", 20).unwrap();
    assert_eq!(card.quantity, 20);
}

#[test]
fn real_card_searches_carddb_for_card_and_the_search_is_case_sensitive() {
    let db = sample_db();
    let card = RealCard::new(&db, "forest", 20);
    assert!(card.is_err_and(|e| e == RealCardError::CardNotFound("forest".to_string())));
}

#[test]
fn can_tap_returns_true_the_only_behavior_in_desc_is_a_tap_behavior() {
    let str = "{T}: Target creature gets +X/+X until end of turn, where X is Auriok Bladewarden's power.";
    let res = can_tap(str);
    assert_eq!(res, true);
}

#[test]
fn can_tap_returns_true_if_there_are_multiple_behaviors_and_tap_isnt_the_first_one() {
    let str = "{W}, {T}: Tap target artifact.";
    let res = can_tap(str);
    assert_eq!(res, true);
}

#[test]
fn can_tap_returns_false_if_theres_no_tap_behavior_specified() {
    let str = "{B}: Mill a card.\nDelirium â€” At the beginning of your end step, \
	if there are four or more card types among cards in your graveyard, \
	transform Autumnal Gloom.";
    let res = can_tap(str);
    assert_eq!(res, false);
}

#[test]
fn valid_card_can_be_made() {
    let vis_b = VisibilityBehavior { current_location: CardLocation::Library, revealed: false };
    let entrance_b = EntranceBehavior {
        can_have_summoning_sickness: false,
        enters_on_instant_stack: false,
        enters_battlefield_tapped: false,
    };
    let battle_b = BattlefieldBehavior {
        can_attack: false,
        can_block: false,
        can_tap: true,
        can_turn_face_up: false,
        is_tapped: false,
        is_face_down: false,
        is_summon_sick: false,
        tap_purpose: vec![TapPurpose::Mana],
        power: 0,
        toughness: 0,
    };
    let exit_b = ExitBehavior {
        hits_graveyard_on_death: true,
        hits_exile_on_death: false,
        location_on_death: CardLocation::Graveyard,
    };
    let card = Card {
        card_type: "Land".to_string(),
        card_types: vec![CardType::Land],
        color_identity: vec![mtg::colors::Color::G],
        colors: vec![mtg::colors::Color::G],
        converted_mana_cost: 0,
        description: "derp".to_string(),
        layout: "normal".to_string(),
        keywords: vec![],
        mana_cost: parse_costs(""),
        mana_value: 1,
        name: "Forest".to_string(),
        power: "0".to_string(),
        subtypes: vec![],
        supertypes: vec![],
        toughness: "0".to_string(),
    };
    assert_eq!(card.name, "Forest");
    assert_eq!(vis_b.current_location, CardLocation::Library);
    assert_eq!(entrance_b.enters_battlefield_tapped, false);
    assert_eq!(battle_b.can_tap, true);
    assert_eq!(exit_b.location_on_death, CardLocation::Graveyard);
}

#[test]
fn quantity_rule_binds_non_basic_lands_to_four_copies() {
    let db = sample_db();
    assert_eq!(RealCard::new(&db, "Mind's Eye", 5).unwrap_err(), RealCardError::InvalidQuantity);
    assert_eq!(RealCard::new(&db, "Mind's Eye", 0).unwrap_err(), RealCardError::InvalidQuantity);
    assert_eq!(RealCard::new(&db, "Mind's Eye", 4).unwrap().quantity, 4);
    assert_eq!(RealCard::new(&db, "Forest", 20).unwrap().quantity, 20);
}

#[test]
fn behaviors_are_derived_from_card_data() {
    let db = sample_db();
    let land = RealCard::new(&db, "Forest", 1).unwrap();
    assert!(land.battlefield_behavior.can_tap);
    assert_eq!(land.battlefield_behavior.tap_purpose, vec![TapPurpose::Mana]);
    assert!(!land.battlefield_behavior.can_attack);
    assert!(!land.entrance_behavior.can_have_summoning_sickness);
    assert_eq!(land.visibility_behavior.current_location, CardLocation::Library);
    assert!(!land.visibility_behavior.is_revealed());

    let creature = RealCard::new(&db, "Fleet Swallower", 1).unwrap();
    assert!(creature.entrance_behavior.can_have_summoning_sickness);
    assert!(creature.entrance_behavior.enters_battlefield_tapped);
    assert!(creature.battlefield_behavior.can_attack);
    assert!(creature.battlefield_behavior.can_block);
    assert_eq!(creature.battlefield_behavior.power, 8);
    assert_eq!(creature.battlefield_behavior.toughness, 8);
    assert!(!creature.battlefield_behavior.can_tap);
    assert_eq!(creature.battlefield_behavior.tap_purpose, vec![TapPurpose::NoPurpose]);

    let artifact = RealCard::new(&db, "Mind's Eye", 1).unwrap();
    assert!(!artifact.entrance_behavior.enters_on_instant_stack);
    assert!(!artifact.battlefield_behavior.can_tap);
}

#[test]
fn catalog_lookup_misses_with_card_not_found() {
    let db = sample_db();
    assert_eq!(db.get_card("Storm Crow").unwrap_err(), CardDBError::CardNotFound);
    assert_eq!(db.get_card("Forest").unwrap().name, "Forest");
}

#[test]
fn catalog_rejects_corrupt_data() {
    let bad_power = sample_card("Broken", vec![CardType::Creature], vec![], vec![], "", "fat", "1");
    assert_eq!(
        CardDB::new(vec![("Broken".to_string(), vec![bad_power])]).unwrap_err(),
        CardDBError::CorruptData
    );
    let bad_text = sample_card("Torn", vec![], vec![], vec![], "pay {X", "0", "0");
    assert_eq!(
        CardDB::new(vec![("Torn".to_string(), vec![bad_text])]).unwrap_err(),
        CardDBError::CorruptData
    );
    assert_eq!(
        CardDB::new(vec![("Empty".to_string(), vec![])]).unwrap_err(),
        CardDBError::CorruptData
    );
}

#[test]
fn catalog_gives_the_same_data_on_every_access() {
    let db = sample_db();
    let first = db.get_card("Mind's Eye").unwrap();
    let name1 = first.name.clone();
    let again = db.get_card("Mind's Eye").unwrap();
    assert_eq!(name1, again.name);
    assert_eq!(first.description, again.description);
}

#[test]
fn star_power_normalizes_to_zero() {
    let db = CardDB::new(vec![(
        "Tarmogoyf".to_string(),
        vec![sample_card("Tarmogoyf", vec![CardType::Creature], vec![], vec![], "", "*", "1")],
    )])
    .unwrap();
    let rc = RealCard::new(&db, "Tarmogoyf", 4).unwrap();
    assert_eq!(rc.battlefield_behavior.power, 0);
    assert_eq!(rc.battlefield_behavior.toughness, 1);
}
