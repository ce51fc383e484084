//! The deck and zone manager: building a deck indexes every copy, drawing
//! and milling move the top of the library, revealing flips the top card,
//! and shuffling permutes the library.
use mtg::card::{Card, CardLocation, CardType};
use mtg::card_db::CardDB;
use mtg::cost::parse_costs;
use mtg::deck::{CardListItem, Deck};
use mtg::library::Library;
use mtg::state_manager::Player;

fn sample_card(name: &str, card_types: Vec<CardType>, supertypes: Vec<&str>) -> Card {
    Card {
        card_type: String::new(),
        card_types,
        colors: vec![],
        color_identity: vec![],
        converted_mana_cost: 0,
        description: String::new(),
        keywords: vec![],
        layout: "normal".to_string(),
        mana_cost: parse_costs(""),
        mana_value: 0,
        name: name.to_string(),
        power: "0".to_string(),
        subtypes: vec![],
        supertypes: supertypes.into_iter().map(|s| s.to_string()).collect(),
        toughness: "0".to_string(),
    }
}

fn sample_db() -> CardDB {
    let basic = |name: &str| sample_card(name, vec![CardType::Land], vec!["Basic"]);
    let cards = vec![
        basic("Forest"),
        basic("Swamp"),
        basic("Island"),
        basic("Mountain"),
        sample_card("Mind's Eye", vec![CardType::Artifact], vec![]),
        sample_card("Insidious Roots", vec![CardType::Enchantment], vec![]),
        sample_card("Murder", vec![CardType::Instant], vec![]),
        sample_card("Lightning Storm", vec![CardType::Instant], vec![]),
        sample_card("Reject", vec![CardType::Instant], vec![]),
        sample_card("Opt", vec![CardType::Instant], vec![]),
    ];
    let entries: Vec<(String, Vec<Card>)> =
        cards.into_iter().map(|c| (c.name.clone(), vec![c])).collect();
    CardDB::new(entries).unwrap()
}

fn me() -> Player {
    Player { name: "Me".to_string() }
}

#[test]
fn library_shuffle() {
    let db = sample_db();
    let vec = vec![
        CardListItem("Mind's Eye".to_string(), 1),
        CardListItem("Forest".to_string(), 1),
        CardListItem("Swamp".to_string(), 1),
        CardListItem("Insidious Roots".to_string(), 1),
        CardListItem("Murder".to_string(), 1),
        CardListItem("Lightning Storm".to_string(), 1),
        CardListItem("Island".to_string(), 1),
        CardListItem("Mountain".to_string(), 1),
        CardListItem("Reject".to_string(), 1),
        CardListItem("Opt".to_string(), 1),
    ];
    let vec_b = vec![];
    let mut lib = Deck::new(&db, me(), &vec, &vec_b).unwrap();
    let before0 = lib.library_card(0).name;
    let before1 = lib.library_card(1).name;
    let before2 = lib.library_card(2).name;

    lib.shuffle_library();

    let after0 = lib.library_card(0).name;
    let after1 = lib.library_card(1).name;
    let after2 = lib.library_card(2).name;

    assert_ne!([before0, before1, before2], [after0, after1, after2]);
}

#[test]
fn deck_library_cards_has_hashmap_of_correct_number_of_cards() {
    let db = sample_db();
    let vec = vec![CardListItem("Mind's Eye".to_string(), 3)];
    let vec_b = vec![];
    let lib = Deck::new(&db, me(), &vec, &vec_b).unwrap();
    let me0 = lib.get_card_immut(&"Mind's Eye".to_string(), 0).unwrap();
    assert_eq!(me0.name, "Mind's Eye".to_string());
    let me1 = lib.get_card_immut(&"Mind's Eye".to_string(), 1).unwrap();
    assert_eq!(me1.name, "Mind's Eye".to_string());
    let me2 = lib.get_card_immut(&"Mind's Eye".to_string(), 2).unwrap();
    assert_eq!(me2.name, "Mind's Eye".to_string());
    assert_eq!(lib.library_len(), 3);
}

#[test]
fn deck_search_cards_returns_vec_of_cards() {
    let db = sample_db();
    let vec = vec![CardListItem("Mind's Eye".to_string(), 3)];
    let vec_b = vec![];
    let lib = Deck::new(&db, me(), &vec, &vec_b).unwrap();
    let result = lib.search_cards("Mind's Eye".to_string());
    assert_eq!(result.len(), 3);
}

#[test]
fn deck_get_card_allows_you_to_mutate_a_card() {
    let db = sample_db();
    let vec = vec![CardListItem("Mind's Eye".to_string(), 3)];
    let vec_b = vec![];
    let mut lib = Deck::new(&db, me(), &vec, &vec_b).unwrap();
    let id = lib.get_card(&"Mind's Eye".to_string(), 0).unwrap();
    assert!(lib.change_location(id, CardLocation::Graveyard));
    let card = lib.get_card_immut(&"Mind's Eye".to_string(), 0).unwrap();
    let card2 = lib.get_card_immut(&"Mind's Eye".to_string(), 1).unwrap();
    assert_ne!(
        card.visibility_behavior.current_location,
        card2.visibility_behavior.current_location
    );
}

#[test]
fn drawing_from_an_empty_library_returns_no_card() {
    let db = sample_db();
    let vec = vec![];
    let vec_b = vec![];
    let mut deck = Deck::new(&db, me(), &vec, &vec_b).unwrap();
    assert_eq!(deck.draw_card(), None);
    assert_eq!(deck.mill_card(), None);
    assert_eq!(deck.reveal_top_card(true), None);
}

#[test]
fn drawing_moves_the_top_card_to_the_hand() {
    let db = sample_db();
    let vec = vec![CardListItem("Mind's Eye".to_string(), 3)];
    let vec_b = vec![];
    let mut deck = Deck::new(&db, me(), &vec, &vec_b).unwrap();
    let drawn = deck.draw_card().unwrap();
    assert_eq!(deck.library_len(), 2);
    // the drawn copy stays reachable through the lookup table, zone updated
    let id2 = deck.get_card(&"Mind's Eye".to_string(), 2).unwrap();
    assert_eq!(drawn, id2);
    let card = deck.get_card_immut(&"Mind's Eye".to_string(), 2).unwrap();
    assert_eq!(card.visibility_behavior.current_location, CardLocation::Hand);
    // the rest are still in the library zone
    let card0 = deck.get_card_immut(&"Mind's Eye".to_string(), 0).unwrap();
    assert_eq!(card0.visibility_behavior.current_location, CardLocation::Library);
}

#[test]
fn milling_sends_the_top_card_to_the_graveyard() {
    let db = sample_db();
    let vec = vec![CardListItem("Forest".to_string(), 2)];
    let vec_b = vec![];
    let mut deck = Deck::new(&db, me(), &vec, &vec_b).unwrap();
    let milled = deck.mill_card().unwrap();
    assert_eq!(deck.library_len(), 1);
    let id1 = deck.get_card(&"Forest".to_string(), 1).unwrap();
    assert_eq!(milled, id1);
    let card = deck.get_card_immut(&"Forest".to_string(), 1).unwrap();
    assert_eq!(card.visibility_behavior.current_location, CardLocation::Graveyard);
}

#[test]
fn revealing_flips_the_top_card_without_moving_it() {
    let db = sample_db();
    let vec = vec![CardListItem("Forest".to_string(), 2)];
    let vec_b = vec![];
    let mut deck = Deck::new(&db, me(), &vec, &vec_b).unwrap();
    assert_eq!(deck.reveal_top_card(true), Some(()));
    assert_eq!(deck.library_len(), 2);
    let top = deck.get_card_immut(&"Forest".to_string(), 1).unwrap();
    assert!(top.visibility_behavior.is_revealed());
    assert_eq!(top.visibility_behavior.current_location, CardLocation::Library);
    assert_eq!(deck.reveal_top_card(false), Some(()));
    let top = deck.get_card_immut(&"Forest".to_string(), 1).unwrap();
    assert!(!top.visibility_behavior.is_revealed());
}

#[test]
fn deck_build_fails_atomically_on_the_first_bad_entry() {
    let db = sample_db();
    let vec = vec![
        CardListItem("Forest".to_string(), 2),
        CardListItem("Storm Crow".to_string(), 1),
    ];
    let vec_b = vec![];
    let err = Deck::new(&db, me(), &vec, &vec_b).unwrap_err();
    assert_eq!(err, mtg::card::RealCardError::CardNotFound("Storm Crow".to_string()));

    let vec = vec![CardListItem("Mind's Eye".to_string(), 9)];
    let err = Deck::new(&db, me(), &vec, &vec_b).unwrap_err();
    assert_eq!(err, mtg::card::RealCardError::InvalidQuantity);
}

#[test]
fn sideboard_entries_stay_off_the_library() {
    let db = sample_db();
    let vec = vec![CardListItem("Forest".to_string(), 2)];
    let vec_b = vec![CardListItem("Opt".to_string(), 1)];
    let deck = Deck::new(&db, me(), &vec, &vec_b).unwrap();
    assert_eq!(deck.library_len(), 2);
    // the sideboard copy is not addressable through the main lookup table
    assert_eq!(deck.get_card(&"Opt".to_string(), 0), None);
}

#[test]
fn library_library_cards_has_hashmap_of_correct_number_of_cards() {
    let db = sample_db();
    let vec = vec![CardListItem("Mind's Eye".to_string(), 3)];
    let vec_b = vec![];
    let lib = Library::new(&db, &vec, &vec_b).unwrap();
    let me0 = lib.get_card_immut(&"Mind's Eye".to_string(), 0).unwrap();
    assert_eq!(me0.name, "Mind's Eye".to_string());
    let me1 = lib.get_card_immut(&"Mind's Eye".to_string(), 1).unwrap();
    assert_eq!(me1.name, "Mind's Eye".to_string());
    let me2 = lib.get_card_immut(&"Mind's Eye".to_string(), 2).unwrap();
    assert_eq!(me2.name, "Mind's Eye".to_string());
    assert_eq!(lib.library_len(), 3);
}

#[test]
fn library_search_cards_returns_vec_of_cards() {
    let db = sample_db();
    let vec = vec![CardListItem("Mind's Eye".to_string(), 3)];
    let vec_b = vec![];
    let lib = Library::new(&db, &vec, &vec_b).unwrap();
    let result = lib.search_cards("Mind's Eye".to_string());
    assert_eq!(result.len(), 3);
}

#[test]
fn library_get_card_allows_you_to_mutate_a_card() {
    let db = sample_db();
    let vec = vec![CardListItem("Mind's Eye".to_string(), 3)];
    let vec_b = vec![];
    let mut lib = Library::new(&db, &vec, &vec_b).unwrap();
    let id = lib.get_card(&"Mind's Eye".to_string(), 0).unwrap();
    assert!(lib.change_location(id, CardLocation::Graveyard));
    let card = lib.get_card_immut(&"Mind's Eye".to_string(), 0).unwrap();
    let card2 = lib.get_card_immut(&"Mind's Eye".to_string(), 1).unwrap();
    assert_ne!(
        card.visibility_behavior.current_location,
        card2.visibility_behavior.current_location
    );
}
