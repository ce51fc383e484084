//! A stand-alone library of cards: the deck machinery without a player or
//! the graveyard and exile zones. It builds the same instance arena,
//! ordered library and (name, copy index) lookup table.
use vstd::prelude::*;
use crate::card::{RealCard, RealCardError};
use crate::card_db::CardDB;
use crate::deck::{
    copy_id, entry_error_is, first_bad_main, first_bad_side, key_lookup, qty_sum, Deck,
};
use crate::state_manager::Player;

verus! {

/// A card name and the number of that card wanted, like `("Forest", 20)`.
/// The deck module has the same shape; a library build borrows the deck
/// module's items so the lookup table can reference their names.
#[derive(Debug)]
pub struct CardListItem(pub String, pub u8);

/// A player's library of cards: the ordered library sequence plus the
/// lookup table that finds any copy by (name, copy index) in one step.
#[derive(Debug)]
pub struct Library<'a> {
    deck: Deck<'a>,
}

impl<'a> Library<'a> {
    /// The arena of instances; identifiers index into it.
    pub closed spec fn spec_instances(self) -> Seq<RealCard<'a>> {
        self.deck.spec_instances()
    }

    /// The library as a sequence of identifiers; the top is the last.
    pub closed spec fn spec_library(self) -> Seq<usize> {
        self.deck.spec_library()
    }

    /// The lookup table from (name, copy index) to identifier.
    pub closed spec fn spec_cards(self) -> Seq<((&'a str, u8), usize)> {
        self.deck.spec_cards()
    }

    /// Well-formedness, as for a deck.
    pub closed spec fn wf(self) -> bool {
        self.deck.wf()
    }

    /// Builds a library from a main list and a sideboard list, with the
    /// same instance, ordering and lookup guarantees as a deck build; the
    /// first entry that fails to instantiate fails the whole build.
    pub fn new(
        db: &'a CardDB,
        card_list: &'a Vec<crate::deck::CardListItem>,
        sideboard_list: &'a Vec<crate::deck::CardListItem>,
    ) -> (r: Result<Library<'a>, RealCardError>)
        ensures
            r is Ok <==> (first_bad_main(db, card_list@, 0) is None && first_bad_side(
                db,
                sideboard_list@,
                0,
            ) is None),
            first_bad_main(db, card_list@, 0) matches Some(i) ==> (r matches Err(e)
                && entry_error_is(db, card_list@[i].0@, card_list@[i].1, e)),
            first_bad_main(db, card_list@, 0) is None ==> (first_bad_side(
                db,
                sideboard_list@,
                0,
            ) matches Some(i) ==> (r matches Err(e) && entry_error_is(
                db,
                sideboard_list@[i].0@,
                sideboard_list@[i].1,
                e,
            ))),
            r matches Ok(l) ==> {
                &&& l.wf()
                &&& l.spec_library().len() == qty_sum(card_list@)
                &&& l.spec_cards().len() == qty_sum(card_list@)
                &&& forall|k: int|
                    0 <= k < l.spec_library().len() ==> (#[trigger] l.spec_library()[k]) == k
                &&& forall|i: int, c: int|
                    #![trigger copy_id(card_list@, i, c)]
                    0 <= i < card_list@.len() && 0 <= c < card_list@[i].1 ==> {
                        let k = copy_id(card_list@, i, c);
                        &&& l.spec_cards()[k].0.0@ == card_list@[i].0@
                        &&& l.spec_cards()[k].0.1 == c
                        &&& l.spec_cards()[k].1 == k
                        &&& crate::deck::instance_for(
                            db,
                            l.spec_instances()[k],
                            card_list@[i].0@,
                            card_list@[i].1,
                        )
                    }
            },
    {
        let player = Player { name: String::new() };
        match Deck::new(db, player, card_list, sideboard_list) {
            Ok(deck) => Ok(Library { deck }),
            Err(e) => Err(e),
        }
    }

    /// How many instances the library sequence currently holds.
    pub fn library_len(&self) -> (n: usize)
        ensures
            n == self.spec_library().len(),
    {
        self.deck.library_len()
    }

    /// An immutable view of the copy addressed by (name, copy index), if
    /// the lookup table has it.
    pub fn get_card_immut(&self, card_name: &String, card_key: u8) -> (r: Option<&RealCard<'a>>)
        requires
            self.wf(),
        ensures
            match r {
                Some(rc) => key_lookup(self.spec_cards(), card_name@, card_key) matches Some(id)
                    && *rc == self.spec_instances()[id as int],
                None => key_lookup(self.spec_cards(), card_name@, card_key) is None,
            },
    {
        self.deck.get_card_immut(card_name, card_key)
    }

    /// The identifier of the copy addressed by (name, copy index); mutate
    /// the instance through `change_location` with it.
    pub fn get_card(&self, card_name: &String, card_key: u8) -> (r: Option<usize>)
        requires
            self.wf(),
        ensures
            r == key_lookup(self.spec_cards(), card_name@, card_key),
            r matches Some(id) ==> id < self.spec_instances().len(),
    {
        self.deck.get_card(card_name, card_key)
    }

    /// Moves the instance with the given identifier to a new zone; every
    /// other instance is untouched. Answers whether the identifier
    /// addressed an instance at all.
    pub fn change_location(
        &mut self,
        id: usize,
        new_location: crate::card::CardLocation,
    ) -> (r: bool)
        requires
            old(self).wf(),
        ensures
            final(self).wf(),
            id < old(self).spec_instances().len() ==> r && crate::card::same_but_zone(
                old(self).spec_instances()[id as int],
                final(self).spec_instances()[id as int],
                new_location,
            ) && final(self).spec_instances() == old(self).spec_instances().update(
                id as int,
                final(self).spec_instances()[id as int],
            ),
            id >= old(self).spec_instances().len() ==> !r && final(self).spec_instances() == old(
                self,
            ).spec_instances(),
            final(self).spec_library() == old(self).spec_library(),
            final(self).spec_cards() == old(self).spec_cards(),
    {
        self.deck.change_location(id, new_location)
    }

    /// All identifiers registered under a card name: copy indices zero up
    /// to the quantity the first copy records.
    pub fn search_cards(&self, card_name: String) -> (r: Vec<usize>)
        requires
            self.wf(),
            key_lookup(self.spec_cards(), card_name@, 0) matches Some(id0) && (forall|c: u8|
                c < self.spec_instances()[id0 as int].quantity ==> key_lookup(
                    self.spec_cards(),
                    card_name@,
                    c,
                ) is Some),
        ensures
            key_lookup(self.spec_cards(), card_name@, 0) matches Some(id0) && r@.len()
                == self.spec_instances()[id0 as int].quantity,
            forall|c: int|
                0 <= c < r@.len() ==> Some(#[trigger] r@[c]) == key_lookup(
                    self.spec_cards(),
                    card_name@,
                    c as u8,
                ),
    {
        self.deck.search_cards(card_name)
    }
}

} // verus!
