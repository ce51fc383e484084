//! A player's deck: the ordered library of card instances, a lookup from
//! (name, copy index) to each instance, the sideboard, and the zone
//! operations - draw, mill, reveal, shuffle - over them. Instances live in
//! an arena and are addressed by stable integer identifiers, so every view
//! of an instance sees the same mutations.
use vstd::prelude::*;
use rand::seq::SliceRandom;
use crate::card::{same_but_zone, CardLocation, RealCard, RealCardError};
use crate::card_db::{find_card, CardDB};
use crate::state_manager::Player;
use crate::text::str_eq;

verus! {

broadcast use vstd::std_specs::vec::group_vec_axioms, vstd::seq_lib::group_to_multiset_ensures;

/// A card name and the number of that card wanted in the library or
/// sideboard, like `("Forest", 20)`.
#[derive(Debug)]
pub struct CardListItem(pub String, pub u8);

/// Whether a list entry can be instantiated: the name is in the catalog
/// and the quantity is legal for the card.
pub open spec fn entry_ok(db: &CardDB, name: Seq<char>, qty: u8) -> bool {
    find_card(db.entries(), name) matches Some(c) && crate::card::valid_quantity(c, qty)
}

/// The error an entry fails with: `CardNotFound` carrying the name when
/// the catalog has no such card, else `InvalidQuantity`.
pub open spec fn entry_error_is(db: &CardDB, name: Seq<char>, qty: u8, e: RealCardError) -> bool {
    if find_card(db.entries(), name) is None {
        e matches RealCardError::CardNotFound(s) && s@ == name
    } else {
        e == RealCardError::InvalidQuantity
    }
}

/// An instance freshly built from the catalog entry of `name`.
pub open spec fn instance_for(db: &CardDB, rc: RealCard, name: Seq<char>, qty: u8) -> bool {
    find_card(db.entries(), name) matches Some(c) && crate::card::fresh_instance(rc, c, name, qty)
}

/// The index of the first main-list entry, at or after `i`, that would fail
/// to instantiate. An entry with quantity zero creates no instance and so
/// cannot fail.
pub open spec fn first_bad_main(db: &CardDB, l: Seq<CardListItem>, i: int) -> Option<int>
    decreases l.len() - i,
{
    if i < 0 || i >= l.len() {
        Option::None
    } else if l[i].1 > 0 && !entry_ok(db, l[i].0@, l[i].1) {
        Some(i)
    } else {
        first_bad_main(db, l, i + 1)
    }
}

/// The index of the first sideboard entry, at or after `i`, that would fail
/// to instantiate. Every sideboard entry creates one instance, so each is
/// checked whatever its quantity.
pub open spec fn first_bad_side(db: &CardDB, l: Seq<CardListItem>, i: int) -> Option<int>
    decreases l.len() - i,
{
    if i < 0 || i >= l.len() {
        Option::None
    } else if !entry_ok(db, l[i].0@, l[i].1) {
        Some(i)
    } else {
        first_bad_side(db, l, i + 1)
    }
}

/// How many instances the first `i` main-list entries create.
pub open spec fn qty_offset(l: Seq<CardListItem>, i: int) -> int
    decreases i,
{
    if i <= 0 {
        0
    } else {
        qty_offset(l, i - 1) + l[i - 1].1
    }
}

/// How many instances the whole main list creates.
pub open spec fn qty_sum(l: Seq<CardListItem>) -> int {
    qty_offset(l, l.len() as int)
}

/// The arena identifier of copy `c` of main-list entry `i`.
pub open spec fn copy_id(l: Seq<CardListItem>, i: int, c: int) -> int {
    qty_offset(l, i) + c
}

proof fn lemma_qty_offset_mono(l: Seq<CardListItem>, i: int, j: int)
    requires
        0 <= i <= j,
    ensures
        qty_offset(l, i) <= qty_offset(l, j),
    decreases j - i,
{
    if i < j {
        lemma_qty_offset_mono(l, i, j - 1);
    }
}

/// The identifier stored under the key `(name, idx)`, the latest insertion
/// winning, as in a hash-table lookup.
pub open spec fn key_lookup<'a>(
    s: Seq<((&'a str, u8), usize)>,
    name: Seq<char>,
    idx: u8,
) -> Option<usize>
    decreases s.len(),
{
    if s.len() == 0 {
        Option::None
    } else if s.last().0.0@ == name && s.last().0.1 == idx {
        Some(s.last().1)
    } else {
        key_lookup(s.drop_last(), name, idx)
    }
}

/// Whether some entry of the lookup table stores this identifier.
pub open spec fn id_in_table<'a>(s: Seq<((&'a str, u8), usize)>, id: usize) -> bool {
    exists|j: int| 0 <= j < s.len() && (#[trigger] s[j]).1 == id
}

/// A lookup hit returns an identifier that some table entry stores.
proof fn lemma_key_lookup_in_table<'a>(s: Seq<((&'a str, u8), usize)>, name: Seq<char>, idx: u8)
    requires
        key_lookup(s, name, idx) is Some,
    ensures
        id_in_table(s, key_lookup(s, name, idx)->0),
    decreases s.len(),
{
    if s.len() > 0 {
        if s.last().0.0@ == name && s.last().0.1 == idx {
            assert(s[s.len() - 1].1 == key_lookup(s, name, idx)->0);
        } else {
            lemma_key_lookup_in_table(s.drop_last(), name, idx);
            let j = choose|j: int|
                0 <= j < s.drop_last().len() && (#[trigger] s.drop_last()[j]).1 == key_lookup(
                    s.drop_last(),
                    name,
                    idx,
                )->0;
            assert(s[j].1 == key_lookup(s, name, idx)->0);
        }
    }
}

/// A deck: the arena of card instances plus the zone structures over it.
/// The library is order-significant and drawn from the end; the lookup
/// table addresses single copies by (name, copy index).
#[derive(Debug)]
pub struct Deck<'a> {
    instances: Vec<RealCard<'a>>,
    library: Vec<usize>,
    cards: Vec<((&'a str, u8), usize)>,
    sideboard: Vec<(&'a str, usize)>,
    graveyard: Vec<usize>,
    exile: Vec<usize>,
    player: Player,
}

impl<'a> Deck<'a> {
    /// The arena of instances; identifiers index into it.
    pub closed spec fn spec_instances(self) -> Seq<RealCard<'a>> {
        self.instances@
    }

    /// The library as a sequence of identifiers; the top of the library is
    /// the last element.
    pub closed spec fn spec_library(self) -> Seq<usize> {
        self.library@
    }

    /// The lookup table from (name, copy index) to identifier.
    pub closed spec fn spec_cards(self) -> Seq<((&'a str, u8), usize)> {
        self.cards@
    }

    /// The sideboard table from name to identifier.
    pub closed spec fn spec_sideboard(self) -> Seq<(&'a str, usize)> {
        self.sideboard@
    }

    /// The graveyard zone sequence.
    pub closed spec fn spec_graveyard(self) -> Seq<usize> {
        self.graveyard@
    }

    /// The exile zone sequence.
    pub closed spec fn spec_exile(self) -> Seq<usize> {
        self.exile@
    }

    /// The owning player.
    pub closed spec fn spec_player(self) -> Player {
        self.player
    }

    /// Well-formedness: every identifier a zone sequence or table holds
    /// points into the arena, and every library identifier is reachable
    /// through the lookup table - no orphaned copies. The constructor
    /// establishes it and every operation preserves it.
    pub open spec fn wf(self) -> bool {
        &&& forall|i: int|
            0 <= i < self.spec_library().len() ==> (#[trigger] self.spec_library()[i])
                < self.spec_instances().len()
        &&& forall|i: int|
            0 <= i < self.spec_cards().len() ==> (#[trigger] self.spec_cards()[i]).1
                < self.spec_instances().len()
        &&& forall|i: int|
            0 <= i < self.spec_sideboard().len() ==> (#[trigger] self.spec_sideboard()[i]).1
                < self.spec_instances().len()
        &&& forall|i: int|
            0 <= i < self.spec_graveyard().len() ==> (#[trigger] self.spec_graveyard()[i])
                < self.spec_instances().len()
        &&& forall|i: int|
            0 <= i < self.spec_exile().len() ==> (#[trigger] self.spec_exile()[i])
                < self.spec_instances().len()
        &&& forall|i: int|
            #![trigger self.spec_library()[i]]
            0 <= i < self.spec_library().len() ==> id_in_table(
                self.spec_cards(),
                self.spec_library()[i],
            )
    }

    /// Builds a deck from a main list and a sideboard list. Each main
    /// entry creates `quantity` validated instances, indexed under
    /// (name, copy index) and appended to the library in list-then-copy
    /// order; each sideboard entry creates exactly one instance indexed by
    /// name alone and kept off the library. The first entry that fails to
    /// instantiate fails the whole build with its error: a deck is never
    /// left partially constructed.
    #[verifier::loop_isolation(false)]
    pub fn new(
        db: &'a CardDB,
        player: Player,
        card_list: &'a Vec<CardListItem>,
        sideboard_list: &'a Vec<CardListItem>,
    ) -> (r: Result<Deck<'a>, RealCardError>)
        ensures
            r is Ok <==> (first_bad_main(db, card_list@, 0) is None && first_bad_side(
                db,
                sideboard_list@,
                0,
            ) is None),
            first_bad_main(db, card_list@, 0) matches Some(i) ==> (r matches Err(e)
                && entry_error_is(db, card_list@[i].0@, card_list@[i].1, e)),
            first_bad_main(db, card_list@, 0) is None ==> (first_bad_side(
                db,
                sideboard_list@,
                0,
            ) matches Some(i) ==> (r matches Err(e) && entry_error_is(
                db,
                sideboard_list@[i].0@,
                sideboard_list@[i].1,
                e,
            ))),
            r matches Ok(d) ==> {
                &&& d.wf()
                &&& d.spec_player() == player
                &&& d.spec_instances().len() == qty_sum(card_list@) + sideboard_list@.len()
                &&& d.spec_library().len() == qty_sum(card_list@)
                &&& forall|k: int|
                    0 <= k < d.spec_library().len() ==> (#[trigger] d.spec_library()[k]) == k
                &&& d.spec_cards().len() == qty_sum(card_list@)
                &&& forall|i: int, c: int|
                    #![trigger copy_id(card_list@, i, c)]
                    0 <= i < card_list@.len() && 0 <= c < card_list@[i].1 ==> {
                        let k = copy_id(card_list@, i, c);
                        &&& d.spec_cards()[k].0.0@ == card_list@[i].0@
                        &&& d.spec_cards()[k].0.1 == c
                        &&& d.spec_cards()[k].1 == k
                        &&& instance_for(
                            db,
                            d.spec_instances()[k],
                            card_list@[i].0@,
                            card_list@[i].1,
                        )
                    }
                &&& d.spec_sideboard().len() == sideboard_list@.len()
                &&& forall|s: int|
                    0 <= s < sideboard_list@.len() ==> {
                        let k = qty_sum(card_list@) + s;
                        &&& (#[trigger] d.spec_sideboard()[s]).0@ == sideboard_list@[s].0@
                        &&& d.spec_sideboard()[s].1 == k
                        &&& instance_for(
                            db,
                            d.spec_instances()[k],
                            sideboard_list@[s].0@,
                            sideboard_list@[s].1,
                        )
                    }
                &&& d.spec_graveyard().len() == 0
                &&& d.spec_exile().len() == 0
            },
    {
        let mut instances: Vec<RealCard<'a>> = Vec::new();
        let mut library: Vec<usize> = Vec::new();
        let mut cards: Vec<((&'a str, u8), usize)> = Vec::new();
        let mut sideboard: Vec<(&'a str, usize)> = Vec::new();
        let graveyard: Vec<usize> = Vec::new();
        let exile: Vec<usize> = Vec::new();
        let ghost ml = card_list@;
        let ghost sl = sideboard_list@;
        let mut e: usize = 0;
        while e < card_list.len()
            invariant
                e <= ml.len(),
                instances@.len() == qty_offset(ml, e as int),
                library@.len() == instances@.len(),
                cards@.len() == instances@.len(),
                forall|k: int| 0 <= k < library@.len() ==> (#[trigger] library@[k]) == k,
                forall|k: int| 0 <= k < cards@.len() ==> (#[trigger] cards@[k]).1 == k,
                first_bad_main(db, ml, 0) == first_bad_main(db, ml, e as int),
                forall|i: int, c: int|
                    #![trigger copy_id(ml, i, c)]
                    0 <= i < e && 0 <= c < ml[i].1 ==> {
                        let k = copy_id(ml, i, c);
                        &&& cards@[k].0.0@ == ml[i].0@
                        &&& cards@[k].0.1 == c
                        &&& cards@[k].1 == k
                        &&& instance_for(db, instances@[k], ml[i].0@, ml[i].1)
                    },
            decreases ml.len() - e,
        {
            let item = &card_list[e];
            let qty = item.1;
            proof {
                assert(qty_offset(ml, e + 1) == qty_offset(ml, e as int) + qty);
            }
            let mut c: u8 = 0;
            while c < qty
                invariant
                    c <= qty,
                    qty == ml[e as int].1,
                    e < ml.len(),
                    item.0@ == ml[e as int].0@,
                    instances@.len() == qty_offset(ml, e as int) + c,
                    library@.len() == instances@.len(),
                    cards@.len() == instances@.len(),
                    forall|k: int| 0 <= k < library@.len() ==> (#[trigger] library@[k]) == k,
                    forall|k: int| 0 <= k < cards@.len() ==> (#[trigger] cards@[k]).1 == k,
                    c > 0 ==> entry_ok(db, ml[e as int].0@, qty),
                    forall|i: int, c2: int|
                        #![trigger copy_id(ml, i, c2)]
                        0 <= i < e && 0 <= c2 < ml[i].1 ==> {
                            let k = copy_id(ml, i, c2);
                            &&& cards@[k].0.0@ == ml[i].0@
                            &&& cards@[k].0.1 == c2
                            &&& cards@[k].1 == k
                            &&& instance_for(db, instances@[k], ml[i].0@, ml[i].1)
                        },
                    forall|c2: int|
                        #![trigger copy_id(ml, e as int, c2)]
                        0 <= c2 < c ==> {
                            let k = copy_id(ml, e as int, c2);
                            &&& cards@[k].0.0@ == ml[e as int].0@
                            &&& cards@[k].0.1 == c2
                            &&& cards@[k].1 == k
                            &&& instance_for(db, instances@[k], ml[e as int].0@, qty)
                        },
                decreases qty - c,
            {
                match RealCard::new(db, item.0.as_str(), qty) {
                    Ok(rc) => {
                        let id = instances.len();
                        instances.push(rc);
                        library.push(id);
                        cards.push(((item.0.as_str(), c), id));
                        proof {
                            let k = copy_id(ml, e as int, c as int);
                            assert(k == cards@.len() - 1);
                            assert(cards@[k].0.0@ == ml[e as int].0@);
                            assert(cards@[k].0.1 == c);
                            assert(cards@[k].1 == k);
                            assert(instance_for(db, instances@[k], ml[e as int].0@, qty));
                            assert forall|i: int, c2: int|
                                #![trigger copy_id(ml, i, c2)]
                                0 <= i < e && 0 <= c2 < ml[i].1 implies ({
                                let k2 = copy_id(ml, i, c2);
                                &&& cards@[k2].0.0@ == ml[i].0@
                                &&& cards@[k2].0.1 == c2
                                &&& cards@[k2].1 == k2
                                &&& instance_for(db, instances@[k2], ml[i].0@, ml[i].1)
                            }) by {
                                lemma_qty_offset_mono(ml, i + 1, e as int);
                                assert(copy_id(ml, i, c2) < qty_offset(ml, e as int));
                            }
                        }
                    },
                    Err(err) => {
                        proof {
                            assert(!entry_ok(db, ml[e as int].0@, qty));
                            assert(first_bad_main(db, ml, e as int) == Some(e as int));
                        }
                        return Err(err);
                    },
                }
                c += 1;
            }
            proof {
                assert forall|i: int, c2: int|
                    #![trigger copy_id(ml, i, c2)]
                    0 <= i < e + 1 && 0 <= c2 < ml[i].1 implies ({
                    let k2 = copy_id(ml, i, c2);
                    &&& cards@[k2].0.0@ == ml[i].0@
                    &&& cards@[k2].0.1 == c2
                    &&& cards@[k2].1 == k2
                    &&& instance_for(db, instances@[k2], ml[i].0@, ml[i].1)
                }) by {
                    if i < e {
                    } else {
                        assert(0 <= c2 < ml[e as int].1);
                    }
                }
            }
            e += 1;
        }
        proof {
            assert(first_bad_main(db, ml, ml.len() as int) is None);
        }
        let ghost main_total = qty_sum(ml);
        let mut s: usize = 0;
        while s < sideboard_list.len()
            invariant
                s <= sl.len(),
                instances@.len() == main_total + s,
                sideboard@.len() == s,
                first_bad_side(db, sl, 0) == first_bad_side(db, sl, s as int),
                forall|s2: int|
                    0 <= s2 < s ==> {
                        let k = main_total + s2;
                        &&& (#[trigger] sideboard@[s2]).0@ == sl[s2].0@
                        &&& sideboard@[s2].1 == k
                        &&& instance_for(db, instances@[k], sl[s2].0@, sl[s2].1)
                    },
                forall|i: int, c: int|
                    #![trigger copy_id(ml, i, c)]
                    0 <= i < ml.len() && 0 <= c < ml[i].1 ==> {
                        let k = copy_id(ml, i, c);
                        &&& cards@[k].0.0@ == ml[i].0@
                        &&& cards@[k].0.1 == c
                        &&& cards@[k].1 == k
                        &&& instance_for(db, instances@[k], ml[i].0@, ml[i].1)
                    },
            decreases sl.len() - s,
        {
            let item = &sideboard_list[s];
            proof {
                assert(item.0@ == sl[s as int].0@);
            }
            match RealCard::new(db, item.0.as_str(), item.1) {
                Ok(rc) => {
                    let id = instances.len();
                    instances.push(rc);
                    sideboard.push((item.0.as_str(), id));
                    proof {
                        let k = main_total + s as int;
                        assert(sideboard@[s as int].0@ == sl[s as int].0@);
                        assert(sideboard@[s as int].1 == k);
                        assert(instance_for(db, instances@[k], sl[s as int].0@, sl[s as int].1));
                        assert forall|i: int, c: int|
                            #![trigger copy_id(ml, i, c)]
                            0 <= i < ml.len() && 0 <= c < ml[i].1 implies ({
                            let k2 = copy_id(ml, i, c);
                            &&& cards@[k2].0.0@ == ml[i].0@
                            &&& cards@[k2].0.1 == c
                            &&& cards@[k2].1 == k2
                            &&& instance_for(db, instances@[k2], ml[i].0@, ml[i].1)
                        }) by {
                            lemma_qty_offset_mono(ml, i + 1, ml.len() as int);
                            assert(copy_id(ml, i, c) < main_total);
                        }
                    }
                },
                Err(err) => {
                    proof {
                        assert(!entry_ok(db, sl[s as int].0@, sl[s as int].1));
                        assert(first_bad_side(db, sl, s as int) == Some(s as int));
                    }
                    return Err(err);
                },
            }
            s += 1;
        }
        proof {
            assert(first_bad_side(db, sl, sl.len() as int) is None);
            assert forall|i: int| #![trigger library@[i]] 0 <= i < library@.len()
                implies id_in_table(cards@, library@[i]) by {
                assert(cards@[i].1 == i);
                assert(library@[i] == i);
            }
        }
        Ok(
            Deck {
                instances,
                library,
                cards,
                sideboard,
                graveyard,
                exile,
                player,
            },
        )
    }

    /// How many instances the library currently holds.
    pub fn library_len(&self) -> (n: usize)
        ensures
            n == self.spec_library().len(),
    {
        self.library.len()
    }


    /// The instance at a library position; the last position is the top of
    /// the library.
    pub fn library_card(&self, i: usize) -> (r: &RealCard<'a>)
        requires
            self.wf(),
            i < self.spec_library().len(),
        ensures
            *r == self.spec_instances()[self.spec_library()[i as int] as int],
    {
        &self.instances[self.library[i]]
    }

    /// An immutable view of the copy addressed by (name, copy index), if
    /// the lookup table has it.
    pub fn get_card_immut(&self, card_name: &String, card_key: u8) -> (r: Option<&RealCard<'a>>)
        requires
            self.wf(),
        ensures
            match r {
                Some(rc) => key_lookup(self.spec_cards(), card_name@, card_key) matches Some(id)
                    && *rc == self.spec_instances()[id as int],
                None => key_lookup(self.spec_cards(), card_name@, card_key) is None,
            },
    {
        proof {
            if key_lookup(self.spec_cards(), card_name@, card_key) is Some {
                lemma_key_lookup_in_table(self.spec_cards(), card_name@, card_key);
            }
        }
        match self.find_id(card_name, card_key) {
            Some(id) => Some(&self.instances[id]),
            None => None,
        }
    }

    /// The identifier of the copy addressed by (name, copy index); mutate
    /// the instance through `change_location` with it.
    pub fn get_card(&self, card_name: &String, card_key: u8) -> (r: Option<usize>)
        requires
            self.wf(),
        ensures
            r == key_lookup(self.spec_cards(), card_name@, card_key),
            r matches Some(id) ==> id < self.spec_instances().len(),
    {
        proof {
            if key_lookup(self.spec_cards(), card_name@, card_key) is Some {
                lemma_key_lookup_in_table(self.spec_cards(), card_name@, card_key);
            }
        }
        self.find_id(card_name, card_key)
    }

    /// Scans the lookup table from the latest insertion back.
    #[verifier::loop_isolation(false)]
    fn find_id(&self, card_name: &String, card_key: u8) -> (r: Option<usize>)
        ensures
            r == key_lookup(self.spec_cards(), card_name@, card_key),
    {
        let ghost full = self.cards@;
        let mut j: usize = self.cards.len();
        proof {
            assert(full.take(full.len() as int) =~= full);
        }
        while j > 0
            invariant
                j <= full.len(),
                key_lookup(full, card_name@, card_key) == key_lookup(
                    full.take(j as int),
                    card_name@,
                    card_key,
                ),
            decreases j,
        {
            j -= 1;
            proof {
                assert(full.take(j + 1).drop_last() =~= full.take(j as int));
                assert(full.take(j + 1).last() == full[j as int]);
            }
            let entry = &self.cards[j];
            if entry.0.1 == card_key && str_eq(entry.0.0, card_name.as_str()) {
                return Some(entry.1);
            }
        }
        proof {
            assert(full.take(0) =~= Seq::<((&'a str, u8), usize)>::empty());
        }
        None
    }

    /// Moves the instance with the given identifier to a new zone; every
    /// other instance and every zone sequence is untouched. Answers whether
    /// the identifier addressed an instance at all.
    pub fn change_location(&mut self, id: usize, new_location: CardLocation) -> (r: bool)
        requires
            old(self).wf(),
        ensures
            final(self).wf(),
            id < old(self).spec_instances().len() ==> r && same_but_zone(
                old(self).spec_instances()[id as int],
                final(self).spec_instances()[id as int],
                new_location,
            ) && final(self).spec_instances() == old(self).spec_instances().update(
                id as int,
                final(self).spec_instances()[id as int],
            ),
            id >= old(self).spec_instances().len() ==> !r && final(self).spec_instances()
                == old(self).spec_instances(),
            final(self).spec_library() == old(self).spec_library(),
            final(self).spec_cards() == old(self).spec_cards(),
            final(self).spec_sideboard() == old(self).spec_sideboard(),
            final(self).spec_graveyard() == old(self).spec_graveyard(),
            final(self).spec_exile() == old(self).spec_exile(),
            final(self).spec_player() == old(self).spec_player(),
    {
        if id >= self.instances.len() {
            return false;
        }
        self.instances[id].change_current_location(new_location);
        proof {
            assert(self.spec_library() == old(self).spec_library());
            assert(self.spec_cards() == old(self).spec_cards());
            assert(self.spec_sideboard() == old(self).spec_sideboard());
            assert(self.spec_graveyard() == old(self).spec_graveyard());
            assert(self.spec_exile() == old(self).spec_exile());
            assert(self.spec_instances().len() == old(self).spec_instances().len());
            assert(self.wf());
        }
        true
    }

    /// Pops the top of the library, sends it to the given zone, and hands
    /// back its identifier; nothing happens on an empty library.
    fn send_card_from_library_to_place(&mut self, place: CardLocation) -> (r: Option<usize>)
        requires
            old(self).wf(),
        ensures
            final(self).wf(),
            old(self).spec_library().len() == 0 ==> r is None && final(self).spec_instances()
                == old(self).spec_instances() && final(self).spec_library() == old(
                self,
            ).spec_library(),
            old(self).spec_library().len() > 0 ==> {
                let id = old(self).spec_library().last();
                &&& r == Some(id)
                &&& final(self).spec_library() == old(self).spec_library().drop_last()
                &&& id < old(self).spec_instances().len()
                &&& same_but_zone(
                    old(self).spec_instances()[id as int],
                    final(self).spec_instances()[id as int],
                    place,
                )
                &&& final(self).spec_instances() == old(self).spec_instances().update(
                    id as int,
                    final(self).spec_instances()[id as int],
                )
                &&& id_in_table(old(self).spec_cards(), id)
            },
            final(self).spec_cards() == old(self).spec_cards(),
            final(self).spec_sideboard() == old(self).spec_sideboard(),
            final(self).spec_graveyard() == old(self).spec_graveyard(),
            final(self).spec_exile() == old(self).spec_exile(),
            final(self).spec_player() == old(self).spec_player(),
    {
        let card_id = match self.library.pop() {
            Some(id) => id,
            None => {
                proof {
                    assert(self.library@ =~= old(self).library@);
                    assert(self.spec_library() == self.library@);
                    assert(old(self).spec_library() == old(self).library@);
                    assert(self.spec_library() == old(self).spec_library());
                    assert(self.spec_cards() == old(self).spec_cards());
                    assert(self.spec_sideboard() == old(self).spec_sideboard());
                    assert(self.spec_graveyard() == old(self).spec_graveyard());
                    assert(self.spec_exile() == old(self).spec_exile());
                    assert(self.spec_instances() == old(self).spec_instances());
                    assert(self.wf());
                }
                return None;
            },
        };
        self.instances[card_id].change_current_location(place);
        proof {
            assert(self.spec_library() == old(self).spec_library().drop_last());
            assert(self.spec_cards() == old(self).spec_cards());
            assert(self.spec_sideboard() == old(self).spec_sideboard());
            assert(self.spec_graveyard() == old(self).spec_graveyard());
            assert(self.spec_exile() == old(self).spec_exile());
            assert(self.spec_instances().len() == old(self).spec_instances().len());
            assert forall|i: int| 0 <= i < self.spec_library().len() implies (
            #[trigger] self.spec_library()[i]) < self.spec_instances().len() by {
                assert(self.spec_library()[i] == old(self).spec_library()[i]);
            }
            assert forall|i: int|
                #![trigger self.spec_library()[i]]
                0 <= i < self.spec_library().len() implies id_in_table(
                self.spec_cards(),
                self.spec_library()[i],
            ) by {
                assert(self.spec_library()[i] == old(self).spec_library()[i]);
            }
            assert(self.wf());
        }
        Some(card_id)
    }

    /// Draws the top card of the library into the hand: the library loses
    /// its last instance, that instance's zone becomes Hand, and it stays
    /// reachable through the lookup table. An empty library answers that no
    /// card is available rather than failing.
    pub fn draw_card(&mut self) -> (r: Option<usize>)
        requires
            old(self).wf(),
        ensures
            final(self).wf(),
            old(self).spec_library().len() == 0 ==> r is None && final(self).spec_instances()
                == old(self).spec_instances() && final(self).spec_library() == old(
                self,
            ).spec_library(),
            old(self).spec_library().len() > 0 ==> {
                let id = old(self).spec_library().last();
                &&& r == Some(id)
                &&& final(self).spec_library() == old(self).spec_library().drop_last()
                &&& id < old(self).spec_instances().len()
                &&& same_but_zone(
                    old(self).spec_instances()[id as int],
                    final(self).spec_instances()[id as int],
                    CardLocation::Hand,
                )
                &&& final(self).spec_instances() == old(self).spec_instances().update(
                    id as int,
                    final(self).spec_instances()[id as int],
                )
                &&& id_in_table(old(self).spec_cards(), id)
            },
            final(self).spec_cards() == old(self).spec_cards(),
            final(self).spec_sideboard() == old(self).spec_sideboard(),
            final(self).spec_graveyard() == old(self).spec_graveyard(),
            final(self).spec_exile() == old(self).spec_exile(),
            final(self).spec_player() == old(self).spec_player(),
    {
        self.send_card_from_library_to_place(CardLocation::Hand)
    }

    /// Mills the top card of the library into the graveyard zone, with the
    /// same mechanics as drawing.
    pub fn mill_card(&mut self) -> (r: Option<usize>)
        requires
            old(self).wf(),
        ensures
            final(self).wf(),
            old(self).spec_library().len() == 0 ==> r is None && final(self).spec_instances()
                == old(self).spec_instances() && final(self).spec_library() == old(
                self,
            ).spec_library(),
            old(self).spec_library().len() > 0 ==> {
                let id = old(self).spec_library().last();
                &&& r == Some(id)
                &&& final(self).spec_library() == old(self).spec_library().drop_last()
                &&& id < old(self).spec_instances().len()
                &&& same_but_zone(
                    old(self).spec_instances()[id as int],
                    final(self).spec_instances()[id as int],
                    CardLocation::Graveyard,
                )
                &&& final(self).spec_instances() == old(self).spec_instances().update(
                    id as int,
                    final(self).spec_instances()[id as int],
                )
            },
            final(self).spec_cards() == old(self).spec_cards(),
            final(self).spec_sideboard() == old(self).spec_sideboard(),
            final(self).spec_graveyard() == old(self).spec_graveyard(),
            final(self).spec_exile() == old(self).spec_exile(),
            final(self).spec_player() == old(self).spec_player(),
    {
        self.send_card_from_library_to_place(CardLocation::Graveyard)
    }

    /// Flips the revealed flag of the top-of-library card without moving
    /// it; answers nothing on an empty library.
    pub fn reveal_top_card(&mut self, should_reveal: bool) -> (r: Option<()>)
        requires
            old(self).wf(),
        ensures
            final(self).wf(),
            old(self).spec_library().len() == 0 ==> r is None && final(self).spec_instances()
                == old(self).spec_instances(),
            old(self).spec_library().len() > 0 ==> {
                let id = old(self).spec_library().last();
                &&& r is Some
                &&& id < old(self).spec_instances().len()
                &&& final(self).spec_instances()[id as int].visibility_behavior.revealed
                    == should_reveal
                &&& final(self).spec_instances()[id as int].visibility_behavior.current_location
                    == old(self).spec_instances()[id as int].visibility_behavior.current_location
                &&& final(self).spec_instances() == old(self).spec_instances().update(
                    id as int,
                    final(self).spec_instances()[id as int],
                )
            },
            final(self).spec_library() == old(self).spec_library(),
            final(self).spec_cards() == old(self).spec_cards(),
            final(self).spec_sideboard() == old(self).spec_sideboard(),
            final(self).spec_graveyard() == old(self).spec_graveyard(),
            final(self).spec_exile() == old(self).spec_exile(),
            final(self).spec_player() == old(self).spec_player(),
    {
        let ghost lib0 = self.library@;
        let card_id = match self.library.pop() {
            Some(id) => id,
            None => {
                proof {
                    assert(self.library@ =~= old(self).library@);
                    assert(self.spec_library() == self.library@);
                    assert(old(self).spec_library() == old(self).library@);
                    assert(self.spec_library() == old(self).spec_library());
                    assert(self.spec_cards() == old(self).spec_cards());
                    assert(self.spec_sideboard() == old(self).spec_sideboard());
                    assert(self.spec_graveyard() == old(self).spec_graveyard());
                    assert(self.spec_exile() == old(self).spec_exile());
                    assert(self.spec_instances() == old(self).spec_instances());
                    assert(self.wf());
                }
                return None;
            },
        };
        self.instances[card_id].visibility_behavior.set_revealed(should_reveal);
        self.library.push(card_id);
        proof {
            assert(self.library@ =~= lib0);
            assert(self.spec_library() == old(self).spec_library());
            assert(self.spec_cards() == old(self).spec_cards());
            assert(self.spec_sideboard() == old(self).spec_sideboard());
            assert(self.spec_graveyard() == old(self).spec_graveyard());
            assert(self.spec_exile() == old(self).spec_exile());
            assert(self.spec_instances().len() == old(self).spec_instances().len());
            assert(self.wf());
        }
        Some(())
    }

    /// All identifiers registered under a card name: copy indices zero up
    /// to the quantity the first copy records. Every such copy must be in
    /// the lookup table.
    pub fn search_cards(&self, card_name: String) -> (r: Vec<usize>)
        requires
            self.wf(),
            key_lookup(self.spec_cards(), card_name@, 0) matches Some(id0) && (forall|c: u8|
                c < self.spec_instances()[id0 as int].quantity ==> key_lookup(
                    self.spec_cards(),
                    card_name@,
                    c,
                ) is Some),
        ensures
            key_lookup(self.spec_cards(), card_name@, 0) matches Some(id0) && r@.len()
                == self.spec_instances()[id0 as int].quantity,
            forall|c: int|
                0 <= c < r@.len() ==> Some(#[trigger] r@[c]) == key_lookup(
                    self.spec_cards(),
                    card_name@,
                    c as u8,
                ),
    {
        proof {
            lemma_key_lookup_in_table(self.spec_cards(), card_name@, 0);
        }
        let id0 = match self.find_id(&card_name, 0) {
            Some(id) => id,
            None => unreached(),
        };
        let quantity = self.instances[id0].quantity;
        let mut out: Vec<usize> = Vec::new();
        let mut c: u8 = 0;
        while c < quantity
            invariant
                c <= quantity,
                quantity == self.spec_instances()[key_lookup(
                    self.spec_cards(),
                    card_name@,
                    0,
                )->0 as int].quantity,
                key_lookup(self.spec_cards(), card_name@, 0) is Some,
                forall|c2: u8|
                    c2 < quantity ==> key_lookup(self.spec_cards(), card_name@, c2) is Some,
                out@.len() == c,
                forall|c2: int|
                    0 <= c2 < c ==> Some(#[trigger] out@[c2]) == key_lookup(
                        self.spec_cards(),
                        card_name@,
                        c2 as u8,
                    ),
            decreases quantity - c,
        {
            let id = match self.find_id(&card_name, c) {
                Some(id) => id,
                None => unreached(),
            };
            out.push(id);
            c += 1;
        }
        out
    }

    /// Shuffles the library: an unbiased permutation of the identifier
    /// sequence; zone membership, the arena and every table are untouched.
    pub fn shuffle_library(&mut self)
        requires
            old(self).wf(),
        ensures
            final(self).wf(),
            final(self).spec_library().to_multiset() == old(self).spec_library().to_multiset(),
            final(self).spec_library().len() == old(self).spec_library().len(),
            final(self).spec_instances() == old(self).spec_instances(),
            final(self).spec_cards() == old(self).spec_cards(),
            final(self).spec_sideboard() == old(self).spec_sideboard(),
            final(self).spec_graveyard() == old(self).spec_graveyard(),
            final(self).spec_exile() == old(self).spec_exile(),
            final(self).spec_player() == old(self).spec_player(),
    {
        let ghost lib0 = self.library@;
        shuffle_ids(&mut self.library);
        proof {
            assert(lib0 == old(self).spec_library());
            assert(self.spec_library() == self.library@);
            assert(self.spec_cards() == old(self).spec_cards());
            assert(self.spec_sideboard() == old(self).spec_sideboard());
            assert(self.spec_graveyard() == old(self).spec_graveyard());
            assert(self.spec_exile() == old(self).spec_exile());
            assert(self.spec_instances() == old(self).spec_instances());
            assert forall|i: int| 0 <= i < self.library@.len() implies lib0.contains(
                #[trigger] self.library@[i],
            ) by {
                let x = self.library@[i];
                assert(self.library@.contains(x));
                assert(self.library@.to_multiset().count(x) > 0);
                assert(lib0.to_multiset().count(x) > 0);
            }
            assert forall|i: int| 0 <= i < self.library@.len() implies (#[trigger] self.library@[i])
                < self.instances@.len() by {
                let x = self.library@[i];
                let k = choose|k: int| 0 <= k < lib0.len() && lib0[k] == x;
                assert(lib0[k] == old(self).spec_library()[k]);
                assert(old(self).spec_library()[k] < old(self).spec_instances().len());
            }
            assert forall|i: int| #![trigger self.library@[i]] 0 <= i < self.library@.len()
                implies id_in_table(self.cards@, self.library@[i]) by {
                let x = self.library@[i];
                let k = choose|k: int| 0 <= k < lib0.len() && lib0[k] == x;
                assert(lib0[k] == old(self).spec_library()[k]);
                assert(id_in_table(old(self).spec_cards(), lib0[k]));
                assert(id_in_table(self.spec_cards(), self.library@[i]));
            }
            assert(self.wf());
        }
    }
}

/// Relies on rand's `SliceRandom::shuffle` with `thread_rng`: an in-place
/// permutation of the sequence, so the multiset of elements is unchanged.
/// Which permutation comes out is random and nothing more is assumed.
#[verifier::external_body]
fn shuffle_ids(v: &mut Vec<usize>)
    ensures
        final(v)@.to_multiset() == old(v)@.to_multiset(),
        final(v)@.len() == old(v)@.len(),
{
    let mut rng = rand::thread_rng();
    v.shuffle(&mut rng);
}

} // verus!
