//! The card catalog: an immutable lookup table from exact card name to its
//! printings, validated once when it is built so that every record the
//! behavior engine will read is well formed.
use vstd::prelude::*;
use crate::card::{brackets_ok, bracket_tokens, parse_pt, pt_value, Card};
use crate::text::str_eq;

verus! {

broadcast use vstd::std_specs::vec::group_vec_axioms;

/// A record the behavior engine can consume: power and toughness denote
/// numbers and the rules text scans cleanly.
pub open spec fn card_ok(c: Card) -> bool {
    &&& pt_value(c.power@) is Some
    &&& pt_value(c.toughness@) is Some
    &&& bracket_tokens(c.description@, 0) is Some
}

/// Every entry has at least one printing, and every printing is well
/// formed.
pub open spec fn entries_ok(s: Seq<(String, Vec<Card>)>) -> bool {
    forall|i: int|
        0 <= i < s.len() ==> (#[trigger] s[i]).1@.len() > 0 && (forall|j: int|
            0 <= j < s[i].1@.len() ==> card_ok(#[trigger] s[i].1@[j]))
}

/// The first printing of the first entry whose name matches exactly, if
/// any: lookup is case-sensitive by design, with no fuzzy fallback.
pub open spec fn find_card(s: Seq<(String, Vec<Card>)>, name: Seq<char>) -> Option<Card>
    decreases s.len(),
{
    if s.len() == 0 {
        Option::None
    } else if s[0].0@ == name {
        if s[0].1@.len() > 0 {
            Some(s[0].1@[0])
        } else {
            Option::None
        }
    } else {
        find_card(s.drop_first(), name)
    }
}

/// The failure conditions of the catalog: a lookup that matches nothing,
/// or source data too corrupt to build a catalog from at all.
#[derive(Debug, PartialEq, Eq, Structural)]
pub enum CardDBError {
    CardNotFound,
    CorruptData,
}

/// A database of all the cards, keyed by exact card name. Build it once
/// with `new` and look cards up with `get_card`; it is immutable after
/// construction.
#[derive(Debug)]
pub struct CardDB {
    library: Vec<(String, Vec<Card>)>,
}

impl CardDB {
    #[verifier::type_invariant]
    spec fn wf(self) -> bool {
        entries_ok(self.library@)
    }

    /// The catalog's entries, in order.
    pub closed spec fn entries(self) -> Seq<(String, Vec<Card>)> {
        self.library@
    }

    /// Builds the catalog from name-to-printings entries. Corrupt data - an
    /// entry with no printings, an unparseable power or toughness, a rules
    /// text whose symbol scan runs off the end - is fatal: no partial
    /// catalog is ever built.
    pub fn new(library: Vec<(String, Vec<Card>)>) -> (r: Result<CardDB, CardDBError>)
        ensures
            r is Ok <==> entries_ok(library@),
            r matches Ok(db) ==> db.entries() == library@,
            r is Err ==> r->Err_0 == CardDBError::CorruptData,
    {
        let mut i: usize = 0;
        while i < library.len()
            invariant
                i <= library@.len(),
                forall|k: int|
                    0 <= k < i ==> (#[trigger] library@[k]).1@.len() > 0 && (forall|j: int|
                        0 <= j < library@[k].1@.len() ==> card_ok(#[trigger] library@[k].1@[j])),
            decreases library@.len() - i,
        {
            if library[i].1.len() == 0 {
                return Err(CardDBError::CorruptData);
            }
            let mut j: usize = 0;
            while j < library[i].1.len()
                invariant
                    i < library@.len(),
                    j <= library@[i as int].1@.len(),
                    forall|k: int| 0 <= k < j ==> card_ok(#[trigger] library@[i as int].1@[k]),
                decreases library@[i as int].1@.len() - j,
            {
                let card = &library[i].1[j];
                if parse_pt(card.power.as_str()).is_none() {
                    return Err(CardDBError::CorruptData);
                }
                if parse_pt(card.toughness.as_str()).is_none() {
                    return Err(CardDBError::CorruptData);
                }
                if !brackets_ok(card.description.as_str()) {
                    return Err(CardDBError::CorruptData);
                }
                j += 1;
            }
            i += 1;
        }
        Ok(CardDB { library })
    }

    /// Looks a card up by exact, case-sensitive name and returns its first
    /// printing, or `CardNotFound`.
    pub fn get_card(&self, card_name: &str) -> (r: Result<&Card, CardDBError>)
        ensures
            r is Ok <==> find_card(self.entries(), card_name@) is Some,
            r matches Ok(c) ==> Some(*c) == find_card(self.entries(), card_name@) && card_ok(*c),
            r is Err ==> r->Err_0 == CardDBError::CardNotFound,
    {
        proof {
            use_type_invariant(self);
        }
        let ghost full = self.library@;
        proof {
            assert(full.skip(0) =~= full);
        }
        let mut i: usize = 0;
        while i < self.library.len()
            invariant
                i <= full.len(),
                full == self.library@,
                entries_ok(full),
                find_card(full, card_name@) == find_card(full.skip(i as int), card_name@),
            decreases full.len() - i,
        {
            proof {
                assert(full.skip(i as int)[0] == full[i as int]);
                assert(full.skip(i as int).drop_first() =~= full.skip(i + 1));
            }
            if str_eq(self.library[i].0.as_str(), card_name) {
                return Ok(&self.library[i].1[0]);
            }
            i += 1;
        }
        proof {
            assert(full.skip(full.len() as int) =~= Seq::<(String, Vec<Card>)>::empty());
        }
        Err(CardDBError::CardNotFound)
    }
}

} // verus!
