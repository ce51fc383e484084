//! Static card data and the keyword/behavior inference engine: from a
//! card's type tags, keyword list and rules text to structured gameplay
//! behavior, plus the per-copy instance (`RealCard`) built from it.
use vstd::prelude::*;
use crate::card_db::{find_card, CardDB};
use crate::colors::Color;
use crate::cost::{digits_val, is_digit_char, Cost};
use crate::text::{contains_seq, contains_sub, has_string, str_eq, strings_contain};

verus! {

broadcast use vstd::std_specs::vec::group_vec_axioms;

/// The closed set of card-type tags the catalog data uses.
#[derive(Debug, PartialEq, Eq, Structural, Clone, Copy)]
pub enum CardType {
    Artifact,
    Battle,
    Commander,
    Creature,
    Enchantment,
    Equipment,
    Instant,
    Land,
    Planeswalker,
    Sorcery,
    Basic,
    Legendary,
    Snow,
    Dungeon,
    Legend,
    Scheme,
    Plane,
    Conspiracy,
    Vanguard,
    Summon,
    Kindred,
    Hero,
    Rat,
    Rogue,
    Jaguar,
    Phenomenon,
    Dragon,
    Goblin,
    Knights,
}

/// What tapping a card is for: producing mana, or some other action.
/// `NoPurpose` marks a card that cannot tap at all.
#[derive(Debug, PartialEq, Eq, Structural, Clone, Copy)]
pub enum TapPurpose {
    Mana,
    Action,
    NoPurpose,
}

/// The zones a card instance can occupy. `NoZone` marks an instance that is
/// not in any zone.
#[derive(Debug, PartialEq, Eq, Structural, Clone, Copy)]
pub enum CardLocation {
    Exile,
    Graveyard,
    Hand,
    Library,
    NoZone,
}

/// Where the card is, and whether opponents can see it.
#[derive(Debug)]
pub struct VisibilityBehavior {
    pub current_location: CardLocation,
    pub revealed: bool,
}

impl VisibilityBehavior {
    /// Moves the card to a zone without touching whether it is revealed.
    pub fn set_location(&mut self, location: CardLocation)
        ensures
            final(self).current_location == location,
            final(self).revealed == old(self).revealed,
    {
        self.current_location = location;
    }

    /// Reveals or hides the card without moving it.
    pub fn set_revealed(&mut self, should_reveal: bool)
        ensures
            final(self).revealed == should_reveal,
            final(self).current_location == old(self).current_location,
    {
        self.revealed = should_reveal;
    }

    /// Whether opponents can see the card.
    pub fn is_revealed(&self) -> (r: bool)
        ensures
            r == self.revealed,
    {
        self.revealed
    }
}

/// Static card data, one record per printing: a direct mapping of the
/// bulk-data card model with the excess properties removed.
#[derive(Debug)]
pub struct Card {
    /// The full type line, like `Artifact - Equipment`.
    pub card_type: String,
    pub card_types: Vec<CardType>,
    pub colors: Vec<Color>,
    pub color_identity: Vec<Color>,
    pub converted_mana_cost: u8,
    pub description: String,
    pub keywords: Vec<String>,
    pub layout: String,
    pub mana_cost: Cost,
    pub mana_value: u8,
    pub name: String,
    /// Power and toughness are textual in the source data; they are parsed
    /// into numbers when the battlefield behavior is built, with `*`
    /// normalized to zero.
    pub power: String,
    pub subtypes: Vec<String>,
    pub supertypes: Vec<String>,
    pub toughness: String,
}

/// The `{X}`-style single-character symbols of a rules text, in order: a
/// `{` whose second-following character is `}` contributes the character
/// between them, and both are consumed either way. A `{` with fewer than
/// two characters after it is malformed, and the whole scan yields nothing:
/// behavior is never inferred from corrupted input.
pub open spec fn bracket_tokens(s: Seq<char>, i: nat) -> Option<Seq<char>>
    decreases s.len() - i,
{
    if i >= s.len() {
        Some(Seq::empty())
    } else if s[i as int] == '{' {
        if i + 2 >= s.len() {
            Option::None
        } else if s[i as int + 2] == '}' {
            match bracket_tokens(s, i + 3) {
                Some(rest) => Some(seq![s[i as int + 1]] + rest),
                Option::None => Option::None,
            }
        } else {
            bracket_tokens(s, i + 3)
        }
    } else {
        bracket_tokens(s, i + 1)
    }
}

/// Collects the bracketed single-character symbols of a rules text.
fn get_unbracketed_keywords(description: &str) -> (r: Vec<char>)
    requires
        bracket_tokens(description@, 0) is Some,
    ensures
        bracket_tokens(description@, 0) == Some(r@),
{
    let n = description.unicode_len();
    let mut out: Vec<char> = Vec::new();
    let mut i: usize = 0;
    while i < n
        invariant
            i <= n,
            n == description@.len(),
            bracket_tokens(description@, i as nat) is Some,
            bracket_tokens(description@, 0) matches Some(full) ==> full == out@ + bracket_tokens(
                description@,
                i as nat,
            )->0,
            bracket_tokens(description@, 0) is Some,
        decreases n - i,
    {
        let c = description.get_char(i);
        if c == '{' {
            if n - i <= 2 {
                proof {
                    assert(bracket_tokens(description@, i as nat) is None);
                }
                return unreached();
            }
            let closed = description.get_char(i + 2) == '}';
            if closed {
                let ghost out0 = out@;
                out.push(description.get_char(i + 1));
                proof {
                    let tail = bracket_tokens(description@, (i + 3) as nat)->0;
                    assert(out0 + (seq![description@[i as int + 1]] + tail) =~= out@ + tail);
                }
            }
            i += 3;
        } else {
            i += 1;
        }
    }
    proof {
        assert(out@ + Seq::<char>::empty() =~= out@);
    }
    out
}

/// Decides whether the bracket scan of a rules text stays in bounds, that
/// is, whether no `{` is left with fewer than two characters after it.
pub fn brackets_ok(description: &str) -> (r: bool)
    ensures
        r == (bracket_tokens(description@, 0) is Some),
{
    let n = description.unicode_len();
    let mut i: usize = 0;
    while i < n
        invariant
            i <= n,
            n == description@.len(),
            (bracket_tokens(description@, 0) is Some) == (bracket_tokens(description@, i as nat)
                is Some),
        decreases n - i,
    {
        let c = description.get_char(i);
        if c == '{' {
            if n - i <= 2 {
                return false;
            }
            i += 3;
        } else {
            i += 1;
        }
    }
    true
}

/// Whether the rules text carries the tap symbol among its bracketed
/// single-character tokens.
pub open spec fn spec_can_tap(description: Seq<char>) -> bool {
    bracket_tokens(description, 0) matches Some(toks) && toks.contains('T')
}

/// Whether the rules text has a tap symbol in it. The bracket scan must not
/// run off the end of the text.
pub fn can_tap(description: &str) -> (r: bool)
    requires
        bracket_tokens(description@, 0) is Some,
    ensures
        r == spec_can_tap(description@),
{
    let toks = get_unbracketed_keywords(description);
    let mut i: usize = 0;
    while i < toks.len()
        invariant
            i <= toks@.len(),
            bracket_tokens(description@, 0) == Some(toks@),
            forall|k: int| 0 <= k < i ==> toks@[k] != 'T',
        decreases toks@.len() - i,
    {
        if toks[i] == 'T' {
            proof {
                assert(toks@[i as int] == 'T');
                assert(toks@.contains('T'));
            }
            return true;
        }
        i += 1;
    }
    proof {
        assert(!toks@.contains('T'));
    }
    false
}

/// How the card enters the battlefield.
#[derive(Debug, PartialEq, Eq, Structural)]
pub struct EntranceBehavior {
    pub can_have_summoning_sickness: bool,
    pub enters_on_instant_stack: bool,
    pub enters_battlefield_tapped: bool,
}

/// What the entrance behavior of a card must say: summoning sickness for
/// creatures, the instant stack for instants and cards with Flash, and the
/// enters-tapped flag from the literal phrase in the rules text. The phrase
/// check is a heuristic: conditional "unless" clauses are not evaluated.
pub open spec fn entrance_matches(b: EntranceBehavior, c: Card) -> bool {
    &&& b.can_have_summoning_sickness == c.card_types@.contains(CardType::Creature)
    &&& b.enters_on_instant_stack == (c.card_types@.contains(CardType::Instant) || has_string(
        c.keywords@,
        "Flash"@,
    ))
    &&& b.enters_battlefield_tapped == contains_seq(c.description@, "enters the battlefield tapped"@)
}

/// Decides membership of a type tag in a tag list.
fn types_contain(v: &Vec<CardType>, t: CardType) -> (r: bool)
    ensures
        r == v@.contains(t),
{
    let mut i: usize = 0;
    while i < v.len()
        invariant
            i <= v@.len(),
            forall|k: int| 0 <= k < i ==> v@[k] != t,
        decreases v@.len() - i,
    {
        if v[i] == t {
            return true;
        }
        i += 1;
    }
    proof {
        assert(!v@.contains(t));
    }
    false
}

impl EntranceBehavior {
    /// Derives the entrance behavior from a card's static data.
    pub fn new(card: &Card) -> (b: EntranceBehavior)
        ensures
            entrance_matches(b, *card),
    {
        let can_have_summoning_sickness = types_contain(&card.card_types, CardType::Creature);
        let enters_on_instant_stack = types_contain(&card.card_types, CardType::Instant)
            || strings_contain(&card.keywords, "Flash");
        let enters_battlefield_tapped = contains_sub(
            card.description.as_str(),
            "enters the battlefield tapped",
        );
        EntranceBehavior {
            can_have_summoning_sickness,
            enters_on_instant_stack,
            enters_battlefield_tapped,
        }
    }
}

/// How the card behaves on the battlefield.
#[derive(Debug)]
pub struct BattlefieldBehavior {
    /// Does it have the ability to attack?
    pub can_attack: bool,
    /// Does it have the ability to block?
    pub can_block: bool,
    /// Can it be tapped for a purpose?
    pub can_tap: bool,
    /// Can it be turned face down or face up?
    pub can_turn_face_up: bool,
    /// Is the card face down?
    pub is_face_down: bool,
    /// Does this card have summoning sickness right now?
    pub is_summon_sick: bool,
    /// Is it tapped right now?
    pub is_tapped: bool,
    /// When it is tapped, what does tapping the card do?
    pub tap_purpose: Vec<TapPurpose>,
    /// When it attacks, how much damage does it do? Zero for cards that
    /// cannot attack.
    pub power: i32,
    /// When it blocks, how much damage can it take before it dies? Zero for
    /// cards that cannot block.
    pub toughness: i32,
}

/// Whether a string is entirely ASCII digits and nonempty.
pub open spec fn digits_only(t: Seq<char>) -> bool {
    t.len() > 0 && (forall|k: int| 0 <= k < t.len() ==> is_digit_char(t[k]))
}

/// The number a textual power or toughness field denotes: a literal `*` is
/// normalized to zero; otherwise an optional sign followed by digits, with
/// the value in 32-bit range. Anything else is corrupt data and denotes
/// nothing.
pub open spec fn pt_value(t: Seq<char>) -> Option<i32> {
    if t == "*"@ {
        Some(0)
    } else if t.len() > 1 && t[0] == '-' && digits_only(t.skip(1)) && digits_val(t.skip(1))
        <= 0x8000_0000 {
        Some((-digits_val(t.skip(1))) as i32)
    } else if t.len() > 1 && t[0] == '+' && digits_only(t.skip(1)) && digits_val(t.skip(1))
        <= 0x7FFF_FFFF {
        Some(digits_val(t.skip(1)) as i32)
    } else if digits_only(t) && digits_val(t) <= 0x7FFF_FFFF {
        Some(digits_val(t) as i32)
    } else {
        Option::None
    }
}

proof fn lemma_digits_val_nonneg_pt(t: Seq<char>)
    requires
        forall|k: int| 0 <= k < t.len() ==> is_digit_char(t[k]),
    ensures
        digits_val(t) >= 0,
    decreases t.len(),
{
    if t.len() > 0 {
        assert forall|k: int| 0 <= k < t.drop_last().len() implies is_digit_char(
            t.drop_last()[k],
        ) by {
            assert(t.drop_last()[k] == t[k]);
        }
        lemma_digits_val_nonneg_pt(t.drop_last());
    }
}

/// Parses a textual power or toughness field, the number it denotes.
pub fn parse_pt(t: &str) -> (r: Option<i32>)
    ensures
        r == pt_value(t@),
{
    if str_eq(t, "*") {
        return Some(0);
    }
    let n = t.unicode_len();
    if n == 0 {
        return None;
    }
    let first = t.get_char(0);
    let neg = first == '-';
    let signed = first == '-' || first == '+';
    let start: usize = if signed {
        1
    } else {
        0
    };
    let ghost body = t@.skip(start as int);
    proof {
        if start == 0 {
            assert(body =~= t@);
        }
    }
    let mut j: usize = start;
    let mut all_digits = n > start;
    let mut too_big = false;
    let mut magnitude: u64 = 0;
    while j < n && all_digits
        invariant
            start <= j <= n,
            n == t@.len(),
            body == t@.skip(start as int),
            all_digits ==> (n > start && forall|k: int| 0 <= k < j - start ==> is_digit_char(
                body[k],
            )),
            all_digits && !too_big ==> magnitude == digits_val(body.take(j - start)) && magnitude
                <= 0x8000_0000,
            all_digits && too_big ==> digits_val(body.take(j - start)) > 0x8000_0000,
            !all_digits ==> !digits_only(body),
        decreases n - j,
    {
        let c = t.get_char(j);
        let u = c as u32;
        if 48 <= u && u <= 57 {
            proof {
                assert(body[j - start] == t@[j as int]);
                assert(body.take(j - start + 1).drop_last() =~= body.take(j - start));
                assert(body.take(j - start + 1).last() == body[j - start]);
                if too_big {
                    assert forall|k: int|
                        0 <= k < body.take(j - start).len() implies is_digit_char(
                        #[trigger] body.take(j - start)[k],
                    ) by {
                        assert(body.take(j - start)[k] == body[k]);
                    }
                    lemma_digits_val_nonneg_pt(body.take(j - start));
                }
            }
            if !too_big {
                magnitude = magnitude * 10 + ((u - 48) as u64);
                if magnitude > 0x8000_0000 {
                    too_big = true;
                }
            }
        } else {
            all_digits = false;
            proof {
                assert(!is_digit_char(body[j - start]));
            }
        }
        j += 1;
    }
    if !all_digits {
        proof {
            assert(t@ != "*"@);
        }
        return None;
    }
    proof {
        assert(body.take(n - start) =~= body);
    }
    if too_big {
        return None;
    }
    if neg {
        Some((-(magnitude as i64)) as i32)
    } else {
        if magnitude > 0x7FFF_FFFF {
            return None;
        }
        Some(magnitude as i32)
    }
}

/// What the battlefield behavior of a card must say: creatures attack
/// unless they have Defender and block always; a card taps if it is a land
/// or its text has a tap symbol; Disguise allows turning face up; a card
/// that taps is for mana when the text says `Add {`, else for a generic
/// action; power and toughness are the parsed fields; the mutable runtime
/// flags start clear.
pub open spec fn battlefield_matches(b: BattlefieldBehavior, c: Card) -> bool {
    &&& b.can_attack == (c.card_types@.contains(CardType::Creature) && !has_string(
        c.keywords@,
        "Defender"@,
    ))
    &&& b.can_block == c.card_types@.contains(CardType::Creature)
    &&& b.can_tap == (c.card_types@.contains(CardType::Land) || spec_can_tap(c.description@))
    &&& b.can_turn_face_up == has_string(c.keywords@, "Disguise"@)
    &&& !b.is_face_down
    &&& !b.is_summon_sick
    &&& !b.is_tapped
    &&& (!b.can_tap ==> b.tap_purpose@ == seq![TapPurpose::NoPurpose])
    &&& (b.can_tap && contains_seq(c.description@, "Add {"@) ==> b.tap_purpose@ == seq![
        TapPurpose::Mana,
    ])
    &&& (b.can_tap && !contains_seq(c.description@, "Add {"@) ==> b.tap_purpose@ == seq![
        TapPurpose::Action,
    ])
    &&& Some(b.power) == pt_value(c.power@)
    &&& Some(b.toughness) == pt_value(c.toughness@)
}

/// Classifies what tapping the card is for: nothing if it cannot tap, mana
/// if its text adds mana, else a generic action.
fn get_tap_purpose(card: &Card, can_tap: bool) -> (r: Vec<TapPurpose>)
    ensures
        !can_tap ==> r@ == seq![TapPurpose::NoPurpose],
        can_tap && contains_seq(card.description@, "Add {"@) ==> r@ == seq![TapPurpose::Mana],
        can_tap && !contains_seq(card.description@, "Add {"@) ==> r@ == seq![TapPurpose::Action],
{
    let mut v: Vec<TapPurpose> = Vec::new();
    if !can_tap {
        v.push(TapPurpose::NoPurpose);
        proof {
            assert(v@ =~= seq![TapPurpose::NoPurpose]);
        }
        return v;
    }
    if contains_sub(card.description.as_str(), "Add {") {
        v.push(TapPurpose::Mana);
        proof {
            assert(v@ =~= seq![TapPurpose::Mana]);
        }
        return v;
    }
    v.push(TapPurpose::Action);
    proof {
        assert(v@ =~= seq![TapPurpose::Action]);
    }
    v
}

impl BattlefieldBehavior {
    /// Derives the battlefield behavior from a card's static data. The
    /// card's power and toughness fields must denote numbers and its rules
    /// text must scan cleanly: corrupt data is fatal, never tolerated.
    pub fn new(card: &Card) -> (b: BattlefieldBehavior)
        requires
            pt_value(card.power@) is Some,
            pt_value(card.toughness@) is Some,
            bracket_tokens(card.description@, 0) is Some,
        ensures
            battlefield_matches(b, *card),
    {
        let can_attack = types_contain(&card.card_types, CardType::Creature) && !strings_contain(
            &card.keywords,
            "Defender",
        );
        let can_block = types_contain(&card.card_types, CardType::Creature);
        let can_tap = types_contain(&card.card_types, CardType::Land) || can_tap(
            card.description.as_str(),
        );
        let can_turn_face_up = strings_contain(&card.keywords, "Disguise");
        let tap_purpose = get_tap_purpose(card, can_tap);
        let power = match parse_pt(card.power.as_str()) {
            Some(p) => p,
            None => unreached(),
        };
        let toughness = match parse_pt(card.toughness.as_str()) {
            Some(p) => p,
            None => unreached(),
        };
        BattlefieldBehavior {
            can_attack,
            can_block,
            can_tap,
            can_turn_face_up,
            is_face_down: false,
            is_summon_sick: false,
            is_tapped: false,
            tap_purpose,
            power,
            toughness,
        }
    }
}

/// When the card dies, where does it go?
#[derive(Debug, PartialEq, Eq, Structural)]
pub struct ExitBehavior {
    pub hits_graveyard_on_death: bool,
    pub hits_exile_on_death: bool,
    pub location_on_death: CardLocation,
}

/// The static default exit behavior of a fresh instance: the graveyard.
/// Replacement effects are not yet modeled.
pub open spec fn exit_default(b: ExitBehavior) -> bool {
    b.hits_graveyard_on_death && !b.hits_exile_on_death && b.location_on_death
        == CardLocation::Graveyard
}

impl ExitBehavior {
    pub fn update_hits_graveyard_on_death(&mut self, should_go_to_graveyard: bool)
        ensures
            final(self).hits_graveyard_on_death == should_go_to_graveyard,
            final(self).hits_exile_on_death == old(self).hits_exile_on_death,
            final(self).location_on_death == old(self).location_on_death,
    {
        self.hits_graveyard_on_death = should_go_to_graveyard;
    }

    pub fn update_hits_exile_on_death(&mut self, should_hit_exile: bool)
        ensures
            final(self).hits_exile_on_death == should_hit_exile,
            final(self).hits_graveyard_on_death == old(self).hits_graveyard_on_death,
            final(self).location_on_death == old(self).location_on_death,
    {
        self.hits_exile_on_death = should_hit_exile;
    }

    pub fn update_location_on_death(&mut self, death_location: CardLocation)
        ensures
            final(self).location_on_death == death_location,
            final(self).hits_graveyard_on_death == old(self).hits_graveyard_on_death,
            final(self).hits_exile_on_death == old(self).hits_exile_on_death,
    {
        self.location_on_death = death_location;
    }
}

/// The failure conditions of instance creation: the name is not in the
/// catalog, or the requested quantity breaks the deck-construction rule.
#[derive(Debug, PartialEq, Eq)]
pub enum RealCardError {
    CardNotFound(String),
    InvalidQuantity,
}

/// Whether a card is a basic land: tagged Land among its types and Basic
/// among its supertypes. Basic lands are exempt from the four-copy rule.
pub open spec fn spec_is_basic_land(c: Card) -> bool {
    c.card_types@.contains(CardType::Land) && has_string(c.supertypes@, "Basic"@)
}

/// Decides whether a card is a basic land from its type tags and
/// supertypes.
pub fn card_is_basic_land(card_types: &Vec<CardType>, supertypes: &Vec<String>) -> (r: bool)
    ensures
        r == (card_types@.contains(CardType::Land) && has_string(supertypes@, "Basic"@)),
{
    types_contain(card_types, CardType::Land) && strings_contain(supertypes, "Basic")
}

/// The deck-construction legality rule: any quantity of a basic land, one
/// to four copies of anything else.
pub open spec fn valid_quantity(c: Card, quantity: u8) -> bool {
    spec_is_basic_land(c) || (1 <= quantity && quantity <= 4)
}

/// One physical copy of a card, bound to its catalog entry, carrying the
/// derived behavior bundles and the mutable runtime state.
#[derive(Debug)]
pub struct RealCard<'a> {
    /// The backing catalog entry.
    pub card: &'a Card,
    /// The card name; case and punctuation matter.
    pub name: &'a str,
    /// How many of this card the deck requested.
    pub quantity: u8,
    pub visibility_behavior: VisibilityBehavior,
    pub entrance_behavior: EntranceBehavior,
    pub battlefield_behavior: BattlefieldBehavior,
    pub exit_behavior: ExitBehavior,
}

/// What a freshly created instance must look like: bound to the catalog
/// entry, in the library, hidden, with behaviors derived from the entry and
/// the default exit behavior.
pub open spec fn fresh_instance(rc: RealCard, c: Card, name: Seq<char>, quantity: u8) -> bool {
    &&& *rc.card == c
    &&& rc.name@ == name
    &&& rc.quantity == quantity
    &&& rc.visibility_behavior.current_location == CardLocation::Library
    &&& !rc.visibility_behavior.revealed
    &&& entrance_matches(rc.entrance_behavior, c)
    &&& battlefield_matches(rc.battlefield_behavior, c)
    &&& exit_default(rc.exit_behavior)
}

/// Two instances that agree on everything except that the second sits in
/// the given zone.
pub open spec fn same_but_zone(a: RealCard, b: RealCard, zone: CardLocation) -> bool {
    &&& b.visibility_behavior.current_location == zone
    &&& b.visibility_behavior.revealed == a.visibility_behavior.revealed
    &&& b.card == a.card
    &&& b.name == a.name
    &&& b.quantity == a.quantity
    &&& b.entrance_behavior == a.entrance_behavior
    &&& b.battlefield_behavior == a.battlefield_behavior
    &&& b.exit_behavior == a.exit_behavior
}

impl<'a> RealCard<'a> {
    /// Creates one instance of the named card: the name is looked up in the
    /// catalog with an exact, case-sensitive match, the quantity is checked
    /// against the deck-construction rule, and the behavior bundles are
    /// derived from the entry. Fails with `CardNotFound` or
    /// `InvalidQuantity` exactly as those checks dictate.
    pub fn new(db: &'a CardDB, name: &'a str, quantity: u8) -> (r: Result<
        RealCard<'a>,
        RealCardError,
    >)
        ensures
            r is Ok <==> (find_card(db.entries(), name@) matches Some(c) && valid_quantity(
                c,
                quantity,
            )),
            r matches Ok(rc) ==> (find_card(db.entries(), name@) matches Some(c)
                && fresh_instance(rc, c, name@, quantity)),
            find_card(db.entries(), name@) is None ==> (r matches Err(
                RealCardError::CardNotFound(s),
            ) && s@ == name@),
            (find_card(db.entries(), name@) matches Some(c) && !valid_quantity(c, quantity)) ==> r
                == Err::<RealCard<'a>, RealCardError>(RealCardError::InvalidQuantity),
    {
        let card = match db.get_card(name) {
            Ok(card) => card,
            Err(_) => {
                return Err(RealCardError::CardNotFound(name.to_owned()));
            },
        };
        let is_basic_land = card_is_basic_land(&card.card_types, &card.supertypes);
        if !is_basic_land && (quantity > 4 || quantity < 1) {
            return Err(RealCardError::InvalidQuantity);
        }
        let visibility_behavior = VisibilityBehavior {
            current_location: CardLocation::Library,
            revealed: false,
        };
        let entrance_behavior = EntranceBehavior::new(card);
        let battlefield_behavior = BattlefieldBehavior::new(card);
        let exit_behavior = ExitBehavior {
            hits_graveyard_on_death: true,
            hits_exile_on_death: false,
            location_on_death: CardLocation::Graveyard,
        };
        Ok(
            RealCard {
                name,
                card,
                quantity,
                visibility_behavior,
                entrance_behavior,
                battlefield_behavior,
                exit_behavior,
            },
        )
    }

    /// Moves the card from its current zone to a new one; everything else
    /// about the instance is unchanged.
    pub fn change_current_location(&mut self, new_location: CardLocation)
        ensures
            final(self).visibility_behavior.current_location == new_location,
            final(self).visibility_behavior.revealed == old(self).visibility_behavior.revealed,
            final(self).card == old(self).card,
            final(self).name == old(self).name,
            final(self).quantity == old(self).quantity,
            final(self).entrance_behavior == old(self).entrance_behavior,
            final(self).battlefield_behavior == old(self).battlefield_behavior,
            final(self).exit_behavior == old(self).exit_behavior,
    {
        self.visibility_behavior.set_location(new_location);
    }
}

} // verus!
