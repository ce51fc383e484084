//! The canonical cost model: a `Cost` maps each color key (hybrid symbols
//! included, compared structurally) to an accumulated quantity, and the two
//! mana-cost parsers fold payment lists into it.
use vstd::prelude::*;
use vstd::map::*;
use crate::colors::{Color, ColorV, color_of_symbol, colors_view, lemma_colors_view_index, lemma_colors_view_len, lower_char, to_lower};

verus! {

broadcast use vstd::std_specs::vec::group_vec_axioms;

/// One payment toward a cost: a color key and how many of it.
#[derive(Debug)]
pub struct Payment {
    pub color: Color,
    pub quantity: u8,
}

impl View for Payment {
    type V = (ColorV, u8);

    open spec fn view(&self) -> (ColorV, u8) {
        (self.color@, self.quantity)
    }
}

/// The views of a payment sequence, element by element.
pub open spec fn payments_view(ps: Seq<Payment>) -> Seq<(ColorV, u8)> {
    ps.map_values(|p: Payment| p@)
}

/// One payment folded into an accumulated cost mapping: the quantity is
/// added under the payment's key if the key is present, and opens the key
/// otherwise.
pub open spec fn add_payment(m: Map<ColorV, int>, p: (ColorV, u8)) -> Map<ColorV, int> {
    if m.contains_key(p.0) {
        m.insert(p.0, m[p.0] + p.1)
    } else {
        m.insert(p.0, p.1 as int)
    }
}

/// The payments folded left to right into the empty mapping.
pub open spec fn accum_map_from(ps: Seq<(ColorV, u8)>) -> Map<ColorV, int>
    decreases ps.len(),
{
    if ps.len() == 0 {
        Map::empty()
    } else {
        add_payment(accum_map_from(ps.drop_last()), ps.last())
    }
}

/// The canonical accumulation of a payment sequence: quantities summed per
/// distinct color key; an empty sequence yields the single entry
/// `{NoColor: 0}`, never an empty mapping.
pub open spec fn accum_map(ps: Seq<(ColorV, u8)>) -> Map<ColorV, int> {
    if ps.len() == 0 {
        map![ColorV::NoColor => 0int]
    } else {
        accum_map_from(ps)
    }
}

/// An empty payment sequence accumulates to the single entry `{NoColor: 0}`,
/// which is not the empty mapping.
pub proof fn lemma_accumulate_empty()
    ensures
        accum_map(Seq::empty()) == map![ColorV::NoColor => 0int],
        accum_map(Seq::empty()) != Map::<ColorV, int>::empty(),
{
    assert(accum_map(Seq::empty()).contains_key(ColorV::NoColor));
    assert(!Map::<ColorV, int>::empty().contains_key(ColorV::NoColor));
}

/// A cost: the canonical mapping from color key to accumulated quantity.
/// Its view is that mapping, with hybrid keys compared structurally.
#[derive(Debug)]
pub struct Cost {
    cost: Vec<(Color, u64)>,
}

/// The mapping an entry list denotes: later entries would shadow earlier
/// ones, though a well-formed cost never repeats a key.
spec fn cost_map(s: Seq<(Color, u64)>) -> Map<ColorV, int>
    decreases s.len(),
{
    if s.len() == 0 {
        Map::empty()
    } else {
        cost_map(s.drop_last()).insert(s.last().0@, s.last().1 as int)
    }
}

/// Entry keys are pairwise distinct.
spec fn distinct_keys(s: Seq<(Color, u64)>) -> bool {
    forall|i: int, j: int| 0 <= i < j < s.len() ==> s[i].0@ != s[j].0@
}

proof fn lemma_cost_map_contains(s: Seq<(Color, u64)>, k: ColorV)
    ensures
        cost_map(s).contains_key(k) <==> exists|i: int| 0 <= i < s.len() && s[i].0@ == k,
    decreases s.len(),
{
    if s.len() > 0 {
        let rest = s.drop_last();
        lemma_cost_map_contains(rest, k);
        if s.last().0@ == k {
            assert(s[s.len() - 1].0@ == k);
        } else if exists|i: int| 0 <= i < rest.len() && rest[i].0@ == k {
            let i = choose|i: int| 0 <= i < rest.len() && rest[i].0@ == k;
            assert(s[i].0@ == k);
        } else {
            assert forall|i: int| 0 <= i < s.len() implies s[i].0@ != k by {
                if i < s.len() - 1 {
                    assert(rest[i] == s[i]);
                }
            }
        }
    }
}

proof fn lemma_cost_map_value(s: Seq<(Color, u64)>, j: int)
    requires
        distinct_keys(s),
        0 <= j < s.len(),
    ensures
        cost_map(s).contains_key(s[j].0@),
        cost_map(s)[s[j].0@] == s[j].1 as int,
    decreases s.len(),
{
    let rest = s.drop_last();
    if j == s.len() - 1 {
    } else {
        assert(rest[j] == s[j]);
        lemma_cost_map_value(rest, j);
    }
}

proof fn lemma_cost_map_dom_len(s: Seq<(Color, u64)>)
    requires
        distinct_keys(s),
    ensures
        cost_map(s).dom().finite(),
        cost_map(s).dom().len() == s.len(),
    decreases s.len(),
{
    if s.len() > 0 {
        let rest = s.drop_last();
        lemma_cost_map_dom_len(rest);
        lemma_cost_map_contains(rest, s.last().0@);
        assert forall|i: int| 0 <= i < rest.len() implies rest[i].0@ != s.last().0@ by {
            assert(rest[i] == s[i]);
        }
        assert(!cost_map(rest).contains_key(s.last().0@));
        assert(cost_map(s).dom() =~= cost_map(rest).dom().insert(s.last().0@));
    } else {
        assert(cost_map(s).dom() =~= Set::<ColorV>::empty());
    }
}

proof fn lemma_cost_map_update(s: Seq<(Color, u64)>, j: int, e: (Color, u64))
    requires
        distinct_keys(s),
        0 <= j < s.len(),
        e.0@ == s[j].0@,
    ensures
        cost_map(s.update(j, e)) == cost_map(s).insert(e.0@, e.1 as int),
    decreases s.len(),
{
    let t = s.update(j, e);
    if j == s.len() - 1 {
        assert(t.drop_last() =~= s.drop_last());
        assert(t.last() == e);
        assert(cost_map(t) =~= cost_map(s).insert(e.0@, e.1 as int));
    } else {
        assert(t.drop_last() =~= s.drop_last().update(j, e));
        assert(s.drop_last()[j] == s[j]);
        lemma_cost_map_update(s.drop_last(), j, e);
        assert(t.last() == s.last());
        assert(s.last().0@ != e.0@);
        assert(cost_map(t) =~= cost_map(s).insert(e.0@, e.1 as int));
    }
}

impl Cost {
    #[verifier::type_invariant]
    spec fn wf(self) -> bool {
        distinct_keys(self.cost@)
    }
}

impl View for Cost {
    type V = Map<ColorV, int>;

    closed spec fn view(&self) -> Map<ColorV, int> {
        cost_map(self.cost@)
    }
}

impl Cost {
    /// Accumulates a payment sequence into a canonical cost: quantities are
    /// summed per distinct color key, and an empty sequence yields the single
    /// entry `{NoColor: 0}`.
    pub fn new(payments: Vec<Payment>) -> (r: Cost)
        requires
            payments@.len() <= 0x0100_0000_0000_0000,
        ensures
            r@ == accum_map(payments_view(payments@)),
    {
        let ghost ps = payments_view(payments@);
        let mut cost: Vec<(Color, u64)> = Vec::new();
        if payments.len() == 0 {
            cost.push((Color::NoColor, 0));
            proof {
                assert(cost@.drop_last() =~= Seq::<(Color, u64)>::empty());
                assert(cost_map(cost@.drop_last()) == Map::<ColorV, int>::empty());
                assert(cost@.last().0@ == ColorV::NoColor);
                assert(cost_map(cost@) == cost_map(cost@.drop_last()).insert(ColorV::NoColor, 0int));
                assert(cost_map(cost@) =~= map![ColorV::NoColor => 0int]);
            }
            return Cost { cost };
        }
        let ghost n = ps.len();
        let mut rest = payments;
        while rest.len() > 0
            invariant
                ps.len() == n,
                n <= 0x0100_0000_0000_0000,
                rest@.len() <= n,
                payments_view(rest@) =~= ps.subrange(n - rest@.len(), n as int),
                distinct_keys(cost@),
                cost_map(cost@) == accum_map_from(ps.take(n - rest@.len())),
                forall|i: int| 0 <= i < cost@.len() ==> #[trigger] cost@[i].1 <= 255 * (n
                    - rest@.len()),
            decreases rest@.len(),
        {
            let ghost k = n - rest@.len();
            let ghost processed = ps.take(k);
            let ghost rest0 = rest@;
            let p = rest.remove(0);
            proof {
                assert(rest@ =~= rest0.subrange(1, rest0.len() as int));
                assert forall|t: int| 0 <= t < rest@.len() implies payments_view(rest@)[t]
                    == ps.subrange(k + 1, n as int)[t] by {
                    assert(rest@[t] == rest0[t + 1]);
                    assert(payments_view(rest@)[t] == rest@[t]@);
                    assert(payments_view(rest0)[t + 1] == rest0[t + 1]@);
                    assert(payments_view(rest0)[t + 1] == ps.subrange(k, n as int)[t + 1]);
                }
                assert(payments_view(rest@) =~= ps.subrange(k + 1, n as int));
                assert(p == rest0[0]);
                assert(payments_view(rest0)[0] == rest0[0]@);
                assert(payments_view(rest0)[0] == ps.subrange(k, n as int)[0]);
                assert(p@ == ps[k]);
                assert(processed.push(p@) =~= ps.take(k + 1));
                assert(ps.take(k + 1).drop_last() =~= processed);
                assert(accum_map_from(ps.take(k + 1)) == add_payment(
                    accum_map_from(processed),
                    p@,
                ));
            }
            let ghost pc = p.color;
            let ghost pq = p.quantity;
            let ghost pv = p@;
            let ghost cost0 = cost@;
            let mut j: usize = 0;
            let mut found = false;
            while j < cost.len() && !found
                invariant
                    cost@ == cost0,
                    j <= cost@.len(),
                    !found ==> forall|t: int| 0 <= t < j ==> cost@[t].0@ != p.color@,
                    found ==> j < cost@.len() && cost@[j as int].0@ == p.color@,
                decreases cost@.len() - j, (if found { 0int } else { 1int }),
            {
                if cost[j].0.same(&p.color) {
                    found = true;
                } else {
                    j += 1;
                }
            }
            if found {
                let q = cost[j].1;
                proof {
                    lemma_cost_map_value(cost0, j as int);
                    assert(accum_map_from(processed).contains_key(pc@));
                    assert(accum_map_from(processed)[pc@] == q as int);
                    assert(q <= 255 * k);
                    assert(255 * k <= 255 * 0x0100_0000_0000_0000) by (nonlinear_arith)
                        requires
                            0 <= k <= 0x0100_0000_0000_0000,
                    ;
                }
                let q2 = q + (p.quantity as u64);
                proof {
                    lemma_cost_map_update(cost0, j as int, (pc, q2));
                    assert forall|i1: int, j1: int|
                        0 <= i1 < j1 < cost0.update(j as int, (pc, q2)).len() implies cost0.update(
                        j as int,
                        (pc, q2),
                    )[i1].0@ != cost0.update(j as int, (pc, q2))[j1].0@ by {
                        if i1 != j {
                            assert(cost0.update(j as int, (pc, q2))[i1] == cost0[i1]);
                        }
                        if j1 != j {
                            assert(cost0.update(j as int, (pc, q2))[j1] == cost0[j1]);
                        }
                    }
                }
                cost.set(j, (p.color, q2));
                proof {
                    assert(cost@ == cost0.update(j as int, (pc, q2)));
                    assert(cost_map(cost@) == cost_map(cost0).insert(pc@, q2 as int));
                    assert(add_payment(accum_map_from(processed), pv) == accum_map_from(
                        processed,
                    ).insert(pc@, q as int + pq as int));
                    assert(q2 as int == q as int + pq as int);
                    assert(cost_map(cost@) == accum_map_from(ps.take(k + 1)));
                }
            } else {
                proof {
                    lemma_cost_map_contains(cost0, pc@);
                    assert(!accum_map_from(processed).contains_key(pc@));
                }
                cost.push((p.color, p.quantity as u64));
                proof {
                    assert(cost@ == cost0.push((pc, pq as u64)));
                    assert(cost@.drop_last() =~= cost0);
                    assert(cost@.last() == (pc, pq as u64));
                    assert(cost_map(cost@) == cost_map(cost0).insert(pc@, pq as int));
                    assert(add_payment(accum_map_from(processed), pv) == accum_map_from(
                        processed,
                    ).insert(pc@, pq as int));
                    assert(cost_map(cost@) == accum_map_from(ps.take(k + 1)));
                    assert forall|i1: int, j1: int| 0 <= i1 < j1 < cost@.len() implies cost@[i1].0@
                        != cost@[j1].0@ by {
                        if j1 < cost@.len() - 1 {
                            assert(cost@[i1] == cost0[i1]);
                            assert(cost@[j1] == cost0[j1]);
                        } else {
                            assert(cost@[i1] == cost0[i1]);
                            assert(cost@[j1] == (pc, pq as u64));
                        }
                    }
                }
            }
            proof {
                assert(cost_map(cost@) =~= accum_map_from(ps.take(k + 1)));
            }
        }
        proof {
            assert(ps.take(n as int) =~= ps);
            assert(accum_map(ps) == accum_map_from(ps));
        }
        Cost { cost }
    }

    /// The accumulated quantity under a color key, or nothing when the key
    /// is absent.
    pub fn get(&self, color: &Color) -> (r: Option<u64>)
        ensures
            match r {
                Some(q) => self@.contains_key(color@) && q as int == self@[color@],
                None => !self@.contains_key(color@),
            },
    {
        proof {
            use_type_invariant(self);
        }
        let mut j: usize = 0;
        while j < self.cost.len()
            invariant
                j <= self.cost@.len(),
                distinct_keys(self.cost@),
                forall|t: int| 0 <= t < j ==> self.cost@[t].0@ != color@,
            decreases self.cost@.len() - j,
        {
            if self.cost[j].0.same(color) {
                proof {
                    lemma_cost_map_value(self.cost@, j as int);
                }
                return Some(self.cost[j].1);
            }
            j += 1;
        }
        proof {
            lemma_cost_map_contains(self.cost@, color@);
        }
        None
    }

    /// Whether the cost has an entry under the color key.
    pub fn contains_key(&self, color: &Color) -> (r: bool)
        ensures
            r == self@.contains_key(color@),
    {
        self.get(color).is_some()
    }

    /// How many distinct color keys the cost holds.
    pub fn len(&self) -> (n: usize)
        ensures
            n == self@.dom().len(),
    {
        proof {
            use_type_invariant(self);
            lemma_cost_map_dom_len(self.cost@);
        }
        self.cost.len()
    }
}


/// Whether the character is an ASCII decimal digit.
pub open spec fn is_digit_char(c: char) -> bool {
    48 <= c as u32 && c as u32 <= 57
}

/// The numeric value of an ASCII decimal digit.
pub open spec fn digit_val(c: char) -> u8 {
    (c as u32 - 48) as u8
}

/// Whether the character is an ASCII letter.
pub open spec fn is_alpha_char(c: char) -> bool {
    (65 <= c as u32 && c as u32 <= 90) || (97 <= c as u32 && c as u32 <= 122)
}

/// The color one mid-cost character denotes: a digit counts as colorless, a
/// letter is a single-letter abbreviation, and an unknown symbol degrades to
/// the `NoColor` sentinel rather than failing.
pub open spec fn char_color(c: char) -> Color {
    if is_digit_char(c) {
        Color::C
    } else {
        match to_lower(c) {
            'b' => Color::B,
            'u' => Color::U,
            'c' => Color::C,
            'g' => Color::G,
            'r' => Color::R,
            'w' => Color::W,
            'x' => Color::X,
            's' => Color::S,
            'p' => Color::P,
            _ => Color::NoColor,
        }
    }
}

/// The quantity one mid-cost character contributes: a digit's face value,
/// otherwise one.
pub open spec fn char_quantity(c: char) -> u8 {
    if is_digit_char(c) {
        digit_val(c)
    } else {
        1
    }
}

/// The hybrid key a `/` forms from the characters on either side, in source
/// order with their respective quantities.
pub open spec fn hybrid_of(prev: char, next: char) -> ColorV {
    ColorV::Multi {
        colors: seq![char_color(prev)@, char_color(next)@],
        costs: seq![char_quantity(prev), char_quantity(next)],
    }
}

/// The general tokenizer's pass over a cost string, from position `i` with
/// the payments gathered so far. A digit is that many colorless payments, a
/// letter one payment of its color, and `/` combines the payment just
/// gathered with the following symbol into one hybrid payment of quantity
/// one, replacing the preceding payment and consuming the following symbol.
/// Any other character is skipped. A `/` with no preceding or following
/// character is malformed, and the whole scan yields nothing.
pub open spec fn scan_payments(s: Seq<char>, i: nat, acc: Seq<(ColorV, u8)>) -> Option<
    Seq<(ColorV, u8)>,
>
    decreases s.len() - i,
{
    if i >= s.len() {
        Some(acc)
    } else if s[i as int] == '/' {
        if i == 0 || i + 1 >= s.len() {
            Option::None
        } else {
            let base = if acc.len() > 0 {
                acc.drop_last()
            } else {
                acc
            };
            scan_payments(s, i + 2, base.push((hybrid_of(s[i as int - 1], s[i as int + 1]), 1u8)))
        }
    } else if is_digit_char(s[i as int]) {
        scan_payments(s, i + 1, acc.push((ColorV::C, digit_val(s[i as int]))))
    } else if is_alpha_char(s[i as int]) {
        scan_payments(s, i + 1, acc.push((char_color(s[i as int])@, 1u8)))
    } else {
        scan_payments(s, i + 1, acc)
    }
}

proof fn lemma_payments_view_push(v: Seq<Payment>, p: Payment)
    ensures
        payments_view(v.push(p)) == payments_view(v).push(p@),
{
    assert(payments_view(v.push(p)) =~= payments_view(v).push(p@));
}

proof fn lemma_payments_view_drop_last(v: Seq<Payment>)
    requires
        v.len() > 0,
    ensures
        payments_view(v.drop_last()) == payments_view(v).drop_last(),
{
    assert(payments_view(v.drop_last()) =~= payments_view(v).drop_last());
}

/// Resolves one mid-cost character to its color, substituting the `NoColor`
/// sentinel for an unknown symbol (the tolerant policy of the general
/// tokenizer).
#[allow(unused_variables)]
pub fn parse_color(mana_cost: &str, c: char) -> (r: Color)
    ensures
        r == char_color(c),
{
    let u = c as u32;
    if 48 <= u && u <= 57 {
        return Color::C;
    }
    match lower_char(c) {
        'b' => Color::B,
        'u' => Color::U,
        'c' => Color::C,
        'g' => Color::G,
        'r' => Color::R,
        'w' => Color::W,
        'x' => Color::X,
        's' => Color::S,
        'p' => Color::P,
        _ => Color::NoColor,
    }
}

/// Resolves one mid-cost character to its color and the quantity it
/// contributes: a digit's face value, otherwise one.
pub fn get_color_and_quantity(mana_cost: &str, c: char) -> (r: (Color, u8))
    ensures
        r.0 == char_color(c),
        r.1 == char_quantity(c),
{
    let u = c as u32;
    if 48 <= u && u <= 57 {
        return (Color::C, (u - 48) as u8);
    }
    (parse_color(mana_cost, c), 1)
}

/// Whether the scan accepts the string does not depend on the payments
/// gathered so far, only on the positions of its `/` characters.
proof fn lemma_scan_some_independent(
    s: Seq<char>,
    i: nat,
    acc1: Seq<(ColorV, u8)>,
    acc2: Seq<(ColorV, u8)>,
)
    ensures
        (scan_payments(s, i, acc1) is Some) == (scan_payments(s, i, acc2) is Some),
    decreases s.len() - i,
{
    if i >= s.len() {
    } else if s[i as int] == '/' {
        if i == 0 || i + 1 >= s.len() {
        } else {
            let base1 = if acc1.len() > 0 {
                acc1.drop_last()
            } else {
                acc1
            };
            let base2 = if acc2.len() > 0 {
                acc2.drop_last()
            } else {
                acc2
            };
            lemma_scan_some_independent(
                s,
                i + 2,
                base1.push((hybrid_of(s[i as int - 1], s[i as int + 1]), 1u8)),
                base2.push((hybrid_of(s[i as int - 1], s[i as int + 1]), 1u8)),
            );
        }
    } else if is_digit_char(s[i as int]) {
        lemma_scan_some_independent(
            s,
            i + 1,
            acc1.push((ColorV::C, digit_val(s[i as int]))),
            acc2.push((ColorV::C, digit_val(s[i as int]))),
        );
    } else if is_alpha_char(s[i as int]) {
        lemma_scan_some_independent(
            s,
            i + 1,
            acc1.push((char_color(s[i as int])@, 1u8)),
            acc2.push((char_color(s[i as int])@, 1u8)),
        );
    } else {
        lemma_scan_some_independent(s, i + 1, acc1, acc2);
    }
}

/// Decides whether the general tokenizer accepts the cost string, that is,
/// whether no `/` it processes stands at the very start or end of the
/// string. Check this before calling `parse_costs_better`.
pub fn costs_scan_ok(mana_cost: &str) -> (r: bool)
    ensures
        r == (scan_payments(mana_cost@, 0, Seq::empty()) is Some),
{
    let n = mana_cost.unicode_len();
    let mut i: usize = 0;
    while i < n
        invariant
            i <= n,
            n == mana_cost@.len(),
            (scan_payments(mana_cost@, 0, Seq::empty()) is Some) == (scan_payments(
                mana_cost@,
                i as nat,
                Seq::empty(),
            ) is Some),
        decreases n - i,
    {
        let c = mana_cost.get_char(i);
        let u = c as u32;
        if c == '/' {
            if i == 0 || n - i <= 1 {
                return false;
            }
            proof {
                lemma_scan_some_independent(
                    mana_cost@,
                    (i + 2) as nat,
                    Seq::empty().push((hybrid_of(mana_cost@[i - 1], mana_cost@[i + 1]), 1u8)),
                    Seq::empty(),
                );
            }
            i += 2;
        } else {
            proof {
                if 48 <= u && u <= 57 {
                    lemma_scan_some_independent(
                        mana_cost@,
                        (i + 1) as nat,
                        Seq::empty().push((ColorV::C, digit_val(c))),
                        Seq::empty(),
                    );
                } else if (65 <= u && u <= 90) || (97 <= u && u <= 122) {
                    lemma_scan_some_independent(
                        mana_cost@,
                        (i + 1) as nat,
                        Seq::empty().push((char_color(c)@, 1u8)),
                        Seq::empty(),
                    );
                }
            }
            i += 1;
        }
    }
    true
}

/// The general tokenizer used for the full card catalog: folds the scanned
/// payments of the cost string into a canonical cost. Unknown symbols
/// degrade to the `NoColor` sentinel; only a `/` at the very start or end of
/// the string is malformed, which the caller must rule out.
pub fn parse_costs_better(mana_cost: &str) -> (r: Cost)
    requires
        mana_cost@.len() <= 0x0100_0000_0000_0000,
        scan_payments(mana_cost@, 0, Seq::empty()) is Some,
    ensures
        scan_payments(mana_cost@, 0, Seq::empty()) matches Some(ps) ==> r@ == accum_map(ps),
{
    let n = mana_cost.unicode_len();
    let mut payments: Vec<Payment> = Vec::new();
    proof {
        assert(payments_view(payments@) =~= Seq::<(ColorV, u8)>::empty());
    }
    let mut i: usize = 0;
    while i < n
        invariant
            i <= n,
            n == mana_cost@.len(),
            n <= 0x0100_0000_0000_0000,
            payments@.len() <= i,
            scan_payments(mana_cost@, 0, Seq::empty()) == scan_payments(
                mana_cost@,
                i as nat,
                payments_view(payments@),
            ),
            scan_payments(mana_cost@, 0, Seq::empty()) is Some,
        decreases n - i,
    {
        let ghost acc = payments_view(payments@);
        let c = mana_cost.get_char(i);
        let u = c as u32;
        if c == '/' {
            proof {
                if i == 0 || i + 1 >= n {
                    assert(scan_payments(mana_cost@, i as nat, acc) is None);
                    assert(false);
                }
            }
            let ghost before_pop = payments@;
            if payments.len() > 0 {
                let _ = payments.pop();
                proof {
                    assert(payments@ =~= before_pop.drop_last());
                    lemma_payments_view_drop_last(before_pop);
                }
            }
            proof {
                assert(payments_view(payments@) == (if acc.len() > 0 {
                    acc.drop_last()
                } else {
                    acc
                }));
            }
            let prev = mana_cost.get_char(i - 1);
            let next = mana_cost.get_char(i + 1);
            let (prev_color, prev_quantity) = get_color_and_quantity(mana_cost, prev);
            let (next_color, next_quantity) = get_color_and_quantity(mana_cost, next);
            let mut hybrid_colors: Vec<Color> = Vec::new();
            hybrid_colors.push(prev_color);
            hybrid_colors.push(next_color);
            let mut hybrid_costs: Vec<u8> = Vec::new();
            hybrid_costs.push(prev_quantity);
            hybrid_costs.push(next_quantity);
            let ghost gcolors = hybrid_colors@;
            let ghost gcosts = hybrid_costs@;
            let hybrid = Color::MultiColor {
                colors: hybrid_colors,
                multicolor_cost: hybrid_costs,
            };
            let ghost base_seq = payments@;
            let ghost base = payments_view(payments@);
            proof {
                assert(gcolors =~= seq![prev_color, next_color]);
                assert(gcosts =~= seq![prev_quantity, next_quantity]);
                lemma_colors_view_len(gcolors);
                lemma_colors_view_index(gcolors, 0);
                lemma_colors_view_index(gcolors, 1);
                assert(colors_view(gcolors)[0] == char_color(prev)@);
                assert(colors_view(gcolors)[1] == char_color(next)@);
                assert(colors_view(gcolors) =~= seq![char_color(prev)@, char_color(next)@]);
                assert(hybrid@ == (ColorV::Multi { colors: colors_view(gcolors), costs: gcosts }));
                assert(hybrid@ == hybrid_of(prev, next));
            }
            payments.push(Payment { color: hybrid, quantity: 1 });
            proof {
                assert(payments@ == base_seq.push(payments@[payments@.len() - 1]));
                lemma_payments_view_push(base_seq, payments@[payments@.len() - 1]);
                assert(payments@[payments@.len() - 1]@ == (hybrid_of(prev, next), 1u8));
                assert(payments_view(payments@) == base.push(
                    (hybrid_of(mana_cost@[i - 1], mana_cost@[i + 1]), 1u8),
                ));
            }
            i += 2;
        } else if 48 <= u && u <= 57 {
            let (color, quantity) = get_color_and_quantity(mana_cost, c);
            let ghost base_seq = payments@;
            let ghost base = payments_view(payments@);
            payments.push(Payment { color, quantity });
            proof {
                lemma_payments_view_push(base_seq, payments@[payments@.len() - 1]);
                assert(payments@[payments@.len() - 1]@ == (ColorV::C, digit_val(c)));
                assert(payments_view(payments@) == base.push((ColorV::C, digit_val(c))));
            }
            i += 1;
        } else if (65 <= u && u <= 90) || (97 <= u && u <= 122) {
            let (color, _quantity) = get_color_and_quantity(mana_cost, c);
            let ghost base_seq = payments@;
            let ghost base = payments_view(payments@);
            payments.push(Payment { color, quantity: 1 });
            proof {
                lemma_payments_view_push(base_seq, payments@[payments@.len() - 1]);
                assert(payments@[payments@.len() - 1]@ == (char_color(c)@, 1u8));
                assert(payments_view(payments@) == base.push((char_color(c)@, 1u8)));
            }
            i += 1;
        } else {
            proof {
                assert(!is_digit_char(c) && !is_alpha_char(c));
            }
            i += 1;
        }
    }
    proof {
        assert(scan_payments(mana_cost@, i as nat, payments_view(payments@)) == Some(
            payments_view(payments@),
        ));
    }
    Cost::new(payments)
}


/// Whether the character can stand inside a braced symbol: an ASCII digit,
/// an ASCII letter, or an underscore.
pub open spec fn word_char(c: char) -> bool {
    is_digit_char(c) || is_alpha_char(c) || c == '_'
}

/// The bracket extraction the strict parser uses: every `{symbol}` whose
/// symbol is a nonempty run of word characters becomes one token, scanned
/// left to right without overlap; everything else is passed over. `cur` is
/// the partial symbol being gathered, `toks` the tokens found so far.
pub open spec fn scan_brace_tokens(
    s: Seq<char>,
    i: nat,
    cur: Option<Seq<char>>,
    toks: Seq<Seq<char>>,
) -> Seq<Seq<char>>
    decreases s.len() - i,
{
    if i >= s.len() {
        toks
    } else {
        let c = s[i as int];
        match cur {
            Option::None => if c == '{' {
                scan_brace_tokens(s, i + 1, Some(Seq::empty()), toks)
            } else {
                scan_brace_tokens(s, i + 1, Option::None, toks)
            },
            Some(acc) => if c == '}' && acc.len() > 0 {
                scan_brace_tokens(s, i + 1, Option::None, toks.push(acc))
            } else if c == '{' {
                scan_brace_tokens(s, i + 1, Some(Seq::empty()), toks)
            } else if word_char(c) {
                scan_brace_tokens(s, i + 1, Some(acc.push(c)), toks)
            } else {
                scan_brace_tokens(s, i + 1, Option::None, toks)
            },
        }
    }
}

/// The braced tokens of a cost string.
pub open spec fn simple_tokens_of(s: Seq<char>) -> Seq<Seq<char>> {
    scan_brace_tokens(s, 0, Option::None, Seq::empty())
}

/// The numeric value of a digit string, most significant digit first.
pub open spec fn digits_val(t: Seq<char>) -> int
    decreases t.len(),
{
    if t.len() == 0 {
        0
    } else {
        digits_val(t.drop_last()) * 10 + (t.last() as u32 - 48)
    }
}

/// Whether the token parses as an unsigned 8-bit integer: nonempty, all
/// digits, value at most 255.
pub open spec fn is_u8_token(t: Seq<char>) -> bool {
    t.len() > 0 && (forall|k: int| 0 <= k < t.len() ==> is_digit_char(t[k])) && digits_val(t)
        <= 255
}

/// The payment one strict-path token denotes: a token that parses as an
/// unsigned integer is that many colorless payments, any other token must
/// spell a color and is one payment of it; a token that does neither is a
/// strict parse failure.
pub open spec fn token_payment(t: Seq<char>) -> Option<(ColorV, u8)> {
    if is_u8_token(t) {
        Some((ColorV::C, digits_val(t) as u8))
    } else {
        match color_of_symbol(t) {
            Some(c) => Some((c@, 1u8)),
            Option::None => Option::None,
        }
    }
}

/// The payments of a strict-path token list, or nothing as soon as any
/// token fails.
pub open spec fn simple_payments(toks: Seq<Seq<char>>) -> Option<Seq<(ColorV, u8)>>
    decreases toks.len(),
{
    if toks.len() == 0 {
        Some(Seq::empty())
    } else {
        match (simple_payments(toks.drop_last()), token_payment(toks.last())) {
            (Some(ps), Some(p)) => Some(ps.push(p)),
            _ => Option::None,
        }
    }
}

proof fn lemma_digits_val_nonneg(t: Seq<char>)
    requires
        forall|k: int| 0 <= k < t.len() ==> is_digit_char(t[k]),
    ensures
        digits_val(t) >= 0,
    decreases t.len(),
{
    if t.len() > 0 {
        assert forall|k: int| 0 <= k < t.drop_last().len() implies is_digit_char(
            t.drop_last()[k],
        ) by {
            assert(t.drop_last()[k] == t[k]);
        }
        lemma_digits_val_nonneg(t.drop_last());
    }
}

proof fn lemma_scan_tokens_prefix(s: Seq<char>, i: nat, cur: Option<Seq<char>>, toks: Seq<Seq<char>>)
    ensures
        scan_brace_tokens(s, i, cur, toks).len() >= toks.len(),
        forall|j: int| 0 <= j < toks.len() ==> scan_brace_tokens(s, i, cur, toks)[j] == toks[j],
    decreases s.len() - i,
{
    let result = scan_brace_tokens(s, i, cur, toks);
    if i < s.len() {
        let c = s[i as int];
        match cur {
            Option::None => if c == '{' {
                lemma_scan_tokens_prefix(s, i + 1, Some(Seq::empty()), toks);
            } else {
                lemma_scan_tokens_prefix(s, i + 1, Option::None, toks);
            },
            Some(acc) => if c == '}' && acc.len() > 0 {
                lemma_scan_tokens_prefix(s, i + 1, Option::None, toks.push(acc));
                assert(result == scan_brace_tokens(s, i + 1, Option::None, toks.push(acc)));
                assert forall|j: int| 0 <= j < toks.len() implies result[j] == toks[j] by {
                    assert(result[j] == toks.push(acc)[j]);
                }
            } else if c == '{' {
                lemma_scan_tokens_prefix(s, i + 1, Some(Seq::empty()), toks);
            } else if word_char(c) {
                lemma_scan_tokens_prefix(s, i + 1, Some(acc.push(c)), toks);
            } else {
                lemma_scan_tokens_prefix(s, i + 1, Option::None, toks);
            },
        }
    }
}

proof fn lemma_simple_payments_elem(toks: Seq<Seq<char>>, j: int)
    requires
        simple_payments(toks) is Some,
        0 <= j < toks.len(),
    ensures
        token_payment(toks[j]) is Some,
    decreases toks.len(),
{
    if j < toks.len() - 1 {
        assert(toks.drop_last()[j] == toks[j]);
        lemma_simple_payments_elem(toks.drop_last(), j);
    }
}

/// Classifies one strict-path token into its payment.
fn token_to_payment(tok: &str) -> (p: Payment)
    requires
        token_payment(tok@) is Some,
    ensures
        token_payment(tok@) == Some(p@),
{
    let n = tok.unicode_len();
    let mut all_digits = n > 0;
    let mut too_big = false;
    let mut val: u32 = 0;
    let mut j: usize = 0;
    while j < n && all_digits
        invariant
            j <= n,
            n == tok@.len(),
            all_digits ==> (n > 0 && forall|k: int| 0 <= k < j ==> is_digit_char(tok@[k])),
            all_digits && !too_big ==> val == digits_val(tok@.take(j as int)) && val <= 255,
            all_digits && too_big ==> digits_val(tok@.take(j as int)) > 255,
            !all_digits ==> !is_u8_token(tok@),
        decreases n - j,
    {
        let c = tok.get_char(j);
        let u = c as u32;
        if 48 <= u && u <= 57 {
            proof {
                assert(tok@.take(j + 1).drop_last() =~= tok@.take(j as int));
                assert(tok@.take(j + 1).last() == tok@[j as int]);
                if too_big {
                    assert forall|k: int| 0 <= k < tok@.take(j as int).len() implies is_digit_char(
                        tok@.take(j as int)[k],
                    ) by {
                        assert(tok@.take(j as int)[k] == tok@[k]);
                    }
                    lemma_digits_val_nonneg(tok@.take(j as int));
                }
            }
            if !too_big {
                val = val * 10 + (u - 48);
                if val > 255 {
                    too_big = true;
                }
            }
        } else {
            all_digits = false;
            proof {
                assert(!is_digit_char(tok@[j as int]));
            }
        }
        j += 1;
    }
    if all_digits && !too_big {
        proof {
            assert(tok@.take(n as int) =~= tok@);
        }
        return Payment { color: Color::C, quantity: val as u8 };
    }
    proof {
        if all_digits {
            assert(tok@.take(n as int) =~= tok@);
            assert(!is_u8_token(tok@));
        }
    }
    match Color::from_str(tok) {
        Ok(color) => Payment { color, quantity: 1 },
        Err(_) => unreached(),
    }
}

/// The strict bracket parser: every `{symbol}` is one payment, a numeric
/// symbol that many colorless, any other a color spelling; a symbol that is
/// neither is a strict failure, which the caller must rule out. Hybrid
/// symbols are not bracketed word runs and are passed over.
pub fn parse_costs(mana_cost: &str) -> (r: Cost)
    requires
        mana_cost@.len() <= 0x0100_0000_0000_0000,
        simple_payments(simple_tokens_of(mana_cost@)) is Some,
    ensures
        simple_payments(simple_tokens_of(mana_cost@)) matches Some(ps) ==> r@ == accum_map(ps),
{
    let n = mana_cost.unicode_len();
    let mut payments: Vec<Payment> = Vec::new();
    let ghost mut gtoks: Seq<Seq<char>> = Seq::empty();
    proof {
        assert(payments_view(payments@) =~= Seq::<(ColorV, u8)>::empty());
    }
    let mut i: usize = 0;
    let mut in_token = false;
    let mut tok_start: usize = 0;
    while i < n
        invariant
            i <= n,
            n == mana_cost@.len(),
            n <= 0x0100_0000_0000_0000,
            payments@.len() <= i,
            in_token ==> tok_start <= i,
            simple_tokens_of(mana_cost@) == scan_brace_tokens(
                mana_cost@,
                i as nat,
                if in_token {
                    Some(mana_cost@.subrange(tok_start as int, i as int))
                } else {
                    Option::None
                },
                gtoks,
            ),
            simple_payments(gtoks) == Some(payments_view(payments@)),
            simple_payments(simple_tokens_of(mana_cost@)) is Some,
        decreases n - i,
    {
        let ghost acc = mana_cost@.subrange(tok_start as int, i as int);
        let c = mana_cost.get_char(i);
        if in_token {
            if c == '}' && i > tok_start {
                let tok = mana_cost.substring_char(tok_start, i);
                proof {
                    assert(tok@ == acc);
                    assert(simple_tokens_of(mana_cost@) == scan_brace_tokens(
                        mana_cost@,
                        (i + 1) as nat,
                        Option::None,
                        gtoks.push(acc),
                    ));
                    lemma_scan_tokens_prefix(
                        mana_cost@,
                        (i + 1) as nat,
                        Option::None,
                        gtoks.push(acc),
                    );
                    assert(scan_brace_tokens(
                        mana_cost@,
                        (i + 1) as nat,
                        Option::None,
                        gtoks.push(acc),
                    )[gtoks.len() as int] == gtoks.push(acc)[gtoks.len() as int]);
                    assert(simple_tokens_of(mana_cost@)[gtoks.len() as int] == acc);
                    lemma_simple_payments_elem(simple_tokens_of(mana_cost@), gtoks.len() as int);
                    assert(token_payment(acc) is Some);
                }
                let ghost base_seq = payments@;
                let ghost base = payments_view(payments@);
                let p = token_to_payment(tok);
                payments.push(p);
                proof {
                    lemma_payments_view_push(base_seq, payments@[payments@.len() - 1]);
                    let gtoks0 = gtoks;
                    gtoks = gtoks.push(acc);
                    assert(gtoks.drop_last() =~= gtoks0);
                    assert(gtoks.last() == acc);
                    assert(payments@[payments@.len() - 1]@ == token_payment(acc)->0);
                    assert(simple_payments(gtoks) == Some(payments_view(payments@)));
                }
                in_token = false;
            } else if c == '{' {
                tok_start = i + 1;
                proof {
                    assert(Seq::<char>::empty() =~= mana_cost@.subrange(
                        tok_start as int,
                        i + 1 as int,
                    ));
                }
            } else {
                let u = c as u32;
                let word = (48 <= u && u <= 57) || (65 <= u && u <= 90) || (97 <= u && u <= 122)
                    || c == '_';
                if word {
                    proof {
                        assert(acc.push(c) =~= mana_cost@.subrange(tok_start as int, i + 1 as int));
                    }
                } else {
                    in_token = false;
                }
            }
        } else {
            if c == '{' {
                in_token = true;
                tok_start = i + 1;
                proof {
                    assert(Seq::<char>::empty() =~= mana_cost@.subrange(
                        tok_start as int,
                        i + 1 as int,
                    ));
                }
            }
        }
        i += 1;
    }
    proof {
        assert(simple_tokens_of(mana_cost@) == gtoks);
    }
    Cost::new(payments)
}


} // verus!
