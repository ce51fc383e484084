//! The palette of mana colors a card can have, including compound "hybrid"
//! symbols, and the parser from a symbol spelling to a `Color`.
use vstd::prelude::*;

verus! {

broadcast use vstd::std_specs::vec::group_vec_axioms;

/// The closed set of mana-symbol categories.
///
/// `B` black, `U` blue, `C` colorless, `G` green, `R` red, `W` white,
/// `X` variable, `S` snow, `P` Phyrexian. `MultiColor` is a compound hybrid
/// symbol payable by any one of its alternatives: `colors` is the ordered
/// list of alternative colors and `multicolor_cost` the matching quantities,
/// so `MultiColor { colors: [C, G], multicolor_cost: [2, 1] }` is payable by
/// two colorless or one green. `NoColor` marks a costless card.
#[derive(Debug, PartialEq, Eq)]
pub enum Color {
    B,
    U,
    C,
    G,
    R,
    W,
    X,
    S,
    P,
    MultiColor { colors: Vec<Color>, multicolor_cost: Vec<u8> },
    NoColor,
}

/// The mathematical shape of a `Color`: hybrid symbols carry their
/// alternatives as sequences. Two colors are the same cost key exactly when
/// their `ColorV` views are equal, so hybrid identity is structural: the
/// ordered color lists and quantity lists must match exactly.
#[verifier::ext_equal]
pub enum ColorV {
    B,
    U,
    C,
    G,
    R,
    W,
    X,
    S,
    P,
    Multi { colors: Seq<ColorV>, costs: Seq<u8> },
    NoColor,
}

/// The view of one color.
pub open spec fn color_view(c: Color) -> ColorV
    decreases c,
{
    match c {
        Color::B => ColorV::B,
        Color::U => ColorV::U,
        Color::C => ColorV::C,
        Color::G => ColorV::G,
        Color::R => ColorV::R,
        Color::W => ColorV::W,
        Color::X => ColorV::X,
        Color::S => ColorV::S,
        Color::P => ColorV::P,
        Color::MultiColor { colors, multicolor_cost } => ColorV::Multi {
            colors: colors_view(colors@),
            costs: multicolor_cost@,
        },
        Color::NoColor => ColorV::NoColor,
    }
}

/// The views of a sequence of colors, element by element.
pub open spec fn colors_view(v: Seq<Color>) -> Seq<ColorV>
    decreases v,
{
    if v.len() == 0 {
        Seq::empty()
    } else {
        seq![color_view(v[0])] + colors_view(v.drop_first())
    }
}

impl View for Color {
    type V = ColorV;

    open spec fn view(&self) -> ColorV {
        color_view(*self)
    }
}

pub proof fn lemma_colors_view_len(v: Seq<Color>)
    ensures
        colors_view(v).len() == v.len(),
    decreases v,
{
    if v.len() > 0 {
        lemma_colors_view_len(v.drop_first());
    }
}

pub proof fn lemma_colors_view_index(v: Seq<Color>, i: int)
    requires
        0 <= i < v.len(),
    ensures
        colors_view(v).len() == v.len(),
        colors_view(v)[i] == color_view(v[i]),
    decreases v,
{
    lemma_colors_view_len(v);
    if i > 0 {
        lemma_colors_view_index(v.drop_first(), i - 1);
    }
}

impl Color {
    /// Decides whether two colors are the same cost key, that is, whether
    /// their views are equal.
    pub fn same(&self, other: &Color) -> (r: bool)
        ensures
            r == (self@ == other@),
        decreases *self,
    {
        match self {
            Color::B => match other { Color::B => true, _ => false },
            Color::U => match other { Color::U => true, _ => false },
            Color::C => match other { Color::C => true, _ => false },
            Color::G => match other { Color::G => true, _ => false },
            Color::R => match other { Color::R => true, _ => false },
            Color::W => match other { Color::W => true, _ => false },
            Color::X => match other { Color::X => true, _ => false },
            Color::S => match other { Color::S => true, _ => false },
            Color::P => match other { Color::P => true, _ => false },
            Color::NoColor => match other { Color::NoColor => true, _ => false },
            Color::MultiColor { colors: ca, multicolor_cost: qa } => match other {
                Color::MultiColor { colors: cb, multicolor_cost: qb } => {
                    proof {
                        assert(*self == (Color::MultiColor {
                            colors: *ca,
                            multicolor_cost: *qa,
                        }));
                        assert(self@ == (ColorV::Multi {
                            colors: colors_view(ca@),
                            costs: qa@,
                        }));
                        lemma_colors_view_len(ca@);
                        lemma_colors_view_len(cb@);
                    }
                    if qa.len() != qb.len() || ca.len() != cb.len() {
                        return false;
                    }
                    let mut i: usize = 0;
                    while i < qa.len()
                        invariant
                            *self == (Color::MultiColor { colors: *ca, multicolor_cost: *qa }),
                            *other == (Color::MultiColor { colors: *cb, multicolor_cost: *qb }),
                            i <= qa.len(),
                            qa.len() == qb.len(),
                            forall|k: int| 0 <= k < i ==> qa@[k] == qb@[k],
                        decreases qa.len() - i,
                    {
                        if qa[i] != qb[i] {
                            proof {
                                assert(qa@[i as int] != qb@[i as int]);
                                assert(qa@ != qb@);
                                assert(other@ == (ColorV::Multi {
                                    colors: colors_view(cb@),
                                    costs: qb@,
                                }));
                            }
                            return false;
                        }
                        i += 1;
                    }
                    let mut j: usize = 0;
                    while j < ca.len()
                        invariant
                            *self == (Color::MultiColor { colors: *ca, multicolor_cost: *qa }),
                            *other == (Color::MultiColor { colors: *cb, multicolor_cost: *qb }),
                            decreases_to!(*self => *ca),
                            j <= ca.len(),
                            ca.len() == cb.len(),
                            qa.len() == qb.len(),
                            forall|k: int| 0 <= k < j ==> color_view(ca@[k]) == color_view(cb@[k]),
                            forall|k: int| 0 <= k < qa.len() ==> qa@[k] == qb@[k],
                        decreases ca.len() - j,
                    {
                        proof {
                            assert(decreases_to!(*ca => ca[j as int]));
                            assert(decreases_to!(*self => ca[j as int]));
                        }
                        if !ca[j].same(&cb[j]) {
                            proof {
                                lemma_colors_view_index(ca@, j as int);
                                lemma_colors_view_index(cb@, j as int);
                                assert(colors_view(ca@)[j as int] != colors_view(cb@)[j as int]);
                                assert(colors_view(ca@) != colors_view(cb@));
                                assert(other@ == (ColorV::Multi {
                                    colors: colors_view(cb@),
                                    costs: qb@,
                                }));
                            }
                            return false;
                        }
                        j += 1;
                    }
                    proof {
                        assert(qa@ =~= qb@);
                        lemma_colors_view_pointwise(ca@, cb@);
                    }
                    true
                },
                _ => false,
            },
        }
    }
}

pub proof fn lemma_colors_view_pointwise(v1: Seq<Color>, v2: Seq<Color>)
    requires
        v1.len() == v2.len(),
        forall|i: int| 0 <= i < v1.len() ==> color_view(#[trigger] v1[i]) == color_view(v2[i]),
    ensures
        colors_view(v1) == colors_view(v2),
    decreases v1,
{
    if v1.len() > 0 {
        lemma_colors_view_pointwise(v1.drop_first(), v2.drop_first());
        assert(colors_view(v1) =~= colors_view(v2));
    } else {
        assert(colors_view(v1) =~= colors_view(v2));
    }
}

/// ASCII lowercasing of one character; every other character is unchanged.
pub open spec fn to_lower(c: char) -> char {
    match c {
        'A' => 'a',
        'B' => 'b',
        'C' => 'c',
        'D' => 'd',
        'E' => 'e',
        'F' => 'f',
        'G' => 'g',
        'H' => 'h',
        'I' => 'i',
        'J' => 'j',
        'K' => 'k',
        'L' => 'l',
        'M' => 'm',
        'N' => 'n',
        'O' => 'o',
        'P' => 'p',
        'Q' => 'q',
        'R' => 'r',
        'S' => 's',
        'T' => 't',
        'U' => 'u',
        'V' => 'v',
        'W' => 'w',
        'X' => 'x',
        'Y' => 'y',
        'Z' => 'z',
        _ => c,
    }
}

/// ASCII lowercasing of a character sequence.
pub open spec fn lower_seq(s: Seq<char>) -> Seq<char> {
    s.map_values(|c: char| to_lower(c))
}

/// The spelling with one leading `{` and one trailing `}` removed, when both
/// are present; otherwise the spelling unchanged.
pub open spec fn unbraced(s: Seq<char>) -> Seq<char> {
    if s.len() >= 2 && s[0] == '{' && s[s.len() - 1] == '}' {
        s.subrange(1, s.len() - 1)
    } else {
        s
    }
}

/// The color a symbol spelling denotes: the full color word or the
/// single-letter abbreviation, either bare or wrapped in curly braces, all
/// case-insensitively. An unrecognized spelling denotes no color.
pub open spec fn color_of_symbol(s: Seq<char>) -> Option<Color> {
    let t = lower_seq(unbraced(s));
    if t == "black"@ || t == "b"@ {
        Some(Color::B)
    } else if t == "blue"@ || t == "u"@ {
        Some(Color::U)
    } else if t == "colorless"@ || t == "c"@ {
        Some(Color::C)
    } else if t == "green"@ || t == "g"@ {
        Some(Color::G)
    } else if t == "red"@ || t == "r"@ {
        Some(Color::R)
    } else if t == "white"@ || t == "w"@ {
        Some(Color::W)
    } else if t == "variable"@ || t == "x"@ {
        Some(Color::X)
    } else if t == "snow"@ || t == "s"@ {
        Some(Color::S)
    } else if t == "phyrexian"@ || t == "p"@ {
        Some(Color::P)
    } else {
        Option::None
    }
}

/// The failure condition of `Color::from_str`.
#[derive(Debug, PartialEq, Eq, Structural)]
pub enum ColorParseError {
    UnknownColorSymbol,
}

pub(crate) fn lower_char(c: char) -> (r: char)
    ensures
        r == to_lower(c),
{
    match c {
        'A' => 'a',
        'B' => 'b',
        'C' => 'c',
        'D' => 'd',
        'E' => 'e',
        'F' => 'f',
        'G' => 'g',
        'H' => 'h',
        'I' => 'i',
        'J' => 'j',
        'K' => 'k',
        'L' => 'l',
        'M' => 'm',
        'N' => 'n',
        'O' => 'o',
        'P' => 'p',
        'Q' => 'q',
        'R' => 'r',
        'S' => 's',
        'T' => 't',
        'U' => 'u',
        'V' => 'v',
        'W' => 'w',
        'X' => 'x',
        'Y' => 'y',
        'Z' => 'z',
        _ => c,
    }
}

/// Whether two spellings agree after ASCII lowercasing.
fn eq_ignore_case(s: &str, t: &str) -> (r: bool)
    ensures
        r == (lower_seq(s@) == lower_seq(t@)),
{
    let n = s.unicode_len();
    let m = t.unicode_len();
    if n != m {
        proof {
            assert(lower_seq(s@).len() != lower_seq(t@).len());
        }
        return false;
    }
    let mut i: usize = 0;
    while i < n
        invariant
            i <= n,
            n == s@.len(),
            n == t@.len(),
            forall|k: int| 0 <= k < i ==> to_lower(s@[k]) == to_lower(t@[k]),
        decreases n - i,
    {
        let cs = lower_char(s.get_char(i));
        let ct = lower_char(t.get_char(i));
        if cs != ct {
            proof {
                assert(lower_seq(s@)[i as int] != lower_seq(t@)[i as int]);
            }
            return false;
        }
        i += 1;
    }
    proof {
        assert(lower_seq(s@) =~= lower_seq(t@));
    }
    true
}

proof fn lemma_lower_spelling_literals()
    ensures
        lower_seq("black"@) == "black"@,
        lower_seq("b"@) == "b"@,
        lower_seq("blue"@) == "blue"@,
        lower_seq("u"@) == "u"@,
        lower_seq("colorless"@) == "colorless"@,
        lower_seq("c"@) == "c"@,
        lower_seq("green"@) == "green"@,
        lower_seq("g"@) == "g"@,
        lower_seq("red"@) == "red"@,
        lower_seq("r"@) == "r"@,
        lower_seq("white"@) == "white"@,
        lower_seq("w"@) == "w"@,
        lower_seq("variable"@) == "variable"@,
        lower_seq("x"@) == "x"@,
        lower_seq("snow"@) == "snow"@,
        lower_seq("s"@) == "s"@,
        lower_seq("phyrexian"@) == "phyrexian"@,
        lower_seq("p"@) == "p"@,
{
    reveal_strlit("black");
    reveal_strlit("b");
    reveal_strlit("blue");
    reveal_strlit("u");
    reveal_strlit("colorless");
    reveal_strlit("c");
    reveal_strlit("green");
    reveal_strlit("g");
    reveal_strlit("red");
    reveal_strlit("r");
    reveal_strlit("white");
    reveal_strlit("w");
    reveal_strlit("variable");
    reveal_strlit("x");
    reveal_strlit("snow");
    reveal_strlit("s");
    reveal_strlit("phyrexian");
    reveal_strlit("p");
    assert(lower_seq("black"@) =~= "black"@);
    assert(lower_seq("b"@) =~= "b"@);
    assert(lower_seq("blue"@) =~= "blue"@);
    assert(lower_seq("u"@) =~= "u"@);
    assert(lower_seq("colorless"@) =~= "colorless"@);
    assert(lower_seq("c"@) =~= "c"@);
    assert(lower_seq("green"@) =~= "green"@);
    assert(lower_seq("g"@) =~= "g"@);
    assert(lower_seq("red"@) =~= "red"@);
    assert(lower_seq("r"@) =~= "r"@);
    assert(lower_seq("white"@) =~= "white"@);
    assert(lower_seq("w"@) =~= "w"@);
    assert(lower_seq("variable"@) =~= "variable"@);
    assert(lower_seq("x"@) =~= "x"@);
    assert(lower_seq("snow"@) =~= "snow"@);
    assert(lower_seq("s"@) =~= "s"@);
    assert(lower_seq("phyrexian"@) =~= "phyrexian"@);
    assert(lower_seq("p"@) =~= "p"@);
}

/// Lowercasing a spelling does not change which color it denotes.
pub proof fn lemma_color_symbol_case_insensitive(s: Seq<char>)
    ensures
        color_of_symbol(lower_seq(s)) == color_of_symbol(s),
{
    let t = lower_seq(s);
    assert(t.len() == s.len());
    if s.len() >= 2 && s[0] == '{' && s[s.len() - 1] == '}' {
        assert(t[0] == '{' && t[t.len() - 1] == '}');
        assert(unbraced(t) =~= lower_seq(unbraced(s)));
    } else {
        assert(!(t.len() >= 2 && t[0] == '{' && t[t.len() - 1] == '}'));
        assert(unbraced(t) == lower_seq(unbraced(s)));
    }
    assert(lower_seq(lower_seq(unbraced(s))) =~= lower_seq(unbraced(s)));
}

/// Wrapping a spelling that is not itself brace-delimited in one pair of
/// curly braces does not change which color it denotes.
pub proof fn lemma_color_symbol_braces(s: Seq<char>)
    requires
        !(s.len() >= 2 && s[0] == '{' && s[s.len() - 1] == '}'),
    ensures
        color_of_symbol(seq!['{'] + s + seq!['}']) == color_of_symbol(s),
{
    let b = seq!['{'] + s + seq!['}'];
    assert(b.len() == s.len() + 2);
    assert(b[0] == '{' && b[b.len() - 1] == '}');
    assert(unbraced(b) =~= s);
    assert(unbraced(s) == s);
}

impl Color {
    /// Parses a symbol spelling: the color word, the single-letter
    /// abbreviation, or either wrapped in curly braces, case-insensitively.
    /// Any other spelling fails with `UnknownColorSymbol`.
    pub fn from_str(s: &str) -> (r: Result<Color, ColorParseError>)
        ensures
            r is Ok <==> color_of_symbol(s@) is Some,
            r is Ok ==> color_of_symbol(s@) == Some(r->Ok_0),
            r is Err ==> r->Err_0 == ColorParseError::UnknownColorSymbol,
    {
        proof {
            lemma_lower_spelling_literals();
        }
        let n = s.unicode_len();
        let core: &str = if n >= 2 && s.get_char(0) == '{' && s.get_char(n - 1) == '}' {
            s.substring_char(1, n - 1)
        } else {
            s
        };
        proof {
            assert(core@ == unbraced(s@));
        }
        if eq_ignore_case(core, "black") || eq_ignore_case(core, "b") {
            Ok(Color::B)
        } else if eq_ignore_case(core, "blue") || eq_ignore_case(core, "u") {
            Ok(Color::U)
        } else if eq_ignore_case(core, "colorless") || eq_ignore_case(core, "c") {
            Ok(Color::C)
        } else if eq_ignore_case(core, "green") || eq_ignore_case(core, "g") {
            Ok(Color::G)
        } else if eq_ignore_case(core, "red") || eq_ignore_case(core, "r") {
            Ok(Color::R)
        } else if eq_ignore_case(core, "white") || eq_ignore_case(core, "w") {
            Ok(Color::W)
        } else if eq_ignore_case(core, "variable") || eq_ignore_case(core, "x") {
            Ok(Color::X)
        } else if eq_ignore_case(core, "snow") || eq_ignore_case(core, "s") {
            Ok(Color::S)
        } else if eq_ignore_case(core, "phyrexian") || eq_ignore_case(core, "p") {
            Ok(Color::P)
        } else {
            Err(ColorParseError::UnknownColorSymbol)
        }
    }
}

/// A free-standing hybrid payment: `colors` is the ordered list of
/// alternative colors and `multicolor_cost` the matching quantities.
#[derive(Debug)]
pub struct MultiColor {
    colors: Vec<Color>,
    multicolor_cost: Vec<u8>,
}

} // verus!
