//! Color symbol parsing: every valid spelling of a color parses to the
//! same value, case-insensitively, with or without braces.
use mtg::colors::{Color, ColorParseError};

#[test]
fn color_accepts_lowercase() {
    let green = Color::G;
    let g = Color::from_str("green");
    assert_eq!(green, g.unwrap());
}

#[test]
fn color_accepts_single_letter() {
    let green = Color::G;
    let g = Color::from_str("g");
    assert_eq!(green, g.unwrap());
}

#[test]
fn color_accepts_single_letter_uppercase() {
    let green = Color::G;
    let g = Color::from_str("G");
    assert_eq!(green, g.unwrap());
}

#[test]
fn color_accepts_brackets() {
    let green = Color::G;
    let g = Color::from_str("{green}");
    assert_eq!(green, g.unwrap());
}

#[test]
fn color_accepts_case_insensitive_brackets() {
    let green = Color::G;
    let g = Color::from_str("{GReen}");
    assert_eq!(green, g.unwrap());
}

#[test]
fn color_accepts_every_word_and_letter() {
    assert_eq!(Color::from_str("black").unwrap(), Color::B);
    assert_eq!(Color::from_str("BLUE").unwrap(), Color::U);
    assert_eq!(Color::from_str("{c}").unwrap(), Color::C);
    assert_eq!(Color::from_str("{Colorless}").unwrap(), Color::C);
    assert_eq!(Color::from_str("r").unwrap(), Color::R);
    assert_eq!(Color::from_str("White").unwrap(), Color::W);
    assert_eq!(Color::from_str("variable").unwrap(), Color::X);
    assert_eq!(Color::from_str("{X}").unwrap(), Color::X);
    assert_eq!(Color::from_str("snow").unwrap(), Color::S);
    assert_eq!(Color::from_str("phyrexian").unwrap(), Color::P);
    assert_eq!(Color::from_str("{P}").unwrap(), Color::P);
}

#[test]
fn color_rejects_unknown_symbols() {
    assert_eq!(Color::from_str("z").unwrap_err(), ColorParseError::UnknownColorSymbol);
    assert_eq!(Color::from_str("").unwrap_err(), ColorParseError::UnknownColorSymbol);
    assert_eq!(Color::from_str("{}").unwrap_err(), ColorParseError::UnknownColorSymbol);
    assert_eq!(Color::from_str("greenish").unwrap_err(), ColorParseError::UnknownColorSymbol);
}
