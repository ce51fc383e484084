//! A rules-engine substrate for a trading-card game: a mana-cost parser with
//! hybrid and variable costs, a card catalog with exact-name lookup, a
//! keyword/behavior inference pass over rules text, and a deck/zone manager
//! that tracks card identity and location through a game's zones.
pub mod colors;
pub mod cost;
pub mod text;
pub mod card;
pub mod card_db;
pub mod deck;
pub mod library;
pub mod state_manager;
pub mod reducers;
pub mod selectors;
