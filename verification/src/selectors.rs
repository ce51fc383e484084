//! Selectors: each one reads a single view of the game state. Store
//! plumbing wraps these; the selection logic itself lives here.
use vstd::prelude::*;
use crate::reducers::CurrentEvent;
use crate::state_manager::{GameState, MetaGamePhase, Player, PlayerTurn, TurnPhase};

verus! {

/// Selects how many players are seated.
pub struct SelectPlayerCount;

impl SelectPlayerCount {
    pub fn select(&self, state: &GameState) -> (r: usize)
        ensures
            r == state.player_turn.players@.len(),
    {
        state.player_turn.players.len()
    }
}

/// Selects the seated players' names, in seating order.
pub struct SelectPlayerNames;

impl SelectPlayerNames {
    pub fn select(&self, state: &GameState) -> (r: Vec<String>)
        ensures
            r@.len() == state.player_turn.players@.len(),
            forall|i: int|
                0 <= i < r@.len() ==> (#[trigger] r@[i])@ == state.player_turn.players@[i].name@,
    {
        let mut out: Vec<String> = Vec::new();
        let mut i: usize = 0;
        while i < state.player_turn.players.len()
            invariant
                i <= state.player_turn.players@.len(),
                out@.len() == i,
                forall|k: int|
                    0 <= k < i ==> (#[trigger] out@[k])@ == state.player_turn.players@[k].name@,
            decreases state.player_turn.players@.len() - i,
        {
            out.push(state.player_turn.players[i].name.clone());
            i += 1;
        }
        out
    }
}

/// Selects the first seated player, or the placeholder when nobody is
/// seated yet.
pub struct SelectFirstPlayer;

impl SelectFirstPlayer {
    pub fn select(&self, state: &GameState) -> (r: Player)
        ensures
            state.player_turn.players@.len() > 0 ==> r == state.player_turn.players@[0],
            state.player_turn.players@.len() == 0 ==> r.name@ == "No Players Added Yet"@,
    {
        if state.player_turn.players.len() > 0 {
            return Player { name: state.player_turn.players[0].name.clone() };
        }
        Player { name: "No Players Added Yet".to_owned() }
    }
}

/// Selects the event the state currently carries.
pub struct SelectCurrentEvent;

impl SelectCurrentEvent {
    pub fn select<'s>(&self, state: &'s GameState) -> (r: &'s CurrentEvent)
        ensures
            *r == state.current_event,
    {
        &state.current_event
    }
}

/// Selects the phase of the overall game.
pub struct SelectMetaGamePhase;

impl SelectMetaGamePhase {
    pub fn select(&self, state: &GameState) -> (r: MetaGamePhase)
        ensures
            r == state.meta_game_phase,
    {
        state.meta_game_phase
    }
}

/// Selects the seating and whose turn it is.
pub struct SelectPlayerTurn;

impl SelectPlayerTurn {
    pub fn select<'s>(&self, state: &'s GameState) -> (r: &'s PlayerTurn)
        ensures
            *r == state.player_turn,
    {
        &state.player_turn
    }
}

/// Selects the phase of the running turn.
pub struct SelectTurnPhase;

impl SelectTurnPhase {
    pub fn select(&self, state: &GameState) -> (r: TurnPhase)
        ensures
            r == state.turn_phase,
    {
        state.turn_phase
    }
}

} // verus!
