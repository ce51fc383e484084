//! Events, actions, and the reducer: the pure transition function from a
//! game state and an action to the next game state, written as explicit
//! transition tables.
use vstd::prelude::*;
use crate::state_manager::{find_player, GameState, MetaGamePhase, Player, TurnPhase};

verus! {

/// What caused an event: a card someone controls, the game's own natural
/// progression, combat damage, or a player.
#[derive(Debug, Clone, PartialEq)]
pub enum EventSource {
    /// A card caused the event: (player name, card name).
    Card(String, String),
    /// A natural consequence of the game's progression.
    NaturalProgression,
    /// Combat damage: the (player name, card name) pairs involved.
    Damage(Vec<(String, String)>),
    /// A player caused the event.
    Player(Player),
}

/// The events cards can subscribe to: some cards act when a card enters
/// the graveyard, when damage is dealt, and so on. `NoEvent` is the idle
/// state; a fresh store starts at `NewGame`.
#[derive(Debug, Clone, PartialEq)]
pub enum CurrentEvent {
    CardRevealedOnLibrary(EventSource),
    CardPlacedFaceDown(EventSource),
    CardTurnedFaceUp(EventSource),
    CardDrawn(EventSource),
    CardPlacedInGraveyard(EventSource),
    CardRemovedFromGraveyard(EventSource),
    CardPlacedInExile(EventSource),
    CardRemovedFromExile(EventSource),
    CardCasted(EventSource),
    CardAbilityActivated(EventSource),
    CardPlacedOnBattlefield(EventSource),
    CardRemovedFromBattlefield(EventSource),
    CardTapped(EventSource),
    CardUntapped(EventSource),
    CardDeclaredAsAttacker(EventSource),
    CardDeclaredAsBlocker(EventSource),
    CardDealtDamage(EventSource),
    PlayerDealtDamage(EventSource),
    PlayerKilled(EventSource),
    CardRegeneratedLife(EventSource),
    PlayerGainedLife(EventSource),
    LibraryShuffled(EventSource),
    GraveyardShuffledIntoLibrary(EventSource),
    GraveyardExiled(EventSource),
    NoEvent,
    NewGame,
}

/// The actions the store dispatches against the game state.
#[derive(Debug)]
pub enum Action {
    UpdateCurrentEvent { event: CurrentEvent },
    ProgressMetaGamePhase,
    RegressMetaGamePhase,
    ProgressTurn,
    ProgressTurnPhase,
    AddPlayer(String),
}

/// The forward table of the meta-game phases; after a winner is declared
/// the game loops back to choosing players.
pub open spec fn next_meta_phase(p: MetaGamePhase) -> MetaGamePhase {
    match p {
        MetaGamePhase::ChoosePlayerCount => MetaGamePhase::ConfirmLibrary,
        MetaGamePhase::ConfirmLibrary => MetaGamePhase::ChooseFirstTurn,
        MetaGamePhase::ChooseFirstTurn => MetaGamePhase::InitialDraw,
        MetaGamePhase::InitialDraw => MetaGamePhase::MulliganChoice,
        MetaGamePhase::MulliganChoice => MetaGamePhase::ActiveGame,
        MetaGamePhase::ActiveGame => MetaGamePhase::EndGame,
        MetaGamePhase::EndGame => MetaGamePhase::DeclareWinner,
        MetaGamePhase::DeclareWinner => MetaGamePhase::ChoosePlayerCount,
        MetaGamePhase::NoPhase => MetaGamePhase::ChoosePlayerCount,
    }
}

/// The backward table of the meta-game phases; stepping back from the
/// start is the error state.
pub open spec fn prev_meta_phase(p: MetaGamePhase) -> MetaGamePhase {
    match p {
        MetaGamePhase::ChoosePlayerCount => MetaGamePhase::NoPhase,
        MetaGamePhase::ConfirmLibrary => MetaGamePhase::ChoosePlayerCount,
        MetaGamePhase::ChooseFirstTurn => MetaGamePhase::ConfirmLibrary,
        MetaGamePhase::InitialDraw => MetaGamePhase::ChooseFirstTurn,
        MetaGamePhase::MulliganChoice => MetaGamePhase::InitialDraw,
        MetaGamePhase::ActiveGame => MetaGamePhase::MulliganChoice,
        MetaGamePhase::EndGame => MetaGamePhase::ActiveGame,
        MetaGamePhase::DeclareWinner => MetaGamePhase::EndGame,
        MetaGamePhase::NoPhase => MetaGamePhase::ChoosePlayerCount,
    }
}

/// The cyclic table of turn phases, from untap back around to untap.
pub open spec fn next_turn_phase(p: TurnPhase) -> TurnPhase {
    match p {
        TurnPhase::Untap => TurnPhase::Upkeep,
        TurnPhase::Upkeep => TurnPhase::Draw,
        TurnPhase::Draw => TurnPhase::PreCombatMainPhase,
        TurnPhase::PreCombatMainPhase => TurnPhase::CombatPhase,
        TurnPhase::CombatPhase => TurnPhase::DeclareAttackers,
        TurnPhase::DeclareAttackers => TurnPhase::DeclareBlockers,
        TurnPhase::DeclareBlockers => TurnPhase::CombatResolution,
        TurnPhase::CombatResolution => TurnPhase::EndCombat,
        TurnPhase::EndCombat => TurnPhase::PostCombatMainPhase,
        TurnPhase::PostCombatMainPhase => TurnPhase::End,
        TurnPhase::End => TurnPhase::Cleanup,
        TurnPhase::Cleanup => TurnPhase::PassTurn,
        TurnPhase::PassTurn => TurnPhase::Untap,
    }
}

/// The reducer: applies one action to the game state and yields the next
/// state, leaving every other part of the state as it was. Passing the
/// turn requires the current player to be seated.
pub fn reducer(state: GameState, action: Action) -> (r: GameState)
    requires
        action is ProgressTurn ==> find_player(
            state.player_turn.players@,
            state.player_turn.current_turn.name@,
            0,
        ) is Some,
    ensures
        action matches Action::UpdateCurrentEvent { event } ==> r.current_event == event
            && r.meta_game_phase == state.meta_game_phase && r.player_turn == state.player_turn
            && r.turn_phase == state.turn_phase,
        action is ProgressMetaGamePhase ==> r.meta_game_phase == next_meta_phase(
            state.meta_game_phase,
        ) && r.current_event == state.current_event && r.player_turn == state.player_turn
            && r.turn_phase == state.turn_phase,
        action is RegressMetaGamePhase ==> r.meta_game_phase == prev_meta_phase(
            state.meta_game_phase,
        ) && r.current_event == state.current_event && r.player_turn == state.player_turn
            && r.turn_phase == state.turn_phase,
        action is ProgressTurn ==> ({
            let ps = state.player_turn.players@;
            let idx = find_player(ps, state.player_turn.current_turn.name@, 0)->0;
            &&& r.player_turn.players@ == ps
            &&& r.player_turn.current_turn == (if idx + 1 >= ps.len() {
                ps[0]
            } else {
                ps[idx + 1]
            })
            &&& r.current_event == state.current_event
            &&& r.meta_game_phase == state.meta_game_phase
            &&& r.turn_phase == state.turn_phase
        }),
        action is ProgressTurnPhase ==> r.turn_phase == next_turn_phase(state.turn_phase)
            && r.current_event == state.current_event && r.meta_game_phase
            == state.meta_game_phase && r.player_turn == state.player_turn,
        action matches Action::AddPlayer(name) ==> r.player_turn.players@
            == state.player_turn.players@.push(Player { name: name }) && r.player_turn.current_turn
            == state.player_turn.current_turn && r.current_event == state.current_event
            && r.meta_game_phase == state.meta_game_phase && r.turn_phase == state.turn_phase,
{
    match action {
        Action::UpdateCurrentEvent { event } => GameState { current_event: event, ..state },
        Action::ProgressMetaGamePhase => GameState {
            meta_game_phase: match state.meta_game_phase {
                MetaGamePhase::ChoosePlayerCount => MetaGamePhase::ConfirmLibrary,
                MetaGamePhase::ConfirmLibrary => MetaGamePhase::ChooseFirstTurn,
                MetaGamePhase::ChooseFirstTurn => MetaGamePhase::InitialDraw,
                MetaGamePhase::InitialDraw => MetaGamePhase::MulliganChoice,
                MetaGamePhase::MulliganChoice => MetaGamePhase::ActiveGame,
                MetaGamePhase::ActiveGame => MetaGamePhase::EndGame,
                MetaGamePhase::EndGame => MetaGamePhase::DeclareWinner,
                MetaGamePhase::DeclareWinner => MetaGamePhase::ChoosePlayerCount,
                MetaGamePhase::NoPhase => MetaGamePhase::ChoosePlayerCount,
            },
            ..state
        },
        Action::RegressMetaGamePhase => GameState {
            meta_game_phase: match state.meta_game_phase {
                MetaGamePhase::ChoosePlayerCount => MetaGamePhase::NoPhase,
                MetaGamePhase::ConfirmLibrary => MetaGamePhase::ChoosePlayerCount,
                MetaGamePhase::ChooseFirstTurn => MetaGamePhase::ConfirmLibrary,
                MetaGamePhase::InitialDraw => MetaGamePhase::ChooseFirstTurn,
                MetaGamePhase::MulliganChoice => MetaGamePhase::InitialDraw,
                MetaGamePhase::ActiveGame => MetaGamePhase::MulliganChoice,
                MetaGamePhase::EndGame => MetaGamePhase::ActiveGame,
                MetaGamePhase::DeclareWinner => MetaGamePhase::EndGame,
                MetaGamePhase::NoPhase => MetaGamePhase::ChoosePlayerCount,
            },
            ..state
        },
        Action::ProgressTurn => {
            let mut player_turn = state.player_turn;
            let snapshot = player_turn.change_turn();
            GameState {
                player_turn: snapshot,
                current_event: state.current_event,
                meta_game_phase: state.meta_game_phase,
                turn_phase: state.turn_phase,
            }
        },
        Action::ProgressTurnPhase => GameState {
            turn_phase: match state.turn_phase {
                TurnPhase::Untap => TurnPhase::Upkeep,
                TurnPhase::Upkeep => TurnPhase::Draw,
                TurnPhase::Draw => TurnPhase::PreCombatMainPhase,
                TurnPhase::PreCombatMainPhase => TurnPhase::CombatPhase,
                TurnPhase::CombatPhase => TurnPhase::DeclareAttackers,
                TurnPhase::DeclareAttackers => TurnPhase::DeclareBlockers,
                TurnPhase::DeclareBlockers => TurnPhase::CombatResolution,
                TurnPhase::CombatResolution => TurnPhase::EndCombat,
                TurnPhase::EndCombat => TurnPhase::PostCombatMainPhase,
                TurnPhase::PostCombatMainPhase => TurnPhase::End,
                TurnPhase::End => TurnPhase::Cleanup,
                TurnPhase::Cleanup => TurnPhase::PassTurn,
                TurnPhase::PassTurn => TurnPhase::Untap,
            },
            ..state
        },
        Action::AddPlayer(name) => {
            let mut player_turn = state.player_turn;
            let snapshot = player_turn.add_player(name);
            GameState {
                player_turn: snapshot,
                current_event: state.current_event,
                meta_game_phase: state.meta_game_phase,
                turn_phase: state.turn_phase,
            }
        },
    }
}

} // verus!
