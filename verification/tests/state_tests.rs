//! The coarse game state: passing the turn walks the seating order and
//! wraps, the reducer steps the phase tables, and the selectors read the
//! state they are asked about.
use mtg::reducers::{reducer, Action, CurrentEvent};
use mtg::selectors::{
    SelectCurrentEvent, SelectFirstPlayer, SelectMetaGamePhase, SelectPlayerCount,
    SelectPlayerNames, SelectTurnPhase,
};
use mtg::state_manager::{GameState, MetaGamePhase, Player, PlayerTurn, TurnPhase};

#[test]
fn player_turn_change_turn_moves_to_next_player() {
    let andrew = Player { name: "Andrew".to_string() };
    let rory = Player { name: "Rory".to_string() };
    let mut player_turn = PlayerTurn::new(vec![andrew.clone(), rory.clone()]);
    assert_eq!(player_turn.current_turn.name, andrew.name);
    player_turn.change_turn();
    assert_eq!(player_turn.current_turn.name, rory.name);
    player_turn.change_turn();
    assert_eq!(player_turn.current_turn.name, andrew.name);
}

#[test]
fn player_turn_add_player_adds_player() {
    let andrew = Player { name: "Andrew".to_string() };
    let rory = Player { name: "Rory".to_string() };
    let rosemary = Player { name: "Rosemary".to_string() };
    let mut player_turn = PlayerTurn::new(vec![andrew.clone(), rory.clone()]);
    assert_eq!(player_turn.current_turn.name, andrew.name);
    player_turn.change_turn();
    assert_eq!(player_turn.current_turn.name, rory.name);
    player_turn.add_player(rosemary.name.clone());
    player_turn.change_turn();
    assert_eq!(player_turn.current_turn.name, rosemary.name);
}

#[test]
fn game_state_reduces_through_actions() {
    let gs = GameState::new();
    assert_eq!(*SelectCurrentEvent.select(&gs), CurrentEvent::NewGame);
    assert_eq!(SelectPlayerCount.select(&gs), 0);
    assert_eq!(SelectPlayerNames.select(&gs).len(), 0);
    assert_eq!(SelectFirstPlayer.select(&gs).name, "No Players Added Yet");

    let gs = reducer(gs, Action::AddPlayer("Andrew".to_string()));
    assert_eq!(SelectPlayerCount.select(&gs), 1);
    assert_eq!(SelectPlayerNames.select(&gs).len(), 1);
    assert_eq!(SelectFirstPlayer.select(&gs).name, "Andrew");

    let gs = reducer(gs, Action::AddPlayer("Adam".to_string()));
    assert_eq!(SelectPlayerCount.select(&gs), 2);

    let gs = reducer(gs, Action::ProgressTurnPhase);
    assert_eq!(SelectTurnPhase.select(&gs), TurnPhase::Upkeep);
}

#[test]
fn meta_game_phase_walks_its_table_and_wraps() {
    let mut gs = GameState::new();
    assert_eq!(SelectMetaGamePhase.select(&gs), MetaGamePhase::ChoosePlayerCount);
    let order = [
        MetaGamePhase::ConfirmLibrary,
        MetaGamePhase::ChooseFirstTurn,
        MetaGamePhase::InitialDraw,
        MetaGamePhase::MulliganChoice,
        MetaGamePhase::ActiveGame,
        MetaGamePhase::EndGame,
        MetaGamePhase::DeclareWinner,
        MetaGamePhase::ChoosePlayerCount,
    ];
    for phase in order {
        gs = reducer(gs, Action::ProgressMetaGamePhase);
        assert_eq!(SelectMetaGamePhase.select(&gs), phase);
    }
    gs = reducer(gs, Action::RegressMetaGamePhase);
    assert_eq!(SelectMetaGamePhase.select(&gs), MetaGamePhase::NoPhase);
}

#[test]
fn turn_phase_cycles_back_to_untap() {
    let mut gs = GameState::new();
    for _ in 0..13 {
        gs = reducer(gs, Action::ProgressTurnPhase);
    }
    assert_eq!(SelectTurnPhase.select(&gs), TurnPhase::Untap);
}

#[test]
fn update_current_event_replaces_only_the_event() {
    let gs = GameState::new();
    let gs = reducer(
        gs,
        Action::UpdateCurrentEvent { event: CurrentEvent::NoEvent },
    );
    assert_eq!(*SelectCurrentEvent.select(&gs), CurrentEvent::NoEvent);
    assert_eq!(SelectMetaGamePhase.select(&gs), MetaGamePhase::ChoosePlayerCount);
    assert_eq!(SelectTurnPhase.select(&gs), TurnPhase::Untap);
}

#[test]
fn progress_turn_wraps_around_the_seating() {
    let gs = GameState {
        current_event: CurrentEvent::NewGame,
        meta_game_phase: MetaGamePhase::ActiveGame,
        player_turn: PlayerTurn::new(vec![
            Player { name: "Andrew".to_string() },
            Player { name: "Rory".to_string() },
        ]),
        turn_phase: TurnPhase::Untap,
    };
    let gs = reducer(gs, Action::ProgressTurn);
    assert_eq!(gs.player_turn.current_turn.name, "Rory");
    let gs = reducer(gs, Action::ProgressTurn);
    assert_eq!(gs.player_turn.current_turn.name, "Andrew");
}
