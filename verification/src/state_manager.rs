//! The coarse game state: who is playing, whose turn it is, which phase of
//! the game and of the turn is running.
use vstd::prelude::*;
use crate::reducers::CurrentEvent;

verus! {

/// The phases of the act of playing a whole game, from naming the players
/// to declaring a winner. `NoPhase` is the error state.
#[derive(Debug, Clone, Copy, PartialEq, Eq, Structural)]
pub enum MetaGamePhase {
    /// Choose the number of players and name them.
    ChoosePlayerCount,
    /// Each player confirms a library, with sideboard substitutions.
    ConfirmLibrary,
    /// Decide who goes first.
    ChooseFirstTurn,
    /// The drawing of the first hand.
    InitialDraw,
    /// The choice of whether to keep the first hand.
    MulliganChoice,
    /// An active game.
    ActiveGame,
    /// The game ending and cleanup.
    EndGame,
    /// The winner declared.
    DeclareWinner,
    /// Error state.
    NoPhase,
}

/// The standard phases of one turn.
#[derive(Debug, Clone, Copy, PartialEq, Eq, Structural)]
pub enum TurnPhase {
    Untap,
    Upkeep,
    Draw,
    PreCombatMainPhase,
    CombatPhase,
    DeclareAttackers,
    DeclareBlockers,
    CombatResolution,
    EndCombat,
    PostCombatMainPhase,
    End,
    Cleanup,
    PassTurn,
}

/// Someone playing the game, identified by name.
#[derive(Debug, Clone, PartialEq, Eq)]
pub struct Player {
    pub name: String,
}

/// The players in seating order and whose turn it currently is.
#[derive(Debug, Clone)]
pub struct PlayerTurn {
    pub players: Vec<Player>,
    pub current_turn: Player,
}

/// The first seat, at or after `i`, whose player carries the given name.
pub open spec fn find_player(ps: Seq<Player>, name: Seq<char>, i: int) -> Option<int>
    decreases ps.len() - i,
{
    if i < 0 || i >= ps.len() {
        Option::None
    } else if ps[i].name@ == name {
        Some(i)
    } else {
        find_player(ps, name, i + 1)
    }
}

/// Copies a player list; the copy reads the same, player for player.
fn clone_players(v: &Vec<Player>) -> (r: Vec<Player>)
    ensures
        r@ == v@,
{
    let mut out: Vec<Player> = Vec::new();
    let mut i: usize = 0;
    while i < v.len()
        invariant
            i <= v@.len(),
            out@.len() == i,
            forall|k: int| 0 <= k < i ==> out@[k] == v@[k],
        decreases v@.len() - i,
    {
        out.push(Player { name: v[i].name.clone() });
        i += 1;
    }
    proof {
        assert(out@ =~= v@);
    }
    out
}

impl PlayerTurn {
    /// Seats the players and gives the first of them the opening turn.
    pub fn new(players: Vec<Player>) -> (r: PlayerTurn)
        requires
            players@.len() > 0,
        ensures
            r.players@ == players@,
            r.current_turn == players@[0],
    {
        let current_turn = Player { name: players[0].name.clone() };
        PlayerTurn { players, current_turn }
    }

    /// Seats one more player at the end; the current turn is unchanged.
    /// The returned snapshot reads the same as the updated state.
    pub fn add_player(&mut self, name: String) -> (r: PlayerTurn)
        ensures
            final(self).players@ == old(self).players@.push(Player { name: name }),
            final(self).current_turn == old(self).current_turn,
            r.players@ == final(self).players@,
            r.current_turn == final(self).current_turn,
    {
        self.players.push(Player { name });
        PlayerTurn {
            players: clone_players(&self.players),
            current_turn: Player { name: self.current_turn.name.clone() },
        }
    }

    /// Passes the turn to the next seat after the first seat naming the
    /// current player, wrapping around to the first seat. The current
    /// player must be seated. The returned snapshot reads the same as the
    /// updated state.
    pub fn change_turn(&mut self) -> (r: PlayerTurn)
        requires
            find_player(old(self).players@, old(self).current_turn.name@, 0) is Some,
        ensures
            final(self).players@ == old(self).players@,
            ({
                let idx = find_player(old(self).players@, old(self).current_turn.name@, 0)->0;
                final(self).current_turn == (if idx + 1 >= old(self).players@.len() {
                    old(self).players@[0]
                } else {
                    old(self).players@[idx + 1]
                })
            }),
            r.players@ == final(self).players@,
            r.current_turn == final(self).current_turn,
    {
        let ghost ps = self.players@;
        let ghost cur = self.current_turn.name@;
        let mut index: usize = 0;
        let mut found = false;
        while index < self.players.len() && !found
            invariant
                index <= ps.len(),
                ps == self.players@,
                cur == self.current_turn.name@,
                !found ==> find_player(ps, cur, 0) == find_player(ps, cur, index as int),
                found ==> index < ps.len() && find_player(ps, cur, 0) == Some(index as int),
            decreases ps.len() - index, (if found { 0int } else { 1int }),
        {
            if crate::text::str_eq(self.players[index].name.as_str(), self.current_turn.name.as_str()) {
                found = true;
            } else {
                index += 1;
            }
        }
        proof {
            if !found {
                assert(find_player(ps, cur, ps.len() as int) is None);
                assert(false);
            }
        }
        let next = if index + 1 >= self.players.len() {
            Player { name: self.players[0].name.clone() }
        } else {
            Player { name: self.players[index + 1].name.clone() }
        };
        self.current_turn = next;
        PlayerTurn {
            players: clone_players(&self.players),
            current_turn: Player { name: self.current_turn.name.clone() },
        }
    }
}

/// The whole coarse game state a store carries between events.
#[derive(Debug)]
pub struct GameState {
    pub current_event: CurrentEvent,
    pub meta_game_phase: MetaGamePhase,
    pub player_turn: PlayerTurn,
    pub turn_phase: TurnPhase,
}

impl GameState {
    /// The opening state: a new game, no players seated, the placeholder
    /// player holding the turn, everything at its first phase.
    pub fn new() -> (r: GameState)
        ensures
            r.current_event == CurrentEvent::NewGame,
            r.meta_game_phase == MetaGamePhase::ChoosePlayerCount,
            r.player_turn.players@.len() == 0,
            r.player_turn.current_turn.name@ == "default"@,
            r.turn_phase == TurnPhase::Untap,
    {
        GameState {
            current_event: CurrentEvent::NewGame,
            meta_game_phase: MetaGamePhase::ChoosePlayerCount,
            player_turn: PlayerTurn {
                players: Vec::new(),
                current_turn: Player { name: "default".to_owned() },
            },
            turn_phase: TurnPhase::Untap,
        }
    }
}

} // verus!
