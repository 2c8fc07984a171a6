//! What the host of a game does with what the transport hands it: which
//! events it consumes, and which it sends on.
//!
//! The host consumes an event only after the state has accepted it, and only
//! consumed events are sent on to the players.

use crate::coords::CubeCoords;
use crate::events::{EndGameReason, GameEvent, GameStage, Player, PlayerId};
use crate::state::{GameState, GameStateView};
use vstd::prelude::*;
use vstd::std_specs::iter::IteratorSpec;

verus! {

broadcast use vstd::std_specs::hash::group_hash_axioms;

impl GameStateView {
    /// The state after the event is offered to it: after the event where the
    /// state accepts it, unchanged where it does not.
    pub open spec fn offered(self, event: GameEvent) -> GameStateView {
        if self.accepts(event) {
            self.after(event)
        } else {
            self
        }
    }

    /// What is sent on when the event is offered: the event where the state
    /// accepts it, nothing where it does not.
    pub open spec fn sent_on(self, event: GameEvent) -> Seq<GameEvent> {
        if self.accepts(event) {
            seq![event]
        } else {
            Seq::empty()
        }
    }
}

/// Offers an event to the state: consumes it where the state accepts it, and
/// leaves the state as it is where it does not. The result says which.
pub fn receive_event(game_state: &mut GameState, event: &GameEvent) -> (accepted: bool)
    requires
        old(game_state)@.wf(),
    ensures
        accepted == old(game_state)@.accepts(*event),
        final(game_state)@ == old(game_state)@.offered(*event),
        final(game_state)@.wf(),
{
    if game_state.validade(event) {
        game_state.consume(event);
        true
    } else {
        false
    }
}

/// The player that a `PlayerJoined` event names.
pub open spec fn joined_player(event: GameEvent) -> Option<PlayerId> {
    match event {
        GameEvent::PlayerJoined { player_id, player_details } => Some(player_id),
        _ => None,
    }
}

/// What a newly connected client is told of the players who are there: one
/// `PlayerJoined` event for each of them, in no particular order.
pub fn players_joined(game_state: &GameState) -> (events: Vec<GameEvent>)
    ensures
        events.len() == game_state@.players.len(),
        forall|i: int|
            0 <= i < events.len() ==> match #[trigger] events[i] {
                GameEvent::PlayerJoined { player_id, player_details } => {
                    &&& game_state@.players.contains_key(player_id)
                    &&& game_state@.players[player_id] == player_details
                },
                _ => false,
            },
        forall|i: int, j: int|
            0 <= i < j < events.len() ==> joined_player(#[trigger] events[i]) != joined_player(
                #[trigger] events[j],
            ),
{
    let mut events: Vec<GameEvent> = Vec::new();
    let ghost keys = game_state.players.keys().remaining().unref();
    for key in it: game_state.players.keys()
        invariant
            it.seq().unref() == keys,
            keys.to_set() == game_state.players@.dom(),
            keys.no_duplicates(),
            keys.len() == game_state.players@.dom().len(),
            events.len() == it.index(),
            forall|i: int|
                0 <= i < events.len() ==> #[trigger] events[i] == (GameEvent::PlayerJoined {
                    player_id: keys[i],
                    player_details: game_state.players@[keys[i]],
                }),
    {
        assert(keys[it.index()] == *key);
        assert(keys.to_set().contains(*key));
        match game_state.players.get(key) {
            Some(player) => {
                events.push(
                    GameEvent::PlayerJoined { player_id: *key, player_details: player.clone() },
                );
            },
            None => {},
        }
    }
    proof {
        assert forall|i: int| 0 <= i < events.len() implies match #[trigger] events[i] {
            GameEvent::PlayerJoined { player_id, player_details } => {
                &&& game_state@.players.contains_key(player_id)
                &&& game_state@.players[player_id] == player_details
            },
            _ => false,
        } by {
            assert(keys.to_set().contains(keys[i]));
        }
    }
    events
}

/// A client has connected: the host offers the state a `PlayerJoined` event
/// for it and then a `SetupBoard` event. The result holds those of the two
/// that the state accepted, in that order: what the host sends to all.
pub fn client_connected(game_state: &mut GameState, id: PlayerId, player_details: Player) -> (sent:
    Vec<GameEvent>)
    requires
        old(game_state)@.wf(),
    ensures
        final(game_state)@ == old(game_state)@.offered(
            GameEvent::PlayerJoined { player_id: id, player_details },
        ).offered(GameEvent::SetupBoard),
        sent@ == old(game_state)@.sent_on(GameEvent::PlayerJoined { player_id: id, player_details })
            + old(game_state)@.offered(
            GameEvent::PlayerJoined { player_id: id, player_details },
        ).sent_on(GameEvent::SetupBoard),
        final(game_state)@.wf(),
{
    let mut sent: Vec<GameEvent> = Vec::new();
    let event = GameEvent::PlayerJoined { player_id: id, player_details };
    if receive_event(game_state, &event) {
        sent.push(event);
    }
    let ghost first = sent@;
    let event = GameEvent::SetupBoard;
    if receive_event(game_state, &event) {
        sent.push(event);
    }
    assert(sent@ =~= first + old(game_state)@.offered(
        GameEvent::PlayerJoined { player_id: id, player_details },
    ).sent_on(GameEvent::SetupBoard));
    sent
}

/// A client has disconnected: the host offers the state a
/// `PlayerDisconnected` event for it and then ends the game. The result
/// holds those of the two events that the state accepted, in that order.
pub fn client_disconnected(game_state: &mut GameState, id: PlayerId) -> (sent: Vec<GameEvent>)
    requires
        old(game_state)@.wf(),
    ensures
        final(game_state)@ == old(game_state)@.offered(
            GameEvent::PlayerDisconnected { player_id: id },
        ).after(GameEvent::EndGame { reason: EndGameReason::PlayerLeft { player_id: id } }),
        sent@ == old(game_state)@.sent_on(GameEvent::PlayerDisconnected { player_id: id }).push(
            GameEvent::EndGame { reason: EndGameReason::PlayerLeft { player_id: id } },
        ),
        final(game_state)@.stage == GameStage::Ended,
        final(game_state)@.wf(),
{
    let mut sent: Vec<GameEvent> = Vec::new();
    let event = GameEvent::PlayerDisconnected { player_id: id };
    if receive_event(game_state, &event) {
        sent.push(event);
    }
    let event = GameEvent::EndGame { reason: EndGameReason::PlayerLeft { player_id: id } };
    if receive_event(game_state, &event) {
        sent.push(event);
    }
    sent
}

/// What a player who clicks on the cell `at` asks for: a move while the game
/// is on, nothing in any other stage.
pub fn input(stage: GameStage, player_id: PlayerId, at: CubeCoords) -> (event: Option<GameEvent>)
    ensures
        event == if stage == GameStage::InGame {
            Some(GameEvent::ShipMove { player_id, at })
        } else {
            None::<GameEvent>
        },
{
    match stage {
        GameStage::InGame => Some(GameEvent::ShipMove { player_id, at }),
        _ => None,
    }
}

} // verus!
