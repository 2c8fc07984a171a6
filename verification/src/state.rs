//! The game state, the rule that accepts or rejects an event, and the step
//! that applies an accepted event.
//!
//! A state changes only by [`GameState::consume`], and only by events that
//! [`GameState::validade`] accepts. Every consumed event is appended to the
//! history, so that two states with the same history are the same state.

use crate::coords::CubeCoords;
use crate::events::{EndGameReason, GameEvent, GameStage, Player, PlayerId};
use crate::game_objects::{GameObject, ROSTER_SIZE};
use std::collections::HashMap;
use vstd::prelude::*;
use vstd::std_specs::iter::IteratorSpec;

verus! {

broadcast use vstd::std_specs::hash::group_hash_axioms;

/// One placed object: its kind, its anchor and its rotation.
pub type Placement = (GameObject, CubeCoords, i32);

/// The state of one game session.
#[derive(Debug, Clone, PartialEq)]
pub struct GameState {
    pub stage: GameStage,
    pub players: HashMap<PlayerId, Player>,
    pub player_ships: HashMap<PlayerId, Vec<Placement>>,
    pub history: Vec<GameEvent>,
    pub cur_player: Option<PlayerId>,
}

/// The mathematical value of a game state.
pub struct GameStateView {
    pub stage: GameStage,
    pub players: Map<PlayerId, Player>,
    pub player_ships: Map<PlayerId, Seq<Placement>>,
    pub history: Seq<GameEvent>,
    pub cur_player: Option<PlayerId>,
}

/// Whether `next` is the player whose turn follows that of `mover`: the
/// player other than `mover` with the least id, or nobody where there is no
/// other player. Among two players it is the other one.
pub open spec fn is_following_player(players: Set<PlayerId>, mover: PlayerId, next: Option<PlayerId>) -> bool {
    match next {
        None => forall|p: PlayerId| players.contains(p) ==> p == mover,
        Some(n) => {
            &&& players.contains(n)
            &&& n != mover
            &&& forall|p: PlayerId| players.contains(p) && p != mover ==> n <= p
        },
    }
}

/// The player whose turn follows that of `mover`.
pub open spec fn following_player(players: Set<PlayerId>, mover: PlayerId) -> Option<PlayerId> {
    choose|next: Option<PlayerId>| is_following_player(players, mover, next)
}

/// At most one player follows `mover`: what `is_following_player` holds of is
/// what `following_player` gives.
pub proof fn lemma_following_player_unique(players: Set<PlayerId>, mover: PlayerId, next: Option<PlayerId>)
    requires
        is_following_player(players, mover, next),
    ensures
        following_player(players, mover) == next,
{
    let chosen = following_player(players, mover);
    assert(is_following_player(players, mover, chosen));
}

impl GameStateView {
    /// The state of a new session: the lobby, with nobody in it.
    pub open spec fn initial() -> GameStateView {
        GameStateView {
            stage: GameStage::Lobby,
            players: Map::empty(),
            player_ships: Map::empty(),
            history: Seq::empty(),
            cur_player: None,
        }
    }

    /// No player has placed more objects than the roster holds.
    pub open spec fn wf(self) -> bool {
        forall|p: PlayerId| #[trigger]
            self.player_ships.contains_key(p) ==> self.player_ships[p].len() <= ROSTER_SIZE
    }

    /// Whether every player has placed the whole roster.
    pub open spec fn all_placed(self) -> bool {
        forall|p: PlayerId| #[trigger]
            self.players.contains_key(p) ==> self.player_ships.contains_key(p)
                && self.player_ships[p].len() == ROSTER_SIZE
    }

    /// Whether the state accepts the event.
    pub open spec fn accepts(self, event: GameEvent) -> bool {
        match event {
            GameEvent::SetupBoard => self.stage == GameStage::Lobby && self.players.len() == 2,
            GameEvent::BeginGame { first_player } => {
                &&& self.players.contains_key(first_player)
                &&& self.players.len() == 2
                &&& self.all_placed()
            },
            GameEvent::EndGame { reason } => match reason {
                EndGameReason::PlayerWon { winner } => self.stage == GameStage::InGame,
                EndGameReason::PlayerLeft { player_id } => true,
            },
            GameEvent::PlayerJoined { player_id, player_details } => !self.players.contains_key(
                player_id,
            ),
            GameEvent::PlayerDisconnected { player_id } => self.players.contains_key(player_id),
            GameEvent::ShipMove { player_id, at } => self.cur_player == Some(player_id),
            GameEvent::ShipPlaced { player_id, ship_type, at, rotation } => {
                &&& self.stage == GameStage::PreGame
                &&& self.player_ships.contains_key(player_id)
                &&& self.player_ships[player_id].len() < ROSTER_SIZE
            },
        }
    }

    /// The placement lists once the board is set up: an empty list for every
    /// player, and the lists that others had before.
    pub open spec fn ships_at_setup(self) -> Map<PlayerId, Seq<Placement>> {
        Map::new(
            |p: PlayerId| self.players.contains_key(p) || self.player_ships.contains_key(p),
            |p: PlayerId|
                if self.players.contains_key(p) {
                    Seq::empty()
                } else {
                    self.player_ships[p]
                },
        )
    }

    /// What the event changes, the history left aside.
    pub open spec fn moved_by(self, event: GameEvent) -> GameStateView {
        match event {
            GameEvent::SetupBoard => GameStateView {
                stage: GameStage::PreGame,
                player_ships: self.ships_at_setup(),
                ..self
            },
            GameEvent::BeginGame { first_player } => GameStateView {
                stage: GameStage::InGame,
                cur_player: following_player(self.players.dom(), first_player),
                ..self
            },
            GameEvent::EndGame { reason } => GameStateView { stage: GameStage::Ended, ..self },
            GameEvent::PlayerJoined { player_id, player_details } => GameStateView {
                players: self.players.insert(player_id, player_details),
                ..self
            },
            GameEvent::PlayerDisconnected { player_id } => GameStateView {
                players: self.players.remove(player_id),
                ..self
            },
            GameEvent::ShipMove { player_id, at } => GameStateView {
                cur_player: following_player(self.players.dom(), player_id),
                ..self
            },
            GameEvent::ShipPlaced { player_id, ship_type, at, rotation } => GameStateView {
                player_ships: self.player_ships.insert(
                    player_id,
                    self.player_ships[player_id].push((ship_type, at, rotation)),
                ),
                ..self
            },
        }
    }

    /// The state after the event: what the event changes, and the event
    /// appended to the history.
    pub open spec fn after(self, event: GameEvent) -> GameStateView {
        GameStateView { history: self.history.push(event), ..self.moved_by(event) }
    }
}

impl View for GameState {
    type V = GameStateView;

    open spec fn view(&self) -> GameStateView {
        GameStateView {
            stage: self.stage,
            players: self.players@,
            player_ships: self.player_ships@.map_values(|ships: Vec<Placement>| ships@),
            history: self.history@,
            cur_player: self.cur_player,
        }
    }
}

impl Default for GameState {
    /// A new session: the lobby, with nobody in it.
    fn default() -> (state: GameState)
        ensures
            state@ == GameStateView::initial(),
            state@.wf(),
    {
        let state = GameState {
            stage: GameStage::Lobby,
            players: HashMap::new(),
            player_ships: HashMap::new(),
            history: Vec::new(),
            cur_player: None,
        };
        assert(state@.player_ships =~= Map::empty());
        state
    }
}

impl GameState {
    /// Whether it is the turn of `player_id`.
    pub fn is_player_turn(&self, player_id: &PlayerId) -> (yes: bool)
        ensures
            yes == (self@.cur_player == Some(*player_id)),
    {
        if let Some(p) = self.cur_player {
            if *player_id == p {
                return true;
            }
        }
        false
    }

    /// The player whose turn follows that of `mover`: the player other than
    /// `mover` with the least id.
    pub fn other_player(&self, mover: PlayerId) -> (next: Option<PlayerId>)
        ensures
            next == following_player(self@.players.dom(), mover),
            is_following_player(self@.players.dom(), mover, next),
    {
        let mut best: Option<PlayerId> = None;
        let ghost keys = self.players.keys().remaining().unref();
        for key in it: self.players.keys()
            invariant
                it.seq().unref() == keys,
                keys.to_set() == self.players@.dom(),
                match best {
                    None => forall|j: int| 0 <= j < it.index() ==> keys[j] == mover,
                    Some(n) => {
                        &&& n != mover
                        &&& exists|j: int| 0 <= j < it.index() && keys[j] == n
                        &&& forall|j: int| 0 <= j < it.index() && keys[j] != mover ==> n <= keys[j]
                    },
                },
        {
            assert(keys[it.index()] == *key);
            if *key != mover {
                best = match best {
                    None => Some(*key),
                    Some(n) => if *key < n {
                        Some(*key)
                    } else {
                        Some(n)
                    },
                };
            }
        }
        proof {
            assert forall|p: PlayerId| self@.players.dom().contains(p) implies exists|j: int|
                0 <= j < keys.len() && keys[j] == p by {
                assert(keys.to_set().contains(p));
            }
            assert(forall|j: int| 0 <= j < keys.len() ==> keys.to_set().contains(keys[j]));
            lemma_following_player_unique(self@.players.dom(), mover, best);
        }
        best
    }

    /// The player to move after the current one, or nobody where it is
    /// nobody's turn or there is no other player.
    pub fn next_player(&self) -> (next: Option<PlayerId>)
        ensures
            next == match self@.cur_player {
                Some(mover) => following_player(self@.players.dom(), mover),
                None => None,
            },
    {
        match self.cur_player {
            Some(player_moved) => self.other_player(player_moved),
            None => None,
        }
    }

    /// Whether every player has placed the whole roster.
    pub fn all_placed(&self) -> (yes: bool)
        ensures
            yes == self@.all_placed(),
    {
        let ghost keys = self.players.keys().remaining().unref();
        for key in it: self.players.keys()
            invariant
                it.seq().unref() == keys,
                keys.to_set() == self.players@.dom(),
                forall|j: int|
                    0 <= j < it.index() ==> self@.player_ships.contains_key(#[trigger] keys[j])
                        && self@.player_ships[keys[j]].len() == ROSTER_SIZE,
        {
            assert(keys[it.index()] == *key);
            assert(keys.to_set().contains(*key));
            assert(self@.players.contains_key(*key));
            assert(self@.player_ships.contains_key(*key) <==> self.player_ships@.contains_key(*key));
            match self.player_ships.get(key) {
                Some(garage) => {
                    if garage.len() != ROSTER_SIZE {
                        return false;
                    }
                },
                None => {
                    return false;
                },
            }
        }
        proof {
            assert forall|p: PlayerId| #[trigger]
                self@.players.contains_key(p) implies self@.player_ships.contains_key(p)
                && self@.player_ships[p].len() == ROSTER_SIZE by {
                assert(keys.to_set().contains(p));
            }
        }
        true
    }

    /// Whether no player has placed more objects than the roster holds, as
    /// `validade` and `consume` require.
    pub fn is_consistent(&self) -> (ok: bool)
        ensures
            ok == self@.wf(),
    {
        let ghost keys = self.player_ships.keys().remaining().unref();
        for key in it: self.player_ships.keys()
            invariant
                it.seq().unref() == keys,
                keys.to_set() == self.player_ships@.dom(),
                forall|j: int|
                    0 <= j < it.index() ==> self@.player_ships[#[trigger] keys[j]].len()
                        <= ROSTER_SIZE,
        {
            assert(keys[it.index()] == *key);
            assert(keys.to_set().contains(*key));
            assert(self@.player_ships.contains_key(*key));
            match self.player_ships.get(key) {
                Some(garage) => {
                    if garage.len() > ROSTER_SIZE {
                        return false;
                    }
                },
                None => {},
            }
        }
        proof {
            assert forall|p: PlayerId| #[trigger]
                self@.player_ships.contains_key(p) implies self@.player_ships[p].len()
                <= ROSTER_SIZE by {
                assert(keys.to_set().contains(p));
            }
        }
        true
    }

    /// Whether the state accepts the event. Only an accepted event may be
    /// consumed.
    pub fn validade(&self, event: &GameEvent) -> (accepted: bool)
        requires
            self@.wf(),
        ensures
            accepted == self@.accepts(*event),
    {
        match event {
            GameEvent::BeginGame { first_player } => {
                if !self.players.contains_key(first_player) {
                    return false;
                }
                if self.players.len() != 2 {
                    return false;
                }
                if !self.all_placed() {
                    return false;
                }
            },
            GameEvent::EndGame { reason } => match reason {
                EndGameReason::PlayerWon { winner: _ } => {
                    if self.stage != GameStage::InGame {
                        return false;
                    }
                },
                _ => {},
            },
            GameEvent::PlayerJoined { player_id, player_details: _ } => {
                if self.players.contains_key(player_id) {
                    return false;
                }
            },
            GameEvent::PlayerDisconnected { player_id } => {
                if !self.players.contains_key(player_id) {
                    return false;
                }
            },
            GameEvent::ShipMove { player_id, at: _ } => {
                return self.is_player_turn(player_id);
            },
            GameEvent::ShipPlaced { player_id, .. } => {
                if self.stage != GameStage::PreGame {
                    return false;
                }
                match self.player_ships.get(player_id) {
                    Some(garage) => {
                        if garage.len() == ROSTER_SIZE {
                            return false;
                        }
                    },
                    None => {
                        return false;
                    },
                }
            },
            GameEvent::SetupBoard => {
                if self.stage != GameStage::Lobby {
                    return false;
                }
                if self.players.len() != 2 {
                    return false;
                }
            },
        }
        true
    }

    /// Applies an accepted event and appends it to the history.
    pub fn consume(&mut self, valid_event: &GameEvent)
        requires
            old(self)@.wf(),
            old(self)@.accepts(*valid_event),
        ensures
            final(self)@ == old(self)@.after(*valid_event),
            final(self)@.wf(),
    {
        match valid_event {
            GameEvent::BeginGame { first_player } => {
                let player = self.other_player(*first_player);
                self.cur_player = player;
                self.stage = GameStage::InGame;
            },
            GameEvent::EndGame { reason: _ } => {
                self.stage = GameStage::Ended;
            },
            GameEvent::PlayerDisconnected { player_id } => {
                self.players.remove(player_id);
            },
            GameEvent::PlayerJoined { player_id, player_details } => {
                self.players.insert(*player_id, player_details.clone());
            },
            GameEvent::ShipMove { player_id: _, at: _ } => {
                self.cur_player = self.next_player();
            },
            GameEvent::ShipPlaced { player_id, at, rotation, ship_type } => {
                let mut ship_vec = self.player_ships.remove(player_id).unwrap();
                ship_vec.push((*ship_type, *at, *rotation));
                self.player_ships.insert(*player_id, ship_vec);
            },
            GameEvent::SetupBoard => {
                self.stage = GameStage::PreGame;
                self.clear_placements();
            },
        }
        self.history.push(valid_event.clone());
        assert(self@.player_ships =~= old(self)@.after(*valid_event).player_ships);
        assert(self@.players =~= old(self)@.after(*valid_event).players);
    }

    /// Gives every player an empty placement list.
    fn clear_placements(&mut self)
        ensures
            final(self)@ == (GameStateView {
                player_ships: old(self)@.ships_at_setup(),
                ..old(self)@
            }),
    {
        let ghost keys = self.players.keys().remaining().unref();
        let ghost before = self@;
        let ghost mut done: Set<PlayerId> = Set::empty();
        for key in it: self.players.keys()
            invariant
                it.seq().unref() == keys,
                keys.to_set() == self.players@.dom(),
                self@.stage == before.stage,
                self@.players == before.players,
                self@.history == before.history,
                self@.cur_player == before.cur_player,
                forall|j: int| 0 <= j < it.index() ==> done.contains(#[trigger] keys[j]),
                forall|p: PlayerId| done.contains(p) ==> before.players.contains_key(p),
                self@.player_ships == Map::new(
                    |p: PlayerId| done.contains(p) || before.player_ships.contains_key(p),
                    |p: PlayerId|
                        if done.contains(p) {
                            Seq::<Placement>::empty()
                        } else {
                            before.player_ships[p]
                        },
                ),
        {
            assert(keys[it.index()] == *key);
            assert(keys.to_set().contains(*key));
            let ghost ships = self@.player_ships;
            self.player_ships.insert(*key, Vec::new());
            proof {
                done = done.insert(*key);
                assert(self@.player_ships =~= ships.insert(*key, Seq::<Placement>::empty()));
                assert(self@.player_ships =~= Map::new(
                    |p: PlayerId| done.contains(p) || before.player_ships.contains_key(p),
                    |p: PlayerId|
                        if done.contains(p) {
                            Seq::<Placement>::empty()
                        } else {
                            before.player_ships[p]
                        },
                ));
            }
        }
        proof {
            assert forall|p: PlayerId| before.players.contains_key(p) implies done.contains(p) by {
                assert(keys.to_set().contains(p));
            }
            assert(self@.player_ships =~= before.ships_at_setup());
        }
    }
}

/// Among the players other than `mover`, if there is one, there is one with
/// the least id.
proof fn lemma_least_other_player(players: Set<PlayerId>, mover: PlayerId, p: PlayerId)
    requires
        players.contains(p),
        p != mover,
    ensures
        exists|n: PlayerId| is_following_player(players, mover, Some(n)),
    decreases p,
{
    if exists|q: PlayerId| players.contains(q) && q != mover && q < p {
        let q = choose|q: PlayerId| players.contains(q) && q != mover && q < p;
        lemma_least_other_player(players, mover, q);
    } else {
        assert(is_following_player(players, mover, Some(p)));
    }
}

/// The player who follows `mover` is another player, the one with the least
/// id, or nobody exactly where there is no other player.
pub proof fn lemma_following_player(players: Set<PlayerId>, mover: PlayerId)
    ensures
        is_following_player(players, mover, following_player(players, mover)),
        following_player(players, mover) != Some(mover),
{
    if exists|p: PlayerId| players.contains(p) && p != mover {
        let p = choose|p: PlayerId| players.contains(p) && p != mover;
        lemma_least_other_player(players, mover, p);
    } else {
        assert(is_following_player(players, mover, None));
    }
}

/// Of two players, each follows the other.
pub proof fn lemma_two_players_alternate(players: Set<PlayerId>, a: PlayerId, b: PlayerId)
    requires
        players.finite(),
        players.len() == 2,
        players.contains(a),
        players.contains(b),
        a != b,
    ensures
        following_player(players, a) == Some(b),
        following_player(players, b) == Some(a),
{
    assert forall|p: PlayerId| players.contains(p) implies p == a || p == b by {
        if p != a && p != b {
            let rest = players.remove(a).remove(b);
            assert(rest.contains(p));
            assert(rest.len() == 0);
        }
    }
    lemma_following_player_unique(players, a, Some(b));
    lemma_following_player_unique(players, b, Some(a));
}

/// The state that a sequence of events leads to, one after the other.
pub open spec fn replay(state: GameStateView, events: Seq<GameEvent>) -> GameStateView
    decreases events.len(),
{
    if events.len() == 0 {
        state
    } else {
        replay(state, events.drop_last()).after(events.last())
    }
}

/// Whether each event of the sequence is accepted by the state that the
/// events before it lead to.
pub open spec fn accepted_in_turn(state: GameStateView, events: Seq<GameEvent>) -> bool
    decreases events.len(),
{
    if events.len() == 0 {
        true
    } else {
        &&& accepted_in_turn(state, events.drop_last())
        &&& replay(state, events.drop_last()).accepts(events.last())
    }
}

/// An accepted event keeps the placement lists within the roster, and the
/// history grows by that event and nothing else.
pub proof fn lemma_step_keeps_wf(state: GameStateView, event: GameEvent)
    requires
        state.wf(),
        state.accepts(event),
    ensures
        state.after(event).wf(),
        state.after(event).history == state.history.push(event),
{
    let next = state.after(event);
    assert forall|p: PlayerId| #[trigger] next.player_ships.contains_key(p) implies next.player_ships[p].len()
        <= ROSTER_SIZE by {
        if state.player_ships.contains_key(p) {
            assert(state.player_ships[p].len() <= ROSTER_SIZE);
        }
    }
}

/// The history is an append-only log: after a sequence of events it is the
/// history from before, followed by those events in order. Where each event
/// was accepted in its turn, no placement list outgrows the roster.
pub proof fn lemma_history_is_log(state: GameStateView, events: Seq<GameEvent>)
    ensures
        replay(state, events).history == state.history + events,
        state.wf() && accepted_in_turn(state, events) ==> replay(state, events).wf(),
    decreases events.len(),
{
    if events.len() == 0 {
        assert(state.history + events =~= state.history);
    } else {
        lemma_history_is_log(state, events.drop_last());
        assert(state.history + events =~= (state.history + events.drop_last()).push(events.last()));
        if state.wf() && accepted_in_turn(state, events) {
            lemma_step_keeps_wf(replay(state, events.drop_last()), events.last());
        }
    }
}

/// A session that began in the lobby with nobody in it is determined by its
/// history: replaying the history from the initial state gives the state.
/// Two such sessions with the same history are therefore in the same state.
pub proof fn lemma_state_from_history(events: Seq<GameEvent>)
    ensures
        replay(GameStateView::initial(), events).history == events,
        replay(GameStateView::initial(), replay(GameStateView::initial(), events).history)
            == replay(GameStateView::initial(), events),
{
    lemma_history_is_log(GameStateView::initial(), events);
    assert(Seq::<GameEvent>::empty() + events =~= events);
}

/// Turns alternate: once a move is consumed, the same player may not move
/// again until another has moved.
pub proof fn lemma_no_second_move(state: GameStateView, player_id: PlayerId, at: CubeCoords, again: CubeCoords)
    requires
        state.accepts(GameEvent::ShipMove { player_id, at }),
    ensures
        !state.after(GameEvent::ShipMove { player_id, at }).accepts(
            GameEvent::ShipMove { player_id, at: again },
        ),
{
    lemma_following_player(state.players.dom(), player_id);
}

/// An accepted `BeginGame` starts the game and gives the first turn to the
/// player other than `first_player`.
pub proof fn lemma_begin_game(state: GameStateView, first_player: PlayerId)
    requires
        state.players.dom().finite(),
        state.accepts(GameEvent::BeginGame { first_player }),
    ensures
        state.after(GameEvent::BeginGame { first_player }).stage == GameStage::InGame,
        match state.after(GameEvent::BeginGame { first_player }).cur_player {
            Some(p) => p != first_player && state.players.contains_key(p),
            None => false,
        },
{
    let players = state.players.dom();
    lemma_following_player(players, first_player);
    if following_player(players, first_player) is None {
        assert(players.remove(first_player).len() == 1);
        let other = players.remove(first_player).choose();
        assert(players.contains(other));
    }
}

/// The stages that accepted events lead through: `SetupBoard` leads from
/// the lobby to the placing of objects, `BeginGame` into the game and
/// `EndGame` to the end; every other event leaves the stage as it is.
pub proof fn lemma_stage_after(state: GameStateView, event: GameEvent)
    requires
        state.accepts(event),
    ensures
        state.after(event).stage == match event {
            GameEvent::SetupBoard => GameStage::PreGame,
            GameEvent::BeginGame { first_player } => GameStage::InGame,
            GameEvent::EndGame { reason } => GameStage::Ended,
            _ => state.stage,
        },
        event == GameEvent::SetupBoard ==> state.stage == GameStage::Lobby,
        event matches GameEvent::ShipPlaced { .. } ==> state.stage == GameStage::PreGame,
        event matches GameEvent::EndGame { reason: EndGameReason::PlayerWon { .. } }
            ==> state.stage == GameStage::InGame,
{
}

/// An accepted placement adds one object to the list of its player and
/// leaves every other list as it is; it is accepted only while that list
/// holds fewer objects than the roster.
pub proof fn lemma_placing_fills_roster(
    state: GameStateView,
    player_id: PlayerId,
    ship_type: GameObject,
    at: CubeCoords,
    rotation: i32,
)
    requires
        state.accepts(GameEvent::ShipPlaced { player_id, ship_type, at, rotation }),
    ensures
        ({
            let next = state.after(GameEvent::ShipPlaced { player_id, ship_type, at, rotation });
            &&& next.player_ships.dom() == state.player_ships.dom()
            &&& next.player_ships[player_id] == state.player_ships[player_id].push(
                (ship_type, at, rotation),
            )
            &&& next.player_ships[player_id].len() == state.player_ships[player_id].len() + 1
            &&& forall|p: PlayerId|
                p != player_id && state.player_ships.contains_key(p)
                    ==> #[trigger] next.player_ships[p] == state.player_ships[p]
            &&& next.player_ships[player_id].len() == ROSTER_SIZE ==> !next.accepts(
                GameEvent::ShipPlaced { player_id, ship_type, at, rotation },
            )
        }),
{
    let next = state.after(GameEvent::ShipPlaced { player_id, ship_type, at, rotation });
    assert(next.player_ships.dom() =~= state.player_ships.dom());
}

} // verus!
