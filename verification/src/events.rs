//! Players, stages and the events that move a game forward.

use crate::coords::CubeCoords;
use crate::game_objects::GameObject;
use vstd::prelude::*;

verus! {

/// The number by which the transport names a connected peer.
pub type PlayerId = u64;

/// What is known of a player.
#[derive(Debug, PartialEq)]
pub struct Player {
    pub name: String,
}

impl Clone for Player {
    fn clone(&self) -> (copy: Player)
        ensures
            copy == *self,
    {
        Player { name: self.name.clone() }
    }
}

/// The phases of a session, in the order in which a game passes through them.
#[derive(Debug, Clone, Copy, PartialEq, Eq, Hash, Structural)]
pub enum GameStage {
    Lobby,
    PreGame,
    InGame,
    Paused,
    Ended,
}

/// Why a game ended.
#[derive(Debug, Clone, Copy, PartialEq, Eq, Structural)]
pub enum EndGameReason {
    PlayerLeft { player_id: PlayerId },
    PlayerWon { winner: PlayerId },
}

/// An event that moves the game state forward.
#[derive(Debug, PartialEq)]
pub enum GameEvent {
    SetupBoard,
    BeginGame { first_player: PlayerId },
    EndGame { reason: EndGameReason },
    PlayerJoined { player_id: PlayerId, player_details: Player },
    PlayerDisconnected { player_id: PlayerId },
    ShipMove { player_id: PlayerId, at: CubeCoords },
    ShipPlaced { player_id: PlayerId, ship_type: GameObject, at: CubeCoords, rotation: i32 },
}

impl Clone for GameEvent {
    fn clone(&self) -> (copy: GameEvent)
        ensures
            copy == *self,
    {
        match self {
            GameEvent::SetupBoard => GameEvent::SetupBoard,
            GameEvent::BeginGame { first_player } => GameEvent::BeginGame {
                first_player: *first_player,
            },
            GameEvent::EndGame { reason } => GameEvent::EndGame { reason: *reason },
            GameEvent::PlayerJoined { player_id, player_details } => GameEvent::PlayerJoined {
                player_id: *player_id,
                player_details: player_details.clone(),
            },
            GameEvent::PlayerDisconnected { player_id } => GameEvent::PlayerDisconnected {
                player_id: *player_id,
            },
            GameEvent::ShipMove { player_id, at } => GameEvent::ShipMove {
                player_id: *player_id,
                at: *at,
            },
            GameEvent::ShipPlaced { player_id, ship_type, at, rotation } => GameEvent::ShipPlaced {
                player_id: *player_id,
                ship_type: *ship_type,
                at: *at,
                rotation: *rotation,
            },
        }
    }
}

} // verus!
