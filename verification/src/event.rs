//! The vocabulary of change: players, stages and the events that move a match
//! forward.

use vstd::prelude::*;
use crate::map::CubeCoords;

verus! {

/// Identifies a participant. Assigned outside this library.
pub type PlayerId = u64;

/// Profile of a participant.
#[derive(Debug, PartialEq, Eq)]
pub struct Player {
    pub name: String,
}

impl Clone for Player {
    fn clone(&self) -> (copy: Self)
        ensures
            copy == *self,
    {
        Player { name: self.name.clone() }
    }
}

/// The coarse phase of a match.
#[derive(Debug, Clone, Copy, PartialEq, Eq, Structural)]
pub enum GameStage {
    Lobby,
    Placement,
    Active,
    Paused,
    Ended,
}

/// Why a match ended.
#[derive(Debug, Clone, Copy, PartialEq, Eq, Structural)]
pub enum EndGameReason {
    PlayerLeft { player_id: PlayerId },
    PlayerWon { winner: PlayerId },
}

/// An event that moves the match forward.
#[derive(Debug, PartialEq, Eq)]
pub enum GameEvent {
    BeginGame { first_player: PlayerId },
    EndGame { reason: EndGameReason },
    PlayerJoined { player_id: PlayerId, player_details: Player },
    PlayerDisconnected { player_id: PlayerId },
    ShipMove { player_id: PlayerId, at: CubeCoords },
    ShipPlaced { player_id: PlayerId, at: CubeCoords, rotation: u32 },
}

impl Clone for GameEvent {
    fn clone(&self) -> (copy: Self)
        ensures
            copy == *self,
    {
        match self {
            GameEvent::BeginGame { first_player } => GameEvent::BeginGame {
                first_player: *first_player,
            },
            GameEvent::EndGame { reason } => GameEvent::EndGame { reason: *reason },
            GameEvent::PlayerJoined { player_id, player_details } => GameEvent::PlayerJoined {
                player_id: *player_id,
                player_details: player_details.clone(),
            },
            GameEvent::PlayerDisconnected { player_id } => GameEvent::PlayerDisconnected {
                player_id: *player_id,
            },
            GameEvent::ShipMove { player_id, at } => GameEvent::ShipMove {
                player_id: *player_id,
                at: *at,
            },
            GameEvent::ShipPlaced { player_id, at, rotation } => GameEvent::ShipPlaced {
                player_id: *player_id,
                at: *at,
                rotation: *rotation,
            },
        }
    }
}

} // verus!
