//! Rules engine of a two-player, turn-based ship placement game on a hex grid.
//!
//! A match is one [`GameState`]. A caller proposes a [`GameEvent`], asks
//! [`GameState::validade`] whether the state admits it and, if so, hands it to
//! [`GameState::consume`], which applies it and appends it to the history.

pub mod event;
pub mod laws;
pub mod map;
pub mod rules;
pub mod ships;
pub mod state;
pub mod table;

pub use event::{EndGameReason, GameEvent, GameStage, Player, PlayerId};
pub use map::CubeCoords;
pub use ships::{ShipType, SHIPS};
pub use state::GameState;
