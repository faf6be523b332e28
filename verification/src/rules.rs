//! The rules of the match as mathematics: what a state is, which events it
//! admits, and the state that an admitted event leads to.

use vstd::prelude::*;
use crate::event::{EndGameReason, GameEvent, GameStage, Player, PlayerId};
use crate::ships::{roster, ShipType};
use crate::table::{distinct, holds, put, slot, without};

verus! {

/// The whole truth of a match.
pub struct GameModel {
    pub stage: GameStage,
    /// The registry, in the order in which the players joined.
    pub players: Seq<(PlayerId, Player)>,
    /// Each inventory with its owner; the front of a queue is the next ship to place.
    pub garages: Seq<(PlayerId, Seq<ShipType>)>,
    /// Every event consumed so far, oldest first.
    pub history: Seq<GameEvent>,
    pub cur_player: Option<PlayerId>,
}

/// The state in which every match starts.
pub open spec fn initial() -> GameModel {
    GameModel {
        stage: GameStage::Lobby,
        players: Seq::empty(),
        garages: Seq::empty(),
        history: Seq::empty(),
        cur_player: None,
    }
}

/// No player is registered twice and no player owns two inventories.
pub open spec fn well_formed(s: GameModel) -> bool {
    distinct(s.players) && distinct(s.garages)
}

/// The ships that `id` has yet to place; empty where `id` owns no inventory.
pub open spec fn stock(garages: Seq<(PlayerId, Seq<ShipType>)>, id: PlayerId) -> Seq<ShipType> {
    if holds(garages, id) {
        garages[slot(garages, id)].1
    } else {
        Seq::empty()
    }
}

/// How many ships the registered players have yet to place, all together.
pub open spec fn ships_left(
    players: Seq<(PlayerId, Player)>,
    garages: Seq<(PlayerId, Seq<ShipType>)>,
) -> nat
    decreases players.len(),
{
    if players.len() == 0 {
        0
    } else {
        ships_left(players.drop_last(), garages) + stock(garages, players.last().0).len()
    }
}

/// The inventories after each of `players` was handed a full roster.
pub open spec fn seeded(
    garages: Seq<(PlayerId, Seq<ShipType>)>,
    players: Seq<(PlayerId, Player)>,
) -> Seq<(PlayerId, Seq<ShipType>)>
    decreases players.len(),
{
    if players.len() == 0 {
        garages
    } else {
        put(seeded(garages, players.drop_last()), players.last().0, roster())
    }
}

/// `i` is the seat of the first registered player other than `cur`.
pub open spec fn first_other_at(players: Seq<(PlayerId, Player)>, cur: PlayerId, i: int) -> bool {
    &&& 0 <= i < players.len()
    &&& players[i].0 != cur
    &&& forall|j: int| 0 <= j < i ==> (#[trigger] players[j]).0 == cur
}

/// The first registered player, in joining order, who is not `cur`.
pub open spec fn first_other(players: Seq<(PlayerId, Player)>, cur: PlayerId) -> Option<PlayerId> {
    if exists|i: int| first_other_at(players, cur, i) {
        Some(players[choose|i: int| first_other_at(players, cur, i)].0)
    } else {
        None
    }
}

/// A first seat of another player pins `first_other`.
pub proof fn lemma_first_other_unique(players: Seq<(PlayerId, Player)>, cur: PlayerId, i: int)
    requires
        first_other_at(players, cur, i),
    ensures
        first_other(players, cur) == Some(players[i].0),
{
    let k = choose|k: int| first_other_at(players, cur, k);
    assert(first_other_at(players, cur, k));
    if k < i {
        assert(players[k].0 == cur);
    }
    if i < k {
        assert(players[i].0 == cur);
    }
}

/// Who acts after the current player; nobody where no current player is set.
pub open spec fn next_player(s: GameModel) -> Option<PlayerId> {
    match s.cur_player {
        Some(cur) => first_other(s.players, cur),
        None => None,
    }
}

/// The validation gate: whether `s` admits `e`.
pub open spec fn valid(s: GameModel, e: GameEvent) -> bool {
    match e {
        GameEvent::BeginGame { first_player } => holds(s.players, first_player) && s.players.len()
            == 2,
        GameEvent::EndGame { reason } => match reason {
            EndGameReason::PlayerWon { .. } => s.stage == GameStage::Active,
            EndGameReason::PlayerLeft { .. } => true,
        },
        GameEvent::PlayerJoined { player_id, .. } => !holds(s.players, player_id),
        GameEvent::PlayerDisconnected { player_id } => holds(s.players, player_id),
        GameEvent::ShipMove { player_id, .. } => s.cur_player == Some(player_id),
        GameEvent::ShipPlaced { player_id, .. } => s.stage == GameStage::Placement && stock(
            s.garages,
            player_id,
        ).len() > 0,
    }
}

/// What `e` does to everything but the history.
pub open spec fn effect(s: GameModel, e: GameEvent) -> GameModel {
    match e {
        GameEvent::BeginGame { first_player } => GameModel {
            stage: GameStage::Placement,
            garages: seeded(s.garages, s.players),
            cur_player: Some(first_player),
            ..s
        },
        GameEvent::EndGame { .. } => GameModel { stage: GameStage::Ended, ..s },
        GameEvent::PlayerJoined { player_id, player_details } => GameModel {
            players: put(s.players, player_id, player_details),
            ..s
        },
        GameEvent::PlayerDisconnected { player_id } => GameModel {
            players: without(s.players, player_id),
            ..s
        },
        GameEvent::ShipMove { .. } => GameModel { cur_player: next_player(s), ..s },
        GameEvent::ShipPlaced { player_id, .. } => {
            let garages = put(s.garages, player_id, stock(s.garages, player_id).drop_first());
            GameModel {
                stage: if ships_left(s.players, garages) == 0 {
                    GameStage::Active
                } else {
                    s.stage
                },
                garages,
                ..s
            }
        },
    }
}

/// The state after `e` was consumed: its effect, and `e` appended to the history.
pub open spec fn step(s: GameModel, e: GameEvent) -> GameModel {
    GameModel { history: s.history.push(e), ..effect(s, e) }
}

} // verus!
