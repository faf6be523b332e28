//! What holds of the rules in every match.

use vstd::prelude::*;
use crate::event::{GameEvent, GameStage, Player, PlayerId};
use crate::map::CubeCoords;
use crate::rules::{
    first_other_at, initial, lemma_first_other_unique, seeded, ships_left, step, stock, valid,
    well_formed, GameModel,
};
use crate::ships::{roster, ShipType};
use crate::table::{
    distinct, holds, lemma_put_distinct, lemma_put_entry, lemma_put_holds, lemma_without_distinct,
    put,
};

verus! {

/// The state after `events` were consumed one after the other, starting in `s`.
pub open spec fn run(s: GameModel, events: Seq<GameEvent>) -> GameModel
    decreases events.len(),
{
    if events.len() == 0 {
        s
    } else {
        step(run(s, events.drop_last()), events.last())
    }
}

/// Each of `events` is admitted by the state that its predecessors lead to.
pub open spec fn admitted(s: GameModel, events: Seq<GameEvent>) -> bool
    decreases events.len(),
{
    events.len() == 0 || (admitted(s, events.drop_last()) && valid(
        run(s, events.drop_last()),
        events.last(),
    ))
}

/// The state that a history leads to from the start of a match.
pub open spec fn replay(events: Seq<GameEvent>) -> GameModel {
    run(initial(), events)
}

/// `e` places a ship for a player in `players`.
pub open spec fn placed_by(e: GameEvent, players: Seq<(PlayerId, Player)>) -> bool {
    match e {
        GameEvent::ShipPlaced { player_id, .. } => holds(players, player_id),
        _ => false,
    }
}

/// What a player has left after `put`: the new queue for the new owner, and
/// for everybody else what they had.
pub proof fn lemma_stock_put(
    garages: Seq<(PlayerId, Seq<ShipType>)>,
    id: PlayerId,
    queue: Seq<ShipType>,
    other: PlayerId,
)
    ensures
        stock(put(garages, id, queue), other) == (if other == id {
            queue
        } else {
            stock(garages, other)
        }),
{
    lemma_put_holds(garages, id, queue, other);
    if other == id || holds(garages, other) {
        lemma_put_entry(garages, id, queue, other);
    }
}

/// Seeding hands the roster to each of `players`, leaves every other
/// inventory alone and keeps the owners distinct.
pub proof fn lemma_seeded(
    garages: Seq<(PlayerId, Seq<ShipType>)>,
    players: Seq<(PlayerId, Player)>,
    id: PlayerId,
)
    ensures
        stock(seeded(garages, players), id) == (if holds(players, id) {
            roster()
        } else {
            stock(garages, id)
        }),
        distinct(garages) ==> distinct(seeded(garages, players)),
    decreases players.len(),
{
    if players.len() > 0 {
        let rest = players.drop_last();
        let last = players.last().0;
        lemma_seeded(garages, rest, id);
        lemma_stock_put(seeded(garages, rest), last, roster(), id);
        if distinct(garages) {
            lemma_put_distinct(seeded(garages, rest), last, roster());
        }
        if holds(rest, id) {
            let k = choose|k: int| 0 <= k < rest.len() && (#[trigger] rest[k]).0 == id;
            assert(players[k].0 == id);
        }
        if holds(players, id) && id != last {
            let k = choose|k: int| 0 <= k < players.len() && (#[trigger] players[k]).0 == id;
            assert(rest[k].0 == id);
        }
        if id == last {
            assert(players[players.len() - 1].0 == id);
        }
    }
}

/// Replacing one player's queue changes the count by the difference in
/// length, if that player is registered, and not at all otherwise.
pub proof fn lemma_ships_left_put(
    players: Seq<(PlayerId, Player)>,
    garages: Seq<(PlayerId, Seq<ShipType>)>,
    id: PlayerId,
    queue: Seq<ShipType>,
)
    requires
        distinct(players),
    ensures
        ships_left(players, put(garages, id, queue)) == ships_left(players, garages) + (if holds(
            players,
            id,
        ) {
            queue.len() - stock(garages, id).len()
        } else {
            0
        }),
    decreases players.len(),
{
    if players.len() > 0 {
        let rest = players.drop_last();
        let last = players.last().0;
        assert(distinct(rest)) by {
            assert forall|i: int, j: int| 0 <= i < j < rest.len() implies (#[trigger] rest[i]).0
                != (#[trigger] rest[j]).0 by {
                assert(players[i].0 != players[j].0);
            }
        }
        lemma_ships_left_put(rest, garages, id, queue);
        lemma_stock_put(garages, id, queue, last);
        if holds(rest, id) {
            let k = choose|k: int| 0 <= k < rest.len() && (#[trigger] rest[k]).0 == id;
            assert(players[k].0 == id);
            assert(players[k].0 != players[players.len() - 1].0);
        }
        if holds(players, id) && id != last {
            let k = choose|k: int| 0 <= k < players.len() && (#[trigger] players[k]).0 == id;
            assert(rest[k].0 == id);
        }
        if id == last {
            assert(players[players.len() - 1].0 == id);
        }
    }
}

/// A registered player's inventory is part of the count.
pub proof fn lemma_ships_left_covers(
    players: Seq<(PlayerId, Player)>,
    garages: Seq<(PlayerId, Seq<ShipType>)>,
    id: PlayerId,
)
    requires
        holds(players, id),
    ensures
        stock(garages, id).len() <= ships_left(players, garages),
    decreases players.len(),
{
    let rest = players.drop_last();
    if players.last().0 != id {
        let k = choose|k: int| 0 <= k < players.len() && (#[trigger] players[k]).0 == id;
        assert(rest[k].0 == id);
        lemma_ships_left_covers(rest, garages, id);
    }
}

/// Consuming an event keeps the registry and the inventories free of
/// duplicate keys.
pub proof fn law_step_keeps_well_formed(s: GameModel, e: GameEvent)
    requires
        well_formed(s),
    ensures
        well_formed(step(s, e)),
{
    match e {
        GameEvent::BeginGame { first_player } => {
            lemma_seeded(s.garages, s.players, first_player);
        },
        GameEvent::EndGame { .. } => {},
        GameEvent::PlayerJoined { player_id, player_details } => {
            lemma_put_distinct(s.players, player_id, player_details);
        },
        GameEvent::PlayerDisconnected { player_id } => {
            lemma_without_distinct(s.players, player_id);
        },
        GameEvent::ShipMove { .. } => {},
        GameEvent::ShipPlaced { player_id, .. } => {
            lemma_put_distinct(s.garages, player_id, stock(s.garages, player_id).drop_first());
        },
    }
}

/// The history is exactly the events consumed, in the order of consumption.
pub proof fn law_history_records(s: GameModel, events: Seq<GameEvent>)
    ensures
        run(s, events).history == s.history + events,
    decreases events.len(),
{
    if events.len() == 0 {
        assert(s.history + events =~= s.history);
    } else {
        law_history_records(s, events.drop_last());
        assert(s.history + events =~= (s.history + events.drop_last()).push(events.last()));
    }
}

/// Replaying the history of a state that was reached from the start of a
/// match gives that state again.
pub proof fn law_replay_reproduces(events: Seq<GameEvent>)
    ensures
        replay(events).history == events,
        replay(replay(events).history) == replay(events),
        well_formed(replay(events)),
{
    law_history_records(initial(), events);
    assert(initial().history + events =~= events);
    law_run_keeps_well_formed(initial(), events);
}

/// A run of events keeps the registry and the inventories free of duplicate
/// keys.
pub proof fn law_run_keeps_well_formed(s: GameModel, events: Seq<GameEvent>)
    requires
        well_formed(s),
    ensures
        well_formed(run(s, events)),
    decreases events.len(),
{
    if events.len() > 0 {
        law_run_keeps_well_formed(s, events.drop_last());
        law_step_keeps_well_formed(run(s, events.drop_last()), events.last());
    }
}

/// A join is admitted exactly when the identifier is not registered, however
/// many players are; once consumed, the identifier is registered.
pub proof fn law_join_exclusive(s: GameModel, player_id: PlayerId, player_details: Player)
    ensures
        valid(s, GameEvent::PlayerJoined { player_id, player_details }) <==> !holds(
            s.players,
            player_id,
        ),
        holds(step(s, GameEvent::PlayerJoined { player_id, player_details }).players, player_id),
        !holds(s.players, player_id) ==> step(
            s,
            GameEvent::PlayerJoined { player_id, player_details },
        ).players == s.players.push((player_id, player_details)),
{
    lemma_put_holds(s.players, player_id, player_details, player_id);
}

/// A move is admitted exactly when the mover is the current player.
pub proof fn law_turn_ownership(s: GameModel, player_id: PlayerId, at: CubeCoords)
    ensures
        valid(s, GameEvent::ShipMove { player_id, at }) <==> s.cur_player == Some(player_id),
{
}

/// With two players registered, a move by one of them hands the turn to the
/// other.
pub proof fn law_turn_passes(s: GameModel, mover: PlayerId, other: PlayerId, at: CubeCoords)
    requires
        s.players.len() == 2,
        holds(s.players, mover),
        holds(s.players, other),
        other != mover,
        valid(s, GameEvent::ShipMove { player_id: mover, at }),
    ensures
        step(s, GameEvent::ShipMove { player_id: mover, at }).cur_player == Some(other),
{
    let m = choose|k: int| 0 <= k < s.players.len() && (#[trigger] s.players[k]).0 == mover;
    let o = choose|k: int| 0 <= k < s.players.len() && (#[trigger] s.players[k]).0 == other;
    assert(first_other_at(s.players, mover, o)) by {
        if o == 1 {
            assert(m == 0);
        }
    }
    lemma_first_other_unique(s.players, mover, o);
}

/// Beginning a match moves it to placement, gives the first turn to the
/// named player and hands each of the two registered players the whole
/// roster: together they have twice the roster to place.
pub proof fn law_begin_seeds(s: GameModel, first_player: PlayerId)
    requires
        valid(s, GameEvent::BeginGame { first_player }),
    ensures
        step(s, GameEvent::BeginGame { first_player }).stage == GameStage::Placement,
        step(s, GameEvent::BeginGame { first_player }).cur_player == Some(first_player),
        step(s, GameEvent::BeginGame { first_player }).players == s.players,
        forall|id: PlayerId|
            holds(s.players, id) ==> #[trigger] stock(
                step(s, GameEvent::BeginGame { first_player }).garages,
                id,
            ) == roster(),
        forall|id: PlayerId|
            !holds(s.players, id) ==> #[trigger] stock(
                step(s, GameEvent::BeginGame { first_player }).garages,
                id,
            ) == stock(s.garages, id),
        ships_left(s.players, step(s, GameEvent::BeginGame { first_player }).garages) == 2
            * roster().len(),
{
    let after = step(s, GameEvent::BeginGame { first_player });
    assert forall|id: PlayerId| true implies #[trigger] stock(after.garages, id) == (if holds(
        s.players,
        id,
    ) {
        roster()
    } else {
        stock(s.garages, id)
    }) by {
        lemma_seeded(s.garages, s.players, id);
    }
    let one = s.players.drop_last();
    let none = one.drop_last();
    assert(s.players[1].0 == s.players.last().0);
    assert(s.players[0].0 == one.last().0);
    assert(holds(s.players, s.players[1].0));
    assert(holds(s.players, s.players[0].0));
    assert(ships_left(none, after.garages) == 0);
    assert(ships_left(one, after.garages) == roster().len());
}

/// In placement, ships placed by registered players drain the inventories one
/// by one: no more can be placed than are left, each placement lowers the
/// count by one, and the match turns active with the placement that lowers it
/// to zero and with no earlier one.
pub proof fn law_placement_drains(s: GameModel, events: Seq<GameEvent>)
    requires
        well_formed(s),
        s.stage == GameStage::Placement,
        admitted(s, events),
        forall|i: int| 0 <= i < events.len() ==> placed_by(#[trigger] events[i], s.players),
    ensures
        events.len() <= ships_left(s.players, s.garages),
        run(s, events).players == s.players,
        ships_left(s.players, run(s, events).garages) == ships_left(s.players, s.garages)
            - events.len(),
        run(s, events).stage == (if events.len() > 0 && events.len() == ships_left(
            s.players,
            s.garages,
        ) {
            GameStage::Active
        } else {
            GameStage::Placement
        }),
    decreases events.len(),
{
    if events.len() > 0 {
        let before = events.drop_last();
        let e = events.last();
        assert forall|i: int| 0 <= i < before.len() implies placed_by(
            #[trigger] before[i],
            s.players,
        ) by {
            assert(before[i] == events[i]);
        }
        law_placement_drains(s, before);
        law_run_keeps_well_formed(s, before);
        let mid = run(s, before);
        assert(placed_by(events[events.len() - 1], s.players));
        match e {
            GameEvent::ShipPlaced { player_id, .. } => {
                let rest = stock(mid.garages, player_id).drop_first();
                lemma_ships_left_covers(mid.players, mid.garages, player_id);
                lemma_ships_left_put(mid.players, mid.garages, player_id, rest);
            },
            _ => {},
        }
    }
}

/// From the beginning of a match on, as long as only its two players place
/// ships: the match is active after as many placements as both rosters hold
/// together, and in placement after any smaller number; no more than that
/// can be placed.
pub proof fn law_inventory_drain(s: GameModel, first_player: PlayerId, events: Seq<GameEvent>)
    requires
        well_formed(s),
        valid(s, GameEvent::BeginGame { first_player }),
        admitted(step(s, GameEvent::BeginGame { first_player }), events),
        forall|i: int| 0 <= i < events.len() ==> placed_by(#[trigger] events[i], s.players),
    ensures
        events.len() <= 2 * roster().len(),
        run(step(s, GameEvent::BeginGame { first_player }), events).stage == (if events.len() == 2
            * roster().len() {
            GameStage::Active
        } else {
            GameStage::Placement
        }),
{
    let begun = step(s, GameEvent::BeginGame { first_player });
    law_begin_seeds(s, first_player);
    law_step_keeps_well_formed(s, GameEvent::BeginGame { first_player });
    law_placement_drains(begun, events);
}

/// The only changes of stage: a beginning leads to placement, an end to the
/// ended stage, and the placement that empties the registered players'
/// inventories leads from placement to the active stage.
pub proof fn law_stage_transitions(s: GameModel, e: GameEvent)
    requires
        valid(s, e),
        step(s, e).stage != s.stage,
    ensures
        match e {
            GameEvent::BeginGame { .. } => step(s, e).stage == GameStage::Placement,
            GameEvent::EndGame { .. } => step(s, e).stage == GameStage::Ended,
            GameEvent::ShipPlaced { .. } => s.stage == GameStage::Placement && step(s, e).stage
                == GameStage::Active && ships_left(step(s, e).players, step(s, e).garages) == 0,
            _ => false,
        },
{
}

/// Once a match has ended, nothing but a new beginning changes its stage.
pub proof fn law_ended_stays(s: GameModel, e: GameEvent)
    requires
        s.stage == GameStage::Ended,
        valid(s, e),
        !(e is BeginGame),
    ensures
        step(s, e).stage == GameStage::Ended,
{
}

/// Inventories are handed out at the beginning of a match and at no other
/// time: any other event leaves every player with the inventory they had, but
/// for the one ship that a placement takes from the front of the placing
/// player's queue.
pub proof fn law_inventories_change_by_rule(s: GameModel, e: GameEvent, id: PlayerId)
    requires
        valid(s, e),
        !(e is BeginGame),
    ensures
        stock(step(s, e).garages, id) == (match e {
            GameEvent::ShipPlaced { player_id, .. } if player_id == id => stock(
                s.garages,
                id,
            ).drop_first(),
            _ => stock(s.garages, id),
        }),
{
    match e {
        GameEvent::ShipPlaced { player_id, .. } => {
            lemma_stock_put(s.garages, player_id, stock(s.garages, player_id).drop_first(), id);
        },
        _ => {},
    }
}

/// A run that is admitted is admitted up to any point in it.
pub proof fn lemma_admitted_prefix(s: GameModel, events: Seq<GameEvent>, n: int)
    requires
        admitted(s, events),
        0 <= n <= events.len(),
    ensures
        admitted(s, events.take(n)),
    decreases events.len(),
{
    if n < events.len() {
        assert(events.drop_last().take(n) =~= events.take(n));
        lemma_admitted_prefix(s, events.drop_last(), n);
    } else {
        assert(events.take(n) =~= events);
    }
}

} // verus!
