//! One match: what it holds, the test that admits an event and the step that
//! applies it.

use vstd::prelude::*;
use std::collections::VecDeque;
use crate::event::{EndGameReason, GameEvent, GameStage, Player, PlayerId};
use crate::laws::{admitted, law_step_keeps_well_formed, lemma_admitted_prefix, replay, run};
use crate::rules::{
    first_other, first_other_at, initial, lemma_first_other_unique, next_player, seeded,
    ships_left, step, stock, valid, well_formed, GameModel,
};
use crate::ships::{full_garage, ShipType};
use crate::table::{
    find, first_at, holds, insert, lemma_slot_found, lemma_slot_unique, put, remove, slot,
};

verus! {

/// The state of one match. `players` keeps the order in which the players
/// joined; `players_garage` holds each inventory with its owner.
#[derive(Debug, PartialEq)]
pub struct GameState {
    pub stage: GameStage,
    pub players: Vec<(PlayerId, Player)>,
    pub players_garage: Vec<(PlayerId, VecDeque<ShipType>)>,
    pub history: Vec<GameEvent>,
    pub cur_player: Option<PlayerId>,
}

/// The inventories as plain sequences.
pub open spec fn garages_view(raw: Seq<(PlayerId, VecDeque<ShipType>)>) -> Seq<
    (PlayerId, Seq<ShipType>),
> {
    Seq::new(raw.len(), |i: int| (raw[i].0, raw[i].1@))
}

impl View for GameState {
    type V = GameModel;

    open spec fn view(&self) -> GameModel {
        GameModel {
            stage: self.stage,
            players: self.players@,
            garages: garages_view(self.players_garage@),
            history: self.history@,
            cur_player: self.cur_player,
        }
    }
}

impl Clone for GameState {
    /// A second state that holds the same as this one.
    fn clone(&self) -> (copy: Self)
        ensures
            copy@ == self@,
    {
        let mut players: Vec<(PlayerId, Player)> = Vec::new();
        let mut i: usize = 0;
        while i < self.players.len()
            invariant
                i <= self.players@.len(),
                players@ == self.players@.take(i as int),
            decreases self.players@.len() - i,
        {
            players.push((self.players[i].0, self.players[i].1.clone()));
            proof {
                assert(players@ =~= self.players@.take(i + 1));
            }
            i += 1;
        }
        let mut players_garage: Vec<(PlayerId, VecDeque<ShipType>)> = Vec::new();
        let mut g: usize = 0;
        while g < self.players_garage.len()
            invariant
                g <= self.players_garage@.len(),
                players_garage@.len() == g,
                garages_view(players_garage@) == garages_view(self.players_garage@).take(g as int),
            decreases self.players_garage@.len() - g,
        {
            let queue = copy_queue(&self.players_garage[g].1);
            let ghost before = players_garage@;
            players_garage.push((self.players_garage[g].0, queue));
            proof {
                let wanted = garages_view(self.players_garage@).take(g + 1);
                assert forall|k: int| 0 <= k < g + 1 implies garages_view(players_garage@)[k]
                    == wanted[k] by {
                    if k < g {
                        assert(garages_view(before)[k] == wanted[k]);
                    }
                }
                assert(garages_view(players_garage@) =~= wanted);
            }
            g += 1;
        }
        let mut history: Vec<GameEvent> = Vec::new();
        let mut h: usize = 0;
        while h < self.history.len()
            invariant
                h <= self.history@.len(),
                history@ == self.history@.take(h as int),
            decreases self.history@.len() - h,
        {
            history.push(self.history[h].clone());
            proof {
                assert(history@ =~= self.history@.take(h + 1));
            }
            h += 1;
        }
        proof {
            assert(self.players@.take(i as int) =~= self.players@);
            assert(garages_view(self.players_garage@).take(g as int) =~= garages_view(
                self.players_garage@,
            ));
            assert(self.history@.take(h as int) =~= self.history@);
        }
        GameState { stage: self.stage, players, players_garage, history, cur_player: self.cur_player }
    }
}

/// A second queue with the same ships in the same order.
fn copy_queue(queue: &VecDeque<ShipType>) -> (copy: VecDeque<ShipType>)
    ensures
        copy@ == queue@,
{
    let mut copy: VecDeque<ShipType> = VecDeque::new();
    let mut i: usize = 0;
    while i < queue.len()
        invariant
            i <= queue@.len(),
            copy@ == queue@.take(i as int),
        decreases queue@.len() - i,
    {
        copy.push_back(queue[i]);
        proof {
            assert(copy@ =~= queue@.take(i + 1));
        }
        i += 1;
    }
    proof {
        assert(queue@.take(i as int) =~= queue@);
    }
    copy
}

impl Default for GameState {
    /// A match before anything happened: in the lobby, with nobody registered.
    fn default() -> (state: Self)
        ensures
            state@ == initial(),
    {
        let state = GameState {
            stage: GameStage::Lobby,
            players: Vec::new(),
            players_garage: Vec::new(),
            history: Vec::new(),
            cur_player: None,
        };
        assert(state@.garages =~= Seq::empty());
        state
    }
}

impl GameState {
    /// Whether `player_id` is registered.
    pub fn is_registered(&self, player_id: PlayerId) -> (found: bool)
        ensures
            found == holds(self@.players, player_id),
    {
        find(&self.players, player_id).is_some()
    }

    /// How many ships `player_id` has yet to place; 0 without an inventory.
    pub fn ships_in_garage(&self, player_id: PlayerId) -> (count: usize)
        ensures
            count == stock(self@.garages, player_id).len(),
    {
        let ghost garages = self@.garages;
        match find(&self.players_garage, player_id) {
            Some(i) => {
                proof {
                    assert(first_at(garages, player_id, i as int)) by {
                        assert forall|j: int| 0 <= j < i implies (#[trigger] garages[j]).0
                            != player_id by {
                            assert(self.players_garage@[j].0 != player_id);
                        }
                    }
                    lemma_slot_unique(garages, player_id, i as int);
                }
                self.players_garage[i].1.len()
            },
            None => {
                proof {
                    if holds(garages, player_id) {
                        let k = choose|k: int|
                            0 <= k < garages.len() && (#[trigger] garages[k]).0 == player_id;
                        assert(self.players_garage@[k].0 == player_id);
                    }
                }
                0
            },
        }
    }

    /// Whether it is `player_id`'s turn.
    pub fn is_player_turn(&self, player_id: &PlayerId) -> (mine: bool)
        ensures
            mine == (self@.cur_player == Some(*player_id)),
    {
        match self.cur_player {
            Some(p) => *player_id == p,
            None => false,
        }
    }

    /// Who acts after the current player: the first registered player, in
    /// joining order, who is not the current one.
    pub fn next_player(&self) -> (next: Option<PlayerId>)
        ensures
            next == next_player(self@),
    {
        match self.cur_player {
            Some(cur) => {
                let mut i: usize = 0;
                while i < self.players.len()
                    invariant
                        self.cur_player == Some(cur),
                        i <= self.players@.len(),
                        forall|j: int| 0 <= j < i ==> (#[trigger] self.players@[j]).0 == cur,
                    decreases self.players@.len() - i,
                {
                    let id = self.players[i].0;
                    if id != cur {
                        proof {
                            lemma_first_other_unique(self.players@, cur, i as int);
                        }
                        return Some(id);
                    }
                    i += 1;
                }
                assert(first_other(self.players@, cur) is None) by {
                    if exists|k: int| first_other_at(self.players@, cur, k) {
                        let k = choose|k: int| first_other_at(self.players@, cur, k);
                        assert(self.players@[k].0 == cur);
                    }
                }
                None
            },
            None => None,
        }
    }

    /// Hands every registered player a full roster, over any inventory that
    /// the player had.
    fn seed_garages(&mut self)
        ensures
            final(self)@ == (GameModel {
                garages: seeded(old(self)@.garages, old(self)@.players),
                ..old(self)@
            }),
    {
        let ghost start = self@;
        let mut i: usize = 0;
        while i < self.players.len()
            invariant
                i <= self.players@.len(),
                self@ == (GameModel {
                    garages: seeded(start.garages, start.players.take(i as int)),
                    ..start
                }),
            decreases self.players@.len() - i,
        {
            let id = self.players[i].0;
            let queue = full_garage();
            let ghost before = self.players_garage@;
            insert(&mut self.players_garage, id, queue);
            proof {
                lemma_view_put(before, id, queue);
                assert(start.players.take(i + 1).drop_last() =~= start.players.take(i as int));
            }
            i += 1;
        }
        proof {
            assert(start.players.take(i as int) =~= start.players);
        }
    }

    /// Takes the next ship out of `player_id`'s inventory.
    fn take_ship(&mut self, player_id: PlayerId)
        requires
            stock(old(self)@.garages, player_id).len() > 0,
        ensures
            final(self)@ == (GameModel {
                garages: put(
                    old(self)@.garages,
                    player_id,
                    stock(old(self)@.garages, player_id).drop_first(),
                ),
                ..old(self)@
            }),
    {
        let ghost before = self.players_garage@;
        proof {
            lemma_view_slot(before, player_id);
        }
        match find(&self.players_garage, player_id) {
            Some(i) => {
                let _ = self.players_garage[i].1.pop_front();
                proof {
                    let after = self.players_garage@;
                    assert(garages_view(after) =~= garages_view(before).update(
                        i as int,
                        (player_id, garages_view(before)[i as int].1.drop_first()),
                    ));
                }
            },
            None => {},
        }
    }

    /// Whether the registered players have no ship left to place.
    pub fn all_placed(&self) -> (done: bool)
        ensures
            done == (ships_left(self@.players, self@.garages) == 0),
    {
        let mut i: usize = 0;
        while i < self.players.len()
            invariant
                i <= self.players@.len(),
                ships_left(self.players@.take(i as int), self@.garages) == 0,
            decreases self.players@.len() - i,
        {
            proof {
                assert(self.players@.take(i + 1).drop_last() =~= self.players@.take(i as int));
            }
            if self.ships_in_garage(self.players[i].0) > 0 {
                proof {
                    lemma_ships_left_grows(self.players@, self@.garages, i + 1);
                }
                return false;
            }
            i += 1;
        }
        proof {
            assert(self.players@.take(i as int) =~= self.players@);
        }
        true
    }

    /// Applies an event that `validade` accepted in this very state, and
    /// appends it to the history.
    pub fn consume(&mut self, valid_event: &GameEvent)
        requires
            valid(old(self)@, *valid_event),
        ensures
            final(self)@ == step(old(self)@, *valid_event),
            well_formed(old(self)@) ==> well_formed(final(self)@),
    {
        proof {
            if well_formed(self@) {
                law_step_keeps_well_formed(self@, *valid_event);
            }
        }
        match valid_event {
            GameEvent::BeginGame { first_player } => {
                self.cur_player = Some(*first_player);
                self.seed_garages();
                self.stage = GameStage::Placement;
            },
            GameEvent::EndGame { .. } => {
                self.stage = GameStage::Ended;
            },
            GameEvent::PlayerJoined { player_id, player_details } => {
                insert(&mut self.players, *player_id, player_details.clone());
            },
            GameEvent::PlayerDisconnected { player_id } => {
                remove(&mut self.players, *player_id);
            },
            GameEvent::ShipMove { .. } => {
                self.cur_player = self.next_player();
            },
            GameEvent::ShipPlaced { player_id, .. } => {
                self.take_ship(*player_id);
                if self.all_placed() {
                    self.stage = GameStage::Active;
                }
            },
        }
        self.history.push(valid_event.clone());
    }

    /// Starts a match and consumes `events` in order, each after `validade`
    /// admitted it. `None` where one of them is refused.
    pub fn replay(events: &Vec<GameEvent>) -> (rebuilt: Option<GameState>)
        ensures
            match rebuilt {
                Some(state) => admitted(initial(), events@) && state@ == replay(events@),
                None => !admitted(initial(), events@),
            },
    {
        let mut state = GameState::default();
        let mut i: usize = 0;
        while i < events.len()
            invariant
                i <= events@.len(),
                admitted(initial(), events@.take(i as int)),
                state@ == run(initial(), events@.take(i as int)),
            decreases events@.len() - i,
        {
            proof {
                assert(events@.take(i + 1).drop_last() =~= events@.take(i as int));
            }
            if !state.validade(&events[i]) {
                proof {
                    if admitted(initial(), events@) {
                        lemma_admitted_prefix(initial(), events@, i + 1);
                    }
                }
                return None;
            }
            state.consume(&events[i]);
            i += 1;
        }
        proof {
            assert(events@.take(i as int) =~= events@);
        }
        Some(state)
    }

    /// Determines whether `event` is legal in this state.
    pub fn validade(&self, event: &GameEvent) -> (ok: bool)
        ensures
            ok == valid(self@, *event),
    {
        match event {
            GameEvent::BeginGame { first_player } => {
                self.is_registered(*first_player) && self.players.len() == 2
            },
            GameEvent::EndGame { reason } => match reason {
                EndGameReason::PlayerWon { .. } => self.stage == GameStage::Active,
                EndGameReason::PlayerLeft { .. } => true,
            },
            GameEvent::PlayerJoined { player_id, .. } => !self.is_registered(*player_id),
            GameEvent::PlayerDisconnected { player_id } => self.is_registered(*player_id),
            GameEvent::ShipMove { player_id, .. } => self.is_player_turn(player_id),
            GameEvent::ShipPlaced { player_id, .. } => {
                self.stage == GameStage::Placement && self.ships_in_garage(*player_id) > 0
            },
        }
    }
}

/// The first entry for a key stands at the same place in the inventories and
/// in their plain form.
pub proof fn lemma_view_slot(raw: Seq<(PlayerId, VecDeque<ShipType>)>, id: PlayerId)
    ensures
        holds(garages_view(raw), id) == holds(raw, id),
        holds(raw, id) ==> slot(garages_view(raw), id) == slot(raw, id),
{
    let plain = garages_view(raw);
    if holds(raw, id) {
        lemma_slot_found(raw, id);
        let i = slot(raw, id);
        assert(first_at(plain, id, i)) by {
            assert forall|j: int| 0 <= j < i implies (#[trigger] plain[j]).0 != id by {
                assert(raw[j].0 != id);
            }
        }
        lemma_slot_unique(plain, id, i);
    } else if holds(plain, id) {
        let k = choose|k: int| 0 <= k < plain.len() && (#[trigger] plain[k]).0 == id;
        assert(raw[k].0 == id);
    }
}

/// Storing a queue and then reading the inventories plainly is storing the
/// queue's contents in their plain form.
pub proof fn lemma_view_put(
    raw: Seq<(PlayerId, VecDeque<ShipType>)>,
    id: PlayerId,
    queue: VecDeque<ShipType>,
)
    ensures
        garages_view(put(raw, id, queue)) == put(garages_view(raw), id, queue@),
{
    lemma_view_slot(raw, id);
    if holds(raw, id) {
        lemma_slot_found(raw, id);
    }
    assert(garages_view(put(raw, id, queue)) =~= put(garages_view(raw), id, queue@));
}

/// The count over a prefix of the registry is at most the count over a longer one.
pub proof fn lemma_ships_left_grows(
    players: Seq<(PlayerId, Player)>,
    garages: Seq<(PlayerId, Seq<ShipType>)>,
    n: int,
)
    requires
        0 <= n <= players.len(),
    ensures
        ships_left(players.take(n), garages) <= ships_left(players, garages),
    decreases players.len(),
{
    if n < players.len() {
        assert(players.drop_last().take(n) =~= players.take(n));
        lemma_ships_left_grows(players.drop_last(), garages, n);
    } else {
        assert(players.take(n) =~= players);
    }
}

} // verus!
