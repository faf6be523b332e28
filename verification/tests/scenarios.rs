use std::collections::VecDeque;

use store::{CubeCoords, EndGameReason, GameEvent, GameStage, GameState, Player, ShipType, SHIPS};

const ADA: u64 = 11;
const BOB: u64 = 22;
const CYD: u64 = 33;

fn origin() -> CubeCoords {
    CubeCoords { q: 0, r: 0, s: 0 }
}

fn join(id: u64, name: &str) -> GameEvent {
    GameEvent::PlayerJoined { player_id: id, player_details: Player { name: name.to_string() } }
}

fn place(id: u64) -> GameEvent {
    GameEvent::ShipPlaced { player_id: id, at: origin(), rotation: 0 }
}

fn step(state: &mut GameState, event: GameEvent) {
    assert!(state.validade(&event));
    state.consume(&event);
}

fn lobby_of_two() -> GameState {
    let mut state = GameState::default();
    step(&mut state, join(ADA, "ada"));
    step(&mut state, join(BOB, "bob"));
    state
}

fn placement() -> GameState {
    let mut state = lobby_of_two();
    step(&mut state, GameEvent::BeginGame { first_player: ADA });
    state
}

fn active() -> GameState {
    let mut state = placement();
    for _ in 0..SHIPS.len() {
        step(&mut state, place(ADA));
        step(&mut state, place(BOB));
    }
    state
}

fn roster() -> VecDeque<ShipType> {
    SHIPS.iter().copied().collect()
}

#[test]
fn default_state_is_an_empty_lobby() {
    let state = GameState::default();
    assert_eq!(state.stage, GameStage::Lobby);
    assert!(state.players.is_empty());
    assert!(state.players_garage.is_empty());
    assert!(state.history.is_empty());
    assert_eq!(state.cur_player, None);
}

#[test]
fn two_players_join_and_begin() {
    let mut state = GameState::default();
    let first = join(ADA, "ada");
    assert!(state.validade(&first));
    state.consume(&first);
    let second = join(BOB, "bob");
    assert!(state.validade(&second));
    state.consume(&second);
    let begin = GameEvent::BeginGame { first_player: ADA };
    assert!(state.validade(&begin));
    state.consume(&begin);
    assert_eq!(state.stage, GameStage::Placement);
    assert_eq!(state.cur_player, Some(ADA));
    assert_eq!(state.players_garage, vec![(ADA, roster()), (BOB, roster())]);
    assert_eq!(state.history, vec![first, second, begin]);
}

#[test]
fn move_out_of_turn_is_rejected() {
    let mut state = active();
    assert_eq!(state.cur_player, Some(ADA));
    assert!(!state.validade(&GameEvent::ShipMove { player_id: BOB, at: origin() }));
    let mine = GameEvent::ShipMove { player_id: ADA, at: CubeCoords { q: 1, r: -1, s: 0 } };
    assert!(state.validade(&mine));
    state.consume(&mine);
    assert_eq!(state.cur_player, Some(BOB));
    assert!(!state.validade(&mine));
    step(&mut state, GameEvent::ShipMove { player_id: BOB, at: origin() });
    assert_eq!(state.cur_player, Some(ADA));
}

#[test]
fn begin_with_one_player_is_rejected() {
    let mut state = GameState::default();
    step(&mut state, join(ADA, "ada"));
    let before = state.clone();
    assert!(!state.validade(&GameEvent::BeginGame { first_player: ADA }));
    assert_eq!(state, before);
    assert_eq!(state.stage, GameStage::Lobby);
}

#[test]
fn begin_needs_a_registered_first_player_and_exactly_two() {
    let mut state = lobby_of_two();
    assert!(!state.validade(&GameEvent::BeginGame { first_player: CYD }));
    assert!(state.validade(&GameEvent::BeginGame { first_player: BOB }));
    step(&mut state, join(CYD, "cyd"));
    assert!(!state.validade(&GameEvent::BeginGame { first_player: ADA }));
    assert!(!GameState::default().validade(&GameEvent::BeginGame { first_player: ADA }));
}

#[test]
fn join_is_exclusive_and_uncapped() {
    let mut state = lobby_of_two();
    assert!(!state.validade(&join(ADA, "ada")));
    assert!(!state.validade(&join(BOB, "someone else")));
    assert!(state.validade(&join(CYD, "cyd")));
    state.consume(&join(CYD, "cyd"));
    assert_eq!(state.players.len(), 3);
    assert_eq!(state.players[2], (CYD, Player { name: "cyd".to_string() }));
    assert!(state.validade(&join(44, "dee")));
}

#[test]
fn disconnect_removes_only_the_profile() {
    let mut state = placement();
    assert!(!state.validade(&GameEvent::PlayerDisconnected { player_id: CYD }));
    let leave = GameEvent::PlayerDisconnected { player_id: ADA };
    assert!(state.validade(&leave));
    state.consume(&leave);
    assert_eq!(state.players, vec![(BOB, Player { name: "bob".to_string() })]);
    assert_eq!(state.cur_player, Some(ADA));
    assert_eq!(state.players_garage, vec![(ADA, roster()), (BOB, roster())]);
    assert!(!state.validade(&leave));
    assert!(state.validade(&join(ADA, "ada again")));
}

#[test]
fn rejoin_takes_the_last_seat() {
    let mut state = lobby_of_two();
    step(&mut state, GameEvent::PlayerDisconnected { player_id: ADA });
    step(&mut state, join(ADA, "ada again"));
    assert_eq!(
        state.players,
        vec![
            (BOB, Player { name: "bob".to_string() }),
            (ADA, Player { name: "ada again".to_string() }),
        ]
    );
}

#[test]
fn placement_takes_ships_from_the_front() {
    let mut state = placement();
    step(&mut state, place(BOB));
    let mut rest = roster();
    assert_eq!(rest.pop_front(), Some(SHIPS[0]));
    assert_eq!(state.players_garage, vec![(ADA, roster()), (BOB, rest.clone())]);
    step(&mut state, place(BOB));
    assert_eq!(rest.pop_front(), Some(SHIPS[1]));
    assert_eq!(state.players_garage, vec![(ADA, roster()), (BOB, rest)]);
    assert_eq!(state.ships_in_garage(ADA), 5);
    assert_eq!(state.ships_in_garage(BOB), 3);
    assert_eq!(state.ships_in_garage(CYD), 0);
    assert_eq!(state.stage, GameStage::Placement);
}

#[test]
fn placement_is_gated_by_stage_and_inventory() {
    let lobby = lobby_of_two();
    assert!(!lobby.validade(&place(ADA)));
    let mut state = placement();
    assert!(!state.validade(&place(CYD)));
    step(&mut state, join(CYD, "cyd"));
    assert!(!state.validade(&place(CYD)));
    for _ in 0..SHIPS.len() {
        step(&mut state, place(ADA));
    }
    assert!(!state.validade(&place(ADA)));
    assert!(state.validade(&place(BOB)));
    assert!(!active().validade(&place(ADA)));
}

#[test]
fn last_placement_makes_the_match_active() {
    let mut state = placement();
    let total = 2 * SHIPS.len();
    assert_eq!(total, 10);
    for n in 1..=total {
        assert!(!state.all_placed());
        let who = if n % 2 == 0 { BOB } else { ADA };
        step(&mut state, place(who));
        if n < total {
            assert_eq!(state.stage, GameStage::Placement);
        }
    }
    assert_eq!(state.stage, GameStage::Active);
    assert!(state.all_placed());
    assert!(!state.validade(&place(ADA)));
    assert!(!state.validade(&place(BOB)));
}

#[test]
fn one_player_may_place_before_the_other() {
    let mut state = placement();
    for _ in 0..SHIPS.len() {
        step(&mut state, place(BOB));
    }
    assert_eq!(state.stage, GameStage::Placement);
    for _ in 0..SHIPS.len() - 1 {
        step(&mut state, place(ADA));
    }
    assert_eq!(state.stage, GameStage::Placement);
    step(&mut state, place(ADA));
    assert_eq!(state.stage, GameStage::Active);
}

#[test]
fn late_joiner_has_no_inventory_and_does_not_block() {
    let mut state = placement();
    step(&mut state, join(CYD, "cyd"));
    assert_eq!(state.players_garage.len(), 2);
    for _ in 0..SHIPS.len() {
        step(&mut state, place(ADA));
        step(&mut state, place(BOB));
    }
    assert_eq!(state.stage, GameStage::Active);
}

#[test]
fn end_game_by_win_needs_an_active_match() {
    let won = GameEvent::EndGame { reason: EndGameReason::PlayerWon { winner: ADA } };
    assert!(!GameState::default().validade(&won));
    assert!(!placement().validade(&won));
    let mut state = active();
    assert!(state.validade(&won));
    state.consume(&won);
    assert_eq!(state.stage, GameStage::Ended);
    assert!(!state.validade(&won));
    assert_eq!(state.history.last(), Some(&won));
}

#[test]
fn end_game_by_leaving_is_always_accepted() {
    let left = GameEvent::EndGame { reason: EndGameReason::PlayerLeft { player_id: BOB } };
    for mut state in [GameState::default(), lobby_of_two(), placement(), active()] {
        assert!(state.validade(&left));
        state.consume(&left);
        assert_eq!(state.stage, GameStage::Ended);
        assert!(state.validade(&left));
    }
}

#[test]
fn begin_again_reseeds_the_inventories() {
    let mut state = placement();
    step(&mut state, place(ADA));
    step(&mut state, place(ADA));
    step(&mut state, GameEvent::BeginGame { first_player: BOB });
    assert_eq!(state.stage, GameStage::Placement);
    assert_eq!(state.cur_player, Some(BOB));
    assert_eq!(state.players_garage, vec![(ADA, roster()), (BOB, roster())]);
}

#[test]
fn next_player_is_the_first_other_seat() {
    let mut state = GameState::default();
    assert_eq!(state.next_player(), None);
    step(&mut state, join(BOB, "bob"));
    step(&mut state, join(ADA, "ada"));
    assert_eq!(state.next_player(), None);
    state.cur_player = Some(ADA);
    assert_eq!(state.next_player(), Some(BOB));
    state.cur_player = Some(BOB);
    assert_eq!(state.next_player(), Some(ADA));
    step(&mut state, join(CYD, "cyd"));
    assert_eq!(state.next_player(), Some(ADA));
    state.cur_player = Some(CYD);
    assert_eq!(state.next_player(), Some(BOB));
    state.cur_player = Some(99);
    assert_eq!(state.next_player(), Some(BOB));
}

#[test]
fn move_with_a_lone_player_leaves_nobody_to_act() {
    let mut state = active();
    step(&mut state, GameEvent::PlayerDisconnected { player_id: BOB });
    step(&mut state, GameEvent::ShipMove { player_id: ADA, at: origin() });
    assert_eq!(state.cur_player, None);
    assert!(!state.validade(&GameEvent::ShipMove { player_id: ADA, at: origin() }));
}

#[test]
fn is_player_turn_follows_the_current_player() {
    let mut state = lobby_of_two();
    assert!(!state.is_player_turn(&ADA));
    step(&mut state, GameEvent::BeginGame { first_player: BOB });
    assert!(state.is_player_turn(&BOB));
    assert!(!state.is_player_turn(&ADA));
    assert!(state.is_registered(ADA));
    assert!(!state.is_registered(CYD));
}

#[test]
fn history_keeps_every_event_in_order() {
    let events = vec![
        join(ADA, "ada"),
        join(BOB, "bob"),
        GameEvent::BeginGame { first_player: ADA },
        place(ADA),
        GameEvent::ShipPlaced { player_id: BOB, at: CubeCoords { q: 2, r: -3, s: 1 }, rotation: 4 },
        GameEvent::EndGame { reason: EndGameReason::PlayerLeft { player_id: ADA } },
    ];
    let mut state = GameState::default();
    for (n, event) in events.iter().enumerate() {
        assert!(state.validade(event));
        state.consume(event);
        assert_eq!(state.history.len(), n + 1);
        assert_eq!(state.history[..], events[..n + 1]);
    }
}

#[test]
fn replay_reproduces_the_state() {
    let mut state = active();
    step(&mut state, GameEvent::ShipMove { player_id: ADA, at: origin() });
    step(&mut state, join(CYD, "cyd"));
    step(&mut state, GameEvent::PlayerDisconnected { player_id: ADA });
    step(&mut state, GameEvent::EndGame { reason: EndGameReason::PlayerWon { winner: BOB } });
    let rebuilt = GameState::replay(&state.history);
    assert_eq!(rebuilt, Some(state.clone()));
    assert_eq!(GameState::replay(&state.history), rebuilt);
    assert_eq!(GameState::replay(&Vec::new()), Some(GameState::default()));
}

#[test]
fn replay_refuses_a_history_that_the_gate_refuses() {
    assert_eq!(GameState::replay(&vec![join(ADA, "ada"), join(ADA, "ada")]), None);
    assert_eq!(GameState::replay(&vec![GameEvent::BeginGame { first_player: ADA }]), None);
    assert_eq!(
        GameState::replay(&vec![
            join(ADA, "ada"),
            join(BOB, "bob"),
            GameEvent::BeginGame { first_player: ADA },
            GameEvent::ShipMove { player_id: BOB, at: origin() },
        ]),
        None
    );
}

#[test]
fn every_admitted_event_is_consumed() {
    let candidates = |who: u64| {
        vec![
            join(who, "any"),
            GameEvent::PlayerDisconnected { player_id: who },
            GameEvent::BeginGame { first_player: who },
            place(who),
            GameEvent::ShipMove { player_id: who, at: origin() },
            GameEvent::EndGame { reason: EndGameReason::PlayerWon { winner: who } },
            GameEvent::EndGame { reason: EndGameReason::PlayerLeft { player_id: who } },
        ]
    };
    let mut late = placement();
    step(&mut late, join(CYD, "cyd"));
    let mut stale = placement();
    step(&mut stale, GameEvent::PlayerDisconnected { player_id: ADA });
    for state in [GameState::default(), lobby_of_two(), placement(), active(), late, stale] {
        for who in [ADA, BOB, CYD] {
            for event in candidates(who) {
                if state.validade(&event) {
                    let mut next = state.clone();
                    next.consume(&event);
                    assert_eq!(next.history.len(), state.history.len() + 1);
                    assert_eq!(next.history.last(), Some(&event));
                }
            }
        }
    }
}
