use store::coords::CubeCoords;
use store::events::{EndGameReason, GameEvent, GameStage, Player};
use store::game_objects::{GameObject, ROSTER_SIZE, SHIPS};
use store::state::GameState;

fn joined(player_id: u64, name: &str) -> GameEvent {
    GameEvent::PlayerJoined { player_id, player_details: Player { name: name.to_string() } }
}

fn placed(player_id: u64, n: usize) -> GameEvent {
    GameEvent::ShipPlaced {
        player_id,
        ship_type: SHIPS[n % SHIPS.len()],
        at: CubeCoords { q: n as i32, r: player_id as i32, s: -(n as i32) - player_id as i32 },
        rotation: n as i32,
    }
}

fn moved(player_id: u64) -> GameEvent {
    GameEvent::ShipMove { player_id, at: CubeCoords { q: 1, r: -1, s: 0 } }
}

/// Consumes an event, and fails the test unless the state accepts it first.
fn apply(state: &mut GameState, event: GameEvent) {
    assert!(state.validade(&event), "rejected: {:?}", event);
    state.consume(&event);
}

fn lobby_of_two() -> GameState {
    let mut state = GameState::default();
    apply(&mut state, joined(1, "ann"));
    apply(&mut state, joined(2, "bob"));
    state
}

fn board_set_up() -> GameState {
    let mut state = lobby_of_two();
    apply(&mut state, GameEvent::SetupBoard);
    state
}

fn all_placed() -> GameState {
    let mut state = board_set_up();
    for n in 0..ROSTER_SIZE {
        apply(&mut state, placed(1, n));
        apply(&mut state, placed(2, n));
    }
    state
}

fn game_begun() -> GameState {
    let mut state = all_placed();
    apply(&mut state, GameEvent::BeginGame { first_player: 1 });
    state
}

#[test]
fn roster_size_is_the_number_of_ships() {
    assert_eq!(ROSTER_SIZE, SHIPS.len());
    assert_eq!(ROSTER_SIZE, 4);
}

#[test]
fn new_state_is_an_empty_lobby() {
    let state = GameState::default();
    assert_eq!(state.stage, GameStage::Lobby);
    assert!(state.players.is_empty());
    assert!(state.player_ships.is_empty());
    assert!(state.history.is_empty());
    assert_eq!(state.cur_player, None);
}

#[test]
fn two_players_join_and_the_board_is_set_up() {
    let mut state = GameState::default();
    apply(&mut state, joined(1, "ann"));
    apply(&mut state, joined(2, "bob"));
    assert_eq!(state.stage, GameStage::Lobby);
    assert_eq!(state.players.len(), 2);
    assert_eq!(state.players[&1], Player { name: "ann".to_string() });
    assert_eq!(state.players[&2], Player { name: "bob".to_string() });
    assert!(state.player_ships.is_empty());
    apply(&mut state, GameEvent::SetupBoard);
    assert_eq!(state.stage, GameStage::PreGame);
    assert_eq!(state.player_ships.len(), 2);
    assert_eq!(state.player_ships[&1], vec![]);
    assert_eq!(state.player_ships[&2], vec![]);
    assert_eq!(state.cur_player, None);
}

#[test]
fn a_player_places_the_roster_and_no_more() {
    let mut state = board_set_up();
    for n in 0..ROSTER_SIZE {
        assert_eq!(state.player_ships[&1].len(), n);
        apply(&mut state, placed(1, n));
    }
    assert_eq!(state.player_ships[&1].len(), ROSTER_SIZE);
    assert_eq!(state.player_ships[&2].len(), 0);
    assert!(!state.validade(&placed(1, 4)));
    assert!(state.validade(&placed(2, 0)));
}

#[test]
fn placements_are_kept_in_the_order_of_placing() {
    let mut state = board_set_up();
    apply(&mut state, placed(1, 0));
    apply(&mut state, placed(2, 3));
    apply(&mut state, placed(1, 2));
    assert_eq!(
        state.player_ships[&1],
        vec![
            (GameObject::Cruizer, CubeCoords { q: 0, r: 1, s: -1 }, 0),
            (GameObject::Boat, CubeCoords { q: 2, r: 1, s: -3 }, 2),
        ]
    );
    assert_eq!(
        state.player_ships[&2],
        vec![(GameObject::Boat, CubeCoords { q: 3, r: 2, s: -5 }, 3)]
    );
}

#[test]
fn begin_game_gives_the_turn_to_the_other_player() {
    let mut state = all_placed();
    apply(&mut state, GameEvent::BeginGame { first_player: 1 });
    assert_eq!(state.cur_player, Some(2));
    assert_eq!(state.stage, GameStage::InGame);
}

#[test]
fn begin_game_named_for_the_second_player_gives_the_turn_to_the_first() {
    let mut state = all_placed();
    apply(&mut state, GameEvent::BeginGame { first_player: 2 });
    assert_eq!(state.cur_player, Some(1));
    assert_eq!(state.stage, GameStage::InGame);
}

#[test]
fn a_move_passes_the_turn_and_cannot_be_repeated() {
    let mut state = game_begun();
    assert_eq!(state.cur_player, Some(2));
    assert!(state.is_player_turn(&2));
    assert!(!state.is_player_turn(&1));
    apply(&mut state, moved(2));
    assert_eq!(state.cur_player, Some(1));
    assert!(!state.validade(&moved(2)));
    apply(&mut state, moved(1));
    assert_eq!(state.cur_player, Some(2));
    assert!(!state.validade(&moved(1)));
}

#[test]
fn a_move_out_of_turn_is_rejected() {
    let state = game_begun();
    assert!(state.validade(&moved(2)));
    assert!(!state.validade(&moved(1)));
    assert!(!state.validade(&moved(3)));
}

#[test]
fn a_move_before_the_game_is_rejected() {
    assert!(!GameState::default().validade(&moved(1)));
    assert!(!lobby_of_two().validade(&moved(1)));
    assert!(!all_placed().validade(&moved(2)));
}

#[test]
fn a_win_outside_a_game_is_rejected() {
    let won = GameEvent::EndGame { reason: EndGameReason::PlayerWon { winner: 1 } };
    assert!(!GameState::default().validade(&won));
    assert!(!lobby_of_two().validade(&won));
    assert!(!board_set_up().validade(&won));
    assert!(!all_placed().validade(&won));
    let mut ended = game_begun();
    apply(&mut ended, GameEvent::EndGame { reason: EndGameReason::PlayerLeft { player_id: 1 } });
    assert!(!ended.validade(&won));
}

#[test]
fn a_win_in_a_game_ends_it() {
    let mut state = game_begun();
    let won = GameEvent::EndGame { reason: EndGameReason::PlayerWon { winner: 2 } };
    apply(&mut state, won);
    assert_eq!(state.stage, GameStage::Ended);
    assert_eq!(state.cur_player, Some(2));
    assert_eq!(state.players.len(), 2);
}

#[test]
fn a_player_leaving_ends_the_game_in_any_stage() {
    let left = GameEvent::EndGame { reason: EndGameReason::PlayerLeft { player_id: 9 } };
    for mut state in [GameState::default(), lobby_of_two(), board_set_up(), game_begun()] {
        apply(&mut state, left.clone());
        assert_eq!(state.stage, GameStage::Ended);
    }
}

#[test]
fn a_player_cannot_join_twice() {
    let state = lobby_of_two();
    assert!(!state.validade(&joined(1, "ann")));
    assert!(!state.validade(&joined(2, "eve")));
    assert!(state.validade(&joined(3, "eve")));
}

#[test]
fn only_a_present_player_can_disconnect() {
    let mut state = lobby_of_two();
    assert!(!state.validade(&GameEvent::PlayerDisconnected { player_id: 3 }));
    apply(&mut state, GameEvent::PlayerDisconnected { player_id: 1 });
    assert_eq!(state.players.len(), 1);
    assert!(state.players.contains_key(&2));
    assert!(!state.validade(&GameEvent::PlayerDisconnected { player_id: 1 }));
    assert!(state.validade(&joined(1, "ann")));
}

#[test]
fn disconnecting_keeps_placements_and_turn() {
    let mut state = game_begun();
    apply(&mut state, GameEvent::PlayerDisconnected { player_id: 2 });
    assert_eq!(state.players.len(), 1);
    assert_eq!(state.player_ships.len(), 2);
    assert_eq!(state.player_ships[&2].len(), ROSTER_SIZE);
    assert_eq!(state.cur_player, Some(2));
    assert_eq!(state.stage, GameStage::InGame);
}

#[test]
fn setup_needs_the_lobby_and_two_players() {
    let mut state = GameState::default();
    assert!(!state.validade(&GameEvent::SetupBoard));
    apply(&mut state, joined(1, "ann"));
    assert!(!state.validade(&GameEvent::SetupBoard));
    apply(&mut state, joined(2, "bob"));
    assert!(state.validade(&GameEvent::SetupBoard));
    apply(&mut state, joined(3, "eve"));
    assert!(!state.validade(&GameEvent::SetupBoard));
    assert!(!board_set_up().validade(&GameEvent::SetupBoard));
    assert!(!game_begun().validade(&GameEvent::SetupBoard));
}

#[test]
fn begin_game_needs_a_present_first_player() {
    let state = all_placed();
    assert!(state.validade(&GameEvent::BeginGame { first_player: 1 }));
    assert!(state.validade(&GameEvent::BeginGame { first_player: 2 }));
    assert!(!state.validade(&GameEvent::BeginGame { first_player: 3 }));
}

#[test]
fn begin_game_needs_exactly_two_players() {
    let mut three = all_placed();
    apply(&mut three, joined(3, "eve"));
    assert!(!three.validade(&GameEvent::BeginGame { first_player: 1 }));
    let mut one = all_placed();
    apply(&mut one, GameEvent::PlayerDisconnected { player_id: 2 });
    assert!(!one.validade(&GameEvent::BeginGame { first_player: 1 }));
}

#[test]
fn begin_game_needs_every_roster_placed() {
    let mut state = board_set_up();
    assert!(!state.validade(&GameEvent::BeginGame { first_player: 1 }));
    for n in 0..ROSTER_SIZE {
        apply(&mut state, placed(1, n));
    }
    assert!(!state.validade(&GameEvent::BeginGame { first_player: 1 }));
    for n in 0..ROSTER_SIZE - 1 {
        apply(&mut state, placed(2, n));
    }
    assert!(!state.validade(&GameEvent::BeginGame { first_player: 1 }));
    apply(&mut state, placed(2, 3));
    assert!(state.validade(&GameEvent::BeginGame { first_player: 1 }));
}

#[test]
fn begin_game_in_the_lobby_is_rejected() {
    assert!(!lobby_of_two().validade(&GameEvent::BeginGame { first_player: 1 }));
    assert!(!GameState::default().validade(&GameEvent::BeginGame { first_player: 1 }));
}

#[test]
fn begin_game_needs_a_list_for_a_player_who_joined_late() {
    let mut state = all_placed();
    apply(&mut state, GameEvent::PlayerDisconnected { player_id: 2 });
    apply(&mut state, joined(7, "eve"));
    assert_eq!(state.players.len(), 2);
    assert!(!state.validade(&GameEvent::BeginGame { first_player: 1 }));
}

#[test]
fn placing_needs_the_pre_game_stage() {
    assert!(!lobby_of_two().validade(&placed(1, 0)));
    assert!(board_set_up().validade(&placed(1, 0)));
    let mut state = board_set_up();
    apply(&mut state, GameEvent::EndGame { reason: EndGameReason::PlayerLeft { player_id: 2 } });
    assert!(!state.validade(&placed(1, 0)));
}

#[test]
fn placing_needs_a_placement_list() {
    let mut state = board_set_up();
    assert!(!state.validade(&placed(3, 0)));
    apply(&mut state, joined(3, "eve"));
    assert!(!state.validade(&placed(3, 0)));
}

#[test]
fn setup_empties_the_lists_of_the_players() {
    let mut state = GameState::default();
    state.player_ships.insert(1, vec![(GameObject::Boat, CubeCoords::zero(), 0)]);
    state.player_ships.insert(5, vec![(GameObject::Ship, CubeCoords::zero(), 1)]);
    apply(&mut state, joined(1, "ann"));
    apply(&mut state, joined(2, "bob"));
    apply(&mut state, GameEvent::SetupBoard);
    assert_eq!(state.player_ships.len(), 3);
    assert_eq!(state.player_ships[&1], vec![]);
    assert_eq!(state.player_ships[&2], vec![]);
    assert_eq!(state.player_ships[&5], vec![(GameObject::Ship, CubeCoords::zero(), 1)]);
}

#[test]
fn history_grows_by_each_consumed_event_in_order() {
    let mut state = GameState::default();
    let events = vec![
        joined(1, "ann"),
        joined(2, "bob"),
        GameEvent::SetupBoard,
        placed(1, 0),
        placed(2, 0),
        GameEvent::PlayerDisconnected { player_id: 2 },
        GameEvent::EndGame { reason: EndGameReason::PlayerLeft { player_id: 2 } },
    ];
    for (i, event) in events.iter().enumerate() {
        assert_eq!(state.history.len(), i);
        apply(&mut state, event.clone());
        assert_eq!(state.history[..], events[..i + 1]);
    }
}

#[test]
fn rejected_events_are_not_in_the_history_of_a_host_that_drops_them() {
    let mut state = lobby_of_two();
    let before = state.clone();
    for event in [joined(1, "x"), moved(1), placed(1, 0), GameEvent::BeginGame { first_player: 1 }] {
        if state.validade(&event) {
            state.consume(&event);
        }
    }
    assert_eq!(state, before);
}

#[test]
fn two_states_fed_the_same_events_are_equal() {
    let mut server = GameState::default();
    let mut mirror = GameState::default();
    let mut events = vec![joined(2, "bob"), joined(1, "ann"), GameEvent::SetupBoard];
    for n in 0..ROSTER_SIZE {
        events.push(placed(2, n));
        events.push(placed(1, n));
    }
    events.push(GameEvent::BeginGame { first_player: 2 });
    events.push(moved(1));
    events.push(moved(2));
    events.push(GameEvent::EndGame { reason: EndGameReason::PlayerWon { winner: 1 } });
    for event in &events {
        apply(&mut server, event.clone());
    }
    for event in &server.history.clone() {
        apply(&mut mirror, event.clone());
    }
    assert_eq!(server, mirror);
    assert_eq!(mirror.history, events);
    assert_eq!(mirror.stage, GameStage::Ended);
}

#[test]
fn next_player_is_the_other_of_two() {
    let mut state = game_begun();
    assert_eq!(state.next_player(), Some(1));
    apply(&mut state, moved(2));
    assert_eq!(state.next_player(), Some(2));
}

#[test]
fn next_player_is_nobody_when_it_is_nobodys_turn() {
    assert_eq!(GameState::default().next_player(), None);
    assert_eq!(all_placed().next_player(), None);
}

#[test]
fn next_player_is_nobody_when_the_mover_is_alone() {
    let mut state = game_begun();
    apply(&mut state, GameEvent::PlayerDisconnected { player_id: 1 });
    assert_eq!(state.next_player(), None);
    apply(&mut state, moved(2));
    assert_eq!(state.cur_player, None);
    assert!(!state.validade(&moved(2)));
}

#[test]
fn next_player_among_more_is_the_other_with_the_least_id() {
    let mut state = game_begun();
    apply(&mut state, joined(40, "eve"));
    apply(&mut state, joined(7, "dan"));
    assert_eq!(state.other_player(2), Some(1));
    assert_eq!(state.other_player(1), Some(2));
    assert_eq!(state.other_player(99), Some(1));
    apply(&mut state, GameEvent::PlayerDisconnected { player_id: 1 });
    assert_eq!(state.next_player(), Some(7));
    apply(&mut state, moved(2));
    assert_eq!(state.cur_player, Some(7));
    apply(&mut state, moved(7));
    assert_eq!(state.cur_player, Some(2));
}

#[test]
fn all_placed_needs_a_full_list_for_every_player() {
    assert!(GameState::default().all_placed());
    assert!(!lobby_of_two().all_placed());
    assert!(!board_set_up().all_placed());
    assert!(all_placed().all_placed());
}

#[test]
fn event_clone_is_equal_to_the_event() {
    for event in [
        GameEvent::SetupBoard,
        GameEvent::BeginGame { first_player: 3 },
        GameEvent::EndGame { reason: EndGameReason::PlayerWon { winner: 1 } },
        joined(5, "name"),
        GameEvent::PlayerDisconnected { player_id: 5 },
        moved(4),
        placed(1, 2),
    ] {
        assert_eq!(event.clone(), event);
    }
    assert_ne!(joined(5, "name"), joined(5, "other"));
}

#[test]
fn states_reached_by_accepted_events_are_consistent() {
    for state in [GameState::default(), lobby_of_two(), board_set_up(), all_placed(), game_begun()] {
        assert!(state.is_consistent());
    }
}

#[test]
fn a_list_longer_than_the_roster_is_inconsistent() {
    let mut state = board_set_up();
    let placement = (GameObject::Boat, CubeCoords::zero(), 0);
    state.player_ships.insert(2, vec![placement; ROSTER_SIZE]);
    assert!(state.is_consistent());
    state.player_ships.insert(2, vec![placement; ROSTER_SIZE + 1]);
    assert!(!state.is_consistent());
}
