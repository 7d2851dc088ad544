use gomoku::game::{GamePhase, GameState, MoveResult, NO_TURN};

#[test]
fn first_member_becomes_creator() {
    let mut state = GameState::new();
    assert_eq!(state.room_creator, None);
    let a = state.add_member(String::from("alice"));
    assert_eq!(a, 0);
    assert_eq!(state.room_creator, Some(String::from("alice")));
    let b = state.add_member(String::from("bob"));
    assert_eq!(b, 1);
    assert_eq!(state.room_creator, Some(String::from("alice")));
    assert!(state.is_room_creator(0));
    assert!(!state.is_room_creator(1));
}

#[test]
fn joining_twice_keeps_the_first_handle() {
    let mut state = GameState::new();
    state.add_member(String::from("alice"));
    state.add_member(String::from("bob"));
    let again = state.add_member(String::from("alice"));
    assert_eq!(again, 0);
    assert_eq!(state.members, vec![String::from("alice"), String::from("bob")]);
}

#[test]
fn removing_the_creator_elects_the_next_member() {
    let mut state = GameState::new();
    state.add_member(String::from("alice"));
    state.add_member(String::from("bob"));
    state.add_member(String::from("carol"));
    state.remove_member(String::from("alice"));
    assert_eq!(state.members, vec![String::from("bob"), String::from("carol")]);
    assert_eq!(state.room_creator, Some(String::from("bob")));
    state.remove_member(String::from("bob"));
    state.remove_member(String::from("carol"));
    assert_eq!(state.room_creator, None);
    assert!(state.members.is_empty());
}

#[test]
fn remove_member_strips_queue_and_active() {
    let mut state = GameState::new();
    state.add_member(String::from("alice"));
    state.add_member(String::from("bob"));
    state.add_member(String::from("carol"));
    assert!(state.step_up(1));
    assert!(state.step_up(2));
    state.remove_member(String::from("bob"));
    assert_eq!(state.player_queue, vec![String::from("carol")]);
}

#[test]
fn step_up_refuses_duplicates_and_strangers() {
    let mut state = GameState::new();
    state.add_member(String::from("alice"));
    assert!(state.step_up(0));
    // Already queued.
    assert!(!state.step_up(0));
    // No such member handle.
    assert!(!state.step_up(7));
    assert_eq!(state.player_queue, vec![String::from("alice")]);
}

#[test]
fn step_down_requires_being_queued() {
    let mut state = GameState::new();
    state.add_member(String::from("alice"));
    state.add_member(String::from("bob"));
    assert!(state.step_up(0));
    // Bob never stepped up.
    assert!(!state.step_down(1));
    assert!(state.step_down(0));
    assert!(state.player_queue.is_empty());
    // Now alice is no longer queued either.
    assert!(!state.step_down(0));
}

#[test]
fn start_game_needs_the_creator() {
    let mut state = GameState::new();
    state.add_member(String::from("alice"));
    state.add_member(String::from("bob"));
    state.add_member(String::from("carol"));
    assert!(state.step_up(1));
    assert!(state.step_up(2));
    // Bob is not the creator.
    assert!(!state.start_game(1));
    assert!(matches!(state.phase, GamePhase::Ready));
    // Alice is.
    assert!(state.start_game(0));
    assert!(matches!(state.phase, GamePhase::Action));
}

#[test]
fn start_game_needs_two_queued() {
    let mut state = GameState::new();
    state.add_member(String::from("alice"));
    state.add_member(String::from("bob"));
    assert!(!state.start_game(0));
    assert!(state.step_up(0));
    assert!(!state.start_game(0));
    assert!(state.step_up(1));
    assert!(state.start_game(0));
}

#[test]
fn start_game_consumes_the_first_two_queued_fifo() {
    let mut state = GameState::new();
    state.add_member(String::from("alice"));
    state.add_member(String::from("bob"));
    state.add_member(String::from("carol"));
    state.add_member(String::from("dave"));
    // Queue order: carol, bob, dave.
    assert!(state.step_up(2));
    assert!(state.step_up(1));
    assert!(state.step_up(3));
    assert!(state.start_game(0));
    assert_eq!(state.active_players, vec![String::from("carol"), String::from("bob")]);
    assert_eq!(state.player_queue, vec![String::from("dave")]);
}

#[test]
fn start_game_clears_the_board_and_turn() {
    let mut state = GameState::new();
    state.add_member(String::from("alice"));
    state.add_member(String::from("bob"));
    assert!(state.step_up(0));
    assert!(state.step_up(1));
    assert!(state.start_game(0));
    assert!(matches!(state.place(4, 4, 0), MoveResult::Placed));
    // The first match is abandoned; a second one starts on a fresh board
    // with the first player to move.
    state.finish_match();
    assert!(state.step_up(0));
    assert!(state.step_up(1));
    assert!(state.start_game(0));
    assert_eq!(state.current_turn, 0);
    for x in 0..10 {
        for y in 0..10 {
            assert_eq!(state.board.get(x, y), None);
        }
    }
    // The cleared cell is free again.
    assert!(matches!(state.place(4, 4, 0), MoveResult::Placed));
}

#[test]
fn fresh_room_has_no_turn() {
    let state = GameState::new();
    assert_eq!(state.current_turn, NO_TURN);
    assert!(matches!(state.phase, GamePhase::Ready));
    assert!(state.members.is_empty());
    assert!(state.game_id.is_none());
}

#[test]
fn is_active_player_tracks_the_match() {
    let mut state = GameState::new();
    state.add_member(String::from("alice"));
    state.add_member(String::from("bob"));
    state.add_member(String::from("carol"));
    assert!(!state.is_active_player(0));
    assert!(state.step_up(0));
    assert!(state.step_up(1));
    assert!(state.start_game(0));
    assert!(state.is_active_player(0));
    assert!(state.is_active_player(1));
    assert!(!state.is_active_player(2));
    assert!(!state.is_active_player(9));
}

#[test]
fn get_member_indices_maps_names_in_order() {
    let mut state = GameState::new();
    state.add_member(String::from("alice"));
    state.add_member(String::from("bob"));
    state.add_member(String::from("carol"));
    let names = [
        String::from("carol"),
        String::from("nobody"),
        String::from("alice"),
    ];
    assert_eq!(state.get_member_indices(&names), vec![2, 0]);
}

#[test]
fn get_acting_players_lists_both_slots() {
    let mut state = GameState::new();
    assert_eq!(state.get_acting_players(), vec![0, 1]);
}

#[test]
fn set_and_finish_clear_the_match_record_handle() {
    let mut state = GameState::new();
    state.add_member(String::from("alice"));
    state.set_game_id(String::from("g-17"));
    assert_eq!(state.game_id, Some(String::from("g-17")));
    state.finish_match();
    assert_eq!(state.game_id, None);
    assert!(matches!(state.phase, GamePhase::Ready));
    assert!(state.active_players.is_empty());
}
