use gomoku::game::{GamePhase, GameState};
use gomoku::protocol::{ClientMessage, ServerMessage};
use gomoku::session::{handle_client_message, handle_disconnect, join_room, Effect};

fn publishes(effects: &[Effect]) -> Vec<&ServerMessage> {
    let mut out = Vec::new();
    for e in effects {
        if let Effect::Publish(m) = e {
            out.push(m);
        }
    }
    out
}

/// The scenario of a full match: alice, bob and carol join room "r1"; alice
/// and bob step up; alice starts; they alternate until alice completes five
/// in row 0; the room reports her win and returns to ready.
#[test]
fn full_match_scenario() {
    let mut state = GameState::new();
    let name = String::from("someone");

    let (a_id, joined, _update) = join_room(&mut state, String::from("alice"));
    assert_eq!(a_id, 0);
    match joined {
        ServerMessage::JoinedRoom { your_id, is_room_creator, room_creator, members, .. } => {
            assert_eq!(your_id, 0);
            assert!(is_room_creator);
            assert_eq!(room_creator, String::from("alice"));
            assert_eq!(members, vec![String::from("alice")]);
        },
        other => panic!("expected JoinedRoom, got {:?}", other),
    }
    let (b_id, _, _) = join_room(&mut state, String::from("bob"));
    let (c_id, joined_c, _) = join_room(&mut state, String::from("carol"));
    assert_eq!(b_id, 1);
    assert_eq!(c_id, 2);
    match joined_c {
        ServerMessage::JoinedRoom { is_room_creator, room_creator, .. } => {
            assert!(!is_room_creator);
            assert_eq!(room_creator, String::from("alice"));
        },
        other => panic!("expected JoinedRoom, got {:?}", other),
    }

    // Alice and bob volunteer; carol does not.
    let e = handle_client_message(&mut state, a_id, &name, ClientMessage::StepUp);
    assert_eq!(e.len(), 1);
    let e = handle_client_message(&mut state, b_id, &name, ClientMessage::StepUp);
    assert_eq!(e.len(), 1);

    // Only the creator can start; bob's attempt changes nothing.
    let e = handle_client_message(&mut state, b_id, &name, ClientMessage::StartGame);
    assert!(e.is_empty());
    assert!(matches!(state.phase, GamePhase::Ready));

    let e = handle_client_message(&mut state, a_id, &name, ClientMessage::StartGame);
    assert!(matches!(state.phase, GamePhase::Action));
    assert_eq!(state.active_players, vec![String::from("alice"), String::from("bob")]);
    assert_eq!(state.current_turn, 0);
    assert!(matches!(e[0], Effect::CreateMatch { .. }));
    match &e[1] {
        Effect::Publish(ServerMessage::GameStarted { players }) => {
            assert_eq!(*players, vec![String::from("alice"), String::from("bob")]);
        },
        other => panic!("expected GameStarted, got {:?}", other),
    }
    match &e[2] {
        Effect::Publish(ServerMessage::GameState { turn, .. }) => assert_eq!(*turn, 0),
        other => panic!("expected GameState, got {:?}", other),
    }

    // The store answered with a correlation handle.
    state.set_game_id(String::from("match-1"));

    // Alternating moves; alice builds row 0, bob row 5.
    for k in 0..4 {
        let e = handle_client_message(
            &mut state, a_id, &name, ClientMessage::Place { x: k, y: 0 });
        assert_eq!(e.len(), 1);
        let e = handle_client_message(
            &mut state, b_id, &name, ClientMessage::Place { x: k, y: 5 });
        assert_eq!(e.len(), 1);
    }

    // Carol tries to interfere; nothing happens and nothing is broadcast.
    let e = handle_client_message(&mut state, c_id, &name, ClientMessage::Place { x: 4, y: 0 });
    assert!(e.is_empty());

    // Alice completes five in row 0.
    let e = handle_client_message(&mut state, a_id, &name, ClientMessage::Place { x: 4, y: 0 });
    let frames = publishes(&e);
    // Board frame, then the end of the match, then the room update.
    assert!(matches!(frames[0], ServerMessage::GameState { .. }));
    match frames[1] {
        ServerMessage::GameEnd { winner, winner_x, winner_y } => {
            assert_eq!(*winner, String::from("alice"));
            assert_eq!(*winner_x, 4);
            assert_eq!(*winner_y, 0);
        },
        other => panic!("expected GameEnd, got {:?}", other),
    }
    assert!(matches!(frames[2], ServerMessage::RoomStateUpdate { .. }));
    // The store was told the final board and the winner.
    assert!(matches!(&e[1], Effect::RecordBoard { game_id, .. } if *game_id == String::from("match-1")));
    assert!(matches!(&e[2], Effect::CompleteMatch { game_id, winner: Some(w) }
        if *game_id == String::from("match-1") && *w == String::from("alice")));
    // The room is ready for the next match.
    assert!(matches!(state.phase, GamePhase::Ready));
    assert!(state.active_players.is_empty());
    assert!(state.game_id.is_none());
}

/// The scenario of a disconnect mid-match: bob drops, alice wins by default,
/// and the room afterwards holds alice and carol.
#[test]
fn disconnect_mid_action_gives_default_win() {
    let mut state = GameState::new();
    let name = String::from("someone");
    join_room(&mut state, String::from("alice"));
    join_room(&mut state, String::from("bob"));
    join_room(&mut state, String::from("carol"));
    handle_client_message(&mut state, 0, &name, ClientMessage::StepUp);
    handle_client_message(&mut state, 1, &name, ClientMessage::StepUp);
    handle_client_message(&mut state, 0, &name, ClientMessage::StartGame);
    state.set_game_id(String::from("match-2"));
    handle_client_message(&mut state, 0, &name, ClientMessage::Place { x: 0, y: 0 });

    let e = handle_disconnect(&mut state, String::from("bob"));
    // The store closes the match with alice as winner.
    assert!(matches!(&e[0], Effect::RecordBoard { game_id, .. } if *game_id == String::from("match-2")));
    assert!(matches!(&e[1], Effect::CompleteMatch { winner: Some(w), .. } if *w == String::from("alice")));
    let frames = publishes(&e);
    assert!(matches!(frames[0], ServerMessage::GameEnd { winner, .. } if *winner == String::from("alice")));
    assert!(matches!(frames[1], ServerMessage::Chat { .. }));
    // Two room updates: one after the match ends, one after bob is removed.
    match frames[3] {
        ServerMessage::RoomStateUpdate { members, .. } => {
            assert_eq!(*members, vec![String::from("alice"), String::from("carol")]);
        },
        other => panic!("expected RoomStateUpdate, got {:?}", other),
    }
    assert!(matches!(state.phase, GamePhase::Ready));
    assert!(state.active_players.is_empty());
    assert!(state.game_id.is_none());
    assert_eq!(state.members, vec![String::from("alice"), String::from("carol")]);
}

#[test]
fn disconnect_of_a_watcher_only_removes_the_member() {
    let mut state = GameState::new();
    let name = String::from("someone");
    join_room(&mut state, String::from("alice"));
    join_room(&mut state, String::from("bob"));
    join_room(&mut state, String::from("carol"));
    handle_client_message(&mut state, 0, &name, ClientMessage::StepUp);
    handle_client_message(&mut state, 1, &name, ClientMessage::StepUp);
    handle_client_message(&mut state, 0, &name, ClientMessage::StartGame);

    let e = handle_disconnect(&mut state, String::from("carol"));
    // No default win: the match goes on.
    assert_eq!(e.len(), 2);
    assert!(matches!(state.phase, GamePhase::Action));
    assert_eq!(state.active_players.len(), 2);
    assert_eq!(state.members, vec![String::from("alice"), String::from("bob")]);
}

#[test]
fn kicking_an_active_player_resolves_the_match() {
    let mut state = GameState::new();
    let name = String::from("someone");
    join_room(&mut state, String::from("alice"));
    join_room(&mut state, String::from("bob"));
    handle_client_message(&mut state, 0, &name, ClientMessage::StepUp);
    handle_client_message(&mut state, 1, &name, ClientMessage::StepUp);
    handle_client_message(&mut state, 0, &name, ClientMessage::StartGame);

    let e = handle_client_message(
        &mut state, 0, &name, ClientMessage::KickMember { member_id: 1 });
    let frames = publishes(&e);
    assert!(matches!(frames[0], ServerMessage::GameEnd { winner, .. } if *winner == String::from("alice")));
    assert!(matches!(frames[1], ServerMessage::Chat { .. }));
    assert!(matches!(frames[2], ServerMessage::RoomStateUpdate { .. }));
    assert!(matches!(state.phase, GamePhase::Ready));
    assert!(state.active_players.is_empty());
    assert_eq!(state.members, vec![String::from("alice")]);
}

#[test]
fn only_the_creator_kicks() {
    let mut state = GameState::new();
    let name = String::from("someone");
    join_room(&mut state, String::from("alice"));
    join_room(&mut state, String::from("bob"));
    let e = handle_client_message(
        &mut state, 1, &name, ClientMessage::KickMember { member_id: 0 });
    assert!(e.is_empty());
    assert_eq!(state.members.len(), 2);
}

#[test]
fn chat_is_attributed_to_the_display_name() {
    let mut state = GameState::new();
    join_room(&mut state, String::from("alice"));
    let name = String::from("Display Alice");
    let e = handle_client_message(
        &mut state, 0, &name, ClientMessage::Chat { content: String::from("hello") });
    match &e[0] {
        Effect::Publish(ServerMessage::Chat { who, content }) => {
            assert_eq!(*who, String::from("Display Alice"));
            assert_eq!(*content, String::from("hello"));
        },
        other => panic!("expected Chat, got {:?}", other),
    }
}

#[test]
fn register_changes_only_the_session_name() {
    let mut state = GameState::new();
    join_room(&mut state, String::from("alice"));
    let name = String::from("someone");
    let e = handle_client_message(
        &mut state, 0, &name, ClientMessage::Register { name: String::from("Ace") });
    assert_eq!(e.len(), 1);
    assert!(matches!(&e[0], Effect::SetName { name } if *name == String::from("Ace")));
    // The room's member key is untouched.
    assert_eq!(state.members, vec![String::from("alice")]);
}

#[test]
fn unknown_frames_are_ignored() {
    let mut state = GameState::new();
    join_room(&mut state, String::from("alice"));
    let name = String::from("someone");
    let e = handle_client_message(&mut state, 0, &name, ClientMessage::Unknown);
    assert!(e.is_empty());
}
