use gomoku::game::GameState;
use gomoku::protocol::{ClientMessage, ServerMessage};

fn client_round_trip(m: ClientMessage) {
    let frame = m.encode();
    let back = ClientMessage::decode(frame.as_str());
    assert_eq!(back, m);
}

fn server_round_trip(m: ServerMessage) {
    let frame = m.encode();
    let back = ServerMessage::decode(frame.as_str());
    assert_eq!(back, Some(m));
}

#[test]
fn client_frames_have_the_expected_text() {
    assert_eq!(ClientMessage::StepUp.encode(), "{\"type\":\"StepUp\"}");
    assert_eq!(ClientMessage::StepDown.encode(), "{\"type\":\"StepDown\"}");
    assert_eq!(ClientMessage::StartGame.encode(), "{\"type\":\"StartGame\"}");
    assert_eq!(
        ClientMessage::Place { x: 3, y: 14 }.encode(),
        "{\"type\":\"Place\",\"x\":3,\"y\":14}"
    );
    assert_eq!(
        ClientMessage::Chat { content: String::from("hi") }.encode(),
        "{\"type\":\"Chat\",\"content\":\"hi\"}"
    );
    assert_eq!(
        ClientMessage::KickMember { member_id: 2 }.encode(),
        "{\"type\":\"KickMember\",\"member_id\":2}"
    );
    assert_eq!(
        ClientMessage::Register { name: String::from("Ace") }.encode(),
        "{\"type\":\"Register\",\"name\":\"Ace\"}"
    );
    assert_eq!(ClientMessage::Unknown.encode(), "{\"type\":\"Unknown\"}");
}

#[test]
fn every_client_variant_round_trips() {
    client_round_trip(ClientMessage::StepUp);
    client_round_trip(ClientMessage::StepDown);
    client_round_trip(ClientMessage::StartGame);
    client_round_trip(ClientMessage::Place { x: 0, y: 9 });
    client_round_trip(ClientMessage::Chat { content: String::from("five in a row!") });
    client_round_trip(ClientMessage::KickMember { member_id: 11 });
    client_round_trip(ClientMessage::Register { name: String::from("Guest_77") });
    client_round_trip(ClientMessage::Unknown);
}

#[test]
fn quotes_and_backslashes_survive_the_round_trip() {
    client_round_trip(ClientMessage::Chat {
        content: String::from("she said \"hi\" \\o/ and left"),
    });
    server_round_trip(ServerMessage::Chat {
        who: String::from("a\\b"),
        content: String::from("\"\"\\\""),
    });
}

#[test]
fn every_server_variant_round_trips() {
    server_round_trip(ServerMessage::JoinedRoom {
        your_id: 2,
        is_room_creator: false,
        room_creator: String::from("alice"),
        members: vec![String::from("alice"), String::from("bob"), String::from("carol")],
        player_queue: vec![String::from("bob")],
    });
    server_round_trip(ServerMessage::GameStarted {
        players: vec![String::from("alice"), String::from("bob")],
    });
    let mut state = GameState::new();
    state.add_member(String::from("alice"));
    state.add_member(String::from("bob"));
    state.step_up(0);
    state.step_up(1);
    state.start_game(0);
    state.place(4, 7, 0);
    server_round_trip(ServerMessage::from_state(&state));
    server_round_trip(ServerMessage::GameEnd {
        winner: String::from("alice"),
        winner_x: 4,
        winner_y: 0,
    });
    server_round_trip(ServerMessage::RoomStateUpdate {
        members: vec![String::from("alice")],
        player_queue: vec![],
        room_creator: String::from("alice"),
    });
    server_round_trip(ServerMessage::Chat {
        who: String::from("system"),
        content: String::from("bob has left the room"),
    });
}

#[test]
fn empty_collections_and_strings_round_trip() {
    server_round_trip(ServerMessage::JoinedRoom {
        your_id: 0,
        is_room_creator: true,
        room_creator: String::new(),
        members: vec![],
        player_queue: vec![],
    });
    server_round_trip(ServerMessage::Chat { who: String::new(), content: String::new() });
    client_round_trip(ClientMessage::Chat { content: String::new() });
    client_round_trip(ClientMessage::Register { name: String::new() });
}

#[test]
fn largest_coordinates_round_trip() {
    client_round_trip(ClientMessage::Place { x: usize::MAX, y: usize::MAX });
    client_round_trip(ClientMessage::KickMember { member_id: usize::MAX });
    server_round_trip(ServerMessage::GameEnd {
        winner: String::from("x"),
        winner_x: usize::MAX,
        winner_y: 0,
    });
}

#[test]
fn the_board_frame_spells_out_every_cell() {
    let mut state = GameState::new();
    state.add_member(String::from("alice"));
    state.add_member(String::from("bob"));
    state.step_up(0);
    state.step_up(1);
    state.start_game(0);
    state.place(0, 0, 0);
    state.place(0, 1, 1);
    let frame = ServerMessage::from_state(&state).encode();
    let mut cells = String::new();
    cells.push('0');
    cells.push('1');
    for _ in 2..100 {
        cells.push('.');
    }
    let expected = format!("{{\"type\":\"GameState\",\"board\":\"{}\",\"turn\":0}}", cells);
    assert_eq!(frame, expected);
}

#[test]
fn malformed_frames_decode_to_unknown() {
    assert_eq!(ClientMessage::decode(""), ClientMessage::Unknown);
    assert_eq!(ClientMessage::decode("not json at all"), ClientMessage::Unknown);
    assert_eq!(ClientMessage::decode("{\"type\":\"Flip\"}"), ClientMessage::Unknown);
    assert_eq!(ClientMessage::decode("{\"type\":\"Place\",\"x\":1}"), ClientMessage::Unknown);
    assert_eq!(
        ClientMessage::decode("{\"type\":\"Place\",\"x\":1,\"y\":oops}"),
        ClientMessage::Unknown
    );
    assert_eq!(
        ClientMessage::decode("{\"type\":\"Chat\",\"content\":\"unterminated}"),
        ClientMessage::Unknown
    );
    assert_eq!(
        ClientMessage::decode("{\"type\":\"StepUp\"} trailing"),
        ClientMessage::Unknown
    );
    // Numbers too large for the machine are rejected, not wrapped.
    assert_eq!(
        ClientMessage::decode("{\"type\":\"KickMember\",\"member_id\":99999999999999999999}"),
        ClientMessage::Unknown
    );
}

#[test]
fn malformed_server_frames_decode_to_nothing() {
    assert_eq!(ServerMessage::decode(""), None);
    assert_eq!(ServerMessage::decode("{\"type\":\"StepUp\"}"), None);
    assert_eq!(
        ServerMessage::decode("{\"type\":\"GameEnd\",\"winner\":\"a\",\"winner_x\":1}"),
        None
    );
}

#[test]
fn decoding_accepts_exactly_the_canonical_place_frame() {
    let m = ClientMessage::decode("{\"type\":\"Place\",\"x\":7,\"y\":0}");
    assert_eq!(m, ClientMessage::Place { x: 7, y: 0 });
}

#[test]
fn from_state_reports_the_current_turn() {
    let mut state = GameState::new();
    state.add_member(String::from("alice"));
    state.add_member(String::from("bob"));
    state.step_up(0);
    state.step_up(1);
    state.start_game(0);
    state.place(3, 3, 0);
    match ServerMessage::from_state(&state) {
        ServerMessage::GameState { board, turn } => {
            assert_eq!(turn, 1);
            assert_eq!(board.get(3, 3), Some(0));
            assert_eq!(board.get(3, 4), None);
        },
        other => panic!("expected GameState, got {:?}", other),
    }
}
