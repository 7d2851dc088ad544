use gomoku::board::Board;
use gomoku::game::{GamePhase, GameState, MoveResult, NO_TURN};

/// A room mid-match: alice and bob are playing, alice to move.
fn match_in_progress() -> GameState {
    let mut state = GameState::new();
    state.add_member(String::from("alice"));
    state.add_member(String::from("bob"));
    assert!(state.step_up(0));
    assert!(state.step_up(1));
    assert!(state.start_game(0));
    state
}

#[test]
fn place_rejects_occupied_cell() {
    let mut state = match_in_progress();
    assert!(matches!(state.place(3, 3, 0), MoveResult::Placed));
    assert!(matches!(state.place(4, 4, 1), MoveResult::Placed));
    // (3, 3) is taken; alice may not overwrite it.
    assert!(matches!(state.place(3, 3, 0), MoveResult::Rejected));
    // The rejected move did not consume alice's turn.
    assert!(matches!(state.place(3, 4, 0), MoveResult::Placed));
}

#[test]
fn place_rejects_out_of_turn_player() {
    let mut state = match_in_progress();
    // Bob is active but it is alice's turn.
    assert!(matches!(state.place(0, 0, 1), MoveResult::Rejected));
    assert!(matches!(state.place(0, 0, 0), MoveResult::Placed));
    // Now it is bob's turn, not alice's.
    assert!(matches!(state.place(1, 0, 0), MoveResult::Rejected));
    assert!(matches!(state.place(1, 0, 1), MoveResult::Placed));
}

#[test]
fn place_rejects_non_players_and_bad_cells() {
    let mut state = match_in_progress();
    state.add_member(String::from("carol"));
    // Carol watches; she may not place.
    assert!(matches!(state.place(5, 5, 2), MoveResult::Rejected));
    // Unknown member handle.
    assert!(matches!(state.place(5, 5, 9), MoveResult::Rejected));
    // Off the grid.
    assert!(matches!(state.place(10, 0, 0), MoveResult::Rejected));
    assert!(matches!(state.place(0, 10, 0), MoveResult::Rejected));
}

#[test]
fn horizontal_five_wins() {
    let mut state = match_in_progress();
    // Alice builds row 0, bob row 9; alice completes five first.
    for k in 0..4 {
        assert!(matches!(state.place(k, 0, 0), MoveResult::Placed));
        assert!(matches!(state.place(k, 9, 1), MoveResult::Placed));
    }
    assert!(matches!(state.place(4, 0, 0), MoveResult::Win));
    assert!(matches!(state.phase, GamePhase::Scoreboard));
    assert_eq!(state.current_turn, NO_TURN);
}

#[test]
fn vertical_five_wins() {
    let mut state = match_in_progress();
    for k in 0..4 {
        assert!(matches!(state.place(0, k, 0), MoveResult::Placed));
        assert!(matches!(state.place(9, k, 1), MoveResult::Placed));
    }
    assert!(matches!(state.place(0, 4, 0), MoveResult::Win));
}

#[test]
fn diagonal_five_wins_counting_through_the_placed_cell() {
    let mut state = match_in_progress();
    // Alice marks (0,0), (1,1), (3,3), (4,4) and then fills the middle:
    // the run is counted in both directions from the placed cell.
    let alice = [(0, 0), (1, 1), (3, 3), (4, 4)];
    let bob = [(9, 0), (9, 1), (9, 2), (9, 3)];
    for k in 0..4 {
        assert!(matches!(state.place(alice[k].0, alice[k].1, 0), MoveResult::Placed));
        assert!(matches!(state.place(bob[k].0, bob[k].1, 1), MoveResult::Placed));
    }
    assert!(matches!(state.place(2, 2, 0), MoveResult::Win));
}

#[test]
fn anti_diagonal_five_wins() {
    let mut state = match_in_progress();
    let alice = [(0, 4), (1, 3), (2, 2), (3, 1)];
    let bob = [(9, 9), (9, 8), (9, 7), (9, 6)];
    for k in 0..4 {
        assert!(matches!(state.place(alice[k].0, alice[k].1, 0), MoveResult::Placed));
        assert!(matches!(state.place(bob[k].0, bob[k].1, 1), MoveResult::Placed));
    }
    assert!(matches!(state.place(4, 0, 0), MoveResult::Win));
}

#[test]
fn four_in_a_row_does_not_win() {
    let mut state = match_in_progress();
    for k in 0..3 {
        assert!(matches!(state.place(k, 0, 0), MoveResult::Placed));
        assert!(matches!(state.place(k, 9, 1), MoveResult::Placed));
    }
    // Alice's fourth in a row: the match goes on.
    assert!(matches!(state.place(3, 0, 0), MoveResult::Placed));
    assert!(matches!(state.phase, GamePhase::Action));
}

/// The slot that keeps every run at four or shorter: it alternates along
/// every axis quickly enough.
fn draw_slot(x: usize, y: usize) -> usize {
    (y / 2 + x) % 2
}

#[test]
fn filling_the_board_without_five_draws() {
    let mut state = match_in_progress();
    // Play all 100 cells in an order whose owner parity matches the pattern.
    let mut for_alice: Vec<(usize, usize)> = Vec::new();
    let mut for_bob: Vec<(usize, usize)> = Vec::new();
    for x in 0..10 {
        for y in 0..10 {
            if draw_slot(x, y) == 0 {
                for_alice.push((x, y));
            } else {
                for_bob.push((x, y));
            }
        }
    }
    assert_eq!(for_alice.len(), 50);
    assert_eq!(for_bob.len(), 50);
    for k in 0..50 {
        let (ax, ay) = for_alice[k];
        assert!(matches!(state.place(ax, ay, 0), MoveResult::Placed));
        let (bx, by) = for_bob[k];
        let b = state.place(bx, by, 1);
        if k == 49 {
            // Bob's last stone fills the board without a five-in-a-row.
            assert!(matches!(b, MoveResult::Draw));
        } else {
            assert!(matches!(b, MoveResult::Placed));
        }
    }
    assert!(matches!(state.phase, GamePhase::Scoreboard));
    assert_eq!(state.current_turn, NO_TURN);
}

#[test]
fn win_takes_precedence_over_draw() {
    // A board with one free cell at (0, 4), whose filling completes five in
    // row 0 for slot 0: the move both wins and fills the board, and wins.
    let mut cells: Vec<Option<usize>> = Vec::new();
    for x in 0..10 {
        for y in 0..10 {
            if x == 0 && y < 5 {
                // Row 0 start: four of alice's marks, then the free cell.
                if y < 4 {
                    cells.push(Some(0));
                } else {
                    cells.push(None);
                }
            } else {
                cells.push(Some(draw_slot(x, y)));
            }
        }
    }
    let state_board = Board { cells };
    let mut state = match_in_progress();
    state.board = state_board;
    let r = state.place(0, 4, 0);
    assert!(matches!(r, MoveResult::Win));
}

#[test]
fn board_new_is_empty_and_readable() {
    let b = Board::new();
    for x in 0..10 {
        for y in 0..10 {
            assert_eq!(b.get(x, y), None);
        }
    }
}
