//! The decision core of a connection session: joining a room, dispatching one
//! client message against the room state machine, and cleaning up after a
//! disconnect.
//!
//! These functions compute every state transition and return the list of
//! [`Effect`]s — frames to broadcast, persistence calls to issue — that the
//! caller performs afterwards. Persistence is fire-and-forget: the in-memory
//! state never depends on its outcome.

use vstd::prelude::*;
use vstd::string::StringExecFns;

use crate::board::{board_empty, board_full, board_wf, five_through, Board, BOARD_HEIGHT};
use crate::game::{
    clone_strings, without, GamePhase, GameState, MoveResult, StateV, NO_TURN,
};
use crate::protocol::{ClientMessage, ServerMessage, SrvV};

verus! {

/// One externally visible action that the caller of a session function must
/// perform, in order.
#[derive(Debug)]
pub enum Effect {
    /// Publish this frame on the room's broadcast channel.
    Publish(ServerMessage),
    /// Ask the persistence collaborator to create a match record for these
    /// two players; the returned correlation handle is stored with
    /// `GameState::set_game_id`.
    CreateMatch { player1: String, player2: String },
    /// Hand the persistence collaborator the final board of the match.
    RecordBoard { game_id: String, board: Board },
    /// Tell the persistence collaborator the match ended, and who won.
    CompleteMatch { game_id: String, winner: Option<String> },
    /// Change this session's display name.
    SetName { name: String },
}

/// The mathematical view of an effect.
pub ghost enum EffV {
    Publish(SrvV),
    CreateMatch { player1: Seq<char>, player2: Seq<char> },
    RecordBoard { game_id: Seq<char>, board: Seq<Option<usize>> },
    CompleteMatch { game_id: Seq<char>, winner: Option<Seq<char>> },
    SetName { name: Seq<char> },
}

impl View for Effect {
    type V = EffV;

    open spec fn view(&self) -> EffV {
        match self {
            Effect::Publish(m) => EffV::Publish(m@),
            Effect::CreateMatch { player1, player2 } => EffV::CreateMatch {
                player1: player1@,
                player2: player2@,
            },
            Effect::RecordBoard { game_id, board } => EffV::RecordBoard {
                game_id: game_id@,
                board: board.cells@,
            },
            Effect::CompleteMatch { game_id, winner } => EffV::CompleteMatch {
                game_id: game_id@,
                winner: crate::game::opt_str_view(*winner),
            },
            Effect::SetName { name } => EffV::SetName { name: name@ },
        }
    }
}

/// The views of a list of effects.
pub open spec fn effs_view(v: Seq<Effect>) -> Seq<EffV> {
    v.map_values(|e: Effect| e@)
}

/// The room creator's identity, or the empty string in an empty room.
pub open spec fn creator_or_empty(s: StateV) -> Seq<char> {
    match s.room_creator {
        Some(c) => c,
        None => Seq::empty(),
    }
}

/// The `RoomStateUpdate` frame describing `s`.
pub open spec fn room_update_v(s: StateV) -> SrvV {
    SrvV::RoomStateUpdate {
        members: s.members,
        player_queue: s.player_queue,
        room_creator: creator_or_empty(s),
    }
}

/// The `GameState` frame describing `s`.
pub open spec fn state_frame(s: StateV) -> SrvV {
    SrvV::GameState { board: s.board, turn: s.current_turn }
}

/// The active player left once `me` is gone (meaningful during a match that
/// `me` plays in).
pub open spec fn other_active(s: StateV, me: Seq<char>) -> Seq<char> {
    if s.active_players[0] == me {
        s.active_players[1]
    } else {
        s.active_players[0]
    }
}

/// The persistence calls and the `GameEnd` frame that report a finished
/// match: board and outcome go to the store only when a match record exists.
pub open spec fn end_match_effects(mid: StateV, winner: Seq<char>, x: usize, y: usize) -> Seq<
    EffV,
> {
    let tail = seq![
        EffV::Publish(SrvV::GameEnd { winner, winner_x: x, winner_y: y }),
    ];
    match mid.game_id {
        Some(gid) => seq![
            EffV::RecordBoard { game_id: gid, board: mid.board },
            EffV::CompleteMatch { game_id: gid, winner: Some(winner) },
        ] + tail,
        None => tail,
    }
}

/// A room in the hands of the session functions is never mid-match with
/// fewer than two active players: every function here both assumes and
/// re-establishes the session invariant, so a lost player is resolved within
/// the same call that loses them.
pub proof fn lemma_action_always_has_two_players(s: StateV)
    requires
        s.session_inv(),
        s.phase is Action,
    ensures
        s.active_players.len() == 2,
{
}

/// The `RoomStateUpdate` frame for the room as it stands.
fn room_update_message(state: &GameState) -> (r: ServerMessage)
    ensures
        r@ == room_update_v(state@),
{
    ServerMessage::RoomStateUpdate {
        members: clone_strings(&state.members),
        player_queue: clone_strings(&state.player_queue),
        room_creator: match &state.room_creator {
            Some(c) => c.clone(),
            None => String::new(),
        },
    }
}

/// Registers `player` in the room and builds the `JoinedRoom` frame owed to
/// just this connection and the `RoomStateUpdate` frame owed to the room.
pub fn join_room(state: &mut GameState, player: String) -> (r: (usize, ServerMessage, ServerMessage))
    requires
        old(state)@.wf(),
    ensures
        final(state)@.wf(),
        old(state)@.session_inv() ==> final(state)@.session_inv(),
        (r.0 as int) < final(state)@.members.len(),
        final(state)@.members[r.0 as int] == player@,
        old(state)@.members.contains(player@) ==> final(state)@ == old(state)@,
        !old(state)@.members.contains(player@) ==> final(state)@ == (StateV {
            members: old(state)@.members.push(player@),
            room_creator: if old(state)@.room_creator is None {
                Some(player@)
            } else {
                old(state)@.room_creator
            },
            ..old(state)@
        }),
        r.1@ == (SrvV::JoinedRoom {
            your_id: r.0,
            is_room_creator: final(state)@.room_creator == Some(
                final(state)@.members[r.0 as int]),
            room_creator: creator_or_empty(final(state)@),
            members: final(state)@.members,
            player_queue: final(state)@.player_queue,
        }),
        r.2@ == room_update_v(final(state)@),
{
    let id = state.add_member(player);
    let is_creator = state.is_room_creator(id);
    let joined = ServerMessage::JoinedRoom {
        your_id: id,
        is_room_creator: is_creator,
        room_creator: match &state.room_creator {
            Some(c) => c.clone(),
            None => String::new(),
        },
        members: clone_strings(&state.members),
        player_queue: clone_strings(&state.player_queue),
    };
    let update = room_update_message(state);
    (id, joined, update)
}

/// Dispatches one decoded client frame against the room state machine and
/// returns, in order, the frames to broadcast and the persistence calls to
/// issue. A rejected or unknown frame changes nothing and produces no
/// effects: to its sender, silence is the rejection. A move that draws the
/// match leaves the room in `Scoreboard` and broadcasts nothing. Kicking an
/// active player during a match resolves it as a default win for the other
/// player before the member is removed, so the room never stays in `Action`
/// with fewer than two active players.
pub fn handle_client_message(
    state: &mut GameState,
    player_id: usize,
    player_name: &String,
    msg: ClientMessage,
) -> (effects: Vec<Effect>)
    requires
        old(state)@.session_inv(),
    ensures
        final(state)@.session_inv(),
        ({
            let s0 = old(state)@;
            let s1 = final(state)@;
            let effs = effs_view(effects@);
            match msg {
                ClientMessage::StepUp => {
                    let ok = (player_id as int) < s0.members.len() && !s0.player_queue.contains(
                        s0.members[player_id as int]) && !s0.active_players.contains(
                        s0.members[player_id as int]);
                    &&& ok ==> s1 == (StateV {
                        player_queue: s0.player_queue.push(s0.members[player_id as int]),
                        ..s0
                    }) && effs == seq![EffV::Publish(room_update_v(s1))]
                    &&& !ok ==> s1 == s0 && effs == Seq::<EffV>::empty()
                },
                ClientMessage::StepDown => {
                    let ok = (player_id as int) < s0.members.len() && s0.player_queue.contains(
                        s0.members[player_id as int]);
                    &&& ok ==> s1 == (StateV {
                        player_queue: without(s0.player_queue, s0.members[player_id as int]),
                        ..s0
                    }) && effs == seq![EffV::Publish(room_update_v(s1))]
                    &&& !ok ==> s1 == s0 && effs == Seq::<EffV>::empty()
                },
                ClientMessage::StartGame => {
                    let ok = (player_id as int) < s0.members.len() && s0.room_creator == Some(
                        s0.members[player_id as int]) && s0.player_queue.len() >= 2;
                    &&& ok ==> {
                        &&& s1.active_players == s0.player_queue.subrange(0, 2)
                        &&& s1.player_queue == s0.player_queue.skip(2)
                        &&& board_wf(s1.board)
                        &&& board_empty(s1.board)
                        &&& s1.phase is Action
                        &&& s1.current_turn == 0
                        &&& s1.members == s0.members
                        &&& s1.room_creator == s0.room_creator
                        &&& s1.game_id == s0.game_id
                        &&& effs == seq![
                            EffV::CreateMatch {
                                player1: s1.active_players[0],
                                player2: s1.active_players[1],
                            },
                            EffV::Publish(SrvV::GameStarted { players: s1.active_players }),
                            EffV::Publish(state_frame(s1)),
                        ]
                    }
                    &&& !ok ==> s1 == s0 && effs == Seq::<EffV>::empty()
                },
                ClientMessage::Place { x, y } => {
                    let valid = s0.move_valid(x as int, y as int, player_id as int);
                    let b1 = s0.board.update(
                        x as int * (BOARD_HEIGHT as int) + y as int,
                        Some(s0.current_turn),
                    );
                    let win = five_through(b1, x as int, y as int);
                    let full = board_full(b1);
                    let mid = (StateV {
                        board: b1,
                        current_turn: NO_TURN,
                        phase: GamePhase::Scoreboard,
                        ..s0
                    });
                    &&& !valid ==> s1 == s0 && effs == Seq::<EffV>::empty()
                    &&& valid && !win && !full ==> {
                        &&& s1 == (StateV {
                            board: b1,
                            current_turn: (1 - s0.current_turn as int) as usize,
                            ..s0
                        })
                        &&& effs == seq![EffV::Publish(state_frame(s1))]
                    }
                    &&& valid && win ==> {
                        &&& s1 == (StateV {
                            board: b1,
                            current_turn: NO_TURN,
                            phase: GamePhase::Ready,
                            active_players: Seq::<Seq<char>>::empty(),
                            game_id: None::<Seq<char>>,
                            ..s0
                        })
                        &&& effs == seq![EffV::Publish(state_frame(mid))] + end_match_effects(
                            mid, s0.members[player_id as int], x, y) + seq![
                            EffV::Publish(room_update_v(s1)),
                        ]
                    }
                    &&& valid && !win && full ==> s1 == mid && effs == Seq::<EffV>::empty()
                },
                ClientMessage::KickMember { member_id } => {
                    let allowed = (player_id as int) < s0.members.len() && s0.room_creator
                        == Some(s0.members[player_id as int]) && (member_id as int)
                        < s0.members.len();
                    let kicked = s0.members[member_id as int];
                    let resolve = allowed && s0.phase is Action && s0.active_players.contains(
                        kicked);
                    let winner = other_active(s0, kicked);
                    let s_mid = if resolve {
                        (StateV {
                            phase: GamePhase::Ready,
                            current_turn: NO_TURN,
                            active_players: Seq::<Seq<char>>::empty(),
                            game_id: None::<Seq<char>>,
                            ..s0
                        })
                    } else {
                        s0
                    };
                    &&& !allowed ==> s1 == s0 && effs == Seq::<EffV>::empty()
                    &&& allowed ==> {
                        &&& s1.members == without(s0.members, kicked)
                        &&& s1.player_queue == without(s0.player_queue, kicked)
                        &&& s1.active_players == without(s_mid.active_players, kicked)
                        &&& s1.board == s0.board
                        &&& s1.phase == s_mid.phase
                        &&& s1.current_turn == s_mid.current_turn
                        &&& s1.game_id == s_mid.game_id
                        &&& s1.room_creator == (if s0.room_creator == Some(kicked) {
                            if s1.members.len() == 0 {
                                None::<Seq<char>>
                            } else {
                                Some(s1.members[0])
                            }
                        } else {
                            s0.room_creator
                        })
                        &&& effs == (if resolve {
                            end_match_effects(s0, winner, 0, 0)
                        } else {
                            Seq::<EffV>::empty()
                        }) + seq![
                            EffV::Publish(SrvV::Chat {
                                who: "system"@,
                                content: kicked + " was kicked from the room"@,
                            }),
                            EffV::Publish(room_update_v(s1)),
                        ]
                    }
                },
                ClientMessage::Chat { content } => s1 == s0 && effs == seq![
                    EffV::Publish(SrvV::Chat { who: player_name@, content: content@ }),
                ],
                ClientMessage::Register { name } => s1 == s0 && effs == seq![
                    EffV::SetName { name: name@ },
                ],
                ClientMessage::Unknown => s1 == s0 && effs == Seq::<EffV>::empty(),
            }
        }),
{
    let ghost s0 = old(state)@;
    let mut effects: Vec<Effect> = Vec::new();
    proof {
        assert(effs_view(effects@) =~= Seq::<EffV>::empty());
    }
    match msg {
        ClientMessage::StepUp => {
            if state.step_up(player_id) {
                effects.push(Effect::Publish(room_update_message(state)));
                proof {
                    assert(effs_view(effects@) =~= seq![
                        EffV::Publish(room_update_v(final(state)@))]);
                }
            }
        },
        ClientMessage::StepDown => {
            if state.step_down(player_id) {
                effects.push(Effect::Publish(room_update_message(state)));
                proof {
                    assert(effs_view(effects@) =~= seq![
                        EffV::Publish(room_update_v(final(state)@))]);
                }
            }
        },
        ClientMessage::StartGame => {
            if state.start_game(player_id) {
                let p1 = state.active_players[0].clone();
                let p2 = state.active_players[1].clone();
                effects.push(Effect::CreateMatch { player1: p1, player2: p2 });
                effects.push(Effect::Publish(ServerMessage::GameStarted {
                    players: clone_strings(&state.active_players),
                }));
                effects.push(Effect::Publish(ServerMessage::from_state(state)));
                proof {
                    assert(effs_view(effects@) =~= seq![
                        EffV::CreateMatch {
                            player1: final(state)@.active_players[0],
                            player2: final(state)@.active_players[1],
                        },
                        EffV::Publish(SrvV::GameStarted {
                            players: final(state)@.active_players,
                        }),
                        EffV::Publish(state_frame(final(state)@)),
                    ]);
                }
            }
        },
        ClientMessage::Place { x, y } => {
            match state.place(x, y, player_id) {
                MoveResult::Placed => {
                    effects.push(Effect::Publish(ServerMessage::from_state(state)));
                    proof {
                        assert(effs_view(effects@) =~= seq![
                            EffV::Publish(state_frame(final(state)@))]);
                    }
                },
                MoveResult::Win => {
                    let ghost mid = state@;
                    effects.push(Effect::Publish(ServerMessage::from_state(state)));
                    proof {
                        assert(s0.move_valid(x as int, y as int, player_id as int));
                        assert((player_id as int) < state@.members.len());
                    }
                    let winner = state.members[player_id].clone();
                    match &state.game_id {
                        Some(gid) => {
                            let g1 = gid.clone();
                            let g2 = gid.clone();
                            effects.push(Effect::RecordBoard {
                                game_id: g1,
                                board: state.board.duplicate(),
                            });
                            effects.push(Effect::CompleteMatch {
                                game_id: g2,
                                winner: Some(winner.clone()),
                            });
                        },
                        None => {},
                    }
                    effects.push(Effect::Publish(ServerMessage::GameEnd {
                        winner,
                        winner_x: x,
                        winner_y: y,
                    }));
                    state.finish_match();
                    effects.push(Effect::Publish(room_update_message(state)));
                    proof {
                        assert(effs_view(effects@) =~= seq![EffV::Publish(state_frame(mid))]
                            + end_match_effects(mid, s0.members[player_id as int], x, y) + seq![
                            EffV::Publish(room_update_v(final(state)@)),
                        ]);
                    }
                },
                _ => {},
            }
        },
        ClientMessage::KickMember { member_id } => {
            if state.is_room_creator(player_id) && member_id < state.members.len() {
                let kicked = state.members[member_id].clone();
                let in_action = match state.phase {
                    GamePhase::Action => true,
                    _ => false,
                };
                if in_action && state.is_active_player(member_id) {
                    proof {
                        assert(s0.active_players.len() == 2);
                    }
                    let winner = if state.active_players[0] == kicked {
                        state.active_players[1].clone()
                    } else {
                        state.active_players[0].clone()
                    };
                    proof {
                        assert(winner@ == other_active(s0, s0.members[member_id as int]));
                    }
                    match &state.game_id {
                        Some(gid) => {
                            let g1 = gid.clone();
                            let g2 = gid.clone();
                            effects.push(Effect::RecordBoard {
                                game_id: g1,
                                board: state.board.duplicate(),
                            });
                            effects.push(Effect::CompleteMatch {
                                game_id: g2,
                                winner: Some(winner.clone()),
                            });
                        },
                        None => {},
                    }
                    effects.push(Effect::Publish(ServerMessage::GameEnd {
                        winner,
                        winner_x: 0,
                        winner_y: 0,
                    }));
                    state.finish_match();
                    proof {
                        assert(effs_view(effects@) =~= end_match_effects(
                            s0, other_active(s0, s0.members[member_id as int]), 0, 0));
                    }
                }
                let ghost s_pre = state@;
                let ghost pre_count = effects@.len();
                state.remove_member(kicked.clone());
                proof {
                    crate::game::lemma_without(s_pre.active_players, kicked@);
                    if !s_pre.active_players.contains(kicked@) {
                        crate::game::lemma_without_absent(s_pre.active_players, kicked@);
                    }
                }
                effects.push(Effect::Publish(ServerMessage::Chat {
                    who: String::from_str("system"),
                    content: kicked.concat(" was kicked from the room"),
                }));
                effects.push(Effect::Publish(room_update_message(state)));
                proof {
                    assert(effs_view(effects@) =~= effs_view(effects@.subrange(
                        0, pre_count as int)) + seq![
                        EffV::Publish(SrvV::Chat {
                            who: "system"@,
                            content: s0.members[member_id as int] + " was kicked from the room"@,
                        }),
                        EffV::Publish(room_update_v(final(state)@)),
                    ]);
                }
            }
        },
        ClientMessage::Chat { content } => {
            let ghost cv = content@;
            effects.push(Effect::Publish(ServerMessage::Chat {
                who: player_name.clone(),
                content,
            }));
            proof {
                assert(effs_view(effects@) =~= seq![
                    EffV::Publish(SrvV::Chat { who: player_name@, content: cv })]);
            }
        },
        ClientMessage::Register { name } => {
            let ghost nv = name@;
            effects.push(Effect::SetName { name });
            proof {
                assert(effs_view(effects@) =~= seq![EffV::SetName { name: nv }]);
            }
        },
        ClientMessage::Unknown => {},
    }
    effects
}

/// Cleans up after a connection closes: if the leaving identity was an
/// active player of a match in progress, the remaining player wins by
/// default and the room returns to `Ready` — exactly one match completion
/// and one `GameEnd` are issued, so the room never stays in `Action` with
/// fewer than two active players. The member is then removed and the room is
/// told.
pub fn handle_disconnect(state: &mut GameState, player: String) -> (effects: Vec<Effect>)
    requires
        old(state)@.session_inv(),
    ensures
        final(state)@.session_inv(),
        ({
            let s0 = old(state)@;
            let s1 = final(state)@;
            let resolve = s0.phase is Action && s0.active_players.contains(player@);
            let winner = other_active(s0, player@);
            let s_mid = if resolve {
                (StateV {
                    phase: GamePhase::Ready,
                    current_turn: NO_TURN,
                    active_players: Seq::<Seq<char>>::empty(),
                    game_id: None::<Seq<char>>,
                    ..s0
                })
            } else {
                s0
            };
            &&& s1.members == without(s0.members, player@)
            &&& s1.player_queue == without(s0.player_queue, player@)
            &&& s1.active_players == without(s_mid.active_players, player@)
            &&& s1.board == s0.board
            &&& s1.phase == s_mid.phase
            &&& s1.current_turn == s_mid.current_turn
            &&& s1.game_id == s_mid.game_id
            &&& s1.room_creator == (if s0.room_creator == Some(player@) {
                if s1.members.len() == 0 {
                    None::<Seq<char>>
                } else {
                    Some(s1.members[0])
                }
            } else {
                s0.room_creator
            })
            &&& effs_view(effects@) == (if resolve {
                end_match_effects(s0, winner, 0, 0) + seq![
                    EffV::Publish(SrvV::Chat {
                        who: "system"@,
                        content: winner + " wins by default - opponent disconnected"@,
                    }),
                    EffV::Publish(room_update_v(s0)),
                ]
            } else {
                Seq::<EffV>::empty()
            }) + seq![
                EffV::Publish(room_update_v(s1)),
                EffV::Publish(SrvV::Chat {
                    who: "system"@,
                    content: player@ + " has left the room"@,
                }),
            ]
        }),
{
    let ghost s0 = old(state)@;
    let mut effects: Vec<Effect> = Vec::new();
    let is_action = match state.phase {
        GamePhase::Action => true,
        _ => false,
    };
    if is_action && crate::game::find_index(&state.active_players, &player).is_some() {
        proof {
            assert(s0.active_players.len() == 2);
        }
        let winner = if state.active_players[0] == player {
            state.active_players[1].clone()
        } else {
            state.active_players[0].clone()
        };
        proof {
            assert(winner@ == other_active(s0, player@));
        }
        match &state.game_id {
            Some(gid) => {
                let g1 = gid.clone();
                let g2 = gid.clone();
                effects.push(Effect::RecordBoard { game_id: g1, board: state.board.duplicate() });
                effects.push(Effect::CompleteMatch { game_id: g2, winner: Some(winner.clone()) });
            },
            None => {},
        }
        effects.push(Effect::Publish(ServerMessage::GameEnd {
            winner: winner.clone(),
            winner_x: 0,
            winner_y: 0,
        }));
        effects.push(Effect::Publish(ServerMessage::Chat {
            who: String::from_str("system"),
            content: winner.concat(" wins by default - opponent disconnected"),
        }));
        state.finish_match();
        effects.push(Effect::Publish(room_update_message(state)));
        proof {
            assert(effs_view(effects@) =~= end_match_effects(s0, other_active(s0, player@), 0, 0)
                + seq![
                EffV::Publish(SrvV::Chat {
                    who: "system"@,
                    content: other_active(s0, player@)
                        + " wins by default - opponent disconnected"@,
                }),
                EffV::Publish(room_update_v(s0)),
            ]);
        }
    }
    let ghost s_mid = state@;
    let ghost pre_count = effects@.len();
    let member_name = player.clone();
    state.remove_member(player);
    proof {
        crate::game::lemma_without(s_mid.active_players, player@);
        if !s_mid.active_players.contains(player@) {
            crate::game::lemma_without_absent(s_mid.active_players, player@);
        }
        if s0.phase is Ready {
            assert(s_mid.active_players.len() == 0);
            assert(final(state)@.active_players.len() == 0);
        }
    }
    effects.push(Effect::Publish(room_update_message(state)));
    effects.push(Effect::Publish(ServerMessage::Chat {
        who: String::from_str("system"),
        content: member_name.concat(" has left the room"),
    }));
    proof {
        assert(effs_view(effects@) =~= effs_view(effects@.subrange(0, pre_count as int)) + seq![
            EffV::Publish(room_update_v(final(state)@)),
            EffV::Publish(SrvV::Chat {
                who: "system"@,
                content: member_name@ + " has left the room"@,
            }),
        ]);
    }
    effects
}

} // verus!
