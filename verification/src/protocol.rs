//! The wire protocol: tagged client and server messages, their encoding to
//! single text frames, and tolerant decoding back.
//!
//! Every frame is a JSON-shaped object whose `type` field names the variant;
//! the remaining fields follow in declaration order. A client frame that fails
//! to parse decodes to [`ClientMessage::Unknown`] and is ignored rather than
//! closing the connection.

use vstd::prelude::*;

use crate::board::Board;
use crate::codec::{
    enc_bool, enc_str, enc_strs, enc_u64, enc_board, match_at, p_bool, p_cells, p_str, p_strs,
    p_u64, parse_bool, parse_cells, parse_string, parse_strings, parse_u64, push_bool, push_lit,
    push_string, push_strings, push_u64, starts_with_at, str_chars, chars_to_string,
    digit_char,
};
use crate::game::{strs_view, GameState};

verus! {

/// A message from a client to the server.
#[derive(Debug, PartialEq, Eq)]
pub enum ClientMessage {
    /// Volunteer to play next.
    StepUp,
    /// Withdraw from the player queue.
    StepDown,
    /// Start a match (room creator only).
    StartGame,
    /// Place a mark at `(x, y)`.
    Place { x: usize, y: usize },
    /// Say something to the room.
    Chat { content: String },
    /// Remove the member with this handle (room creator only).
    KickMember { member_id: usize },
    /// Set this connection's display name.
    Register { name: String },
    /// Anything that did not parse; ignored.
    Unknown,
}

/// A message from the server, published to a room's subscribers.
#[derive(Debug, PartialEq, Eq)]
pub enum ServerMessage {
    /// Sent only to a freshly joined connection.
    JoinedRoom {
        your_id: usize,
        is_room_creator: bool,
        room_creator: String,
        members: Vec<String>,
        player_queue: Vec<String>,
    },
    /// A match began with these two players.
    GameStarted { players: Vec<String> },
    /// The board and whose turn it is.
    GameState { board: Board, turn: usize },
    /// The match ended; `(winner_x, winner_y)` is the winning move.
    GameEnd { winner: String, winner_x: usize, winner_y: usize },
    /// Membership, queue or creator changed.
    RoomStateUpdate {
        members: Vec<String>,
        player_queue: Vec<String>,
        room_creator: String,
    },
    /// A chat line, attributed to a display name.
    Chat { who: String, content: String },
}

/// The mathematical view of a client message.
pub ghost enum CliV {
    StepUp,
    StepDown,
    StartGame,
    Place { x: usize, y: usize },
    Chat { content: Seq<char> },
    KickMember { member_id: usize },
    Register { name: Seq<char> },
    Unknown,
}

/// The mathematical view of a server message.
pub ghost enum SrvV {
    JoinedRoom {
        your_id: usize,
        is_room_creator: bool,
        room_creator: Seq<char>,
        members: Seq<Seq<char>>,
        player_queue: Seq<Seq<char>>,
    },
    GameStarted { players: Seq<Seq<char>> },
    GameState { board: Seq<Option<usize>>, turn: usize },
    GameEnd { winner: Seq<char>, winner_x: usize, winner_y: usize },
    RoomStateUpdate {
        members: Seq<Seq<char>>,
        player_queue: Seq<Seq<char>>,
        room_creator: Seq<char>,
    },
    Chat { who: Seq<char>, content: Seq<char> },
}

impl View for ClientMessage {
    type V = CliV;

    open spec fn view(&self) -> CliV {
        match self {
            ClientMessage::StepUp => CliV::StepUp,
            ClientMessage::StepDown => CliV::StepDown,
            ClientMessage::StartGame => CliV::StartGame,
            ClientMessage::Place { x, y } => CliV::Place { x: *x, y: *y },
            ClientMessage::Chat { content } => CliV::Chat { content: content@ },
            ClientMessage::KickMember { member_id } => CliV::KickMember { member_id: *member_id },
            ClientMessage::Register { name } => CliV::Register { name: name@ },
            ClientMessage::Unknown => CliV::Unknown,
        }
    }
}

impl View for ServerMessage {
    type V = SrvV;

    open spec fn view(&self) -> SrvV {
        match self {
            ServerMessage::JoinedRoom { your_id, is_room_creator, room_creator, members, player_queue } => SrvV::JoinedRoom {
                your_id: *your_id,
                is_room_creator: *is_room_creator,
                room_creator: room_creator@,
                members: strs_view(members@),
                player_queue: strs_view(player_queue@),
            },
            ServerMessage::GameStarted { players } => SrvV::GameStarted {
                players: strs_view(players@),
            },
            ServerMessage::GameState { board, turn } => SrvV::GameState {
                board: board.cells@,
                turn: *turn,
            },
            ServerMessage::GameEnd { winner, winner_x, winner_y } => SrvV::GameEnd {
                winner: winner@,
                winner_x: *winner_x,
                winner_y: *winner_y,
            },
            ServerMessage::RoomStateUpdate { members, player_queue, room_creator } => SrvV::RoomStateUpdate {
                members: strs_view(members@),
                player_queue: strs_view(player_queue@),
                room_creator: room_creator@,
            },
            ServerMessage::Chat { who, content } => SrvV::Chat {
                who: who@,
                content: content@,
            },
        }
    }
}

impl SrvV {
    /// A server message a well-formed room can produce: board cells hold only
    /// one-digit slots.
    pub open spec fn wf(self) -> bool {
        match self {
            SrvV::GameState { board, turn } => forall|k: int|
                0 <= k < board.len() ==> ((#[trigger] board[k]) is Some ==> board[k]->0 < 10),
            _ => true,
        }
    }
}

/// The frame of a client message.
pub open spec fn enc_client(m: CliV) -> Seq<char> {
    match m {
        CliV::StepUp => "{\"type\":\"StepUp\"}"@,
        CliV::StepDown => "{\"type\":\"StepDown\"}"@,
        CliV::StartGame => "{\"type\":\"StartGame\"}"@,
        CliV::Unknown => "{\"type\":\"Unknown\"}"@,
        CliV::Place { x, y } => "{\"type\":\"Place\",\"x\":"@ + enc_u64(x as u64) + ",\"y\":"@
            + enc_u64(y as u64) + "}"@,
        CliV::Chat { content } => "{\"type\":\"Chat\",\"content\":"@ + enc_str(content) + "}"@,
        CliV::KickMember { member_id } => "{\"type\":\"KickMember\",\"member_id\":"@ + enc_u64(
            member_id as u64) + "}"@,
        CliV::Register { name } => "{\"type\":\"Register\",\"name\":"@ + enc_str(name) + "}"@,
    }
}

/// The frame of a server message.
pub open spec fn enc_server(m: SrvV) -> Seq<char> {
    match m {
        SrvV::JoinedRoom { your_id, is_room_creator, room_creator, members, player_queue } => {
            "{\"type\":\"JoinedRoom\",\"your_id\":"@ + enc_u64(your_id as u64)
                + ",\"is_room_creator\":"@ + enc_bool(is_room_creator) + ",\"room_creator\":"@
                + enc_str(room_creator) + ",\"members\":"@ + enc_strs(members)
                + ",\"player_queue\":"@ + enc_strs(player_queue) + "}"@
        },
        SrvV::GameStarted { players } => "{\"type\":\"GameStarted\",\"players\":"@ + enc_strs(
            players) + "}"@,
        SrvV::GameState { board, turn } => "{\"type\":\"GameState\",\"board\":"@ + enc_board(board)
            + ",\"turn\":"@ + enc_u64(turn as u64) + "}"@,
        SrvV::GameEnd { winner, winner_x, winner_y } => "{\"type\":\"GameEnd\",\"winner\":"@
            + enc_str(winner) + ",\"winner_x\":"@ + enc_u64(winner_x as u64) + ",\"winner_y\":"@
            + enc_u64(winner_y as u64) + "}"@,
        SrvV::RoomStateUpdate { members, player_queue, room_creator } => {
            "{\"type\":\"RoomStateUpdate\",\"members\":"@ + enc_strs(members)
                + ",\"player_queue\":"@ + enc_strs(player_queue) + ",\"room_creator\":"@
                + enc_str(room_creator) + "}"@
        },
        SrvV::Chat { who, content } => "{\"type\":\"Chat\",\"who\":"@ + enc_str(who)
            + ",\"content\":"@ + enc_str(content) + "}"@,
    }
}

/// Decodes a `Place` frame.
pub open spec fn dec_place(s: Seq<char>) -> Option<CliV> {
    let h = "{\"type\":\"Place\",\"x\":"@;
    if starts_with_at(s, 0, h) {
        match p_u64(s, h.len() as int) {
            Some((x, i)) => if starts_with_at(s, i, ",\"y\":"@) {
                match p_u64(s, i + ",\"y\":"@.len()) {
                    Some((y, j)) => if x <= usize::MAX as u64 && y <= usize::MAX as u64 && j + 1
                        == s.len() && s[j] == '}' {
                        Some(CliV::Place { x: x as usize, y: y as usize })
                    } else {
                        None
                    },
                    None => None,
                }
            } else {
                None
            },
            None => None,
        }
    } else {
        None
    }
}

/// Decodes a client `Chat` frame.
pub open spec fn dec_chat(s: Seq<char>) -> Option<CliV> {
    let h = "{\"type\":\"Chat\",\"content\":"@;
    if starts_with_at(s, 0, h) {
        match p_str(s, h.len() as int) {
            Some((v, j)) => if j + 1 == s.len() && s[j] == '}' {
                Some(CliV::Chat { content: v })
            } else {
                None
            },
            None => None,
        }
    } else {
        None
    }
}

/// Decodes a `KickMember` frame.
pub open spec fn dec_kick(s: Seq<char>) -> Option<CliV> {
    let h = "{\"type\":\"KickMember\",\"member_id\":"@;
    if starts_with_at(s, 0, h) {
        match p_u64(s, h.len() as int) {
            Some((v, j)) => if v <= usize::MAX as u64 && j + 1 == s.len() && s[j] == '}' {
                Some(CliV::KickMember { member_id: v as usize })
            } else {
                None
            },
            None => None,
        }
    } else {
        None
    }
}

/// Decodes a `Register` frame.
pub open spec fn dec_register(s: Seq<char>) -> Option<CliV> {
    let h = "{\"type\":\"Register\",\"name\":"@;
    if starts_with_at(s, 0, h) {
        match p_str(s, h.len() as int) {
            Some((v, j)) => if j + 1 == s.len() && s[j] == '}' {
                Some(CliV::Register { name: v })
            } else {
                None
            },
            None => None,
        }
    } else {
        None
    }
}

/// Decodes any client frame; anything unrecognized becomes `Unknown`.
pub open spec fn dec_client(s: Seq<char>) -> CliV {
    if s == "{\"type\":\"StepUp\"}"@ {
        CliV::StepUp
    } else if s == "{\"type\":\"StepDown\"}"@ {
        CliV::StepDown
    } else if s == "{\"type\":\"StartGame\"}"@ {
        CliV::StartGame
    } else if dec_place(s) is Some {
        dec_place(s)->0
    } else if dec_chat(s) is Some {
        dec_chat(s)->0
    } else if dec_kick(s) is Some {
        dec_kick(s)->0
    } else if dec_register(s) is Some {
        dec_register(s)->0
    } else {
        CliV::Unknown
    }
}

/// Decodes a `JoinedRoom` frame.
pub open spec fn dec_joined(s: Seq<char>) -> Option<SrvV> {
    let h = "{\"type\":\"JoinedRoom\",\"your_id\":"@;
    if starts_with_at(s, 0, h) {
        match p_u64(s, h.len() as int) {
            Some((id, i1)) => if starts_with_at(s, i1, ",\"is_room_creator\":"@) {
                match p_bool(s, i1 + ",\"is_room_creator\":"@.len()) {
                    Some((b, i2)) => if starts_with_at(s, i2, ",\"room_creator\":"@) {
                        match p_str(s, i2 + ",\"room_creator\":"@.len()) {
                            Some((rc, i3)) => if starts_with_at(s, i3, ",\"members\":"@) {
                                match p_strs(s, i3 + ",\"members\":"@.len()) {
                                    Some((ms, i4)) => if starts_with_at(
                                        s, i4, ",\"player_queue\":"@) {
                                        match p_strs(s, i4 + ",\"player_queue\":"@.len()) {
                                            Some((q, i5)) => if id <= usize::MAX as u64 && i5 + 1
                                                == s.len() && s[i5] == '}' {
                                                Some(SrvV::JoinedRoom {
                                                    your_id: id as usize,
                                                    is_room_creator: b,
                                                    room_creator: rc,
                                                    members: ms,
                                                    player_queue: q,
                                                })
                                            } else {
                                                None
                                            },
                                            None => None,
                                        }
                                    } else {
                                        None
                                    },
                                    None => None,
                                }
                            } else {
                                None
                            },
                            None => None,
                        }
                    } else {
                        None
                    },
                    None => None,
                }
            } else {
                None
            },
            None => None,
        }
    } else {
        None
    }
}

/// Decodes a `GameStarted` frame.
pub open spec fn dec_started(s: Seq<char>) -> Option<SrvV> {
    let h = "{\"type\":\"GameStarted\",\"players\":"@;
    if starts_with_at(s, 0, h) {
        match p_strs(s, h.len() as int) {
            Some((players, j)) => if j + 1 == s.len() && s[j] == '}' {
                Some(SrvV::GameStarted { players })
            } else {
                None
            },
            None => None,
        }
    } else {
        None
    }
}

/// Decodes a `GameState` frame.
pub open spec fn dec_gstate(s: Seq<char>) -> Option<SrvV> {
    let h = "{\"type\":\"GameState\",\"board\":"@;
    if starts_with_at(s, 0, h) {
        match p_cells(s, h.len() as int) {
            Some((b, i1)) => if starts_with_at(s, i1, ",\"turn\":"@) {
                match p_u64(s, i1 + ",\"turn\":"@.len()) {
                    Some((t, j)) => if t <= usize::MAX as u64 && j + 1 == s.len() && s[j] == '}' {
                        Some(SrvV::GameState { board: b, turn: t as usize })
                    } else {
                        None
                    },
                    None => None,
                }
            } else {
                None
            },
            None => None,
        }
    } else {
        None
    }
}

/// Decodes a `GameEnd` frame.
pub open spec fn dec_gend(s: Seq<char>) -> Option<SrvV> {
    let h = "{\"type\":\"GameEnd\",\"winner\":"@;
    if starts_with_at(s, 0, h) {
        match p_str(s, h.len() as int) {
            Some((w, i1)) => if starts_with_at(s, i1, ",\"winner_x\":"@) {
                match p_u64(s, i1 + ",\"winner_x\":"@.len()) {
                    Some((x, i2)) => if starts_with_at(s, i2, ",\"winner_y\":"@) {
                        match p_u64(s, i2 + ",\"winner_y\":"@.len()) {
                            Some((y, j)) => if x <= usize::MAX as u64 && y <= usize::MAX as u64
                                && j + 1 == s.len() && s[j] == '}' {
                                Some(SrvV::GameEnd {
                                    winner: w,
                                    winner_x: x as usize,
                                    winner_y: y as usize,
                                })
                            } else {
                                None
                            },
                            None => None,
                        }
                    } else {
                        None
                    },
                    None => None,
                }
            } else {
                None
            },
            None => None,
        }
    } else {
        None
    }
}

/// Decodes a `RoomStateUpdate` frame.
pub open spec fn dec_update(s: Seq<char>) -> Option<SrvV> {
    let h = "{\"type\":\"RoomStateUpdate\",\"members\":"@;
    if starts_with_at(s, 0, h) {
        match p_strs(s, h.len() as int) {
            Some((ms, i1)) => if starts_with_at(s, i1, ",\"player_queue\":"@) {
                match p_strs(s, i1 + ",\"player_queue\":"@.len()) {
                    Some((q, i2)) => if starts_with_at(s, i2, ",\"room_creator\":"@) {
                        match p_str(s, i2 + ",\"room_creator\":"@.len()) {
                            Some((rc, j)) => if j + 1 == s.len() && s[j] == '}' {
                                Some(SrvV::RoomStateUpdate {
                                    members: ms,
                                    player_queue: q,
                                    room_creator: rc,
                                })
                            } else {
                                None
                            },
                            None => None,
                        }
                    } else {
                        None
                    },
                    None => None,
                }
            } else {
                None
            },
            None => None,
        }
    } else {
        None
    }
}

/// Decodes a server `Chat` frame.
pub open spec fn dec_chat_srv(s: Seq<char>) -> Option<SrvV> {
    let h = "{\"type\":\"Chat\",\"who\":"@;
    if starts_with_at(s, 0, h) {
        match p_str(s, h.len() as int) {
            Some((w, i1)) => if starts_with_at(s, i1, ",\"content\":"@) {
                match p_str(s, i1 + ",\"content\":"@.len()) {
                    Some((c, j)) => if j + 1 == s.len() && s[j] == '}' {
                        Some(SrvV::Chat { who: w, content: c })
                    } else {
                        None
                    },
                    None => None,
                }
            } else {
                None
            },
            None => None,
        }
    } else {
        None
    }
}

/// Decodes any server frame, or nothing.
pub open spec fn dec_server(s: Seq<char>) -> Option<SrvV> {
    if dec_joined(s) is Some {
        dec_joined(s)
    } else if dec_started(s) is Some {
        dec_started(s)
    } else if dec_gstate(s) is Some {
        dec_gstate(s)
    } else if dec_gend(s) is Some {
        dec_gend(s)
    } else if dec_update(s) is Some {
        dec_update(s)
    } else {
        dec_chat_srv(s)
    }
}

/// A frame whose character `k` differs from a head's cannot start with it.
proof fn head_mismatch(s: Seq<char>, h: Seq<char>, k: int)
    requires
        0 <= k < h.len(),
        k < s.len(),
        s[k] != h[k],
    ensures
        !starts_with_at(s, 0, h),
{
    if starts_with_at(s, 0, h) {
        assert(s.subrange(0, h.len() as int)[k] == s[k]);
    }
}

/// Every client frame decodes back to the message it encodes: the client
/// schema is stable under one round trip.
pub proof fn lemma_client_round_trip(m: CliV)
    ensures
        dec_client(enc_client(m)) == m,
{
    let s = enc_client(m);
    reveal_strlit("{\"type\":\"StepUp\"}");
    reveal_strlit("{\"type\":\"StepDown\"}");
    reveal_strlit("{\"type\":\"StartGame\"}");
    reveal_strlit("{\"type\":\"Unknown\"}");
    reveal_strlit("{\"type\":\"Place\",\"x\":");
    reveal_strlit(",\"y\":");
    reveal_strlit("{\"type\":\"Chat\",\"content\":");
    reveal_strlit("{\"type\":\"KickMember\",\"member_id\":");
    reveal_strlit("{\"type\":\"Register\",\"name\":");
    reveal_strlit("}");
    let f_up = "{\"type\":\"StepUp\"}"@;
    let f_down = "{\"type\":\"StepDown\"}"@;
    let f_start = "{\"type\":\"StartGame\"}"@;
    let h_place = "{\"type\":\"Place\",\"x\":"@;
    let m_y = ",\"y\":"@;
    let h_chat = "{\"type\":\"Chat\",\"content\":"@;
    let h_kick = "{\"type\":\"KickMember\",\"member_id\":"@;
    let h_reg = "{\"type\":\"Register\",\"name\":"@;
    match m {
        CliV::StepUp => {
        },
        CliV::StepDown => {
            assert(s[13] == 'D' && f_up[13] == 'U');
            assert(s != f_up);
        },
        CliV::StartGame => {
            assert(s[11] == 'a' && f_up[11] == 'e' && f_down[11] == 'e');
            assert(s != f_up && s != f_down);
        },
        CliV::Place { x, y } => {
            let ex = enc_u64(x as u64);
            let ey = enc_u64(y as u64);
            let o0 = h_place.len() as int;
            let o1 = o0 + ex.len();
            let o2 = o1 + m_y.len();
            let o3 = o2 + ey.len();
            assert(s =~= h_place + ex + m_y + ey + "}"@);
            assert(s.len() == o3 + 1);
            assert(s[9] == 'P' && f_up[9] == 'S' && f_down[9] == 'S' && f_start[9] == 'S');
            assert(s != f_up && s != f_down && s != f_start);
            assert(s.subrange(0, o0) =~= h_place);
            assert(starts_with_at(s, 0, h_place));
            assert(s.subrange(o0, o1) =~= ex);
            assert(starts_with_at(s, o0, ex));
            assert(s[o1] == ',');
            assert(!crate::codec::is_digit(','));
            crate::codec::lemma_p_u64_enc(s, o0, x as u64);
            assert(s.subrange(o1, o2) =~= m_y);
            assert(starts_with_at(s, o1, m_y));
            assert(s.subrange(o2, o3) =~= ey);
            assert(starts_with_at(s, o2, ey));
            assert(s[o3] == '}');
            assert(!crate::codec::is_digit('}'));
            crate::codec::lemma_p_u64_enc(s, o2, y as u64);
            assert(dec_place(s) == Some(CliV::Place { x, y }));
        },
        CliV::Chat { content } => {
            let ec = enc_str(content);
            let o0 = h_chat.len() as int;
            let o1 = o0 + ec.len();
            assert(s =~= h_chat + ec + "}"@);
            assert(s.len() == o1 + 1);
            assert(s[9] == 'C' && f_up[9] == 'S' && f_down[9] == 'S' && f_start[9] == 'S');
            assert(s != f_up && s != f_down && s != f_start);
            assert(h_place[9] == 'P');
            head_mismatch(s, h_place, 9);
            assert(dec_place(s) is None);
            assert(s.subrange(0, o0) =~= h_chat);
            assert(starts_with_at(s, 0, h_chat));
            assert(s.subrange(o0, o1) =~= ec);
            assert(starts_with_at(s, o0, ec));
            crate::codec::lemma_p_str_enc(s, o0, content);
            assert(s[o1] == '}');
            assert(dec_chat(s) == Some(CliV::Chat { content }));
        },
        CliV::KickMember { member_id } => {
            let ev = enc_u64(member_id as u64);
            let o0 = h_kick.len() as int;
            let o1 = o0 + ev.len();
            assert(s =~= h_kick + ev + "}"@);
            assert(s.len() == o1 + 1);
            assert(s[9] == 'K' && f_up[9] == 'S' && f_down[9] == 'S' && f_start[9] == 'S');
            assert(s != f_up && s != f_down && s != f_start);
            assert(h_place[9] == 'P' && h_chat[9] == 'C');
            head_mismatch(s, h_place, 9);
            head_mismatch(s, h_chat, 9);
            assert(dec_place(s) is None && dec_chat(s) is None);
            assert(s.subrange(0, o0) =~= h_kick);
            assert(starts_with_at(s, 0, h_kick));
            assert(s.subrange(o0, o1) =~= ev);
            assert(starts_with_at(s, o0, ev));
            assert(s[o1] == '}');
            assert(!crate::codec::is_digit('}'));
            crate::codec::lemma_p_u64_enc(s, o0, member_id as u64);
            assert(dec_kick(s) == Some(CliV::KickMember { member_id }));
        },
        CliV::Register { name } => {
            let ec = enc_str(name);
            let o0 = h_reg.len() as int;
            let o1 = o0 + ec.len();
            assert(s =~= h_reg + ec + "}"@);
            assert(s.len() == o1 + 1);
            assert(s[9] == 'R' && f_up[9] == 'S' && f_down[9] == 'S' && f_start[9] == 'S');
            assert(s != f_up && s != f_down && s != f_start);
            assert(h_place[9] == 'P' && h_chat[9] == 'C' && h_kick[9] == 'K');
            head_mismatch(s, h_place, 9);
            head_mismatch(s, h_chat, 9);
            head_mismatch(s, h_kick, 9);
            assert(dec_place(s) is None && dec_chat(s) is None && dec_kick(s) is None);
            assert(s.subrange(0, o0) =~= h_reg);
            assert(starts_with_at(s, 0, h_reg));
            assert(s.subrange(o0, o1) =~= ec);
            assert(starts_with_at(s, o0, ec));
            crate::codec::lemma_p_str_enc(s, o0, name);
            assert(s[o1] == '}');
            assert(dec_register(s) == Some(CliV::Register { name }));
        },
        CliV::Unknown => {
            assert(s[9] == 'U' && f_up[9] == 'S' && f_down[9] == 'S' && f_start[9] == 'S');
            assert(s != f_up && s != f_down && s != f_start);
            assert(s.len() == 18);
            assert(h_place.len() > 18 || !starts_with_at(s, 0, h_place));
            assert(dec_place(s) is None);
            assert(h_chat.len() > 18);
            assert(dec_chat(s) is None);
            assert(h_kick.len() > 18);
            assert(dec_kick(s) is None);
            assert(h_reg.len() > 18);
            assert(dec_register(s) is None);
        },
    }
}

/// Every server frame decodes back to the message it encodes, for every
/// message a well-formed room can produce: the server schema is stable under
/// one round trip.
pub proof fn lemma_server_round_trip(m: SrvV)
    requires
        m.wf(),
    ensures
        dec_server(enc_server(m)) == Some(m),
{
    match m {
        SrvV::JoinedRoom { your_id, is_room_creator, room_creator, members, player_queue } => {
            lemma_rt_joined(your_id, is_room_creator, room_creator, members, player_queue);
        },
        SrvV::GameStarted { players } => {
            lemma_rt_started(players);
        },
        SrvV::GameState { board, turn } => {
            lemma_rt_gstate(board, turn);
        },
        SrvV::GameEnd { winner, winner_x, winner_y } => {
            lemma_rt_gend(winner, winner_x, winner_y);
        },
        SrvV::RoomStateUpdate { members, player_queue, room_creator } => {
            lemma_rt_update(members, player_queue, room_creator);
        },
        SrvV::Chat { who, content } => {
            lemma_rt_chat(who, content);
        },
    }
}

/// A `JoinedRoom` frame survives the round trip.
#[verifier::rlimit(100)]
proof fn lemma_rt_joined(
    your_id: usize,
    is_room_creator: bool,
    room_creator: Seq<char>,
    members: Seq<Seq<char>>,
    player_queue: Seq<Seq<char>>,
)
    ensures
        dec_server(enc_server(SrvV::JoinedRoom {
            your_id, is_room_creator, room_creator, members, player_queue })) == Some(
            SrvV::JoinedRoom { your_id, is_room_creator, room_creator, members, player_queue }),
{
    let m = SrvV::JoinedRoom { your_id, is_room_creator, room_creator, members, player_queue };
    let s = enc_server(m);
    reveal_strlit("{\"type\":\"JoinedRoom\",\"your_id\":");
    reveal_strlit(",\"is_room_creator\":");
    reveal_strlit(",\"room_creator\":");
    reveal_strlit(",\"members\":");
    reveal_strlit(",\"player_queue\":");
    reveal_strlit("}");
    let h_joined = "{\"type\":\"JoinedRoom\",\"your_id\":"@;
    {
        {
            let e1 = enc_u64(your_id as u64);
            let l1 = ",\"is_room_creator\":"@;
            let e2 = enc_bool(is_room_creator);
            let l2 = ",\"room_creator\":"@;
            let e3 = enc_str(room_creator);
            let l3 = ",\"members\":"@;
            let e4 = enc_strs(members);
            let l4 = ",\"player_queue\":"@;
            let e5 = enc_strs(player_queue);
            let o0 = h_joined.len() as int;
            let o1 = o0 + e1.len();
            let o2 = o1 + l1.len();
            let o3 = o2 + e2.len();
            let o4 = o3 + l2.len();
            let o5 = o4 + e3.len();
            let o6 = o5 + l3.len();
            let o7 = o6 + e4.len();
            let o8 = o7 + l4.len();
            let o9 = o8 + e5.len();
            assert(s =~= h_joined + e1 + l1 + e2 + l2 + e3 + l3 + e4 + l4 + e5 + "}"@);
            assert(s.len() == o9 + 1);
            assert(s.subrange(0, o0) =~= h_joined);
            assert(starts_with_at(s, 0, h_joined));
            assert(s.subrange(o0, o1) =~= e1);
            assert(starts_with_at(s, o0, e1));
            assert(s[o1] == ',');
            assert(!crate::codec::is_digit(','));
            crate::codec::lemma_p_u64_enc(s, o0, your_id as u64);
            assert(s.subrange(o1, o2) =~= l1);
            assert(starts_with_at(s, o1, l1));
            assert(s.subrange(o2, o3) =~= e2);
            assert(starts_with_at(s, o2, e2));
            crate::codec::lemma_p_bool_enc(s, o2, is_room_creator);
            assert(s.subrange(o3, o4) =~= l2);
            assert(starts_with_at(s, o3, l2));
            assert(s.subrange(o4, o5) =~= e3);
            assert(starts_with_at(s, o4, e3));
            crate::codec::lemma_p_str_enc(s, o4, room_creator);
            assert(s.subrange(o5, o6) =~= l3);
            assert(starts_with_at(s, o5, l3));
            assert(s.subrange(o6, o7) =~= e4);
            assert(starts_with_at(s, o6, e4));
            crate::codec::lemma_p_strs_enc(s, o6, members);
            assert(s.subrange(o7, o8) =~= l4);
            assert(starts_with_at(s, o7, l4));
            assert(s.subrange(o8, o9) =~= e5);
            assert(starts_with_at(s, o8, e5));
            crate::codec::lemma_p_strs_enc(s, o8, player_queue);
            assert(s[o9] == '}');
            assert(dec_joined(s) == Some(m));
        }
    }
}

/// A `GameStarted` frame survives the round trip.
proof fn lemma_rt_started(players: Seq<Seq<char>>)
    ensures
        dec_server(enc_server(SrvV::GameStarted { players })) == Some(
            SrvV::GameStarted { players }),
{
    let m = SrvV::GameStarted { players };
    let s = enc_server(m);
    reveal_strlit("{\"type\":\"JoinedRoom\",\"your_id\":");
    reveal_strlit("{\"type\":\"GameStarted\",\"players\":");
    reveal_strlit("}");
    let h_joined = "{\"type\":\"JoinedRoom\",\"your_id\":"@;
    let h_started = "{\"type\":\"GameStarted\",\"players\":"@;
    {
        {
            let e1 = enc_strs(players);
            let o0 = h_started.len() as int;
            let o1 = o0 + e1.len();
            assert(s =~= h_started + e1 + "}"@);
            assert(s.len() == o1 + 1);
            assert(s[9] == 'G' && h_joined[9] == 'J');
            head_mismatch(s, h_joined, 9);
            assert(dec_joined(s) is None);
            assert(s.subrange(0, o0) =~= h_started);
            assert(starts_with_at(s, 0, h_started));
            assert(s.subrange(o0, o1) =~= e1);
            assert(starts_with_at(s, o0, e1));
            crate::codec::lemma_p_strs_enc(s, o0, players);
            assert(s[o1] == '}');
            assert(dec_started(s) == Some(m));
        }
    }
}

/// A `GameState` frame of one-digit cells survives the round trip.
proof fn lemma_rt_gstate(board: Seq<Option<usize>>, turn: usize)
    requires
        forall|k: int| 0 <= k < board.len() ==> ((#[trigger] board[k]) is Some ==> board[k]->0
            < 10),
    ensures
        dec_server(enc_server(SrvV::GameState { board, turn })) == Some(
            SrvV::GameState { board, turn }),
{
    let m = SrvV::GameState { board, turn };
    let s = enc_server(m);
    reveal_strlit("{\"type\":\"JoinedRoom\",\"your_id\":");
    reveal_strlit("{\"type\":\"GameStarted\",\"players\":");
    reveal_strlit("{\"type\":\"GameState\",\"board\":");
    reveal_strlit(",\"turn\":");
    reveal_strlit("}");
    let h_joined = "{\"type\":\"JoinedRoom\",\"your_id\":"@;
    let h_started = "{\"type\":\"GameStarted\",\"players\":"@;
    let h_gstate = "{\"type\":\"GameState\",\"board\":"@;
    {
        {
            let e1 = enc_board(board);
            let l1 = ",\"turn\":"@;
            let e2 = enc_u64(turn as u64);
            let o0 = h_gstate.len() as int;
            let o1 = o0 + e1.len();
            let o2 = o1 + l1.len();
            let o3 = o2 + e2.len();
            assert(s =~= h_gstate + e1 + l1 + e2 + "}"@);
            assert(s.len() == o3 + 1);
            assert(s[9] == 'G' && h_joined[9] == 'J');
            head_mismatch(s, h_joined, 9);
            assert(dec_joined(s) is None);
            assert(s[16] == 't' && h_started[16] == 'r');
            head_mismatch(s, h_started, 16);
            assert(dec_started(s) is None);
            assert(s.subrange(0, o0) =~= h_gstate);
            assert(starts_with_at(s, 0, h_gstate));
            assert(s.subrange(o0, o1) =~= e1);
            assert(starts_with_at(s, o0, e1));
            crate::codec::lemma_p_cells_enc(s, o0, board);
            assert(s.subrange(o1, o2) =~= l1);
            assert(starts_with_at(s, o1, l1));
            assert(s.subrange(o2, o3) =~= e2);
            assert(starts_with_at(s, o2, e2));
            assert(s[o3] == '}');
            assert(!crate::codec::is_digit('}'));
            crate::codec::lemma_p_u64_enc(s, o2, turn as u64);
            assert(dec_gstate(s) == Some(m));
        }
    }
}

/// A `GameEnd` frame survives the round trip.
proof fn lemma_rt_gend(winner: Seq<char>, winner_x: usize, winner_y: usize)
    ensures
        dec_server(enc_server(SrvV::GameEnd { winner, winner_x, winner_y })) == Some(
            SrvV::GameEnd { winner, winner_x, winner_y }),
{
    let m = SrvV::GameEnd { winner, winner_x, winner_y };
    let s = enc_server(m);
    reveal_strlit("{\"type\":\"JoinedRoom\",\"your_id\":");
    reveal_strlit("{\"type\":\"GameStarted\",\"players\":");
    reveal_strlit("{\"type\":\"GameState\",\"board\":");
    reveal_strlit("{\"type\":\"GameEnd\",\"winner\":");
    reveal_strlit(",\"winner_x\":");
    reveal_strlit(",\"winner_y\":");
    reveal_strlit("}");
    let h_joined = "{\"type\":\"JoinedRoom\",\"your_id\":"@;
    let h_started = "{\"type\":\"GameStarted\",\"players\":"@;
    let h_gstate = "{\"type\":\"GameState\",\"board\":"@;
    let h_gend = "{\"type\":\"GameEnd\",\"winner\":"@;
    {
        {
            let e1 = enc_str(winner);
            let l1 = ",\"winner_x\":"@;
            let e2 = enc_u64(winner_x as u64);
            let l2 = ",\"winner_y\":"@;
            let e3 = enc_u64(winner_y as u64);
            let o0 = h_gend.len() as int;
            let o1 = o0 + e1.len();
            let o2 = o1 + l1.len();
            let o3 = o2 + e2.len();
            let o4 = o3 + l2.len();
            let o5 = o4 + e3.len();
            assert(s =~= h_gend + e1 + l1 + e2 + l2 + e3 + "}"@);
            assert(s.len() == o5 + 1);
            assert(s[9] == 'G' && h_joined[9] == 'J');
            head_mismatch(s, h_joined, 9);
            assert(dec_joined(s) is None);
            assert(s[13] == 'E' && h_started[13] == 'S' && h_gstate[13] == 'S');
            head_mismatch(s, h_started, 13);
            head_mismatch(s, h_gstate, 13);
            assert(dec_started(s) is None && dec_gstate(s) is None);
            assert(s.subrange(0, o0) =~= h_gend);
            assert(starts_with_at(s, 0, h_gend));
            assert(s.subrange(o0, o1) =~= e1);
            assert(starts_with_at(s, o0, e1));
            crate::codec::lemma_p_str_enc(s, o0, winner);
            assert(s.subrange(o1, o2) =~= l1);
            assert(starts_with_at(s, o1, l1));
            assert(s.subrange(o2, o3) =~= e2);
            assert(starts_with_at(s, o2, e2));
            assert(s[o3] == ',');
            assert(!crate::codec::is_digit(','));
            crate::codec::lemma_p_u64_enc(s, o2, winner_x as u64);
            assert(s.subrange(o3, o4) =~= l2);
            assert(starts_with_at(s, o3, l2));
            assert(s.subrange(o4, o5) =~= e3);
            assert(starts_with_at(s, o4, e3));
            assert(s[o5] == '}');
            assert(!crate::codec::is_digit('}'));
            crate::codec::lemma_p_u64_enc(s, o4, winner_y as u64);
            assert(dec_gend(s) == Some(m));
        }
    }
}

/// A `RoomStateUpdate` frame survives the round trip.
proof fn lemma_rt_update(
    members: Seq<Seq<char>>,
    player_queue: Seq<Seq<char>>,
    room_creator: Seq<char>,
)
    ensures
        dec_server(enc_server(SrvV::RoomStateUpdate { members, player_queue, room_creator }))
            == Some(SrvV::RoomStateUpdate { members, player_queue, room_creator }),
{
    let m = SrvV::RoomStateUpdate { members, player_queue, room_creator };
    let s = enc_server(m);
    reveal_strlit("{\"type\":\"JoinedRoom\",\"your_id\":");
    reveal_strlit("{\"type\":\"GameStarted\",\"players\":");
    reveal_strlit("{\"type\":\"GameState\",\"board\":");
    reveal_strlit("{\"type\":\"GameEnd\",\"winner\":");
    reveal_strlit("{\"type\":\"RoomStateUpdate\",\"members\":");
    reveal_strlit(",\"player_queue\":");
    reveal_strlit(",\"room_creator\":");
    reveal_strlit("}");
    let h_joined = "{\"type\":\"JoinedRoom\",\"your_id\":"@;
    let h_started = "{\"type\":\"GameStarted\",\"players\":"@;
    let h_gstate = "{\"type\":\"GameState\",\"board\":"@;
    let h_gend = "{\"type\":\"GameEnd\",\"winner\":"@;
    let h_update = "{\"type\":\"RoomStateUpdate\",\"members\":"@;
    {
        {
            let e1 = enc_strs(members);
            let l1 = ",\"player_queue\":"@;
            let e2 = enc_strs(player_queue);
            let l2 = ",\"room_creator\":"@;
            let e3 = enc_str(room_creator);
            let o0 = h_update.len() as int;
            let o1 = o0 + e1.len();
            let o2 = o1 + l1.len();
            let o3 = o2 + e2.len();
            let o4 = o3 + l2.len();
            let o5 = o4 + e3.len();
            assert(s =~= h_update + e1 + l1 + e2 + l2 + e3 + "}"@);
            assert(s.len() == o5 + 1);
            assert(s[9] == 'R' && h_joined[9] == 'J' && h_started[9] == 'G' && h_gstate[9] == 'G'
                && h_gend[9] == 'G');
            head_mismatch(s, h_joined, 9);
            head_mismatch(s, h_started, 9);
            head_mismatch(s, h_gstate, 9);
            head_mismatch(s, h_gend, 9);
            assert(dec_joined(s) is None && dec_started(s) is None && dec_gstate(s) is None
                && dec_gend(s) is None);
            assert(s.subrange(0, o0) =~= h_update);
            assert(starts_with_at(s, 0, h_update));
            assert(s.subrange(o0, o1) =~= e1);
            assert(starts_with_at(s, o0, e1));
            crate::codec::lemma_p_strs_enc(s, o0, members);
            assert(s.subrange(o1, o2) =~= l1);
            assert(starts_with_at(s, o1, l1));
            assert(s.subrange(o2, o3) =~= e2);
            assert(starts_with_at(s, o2, e2));
            crate::codec::lemma_p_strs_enc(s, o2, player_queue);
            assert(s.subrange(o3, o4) =~= l2);
            assert(starts_with_at(s, o3, l2));
            assert(s.subrange(o4, o5) =~= e3);
            assert(starts_with_at(s, o4, e3));
            crate::codec::lemma_p_str_enc(s, o4, room_creator);
            assert(s[o5] == '}');
            assert(dec_update(s) == Some(m));
        }
    }
}

/// A server `Chat` frame survives the round trip.
proof fn lemma_rt_chat(who: Seq<char>, content: Seq<char>)
    ensures
        dec_server(enc_server(SrvV::Chat { who, content })) == Some(SrvV::Chat { who, content }),
{
    let m = SrvV::Chat { who, content };
    let s = enc_server(m);
    reveal_strlit("{\"type\":\"JoinedRoom\",\"your_id\":");
    reveal_strlit("{\"type\":\"GameStarted\",\"players\":");
    reveal_strlit("{\"type\":\"GameState\",\"board\":");
    reveal_strlit("{\"type\":\"GameEnd\",\"winner\":");
    reveal_strlit("{\"type\":\"RoomStateUpdate\",\"members\":");
    reveal_strlit("{\"type\":\"Chat\",\"who\":");
    reveal_strlit(",\"content\":");
    reveal_strlit("}");
    let h_joined = "{\"type\":\"JoinedRoom\",\"your_id\":"@;
    let h_started = "{\"type\":\"GameStarted\",\"players\":"@;
    let h_gstate = "{\"type\":\"GameState\",\"board\":"@;
    let h_gend = "{\"type\":\"GameEnd\",\"winner\":"@;
    let h_update = "{\"type\":\"RoomStateUpdate\",\"members\":"@;
    let h_chat = "{\"type\":\"Chat\",\"who\":"@;
    {
        {
            let e1 = enc_str(who);
            let l1 = ",\"content\":"@;
            let e2 = enc_str(content);
            let o0 = h_chat.len() as int;
            let o1 = o0 + e1.len();
            let o2 = o1 + l1.len();
            let o3 = o2 + e2.len();
            assert(s =~= h_chat + e1 + l1 + e2 + "}"@);
            assert(s.len() == o3 + 1);
            assert(s[9] == 'C' && h_joined[9] == 'J' && h_started[9] == 'G' && h_gstate[9] == 'G'
                && h_gend[9] == 'G' && h_update[9] == 'R');
            head_mismatch(s, h_joined, 9);
            head_mismatch(s, h_started, 9);
            head_mismatch(s, h_gstate, 9);
            head_mismatch(s, h_gend, 9);
            head_mismatch(s, h_update, 9);
            assert(dec_joined(s) is None && dec_started(s) is None && dec_gstate(s) is None
                && dec_gend(s) is None && dec_update(s) is None);
            assert(s.subrange(0, o0) =~= h_chat);
            assert(starts_with_at(s, 0, h_chat));
            assert(s.subrange(o0, o1) =~= e1);
            assert(starts_with_at(s, o0, e1));
            crate::codec::lemma_p_str_enc(s, o0, who);
            assert(s.subrange(o1, o2) =~= l1);
            assert(starts_with_at(s, o1, l1));
            assert(s.subrange(o2, o3) =~= e2);
            assert(starts_with_at(s, o2, e2));
            crate::codec::lemma_p_str_enc(s, o2, content);
            assert(s[o3] == '}');
            assert(dec_chat_srv(s) == Some(m));
        }
    }
}

/// Whether `chars` is exactly the text of `lit`.
fn full_match(chars: &Vec<char>, lit: &str) -> (r: bool)
    ensures
        r == (chars@ == lit@),
{
    let lv = str_chars(lit);
    if chars.len() != lv.len() {
        return false;
    }
    let r = match_at(chars, 0, lit);
    proof {
        if r {
            assert(chars@.subrange(0, lit@.len() as int) =~= chars@);
        } else {
            if chars@ == lit@ {
                assert(chars@.subrange(0, lit@.len() as int) =~= lit@);
            }
        }
    }
    r
}

impl ClientMessage {
    /// Encodes this message as one text frame.
    pub fn encode(&self) -> (r: String)
        ensures
            r@ == enc_client(self@),
    {
        let mut out: Vec<char> = Vec::new();
        match self {
            ClientMessage::StepUp => {
                push_lit(&mut out, "{\"type\":\"StepUp\"}");
            },
            ClientMessage::StepDown => {
                push_lit(&mut out, "{\"type\":\"StepDown\"}");
            },
            ClientMessage::StartGame => {
                push_lit(&mut out, "{\"type\":\"StartGame\"}");
            },
            ClientMessage::Unknown => {
                push_lit(&mut out, "{\"type\":\"Unknown\"}");
            },
            ClientMessage::Place { x, y } => {
                push_lit(&mut out, "{\"type\":\"Place\",\"x\":");
                push_u64(&mut out, *x as u64);
                push_lit(&mut out, ",\"y\":");
                push_u64(&mut out, *y as u64);
                push_lit(&mut out, "}");
            },
            ClientMessage::Chat { content } => {
                push_lit(&mut out, "{\"type\":\"Chat\",\"content\":");
                push_string(&mut out, content.as_str());
                push_lit(&mut out, "}");
            },
            ClientMessage::KickMember { member_id } => {
                push_lit(&mut out, "{\"type\":\"KickMember\",\"member_id\":");
                push_u64(&mut out, *member_id as u64);
                push_lit(&mut out, "}");
            },
            ClientMessage::Register { name } => {
                push_lit(&mut out, "{\"type\":\"Register\",\"name\":");
                push_string(&mut out, name.as_str());
                push_lit(&mut out, "}");
            },
        }
        proof {
            assert(out@ =~= enc_client(self@));
        }
        chars_to_string(&out)
    }

    /// Decodes one text frame; anything unrecognized becomes `Unknown`.
    pub fn decode(s: &str) -> (r: ClientMessage)
        ensures
            r@ == dec_client(s@),
    {
        let chars = str_chars(s);
        if full_match(&chars, "{\"type\":\"StepUp\"}") {
            return ClientMessage::StepUp;
        }
        if full_match(&chars, "{\"type\":\"StepDown\"}") {
            return ClientMessage::StepDown;
        }
        if full_match(&chars, "{\"type\":\"StartGame\"}") {
            return ClientMessage::StartGame;
        }
        if let Some(m) = decode_place(&chars) {
            return m;
        }
        if let Some(m) = decode_chat_cli(&chars) {
            return m;
        }
        if let Some(m) = decode_kick(&chars) {
            return m;
        }
        if let Some(m) = decode_register(&chars) {
            return m;
        }
        ClientMessage::Unknown
    }
}

/// Decodes a `Place` frame.
fn decode_place(chars: &Vec<char>) -> (r: Option<ClientMessage>)
    ensures
        match r {
            Some(m) => dec_place(chars@) == Some(m@),
            None => dec_place(chars@) is None,
        },
{
    let h = "{\"type\":\"Place\",\"x\":";
    if !match_at(chars, 0, h) {
        return None;
    }
    let hl = str_chars(h).len();
    let (x, i) = match parse_u64(chars, hl) {
        Some(p) => p,
        None => {
            return None;
        },
    };
    let m = ",\"y\":";
    if !match_at(chars, i, m) {
        return None;
    }
    let ml = str_chars(m).len();
    let (y, j) = match parse_u64(chars, i + ml) {
        Some(p) => p,
        None => {
            return None;
        },
    };
    if x <= usize::MAX as u64 && y <= usize::MAX as u64 && j < chars.len() && chars[j] == '}'
        && j + 1 == chars.len() {
        Some(ClientMessage::Place { x: x as usize, y: y as usize })
    } else {
        None
    }
}

/// Decodes a client `Chat` frame.
fn decode_chat_cli(chars: &Vec<char>) -> (r: Option<ClientMessage>)
    ensures
        match r {
            Some(m) => dec_chat(chars@) == Some(m@),
            None => dec_chat(chars@) is None,
        },
{
    let h = "{\"type\":\"Chat\",\"content\":";
    if !match_at(chars, 0, h) {
        return None;
    }
    let hl = str_chars(h).len();
    let (v, j) = match parse_string(chars, hl) {
        Some(p) => p,
        None => {
            return None;
        },
    };
    if j < chars.len() && chars[j] == '}' && j + 1 == chars.len() {
        Some(ClientMessage::Chat { content: chars_to_string(&v) })
    } else {
        None
    }
}

/// Decodes a `KickMember` frame.
fn decode_kick(chars: &Vec<char>) -> (r: Option<ClientMessage>)
    ensures
        match r {
            Some(m) => dec_kick(chars@) == Some(m@),
            None => dec_kick(chars@) is None,
        },
{
    let h = "{\"type\":\"KickMember\",\"member_id\":";
    if !match_at(chars, 0, h) {
        return None;
    }
    let hl = str_chars(h).len();
    let (v, j) = match parse_u64(chars, hl) {
        Some(p) => p,
        None => {
            return None;
        },
    };
    if v <= usize::MAX as u64 && j < chars.len() && chars[j] == '}' && j + 1 == chars.len() {
        Some(ClientMessage::KickMember { member_id: v as usize })
    } else {
        None
    }
}

/// Decodes a `Register` frame.
fn decode_register(chars: &Vec<char>) -> (r: Option<ClientMessage>)
    ensures
        match r {
            Some(m) => dec_register(chars@) == Some(m@),
            None => dec_register(chars@) is None,
        },
{
    let h = "{\"type\":\"Register\",\"name\":";
    if !match_at(chars, 0, h) {
        return None;
    }
    let hl = str_chars(h).len();
    let (v, j) = match parse_string(chars, hl) {
        Some(p) => p,
        None => {
            return None;
        },
    };
    if j < chars.len() && chars[j] == '}' && j + 1 == chars.len() {
        Some(ClientMessage::Register { name: chars_to_string(&v) })
    } else {
        None
    }
}

/// Decodes a `JoinedRoom` frame.
fn decode_joined(chars: &Vec<char>) -> (r: Option<ServerMessage>)
    ensures
        match r {
            Some(m) => dec_joined(chars@) == Some(m@),
            None => dec_joined(chars@) is None,
        },
{
    let h = "{\"type\":\"JoinedRoom\",\"your_id\":";
    if !match_at(chars, 0, h) {
        return None;
    }
    let hl = str_chars(h).len();
    let (id, i1) = match parse_u64(chars, hl) {
        Some(p) => p,
        None => {
            return None;
        },
    };
    let l1 = ",\"is_room_creator\":";
    if !match_at(chars, i1, l1) {
        return None;
    }
    let (b, i2) = match parse_bool(chars, i1 + str_chars(l1).len()) {
        Some(p) => p,
        None => {
            return None;
        },
    };
    let l2 = ",\"room_creator\":";
    if !match_at(chars, i2, l2) {
        return None;
    }
    let (rc, i3) = match parse_string(chars, i2 + str_chars(l2).len()) {
        Some(p) => p,
        None => {
            return None;
        },
    };
    let l3 = ",\"members\":";
    if !match_at(chars, i3, l3) {
        return None;
    }
    let (ms, i4) = match parse_strings(chars, i3 + str_chars(l3).len()) {
        Some(p) => p,
        None => {
            return None;
        },
    };
    let l4 = ",\"player_queue\":";
    if !match_at(chars, i4, l4) {
        return None;
    }
    let (q, i5) = match parse_strings(chars, i4 + str_chars(l4).len()) {
        Some(p) => p,
        None => {
            return None;
        },
    };
    if id <= usize::MAX as u64 && i5 < chars.len() && chars[i5] == '}' && i5 + 1 == chars.len() {
        Some(ServerMessage::JoinedRoom {
            your_id: id as usize,
            is_room_creator: b,
            room_creator: chars_to_string(&rc),
            members: ms,
            player_queue: q,
        })
    } else {
        None
    }
}

/// Decodes a `GameStarted` frame.
fn decode_started(chars: &Vec<char>) -> (r: Option<ServerMessage>)
    ensures
        match r {
            Some(m) => dec_started(chars@) == Some(m@),
            None => dec_started(chars@) is None,
        },
{
    let h = "{\"type\":\"GameStarted\",\"players\":";
    if !match_at(chars, 0, h) {
        return None;
    }
    let hl = str_chars(h).len();
    let (players, j) = match parse_strings(chars, hl) {
        Some(p) => p,
        None => {
            return None;
        },
    };
    if j < chars.len() && chars[j] == '}' && j + 1 == chars.len() {
        Some(ServerMessage::GameStarted { players })
    } else {
        None
    }
}

/// Decodes a `GameState` frame.
fn decode_gstate(chars: &Vec<char>) -> (r: Option<ServerMessage>)
    ensures
        match r {
            Some(m) => dec_gstate(chars@) == Some(m@),
            None => dec_gstate(chars@) is None,
        },
{
    let h = "{\"type\":\"GameState\",\"board\":";
    if !match_at(chars, 0, h) {
        return None;
    }
    let hl = str_chars(h).len();
    let (b, i1) = match parse_cells(chars, hl) {
        Some(p) => p,
        None => {
            return None;
        },
    };
    let l1 = ",\"turn\":";
    if !match_at(chars, i1, l1) {
        return None;
    }
    let (t, j) = match parse_u64(chars, i1 + str_chars(l1).len()) {
        Some(p) => p,
        None => {
            return None;
        },
    };
    if t <= usize::MAX as u64 && j < chars.len() && chars[j] == '}' && j + 1 == chars.len() {
        Some(ServerMessage::GameState { board: Board { cells: b }, turn: t as usize })
    } else {
        None
    }
}

/// Decodes a `GameEnd` frame.
fn decode_gend(chars: &Vec<char>) -> (r: Option<ServerMessage>)
    ensures
        match r {
            Some(m) => dec_gend(chars@) == Some(m@),
            None => dec_gend(chars@) is None,
        },
{
    let h = "{\"type\":\"GameEnd\",\"winner\":";
    if !match_at(chars, 0, h) {
        return None;
    }
    let hl = str_chars(h).len();
    let (w, i1) = match parse_string(chars, hl) {
        Some(p) => p,
        None => {
            return None;
        },
    };
    let l1 = ",\"winner_x\":";
    if !match_at(chars, i1, l1) {
        return None;
    }
    let (x, i2) = match parse_u64(chars, i1 + str_chars(l1).len()) {
        Some(p) => p,
        None => {
            return None;
        },
    };
    let l2 = ",\"winner_y\":";
    if !match_at(chars, i2, l2) {
        return None;
    }
    let (y, j) = match parse_u64(chars, i2 + str_chars(l2).len()) {
        Some(p) => p,
        None => {
            return None;
        },
    };
    if x <= usize::MAX as u64 && y <= usize::MAX as u64 && j < chars.len() && chars[j] == '}'
        && j + 1 == chars.len() {
        Some(ServerMessage::GameEnd {
            winner: chars_to_string(&w),
            winner_x: x as usize,
            winner_y: y as usize,
        })
    } else {
        None
    }
}

/// Decodes a `RoomStateUpdate` frame.
fn decode_update(chars: &Vec<char>) -> (r: Option<ServerMessage>)
    ensures
        match r {
            Some(m) => dec_update(chars@) == Some(m@),
            None => dec_update(chars@) is None,
        },
{
    let h = "{\"type\":\"RoomStateUpdate\",\"members\":";
    if !match_at(chars, 0, h) {
        return None;
    }
    let hl = str_chars(h).len();
    let (ms, i1) = match parse_strings(chars, hl) {
        Some(p) => p,
        None => {
            return None;
        },
    };
    let l1 = ",\"player_queue\":";
    if !match_at(chars, i1, l1) {
        return None;
    }
    let (q, i2) = match parse_strings(chars, i1 + str_chars(l1).len()) {
        Some(p) => p,
        None => {
            return None;
        },
    };
    let l2 = ",\"room_creator\":";
    if !match_at(chars, i2, l2) {
        return None;
    }
    let (rc, j) = match parse_string(chars, i2 + str_chars(l2).len()) {
        Some(p) => p,
        None => {
            return None;
        },
    };
    if j < chars.len() && chars[j] == '}' && j + 1 == chars.len() {
        Some(ServerMessage::RoomStateUpdate {
            members: ms,
            player_queue: q,
            room_creator: chars_to_string(&rc),
        })
    } else {
        None
    }
}

/// Decodes a server `Chat` frame.
fn decode_chat_srv(chars: &Vec<char>) -> (r: Option<ServerMessage>)
    ensures
        match r {
            Some(m) => dec_chat_srv(chars@) == Some(m@),
            None => dec_chat_srv(chars@) is None,
        },
{
    let h = "{\"type\":\"Chat\",\"who\":";
    if !match_at(chars, 0, h) {
        return None;
    }
    let hl = str_chars(h).len();
    let (w, i1) = match parse_string(chars, hl) {
        Some(p) => p,
        None => {
            return None;
        },
    };
    let l1 = ",\"content\":";
    if !match_at(chars, i1, l1) {
        return None;
    }
    let (c, j) = match parse_string(chars, i1 + str_chars(l1).len()) {
        Some(p) => p,
        None => {
            return None;
        },
    };
    if j < chars.len() && chars[j] == '}' && j + 1 == chars.len() {
        Some(ServerMessage::Chat { who: chars_to_string(&w), content: chars_to_string(&c) })
    } else {
        None
    }
}

/// Appends a board as one quoted string of cell characters.
fn push_board(out: &mut Vec<char>, b: &Board)
    ensures
        final(out)@ == old(out)@ + enc_board(b.cells@),
{
    out.push('"');
    let mut i: usize = 0;
    while i < b.cells.len()
        invariant
            i <= b.cells.len(),
            out@ == old(out)@ + seq!['"'] + crate::codec::enc_cells(b.cells@.subrange(
                0, i as int)),
        decreases b.cells.len() - i,
    {
        let c: char = match b.cells[i] {
            None => '.',
            Some(v) => {
                if v == 0 { '0' }
                else if v == 1 { '1' }
                else if v == 2 { '2' }
                else if v == 3 { '3' }
                else if v == 4 { '4' }
                else if v == 5 { '5' }
                else if v == 6 { '6' }
                else if v == 7 { '7' }
                else if v == 8 { '8' }
                else if v == 9 { '9' }
                else { '?' }
            },
        };
        proof {
            assert(c == crate::codec::cell_char(b.cells@[i as int]));
            lemma_enc_cells_push(b.cells@.subrange(0, i as int), b.cells@[i as int]);
            assert(b.cells@.subrange(0, i as int + 1) =~= b.cells@.subrange(0, i as int).push(
                b.cells@[i as int]));
        }
        out.push(c);
        i = i + 1;
    }
    out.push('"');
    proof {
        assert(b.cells@.subrange(0, b.cells@.len() as int) =~= b.cells@);
        assert(final(out)@ =~= old(out)@ + enc_board(b.cells@));
    }
}

/// Cell encoding distributes over appending one cell.
proof fn lemma_enc_cells_push(b: Seq<Option<usize>>, c: Option<usize>)
    ensures
        crate::codec::enc_cells(b.push(c)) == crate::codec::enc_cells(b) + seq![
            crate::codec::cell_char(c)],
    decreases b.len(),
{
    if b.len() == 0 {
        assert(b.push(c).drop_first() =~= Seq::<Option<usize>>::empty());
        assert(b.push(c)[0] == c);
        assert(crate::codec::enc_cells(Seq::<Option<usize>>::empty()) =~= Seq::<char>::empty());
        assert(crate::codec::enc_cells(b.push(c)) =~= crate::codec::enc_cells(b) + seq![
            crate::codec::cell_char(c)]);
    } else {
        assert(b.push(c).drop_first() =~= b.drop_first().push(c));
        assert(b.push(c)[0] == b[0]);
        lemma_enc_cells_push(b.drop_first(), c);
        assert(crate::codec::enc_cells(b.push(c)) =~= crate::codec::enc_cells(b) + seq![
            crate::codec::cell_char(c)]);
    }
}

impl ServerMessage {
    /// Encodes this message as one text frame.
    pub fn encode(&self) -> (r: String)
        ensures
            r@ == enc_server(self@),
    {
        let mut out: Vec<char> = Vec::new();
        match self {
            ServerMessage::JoinedRoom { your_id, is_room_creator, room_creator, members, player_queue } => {
                push_lit(&mut out, "{\"type\":\"JoinedRoom\",\"your_id\":");
                push_u64(&mut out, *your_id as u64);
                push_lit(&mut out, ",\"is_room_creator\":");
                push_bool(&mut out, *is_room_creator);
                push_lit(&mut out, ",\"room_creator\":");
                push_string(&mut out, room_creator.as_str());
                push_lit(&mut out, ",\"members\":");
                push_strings(&mut out, members);
                push_lit(&mut out, ",\"player_queue\":");
                push_strings(&mut out, player_queue);
                push_lit(&mut out, "}");
            },
            ServerMessage::GameStarted { players } => {
                push_lit(&mut out, "{\"type\":\"GameStarted\",\"players\":");
                push_strings(&mut out, players);
                push_lit(&mut out, "}");
            },
            ServerMessage::GameState { board, turn } => {
                push_lit(&mut out, "{\"type\":\"GameState\",\"board\":");
                push_board(&mut out, board);
                push_lit(&mut out, ",\"turn\":");
                push_u64(&mut out, *turn as u64);
                push_lit(&mut out, "}");
            },
            ServerMessage::GameEnd { winner, winner_x, winner_y } => {
                push_lit(&mut out, "{\"type\":\"GameEnd\",\"winner\":");
                push_string(&mut out, winner.as_str());
                push_lit(&mut out, ",\"winner_x\":");
                push_u64(&mut out, *winner_x as u64);
                push_lit(&mut out, ",\"winner_y\":");
                push_u64(&mut out, *winner_y as u64);
                push_lit(&mut out, "}");
            },
            ServerMessage::RoomStateUpdate { members, player_queue, room_creator } => {
                push_lit(&mut out, "{\"type\":\"RoomStateUpdate\",\"members\":");
                push_strings(&mut out, members);
                push_lit(&mut out, ",\"player_queue\":");
                push_strings(&mut out, player_queue);
                push_lit(&mut out, ",\"room_creator\":");
                push_string(&mut out, room_creator.as_str());
                push_lit(&mut out, "}");
            },
            ServerMessage::Chat { who, content } => {
                push_lit(&mut out, "{\"type\":\"Chat\",\"who\":");
                push_string(&mut out, who.as_str());
                push_lit(&mut out, ",\"content\":");
                push_string(&mut out, content.as_str());
                push_lit(&mut out, "}");
            },
        }
        proof {
            assert(out@ =~= enc_server(self@));
        }
        chars_to_string(&out)
    }

    /// Decodes one text frame into a server message, or nothing.
    pub fn decode(s: &str) -> (r: Option<ServerMessage>)
        ensures
            match r {
                Some(m) => dec_server(s@) == Some(m@),
                None => dec_server(s@) is None,
            },
    {
        let chars = str_chars(s);
        if let Some(m) = decode_joined(&chars) {
            return Some(m);
        }
        if let Some(m) = decode_started(&chars) {
            return Some(m);
        }
        if let Some(m) = decode_gstate(&chars) {
            return Some(m);
        }
        if let Some(m) = decode_gend(&chars) {
            return Some(m);
        }
        if let Some(m) = decode_update(&chars) {
            return Some(m);
        }
        decode_chat_srv(&chars)
    }

    /// The `GameState` frame describing a room's board and turn.
    pub fn from_state(state: &GameState) -> (r: ServerMessage)
        ensures
            r@ == (SrvV::GameState { board: state@.board, turn: state@.current_turn }),
    {
        let mut cells: Vec<Option<usize>> = Vec::new();
        let mut i: usize = 0;
        while i < state.board.cells.len()
            invariant
                i <= state.board.cells.len(),
                cells@ =~= state.board.cells@.subrange(0, i as int),
            decreases state.board.cells.len() - i,
        {
            cells.push(state.board.cells[i]);
            i = i + 1;
        }
        proof {
            assert(cells@ =~= state.board.cells@);
        }
        ServerMessage::GameState { board: Board { cells }, turn: state.current_turn }
    }
}

} // verus!
