//! The room state machine: membership, the player queue, active-player
//! selection, phase transitions, and move handling.
//!
//! Contracts are stated over [`StateV`], the mathematical view of a room's
//! state, in which every identity is a sequence of characters.

use vstd::prelude::*;
use vstd::seq_lib::*;

use crate::board::{
    axis_run, board_empty, board_full, board_wf, cell_at, count_dir, five_in_dir, five_through,
    in_bounds, lemma_axis_five, lemma_max_run_is, run_cell_ok, trail_len, Board, BOARD_CELLS,
    BOARD_HEIGHT, BOARD_WIDTH, WINNING_TRAIL,
};

verus! {

/// Sentinel for `current_turn` outside the `Action` phase.
pub const NO_TURN: usize = usize::MAX;

/// The number of players in an active match.
pub const ACTING_PLAYER: usize = 2;

/// The room's coarse state.
#[derive(Debug, Clone, Copy, PartialEq, Eq, Structural)]
pub enum GamePhase {
    /// No active match; members may volunteer to play.
    Ready,
    /// A two-player match is in progress.
    Action,
    /// A match just ended; awaiting the return to `Ready`.
    Scoreboard,
}

/// Outcome of asking the rules engine to place a mark.
#[derive(Debug, Clone, Copy, PartialEq, Eq, Structural)]
pub enum MoveResult {
    /// The mark was placed and the match goes on.
    Placed,
    /// The move was rejected; nothing changed.
    Rejected,
    /// The mark was placed and completed a five-in-a-row.
    Win,
    /// The mark was placed, the board is full, and nobody won.
    Draw,
}

/// The views of a sequence of identity strings.
pub open spec fn strs_view(s: Seq<String>) -> Seq<Seq<char>> {
    s.map_values(|m: String| m@)
}

/// The view of an optional identity string.
pub open spec fn opt_str_view(s: Option<String>) -> Option<Seq<char>> {
    match s {
        Some(m) => Some(m@),
        None => None,
    }
}

/// No two entries of `s` are equal.
pub open spec fn distinct_seq(s: Seq<Seq<char>>) -> bool {
    forall|i: int, j: int| 0 <= i < j < s.len() ==> s[i] != s[j]
}

/// Every entry of `a` occurs in `b`.
pub open spec fn subset_of(a: Seq<Seq<char>>, b: Seq<Seq<char>>) -> bool {
    forall|i: int| 0 <= i < a.len() ==> b.contains(#[trigger] a[i])
}

/// No entry of `a` occurs in `b`.
pub open spec fn disjoint_with(a: Seq<Seq<char>>, b: Seq<Seq<char>>) -> bool {
    forall|i: int| 0 <= i < a.len() ==> !b.contains(#[trigger] a[i])
}

/// `s` with every occurrence of `x` removed, order kept.
pub open spec fn without(s: Seq<Seq<char>>, x: Seq<char>) -> Seq<Seq<char>> {
    s.filter(|m: Seq<char>| m != x)
}

/// The index of `x` in `s` (meaningful when `s` contains `x` exactly once).
pub open spec fn pos_of(s: Seq<Seq<char>>, x: Seq<char>) -> int {
    choose|i: int| 0 <= i < s.len() && s[i] == x
}

/// Membership in `without(s, x)` is membership in `s` minus `x`; removal keeps
/// entries distinct and never grows the sequence.
pub proof fn lemma_without(s: Seq<Seq<char>>, x: Seq<char>)
    ensures
        forall|e: Seq<char>| #[trigger] without(s, x).contains(e) <==> (s.contains(e) && e != x),
        distinct_seq(s) ==> distinct_seq(without(s, x)),
        without(s, x).len() <= s.len(),
    decreases s.len(),
{
    reveal(Seq::filter);
    let pred = |m: Seq<char>| m != x;
    if s.len() == 0 {
        assert(without(s, x) =~= Seq::<Seq<char>>::empty());
    } else {
        let init = s.drop_last();
        let last = s.last();
        lemma_without(init, x);
        assert(s.filter(pred) == if pred(last) {
            init.filter(pred).push(last)
        } else {
            init.filter(pred)
        });
        assert forall|e: Seq<char>| #[trigger] without(s, x).contains(e) implies (s.contains(e)
            && e != x) by {
            if without(init, x).contains(e) {
                assert(init.contains(e));
                let i = choose|i: int| 0 <= i < init.len() && init[i] == e;
                assert(s[i] == e);
            } else {
                assert(e == last && pred(last));
                assert(s[s.len() - 1] == e);
            }
        }
        assert forall|e: Seq<char>| s.contains(e) && e != x implies #[trigger] without(
            s, x).contains(e) by {
            let i = choose|i: int| 0 <= i < s.len() && s[i] == e;
            if i < s.len() - 1 {
                assert(init[i] == e);
                assert(init.contains(e));
                assert(without(init, x).contains(e));
                let k = choose|k: int| 0 <= k < without(init, x).len() && without(init, x)[k] == e;
                assert(without(s, x)[k] == e);
            } else {
                assert(last == e);
                assert(without(s, x).last() == e);
            }
        }
        if distinct_seq(s) {
            assert(distinct_seq(init)) by {
                assert(forall|i: int, j: int| 0 <= i < j < init.len() ==> s[i] == init[i]
                    && s[j] == init[j]);
            }
            if pred(last) {
                assert(!init.contains(last)) by {
                    if init.contains(last) {
                        let i = choose|i: int| 0 <= i < init.len() && init[i] == last;
                        assert(s[i] == s[s.len() - 1]);
                    }
                }
                assert(!without(init, x).contains(last));
                assert forall|i: int, j: int| 0 <= i < j < without(s, x).len() implies without(
                    s, x)[i] != without(s, x)[j] by {
                    if j < without(s, x).len() - 1 {
                        assert(without(s, x)[i] == without(init, x)[i]);
                        assert(without(s, x)[j] == without(init, x)[j]);
                    } else {
                        assert(without(s, x)[j] == last);
                        assert(without(s, x)[i] == without(init, x)[i]);
                        assert(without(init, x).contains(without(init, x)[i]));
                    }
                }
            }
        }
    }
}

/// The positions in `members` of each name of `names` that occurs there, in
/// the order of `names`.
pub open spec fn member_indices(members: Seq<Seq<char>>, names: Seq<Seq<char>>) -> Seq<int>
    decreases names.len(),
{
    if names.len() == 0 {
        Seq::empty()
    } else {
        let tail = member_indices(members, names.drop_first());
        if members.contains(names[0]) {
            seq![pos_of(members, names[0])] + tail
        } else {
            tail
        }
    }
}

/// Looking names up distributes over concatenation of the name lists.
pub proof fn lemma_member_indices_concat(ms: Seq<Seq<char>>, a: Seq<Seq<char>>, b: Seq<Seq<char>>)
    ensures
        member_indices(ms, a + b) == member_indices(ms, a) + member_indices(ms, b),
    decreases a.len(),
{
    if a.len() == 0 {
        assert(a + b =~= b);
        assert(member_indices(ms, a) =~= Seq::<int>::empty());
        assert(member_indices(ms, a) + member_indices(ms, b) =~= member_indices(ms, b));
    } else {
        assert((a + b).drop_first() =~= a.drop_first() + b);
        assert((a + b)[0] == a[0]);
        lemma_member_indices_concat(ms, a.drop_first(), b);
        if ms.contains(a[0]) {
            assert(member_indices(ms, a + b) =~= member_indices(ms, a) + member_indices(ms, b));
        }
    }
}

/// One step of walking the name list from the left.
pub proof fn lemma_member_indices_take_step(ms: Seq<Seq<char>>, ns: Seq<Seq<char>>, i: int)
    requires
        0 <= i < ns.len(),
    ensures
        member_indices(ms, ns.take(i)) + member_indices(ms, ns.skip(i)) == member_indices(
            ms, ns.take(i + 1)) + member_indices(ms, ns.skip(i + 1)),
        member_indices(ms, ns.take(i + 1)) == member_indices(ms, ns.take(i)) + (if ms.contains(
            ns[i]) {
            seq![pos_of(ms, ns[i])]
        } else {
            Seq::<int>::empty()
        }),
{
    let single = seq![ns[i]];
    assert(ns.take(i + 1) =~= ns.take(i) + single);
    assert(ns.skip(i) =~= single + ns.skip(i + 1));
    lemma_member_indices_concat(ms, ns.take(i), single);
    lemma_member_indices_concat(ms, single, ns.skip(i + 1));
    assert(single.drop_first() =~= Seq::<Seq<char>>::empty());
    assert(member_indices(ms, single.drop_first()) =~= Seq::<int>::empty());
    if ms.contains(ns[i]) {
        assert(member_indices(ms, single) =~= seq![pos_of(ms, ns[i])]);
    } else {
        assert(member_indices(ms, single) =~= Seq::<int>::empty());
    }
    assert(member_indices(ms, ns.take(i)) + member_indices(ms, single) + member_indices(
        ms, ns.skip(i + 1)) =~= member_indices(ms, ns.take(i)) + (member_indices(ms, single)
        + member_indices(ms, ns.skip(i + 1))));
}

/// Removal distributes over appending one entry.
pub proof fn lemma_without_push(s: Seq<Seq<char>>, e: Seq<char>, x: Seq<char>)
    ensures
        without(s.push(e), x) == if e != x {
            without(s, x).push(e)
        } else {
            without(s, x)
        },
{
    reveal(Seq::filter);
    assert(s.push(e).drop_last() =~= s);
    assert(s.push(e).last() == e);
}

/// Removing an entry that does not occur changes nothing.
pub proof fn lemma_without_absent(s: Seq<Seq<char>>, x: Seq<char>)
    requires
        !s.contains(x),
    ensures
        without(s, x) == s,
    decreases s.len(),
{
    reveal(Seq::filter);
    if s.len() == 0 {
        assert(without(s, x) =~= s);
    } else {
        let init = s.drop_last();
        assert(!init.contains(x)) by {
            if init.contains(x) {
                let i = choose|i: int| 0 <= i < init.len() && init[i] == x;
                assert(s[i] == x);
            }
        }
        lemma_without_absent(init, x);
        assert(s.last() != x) by {
            assert(s[s.len() - 1] == s.last());
        }
        assert(without(s, x) == without(init, x).push(s.last()));
        assert(init.push(s.last()) =~= s);
    }
}

/// In a duplicate-free sequence, an entry's position is unique.
pub proof fn lemma_pos_of_unique(s: Seq<Seq<char>>, x: Seq<char>, i: int)
    requires
        distinct_seq(s),
        0 <= i < s.len(),
        s[i] == x,
    ensures
        pos_of(s, x) == i,
{
    assert(0 <= i < s.len() && s[i] == x);
    let j = pos_of(s, x);
    assert(0 <= j < s.len() && s[j] == x);
    if i < j {
        assert(s[i] != s[j]);
    } else if j < i {
        assert(s[j] != s[i]);
    }
}

/// The mathematical view of a room's state.
#[verifier::ext_equal]
pub ghost struct StateV {
    /// The grid's cells, row-major.
    pub board: Seq<Option<usize>>,
    /// Index into `active_players` of the player to move, or `NO_TURN`.
    pub current_turn: usize,
    /// Identity of the room creator, absent only in an empty room.
    pub room_creator: Option<Seq<char>>,
    /// All connected identities, in join order, without duplicates.
    pub members: Seq<Seq<char>>,
    /// Identities that volunteered to play next, FIFO.
    pub player_queue: Seq<Seq<char>>,
    /// The identities currently playing.
    pub active_players: Seq<Seq<char>>,
    /// The room's coarse state.
    pub phase: GamePhase,
    /// Correlation handle of the persisted match record, if one was created.
    pub game_id: Option<Seq<char>>,
}

impl StateV {
    /// Well-formedness, preserved by every operation of the state machine.
    pub open spec fn wf(self) -> bool {
        &&& board_wf(self.board)
        &&& distinct_seq(self.members)
        &&& distinct_seq(self.player_queue)
        &&& subset_of(self.player_queue, self.members)
        &&& distinct_seq(self.active_players)
        &&& subset_of(self.active_players, self.members)
        &&& disjoint_with(self.player_queue, self.active_players)
        &&& self.active_players.len() <= ACTING_PLAYER as int
        &&& (self.room_creator is None <==> self.members.len() == 0)
        &&& (self.room_creator is Some ==> self.members.contains(self.room_creator->0))
        &&& (self.phase is Action ==> self.current_turn < ACTING_PLAYER)
        &&& (!(self.phase is Action) ==> self.current_turn == NO_TURN)
    }

    /// The stronger invariant the connection session maintains: a match in
    /// progress always has exactly two active players, and a room at rest has
    /// none.
    pub open spec fn session_inv(self) -> bool {
        &&& self.wf()
        &&& (self.phase is Action ==> self.active_players.len() == ACTING_PLAYER as int)
        &&& (self.phase is Ready ==> self.active_players.len() == 0)
    }

    /// A move is accepted exactly when the acting member exists, is an active
    /// player, it is that player's turn, and the target cell is a free cell of
    /// the grid.
    pub open spec fn move_valid(self, x: int, y: int, member_id: int) -> bool {
        &&& 0 <= member_id < self.members.len()
        &&& self.active_players.contains(self.members[member_id])
        &&& in_bounds(x, y)
        &&& cell_at(self.board, x, y) is None
        &&& pos_of(self.active_players, self.members[member_id]) == self.current_turn as int
    }
}

/// The shared game state of one room.
pub struct GameState {
    /// The playing grid.
    pub board: Board,
    /// Index into `active_players` of the player to move, or `NO_TURN`.
    pub current_turn: usize,
    /// Identity of the room creator.
    pub room_creator: Option<String>,
    /// All identities in the room, in join order.
    pub members: Vec<String>,
    /// Identities that volunteered to play next.
    pub player_queue: Vec<String>,
    /// The identities currently playing.
    pub active_players: Vec<String>,
    /// The room's coarse state.
    pub phase: GamePhase,
    /// Correlation handle of the persisted match record.
    pub game_id: Option<String>,
}

impl View for GameState {
    type V = StateV;

    open spec fn view(&self) -> StateV {
        StateV {
            board: self.board.cells@,
            current_turn: self.current_turn,
            room_creator: opt_str_view(self.room_creator),
            members: strs_view(self.members@),
            player_queue: strs_view(self.player_queue@),
            active_players: strs_view(self.active_players@),
            phase: self.phase,
            game_id: opt_str_view(self.game_id),
        }
    }
}

/// Copies a vector of identity strings.
pub(crate) fn clone_strings(v: &Vec<String>) -> (r: Vec<String>)
    ensures
        r@ == v@,
{
    let mut r: Vec<String> = Vec::new();
    let mut i: usize = 0;
    while i < v.len()
        invariant
            i <= v.len(),
            r@ =~= v@.subrange(0, i as int),
        decreases v.len() - i,
    {
        r.push(v[i].clone());
        i = i + 1;
    }
    proof {
        assert(r@ =~= v@);
    }
    r
}

/// Finds the first position of `target` in `v`, comparing by contents.
pub(crate) fn find_index(v: &Vec<String>, target: &String) -> (r: Option<usize>)
    ensures
        match r {
            Some(i) => {
                &&& (i as int) < v@.len()
                &&& v@[i as int]@ == target@
                &&& forall|k: int| 0 <= k < i as int ==> strs_view(v@)[k] != target@
                &&& strs_view(v@).contains(target@)
            },
            None => !strs_view(v@).contains(target@),
        },
{
    let mut i: usize = 0;
    while i < v.len()
        invariant
            i <= v.len(),
            forall|k: int| 0 <= k < i as int ==> strs_view(v@)[k] != target@,
        decreases v.len() - i,
    {
        if v[i] == *target {
            proof {
                assert(strs_view(v@)[i as int] == target@);
            }
            return Some(i);
        }
        i = i + 1;
    }
    proof {
        assert forall|k: int| 0 <= k < strs_view(v@).len() implies strs_view(v@)[k]
            != target@ by {}
    }
    None
}

/// Removes every string equal to `target` from `v`, keeping order.
pub(crate) fn remove_matching(v: &mut Vec<String>, target: &String)
    ensures
        strs_view(final(v)@) == without(strs_view(old(v)@), target@),
{
    let mut kept: Vec<String> = Vec::new();
    let mut i: usize = 0;
    while i < v.len()
        invariant
            i <= v.len(),
            v@ == old(v)@,
            strs_view(kept@) == without(strs_view(v@).subrange(0, i as int), target@),
        decreases v.len() - i,
    {
        let ghost pre = strs_view(v@).subrange(0, i as int);
        let ghost prev = strs_view(kept@);
        if !(v[i] == *target) {
            kept.push(v[i].clone());
            proof {
                assert(strs_view(kept@) =~= prev.push(v@[i as int]@));
            }
        }
        proof {
            assert(strs_view(v@).subrange(0, i as int + 1) =~= pre.push(v@[i as int]@));
            lemma_without_push(pre, v@[i as int]@, target@);
        }
        i = i + 1;
    }
    proof {
        assert(strs_view(v@).subrange(0, v@.len() as int) =~= strs_view(v@));
    }
    *v = kept;
}

impl GameState {
    /// A fresh room: empty board, no members, no creator, `Ready` phase.
    pub fn new() -> (r: GameState)
        ensures
            r@.wf(),
            r@.session_inv(),
            board_empty(r@.board),
            r@.current_turn == NO_TURN,
            r@.room_creator is None,
            r@.members.len() == 0,
            r@.player_queue.len() == 0,
            r@.active_players.len() == 0,
            r@.phase is Ready,
            r@.game_id is None,
    {
        let r = GameState {
            board: Board::new(),
            current_turn: NO_TURN,
            room_creator: None,
            members: Vec::new(),
            player_queue: Vec::new(),
            active_players: Vec::new(),
            phase: GamePhase::Ready,
            game_id: None,
        };
        proof {
            assert(strs_view(r.members@) =~= Seq::<Seq<char>>::empty());
            assert(strs_view(r.player_queue@) =~= Seq::<Seq<char>>::empty());
            assert(strs_view(r.active_players@) =~= Seq::<Seq<char>>::empty());
        }
        r
    }

    /// Adds `member` to the room if absent and returns its positional handle;
    /// the first member to ever join becomes the room creator.
    pub fn add_member(&mut self, member: String) -> (id: usize)
        requires
            old(self)@.wf(),
        ensures
            final(self)@.wf(),
            (id as int) < final(self)@.members.len(),
            final(self)@.members[id as int] == member@,
            old(self)@.members.contains(member@) ==> {
                &&& final(self)@ == old(self)@
                &&& pos_of(old(self)@.members, member@) == id as int
            },
            !old(self)@.members.contains(member@) ==> {
                &&& id as int == old(self)@.members.len()
                &&& final(self)@ == (StateV {
                    members: old(self)@.members.push(member@),
                    room_creator: if old(self)@.room_creator is None {
                        Some(member@)
                    } else {
                        old(self)@.room_creator
                    },
                    ..old(self)@
                })
            },
            old(self)@.session_inv() ==> final(self)@.session_inv(),
    {
        match find_index(&self.members, &member) {
            Some(i) => {
                proof {
                    lemma_pos_of_unique(self@.members, member@, i as int);
                }
                i
            },
            None => {
                let id = self.members.len();
                if self.room_creator.is_none() {
                    self.room_creator = Some(member.clone());
                }
                self.members.push(member);
                proof {
                    assert(strs_view(self.members@) =~= strs_view(old(self).members@).push(
                        self.members@[id as int]@));
                    assert forall|i: int, j: int|
                        0 <= i < j < final(self)@.members.len() implies final(self)@.members[i]
                        != final(self)@.members[j] by {
                        if j < final(self)@.members.len() - 1 {
                            assert(old(self)@.members[i] != old(self)@.members[j]);
                        } else {
                            assert(old(self)@.members.contains(old(self)@.members[i]));
                        }
                    }
                    assert forall|i: int| 0 <= i < final(self)@.player_queue.len()
                        implies final(self)@.members.contains(
                            #[trigger] final(self)@.player_queue[i]) by {
                        assert(old(self)@.members.contains(old(self)@.player_queue[i]));
                        let k = choose|k: int| 0 <= k < old(self)@.members.len()
                            && old(self)@.members[k] == old(self)@.player_queue[i];
                        assert(final(self)@.members[k] == final(self)@.player_queue[i]);
                    }
                    assert forall|i: int| 0 <= i < final(self)@.active_players.len()
                        implies final(self)@.members.contains(
                            #[trigger] final(self)@.active_players[i]) by {
                        assert(old(self)@.members.contains(old(self)@.active_players[i]));
                        let k = choose|k: int| 0 <= k < old(self)@.members.len()
                            && old(self)@.members[k] == old(self)@.active_players[i];
                        assert(final(self)@.members[k] == final(self)@.active_players[i]);
                    }
                    if old(self)@.room_creator is Some {
                        let c = old(self)@.room_creator->0;
                        let k = choose|k: int| 0 <= k < old(self)@.members.len()
                            && old(self)@.members[k] == c;
                        assert(final(self)@.members[k] == c);
                    }
                    assert(final(self)@.members[id as int] == member@);
                }
                id
            },
        }
    }

    /// Removes `member` from the member list, the player queue and the active
    /// players; if it was the room creator, the first remaining member (if
    /// any) becomes creator. Phase and turn are left unchanged: ending a match
    /// that loses an active player is the caller's duty.
    pub fn remove_member(&mut self, member: String)
        requires
            old(self)@.wf(),
        ensures
            final(self)@.wf(),
            final(self)@.members == without(old(self)@.members, member@),
            final(self)@.player_queue == without(old(self)@.player_queue, member@),
            final(self)@.active_players == without(old(self)@.active_players, member@),
            final(self)@.room_creator == if old(self)@.room_creator == Some(member@) {
                if final(self)@.members.len() == 0 {
                    None::<Seq<char>>
                } else {
                    Some(final(self)@.members[0])
                }
            } else {
                old(self)@.room_creator
            },
            final(self)@.board == old(self)@.board,
            final(self)@.current_turn == old(self)@.current_turn,
            final(self)@.phase == old(self)@.phase,
            final(self)@.game_id == old(self)@.game_id,
    {
        proof {
            lemma_without(old(self)@.members, member@);
            lemma_without(old(self)@.player_queue, member@);
            lemma_without(old(self)@.active_players, member@);
        }
        remove_matching(&mut self.members, &member);
        remove_matching(&mut self.player_queue, &member);
        remove_matching(&mut self.active_players, &member);

        let was_creator = match &self.room_creator {
            Some(c) => *c == member,
            None => false,
        };
        if was_creator {
            if self.members.len() > 0 {
                self.room_creator = Some(self.members[0].clone());
                proof {
                    assert(final(self)@.members.contains(final(self)@.members[0]));
                }
            } else {
                self.room_creator = None;
            }
        }
        proof {
            let m1 = final(self)@.members;
            assert forall|i: int| 0 <= i < final(self)@.player_queue.len() implies m1.contains(
                #[trigger] final(self)@.player_queue[i]) by {
                let q1 = final(self)@.player_queue;
                assert(q1.contains(q1[i]));
                assert(old(self)@.player_queue.contains(q1[i]) && q1[i] != member@);
                assert(old(self)@.members.contains(q1[i]));
            }
            assert forall|i: int| 0 <= i < final(self)@.active_players.len() implies m1.contains(
                #[trigger] final(self)@.active_players[i]) by {
                let a1 = final(self)@.active_players;
                assert(a1.contains(a1[i]));
                assert(old(self)@.active_players.contains(a1[i]) && a1[i] != member@);
                assert(old(self)@.members.contains(a1[i]));
            }
            assert forall|i: int| 0 <= i < final(self)@.player_queue.len()
                implies !final(self)@.active_players.contains(
                    #[trigger] final(self)@.player_queue[i]) by {
                let q1 = final(self)@.player_queue;
                assert(q1.contains(q1[i]));
                assert(old(self)@.player_queue.contains(q1[i]));
                if final(self)@.active_players.contains(q1[i]) {
                    assert(old(self)@.active_players.contains(q1[i]));
                    let k = choose|k: int| 0 <= k < old(self)@.player_queue.len()
                        && old(self)@.player_queue[k] == q1[i];
                    assert(!old(self)@.active_players.contains(old(self)@.player_queue[k]));
                }
            }
            if !(old(self)@.room_creator == Some(member@)) && old(self)@.room_creator is Some {
                let c = old(self)@.room_creator->0;
                assert(old(self)@.members.contains(c) && c != member@);
                assert(m1.contains(c));
            }
        }
    }

    /// Volunteers the member with handle `member_id` to play next. Fails if
    /// the handle is invalid or the member is already queued or playing.
    pub fn step_up(&mut self, member_id: usize) -> (r: bool)
        requires
            old(self)@.wf(),
        ensures
            final(self)@.wf(),
            r == ({
                &&& (member_id as int) < old(self)@.members.len()
                &&& !old(self)@.player_queue.contains(old(self)@.members[member_id as int])
                &&& !old(self)@.active_players.contains(old(self)@.members[member_id as int])
            }),
            r ==> final(self)@ == (StateV {
                player_queue: old(self)@.player_queue.push(
                    old(self)@.members[member_id as int]),
                ..old(self)@
            }),
            !r ==> final(self)@ == old(self)@,
            old(self)@.session_inv() ==> final(self)@.session_inv(),
    {
        if member_id >= self.members.len() {
            return false;
        }
        let member = self.members[member_id].clone();
        if find_index(&self.player_queue, &member).is_some() {
            return false;
        }
        if find_index(&self.active_players, &member).is_some() {
            return false;
        }
        self.player_queue.push(member);
        proof {
            let q1 = final(self)@.player_queue;
            assert(q1 =~= old(self)@.player_queue.push(old(self)@.members[member_id as int]));
            assert forall|i: int, j: int| 0 <= i < j < q1.len() implies q1[i] != q1[j] by {
                if j == q1.len() - 1 {
                    assert(strs_view(old(self).player_queue@)[i] == q1[i]);
                    assert(old(self)@.player_queue.contains(q1[i]));
                }
            }
            assert forall|i: int| 0 <= i < q1.len() implies final(self)@.members.contains(
                #[trigger] q1[i]) by {
                if i < q1.len() - 1 {
                    assert(old(self)@.members.contains(old(self)@.player_queue[i]));
                } else {
                    assert(old(self)@.members.contains(old(self)@.members[member_id as int]));
                }
            }
            assert forall|i: int| 0 <= i < q1.len()
                implies !final(self)@.active_players.contains(#[trigger] q1[i]) by {
                if i < q1.len() - 1 {
                    assert(!old(self)@.active_players.contains(old(self)@.player_queue[i]));
                }
            }
        }
        true
    }

    /// Withdraws the member with handle `member_id` from the player queue.
    /// Fails if the handle is invalid or the member is not queued.
    pub fn step_down(&mut self, member_id: usize) -> (r: bool)
        requires
            old(self)@.wf(),
        ensures
            final(self)@.wf(),
            r == ({
                &&& (member_id as int) < old(self)@.members.len()
                &&& old(self)@.player_queue.contains(old(self)@.members[member_id as int])
            }),
            r ==> final(self)@ == (StateV {
                player_queue: without(
                    old(self)@.player_queue, old(self)@.members[member_id as int]),
                ..old(self)@
            }),
            !r ==> final(self)@ == old(self)@,
            old(self)@.session_inv() ==> final(self)@.session_inv(),
    {
        if member_id >= self.members.len() {
            return false;
        }
        let member = self.members[member_id].clone();
        if find_index(&self.player_queue, &member).is_none() {
            return false;
        }
        proof {
            lemma_without(old(self)@.player_queue, member@);
        }
        remove_matching(&mut self.player_queue, &member);
        proof {
            let q1 = final(self)@.player_queue;
            assert forall|i: int| 0 <= i < q1.len() implies final(self)@.members.contains(
                #[trigger] q1[i]) by {
                assert(q1.contains(q1[i]));
                assert(old(self)@.player_queue.contains(q1[i]));
                assert(old(self)@.members.contains(q1[i]));
            }
            assert forall|i: int| 0 <= i < q1.len()
                implies !final(self)@.active_players.contains(#[trigger] q1[i]) by {
                assert(q1.contains(q1[i]));
                let k = choose|k: int| 0 <= k < old(self)@.player_queue.len()
                    && old(self)@.player_queue[k] == q1[i];
                assert(!old(self)@.active_players.contains(old(self)@.player_queue[k]));
            }
        }
        true
    }

    /// Whether the member with handle `member_id` is the room creator.
    pub fn is_room_creator(&self, member_id: usize) -> (r: bool)
        requires
            self@.wf(),
        ensures
            r == ((member_id as int) < self@.members.len() && self@.room_creator == Some(
                self@.members[member_id as int])),
    {
        if member_id >= self.members.len() {
            return false;
        }
        match &self.room_creator {
            Some(c) => *c == self.members[member_id],
            None => false,
        }
    }

    /// Whether the member with handle `member_id` is currently playing.
    pub fn is_active_player(&self, member_id: usize) -> (r: bool)
        requires
            self@.wf(),
        ensures
            r == ((member_id as int) < self@.members.len() && self@.active_players.contains(
                self@.members[member_id as int])),
    {
        if member_id >= self.members.len() {
            return false;
        }
        let member = self.members[member_id].clone();
        find_index(&self.active_players, &member).is_some()
    }

    /// The player slots of an active match, in turn order.
    pub fn get_acting_players(&mut self) -> (r: Vec<usize>)
        ensures
            *final(self) == *old(self),
            r@ == seq![0usize, 1usize],
    {
        let mut r: Vec<usize> = Vec::new();
        r.push(0);
        r.push(1);
        proof {
            assert(r@ =~= seq![0usize, 1usize]);
        }
        r
    }

    /// Starts a match: only the room creator may start one, and only with at
    /// least two queued volunteers. On success the first two queued identities
    /// (FIFO) become the active players, the board is cleared, the phase turns
    /// to `Action`, and the first active player is to move.
    pub fn start_game(&mut self, member_id: usize) -> (r: bool)
        requires
            old(self)@.wf(),
        ensures
            final(self)@.wf(),
            r == ({
                &&& (member_id as int) < old(self)@.members.len()
                &&& old(self)@.room_creator == Some(old(self)@.members[member_id as int])
                &&& old(self)@.player_queue.len() >= 2
            }),
            r ==> {
                &&& final(self)@.active_players == old(self)@.player_queue.subrange(0, 2)
                &&& final(self)@.player_queue == old(self)@.player_queue.skip(2)
                &&& board_wf(final(self)@.board)
                &&& board_empty(final(self)@.board)
                &&& final(self)@.phase is Action
                &&& final(self)@.current_turn == 0
                &&& final(self)@.members == old(self)@.members
                &&& final(self)@.room_creator == old(self)@.room_creator
                &&& final(self)@.game_id == old(self)@.game_id
                &&& final(self)@.session_inv()
            },
            !r ==> final(self)@ == old(self)@,
    {
        if member_id >= self.members.len() {
            return false;
        }
        let is_creator = match &self.room_creator {
            Some(c) => *c == self.members[member_id],
            None => false,
        };
        if !is_creator {
            return false;
        }
        if self.player_queue.len() < 2 {
            return false;
        }
        let ghost q0 = old(self)@.player_queue;
        let p0 = self.player_queue.remove(0);
        let p1 = self.player_queue.remove(0);
        let mut actives: Vec<String> = Vec::new();
        actives.push(p0);
        actives.push(p1);
        self.active_players = actives;
        self.reset();
        self.phase = GamePhase::Action;
        proof {
            let a1 = final(self)@.active_players;
            let q1 = final(self)@.player_queue;
            assert(a1 =~= q0.subrange(0, 2));
            assert(q1 =~= q0.skip(2));
            assert(a1[0] == q0[0] && a1[1] == q0[1]);
            assert(distinct_seq(a1)) by {
                assert(q0[0] != q0[1]);
            }
            assert forall|i: int| 0 <= i < a1.len() implies final(self)@.members.contains(
                #[trigger] a1[i]) by {
                assert(q0.contains(q0[i]));
                assert(old(self)@.members.contains(q0[i]));
            }
            assert forall|i: int| 0 <= i < q1.len() implies final(self)@.members.contains(
                #[trigger] q1[i]) by {
                assert(q0.contains(q0[i + 2]));
                assert(old(self)@.members.contains(q0[i + 2]));
            }
            assert forall|i: int| 0 <= i < q1.len() implies !a1.contains(#[trigger] q1[i]) by {
                assert(q1[i] == q0[i + 2]);
                assert(q0[i + 2] != q0[0] && q0[i + 2] != q0[1]);
                assert(forall|k: int| 0 <= k < a1.len() ==> a1[k] == q0[k]);
            }
            assert forall|i: int, j: int| 0 <= i < j < q1.len() implies q1[i] != q1[j] by {
                assert(q1[i] == q0[i + 2]);
                assert(q1[j] == q0[j + 2]);
            }
            assert(distinct_seq(q1));
        }
        true
    }

    /// The length of the longest contiguous run of same-slot marks through
    /// `(x, y)`: the best of the four axes, counting both directions from
    /// the cell plus the cell itself; 0 on an empty cell. The run reaches
    /// `WINNING_TRAIL` exactly when the mark sits in a five-in-a-row.
    fn count_trail(&self, x: usize, y: usize) -> (r: usize)
        requires
            self@.wf(),
            in_bounds(x as int, y as int),
        ensures
            r as int == trail_len(self@.board, x as int, y as int),
            cell_at(self@.board, x as int, y as int) is Some ==> 1 <= r <= 10,
            cell_at(self@.board, x as int, y as int) is Some ==> (r >= WINNING_TRAIL
                <==> five_through(self@.board, x as int, y as int)),
    {
        let idx = x * BOARD_HEIGHT + y;
        let v = match self.board.cells[idx] {
            Some(v) => v,
            None => {
                return 0;
            },
        };
        let ghost b = self@.board;
        let ghost xi = x as int;
        let ghost yi = y as int;

        let f1 = count_dir(&self.board.cells, v, x, y, 1, 1);
        let b1 = count_dir(&self.board.cells, v, x, y, -1, -1);
        proof {
            lemma_axis_five(b, v, xi, yi, 1, 1, f1 as int, b1 as int);
            lemma_max_run_is(b, v, xi, yi, 1, 1, f1 as int);
            lemma_max_run_is(b, v, xi, yi, -1, -1, b1 as int);
            // Both directions stay on the grid, so the run fits its width.
            if f1 > 0 {
                assert(run_cell_ok(b, v, xi, yi, 1, 1, f1 as int));
            }
            if b1 > 0 {
                assert(run_cell_ok(b, v, xi, yi, -1, -1, b1 as int));
            }
            assert(f1 + b1 + 1 <= 10);
        }
        let run1 = f1 + b1 + 1;

        let f2 = count_dir(&self.board.cells, v, x, y, 1, -1);
        let b2 = count_dir(&self.board.cells, v, x, y, -1, 1);
        proof {
            lemma_axis_five(b, v, xi, yi, 1, -1, f2 as int, b2 as int);
            lemma_max_run_is(b, v, xi, yi, 1, -1, f2 as int);
            lemma_max_run_is(b, v, xi, yi, -1, 1, b2 as int);
            if f2 > 0 {
                assert(run_cell_ok(b, v, xi, yi, 1, -1, f2 as int));
            }
            if b2 > 0 {
                assert(run_cell_ok(b, v, xi, yi, -1, 1, b2 as int));
            }
            assert(f2 + b2 + 1 <= 10);
        }
        let run2 = f2 + b2 + 1;

        let f3 = count_dir(&self.board.cells, v, x, y, 0, 1);
        let b3 = count_dir(&self.board.cells, v, x, y, 0, -1);
        proof {
            lemma_axis_five(b, v, xi, yi, 0, 1, f3 as int, b3 as int);
            lemma_max_run_is(b, v, xi, yi, 0, 1, f3 as int);
            lemma_max_run_is(b, v, xi, yi, 0, -1, b3 as int);
            if f3 > 0 {
                assert(run_cell_ok(b, v, xi, yi, 0, 1, f3 as int));
            }
            if b3 > 0 {
                assert(run_cell_ok(b, v, xi, yi, 0, -1, b3 as int));
            }
            assert(f3 + b3 + 1 <= 10);
        }
        let run3 = f3 + b3 + 1;

        let f4 = count_dir(&self.board.cells, v, x, y, 1, 0);
        let b4 = count_dir(&self.board.cells, v, x, y, -1, 0);
        proof {
            lemma_axis_five(b, v, xi, yi, 1, 0, f4 as int, b4 as int);
            lemma_max_run_is(b, v, xi, yi, 1, 0, f4 as int);
            lemma_max_run_is(b, v, xi, yi, -1, 0, b4 as int);
            if f4 > 0 {
                assert(run_cell_ok(b, v, xi, yi, 1, 0, f4 as int));
            }
            if b4 > 0 {
                assert(run_cell_ok(b, v, xi, yi, -1, 0, b4 as int));
            }
            assert(f4 + b4 + 1 <= 10);
        }
        let run4 = f4 + b4 + 1;

        proof {
            assert(axis_run(b, xi, yi, 1, 1) == run1 as int);
            assert(axis_run(b, xi, yi, 1, -1) == run2 as int);
            assert(axis_run(b, xi, yi, 0, 1) == run3 as int);
            assert(axis_run(b, xi, yi, 1, 0) == run4 as int);
        }

        let mut best = run1;
        if run2 > best {
            best = run2;
        }
        if run3 > best {
            best = run3;
        }
        if run4 > best {
            best = run4;
        }
        proof {
            if best >= WINNING_TRAIL {
                assert(five_in_dir(b, v, xi, yi, 1, 1) || five_in_dir(b, v, xi, yi, 1, -1)
                    || five_in_dir(b, v, xi, yi, 0, 1) || five_in_dir(b, v, xi, yi, 1, 0));
                assert(five_through(b, xi, yi));
            }
            if five_through(b, xi, yi) {
                let (dx, dy) = choose|dx: int, dy: int| crate::board::is_axis(dx, dy)
                    && #[trigger] five_in_dir(b, cell_at(b, xi, yi)->0, xi, yi, dx, dy);
                if dx == 1 && dy == 1 {
                    assert(run1 >= WINNING_TRAIL);
                } else if dx == 1 && dy == -1 {
                    assert(run2 >= WINNING_TRAIL);
                } else if dx == 0 && dy == 1 {
                    assert(run3 >= WINNING_TRAIL);
                } else {
                    assert(run4 >= WINNING_TRAIL);
                }
                assert(best >= WINNING_TRAIL);
            }
            assert(best as int == trail_len(b, xi, yi));
        }
        best
    }

    /// Whether every cell of the board is occupied.
    fn is_board_full(&self) -> (r: bool)
        requires
            self@.wf(),
        ensures
            r == board_full(self@.board),
    {
        let mut i: usize = 0;
        while i < BOARD_CELLS
            invariant
                i <= BOARD_CELLS,
                board_wf(self@.board),
                forall|k: int| 0 <= k < i as int ==> (#[trigger] self@.board[k]) is Some,
            decreases BOARD_CELLS - i,
        {
            if self.board.cells[i].is_none() {
                return false;
            }
            i = i + 1;
        }
        true
    }

    /// Applies the move of the member with handle `member_id` at `(x, y)`.
    /// Rejects it unless that member is an active player, it is its turn, and
    /// the target cell is a free cell of the grid. A move that completes a
    /// five-in-a-row wins even if it also fills the board; filling the board
    /// without a five-in-a-row is a draw; both outcomes end the match.
    pub fn place(&mut self, x: usize, y: usize, member_id: usize) -> (r: MoveResult)
        requires
            old(self)@.wf(),
        ensures
            final(self)@.wf(),
            r is Rejected <==> !old(self)@.move_valid(x as int, y as int, member_id as int),
            !old(self)@.move_valid(x as int, y as int, member_id as int) ==> final(self)@ == old(
                self)@,
            old(self)@.move_valid(x as int, y as int, member_id as int) ==> ({
                let b1 = old(self)@.board.update(
                    x as int * (BOARD_HEIGHT as int) + y as int,
                    Some(old(self)@.current_turn),
                );
                let win = five_through(b1, x as int, y as int);
                let full = board_full(b1);
                &&& final(self)@.board == b1
                &&& final(self)@.members == old(self)@.members
                &&& final(self)@.player_queue == old(self)@.player_queue
                &&& final(self)@.active_players == old(self)@.active_players
                &&& final(self)@.room_creator == old(self)@.room_creator
                &&& final(self)@.game_id == old(self)@.game_id
                &&& (r is Win <==> win)
                &&& (r is Draw <==> (!win && full))
                &&& (r is Placed <==> (!win && !full))
                &&& ((win || full) ==> final(self)@.current_turn == NO_TURN && final(
                    self)@.phase is Scoreboard)
                &&& (!win && !full ==> final(self)@.current_turn as int == 1 - old(
                    self)@.current_turn as int && final(self)@.phase == old(self)@.phase)
            }),
            old(self)@.session_inv() ==> final(self)@.session_inv(),
    {
        let ghost s0 = old(self)@;
        if member_id >= self.members.len() {
            return MoveResult::Rejected;
        }
        let member = self.members[member_id].clone();
        let player_index = match find_index(&self.active_players, &member) {
            Some(p) => p,
            None => {
                return MoveResult::Rejected;
            },
        };
        proof {
            lemma_pos_of_unique(s0.active_players, member@, player_index as int);
        }
        if x >= BOARD_WIDTH || y >= BOARD_HEIGHT {
            return MoveResult::Rejected;
        }
        let idx = x * BOARD_HEIGHT + y;
        if self.board.cells[idx].is_some() {
            return MoveResult::Rejected;
        }
        if player_index != self.current_turn {
            return MoveResult::Rejected;
        }
        assert(s0.move_valid(x as int, y as int, member_id as int));
        self.board.cells[idx] = Some(player_index);
        proof {
            assert(self@.board == s0.board.update(
                x as int * (BOARD_HEIGHT as int) + y as int,
                Some(s0.current_turn),
            ));
        }
        if self.count_trail(x, y) >= WINNING_TRAIL {
            self.current_turn = NO_TURN;
            self.phase = GamePhase::Scoreboard;
            return MoveResult::Win;
        }
        if self.is_board_full() {
            self.current_turn = NO_TURN;
            self.phase = GamePhase::Scoreboard;
            return MoveResult::Draw;
        }
        self.current_turn = (self.current_turn + 1) % ACTING_PLAYER;
        MoveResult::Placed
    }

    /// The positional handles of the given identities, in the order given,
    /// skipping names that are not members.
    pub fn get_member_indices(&self, names: &[String]) -> (r: Vec<usize>)
        requires
            self@.wf(),
        ensures
            r@.len() == member_indices(self@.members, strs_view(names@)).len(),
            forall|k: int| 0 <= k < r@.len() ==> (#[trigger] r@[k]) as int == member_indices(
                self@.members, strs_view(names@))[k],
    {
        let ghost ms = self@.members;
        let ghost ns = strs_view(names@);
        let mut r: Vec<usize> = Vec::new();
        let mut i: usize = 0;
        proof {
            assert(ns.take(0) =~= Seq::<Seq<char>>::empty());
            assert(ns.skip(0) =~= ns);
            assert(member_indices(ms, ns.take(0)) =~= Seq::<int>::empty());
            assert(member_indices(ms, ns.take(0)) + member_indices(ms, ns.skip(0))
                =~= member_indices(ms, ns));
        }
        while i < names.len()
            invariant
                i <= names.len(),
                self@.wf(),
                ns == strs_view(names@),
                ms == self@.members,
                member_indices(ms, ns) == {
                    let done = member_indices(ms, ns.take(i as int));
                    done + member_indices(ms, ns.skip(i as int))
                },
                r@.len() == member_indices(ms, ns.take(i as int)).len(),
                forall|k: int| 0 <= k < r@.len() ==> (#[trigger] r@[k]) as int == member_indices(
                    ms, ns.take(i as int))[k],
            decreases names.len() - i,
        {
            let ghost done = member_indices(ms, ns.take(i as int));
            match find_index(&self.members, &names[i]) {
                Some(p) => {
                    proof {
                        lemma_pos_of_unique(ms, ns[i as int], p as int);
                    }
                    r.push(p);
                },
                None => {},
            }
            proof {
                lemma_member_indices_take_step(ms, ns, i as int);
            }
            i = i + 1;
        }
        proof {
            assert(ns.take(ns.len() as int) =~= ns);
            assert(ns.skip(ns.len() as int) =~= Seq::<Seq<char>>::empty());
            assert(member_indices(ms, ns.skip(ns.len() as int)) =~= Seq::<int>::empty());
            assert(member_indices(ms, ns.take(ns.len() as int)) + member_indices(
                ms, ns.skip(ns.len() as int)) =~= member_indices(ms, ns.take(ns.len() as int)));
        }
        r
    }

    /// Records the correlation handle of the freshly created match record.
    pub fn set_game_id(&mut self, game_id: String)
        requires
            old(self)@.wf(),
        ensures
            final(self)@ == (StateV { game_id: Some(game_id@), ..old(self)@ }),
            final(self)@.wf(),
            old(self)@.session_inv() ==> final(self)@.session_inv(),
    {
        self.game_id = Some(game_id);
    }

    /// Returns the room to `Ready` once the match outcome has been reported:
    /// clears the active players, the correlation handle and the turn.
    pub fn finish_match(&mut self)
        requires
            old(self)@.wf(),
        ensures
            final(self)@ == (StateV {
                phase: GamePhase::Ready,
                current_turn: NO_TURN,
                active_players: Seq::<Seq<char>>::empty(),
                game_id: None::<Seq<char>>,
                ..old(self)@
            }),
            final(self)@.wf(),
            final(self)@.session_inv(),
    {
        self.phase = GamePhase::Ready;
        self.current_turn = NO_TURN;
        self.active_players = Vec::new();
        self.game_id = None;
        proof {
            assert(strs_view(self.active_players@) =~= Seq::<Seq<char>>::empty());
            assert(disjoint_with(final(self)@.player_queue, final(self)@.active_players));
        }
    }

    /// Clears the board and hands the turn to the first active player.
    fn reset(&mut self)
        requires
            board_wf(old(self)@.board),
        ensures
            final(self)@ == (StateV {
                board: final(self)@.board,
                current_turn: 0usize,
                ..old(self)@
            }),
            board_wf(final(self)@.board),
            board_empty(final(self)@.board),
    {
        self.board.clear();
        self.current_turn = 0;
    }
}

} // verus!
