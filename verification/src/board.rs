//! The playing grid and the five-in-a-row rules engine.
//!
//! The grid is a fixed 10 x 10 board whose cells are either empty or hold the
//! slot (0 or 1) of the active player who marked them. A move wins when the
//! contiguous run of same-slot cells through the placed cell, along any of the
//! four axes (horizontal, vertical, the two diagonals), reaches five.

use vstd::prelude::*;

verus! {

/// Width of the playing grid.
pub const BOARD_WIDTH: usize = 10;

/// Height of the playing grid.
pub const BOARD_HEIGHT: usize = 10;

/// Number of cells in the playing grid.
pub const BOARD_CELLS: usize = 100;

/// Length of a run that wins the match.
pub const WINNING_TRAIL: usize = 5;

/// The playing grid, stored row-major: cell `(x, y)` lives at index
/// `x * BOARD_HEIGHT + y`.
#[derive(Debug, PartialEq, Eq)]
pub struct Board {
    pub cells: Vec<Option<usize>>,
}

/// `(x, y)` lies on the grid.
pub open spec fn in_bounds(x: int, y: int) -> bool {
    0 <= x < BOARD_WIDTH as int && 0 <= y < BOARD_HEIGHT as int
}

/// The cell of `b` at grid position `(x, y)`.
pub open spec fn cell_at(b: Seq<Option<usize>>, x: int, y: int) -> Option<usize> {
    b[x * (BOARD_HEIGHT as int) + y]
}

/// A well-formed grid: exactly 100 cells, each empty or marked by slot 0 or 1.
pub open spec fn board_wf(b: Seq<Option<usize>>) -> bool {
    &&& b.len() == BOARD_CELLS as int
    &&& forall|i: int| 0 <= i < b.len() ==> ((#[trigger] b[i]) is Some ==> b[i]->0 < 2)
}

/// Every cell of the grid is empty.
pub open spec fn board_empty(b: Seq<Option<usize>>) -> bool {
    forall|i: int| 0 <= i < b.len() ==> (#[trigger] b[i]) is None
}

/// Every cell of the grid is occupied.
pub open spec fn board_full(b: Seq<Option<usize>>) -> bool {
    forall|i: int| 0 <= i < b.len() ==> (#[trigger] b[i]) is Some
}

/// `(dx, dy)` is one of the four axes a run is counted along.
pub open spec fn is_axis(dx: int, dy: int) -> bool {
    ||| (dx == 1 && dy == 1)
    ||| (dx == 1 && dy == -1)
    ||| (dx == 0 && dy == 1)
    ||| (dx == 1 && dy == 0)
}

/// The cell `j` steps from `(x, y)` along `(dx, dy)` is on the grid and holds `v`.
pub open spec fn run_cell_ok(
    b: Seq<Option<usize>>,
    v: usize,
    x: int,
    y: int,
    dx: int,
    dy: int,
    j: int,
) -> bool {
    &&& in_bounds(x + j * dx, y + j * dy)
    &&& cell_at(b, x + j * dx, y + j * dy) == Some(v)
}

/// The `n` cells strictly after `(x, y)` along `(dx, dy)` all hold `v`.
pub open spec fn run_matches(
    b: Seq<Option<usize>>,
    v: usize,
    x: int,
    y: int,
    dx: int,
    dy: int,
    n: int,
) -> bool {
    forall|j: int| 1 <= j <= n ==> #[trigger] run_cell_ok(b, v, x, y, dx, dy, j)
}

/// Cell number `j` of the five-cell window starting `o` steps from `(x, y)`
/// along `(dx, dy)` is on the grid and holds `v`.
pub open spec fn window_cell_ok(
    b: Seq<Option<usize>>,
    v: usize,
    x: int,
    y: int,
    dx: int,
    dy: int,
    o: int,
    j: int,
) -> bool {
    &&& in_bounds(x + (o + j) * dx, y + (o + j) * dy)
    &&& cell_at(b, x + (o + j) * dx, y + (o + j) * dy) == Some(v)
}

/// Five consecutive cells along `(dx, dy)`, offsets `o` to `o + 4` from
/// `(x, y)`, all hold `v`.
pub open spec fn window_matches(
    b: Seq<Option<usize>>,
    v: usize,
    x: int,
    y: int,
    dx: int,
    dy: int,
    o: int,
) -> bool {
    forall|j: int| 0 <= j < 5 ==> #[trigger] window_cell_ok(b, v, x, y, dx, dy, o, j)
}

/// The number of consecutive `v` cells strictly after `(x, y)` along
/// `(dx, dy)`: the unique count whose cells all match and whose next cell
/// does not.
pub open spec fn max_run(
    b: Seq<Option<usize>>,
    v: usize,
    x: int,
    y: int,
    dx: int,
    dy: int,
) -> int {
    choose|n: int|
        0 <= n && run_matches(b, v, x, y, dx, dy, n) && !run_cell_ok(b, v, x, y, dx, dy, n + 1)
}

/// A count whose cells all match and whose next cell does not is the maximal
/// run.
pub proof fn lemma_max_run_is(
    b: Seq<Option<usize>>,
    v: usize,
    x: int,
    y: int,
    dx: int,
    dy: int,
    n: int,
)
    requires
        0 <= n,
        run_matches(b, v, x, y, dx, dy, n),
        !run_cell_ok(b, v, x, y, dx, dy, n + 1),
    ensures
        max_run(b, v, x, y, dx, dy) == n,
{
    assert(0 <= n && run_matches(b, v, x, y, dx, dy, n) && !run_cell_ok(
        b, v, x, y, dx, dy, n + 1));
    let m = max_run(b, v, x, y, dx, dy);
    if m < n {
        assert(run_cell_ok(b, v, x, y, dx, dy, m + 1));
        assert(false);
    }
    if n < m {
        assert(run_cell_ok(b, v, x, y, dx, dy, n + 1));
        assert(false);
    }
}

/// The length of the contiguous run of the slot at `(x, y)` through that
/// cell along one axis: both directions plus the cell itself.
pub open spec fn axis_run(b: Seq<Option<usize>>, x: int, y: int, dx: int, dy: int) -> int {
    let v = cell_at(b, x, y)->0;
    max_run(b, v, x, y, dx, dy) + max_run(b, v, x, y, -dx, -dy) + 1
}

/// The length of the longest contiguous same-slot run through `(x, y)` over
/// the four axes; 0 on an empty cell.
pub open spec fn trail_len(b: Seq<Option<usize>>, x: int, y: int) -> int {
    if cell_at(b, x, y) is None {
        0
    } else {
        let a1 = axis_run(b, x, y, 1, 1);
        let a2 = axis_run(b, x, y, 1, -1);
        let a3 = axis_run(b, x, y, 0, 1);
        let a4 = axis_run(b, x, y, 1, 0);
        if a1 >= a2 && a1 >= a3 && a1 >= a4 {
            a1
        } else if a2 >= a3 && a2 >= a4 {
            a2
        } else if a3 >= a4 {
            a3
        } else {
            a4
        }
    }
}

/// Some five-cell window through `(x, y)` along `(dx, dy)` is entirely `v`.
pub open spec fn five_in_dir(
    b: Seq<Option<usize>>,
    v: usize,
    x: int,
    y: int,
    dx: int,
    dy: int,
) -> bool {
    exists|o: int| -4 <= o <= 0 && window_matches(b, v, x, y, dx, dy, o)
}

/// The cell at `(x, y)` is marked and sits inside a five-in-a-row of its own
/// slot along one of the four axes.
pub open spec fn five_through(b: Seq<Option<usize>>, x: int, y: int) -> bool {
    &&& cell_at(b, x, y) is Some
    &&& exists|dx: int, dy: int|
        is_axis(dx, dy) && #[trigger] five_in_dir(b, cell_at(b, x, y)->0, x, y, dx, dy)
}

impl Board {
    /// An entirely empty grid.
    pub fn new() -> (r: Board)
        ensures
            board_wf(r.cells@),
            board_empty(r.cells@),
    {
        let mut cells: Vec<Option<usize>> = Vec::new();
        let mut i: usize = 0;
        while i < BOARD_CELLS
            invariant
                i <= BOARD_CELLS,
                cells@.len() == i as int,
                forall|k: int| 0 <= k < i as int ==> (#[trigger] cells@[k]) is None,
            decreases BOARD_CELLS - i,
        {
            cells.push(None);
            i = i + 1;
        }
        Board { cells }
    }

    /// Empties every cell, keeping the grid well formed.
    pub fn clear(&mut self)
        requires
            board_wf(old(self).cells@),
        ensures
            board_wf(final(self).cells@),
            board_empty(final(self).cells@),
    {
        let mut i: usize = 0;
        while i < BOARD_CELLS
            invariant
                i <= BOARD_CELLS,
                self.cells@.len() == BOARD_CELLS as int,
                forall|k: int| 0 <= k < i as int ==> (#[trigger] self.cells@[k]) is None,
                forall|k: int|
                    0 <= k < self.cells@.len() ==> ((#[trigger] self.cells@[k]) is Some
                        ==> self.cells@[k]->0 < 2),
            decreases BOARD_CELLS - i,
        {
            self.cells[i] = None;
            i = i + 1;
        }
    }

    /// A copy of this grid.
    pub fn duplicate(&self) -> (r: Board)
        ensures
            r.cells@ == self.cells@,
    {
        let mut cells: Vec<Option<usize>> = Vec::new();
        let mut i: usize = 0;
        while i < self.cells.len()
            invariant
                i <= self.cells.len(),
                cells@ =~= self.cells@.subrange(0, i as int),
            decreases self.cells.len() - i,
        {
            cells.push(self.cells[i]);
            i = i + 1;
        }
        proof {
            assert(cells@ =~= self.cells@);
        }
        Board { cells }
    }

    /// Reads the cell at `(x, y)`.
    pub fn get(&self, x: usize, y: usize) -> (r: Option<usize>)
        requires
            board_wf(self.cells@),
            in_bounds(x as int, y as int),
        ensures
            r == cell_at(self.cells@, x as int, y as int),
    {
        self.cells[x * BOARD_HEIGHT + y]
    }
}

/// Counts how many consecutive cells hold `v`, walking from `(x, y)` along
/// `(dx, dy)` and not counting `(x, y)` itself.
pub(crate) fn count_dir(
    cells: &Vec<Option<usize>>,
    v: usize,
    x: usize,
    y: usize,
    dx: i64,
    dy: i64,
) -> (n: usize)
    requires
        board_wf(cells@),
        in_bounds(x as int, y as int),
        -1 <= dx as int <= 1,
        -1 <= dy as int <= 1,
        !(dx == 0 && dy == 0),
    ensures
        n <= 9,
        run_matches(cells@, v, x as int, y as int, dx as int, dy as int, n as int),
        !run_cell_ok(cells@, v, x as int, y as int, dx as int, dy as int, n as int + 1),
{
    let mut n: usize = 0;
    let mut cx: i64 = x as i64 + dx;
    let mut cy: i64 = y as i64 + dy;
    loop
        invariant
            board_wf(cells@),
            in_bounds(x as int, y as int),
            -1 <= dx as int <= 1,
            -1 <= dy as int <= 1,
            !(dx == 0 && dy == 0),
            n <= 9,
            cx as int == x as int + (n as int + 1) * (dx as int),
            cy as int == y as int + (n as int + 1) * (dy as int),
            -10 <= cx as int <= 20,
            -10 <= cy as int <= 20,
            run_matches(cells@, v, x as int, y as int, dx as int, dy as int, n as int),
        decreases 20 - n,
    {
        proof {
            // The walk stays within one step of the grid, so n stays small.
            if dx == 1 {
                assert((n as int + 1) * 1int == n as int + 1) by (nonlinear_arith);
            } else if dx == -1 {
                assert((n as int + 1) * (-1int) == -(n as int + 1)) by (nonlinear_arith);
            } else if dy == 1 {
                assert((n as int + 1) * 1int == n as int + 1) by (nonlinear_arith);
            } else {
                assert((n as int + 1) * (-1int) == -(n as int + 1)) by (nonlinear_arith);
            }
        }
        if !(0 <= cx && cx < BOARD_WIDTH as i64 && 0 <= cy && cy < BOARD_HEIGHT as i64) {
            proof {
                assert(!run_cell_ok(
                    cells@, v, x as int, y as int, dx as int, dy as int, n as int + 1));
            }
            return n;
        }
        let idx: usize = (cx as usize) * BOARD_HEIGHT + (cy as usize);
        let hit = match cells[idx] {
            Some(w) => w == v,
            None => false,
        };
        if !hit {
            proof {
                assert(cell_at(cells@, cx as int, cy as int) != Some(v));
                assert(!run_cell_ok(
                    cells@, v, x as int, y as int, dx as int, dy as int, n as int + 1));
            }
            return n;
        }
        proof {
            // Position (cx, cy) is in bounds, so n + 1 steps stayed on the grid.
            if dx == 1 {
                assert(n < 9);
            } else if dx == -1 {
                assert(n < 9);
            } else if dy == 1 {
                assert(n < 9);
            } else {
                assert(n < 9);
            }
            assert(run_cell_ok(cells@, v, x as int, y as int, dx as int, dy as int, n as int + 1));
            assert((n as int + 2) * (dx as int) == (n as int + 1) * (dx as int) + dx as int)
                by (nonlinear_arith);
            assert((n as int + 2) * (dy as int) == (n as int + 1) * (dy as int) + dy as int)
                by (nonlinear_arith);
            assert(forall|j: int|
                1 <= j <= n as int + 1 ==> #[trigger] run_cell_ok(
                    cells@, v, x as int, y as int, dx as int, dy as int, j));
        }
        n = n + 1;
        cx = cx + dx;
        cy = cy + dy;
    }
}

/// Forward and backward run counts along one axis find a five-cell window
/// through `(x, y)` exactly when the combined run reaches five.
pub proof fn lemma_axis_five(
    b: Seq<Option<usize>>,
    v: usize,
    x: int,
    y: int,
    dx: int,
    dy: int,
    f: int,
    bk: int,
)
    requires
        in_bounds(x, y),
        cell_at(b, x, y) == Some(v),
        -1 <= dx <= 1,
        -1 <= dy <= 1,
        !(dx == 0 && dy == 0),
        0 <= f,
        0 <= bk,
        run_matches(b, v, x, y, dx, dy, f),
        !run_cell_ok(b, v, x, y, dx, dy, f + 1),
        run_matches(b, v, x, y, -dx, -dy, bk),
        !run_cell_ok(b, v, x, y, -dx, -dy, bk + 1),
    ensures
        f + bk + 1 >= 5 <==> five_in_dir(b, v, x, y, dx, dy),
{
    if f + bk + 1 >= 5 {
        let o = if bk >= 4 { -4int } else { -bk };
        assert(-4 <= o <= 0);
        assert(o + 4 <= f);
        assert forall|j: int| 0 <= j < 5 implies #[trigger] window_cell_ok(
            b, v, x, y, dx, dy, o, j) by {
            let t = o + j;
            assert(-bk <= t <= f);
            if t == 0 {
                assert(t * dx == 0 && t * dy == 0) by (nonlinear_arith)
                    requires t == 0;
            } else if t > 0 {
                assert(run_cell_ok(b, v, x, y, dx, dy, t));
            } else {
                assert(run_cell_ok(b, v, x, y, -dx, -dy, -t));
                assert((-t) * (-dx) == t * dx && (-t) * (-dy) == t * dy) by (nonlinear_arith);
            }
        }
        assert(window_matches(b, v, x, y, dx, dy, o));
        assert(five_in_dir(b, v, x, y, dx, dy));
    }
    if five_in_dir(b, v, x, y, dx, dy) {
        let o = choose|o: int| -4 <= o <= 0 && window_matches(b, v, x, y, dx, dy, o);
        // The window's trailing cells extend the backward run to at least -o.
        assert forall|j: int| 1 <= j <= -o implies #[trigger] run_cell_ok(
            b, v, x, y, -dx, -dy, j) by {
            assert(window_cell_ok(b, v, x, y, dx, dy, o, -j - o));
            assert((o + (-j - o)) * dx == (-j) * dx && j * (-dx) == (-j) * dx)
                by (nonlinear_arith);
            assert((o + (-j - o)) * dy == (-j) * dy && j * (-dy) == (-j) * dy)
                by (nonlinear_arith);
        }
        if bk < -o {
            assert(run_cell_ok(b, v, x, y, -dx, -dy, bk + 1));
            assert(false);
        }
        // The window's leading cells extend the forward run to at least o + 4.
        assert forall|j: int| 1 <= j <= o + 4 implies #[trigger] run_cell_ok(
            b, v, x, y, dx, dy, j) by {
            assert(window_cell_ok(b, v, x, y, dx, dy, o, j - o));
            assert((o + (j - o)) * dx == j * dx && (o + (j - o)) * dy == j * dy);
        }
        if f < o + 4 {
            assert(run_cell_ok(b, v, x, y, dx, dy, f + 1));
            assert(false);
        }
        assert(f + bk + 1 >= (o + 4) + (-o) + 1);
    }
}

} // verus!
