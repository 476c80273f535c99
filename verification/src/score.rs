use vstd::prelude::*;

use crate::board::Board;
use crate::board::cell_at;
use crate::board::coord_ok;
use crate::board::opponent;
use crate::board::player_ok;
use crate::board::spec_opponent;

verus! {

/// One directed scan from (x, y) along (dx, dy), taken up from step i:
/// consecutive own stones are counted until an Empty cell ends the scan
/// with one open end; a boundary or an opponent stone ends it without
/// one; at most six cells are looked at. Returns (count, open ends).
pub open spec fn spec_scan(b: Seq<u8>, p: u8, x: int, y: int, dx: int, dy: int, i: int) -> (
    int,
    int,
)
    decreases 6 - i,
{
    if i < 0 || i >= 6 {
        (0, 0)
    } else {
        let nx = x + i * dx;
        let ny = y + i * dy;
        if !coord_ok(nx, ny) {
            (0, 0)
        } else if cell_at(b, nx, ny) == p {
            let rest = spec_scan(b, p, x, y, dx, dy, i + 1);
            (rest.0 + 1, rest.1)
        } else if cell_at(b, nx, ny) == 0 {
            (0, 1)
        } else {
            (0, 0)
        }
    }
}

/// The pattern table: a (count, open ends) pair maps to a score. Open
/// ends only distinguish counts of two, three and four; a count of five
/// is worth the reserved win value; anything else is worth nothing.
pub open spec fn spec_pattern_score(count: int, open_ends: int) -> int {
    if count == 5 {
        1000000
    } else if count == 4 && open_ends == 2 {
        100000
    } else if count == 4 && open_ends == 1 {
        10000
    } else if count == 3 && open_ends == 2 {
        1000
    } else if count == 3 && open_ends == 1 {
        100
    } else if count == 2 && open_ends == 2 {
        100
    } else if count == 2 && open_ends == 1 {
        10
    } else if count == 1 {
        1
    } else {
        0
    }
}

/// Score of the pattern anchored at (x, y) along (dx, dy) for player p:
/// a run of p's stones through the anchor, so a cell that does not hold
/// p's own stone anchors nothing. The anchored cell and up to five
/// steps outward in the positive direction, plus up to five steps
/// outward in the negative direction, fold into one (count, open ends)
/// pair scored by the table.
pub open spec fn spec_line_score(b: Seq<u8>, p: u8, x: int, y: int, dx: int, dy: int) -> int {
    if cell_at(b, x, y) != p {
        0
    } else {
        let fwd = spec_scan(b, p, x, y, dx, dy, 0);
        let bwd = spec_scan(b, p, x, y, -dx, -dy, 1);
        spec_pattern_score(fwd.0 + bwd.0, fwd.1 + bwd.1)
    }
}

/// Sum of the pattern scores anchored at one cell over the four
/// canonical directions.
pub open spec fn spec_cell_potential(b: Seq<u8>, p: u8, x: int, y: int) -> int {
    spec_line_score(b, p, x, y, 1, 0) + spec_line_score(b, p, x, y, 0, 1) + spec_line_score(
        b,
        p,
        x,
        y,
        1,
        1,
    ) + spec_line_score(b, p, x, y, 1, -1)
}

/// Sum of the cell potentials of row y over the columns before x.
pub open spec fn spec_row_potential(b: Seq<u8>, p: u8, y: int, x: int) -> int
    decreases x,
{
    if x <= 0 {
        0
    } else {
        spec_row_potential(b, p, y, x - 1) + spec_cell_potential(b, p, x - 1, y)
    }
}

/// Sum of the full row potentials over the rows before y.
pub open spec fn spec_rows_potential(b: Seq<u8>, p: u8, y: int) -> int
    decreases y,
{
    if y <= 0 {
        0
    } else {
        spec_rows_potential(b, p, y - 1) + spec_row_potential(b, p, y - 1, 15)
    }
}

/// The line potential of player p: pattern scores summed over every
/// cell and every canonical direction.
pub open spec fn spec_potential(b: Seq<u8>, p: u8) -> int {
    spec_rows_potential(b, p, 15)
}

/// The heuristic value of a board from player p's perspective: p's own
/// line potential minus the opponent's.
pub open spec fn spec_evaluate(b: Seq<u8>, p: u8) -> int {
    spec_potential(b, p) - spec_potential(b, spec_opponent(p))
}

/// A cell potential lies between zero and four times the win value.
pub proof fn lemma_cell_potential_bounds(b: Seq<u8>, p: u8, x: int, y: int)
    ensures
        0 <= spec_cell_potential(b, p, x, y) <= 4000000,
{
}

/// A partial row potential is bounded by its cell count.
pub proof fn lemma_row_potential_bounds(b: Seq<u8>, p: u8, y: int, x: int)
    requires
        0 <= x <= 15,
    ensures
        0 <= spec_row_potential(b, p, y, x) <= 4000000 * x,
    decreases x,
{
    if x > 0 {
        lemma_row_potential_bounds(b, p, y, x - 1);
        lemma_cell_potential_bounds(b, p, x - 1, y);
    }
}

/// A partial rows potential is bounded by its row count.
pub proof fn lemma_rows_potential_bounds(b: Seq<u8>, p: u8, y: int)
    requires
        0 <= y <= 15,
    ensures
        0 <= spec_rows_potential(b, p, y) <= 60000000 * y,
    decreases y,
{
    if y > 0 {
        lemma_rows_potential_bounds(b, p, y - 1);
        lemma_row_potential_bounds(b, p, y - 1, 15);
    }
}

/// A player's line potential is bounded, and so is the heuristic value.
pub proof fn lemma_evaluate_bounds(b: Seq<u8>, p: u8)
    ensures
        0 <= spec_potential(b, p) <= 900000000,
        0 <= spec_potential(b, spec_opponent(p)) <= 900000000,
        -900000000 <= spec_evaluate(b, p) <= 900000000,
{
    lemma_rows_potential_bounds(b, p, 15);
    lemma_rows_potential_bounds(b, spec_opponent(p), 15);
}

/// The pattern-table ordering the evaluator owes: an open-ended run of
/// four outranks the same run blocked on one end, and an open run of
/// three outranks an open run of two.
pub proof fn lemma_pattern_ordering()
    ensures
        spec_pattern_score(4, 2) == 100000,
        spec_pattern_score(4, 1) == 10000,
        spec_pattern_score(4, 2) > spec_pattern_score(4, 1),
        spec_pattern_score(3, 2) == 1000,
        spec_pattern_score(2, 2) == 100,
        spec_pattern_score(3, 2) > spec_pattern_score(2, 2),
{
}

/// One directed scan, as executable code.
fn scan_dir(board: &Board, p: u8, x: usize, y: usize, dx: i32, dy: i32, i: u32) -> (r: (u32, u32))
    requires
        board.wf(),
        x < 15,
        y < 15,
        -1 <= dx <= 1,
        -1 <= dy <= 1,
        i <= 6,
    ensures
        r.0 == spec_scan(board@, p, x as int, y as int, dx as int, dy as int, i as int).0,
        r.1 == spec_scan(board@, p, x as int, y as int, dx as int, dy as int, i as int).1,
        r.0 + i <= 6,
        r.1 <= 1,
    decreases 6 - i,
{
    if i >= 6 {
        (0, 0)
    } else {
        proof {
            assert(dx == -1 || dx == 0 || dx == 1);
            assert(dy == -1 || dy == 0 || dy == 1);
            assert(-6 <= (i as int) * (dx as int) <= 6);
            assert(-6 <= (i as int) * (dy as int) <= 6);
        }
        let nx: i32 = x as i32 + (i as i32) * dx;
        let ny: i32 = y as i32 + (i as i32) * dy;
        if nx < 0 || nx >= 15 || ny < 0 || ny >= 15 {
            (0, 0)
        } else {
            let c = board.get(nx as usize, ny as usize);
            if c == p {
                let rest = scan_dir(board, p, x, y, dx, dy, i + 1);
                (rest.0 + 1, rest.1)
            } else if c == 0 {
                (0, 1)
            } else {
                (0, 0)
            }
        }
    }
}

/// Score of the pattern anchored at (x, y) along (dx, dy) for player p.
pub fn evaluate_line(board: &Board, p: u8, x: usize, y: usize, dx: i32, dy: i32) -> (r: i32)
    requires
        board.wf(),
        x < 15,
        y < 15,
        -1 <= dx <= 1,
        -1 <= dy <= 1,
    ensures
        r == spec_line_score(board@, p, x as int, y as int, dx as int, dy as int),
        0 <= r <= 1000000,
{
    if board.get(x, y) != p {
        return 0;
    }
    let fwd = scan_dir(board, p, x, y, dx, dy, 0);
    let bwd = scan_dir(board, p, x, y, -dx, -dy, 1);
    pattern_score(fwd.0 + bwd.0, fwd.1 + bwd.1)
}

/// The pattern table, as executable code.
fn pattern_score(count: u32, open_ends: u32) -> (r: i32)
    ensures
        r == spec_pattern_score(count as int, open_ends as int),
        0 <= r <= 1000000,
{
    if count == 5 {
        1000000
    } else if count == 4 && open_ends == 2 {
        100000
    } else if count == 4 && open_ends == 1 {
        10000
    } else if count == 3 && open_ends == 2 {
        1000
    } else if count == 3 && open_ends == 1 {
        100
    } else if count == 2 && open_ends == 2 {
        100
    } else if count == 2 && open_ends == 1 {
        10
    } else if count == 1 {
        1
    } else {
        0
    }
}

/// The line potential of player p over the whole board.
pub fn evaluate_player(board: &Board, p: u8) -> (r: i32)
    requires
        board.wf(),
    ensures
        r == spec_potential(board@, p),
        0 <= r <= 900000000,
{
    let mut total: i32 = 0;
    let mut y: usize = 0;
    while y < 15
        invariant
            board.wf(),
            y <= 15,
            total == spec_rows_potential(board@, p, y as int),
            0 <= total <= 60000000 * y,
        decreases 15 - y,
    {
        let mut x: usize = 0;
        while x < 15
            invariant
                board.wf(),
                y < 15,
                x <= 15,
                total == spec_rows_potential(board@, p, y as int) + spec_row_potential(
                    board@,
                    p,
                    y as int,
                    x as int,
                ),
                0 <= total <= 60000000 * y + 4000000 * x,
            decreases 15 - x,
        {
            proof {
                lemma_rows_potential_bounds(board@, p, y as int);
                lemma_row_potential_bounds(board@, p, y as int, x as int);
            }
            let s0 = evaluate_line(board, p, x, y, 1, 0);
            let s1 = evaluate_line(board, p, x, y, 0, 1);
            let s2 = evaluate_line(board, p, x, y, 1, 1);
            let s3 = evaluate_line(board, p, x, y, 1, -1);
            total = total + s0 + s1 + s2 + s3;
            x += 1;
        }
        y += 1;
    }
    proof {
        lemma_rows_potential_bounds(board@, p, 15);
    }
    total
}

/// The heuristic value of a board from player p's perspective.
pub fn evaluate_board(board: &Board, p: u8) -> (r: i32)
    requires
        board.wf(),
        player_ok(p),
    ensures
        r == spec_evaluate(board@, p),
        -900000000 <= r <= 900000000,
{
    let own = evaluate_player(board, p);
    let other = evaluate_player(board, opponent(p));
    own - other
}

} // verus!
