use vstd::prelude::*;

use crate::board::Board;
use crate::board::cell_at;
use crate::board::coord_ok;
use crate::board::grid_full;
use crate::board::grid_ok;

verus! {

/// Five consecutive cells of player p, starting at (x, y) and stepping
/// by (dx, dy).
pub open spec fn spec_line_win(b: Seq<u8>, p: u8, x: int, y: int, dx: int, dy: int) -> bool {
    &&& cell_at(b, x, y) == p
    &&& cell_at(b, x + dx, y + dy) == p
    &&& cell_at(b, x + 2 * dx, y + 2 * dy) == p
    &&& cell_at(b, x + 3 * dx, y + 3 * dy) == p
    &&& cell_at(b, x + 4 * dx, y + 4 * dy) == p
}

/// A five-in-a-row of player p whose in-bounds origin is (x, y), along
/// one of the four canonical directions: horizontal, vertical, diagonal,
/// or anti-diagonal.
pub open spec fn spec_win_at(b: Seq<u8>, p: u8, x: int, y: int) -> bool {
    ||| (x + 4 < 15 && spec_line_win(b, p, x, y, 1, 0))
    ||| (y + 4 < 15 && spec_line_win(b, p, x, y, 0, 1))
    ||| (x + 4 < 15 && y + 4 < 15 && spec_line_win(b, p, x, y, 1, 1))
    ||| (x >= 4 && y + 4 < 15 && spec_line_win(b, p, x, y, -1, 1))
}

/// Player p has five in a row somewhere on the board.
pub open spec fn spec_has_win(b: Seq<u8>, p: u8) -> bool {
    exists|x: int, y: int| coord_ok(x, y) && #[trigger] spec_win_at(b, p, x, y)
}

/// The verdict on a board: a win for a player, a draw, or still ongoing.
#[derive(Clone, Copy, PartialEq, Eq, Structural, Debug)]
pub enum Terminal {
    Win(u8),
    Draw,
    Ongoing,
}

/// The verdict the terminal detector owes: a win for whichever player
/// has five in a row (PlayerOne checked first), a draw on a full board
/// without one, and ongoing otherwise.
pub open spec fn spec_terminal(b: Seq<u8>) -> Terminal {
    if spec_has_win(b, 1) {
        Terminal::Win(1)
    } else if spec_has_win(b, 2) {
        Terminal::Win(2)
    } else if grid_full(b) {
        Terminal::Draw
    } else {
        Terminal::Ongoing
    }
}

/// b2 is b turned a quarter turn: the cell in column x of row y of b2
/// holds the cell in column y of row 14 - x of b.
pub open spec fn is_quarter_turn(b: Seq<u8>, b2: Seq<u8>) -> bool {
    forall|x: int, y: int|
        coord_ok(x, y) ==> #[trigger] cell_at(b2, x, y) == cell_at(b, y, 14 - x)
}

/// b2 is b turned a half turn: the cell in column x of row y of b2
/// holds the cell in column 14 - x of row 14 - y of b.
pub open spec fn is_half_turn(b: Seq<u8>, b2: Seq<u8>) -> bool {
    forall|x: int, y: int|
        coord_ok(x, y) ==> #[trigger] cell_at(b2, x, y) == cell_at(b, 14 - x, 14 - y)
}

/// b2 is b turned three quarter turns: the cell in column x of row y
/// of b2 holds the cell in column 14 - y of row x of b.
pub open spec fn is_three_quarter_turn(b: Seq<u8>, b2: Seq<u8>) -> bool {
    forall|x: int, y: int|
        coord_ok(x, y) ==> #[trigger] cell_at(b2, x, y) == cell_at(b, 14 - y, x)
}

/// b2 is b mirrored left to right: the cell in column x of row y of b2
/// holds the cell in column 14 - x of row y of b.
pub open spec fn is_mirror(b: Seq<u8>, b2: Seq<u8>) -> bool {
    forall|x: int, y: int|
        coord_ok(x, y) ==> #[trigger] cell_at(b2, x, y) == cell_at(b, 14 - x, y)
}

/// b2 is b flipped top to bottom: the cell in column x of row y of b2
/// holds the cell in column x of row 14 - y of b.
pub open spec fn is_flip(b: Seq<u8>, b2: Seq<u8>) -> bool {
    forall|x: int, y: int|
        coord_ok(x, y) ==> #[trigger] cell_at(b2, x, y) == cell_at(b, x, 14 - y)
}

/// b2 is b reflected across the main diagonal: the cell in column x of
/// row y of b2 holds the cell in column y of row x of b.
pub open spec fn is_transpose(b: Seq<u8>, b2: Seq<u8>) -> bool {
    forall|x: int, y: int| coord_ok(x, y) ==> #[trigger] cell_at(b2, x, y) == cell_at(b, y, x)
}

/// b2 is b reflected across the anti-diagonal: the cell in column x of
/// row y of b2 holds the cell in column 14 - y of row 14 - x of b.
pub open spec fn is_anti_transpose(b: Seq<u8>, b2: Seq<u8>) -> bool {
    forall|x: int, y: int|
        coord_ok(x, y) ==> #[trigger] cell_at(b2, x, y) == cell_at(b, 14 - y, 14 - x)
}

/// The terminal detector is orientation-invariant under quarter turns:
/// a quarter turn of the board carries every five-in-a-row with it.
/// The companion lemmas below do the same for the half and three
/// quarter turns and for all four reflections, so every rotation and
/// reflection of the board square is covered.
pub proof fn lemma_win_quarter_turn(b: Seq<u8>, b2: Seq<u8>, p: u8)
    requires
        is_quarter_turn(b, b2),
        spec_has_win(b, p),
    ensures
        spec_has_win(b2, p),
{
    let (x, y) = choose|x: int, y: int| coord_ok(x, y) && #[trigger] spec_win_at(b, p, x, y);
    if x + 4 < 15 && spec_line_win(b, p, x, y, 1, 0) {
        assert(spec_line_win(b2, p, 14 - y, x, 0, 1));
        assert(spec_win_at(b2, p, 14 - y, x));
    } else if y + 4 < 15 && spec_line_win(b, p, x, y, 0, 1) {
        assert(spec_line_win(b2, p, 10 - y, x, 1, 0));
        assert(spec_win_at(b2, p, 10 - y, x));
    } else if x + 4 < 15 && y + 4 < 15 && spec_line_win(b, p, x, y, 1, 1) {
        assert(spec_line_win(b2, p, 14 - y, x, -1, 1));
        assert(spec_win_at(b2, p, 14 - y, x));
    } else {
        assert(x >= 4 && y + 4 < 15 && spec_line_win(b, p, x, y, -1, 1));
        assert(spec_line_win(b2, p, 10 - y, x - 4, 1, 1));
        assert(spec_win_at(b2, p, 10 - y, x - 4));
    }
}

/// The terminal detector is orientation-invariant under mirroring:
/// a left-to-right mirror of the board carries every five-in-a-row
/// with it.
pub proof fn lemma_win_mirror(b: Seq<u8>, b2: Seq<u8>, p: u8)
    requires
        is_mirror(b, b2),
        spec_has_win(b, p),
    ensures
        spec_has_win(b2, p),
{
    let (x, y) = choose|x: int, y: int| coord_ok(x, y) && #[trigger] spec_win_at(b, p, x, y);
    if x + 4 < 15 && spec_line_win(b, p, x, y, 1, 0) {
        assert(spec_line_win(b2, p, 10 - x, y, 1, 0));
        assert(spec_win_at(b2, p, 10 - x, y));
    } else if y + 4 < 15 && spec_line_win(b, p, x, y, 0, 1) {
        assert(spec_line_win(b2, p, 14 - x, y, 0, 1));
        assert(spec_win_at(b2, p, 14 - x, y));
    } else if x + 4 < 15 && y + 4 < 15 && spec_line_win(b, p, x, y, 1, 1) {
        assert(spec_line_win(b2, p, 14 - x, y, -1, 1));
        assert(spec_win_at(b2, p, 14 - x, y));
    } else {
        assert(x >= 4 && y + 4 < 15 && spec_line_win(b, p, x, y, -1, 1));
        assert(spec_line_win(b2, p, 14 - x, y, 1, 1));
        assert(spec_win_at(b2, p, 14 - x, y));
    }
}

/// A half turn of the board carries every five-in-a-row with it.
pub proof fn lemma_win_half_turn(b: Seq<u8>, b2: Seq<u8>, p: u8)
    requires
        is_half_turn(b, b2),
        spec_has_win(b, p),
    ensures
        spec_has_win(b2, p),
{
    let (x, y) = choose|x: int, y: int| coord_ok(x, y) && #[trigger] spec_win_at(b, p, x, y);
    if x + 4 < 15 && spec_line_win(b, p, x, y, 1, 0) {
        assert(spec_line_win(b2, p, 10 - x, 14 - y, 1, 0));
        assert(spec_win_at(b2, p, 10 - x, 14 - y));
    } else if y + 4 < 15 && spec_line_win(b, p, x, y, 0, 1) {
        assert(spec_line_win(b2, p, 14 - x, 10 - y, 0, 1));
        assert(spec_win_at(b2, p, 14 - x, 10 - y));
    } else if x + 4 < 15 && y + 4 < 15 && spec_line_win(b, p, x, y, 1, 1) {
        assert(spec_line_win(b2, p, 10 - x, 10 - y, 1, 1));
        assert(spec_win_at(b2, p, 10 - x, 10 - y));
    } else {
        assert(x >= 4 && y + 4 < 15 && spec_line_win(b, p, x, y, -1, 1));
        assert(spec_line_win(b2, p, 18 - x, 10 - y, -1, 1));
        assert(spec_win_at(b2, p, 18 - x, 10 - y));
    }
}

/// Three quarter turns of the board carry every five-in-a-row with
/// them.
pub proof fn lemma_win_three_quarter_turn(b: Seq<u8>, b2: Seq<u8>, p: u8)
    requires
        is_three_quarter_turn(b, b2),
        spec_has_win(b, p),
    ensures
        spec_has_win(b2, p),
{
    let (x, y) = choose|x: int, y: int| coord_ok(x, y) && #[trigger] spec_win_at(b, p, x, y);
    if x + 4 < 15 && spec_line_win(b, p, x, y, 1, 0) {
        assert(spec_line_win(b2, p, y, 10 - x, 0, 1));
        assert(spec_win_at(b2, p, y, 10 - x));
    } else if y + 4 < 15 && spec_line_win(b, p, x, y, 0, 1) {
        assert(spec_line_win(b2, p, y, 14 - x, 1, 0));
        assert(spec_win_at(b2, p, y, 14 - x));
    } else if x + 4 < 15 && y + 4 < 15 && spec_line_win(b, p, x, y, 1, 1) {
        assert(spec_line_win(b2, p, y + 4, 10 - x, -1, 1));
        assert(spec_win_at(b2, p, y + 4, 10 - x));
    } else {
        assert(x >= 4 && y + 4 < 15 && spec_line_win(b, p, x, y, -1, 1));
        assert(spec_line_win(b2, p, y, 14 - x, 1, 1));
        assert(spec_win_at(b2, p, y, 14 - x));
    }
}

/// A top-to-bottom flip of the board carries every five-in-a-row with
/// it.
pub proof fn lemma_win_flip(b: Seq<u8>, b2: Seq<u8>, p: u8)
    requires
        is_flip(b, b2),
        spec_has_win(b, p),
    ensures
        spec_has_win(b2, p),
{
    let (x, y) = choose|x: int, y: int| coord_ok(x, y) && #[trigger] spec_win_at(b, p, x, y);
    if x + 4 < 15 && spec_line_win(b, p, x, y, 1, 0) {
        assert(spec_line_win(b2, p, x, 14 - y, 1, 0));
        assert(spec_win_at(b2, p, x, 14 - y));
    } else if y + 4 < 15 && spec_line_win(b, p, x, y, 0, 1) {
        assert(spec_line_win(b2, p, x, 10 - y, 0, 1));
        assert(spec_win_at(b2, p, x, 10 - y));
    } else if x + 4 < 15 && y + 4 < 15 && spec_line_win(b, p, x, y, 1, 1) {
        assert(spec_line_win(b2, p, x + 4, 10 - y, -1, 1));
        assert(spec_win_at(b2, p, x + 4, 10 - y));
    } else {
        assert(x >= 4 && y + 4 < 15 && spec_line_win(b, p, x, y, -1, 1));
        assert(spec_line_win(b2, p, x - 4, 10 - y, 1, 1));
        assert(spec_win_at(b2, p, x - 4, 10 - y));
    }
}

/// A reflection across the main diagonal carries every five-in-a-row
/// with it.
pub proof fn lemma_win_transpose(b: Seq<u8>, b2: Seq<u8>, p: u8)
    requires
        is_transpose(b, b2),
        spec_has_win(b, p),
    ensures
        spec_has_win(b2, p),
{
    let (x, y) = choose|x: int, y: int| coord_ok(x, y) && #[trigger] spec_win_at(b, p, x, y);
    if x + 4 < 15 && spec_line_win(b, p, x, y, 1, 0) {
        assert(spec_line_win(b2, p, y, x, 0, 1));
        assert(spec_win_at(b2, p, y, x));
    } else if y + 4 < 15 && spec_line_win(b, p, x, y, 0, 1) {
        assert(spec_line_win(b2, p, y, x, 1, 0));
        assert(spec_win_at(b2, p, y, x));
    } else if x + 4 < 15 && y + 4 < 15 && spec_line_win(b, p, x, y, 1, 1) {
        assert(spec_line_win(b2, p, y, x, 1, 1));
        assert(spec_win_at(b2, p, y, x));
    } else {
        assert(x >= 4 && y + 4 < 15 && spec_line_win(b, p, x, y, -1, 1));
        assert(spec_line_win(b2, p, y + 4, x - 4, -1, 1));
        assert(spec_win_at(b2, p, y + 4, x - 4));
    }
}

/// A reflection across the anti-diagonal carries every five-in-a-row
/// with it.
pub proof fn lemma_win_anti_transpose(b: Seq<u8>, b2: Seq<u8>, p: u8)
    requires
        is_anti_transpose(b, b2),
        spec_has_win(b, p),
    ensures
        spec_has_win(b2, p),
{
    let (x, y) = choose|x: int, y: int| coord_ok(x, y) && #[trigger] spec_win_at(b, p, x, y);
    if x + 4 < 15 && spec_line_win(b, p, x, y, 1, 0) {
        assert(spec_line_win(b2, p, 14 - y, 10 - x, 0, 1));
        assert(spec_win_at(b2, p, 14 - y, 10 - x));
    } else if y + 4 < 15 && spec_line_win(b, p, x, y, 0, 1) {
        assert(spec_line_win(b2, p, 10 - y, 14 - x, 1, 0));
        assert(spec_win_at(b2, p, 10 - y, 14 - x));
    } else if x + 4 < 15 && y + 4 < 15 && spec_line_win(b, p, x, y, 1, 1) {
        assert(spec_line_win(b2, p, 10 - y, 10 - x, 1, 1));
        assert(spec_win_at(b2, p, 10 - y, 10 - x));
    } else {
        assert(x >= 4 && y + 4 < 15 && spec_line_win(b, p, x, y, -1, 1));
        assert(spec_line_win(b2, p, 14 - y, 14 - x, -1, 1));
        assert(spec_win_at(b2, p, 14 - y, 14 - x));
    }
}

/// Placing a stone that is not player q's gives q no new five-in-a-row.
pub proof fn lemma_place_keeps_other_winless(b: Seq<u8>, i: int, stone: u8, q: u8)
    requires
        grid_ok(b),
        0 <= i < 225,
        stone != q,
        !spec_has_win(b, q),
    ensures
        !spec_has_win(b.update(i, stone), q),
{
    let b2 = b.update(i, stone);
    if spec_has_win(b2, q) {
        let (x, y) = choose|x: int, y: int| coord_ok(x, y) && #[trigger] spec_win_at(b2, q, x, y);
        if x + 4 < 15 && spec_line_win(b2, q, x, y, 1, 0) {
            assert(spec_line_win(b, q, x, y, 1, 0));
        } else if y + 4 < 15 && spec_line_win(b2, q, x, y, 0, 1) {
            assert(spec_line_win(b, q, x, y, 0, 1));
        } else if x + 4 < 15 && y + 4 < 15 && spec_line_win(b2, q, x, y, 1, 1) {
            assert(spec_line_win(b, q, x, y, 1, 1));
        } else {
            assert(x >= 4 && y + 4 < 15 && spec_line_win(b2, q, x, y, -1, 1));
            assert(spec_line_win(b, q, x, y, -1, 1));
        }
        assert(spec_win_at(b, q, x, y));
        assert(false);
    }
}

/// Five cells of player p in row y starting at column x.
fn row_win(board: &Board, p: u8, x: usize, y: usize) -> (r: bool)
    requires
        board.wf(),
        x + 4 < 15,
        y < 15,
    ensures
        r == spec_line_win(board@, p, x as int, y as int, 1, 0),
{
    board.get(x, y) == p && board.get(x + 1, y) == p && board.get(x + 2, y) == p && board.get(
        x + 3,
        y,
    ) == p && board.get(x + 4, y) == p
}

/// Five cells of player p in column x starting at row y.
fn col_win(board: &Board, p: u8, x: usize, y: usize) -> (r: bool)
    requires
        board.wf(),
        x < 15,
        y + 4 < 15,
    ensures
        r == spec_line_win(board@, p, x as int, y as int, 0, 1),
{
    board.get(x, y) == p && board.get(x, y + 1) == p && board.get(x, y + 2) == p && board.get(
        x,
        y + 3,
    ) == p && board.get(x, y + 4) == p
}

/// Five cells of player p on the diagonal that starts at (x, y) and
/// steps down-right.
fn diag_win(board: &Board, p: u8, x: usize, y: usize) -> (r: bool)
    requires
        board.wf(),
        x + 4 < 15,
        y + 4 < 15,
    ensures
        r == spec_line_win(board@, p, x as int, y as int, 1, 1),
{
    board.get(x, y) == p && board.get(x + 1, y + 1) == p && board.get(x + 2, y + 2) == p
        && board.get(x + 3, y + 3) == p && board.get(x + 4, y + 4) == p
}

/// Five cells of player p on the anti-diagonal that starts at (x, y)
/// and steps down-left.
fn anti_win(board: &Board, p: u8, x: usize, y: usize) -> (r: bool)
    requires
        board.wf(),
        4 <= x < 15,
        y + 4 < 15,
    ensures
        r == spec_line_win(board@, p, x as int, y as int, -1, 1),
{
    board.get(x, y) == p && board.get(x - 1, y + 1) == p && board.get(x - 2, y + 2) == p
        && board.get(x - 3, y + 3) == p && board.get(x - 4, y + 4) == p
}

/// Whether player p has five in a row anywhere on the board, testing
/// every origin cell and every canonical direction.
pub fn check_win(board: &Board, p: u8) -> (r: bool)
    requires
        board.wf(),
    ensures
        r == spec_has_win(board@, p),
{
    let mut y: usize = 0;
    while y < 15
        invariant
            board.wf(),
            y <= 15,
            forall|xx: int, yy: int|
                coord_ok(xx, yy) && yy < y ==> !#[trigger] spec_win_at(board@, p, xx, yy),
        decreases 15 - y,
    {
        let mut x: usize = 0;
        while x < 15
            invariant
                board.wf(),
                y < 15,
                x <= 15,
                forall|xx: int, yy: int|
                    coord_ok(xx, yy) && yy < y ==> !#[trigger] spec_win_at(board@, p, xx, yy),
                forall|xx: int|
                    0 <= xx < x ==> !#[trigger] spec_win_at(board@, p, xx, y as int),
            decreases 15 - x,
        {
            if x + 4 < 15 && row_win(board, p, x, y) {
                assert(spec_win_at(board@, p, x as int, y as int));
                return true;
            }
            if y + 4 < 15 && col_win(board, p, x, y) {
                assert(spec_win_at(board@, p, x as int, y as int));
                return true;
            }
            if x + 4 < 15 && y + 4 < 15 && diag_win(board, p, x, y) {
                assert(spec_win_at(board@, p, x as int, y as int));
                return true;
            }
            if x >= 4 && y + 4 < 15 && anti_win(board, p, x, y) {
                assert(spec_win_at(board@, p, x as int, y as int));
                return true;
            }
            assert(!spec_win_at(board@, p, x as int, y as int));
            x += 1;
        }
        y += 1;
    }
    false
}

/// The verdict on a board: Win for the first player found with five in
/// a row, Draw on a full board without one, Ongoing otherwise.
pub fn evaluate_terminal(board: &Board) -> (r: Terminal)
    requires
        board.wf(),
    ensures
        r == spec_terminal(board@),
{
    if check_win(board, 1) {
        Terminal::Win(1)
    } else if check_win(board, 2) {
        Terminal::Win(2)
    } else if board.is_full() {
        Terminal::Draw
    } else {
        Terminal::Ongoing
    }
}

} // verus!
