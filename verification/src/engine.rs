use vstd::prelude::*;

use crate::board::Board;
use crate::board::EngineError;
use crate::board::cell_at;
use crate::board::cell_index;
use crate::board::coord_ok;
use crate::board::grid_full;
use crate::board::grid_ok;
use crate::board::player_ok;
use crate::board::spec_opponent;
use crate::search::lemma_minimax_bounds;
use crate::search::lemma_place_grid_ok;
use crate::search::minimax;
use crate::search::spec_minimax;
use crate::terminal::Terminal;
use crate::terminal::lemma_place_keeps_other_winless;
use crate::terminal::spec_has_win;
use crate::terminal::spec_terminal;

verus! {

/// The depth the root driver hands the search for each candidate: one
/// ply below the configured depth, never below zero and never above
/// 224. At most 224 Empty cells remain once a candidate stone is
/// placed, so a deeper search cannot be told apart from one of depth
/// 224.
pub open spec fn spec_child_depth(depth: int) -> int {
    if depth < 1 {
        0
    } else if depth - 1 > 224 {
        224
    } else {
        depth - 1
    }
}

/// The root enumeration over the Empty cells with flat index below k,
/// in the fixed row-major order (rows outer, columns inner, both
/// ascending): each candidate move is the acting player's stone in one
/// Empty cell, valued by the opponent's minimizing search one ply down,
/// and the first strictly best candidate is retained. The sentinel
/// (i32::MIN, -1) stands while no Empty cell has been seen.
pub open spec fn spec_root_prefix(b: Seq<u8>, cd: int, actor: u8, k: int) -> (int, int)
    decreases k,
{
    if k <= 0 {
        (i32::MIN as int, -1int)
    } else {
        let rest = spec_root_prefix(b, cd, actor, k - 1);
        if b[k - 1] == 0 {
            let child = spec_minimax(b.update(k - 1, actor), cd, 1, false, actor);
            if child > rest.0 {
                (child, k - 1)
            } else {
                rest
            }
        } else {
            rest
        }
    }
}

/// The score and flat move index that the move selector owes on a
/// valid board: the full root enumeration.
pub open spec fn spec_best_move(b: Seq<u8>, cd: int, actor: u8) -> (int, int) {
    spec_root_prefix(b, cd, actor, 225)
}

/// Whichever cell the root enumeration retains is a real Empty cell
/// whose own child value is the retained score, once any Empty cell
/// lies below k.
pub proof fn lemma_root_prefix_sound(b: Seq<u8>, cd: int, actor: u8, k: int)
    requires
        grid_ok(b),
        player_ok(actor),
        0 <= cd <= 225,
        0 <= k <= 225,
    ensures
        (forall|i: int| 0 <= i < k ==> #[trigger] b[i] != 0) ==> spec_root_prefix(b, cd, actor, k)
            == (i32::MIN as int, -1int),
        (exists|i: int| 0 <= i < k && #[trigger] b[i] == 0) ==> {
            let r = spec_root_prefix(b, cd, actor, k);
            &&& 0 <= r.1 < k
            &&& b[r.1] == 0
            &&& r.0 == spec_minimax(b.update(r.1, actor), cd, 1, false, actor)
        },
    decreases k,
{
    if k > 0 {
        lemma_root_prefix_sound(b, cd, actor, k - 1);
        if exists|i: int| 0 <= i < k && #[trigger] b[i] == 0 {
            if !(exists|i: int| 0 <= i < k - 1 && #[trigger] b[i] == 0) {
                assert(forall|i: int| 0 <= i < k - 1 ==> #[trigger] b[i] != 0);
                let w = choose|i: int| 0 <= i < k && #[trigger] b[i] == 0;
                assert(w == k - 1 && b[k - 1] == 0);
                assert(spec_root_prefix(b, cd, actor, k - 1) == (i32::MIN as int, -1int));
                lemma_minimax_bounds_weak(b, cd, actor, k - 1);
            }
        }
    }
}

/// The child value of any Empty cell exceeds the sentinel.
proof fn lemma_minimax_bounds_weak(b: Seq<u8>, cd: int, actor: u8, j: int)
    requires
        0 <= j < 225,
        0 <= cd <= 225,
    ensures
        grid_ok(b) && player_ok(actor) && b[j] == 0 ==> spec_minimax(
            b.update(j, actor),
            cd,
            1,
            false,
            actor,
        ) > i32::MIN as int,
{
    if grid_ok(b) && player_ok(actor) && b[j] == 0 {
        lemma_place_grid_ok(b, j, actor);
        lemma_minimax_bounds(b.update(j, actor), cd, 1, false, actor);
    }
}

/// No candidate's child value beats the retained root score.
pub proof fn lemma_root_prefix_covers(b: Seq<u8>, cd: int, actor: u8, j: int, k: int)
    requires
        0 <= j < k <= 225,
        b[j] == 0,
    ensures
        spec_root_prefix(b, cd, actor, k).0 >= spec_minimax(b.update(j, actor), cd, 1, false, actor),
    decreases k,
{
    if j < k - 1 {
        lemma_root_prefix_covers(b, cd, actor, j, k - 1);
    }
}

/// A board still in play with an Empty cell that completes five in a
/// row for the acting player: the move selector's score reaches at
/// least the reserved win value, whatever the depth budget, and the
/// retained cell is an Empty cell whose own search value is that
/// score.
pub proof fn lemma_immediate_win_found(b: Seq<u8>, cd: int, actor: u8, i: int)
    requires
        grid_ok(b),
        player_ok(actor),
        0 <= cd <= 225,
        !spec_has_win(b, 1),
        !spec_has_win(b, 2),
        0 <= i < 225,
        b[i] == 0,
        spec_has_win(b.update(i, actor), actor),
    ensures
        spec_best_move(b, cd, actor).0 >= 1000000,
        0 <= spec_best_move(b, cd, actor).1 < 225,
        b[spec_best_move(b, cd, actor).1] == 0,
        spec_best_move(b, cd, actor).0 == spec_minimax(
            b.update(spec_best_move(b, cd, actor).1, actor),
            cd,
            1,
            false,
            actor,
        ),
{
    let child = b.update(i, actor);
    lemma_place_grid_ok(b, i, actor);
    lemma_place_keeps_other_winless(b, i, actor, spec_opponent(actor));
    assert(spec_minimax(child, cd, 1, false, actor) == 1000000);
    lemma_root_prefix_covers(b, cd, actor, i, 225);
    lemma_root_prefix_sound(b, cd, actor, 225);
    assert(exists|j: int| 0 <= j < 225 && #[trigger] b[j] == 0);
}

/// As above, and when no candidate that fails to complete five in a
/// row is itself worth the win value or more, the selector retains a
/// cell that does complete five in a row, and its score is exactly the
/// reserved win value. A slower forced win scores strictly below the
/// reserved value, so it can no longer tie an immediate one; but a
/// candidate without any win can still reach the value on boards rich
/// enough in open runs, through the depth-exhaustion heuristic, and
/// the first such candidate in enumeration order then wins the tie
/// instead. The last premise rules those boards out.
pub proof fn lemma_immediate_win_selected(b: Seq<u8>, cd: int, actor: u8, i: int)
    requires
        grid_ok(b),
        player_ok(actor),
        0 <= cd <= 225,
        !spec_has_win(b, 1),
        !spec_has_win(b, 2),
        0 <= i < 225,
        b[i] == 0,
        spec_has_win(b.update(i, actor), actor),
        forall|j: int|
            0 <= j < 225 && b[j] == 0 && !spec_has_win(b.update(j, actor), actor) ==> (
            #[trigger] spec_minimax(b.update(j, actor), cd, 1, false, actor)) < 1000000,
    ensures
        spec_best_move(b, cd, actor).0 == 1000000,
        spec_has_win(b.update(spec_best_move(b, cd, actor).1, actor), actor),
{
    lemma_immediate_win_found(b, cd, actor, i);
    let sr = spec_best_move(b, cd, actor);
    if !spec_has_win(b.update(sr.1, actor), actor) {
        assert(spec_minimax(b.update(sr.1, actor), cd, 1, false, actor) < 1000000);
        assert(false);
    }
    lemma_place_grid_ok(b, sr.1, actor);
    lemma_place_keeps_other_winless(b, sr.1, actor, spec_opponent(actor));
    assert(spec_minimax(b.update(sr.1, actor), cd, 1, false, actor) == 1000000);
}

/// A fully filled board with no five-in-a-row anywhere is a draw, and
/// the move selector has no move to retain on it: the root enumeration
/// ends at its sentinel, so best_move answers "no move".
pub proof fn lemma_full_board_draw(b: Seq<u8>, cd: int, actor: u8)
    requires
        grid_ok(b),
        player_ok(actor),
        0 <= cd <= 225,
        grid_full(b),
        !spec_has_win(b, 1),
        !spec_has_win(b, 2),
    ensures
        spec_terminal(b) == Terminal::Draw,
        spec_best_move(b, cd, actor) == (i32::MIN as int, -1int),
{
    lemma_root_prefix_sound(b, cd, actor, 225);
    assert(forall|j: int| 0 <= j < 225 ==> #[trigger] b[j] != 0);
}

/// The move-computation engine: a fixed 15 by 15 board and a fixed
/// search-depth budget, chosen at construction.
pub struct GomokuBot {
    depth: i32,
}

impl GomokuBot {
    /// The configured search depth.
    pub closed spec fn spec_depth(&self) -> int {
        self.depth as int
    }

    /// A new engine with the given search-depth budget.
    pub fn new(depth: i32) -> (r: GomokuBot)
        ensures
            r.spec_depth() == depth,
    {
        GomokuBot { depth }
    }

    /// The best next move for the acting player: every Empty cell is
    /// tried in row-major order, valued by the opponent's minimizing
    /// search one ply down, and the first strictly best candidate wins.
    /// An invalid player is rejected before any search; a board with no
    /// Empty cell yields no move.
    pub fn best_move(&self, board: &Board, player: u8) -> (r: Result<
        Option<(usize, usize, i32)>,
        EngineError,
    >)
        requires
            board.wf(),
        ensures
            r is Ok <==> player_ok(player),
            r matches Ok(m) ==> {
                let cd = spec_child_depth(self.spec_depth());
                let sr = spec_best_move(board@, cd, player);
                &&& (m is None <==> grid_full(board@))
                &&& (m matches Some((x, y, score)) ==> {
                    &&& coord_ok(x as int, y as int)
                    &&& cell_index(x as int, y as int) == sr.1
                    &&& score == sr.0
                    &&& cell_at(board@, x as int, y as int) == 0
                    &&& score == spec_minimax(
                        board@.update(sr.1, player),
                        cd,
                        1,
                        false,
                        player,
                    )
                    &&& -900000000 <= score <= 900000000
                })
            },
    {
        if player != 1 && player != 2 {
            return Err(EngineError::InvalidInput);
        }
        let child_depth: u32 = if self.depth < 1 {
            0
        } else if self.depth - 1 > 224 {
            224
        } else {
            (self.depth - 1) as u32
        };
        let ghost b = board@;
        let ghost cd = spec_child_depth(self.spec_depth());
        proof {
            assert(cd == child_depth as int);
        }
        let mut have_move: bool = false;
        let mut best_x: usize = 0;
        let mut best_y: usize = 0;
        let mut best_score: i32 = 0;
        let mut y: usize = 0;
        while y < 15
            invariant
                board.wf(),
                board@ == b,
                player_ok(player),
                cd == child_depth as int,
                0 <= cd <= 224,
                y <= 15,
                best_x < 15,
                best_y < 15,
                !have_move ==> {
                    &&& (forall|i: int| 0 <= i < y * 15 ==> #[trigger] b[i] != 0)
                    &&& spec_root_prefix(b, cd, player, y * 15) == (i32::MIN as int, -1int)
                },
                have_move ==> {
                    let pf = spec_root_prefix(b, cd, player, y * 15);
                    &&& pf.0 == best_score
                    &&& pf.1 == cell_index(best_x as int, best_y as int)
                    &&& b[pf.1] == 0
                    &&& best_score == spec_minimax(b.update(pf.1, player), cd, 1, false, player)
                    &&& -900000000 <= best_score <= 900000000
                },
            decreases 15 - y,
        {
            let mut x: usize = 0;
            while x < 15
                invariant
                    board.wf(),
                    board@ == b,
                    player_ok(player),
                    cd == child_depth as int,
                    0 <= cd <= 224,
                    y < 15,
                    x <= 15,
                    best_x < 15,
                    best_y < 15,
                    !have_move ==> {
                        &&& (forall|i: int| 0 <= i < y * 15 + x ==> #[trigger] b[i] != 0)
                        &&& spec_root_prefix(b, cd, player, y * 15 + x) == (
                            i32::MIN as int,
                            -1int,
                        )
                    },
                    have_move ==> {
                        let pf = spec_root_prefix(b, cd, player, y * 15 + x);
                        &&& pf.0 == best_score
                        &&& pf.1 == cell_index(best_x as int, best_y as int)
                        &&& b[pf.1] == 0
                        &&& best_score == spec_minimax(b.update(pf.1, player), cd, 1, false, player)
                        &&& -900000000 <= best_score <= 900000000
                    },
                decreases 15 - x,
            {
                let ghost k = (y * 15 + x) as int;
                if board.get(x, y) == 0 {
                    let child = board.place_at(y * 15 + x, player);
                    proof {
                        assert(child@ == b.update(k, player));
                    }
                    let s = minimax(&child, child_depth, 1, i32::MIN, i32::MAX, false, player);
                    let ghost cv = spec_minimax(b.update(k, player), cd, 1, false, player);
                    proof {
                        lemma_minimax_bounds(child@, cd, 1, false, player);
                        assert(i32::MIN < s < i32::MAX);
                        assert(s == cv);
                        assert(spec_root_prefix(b, cd, player, k + 1) == (if cv
                            > spec_root_prefix(b, cd, player, k).0 {
                            (cv, k)
                        } else {
                            spec_root_prefix(b, cd, player, k)
                        }));
                    }
                    if !have_move || s > best_score {
                        have_move = true;
                        best_x = x;
                        best_y = y;
                        best_score = s;
                    }
                } else {
                    proof {
                        assert(spec_root_prefix(b, cd, player, k + 1) == spec_root_prefix(
                            b,
                            cd,
                            player,
                            k,
                        ));
                    }
                }
                x += 1;
            }
            y += 1;
        }
        if have_move {
            Ok(Some((best_x, best_y, best_score)))
        } else {
            proof {
                assert(forall|i: int| 0 <= i < 225 ==> #[trigger] b[i] != 0);
            }
            Ok(None)
        }
    }
}

} // verus!
