use vstd::prelude::*;

use crate::board::Board;
use crate::board::grid_full;
use crate::board::grid_ok;
use crate::board::cell_ok;
use crate::board::opponent;
use crate::board::player_ok;
use crate::board::spec_opponent;
use crate::score::evaluate_board;
use crate::score::lemma_evaluate_bounds;
use crate::score::spec_evaluate;
use crate::terminal::Terminal;
use crate::terminal::evaluate_terminal;
use crate::terminal::spec_has_win;

verus! {

/// The reserved score of a realized five-in-a-row, from the winner's
/// perspective. A win on the first ply from the root scores exactly
/// this value; each further ply lessens it by one, so faster wins
/// outrank slower ones.
pub const WIN_SCORE: i32 = 1000000;

/// The stone the side to move places: the acting player's own stone
/// when maximizing, the opponent's when minimizing.
pub open spec fn spec_stone(maximizing: bool, actor: u8) -> u8 {
    if maximizing {
        actor
    } else {
        spec_opponent(actor)
    }
}

/// The exhaustive depth-limited minimax value of a board, from the
/// acting player's perspective, with no pruning. ply counts the stones
/// played since the root board, starting at 1 for a root candidate. A
/// won board is worth the reserved win value lessened by the plies
/// beyond the first, so a faster win strictly outranks a slower one
/// and an immediate win scores exactly the reserved value; the loser's
/// side gets the negation. A drawn board is worth nothing, a
/// depth-exhausted board its heuristic value; otherwise the value is
/// the best child value, over every Empty cell.
pub open spec fn spec_minimax(b: Seq<u8>, depth: int, ply: int, maximizing: bool, actor: u8) -> int
    decreases depth, 226int,
{
    if spec_has_win(b, 1) {
        if actor == 1 {
            1000001 - ply
        } else {
            ply - 1000001
        }
    } else if spec_has_win(b, 2) {
        if actor == 2 {
            1000001 - ply
        } else {
            ply - 1000001
        }
    } else if grid_full(b) {
        0
    } else if depth <= 0 {
        spec_evaluate(b, actor)
    } else {
        spec_search_prefix(b, depth, ply, maximizing, actor, 225)
    }
}

/// The best child value over the Empty cells with flat index below k,
/// in the fixed row-major enumeration order: the maximum when
/// maximizing, the minimum when minimizing, starting from the matching
/// sentinel when no Empty cell has been seen.
pub open spec fn spec_search_prefix(
    b: Seq<u8>,
    depth: int,
    ply: int,
    maximizing: bool,
    actor: u8,
    k: int,
) -> int
    decreases depth, k,
    when depth >= 1
{
    if k <= 0 {
        if maximizing {
            i32::MIN as int
        } else {
            i32::MAX as int
        }
    } else {
        let rest = spec_search_prefix(b, depth, ply, maximizing, actor, k - 1);
        if b[k - 1] == 0 {
            let child = spec_minimax(
                b.update(k - 1, spec_stone(maximizing, actor)),
                depth - 1,
                ply + 1,
                !maximizing,
                actor,
            );
            if maximizing {
                if child > rest {
                    child
                } else {
                    rest
                }
            } else {
                if child < rest {
                    child
                } else {
                    rest
                }
            }
        } else {
            rest
        }
    }
}

/// Placing a valid stone keeps the grid well formed.
pub proof fn lemma_place_grid_ok(b: Seq<u8>, i: int, stone: u8)
    requires
        grid_ok(b),
        0 <= i < 225,
        player_ok(stone),
    ensures
        grid_ok(b.update(i, stone)),
{
    assert forall|j: int| 0 <= j < 225 implies cell_ok(#[trigger] b.update(i, stone)[j]) by {
        if j != i {
            assert(b.update(i, stone)[j] == b[j]);
        }
    }
}

/// Every minimax value lies within the score bound.
pub proof fn lemma_minimax_bounds(b: Seq<u8>, depth: int, ply: int, maximizing: bool, actor: u8)
    requires
        grid_ok(b),
        player_ok(actor),
        0 <= depth,
        1 <= ply,
        ply + depth <= 226,
    ensures
        -900000000 <= spec_minimax(b, depth, ply, maximizing, actor) <= 900000000,
    decreases depth, 226int,
{
    if !spec_has_win(b, 1) && !spec_has_win(b, 2) && !grid_full(b) {
        if depth <= 0 {
            lemma_evaluate_bounds(b, actor);
        } else {
            assert(exists|i: int| 0 <= i < 225 && b[i] == 0) by {
                assert(!grid_full(b));
                let w = choose|i: int| 0 <= i < 225 && !(#[trigger] b[i] != 0);
                assert(0 <= w < 225 && b[w] == 0);
            }
            lemma_prefix_bounds(b, depth, ply, maximizing, actor, 225);
        }
    }
}

/// A prefix best is the sentinel exactly while no Empty cell has been
/// seen, and lies within the score bound as soon as one has.
pub proof fn lemma_prefix_bounds(b: Seq<u8>, depth: int, ply: int, maximizing: bool, actor: u8, k: int)
    requires
        grid_ok(b),
        player_ok(actor),
        0 <= k <= 225,
        depth >= 1,
        1 <= ply,
        ply + depth <= 226,
    ensures
        (forall|i: int| 0 <= i < k ==> #[trigger] b[i] != 0) ==> spec_search_prefix(
            b,
            depth,
            ply,
            maximizing,
            actor,
            k,
        ) == (if maximizing {
            i32::MIN as int
        } else {
            i32::MAX as int
        }),
        (exists|i: int| 0 <= i < k && #[trigger] b[i] == 0) ==> -900000000 <= spec_search_prefix(
            b,
            depth,
            ply,
            maximizing,
            actor,
            k,
        ) <= 900000000,
    decreases depth, k,
{
    if k > 0 {
        lemma_prefix_bounds(b, depth, ply, maximizing, actor, k - 1);
        if b[k - 1] == 0 {
            lemma_place_grid_ok(b, k - 1, spec_stone(maximizing, actor));
            lemma_minimax_bounds(
                b.update(k - 1, spec_stone(maximizing, actor)),
                depth - 1,
                ply + 1,
                !maximizing,
                actor,
            );
        }
        if exists|i: int| 0 <= i < k && #[trigger] b[i] == 0 {
            let w = choose|i: int| 0 <= i < k && #[trigger] b[i] == 0;
            if w < k - 1 {
                assert(exists|i: int| 0 <= i < k - 1 && #[trigger] b[i] == 0);
            }
        }
    }
}

/// Extending the enumerated prefix never worsens the best: it grows
/// under maximizing and shrinks under minimizing.
pub proof fn lemma_prefix_widen(
    b: Seq<u8>,
    depth: int,
    ply: int,
    maximizing: bool,
    actor: u8,
    k1: int,
    k2: int,
)
    requires
        0 <= k1 <= k2,
        depth >= 1,
    ensures
        maximizing ==> spec_search_prefix(b, depth, ply, maximizing, actor, k1) <= spec_search_prefix(
            b,
            depth,
            ply,
            maximizing,
            actor,
            k2,
        ),
        !maximizing ==> spec_search_prefix(b, depth, ply, maximizing, actor, k1) >= spec_search_prefix(
            b,
            depth,
            ply,
            maximizing,
            actor,
            k2,
        ),
    decreases k2 - k1,
{
    if k1 < k2 {
        lemma_prefix_widen(b, depth, ply, maximizing, actor, k1, k2 - 1);
    }
}

/// Depth-limited minimax with alpha-beta pruning over a single flat,
/// row-major enumeration of the Empty cells. ply counts the stones
/// played since the root board, so a won board scores the reserved win
/// value lessened by the plies beyond the first, preferring faster
/// wins. Pruning never changes the answer: whenever the returned score
/// lies strictly inside the (alpha, beta) window it equals the
/// exhaustive minimax value, and a score at or outside a window edge
/// bounds the exhaustive value from the matching side.
pub fn minimax(
    board: &Board,
    depth: u32,
    ply: u32,
    alpha: i32,
    beta: i32,
    maximizing: bool,
    actor: u8,
) -> (r: i32)
    requires
        board.wf(),
        player_ok(actor),
        alpha < beta,
        1 <= ply,
        ply + depth <= 226,
    ensures
        -900000000 <= r <= 900000000,
        alpha < r < beta ==> r == spec_minimax(board@, depth as int, ply as int, maximizing, actor),
        r <= alpha ==> spec_minimax(board@, depth as int, ply as int, maximizing, actor) <= r,
        r >= beta ==> spec_minimax(board@, depth as int, ply as int, maximizing, actor) >= r,
    decreases depth,
{
    let t = evaluate_terminal(board);
    match t {
        Terminal::Win(p) => {
            let w: i32 = WIN_SCORE - (ply as i32 - 1);
            return if p == actor {
                w
            } else {
                -w
            };
        },
        Terminal::Draw => {
            return 0;
        },
        Terminal::Ongoing => {},
    }
    if depth == 0 {
        return evaluate_board(board, actor);
    }
    let ghost b = board@;
    let ghost d = depth as int;
    let ghost pl = ply as int;
    let ghost v = spec_minimax(b, d, pl, maximizing, actor);
    proof {
        assert(v == spec_search_prefix(b, d, pl, maximizing, actor, 225));
    }
    let mut best: i32 = if maximizing {
        i32::MIN
    } else {
        i32::MAX
    };
    let mut al: i32 = alpha;
    let mut be: i32 = beta;
    let mut k: usize = 0;
    while k < 225
        invariant
            board.wf(),
            board@ == b,
            player_ok(actor),
            depth as int == d,
            ply as int == pl,
            d >= 1,
            pl >= 1,
            pl + d <= 226,
            v == spec_search_prefix(b, d, pl, maximizing, actor, 225),
            !spec_has_win(b, 1),
            !spec_has_win(b, 2),
            !grid_full(b),
            k <= 225,
            alpha < beta,
            al < be,
            maximizing ==> {
                &&& be == beta
                &&& al == (if best > alpha {
                    best
                } else {
                    alpha
                })
                &&& best < beta
                &&& (best == i32::MIN || -900000000 <= best <= 900000000)
                &&& (best == i32::MIN ==> forall|i: int| 0 <= i < k ==> #[trigger] b[i] != 0)
                &&& (best <= alpha ==> spec_search_prefix(b, d, pl, true, actor, k as int) <= best)
                &&& (alpha < best ==> best == spec_search_prefix(b, d, pl, true, actor, k as int))
            },
            !maximizing ==> {
                &&& al == alpha
                &&& be == (if best < beta {
                    best
                } else {
                    beta
                })
                &&& best > alpha
                &&& (best == i32::MAX || -900000000 <= best <= 900000000)
                &&& (best == i32::MAX ==> forall|i: int| 0 <= i < k ==> #[trigger] b[i] != 0)
                &&& (best >= beta ==> spec_search_prefix(b, d, pl, false, actor, k as int) >= best)
                &&& (best < beta ==> best == spec_search_prefix(b, d, pl, false, actor, k as int))
            },
        decreases 225 - k,
    {
        if board.get_at(k) == 0 {
            let stone = if maximizing {
                actor
            } else {
                opponent(actor)
            };
            let child = board.place_at(k, stone);
            proof {
                assert(child@ == b.update(k as int, spec_stone(maximizing, actor)));
            }
            let s = minimax(&child, depth - 1, ply + 1, al, be, !maximizing, actor);
            let ghost cv = spec_minimax(child@, d - 1, pl + 1, !maximizing, actor);
            let ghost best0 = best;
            let ghost al0 = al;
            let ghost be0 = be;
            let ghost pf0 = spec_search_prefix(b, d, pl, maximizing, actor, k as int);
            let ghost pf1 = spec_search_prefix(b, d, pl, maximizing, actor, k as int + 1);
            if maximizing {
                if s > best {
                    best = s;
                }
                if best > al {
                    al = best;
                }
                proof {
                    assert(pf1 == (if cv > pf0 {
                        cv
                    } else {
                        pf0
                    }));
                    if s > best0 {
                        // this child improved the running best
                        if s <= al0 {
                            // it still fails low: the child value cannot exceed it
                            assert(cv <= s);
                            assert(best0 < s);
                            assert(al0 == alpha && s <= alpha);
                            assert(pf0 <= best0);
                            assert(pf1 <= best);
                        } else if s < be0 {
                            // strictly inside the child window: the score is exact
                            assert(cv == s);
                            if best0 <= alpha {
                                assert(pf0 <= best0);
                            } else {
                                assert(pf0 == best0);
                            }
                            assert(pf1 == s);
                        } else {
                            // fail high: a cutoff follows
                            assert(cv >= s);
                            assert(pf1 >= cv);
                        }
                    } else {
                        // the running best stands: the child value is at or below it
                        assert(s <= al0);
                        assert(cv <= s);
                        if best0 <= alpha {
                            assert(pf0 <= best0);
                            assert(pf1 <= best0);
                        } else {
                            assert(pf0 == best0);
                            assert(pf1 == best0);
                        }
                    }
                }
            } else {
                if s < best {
                    best = s;
                }
                if best < be {
                    be = best;
                }
                proof {
                    assert(pf1 == (if cv < pf0 {
                        cv
                    } else {
                        pf0
                    }));
                    if s < best0 {
                        if s >= be0 {
                            assert(cv >= s);
                            assert(best0 > s);
                            assert(be0 == beta && s >= beta);
                            assert(pf0 >= best0);
                            assert(pf1 >= best);
                        } else if s > al0 {
                            assert(cv == s);
                            if best0 >= beta {
                                assert(pf0 >= best0);
                            } else {
                                assert(pf0 == best0);
                            }
                            assert(pf1 == s);
                        } else {
                            assert(cv <= s);
                            assert(pf1 <= cv);
                        }
                    } else {
                        assert(s >= be0);
                        assert(cv >= s);
                        if best0 >= beta {
                            assert(pf0 >= best0);
                            assert(pf1 >= best0);
                        } else {
                            assert(pf0 == best0);
                            assert(pf1 == best0);
                        }
                    }
                }
            }
            if be <= al {
                proof {
                    lemma_prefix_widen(b, d, pl, maximizing, actor, k as int + 1, 225);
                    if maximizing {
                        // beta <= max(alpha, best), and alpha < beta: best >= beta
                        assert(best >= beta);
                        assert(best == s);
                        assert(s >= be0);
                        assert(cv >= s);
                        assert(pf1 >= cv);
                        assert(v >= pf1);
                        assert(v >= best);
                    } else {
                        assert(best <= alpha);
                        assert(best == s);
                        assert(s <= al0);
                        assert(cv <= s);
                        assert(pf1 <= cv);
                        assert(v <= pf1);
                        assert(v <= best);
                    }
                }
                return best;
            }
        } else {
            proof {
                assert(spec_search_prefix(b, d, pl, maximizing, actor, k as int + 1)
                    == spec_search_prefix(b, d, pl, maximizing, actor, k as int));
            }
        }
        k += 1;
    }
    proof {
        if maximizing {
            if best == i32::MIN {
                assert(grid_full(b));
            }
        } else {
            if best == i32::MAX {
                assert(grid_full(b));
            }
        }
    }
    best
}

} // verus!
