use gomoku_bot::board::Board;
use gomoku_bot::board::EngineError;
use gomoku_bot::engine::GomokuBot;

fn board_with(stones: &[(usize, usize, u8)]) -> Board {
    let mut cells = vec![0u8; 225];
    for &(x, y, p) in stones {
        cells[y * 15 + x] = p;
    }
    Board::from_flat_buffer(cells).unwrap()
}

/// A full board without five in a row anywhere.
fn drawn_cells() -> Vec<u8> {
    let mut cells = vec![0u8; 225];
    for y in 0..15 {
        for x in 0..15 {
            cells[y * 15 + x] = ((x / 2 + y) % 2) as u8 + 1;
        }
    }
    cells
}

#[test]
fn rejects_an_invalid_player() {
    let bot = GomokuBot::new(1);
    let b = board_with(&[]);
    assert!(matches!(bot.best_move(&b, 0), Err(EngineError::InvalidInput)));
    assert!(matches!(bot.best_move(&b, 3), Err(EngineError::InvalidInput)));
}

#[test]
fn empty_board_at_depth_one_takes_the_first_cell() {
    // every candidate is a lone stone worth 1 per direction, so every
    // candidate nets 4, and the first enumerated cell wins the tie
    let bot = GomokuBot::new(1);
    let b = board_with(&[]);
    let m = bot.best_move(&b, 1).unwrap();
    assert_eq!(m, Some((0, 0, 4)));
}

#[test]
fn a_four_run_with_two_open_ends_is_completed() {
    // four stones of player 1 in row 5, columns 3..=6; either open end
    // completes five in a row and is worth the reserved win value
    let bot = GomokuBot::new(1);
    let b = board_with(&[(3, 5, 1), (4, 5, 1), (5, 5, 1), (6, 5, 1)]);
    let (x, y, score) = bot.best_move(&b, 1).unwrap().unwrap();
    assert_eq!(score, 1000000);
    assert!((x, y) == (2, 5) || (x, y) == (7, 5));
    // the fixed row-major enumeration makes the earlier hole the winner
    assert_eq!((x, y), (2, 5));
}

#[test]
fn a_full_board_yields_no_move() {
    let bot = GomokuBot::new(3);
    let b = Board::from_flat_buffer(drawn_cells()).unwrap();
    assert_eq!(bot.best_move(&b, 1).unwrap(), None);
    assert_eq!(bot.best_move(&b, 2).unwrap(), None);
}

#[test]
fn an_immediate_win_is_taken_at_a_deeper_budget() {
    // a nearly full board: row 0 starts with four stones of player 1,
    // the hole at (4, 0) completes five; (10, 10) is the only other
    // Empty cell
    let mut cells = drawn_cells();
    for x in 0..4 {
        cells[x] = 1;
    }
    cells[4] = 0;
    cells[5] = 1;
    cells[10 * 15 + 10] = 0;
    let b = Board::from_flat_buffer(cells).unwrap();
    let bot = GomokuBot::new(2);
    let (x, y, score) = bot.best_move(&b, 1).unwrap().unwrap();
    assert_eq!((x, y), (4, 0));
    assert_eq!(score, 1000000);
}

#[test]
fn an_immediate_win_outranks_a_slower_forced_win() {
    // a nearly full board with three Empty cells: (3, 0) is a decoy
    // that comes first in row-major order; (5, 2) and (13, 12) each
    // complete five in a row for player 1 at once. After the decoy the
    // opponent can only block one of the two holes, so the decoy still
    // forces a win two plies later - but a slower win must score below
    // the reserved value, so the selector must skip the decoy and take
    // the first immediate win, at every depth budget of three or more.
    let mut cells = drawn_cells();
    cells[3] = 0;  // the decoy (3, 0)
    cells[2 * 15] = 2;  // blocks the row-2 run on the left
    for x in 1..5 {
        cells[2 * 15 + x] = 1;
    }
    cells[2 * 15 + 5] = 0;  // the hole (5, 2)
    cells[12 * 15 + 8] = 2;  // blocks the row-12 run on the left
    for x in 9..13 {
        cells[12 * 15 + x] = 1;
    }
    cells[12 * 15 + 13] = 0;  // the hole (13, 12)
    let b = Board::from_flat_buffer(cells).unwrap();
    assert_eq!(gomoku_bot::terminal::evaluate_terminal(&b), gomoku_bot::terminal::Terminal::Ongoing);
    for depth in 3..=5i32 {
        let bot = GomokuBot::new(depth);
        let (x, y, score) = bot.best_move(&b, 1).unwrap().unwrap();
        assert_eq!((x, y), (5, 2), "depth {depth}");
        assert_eq!(score, 1000000, "depth {depth}");
    }
}

// An exhaustive minimax without pruning, mirroring the engine's
// documented leaf scoring, used to cross-check the pruned search.

fn ref_cell(b: &[u8], x: i64, y: i64) -> u8 {
    b[(y * 15 + x) as usize]
}

fn ref_scan(b: &[u8], p: u8, x: i64, y: i64, dx: i64, dy: i64, i: i64) -> (i64, i64) {
    if !(0..6).contains(&i) {
        return (0, 0);
    }
    let nx = x + i * dx;
    let ny = y + i * dy;
    if !(0..15).contains(&nx) || !(0..15).contains(&ny) {
        return (0, 0);
    }
    let c = ref_cell(b, nx, ny);
    if c == p {
        let rest = ref_scan(b, p, x, y, dx, dy, i + 1);
        (rest.0 + 1, rest.1)
    } else if c == 0 {
        (0, 1)
    } else {
        (0, 0)
    }
}

fn ref_pattern(count: i64, open_ends: i64) -> i64 {
    match (count, open_ends) {
        (5, _) => 1000000,
        (4, 2) => 100000,
        (4, 1) => 10000,
        (3, 2) => 1000,
        (3, 1) => 100,
        (2, 2) => 100,
        (2, 1) => 10,
        (1, _) => 1,
        _ => 0,
    }
}

fn ref_potential(b: &[u8], p: u8) -> i64 {
    let mut total = 0i64;
    for y in 0..15i64 {
        for x in 0..15i64 {
            if ref_cell(b, x, y) != p {
                continue;
            }
            for &(dx, dy) in &[(1i64, 0i64), (0, 1), (1, 1), (1, -1)] {
                let f = ref_scan(b, p, x, y, dx, dy, 0);
                let r = ref_scan(b, p, x, y, -dx, -dy, 1);
                total += ref_pattern(f.0 + r.0, f.1 + r.1);
            }
        }
    }
    total
}

fn ref_evaluate(b: &[u8], p: u8) -> i64 {
    let q = if p == 1 { 2 } else { 1 };
    ref_potential(b, p) - ref_potential(b, q)
}

fn ref_has_win(b: &[u8], p: u8) -> bool {
    for y in 0..15i64 {
        for x in 0..15i64 {
            for &(dx, dy) in &[(1i64, 0i64), (0, 1), (1, 1), (-1, 1)] {
                let (ex, ey) = (x + 4 * dx, y + 4 * dy);
                if (0..15).contains(&ex) && (0..15).contains(&ey) {
                    if (0..5).all(|i| ref_cell(b, x + i * dx, y + i * dy) == p) {
                        return true;
                    }
                }
            }
        }
    }
    false
}

fn ref_minimax(b: &[u8], depth: i64, ply: i64, maximizing: bool, actor: u8) -> i64 {
    let other = if actor == 1 { 2 } else { 1 };
    // a won board is worth the reserved value lessened by the plies
    // beyond the first, so faster wins outrank slower ones
    if ref_has_win(b, actor) {
        return 1000001 - ply;
    }
    if ref_has_win(b, other) {
        return ply - 1000001;
    }
    if b.iter().all(|&c| c != 0) {
        return 0;
    }
    if depth <= 0 {
        return ref_evaluate(b, actor);
    }
    let stone = if maximizing { actor } else { other };
    let mut best = if maximizing { i64::MIN } else { i64::MAX };
    for k in 0..225 {
        if b[k] == 0 {
            let mut child = b.to_vec();
            child[k] = stone;
            let s = ref_minimax(&child, depth - 1, ply + 1, !maximizing, actor);
            if maximizing {
                best = best.max(s);
            } else {
                best = best.min(s);
            }
        }
    }
    best
}

fn ref_best_move(b: &[u8], depth: i64, actor: u8) -> Option<(usize, usize, i64)> {
    let child_depth = if depth < 1 { 0 } else { (depth - 1).min(224) };
    let mut best: Option<(usize, usize, i64)> = None;
    for y in 0..15usize {
        for x in 0..15usize {
            if b[y * 15 + x] == 0 {
                let mut child = b.to_vec();
                child[y * 15 + x] = actor;
                let s = ref_minimax(&child, child_depth, 1, false, actor);
                match best {
                    Some((_, _, bs)) if s <= bs => {}
                    _ => best = Some((x, y, s)),
                }
            }
        }
    }
    best
}

#[test]
fn pruned_search_matches_exhaustive_minimax() {
    // a nearly full board with four Empty cells, searched deeper than
    // the number of moves left, for both players and several budgets
    let mut cells = drawn_cells();
    cells[0] = 0;
    cells[7 * 15 + 7] = 0;
    cells[14 * 15 + 14] = 0;
    cells[3 * 15 + 11] = 0;
    let b = Board::from_flat_buffer(cells.clone()).unwrap();
    for depth in 1..=5i32 {
        for player in 1..=2u8 {
            let bot = GomokuBot::new(depth);
            let got = bot.best_move(&b, player).unwrap();
            let want = ref_best_move(&cells, depth as i64, player);
            let got64 = got.map(|(x, y, s)| (x, y, s as i64));
            assert_eq!(got64, want, "depth {depth} player {player}");
        }
    }
}

#[test]
fn pruned_search_matches_exhaustive_minimax_with_runs_on_board() {
    // as above, but the Empty cells border runs so the heuristic
    // leaves differ from one another
    let mut cells = drawn_cells();
    cells[6 * 15 + 6] = 0;
    cells[6 * 15 + 7] = 0;
    cells[7 * 15 + 6] = 0;
    cells[8 * 15 + 8] = 0;
    let b = Board::from_flat_buffer(cells.clone()).unwrap();
    for depth in 1..=4i32 {
        for player in 1..=2u8 {
            let bot = GomokuBot::new(depth);
            let got = bot.best_move(&b, player).unwrap();
            let want = ref_best_move(&cells, depth as i64, player);
            let got64 = got.map(|(x, y, s)| (x, y, s as i64));
            assert_eq!(got64, want, "depth {depth} player {player}");
        }
    }
}
