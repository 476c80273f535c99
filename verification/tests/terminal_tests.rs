use gomoku_bot::board::Board;
use gomoku_bot::terminal::Terminal;
use gomoku_bot::terminal::check_win;
use gomoku_bot::terminal::evaluate_terminal;

fn board_with(stones: &[(usize, usize, u8)]) -> Board {
    let mut cells = vec![0u8; 225];
    for &(x, y, p) in stones {
        cells[y * 15 + x] = p;
    }
    Board::from_flat_buffer(cells).unwrap()
}

/// A full board without five in a row anywhere: stones alternate in
/// runs of at most two along every line direction.
fn drawn_cells() -> Vec<u8> {
    let mut cells = vec![0u8; 225];
    for y in 0..15 {
        for x in 0..15 {
            cells[y * 15 + x] = ((x / 2 + y) % 2) as u8 + 1;
        }
    }
    cells
}

#[test]
fn horizontal_five_is_a_win() {
    let b = board_with(&[(4, 2, 1), (5, 2, 1), (6, 2, 1), (7, 2, 1), (8, 2, 1)]);
    assert!(check_win(&b, 1));
    assert!(!check_win(&b, 2));
    assert_eq!(evaluate_terminal(&b), Terminal::Win(1));
}

#[test]
fn vertical_five_is_a_win() {
    let b = board_with(&[(3, 6, 2), (3, 7, 2), (3, 8, 2), (3, 9, 2), (3, 10, 2)]);
    assert!(check_win(&b, 2));
    assert!(!check_win(&b, 1));
    assert_eq!(evaluate_terminal(&b), Terminal::Win(2));
}

#[test]
fn diagonal_five_is_a_win() {
    let b = board_with(&[(2, 2, 1), (3, 3, 1), (4, 4, 1), (5, 5, 1), (6, 6, 1)]);
    assert!(check_win(&b, 1));
    assert_eq!(evaluate_terminal(&b), Terminal::Win(1));
}

#[test]
fn anti_diagonal_five_is_a_win() {
    let b = board_with(&[(10, 4, 1), (9, 5, 1), (8, 6, 1), (7, 7, 1), (6, 8, 1)]);
    assert!(check_win(&b, 1));
    assert_eq!(evaluate_terminal(&b), Terminal::Win(1));
}

#[test]
fn four_in_a_row_is_not_a_win() {
    let b = board_with(&[(4, 2, 1), (5, 2, 1), (6, 2, 1), (7, 2, 1)]);
    assert!(!check_win(&b, 1));
    assert_eq!(evaluate_terminal(&b), Terminal::Ongoing);
}

#[test]
fn a_win_at_the_board_edge_is_found() {
    let b = board_with(&[(10, 14, 2), (11, 14, 2), (12, 14, 2), (13, 14, 2), (14, 14, 2)]);
    assert!(check_win(&b, 2));
}

#[test]
fn full_board_without_five_is_a_draw() {
    let b = Board::from_flat_buffer(drawn_cells()).unwrap();
    assert!(!check_win(&b, 1));
    assert!(!check_win(&b, 2));
    assert_eq!(evaluate_terminal(&b), Terminal::Draw);
}

#[test]
fn a_quarter_turn_carries_a_win_with_it() {
    let stones = [(4usize, 2usize, 1u8), (5, 2, 1), (6, 2, 1), (7, 2, 1), (8, 2, 1)];
    let mut cells = vec![0u8; 225];
    for &(x, y, p) in &stones {
        cells[y * 15 + x] = p;
    }
    // the turned image: its cell (x, y) holds the original cell (y, 14 - x)
    let mut turned = vec![0u8; 225];
    for y in 0..15 {
        for x in 0..15 {
            turned[y * 15 + x] = cells[(14 - x) * 15 + y];
        }
    }
    let b = Board::from_flat_buffer(cells).unwrap();
    let b2 = Board::from_flat_buffer(turned).unwrap();
    assert!(check_win(&b, 1));
    assert!(check_win(&b2, 1));
}

#[test]
fn every_rotation_and_reflection_carries_a_win_with_it() {
    // an anti-diagonal five near a corner, the least symmetric case
    let stones = [(6usize, 1usize, 1u8), (5, 2, 1), (4, 3, 1), (3, 4, 1), (2, 5, 1)];
    let mut cells = vec![0u8; 225];
    for &(x, y, p) in &stones {
        cells[y * 15 + x] = p;
    }
    // each image cell (x, y) holds an original cell named by the map
    let maps: [fn(usize, usize) -> (usize, usize); 7] = [
        |x, y| (y, 14 - x),          // quarter turn
        |x, y| (14 - x, 14 - y),     // half turn
        |x, y| (14 - y, x),          // three quarter turns
        |x, y| (14 - x, y),          // mirror
        |x, y| (x, 14 - y),          // flip
        |x, y| (y, x),               // transpose
        |x, y| (14 - y, 14 - x),     // anti-transpose
    ];
    for map in maps {
        let mut image = vec![0u8; 225];
        for y in 0..15 {
            for x in 0..15 {
                let (sx, sy) = map(x, y);
                image[y * 15 + x] = cells[sy * 15 + sx];
            }
        }
        let b2 = Board::from_flat_buffer(image).unwrap();
        assert!(check_win(&b2, 1));
        assert!(!check_win(&b2, 2));
    }
}

#[test]
fn a_mirror_carries_a_win_with_it() {
    let stones = [(2usize, 2usize, 2u8), (3, 3, 2), (4, 4, 2), (5, 5, 2), (6, 6, 2)];
    let mut cells = vec![0u8; 225];
    for &(x, y, p) in &stones {
        cells[y * 15 + x] = p;
    }
    // the mirrored image: its cell (x, y) holds the original cell (14 - x, y)
    let mut mirrored = vec![0u8; 225];
    for y in 0..15 {
        for x in 0..15 {
            mirrored[y * 15 + x] = cells[y * 15 + (14 - x)];
        }
    }
    let b = Board::from_flat_buffer(cells).unwrap();
    let b2 = Board::from_flat_buffer(mirrored).unwrap();
    assert!(check_win(&b, 2));
    assert!(check_win(&b2, 2));
}
