use gomoku_bot::board::Board;
use gomoku_bot::board::EngineError;

fn empty_buffer() -> Vec<u8> {
    vec![0u8; 225]
}

#[test]
fn from_flat_buffer_accepts_a_valid_buffer() {
    let b = Board::from_flat_buffer(empty_buffer());
    assert!(b.is_ok());
}

#[test]
fn from_flat_buffer_rejects_a_short_buffer() {
    let r = Board::from_flat_buffer(vec![0u8; 224]);
    assert!(matches!(r, Err(EngineError::InvalidInput)));
}

#[test]
fn from_flat_buffer_rejects_a_long_buffer() {
    let r = Board::from_flat_buffer(vec![0u8; 226]);
    assert!(matches!(r, Err(EngineError::InvalidInput)));
}

#[test]
fn from_flat_buffer_rejects_a_bad_cell_value() {
    let mut cells = empty_buffer();
    cells[17] = 3;
    let r = Board::from_flat_buffer(cells);
    assert!(matches!(r, Err(EngineError::InvalidInput)));
}

#[test]
fn place_fills_exactly_the_chosen_cell() {
    let b = Board::from_flat_buffer(empty_buffer()).unwrap();
    let b2 = b.place(4, 9, 1).unwrap();
    assert_eq!(b2.get(4, 9), 1);
    assert_eq!(b2.get(9, 4), 0);
    assert_eq!(b.get(4, 9), 0);
}

#[test]
fn place_rejects_an_occupied_cell() {
    let b = Board::from_flat_buffer(empty_buffer()).unwrap();
    let b2 = b.place(4, 9, 1).unwrap();
    let r = b2.place(4, 9, 2);
    assert!(matches!(r, Err(EngineError::InvalidInput)));
}

#[test]
fn is_full_tells_empty_from_full() {
    let b = Board::from_flat_buffer(empty_buffer()).unwrap();
    assert!(!b.is_full());
    let full = Board::from_flat_buffer(vec![1u8; 225]).unwrap();
    assert!(full.is_full());
}
