use vstd::prelude::*;

verus! {

/// Side length of the square board.
pub const BOARD_SIZE: usize = 15;

/// Number of cells on the board.
pub const CELL_COUNT: usize = 225;

/// A cell holds exactly one of the three states:
/// 0 is Empty, 1 is PlayerOne's stone, 2 is PlayerTwo's stone.
pub open spec fn cell_ok(c: u8) -> bool {
    c == 0 || c == 1 || c == 2
}

/// A valid player identifier.
pub open spec fn player_ok(p: u8) -> bool {
    p == 1 || p == 2
}

/// The other player.
pub open spec fn spec_opponent(p: u8) -> u8 {
    if p == 1 {
        2
    } else {
        1
    }
}

/// A well-formed flat grid: 225 cells, each in one of the three states.
pub open spec fn grid_ok(b: Seq<u8>) -> bool {
    &&& b.len() == 225
    &&& forall|i: int| 0 <= i < 225 ==> cell_ok(#[trigger] b[i])
}

/// Flat index of the cell in column x of row y.
pub open spec fn cell_index(x: int, y: int) -> int {
    y * 15 + x
}

/// Coordinates that lie on the board.
pub open spec fn coord_ok(x: int, y: int) -> bool {
    0 <= x < 15 && 0 <= y < 15
}

/// The state of the cell in column x of row y.
pub open spec fn cell_at(b: Seq<u8>, x: int, y: int) -> u8 {
    b[cell_index(x, y)]
}

/// No Empty cell remains.
pub open spec fn grid_full(b: Seq<u8>) -> bool {
    forall|i: int| 0 <= i < 225 ==> #[trigger] b[i] != 0
}

/// The single failure of the engine: input that is not a valid board,
/// cell value, or player identifier.
#[derive(Clone, Copy, PartialEq, Eq, Structural, Debug)]
pub enum EngineError {
    InvalidInput,
}

/// A 15 by 15 board, stored as a flat grid, row by row.
pub struct Board {
    cells: Vec<u8>,
}

impl View for Board {
    type V = Seq<u8>;

    closed spec fn view(&self) -> Seq<u8> {
        self.cells@
    }
}

/// The other player, as executable code.
pub fn opponent(p: u8) -> (r: u8)
    ensures
        r == spec_opponent(p),
{
    if p == 1 {
        2
    } else {
        1
    }
}

impl Board {
    /// The board invariant: its grid is well formed.
    pub open spec fn wf(&self) -> bool {
        grid_ok(self@)
    }

    /// Builds a board from a flat buffer of 225 cell values; rejects a
    /// buffer of the wrong length or with a value outside the three states.
    pub fn from_flat_buffer(buffer: Vec<u8>) -> (r: Result<Board, EngineError>)
        ensures
            r is Ok <==> grid_ok(buffer@),
            r matches Ok(b) ==> b@ == buffer@ && b.wf(),
    {
        if buffer.len() != CELL_COUNT {
            return Err(EngineError::InvalidInput);
        }
        let mut i: usize = 0;
        while i < CELL_COUNT
            invariant
                buffer.len() == 225,
                i <= 225,
                forall|j: int| 0 <= j < i ==> cell_ok(#[trigger] buffer@[j]),
            decreases 225 - i,
        {
            let c = buffer[i];
            if c != 0 && c != 1 && c != 2 {
                return Err(EngineError::InvalidInput);
            }
            i += 1;
        }
        Ok(Board { cells: buffer })
    }

    /// The cell in column x of row y.
    pub fn get(&self, x: usize, y: usize) -> (c: u8)
        requires
            self.wf(),
            x < 15,
            y < 15,
        ensures
            c == cell_at(self@, x as int, y as int),
    {
        self.cells[y * BOARD_SIZE + x]
    }

    /// The cell at a flat index.
    pub fn get_at(&self, i: usize) -> (c: u8)
        requires
            self.wf(),
            i < 225,
        ensures
            c == self@[i as int],
    {
        self.cells[i]
    }

    /// Whether no Empty cell remains.
    pub fn is_full(&self) -> (r: bool)
        requires
            self.wf(),
        ensures
            r == grid_full(self@),
    {
        let mut i: usize = 0;
        while i < CELL_COUNT
            invariant
                self.wf(),
                i <= 225,
                forall|j: int| 0 <= j < i ==> #[trigger] self@[j] != 0,
            decreases 225 - i,
        {
            if self.cells[i] == 0 {
                return false;
            }
            i += 1;
        }
        true
    }

    /// A copy of this board with a stone placed at a flat index that
    /// must hold an Empty cell.
    pub fn place_at(&self, i: usize, stone: u8) -> (b: Board)
        requires
            self.wf(),
            i < 225,
            player_ok(stone),
            self@[i as int] == 0,
        ensures
            b@ == self@.update(i as int, stone),
            b.wf(),
    {
        let mut cells = copy_cells(&self.cells);
        cells.set(i, stone);
        let b = Board { cells };
        proof {
            assert forall|j: int| 0 <= j < 225 implies cell_ok(#[trigger] b@[j]) by {
                if j != i as int {
                    assert(b@[j] == self@[j]);
                }
            }
        }
        b
    }

    /// A copy of this board with the given player's stone placed in the
    /// Empty cell in column x of row y; rejects a cell that is not Empty.
    pub fn place(&self, x: usize, y: usize, stone: u8) -> (r: Result<Board, EngineError>)
        requires
            self.wf(),
            x < 15,
            y < 15,
            player_ok(stone),
        ensures
            r is Ok <==> cell_at(self@, x as int, y as int) == 0,
            r matches Ok(b) ==> b@ == self@.update(cell_index(x as int, y as int), stone)
                && b.wf(),
    {
        if self.cells[y * BOARD_SIZE + x] != 0 {
            return Err(EngineError::InvalidInput);
        }
        Ok(self.place_at(y * BOARD_SIZE + x, stone))
    }
}

/// An element-for-element copy of a cell buffer.
fn copy_cells(cells: &Vec<u8>) -> (r: Vec<u8>)
    ensures
        r@ == cells@,
{
    let mut r: Vec<u8> = Vec::new();
    let mut i: usize = 0;
    while i < cells.len()
        invariant
            i <= cells.len(),
            r@ == cells@.subrange(0, i as int),
        decreases cells.len() - i,
    {
        r.push(cells[i]);
        i += 1;
    }
    proof {
        assert(r@ =~= cells@);
    }
    r
}

} // verus!
