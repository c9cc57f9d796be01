use vstd::prelude::*;
use crate::cell::{Border, Cell, Face};
use crate::color_index::{ascending, lemma_ascending_unique, ColorIndex};
use crate::model::{
    answers, empty_cell_at, lemma_initial_wf, lemma_inventory_bound, lemma_put_wf,
    lemma_remove_wf, lemma_rotate_wf, size_ok, BoardView,
};
use crate::parse::{chars_of, parse_line, parse_number, parse_record, parse_token};
use crate::piece::{classify, ClassificationError, Kind, Piece, Sides};

verus! {

/// The board: a square grid of cells, the inventory of pieces, and for each
/// piece whether it lies on the grid. `cells[y][x]` is the cell in column `x`
/// of row `y`; row 0 is the northern edge and column 0 the western edge.
#[derive(Debug)]
pub struct BoardGame {
    pub size: u8,
    pub pieces: Vec<Piece>,
    pub placed: Vec<bool>,
    pub cells: Vec<Vec<Cell>>,
}

/// One of the four compass orientations. For a full cell it is the stored
/// rotation of the occupant; for corner and border cells it is derived from
/// the edges that the cell touches. The value names the direction that the
/// leading side of a piece faces.
#[derive(Debug, Copy, Clone, PartialEq, Eq, Structural)]
pub enum Compass {
    North,
    East,
    South,
    West,
}

/// Why a piece was not put on the board. The board is unchanged.
#[derive(Debug, Copy, Clone, PartialEq, Eq, Structural)]
pub enum PlacementError {
    /// The piece already lies on the board.
    AlreadyPlaced,
    /// The piece has another shape than the cell.
    KindMismatch { piece: Kind, cell: Kind },
    /// The cell is a full cell and no rotation was given.
    OrientationRequired,
    /// The cell already holds a piece.
    CellOccupied,
    /// A face of the piece differs from what a neighbor or the edge shows.
    FaceMismatch,
}

/// Why no board was built.
#[derive(Debug, Copy, Clone, PartialEq, Eq, Structural)]
pub enum BoardError {
    /// There is no first line to take the size from.
    MissingSize,
    /// The size is not a number between 1 and 16.
    InvalidSize,
    /// The number of records is not the number of cells.
    WrongRecordCount,
    /// A word of the record with this index is not a number up to 255.
    InvalidToken(usize),
    /// The values of the record with this index are not a piece.
    Classification(usize, ClassificationError),
}

impl PlacementError {
    /// The reason in words.
    pub open spec fn text(self) -> Seq<char> {
        match self {
            PlacementError::AlreadyPlaced => "this piece is already placed"@,
            PlacementError::KindMismatch { piece: Kind::Full, cell: Kind::Corner } => {
                "cannot put full piece on corner cell"@
            },
            PlacementError::KindMismatch { piece: Kind::Border, cell: Kind::Corner } => {
                "cannot put border piece on corner cell"@
            },
            PlacementError::KindMismatch { piece: Kind::Corner, cell: Kind::Border } => {
                "cannot put corner piece on border cell"@
            },
            PlacementError::KindMismatch { piece: Kind::Full, cell: Kind::Border } => {
                "cannot put full piece on border cell"@
            },
            PlacementError::KindMismatch { piece: Kind::Corner, cell: Kind::Full } => {
                "cannot put corner piece on full cell"@
            },
            PlacementError::KindMismatch { piece: Kind::Border, cell: Kind::Full } => {
                "cannot put border piece on full cell"@
            },
            PlacementError::KindMismatch { .. } => "cannot put piece on cell of its own kind"@,
            PlacementError::OrientationRequired => "no facing specified for full piece placement"@,
            PlacementError::CellOccupied => "already a piece placed"@,
            PlacementError::FaceMismatch => "cannot put piece at this position"@,
        }
    }

    /// The reason in words.
    pub fn message(&self) -> (r: &'static str)
        ensures
            r@ == self.text(),
    {
        match self {
            PlacementError::AlreadyPlaced => "this piece is already placed",
            PlacementError::KindMismatch { piece: Kind::Full, cell: Kind::Corner } => {
                "cannot put full piece on corner cell"
            },
            PlacementError::KindMismatch { piece: Kind::Border, cell: Kind::Corner } => {
                "cannot put border piece on corner cell"
            },
            PlacementError::KindMismatch { piece: Kind::Corner, cell: Kind::Border } => {
                "cannot put corner piece on border cell"
            },
            PlacementError::KindMismatch { piece: Kind::Full, cell: Kind::Border } => {
                "cannot put full piece on border cell"
            },
            PlacementError::KindMismatch { piece: Kind::Corner, cell: Kind::Full } => {
                "cannot put corner piece on full cell"
            },
            PlacementError::KindMismatch { piece: Kind::Border, cell: Kind::Full } => {
                "cannot put border piece on full cell"
            },
            PlacementError::KindMismatch { .. } => "cannot put piece on cell of its own kind",
            PlacementError::OrientationRequired => "no facing specified for full piece placement",
            PlacementError::CellOccupied => "already a piece placed",
            PlacementError::FaceMismatch => "cannot put piece at this position",
        }
    }
}

impl Compass {
    /// Number of clockwise quarter turns from north.
    pub open spec fn index(self) -> int {
        match self {
            Compass::North => 0,
            Compass::East => 1,
            Compass::South => 2,
            Compass::West => 3,
        }
    }
}

/// The piece that the record with index `i` gives, or why it gives none.
pub open spec fn classified(i: int, record: Seq<u8>) -> Result<Piece, BoardError> {
    match classify(i as u8, record) {
        Ok(piece) => Ok(piece),
        Err(e) => Err(BoardError::Classification(i as usize, e)),
    }
}

/// The piece that the line of the record with index `i` gives, or why it
/// gives none.
pub open spec fn record_piece(i: int, line: Seq<char>) -> Result<Piece, BoardError> {
    match parse_record(line) {
        Some(record) => classified(i, record),
        None => Err(BoardError::InvalidToken(i as usize)),
    }
}

/// What the lines of a puzzle file give record by record. The records are
/// the lines from the fifth on.
pub open spec fn line_outcomes(content: Seq<String>) -> Seq<Result<Piece, BoardError>> {
    Seq::new(
        if content.len() > 4 {
            (content.len() - 4) as nat
        } else {
            0
        },
        |i: int| record_piece(i, content[i + 4]@),
    )
}

/// What numeric records give record by record.
pub open spec fn record_outcomes(records: Seq<Vec<u8>>) -> Seq<Result<Piece, BoardError>> {
    Seq::new(records.len(), |i: int| classified(i, records[i]@))
}

/// `r` is what building a board of `size` rows gives when the records come
/// out as `outcomes`: the empty board with their pieces if the size is one a
/// board can have, there is one record per cell and each gave a piece;
/// else the first of these that fails, and among the records the first.
pub open spec fn assembled(
    size: int,
    outcomes: Seq<Result<Piece, BoardError>>,
    r: Result<BoardView, BoardError>,
) -> bool {
    match r {
        Ok(b) => {
            &&& size_ok(size)
            &&& outcomes.len() == size * size
            &&& forall|i: int| 0 <= i < outcomes.len() ==> (#[trigger] outcomes[i]) is Ok
            &&& b == BoardView::initial(
                size as nat,
                Seq::new(outcomes.len(), |i: int| outcomes[i].unwrap()),
            )
        },
        Err(e) => {
            if !size_ok(size) {
                e == BoardError::InvalidSize
            } else if outcomes.len() != size * size {
                e == BoardError::WrongRecordCount
            } else {
                match e {
                    BoardError::InvalidToken(i) | BoardError::Classification(i, _) => {
                        &&& i < outcomes.len()
                        &&& outcomes[i as int] == Err::<Piece, BoardError>(e)
                        &&& forall|j: int| 0 <= j < i ==> (#[trigger] outcomes[j]) is Ok
                    },
                    _ => false,
                }
            }
        },
    }
}

/// The result of building a board, with the board as mathematical values.
pub open spec fn viewed(r: Result<BoardGame, BoardError>) -> Result<BoardView, BoardError> {
    match r {
        Ok(b) => Ok(b@),
        Err(e) => Err(e),
    }
}

impl View for BoardGame {
    type V = BoardView;

    open spec fn view(&self) -> BoardView {
        BoardView {
            size: self.size as nat,
            pieces: self.pieces@,
            placed: self.placed@,
            cells: Seq::new(self.cells@.len(), |y: int| self.cells@[y]@),
        }
    }
}

impl Clone for BoardGame {
    /// A board of its own with the same pieces in the same cells.
    fn clone(&self) -> (r: Self)
        ensures
            r@ == self@,
    {
        let r = BoardGame {
            size: self.size,
            pieces: self.pieces.clone(),
            placed: self.placed.clone(),
            cells: self.cells.clone(),
        };
        proof {
            assert(r@.pieces =~= self@.pieces);
            assert(r@.placed =~= self@.placed);
            assert(r@.cells =~~= self@.cells);
        }
        r
    }
}

impl BoardGame {
    /// The invariant of the board, as `BoardView::wf` states it.
    pub open spec fn wf(&self) -> bool {
        self@.wf()
    }

    /// Creates the board from the lines of a puzzle file. The first line is
    /// the size; the next three lines are not read; each line from the fifth
    /// on is a record of four values separated by whitespace, and the record
    /// with index `i` becomes the piece `i`.
    pub fn new(content: Vec<String>) -> (r: Result<BoardGame, BoardError>)
        ensures
            content.len() == 0 ==> r == Err::<BoardGame, BoardError>(BoardError::MissingSize),
            content.len() > 0 && parse_number(content[0]@) is None ==> r == Err::<
                BoardGame,
                BoardError,
            >(BoardError::InvalidSize),
            content.len() > 0 && parse_number(content[0]@) is Some ==> assembled(
                parse_number(content[0]@).unwrap() as int,
                line_outcomes(content@),
                viewed(r),
            ),
            r matches Ok(b) ==> b.wf(),
    {
        if content.len() == 0 {
            return Err(BoardError::MissingSize);
        }
        let first = chars_of(content[0].as_str());
        assert(first@.subrange(0, first.len() as int) =~= first@);
        let size = match parse_token(&first, 0, first.len()) {
            Some(size) => size,
            None => {
                return Err(BoardError::InvalidSize);
            },
        };
        let ghost outcomes = line_outcomes(content@);
        if size < 1 || size > 16 {
            return Err(BoardError::InvalidSize);
        }
        assert(1 <= size * size <= 256) by (nonlinear_arith)
            requires
                1 <= size <= 16,
        ;
        let count: usize = (size as usize) * (size as usize);
        if content.len() < 4 || content.len() - 4 != count {
            return Err(BoardError::WrongRecordCount);
        }
        let mut pieces: Vec<Piece> = Vec::new();
        let mut i: usize = 0;
        while i < count
            invariant
                i <= count <= 256,
                count == size * size,
                size_ok(size as int),
                content.len() == count + 4,
                parse_number(content[0]@) == Some(size),
                outcomes == line_outcomes(content@),
                outcomes.len() == count,
                pieces.len() == i,
                forall|j: int| 0 <= j < i ==> (#[trigger] outcomes[j]) is Ok,
                forall|j: int|
                    0 <= j < i ==> outcomes[j] == Ok::<Piece, BoardError>(#[trigger] pieces[j]),
                forall|j: int|
                    0 <= j < i ==> (#[trigger] pieces[j]).wf() && pieces[j].props().id == j,
            decreases count - i,
        {
            let record = match parse_line(content[i + 4].as_str()) {
                Some(record) => record,
                None => {
                    assert(outcomes[i as int] == Err::<Piece, BoardError>(
                        BoardError::InvalidToken(i),
                    ));
                    return Err(BoardError::InvalidToken(i));
                },
            };
            match Piece::from_record(i as u8, &record) {
                Ok(piece) => {
                    assert(outcomes[i as int] == Ok::<Piece, BoardError>(piece));
                    pieces.push(piece);
                },
                Err(e) => {
                    assert(outcomes[i as int] == Err::<Piece, BoardError>(
                        BoardError::Classification(i, e),
                    ));
                    return Err(BoardError::Classification(i, e));
                },
            }
            i += 1;
        }
        let board = BoardGame::assemble(size, pieces);
        proof {
            assert(board@.pieces =~= Seq::new(outcomes.len(), |i: int| outcomes[i].unwrap()));
        }
        Ok(board)
    }

    /// Creates the board of `size` rows from numeric records, four values
    /// each; the record with index `i` becomes the piece `i`.
    pub fn from_records(size: u8, records: Vec<Vec<u8>>) -> (r: Result<BoardGame, BoardError>)
        ensures
            assembled(
                size as int,
                record_outcomes(records@),
                viewed(r),
            ),
            r matches Ok(b) ==> b.wf(),
    {
        let ghost outcomes = record_outcomes(records@);
        if size < 1 || size > 16 {
            return Err(BoardError::InvalidSize);
        }
        assert(1 <= size * size <= 256) by (nonlinear_arith)
            requires
                1 <= size <= 16,
        ;
        let count: usize = (size as usize) * (size as usize);
        if records.len() != count {
            return Err(BoardError::WrongRecordCount);
        }
        let mut pieces: Vec<Piece> = Vec::new();
        let mut i: usize = 0;
        while i < count
            invariant
                i <= count <= 256,
                count == size * size,
                size_ok(size as int),
                records.len() == count,
                outcomes == record_outcomes(records@),
                outcomes.len() == count,
                pieces.len() == i,
                forall|j: int| 0 <= j < i ==> (#[trigger] outcomes[j]) is Ok,
                forall|j: int|
                    0 <= j < i ==> outcomes[j] == Ok::<Piece, BoardError>(#[trigger] pieces[j]),
                forall|j: int|
                    0 <= j < i ==> (#[trigger] pieces[j]).wf() && pieces[j].props().id == j,
            decreases count - i,
        {
            match Piece::from_record(i as u8, &records[i]) {
                Ok(piece) => {
                    assert(outcomes[i as int] == Ok::<Piece, BoardError>(piece));
                    pieces.push(piece);
                },
                Err(e) => {
                    assert(outcomes[i as int] == Err::<Piece, BoardError>(
                        BoardError::Classification(i, e),
                    ));
                    return Err(BoardError::Classification(i, e));
                },
            }
            i += 1;
        }
        let board = BoardGame::assemble(size, pieces);
        proof {
            assert(board@.pieces =~= Seq::new(outcomes.len(), |i: int| outcomes[i].unwrap()));
        }
        Ok(board)
    }

    /// The empty board of `size` rows with the inventory `pieces`.
    fn assemble(size: u8, pieces: Vec<Piece>) -> (r: BoardGame)
        requires
            size_ok(size as int),
            pieces.len() == size * size,
            forall|i: int|
                0 <= i < pieces.len() ==> (#[trigger] pieces[i]).wf() && pieces[i].props().id == i,
        ensures
            r@ == BoardView::initial(size as nat, pieces@),
            r.wf(),
    {
        let mut placed: Vec<bool> = Vec::new();
        let mut i: usize = 0;
        while i < pieces.len()
            invariant
                i <= pieces.len(),
                placed.len() == i,
                forall|j: int| 0 <= j < i ==> !(#[trigger] placed[j]),
            decreases pieces.len() - i,
        {
            placed.push(false);
            i += 1;
        }
        let last_index = size - 1;
        let mut cells: Vec<Vec<Cell>> = Vec::new();
        let mut y: u8 = 0;
        while y < size
            invariant
                y <= size,
                last_index == size - 1,
                cells.len() == y,
                forall|j: int| 0 <= j < y ==> (#[trigger] cells[j]).len() == size,
                forall|j: int, k: int|
                    0 <= j < y && 0 <= k < size ==> #[trigger] cells[j][k] == empty_cell_at(
                        size as int,
                        k,
                        j,
                    ),
            decreases size - y,
        {
            let mut row: Vec<Cell> = Vec::new();
            let mut x: u8 = 0;
            while x < size
                invariant
                    x <= size,
                    y < size,
                    last_index == size - 1,
                    row.len() == x,
                    forall|k: int|
                        0 <= k < x ==> #[trigger] row[k] == empty_cell_at(size as int, k, y as int),
                decreases size - x,
            {
                row.push(
                    if (y == 0 || y == last_index) && (x == 0 || x == last_index) {
                        Cell::CornerCell(
                            None,
                            (
                                if y == 0 {
                                    Border::North
                                } else {
                                    Border::South
                                },
                                if x == 0 {
                                    Border::West
                                } else {
                                    Border::East
                                },
                            ),
                        )
                    } else if y == 0 {
                        Cell::BorderCell(None, Border::North)
                    } else if y == last_index {
                        Cell::BorderCell(None, Border::South)
                    } else if x == 0 {
                        Cell::BorderCell(None, Border::West)
                    } else if x == last_index {
                        Cell::BorderCell(None, Border::East)
                    } else {
                        Cell::FullCell(None, None)
                    },
                );
                x += 1;
            }
            cells.push(row);
            y += 1;
        }
        let board = BoardGame { size, pieces, placed, cells };
        proof {
            let want = BoardView::initial(size as nat, pieces@);
            lemma_initial_wf(size as nat, pieces@);
            assert(board@.placed =~= want.placed);
            assert(board@.cells =~~= want.cells);
        }
        board
    }

    /// Returns the current neighborhood of the given position: what the cell
    /// there sees at north, east, south and west.
    pub fn get_frontier(&self, pos: (u8, u8)) -> (r: (Face, Face, Face, Face))
        requires
            self.wf(),
            self@.in_grid(pos.0 as int, pos.1 as int),
        ensures
            r == self@.frontier(pos.0 as int, pos.1 as int),
    {
        let (x, y) = pos;
        let last_index = self.size - 1;
        proof {
            let v = self@;
            assert(y > 0 ==> v.cell(x as int, y - 1).wf());
            assert(y < last_index ==> v.cell(x as int, y + 1).wf());
            assert(x > 0 ==> v.cell(x - 1, y as int).wf());
            assert(x < last_index ==> v.cell(x + 1, y as int).wf());
        }
        (
            if y == 0 {
                Face::Border
            } else {
                self.cells[(y - 1) as usize][x as usize].get_face(Border::South)
            },
            if x == last_index {
                Face::Border
            } else {
                self.cells[y as usize][(x + 1) as usize].get_face(Border::West)
            },
            if y == last_index {
                Face::Border
            } else {
                self.cells[(y + 1) as usize][x as usize].get_face(Border::North)
            },
            if x == 0 {
                Face::Border
            } else {
                self.cells[y as usize][(x - 1) as usize].get_face(Border::East)
            },
        )
    }

    /// The checks of a placement that do not look at the neighbors.
    fn check_put(&self, index: u8, pos: (u8, u8), compass: Option<Compass>) -> (r: Result<
        (),
        PlacementError,
    >)
        requires
            self.wf(),
            index < self.pieces.len(),
            self@.in_grid(pos.0 as int, pos.1 as int),
        ensures
            r == self@.check_put(index as int, pos.0 as int, pos.1 as int, compass),
    {
        let (x, y) = pos;
        if self.placed[index as usize] {
            return Err(PlacementError::AlreadyPlaced);
        }
        let piece = self.pieces[index as usize].get_kind();
        let cell = self.cells[y as usize][x as usize];
        assert(cell == self@.cell(x as int, y as int));
        let (kind, occupied) = match cell {
            Cell::CornerCell(p, _) => (Kind::Corner, p.is_some()),
            Cell::BorderCell(p, _) => (Kind::Border, p.is_some()),
            Cell::FullCell(p, _) => (Kind::Full, p.is_some()),
        };
        if piece != kind {
            Err(PlacementError::KindMismatch { piece, cell: kind })
        } else if kind == Kind::Full && compass.is_none() {
            Err(PlacementError::OrientationRequired)
        } else if occupied {
            Err(PlacementError::CellOccupied)
        } else {
            Ok(())
        }
    }

    /// Writes the piece into the cell and marks it placed.
    fn commit(&mut self, index: u8, pos: (u8, u8), compass: Option<Compass>)
        requires
            old(self).wf(),
            index < old(self).pieces.len(),
            old(self)@.in_grid(pos.0 as int, pos.1 as int),
            old(self)@.check_put(index as int, pos.0 as int, pos.1 as int, compass) is Ok,
        ensures
            final(self)@ == old(self)@.put(index as int, pos.0 as int, pos.1 as int, compass),
            final(self).wf(),
    {
        let (x, y) = pos;
        let props = self.pieces[index as usize].get_props();
        let cell = self.cells[y as usize][x as usize];
        assert(cell == self@.cell(x as int, y as int));
        let filled = match cell {
            Cell::CornerCell(_, borders) => Cell::CornerCell(Some(props), borders),
            Cell::BorderCell(_, border) => Cell::BorderCell(Some(props), border),
            Cell::FullCell(..) => Cell::FullCell(Some(props), compass),
        };
        self.cells[y as usize][x as usize] = filled;
        self.placed[index as usize] = true;
        proof {
            let after = old(self)@.put(index as int, x as int, y as int, compass);
            lemma_put_wf(old(self)@, index as int, x as int, y as int, compass);
            assert(self@.cells =~~= after.cells);
            assert(self@ == after);
        }
    }

    /// Places a piece and checks if the piece can be placed: the checks of
    /// `put_piece`, then each face of the piece against what the neighbors and
    /// the edges show. The board changes only on success.
    pub fn place_piece(&mut self, piece: u8, pos: (u8, u8), compass: Option<Compass>) -> (r:
        Result<(), PlacementError>)
        requires
            old(self).wf(),
            piece < old(self).pieces.len(),
            old(self)@.in_grid(pos.0 as int, pos.1 as int),
        ensures
            r == old(self)@.check_place(piece as int, pos.0 as int, pos.1 as int, compass),
            r is Ok ==> final(self)@ == old(self)@.put(
                piece as int,
                pos.0 as int,
                pos.1 as int,
                compass,
            ),
            r is Err ==> final(self)@ == old(self)@,
            final(self).wf(),
    {
        let (x, y) = pos;
        if let Err(e) = self.check_put(piece, pos, compass) {
            return Err(e);
        }
        let cell = self.cells[y as usize][x as usize];
        assert(cell == self@.cell(x as int, y as int));
        assert(cell.wf());
        let internal_orientation = match cell.get_compass() {
            Some(fixed) => fixed,
            None => match compass {
                Some(given) => given,
                None => Compass::North,
            },
        };
        let (a, b, c, d) = self.pieces[piece as usize].get_faces(&internal_orientation);
        let (a_check, b_check, c_check, d_check) = self.get_frontier(pos);

        if (a_check == a || a_check == Face::Open) && (b_check == b || b_check == Face::Open) && (
        c_check == c || c_check == Face::Open) && (d_check == d || d_check == Face::Open) {
            self.commit(piece, pos, compass);
            return Ok(());
        }
        Err(PlacementError::FaceMismatch)
    }

    /// Puts a piece on the board; it does not check if the piece can be placed
    /// depending on its neighbors. Fails if the piece is already placed
    /// somewhere, if it has another shape than the cell, if the cell is full
    /// and no rotation is given, or if the cell holds a piece. The board
    /// changes only on success.
    pub fn put_piece(&mut self, index: u8, pos: (u8, u8), compass: Option<Compass>) -> (r: Result<
        (),
        PlacementError,
    >)
        requires
            old(self).wf(),
            index < old(self).pieces.len(),
            old(self)@.in_grid(pos.0 as int, pos.1 as int),
        ensures
            r == old(self)@.check_put(index as int, pos.0 as int, pos.1 as int, compass),
            r is Ok ==> final(self)@ == old(self)@.put(
                index as int,
                pos.0 as int,
                pos.1 as int,
                compass,
            ),
            r is Err ==> final(self)@ == old(self)@,
            final(self).wf(),
    {
        if let Err(e) = self.check_put(index, pos, compass) {
            return Err(e);
        }
        self.commit(index, pos, compass);
        Ok(())
    }

    /// Rotates an already placed piece. Only the occupant of a full cell can
    /// be rotated.
    pub fn rotate_piece(&mut self, pos: (u8, u8), compass: Compass)
        requires
            old(self).wf(),
            old(self)@.in_grid(pos.0 as int, pos.1 as int),
            old(self)@.cell(pos.0 as int, pos.1 as int) is FullCell,
            old(self)@.cell(pos.0 as int, pos.1 as int).occupant() is Some,
        ensures
            final(self)@ == old(self)@.rotate(pos.0 as int, pos.1 as int, compass),
            final(self).wf(),
    {
        let (x, y) = pos;
        let cell = self.cells[y as usize][x as usize];
        assert(cell == self@.cell(x as int, y as int));
        if let Cell::FullCell(p, _) = cell {
            self.cells[y as usize][x as usize] = Cell::FullCell(p, Some(compass));
        }
        proof {
            let after = old(self)@.rotate(x as int, y as int, compass);
            lemma_rotate_wf(old(self)@, x as int, y as int, compass);
            assert(self@.cells =~~= after.cells);
            assert(self@ == after);
        }
    }

    /// Removes the piece placed on the position, which must hold one: the
    /// cell becomes empty, a full cell forgets its rotation, and the piece is
    /// free again.
    pub fn remove_piece(&mut self, pos: (u8, u8))
        requires
            old(self).wf(),
            old(self)@.in_grid(pos.0 as int, pos.1 as int),
            old(self)@.cell(pos.0 as int, pos.1 as int).occupant() is Some,
        ensures
            final(self)@ == old(self)@.remove(pos.0 as int, pos.1 as int),
            final(self).wf(),
    {
        let (x, y) = pos;
        let cell = self.cells[y as usize][x as usize];
        assert(cell == self@.cell(x as int, y as int));
        let (occupant, emptied) = match cell {
            Cell::CornerCell(p, borders) => (p, Cell::CornerCell(None, borders)),
            Cell::BorderCell(p, border) => (p, Cell::BorderCell(None, border)),
            Cell::FullCell(p, _) => (p, Cell::FullCell(None, None)),
        };
        if let Some(props) = occupant {
            self.placed[props.id as usize] = false;
        }
        self.cells[y as usize][x as usize] = emptied;
        proof {
            let after = old(self)@.remove(x as int, y as int);
            lemma_remove_wf(old(self)@, x as int, y as int);
            assert(self@.cells =~~= after.cells);
            assert(self@ == after);
        }
    }

    /// Whether the piece `id` is worth trying in the cell at `pos`, whose
    /// frontier is `frontier`.
    fn is_placable(&self, id: u8, pos: (u8, u8), frontier: &(Face, Face, Face, Face)) -> (r: bool)
        requires
            self.wf(),
            self@.in_grid(pos.0 as int, pos.1 as int),
            *frontier == self@.frontier(pos.0 as int, pos.1 as int),
        ensures
            r == self@.is_candidate(id as int, pos.0 as int, pos.1 as int),
    {
        let (x, y) = pos;
        if id as usize >= self.pieces.len() || self.placed[id as usize] {
            return false;
        }
        let piece = &self.pieces[id as usize];
        let cell = self.cells[y as usize][x as usize];
        assert(cell == self@.cell(x as int, y as int));
        let kind = match cell {
            Cell::CornerCell(..) => Kind::Corner,
            Cell::BorderCell(..) => Kind::Border,
            Cell::FullCell(..) => Kind::Full,
        };
        let sides = piece.get_props().kind;
        piece.get_kind() == kind && shows_face(&sides, frontier.0) && shows_face(
            &sides,
            frontier.1,
        ) && shows_face(&sides, frontier.2) && shows_face(&sides, frontier.3)
    }

    /// The pieces worth trying in the cell at `pos`, in ascending order: the
    /// free pieces of the cell's shape that show every color of the frontier.
    /// Where the frontier shows a color, only the pieces that the index lists
    /// under it are looked at.
    pub fn find_placable_pieces(&self, index: &ColorIndex, pos: (u8, u8)) -> (r: Vec<u8>)
        requires
            self.wf(),
            index.wf(),
            index.indexes(self.pieces@),
            self@.in_grid(pos.0 as int, pos.1 as int),
        ensures
            self@.lists_candidates(r@, pos.0 as int, pos.1 as int),
            r@ == self@.candidates(pos.0 as int, pos.1 as int),
    {
        let out = self.collect_placable(index, pos);
        proof {
            lemma_ascending_unique(out@, self@.candidates(pos.0 as int, pos.1 as int));
        }
        out
    }

    /// Filters the pieces that the index lists under a color of the frontier,
    /// or the whole inventory where the frontier shows no color.
    fn collect_placable(&self, index: &ColorIndex, pos: (u8, u8)) -> (r: Vec<u8>)
        requires
            self.wf(),
            index.wf(),
            index.indexes(self.pieces@),
            self@.in_grid(pos.0 as int, pos.1 as int),
        ensures
            self@.lists_candidates(r@, pos.0 as int, pos.1 as int),
    {
        let frontier = self.get_frontier(pos);
        let color = match frontier {
            (Face::Color(c), _, _, _) => Some(c),
            (_, Face::Color(c), _, _) => Some(c),
            (_, _, Face::Color(c), _) => Some(c),
            (_, _, _, Face::Color(c)) => Some(c),
            _ => None,
        };
        let mut out: Vec<u8> = Vec::new();
        match color {
            Some(c) => {
                let listed = index.pieces_with(c);
                let mut i: usize = 0;
                while i < listed.len()
                    invariant
                        i <= listed.len(),
                        self.wf(),
                        self@.in_grid(pos.0 as int, pos.1 as int),
                        frontier == self@.frontier(pos.0 as int, pos.1 as int),
                        ascending(listed@),
                        ascending(out@),
                        forall|k: int|
                            0 <= k < out.len() && i < listed.len() ==> out[k] < listed[i as int],
                        forall|id: u8|
                            out@.contains(id) <==> self@.is_candidate(
                                id as int,
                                pos.0 as int,
                                pos.1 as int,
                            ) && exists|k: int| 0 <= k < i && listed[k] == id,
                    decreases listed.len() - i,
                {
                    let id = listed[i];
                    let ghost before = out@;
                    if self.is_placable(id, pos, &frontier) {
                        out.push(id);
                    }
                    proof {
                        lemma_filter_step(
                            before,
                            out@,
                            listed@,
                            i as int,
                            self@.is_candidate(id as int, pos.0 as int, pos.1 as int),
                        );
                        assert forall|other: u8|
                            out@.contains(other) <==> self@.is_candidate(
                                other as int,
                                pos.0 as int,
                                pos.1 as int,
                            ) && exists|k: int| 0 <= k < i + 1 && listed[k] == other by {
                            if exists|k: int| 0 <= k < i + 1 && listed[k] == other {
                                let k = choose|k: int| 0 <= k < i + 1 && listed[k] == other;
                                if k < i {
                                    assert(exists|k: int| 0 <= k < i && listed[k] == other);
                                }
                            }
                            if exists|k: int| 0 <= k < i && listed[k] == other {
                                let k = choose|k: int| 0 <= k < i && listed[k] == other;
                                assert(0 <= k < i + 1 && listed[k] == other);
                            }
                            if other == id {
                                assert(listed[i as int] == other);
                            }
                        }
                    }
                    i += 1;
                }
                proof {
                    assert forall|id: u8|
                        self@.is_candidate(
                            id as int,
                            pos.0 as int,
                            pos.1 as int,
                        ) implies exists|k: int| 0 <= k < i && listed[k] == id by {
                        assert(self@.pieces[id as int].props().kind.has_color(c));
                        assert(index.ids(c).contains(id));
                    }
                }
            },
            None => {
                proof {
                    lemma_inventory_bound(self@);
                }
                let mut i: usize = 0;
                while i < self.pieces.len()
                    invariant
                        i <= self.pieces.len() <= 256,
                        self.wf(),
                        self@.in_grid(pos.0 as int, pos.1 as int),
                        frontier == self@.frontier(pos.0 as int, pos.1 as int),
                        ascending(out@),
                        forall|k: int| 0 <= k < out.len() ==> out[k] < i,
                        forall|id: u8|
                            out@.contains(id) <==> self@.is_candidate(
                                id as int,
                                pos.0 as int,
                                pos.1 as int,
                            ) && id < i,
                    decreases self.pieces.len() - i,
                {
                    let id = i as u8;
                    let ghost before = out@;
                    if self.is_placable(id, pos, &frontier) {
                        out.push(id);
                    }
                    proof {
                        assert forall|other: u8|
                            out@.contains(other) <==> self@.is_candidate(
                                other as int,
                                pos.0 as int,
                                pos.1 as int,
                            ) && other < i + 1 by {
                            if before.contains(other) {
                                let k = choose|k: int| 0 <= k < before.len() && before[k] == other;
                                assert(out@[k] == other);
                            }
                            if out@.contains(other) {
                                let k = choose|k: int| 0 <= k < out@.len() && out@[k] == other;
                                if k < before.len() {
                                    assert(before[k] == other);
                                }
                            }
                            if other == id && out@.len() > before.len() {
                                assert(out@[before.len() as int] == other);
                            }
                        }
                    }
                    i += 1;
                }
            },
        }
        out
    }
}

/// Whether some side shows the color of `frontier`, if it is one.
fn shows_face(sides: &Sides, frontier: Face) -> (r: bool)
    ensures
        r == answers(*sides, frontier),
{
    match frontier {
        Face::Color(color) => sides.shows(color),
        _ => true,
    }
}

/// One step of filtering an ascending list: `after` is `before`, with the
/// item `listed[i]` behind it if it was `kept`.
proof fn lemma_filter_step(before: Seq<u8>, after: Seq<u8>, listed: Seq<u8>, i: int, kept: bool)
    requires
        0 <= i < listed.len(),
        ascending(listed),
        ascending(before),
        forall|k: int| 0 <= k < before.len() ==> before[k] < listed[i],
        kept ==> after == before.push(listed[i]),
        !kept ==> after == before,
    ensures
        ascending(after),
        forall|k: int| 0 <= k < after.len() && i + 1 < listed.len() ==> after[k] < listed[i + 1],
        forall|id: u8| after.contains(id) <==> before.contains(id) || (kept && id == listed[i]),
{
    assert forall|id: u8| after.contains(id) <==> before.contains(id) || (kept && id
        == listed[i]) by {
        if before.contains(id) {
            let k = choose|k: int| 0 <= k < before.len() && before[k] == id;
            assert(after[k] == id);
        }
        if kept && id == listed[i] {
            assert(after[before.len() as int] == id);
        }
    }
}

} // verus!
