use vstd::prelude::*;
use crate::board::{Compass, PlacementError};
use crate::cell::{Border, Cell, Face};
use crate::color_index::ascending;
use crate::piece::{Kind, Piece, Sides};

verus! {

/// The board as mathematical values: the number of rows, the inventory, for
/// each piece whether it lies on the grid, and the rows of cells from north to
/// south, each from west to east.
pub struct BoardView {
    pub size: nat,
    pub pieces: Seq<Piece>,
    pub placed: Seq<bool>,
    pub cells: Seq<Seq<Cell>>,
}

/// The sizes that a board can have: the identifier of a piece is a `u8`, so
/// there are at most 256 cells.
pub open spec fn size_ok(size: int) -> bool {
    1 <= size <= 16
}

/// The empty cell that belongs at column `x` of row `y` on a grid of `size`
/// rows: the four extreme positions are corners, the rest of the outer ring
/// are borders, the inside is full.
pub open spec fn empty_cell_at(size: int, x: int, y: int) -> Cell {
    let last = size - 1;
    if (y == 0 || y == last) && (x == 0 || x == last) {
        Cell::CornerCell(
            None,
            (
                if y == 0 {
                    Border::North
                } else {
                    Border::South
                },
                if x == 0 {
                    Border::West
                } else {
                    Border::East
                },
            ),
        )
    } else if y == 0 {
        Cell::BorderCell(None, Border::North)
    } else if y == last {
        Cell::BorderCell(None, Border::South)
    } else if x == 0 {
        Cell::BorderCell(None, Border::West)
    } else if x == last {
        Cell::BorderCell(None, Border::East)
    } else {
        Cell::FullCell(None, None)
    }
}

/// A face of a piece agrees with what its surroundings show there: the same
/// face, or nothing yet.
pub open spec fn compatible(face: Face, frontier: Face) -> bool {
    frontier == Face::Open || frontier == face
}

/// Each of the four faces agrees with the frontier in its direction.
pub open spec fn faces_fit(
    faces: (Face, Face, Face, Face),
    frontier: (Face, Face, Face, Face),
) -> bool {
    &&& compatible(faces.0, frontier.0)
    &&& compatible(faces.1, frontier.1)
    &&& compatible(faces.2, frontier.2)
    &&& compatible(faces.3, frontier.3)
}

/// A piece with these sides can answer what the frontier shows in one
/// direction: where that is a color, some side of the piece has it.
pub open spec fn answers(sides: Sides, frontier: Face) -> bool {
    frontier matches Face::Color(color) ==> sides.has_color(color)
}

impl BoardView {
    /// The empty board of `size` rows with the inventory `pieces`.
    pub open spec fn initial(size: nat, pieces: Seq<Piece>) -> BoardView {
        BoardView {
            size,
            pieces,
            placed: Seq::new(pieces.len(), |i: int| false),
            cells: Seq::new(
                size,
                |y: int| Seq::new(size, |x: int| empty_cell_at(size as int, x, y)),
            ),
        }
    }

    /// Column `x` of row `y` lies on the grid.
    pub open spec fn in_grid(self, x: int, y: int) -> bool {
        0 <= x < self.size && 0 <= y < self.size
    }

    /// The cell in column `x` of row `y`.
    pub open spec fn cell(self, x: int, y: int) -> Cell {
        self.cells[y][x]
    }

    /// The cell in column `x` of row `y` holds the piece `id`.
    pub open spec fn holds(self, x: int, y: int, id: int) -> bool {
        self.cell(x, y).occupant() matches Some(p) && p.id == id
    }

    /// Some cell of the grid holds the piece `id`.
    pub open spec fn is_held(self, id: int) -> bool {
        exists|x: int, y: int| self.in_grid(x, y) && #[trigger] self.holds(x, y, id)
    }

    /// The invariant of the board. The grid is square with between 1 and 16
    /// rows, and each cell has the shape that its position asks for. The
    /// inventory has one piece per cell, each well formed, the piece `i` at
    /// index `i`. An occupant is the piece of the inventory with its
    /// identifier. No piece lies in two cells, and the registry marks exactly
    /// the pieces that lie in some cell.
    pub open spec fn wf(self) -> bool {
        &&& size_ok(self.size as int)
        &&& self.pieces.len() == self.size * self.size
        &&& self.placed.len() == self.pieces.len()
        &&& forall|i: int|
            0 <= i < self.pieces.len() ==> (#[trigger] self.pieces[i]).wf()
                && self.pieces[i].props().id == i
        &&& self.cells.len() == self.size
        &&& forall|y: int| 0 <= y < self.size ==> (#[trigger] self.cells[y]).len() == self.size
        &&& forall|x: int, y: int|
            self.in_grid(x, y) ==> {
                let c = #[trigger] self.cell(x, y);
                &&& c.wf()
                &&& c.emptied() == empty_cell_at(self.size as int, x, y)
                &&& c.occupant() matches Some(p) ==> p.id < self.pieces.len()
                    && self.pieces[p.id as int].props() == p && self.placed[p.id as int]
            }
        &&& forall|x1: int, y1: int, x2: int, y2: int, id: int|
            self.in_grid(x1, y1) && self.in_grid(x2, y2) && #[trigger] self.holds(x1, y1, id)
                && #[trigger] self.holds(x2, y2, id) ==> x1 == x2 && y1 == y2
        &&& forall|id: int|
            0 <= id < self.placed.len() && #[trigger] self.placed[id] ==> self.is_held(id)
    }

    /// The cell in column `x` of row `y` has a neighbor on the grid at `side`.
    pub open spec fn has_neighbor(self, x: int, y: int, side: Border) -> bool {
        match side {
            Border::North => y > 0,
            Border::East => x < self.size - 1,
            Border::South => y < self.size - 1,
            Border::West => x > 0,
        }
    }

    /// The column and row of the neighbor at `side`.
    pub open spec fn neighbor(self, x: int, y: int, side: Border) -> (int, int) {
        match side {
            Border::North => (x, y - 1),
            Border::East => (x + 1, y),
            Border::South => (x, y + 1),
            Border::West => (x - 1, y),
        }
    }

    /// What the surroundings show towards the cell in column `x` of row `y`
    /// from the direction `side`: the edge of the grid, or the face that the
    /// neighbor there turns to the cell.
    pub open spec fn frontier_face(self, x: int, y: int, side: Border) -> Face {
        if self.has_neighbor(x, y, side) {
            self.cell(self.neighbor(x, y, side).0, self.neighbor(x, y, side).1).face(
                side.opposite(),
            )
        } else {
            Face::Border
        }
    }

    /// The frontier at north, east, south and west.
    pub open spec fn frontier(self, x: int, y: int) -> (Face, Face, Face, Face) {
        (
            self.frontier_face(x, y, Border::North),
            self.frontier_face(x, y, Border::East),
            self.frontier_face(x, y, Border::South),
            self.frontier_face(x, y, Border::West),
        )
    }

    /// The checks that do not look at the neighbors, in this order: the piece
    /// is not on the board yet, it has the shape of the cell, a full cell
    /// comes with a rotation, and the cell is empty.
    pub open spec fn check_put(self, id: int, x: int, y: int, compass: Option<Compass>) -> Result<
        (),
        PlacementError,
    > {
        let piece = self.pieces[id];
        let cell = self.cell(x, y);
        if self.placed[id] {
            Err(PlacementError::AlreadyPlaced)
        } else if piece.kind() != cell.kind() {
            Err(self.kind_mismatch(id, x, y))
        } else if cell.kind() == Kind::Full && compass is None {
            Err(PlacementError::OrientationRequired)
        } else if cell.occupant() is Some {
            Err(PlacementError::CellOccupied)
        } else {
            Ok(())
        }
    }

    /// The error for the piece `id` having another shape than the cell in
    /// column `x` of row `y`.
    pub open spec fn kind_mismatch(self, id: int, x: int, y: int) -> PlacementError {
        PlacementError::KindMismatch { piece: self.pieces[id].kind(), cell: self.cell(x, y).kind() }
    }

    /// The direction that the leading side of a piece would face in the empty
    /// cell in column `x` of row `y`: fixed by the edges for a corner or
    /// border cell, `compass` for a full cell.
    pub open spec fn orientation(self, x: int, y: int, compass: Option<Compass>) -> Compass {
        match self.cell(x, y).emptied().compass() {
            Some(fixed) => fixed,
            None => compass.unwrap(),
        }
    }

    /// All checks of a placement: those of `check_put`, then each face of the
    /// piece against the frontier of the cell.
    pub open spec fn check_place(self, id: int, x: int, y: int, compass: Option<Compass>) -> Result<
        (),
        PlacementError,
    > {
        match self.check_put(id, x, y, compass) {
            Err(e) => Err(e),
            Ok(_) => if faces_fit(
                self.pieces[id].props().kind.faces(self.orientation(x, y, compass)),
                self.frontier(x, y),
            ) {
                Ok(())
            } else {
                Err(PlacementError::FaceMismatch)
            },
        }
    }

    /// The piece `id` is worth trying in the cell in column `x` of row `y`:
    /// it is free, it has the shape of the cell, and it shows every color
    /// that the frontier of the cell shows.
    pub open spec fn is_candidate(self, id: int, x: int, y: int) -> bool {
        let sides = self.pieces[id].props().kind;
        &&& 0 <= id < self.pieces.len()
        &&& !self.placed[id]
        &&& self.pieces[id].kind() == self.cell(x, y).kind()
        &&& answers(sides, self.frontier(x, y).0)
        &&& answers(sides, self.frontier(x, y).1)
        &&& answers(sides, self.frontier(x, y).2)
        &&& answers(sides, self.frontier(x, y).3)
    }

    /// `ids` are the pieces worth trying in the cell in column `x` of row
    /// `y`, in ascending order.
    pub open spec fn lists_candidates(self, ids: Seq<u8>, x: int, y: int) -> bool {
        &&& ascending(ids)
        &&& forall|id: u8| ids.contains(id) <==> self.is_candidate(id as int, x, y)
    }

    /// The pieces worth trying in the cell in column `x` of row `y`, in
    /// ascending order.
    pub open spec fn candidates(self, x: int, y: int) -> Seq<u8> {
        choose|ids: Seq<u8>| self.lists_candidates(ids, x, y)
    }

    /// The board with the cell in column `x` of row `y` replaced by `cell`.
    pub open spec fn with_cell(self, x: int, y: int, cell: Cell) -> BoardView {
        BoardView { cells: self.cells.update(y, self.cells[y].update(x, cell)), ..self }
    }

    /// The cell in column `x` of row `y` once it holds the piece `id`; a full
    /// cell keeps `compass` as its rotation.
    pub open spec fn cell_with(self, id: int, x: int, y: int, compass: Option<Compass>) -> Cell {
        self.cell(x, y).filled(self.pieces[id].props(), compass)
    }

    /// The board after the piece `id` went into the cell in column `x` of row
    /// `y`.
    pub open spec fn put(self, id: int, x: int, y: int, compass: Option<Compass>) -> BoardView {
        BoardView {
            placed: self.placed.update(id, true),
            ..self.with_cell(x, y, self.cell_with(id, x, y, compass))
        }
    }

    /// The board after the occupant of the cell in column `x` of row `y` was
    /// taken off; a full cell forgets its rotation.
    pub open spec fn remove(self, x: int, y: int) -> BoardView {
        BoardView {
            placed: self.placed.update(self.cell(x, y).occupant().unwrap().id as int, false),
            ..self.with_cell(x, y, self.cell(x, y).emptied())
        }
    }

    /// The board after the occupant of the full cell in column `x` of row `y`
    /// was turned to `compass`.
    pub open spec fn rotate(self, x: int, y: int, compass: Compass) -> BoardView {
        self.with_cell(x, y, Cell::FullCell(self.cell(x, y).occupant(), Some(compass)))
    }
}

/// A board has at most 256 pieces.
pub(crate) proof fn lemma_inventory_bound(b: BoardView)
    requires
        b.wf(),
    ensures
        1 <= b.pieces.len() <= 256,
{
    assert(1 <= b.size * b.size <= 256) by (nonlinear_arith)
        requires
            1 <= b.size <= 16,
    ;
}

/// Replacing one cell changes that cell and nothing else.
pub(crate) proof fn lemma_with_cell(b: BoardView, x: int, y: int, cell: Cell)
    requires
        b.cells.len() == b.size,
        forall|j: int| 0 <= j < b.size ==> (#[trigger] b.cells[j]).len() == b.size,
        b.in_grid(x, y),
    ensures
        b.with_cell(x, y, cell).size == b.size,
        b.with_cell(x, y, cell).pieces == b.pieces,
        b.with_cell(x, y, cell).placed == b.placed,
        b.with_cell(x, y, cell).cells.len() == b.size,
        forall|j: int|
            0 <= j < b.size ==> (#[trigger] b.with_cell(x, y, cell).cells[j]).len() == b.size,
        b.with_cell(x, y, cell).cell(x, y) == cell,
        forall|i: int, j: int|
            b.in_grid(i, j) && !(i == x && j == y) ==> #[trigger] b.with_cell(x, y, cell).cell(i, j)
                == b.cell(i, j),
{
}

/// The empty board satisfies the invariant.
pub proof fn lemma_initial_wf(size: nat, pieces: Seq<Piece>)
    requires
        size_ok(size as int),
        pieces.len() == size * size,
        forall|i: int|
            0 <= i < pieces.len() ==> (#[trigger] pieces[i]).wf() && pieces[i].props().id == i,
    ensures
        BoardView::initial(size, pieces).wf(),
{
    let b = BoardView::initial(size, pieces);
    assert forall|x: int, y: int| b.in_grid(x, y) implies #[trigger] b.cell(x, y) == empty_cell_at(
        size as int,
        x,
        y,
    ) by {}
    assert forall|id: int| 0 <= id < b.placed.len() && #[trigger] b.placed[id] implies b.is_held(
        id,
    ) by {}
}

/// A placement that passes `check_put` keeps the invariant of the board.
pub proof fn lemma_put_wf(b: BoardView, id: int, x: int, y: int, compass: Option<Compass>)
    requires
        b.wf(),
        0 <= id < b.pieces.len(),
        b.in_grid(x, y),
        b.check_put(id, x, y, compass) is Ok,
    ensures
        b.put(id, x, y, compass).wf(),
{
    let props = b.pieces[id].props();
    let cell = b.cell(x, y).filled(props, compass);
    let w = b.with_cell(x, y, cell);
    let a = b.put(id, x, y, compass);
    lemma_with_cell(b, x, y, cell);
    assert(b.pieces[id].wf());
    assert(b.cell(x, y).wf());
    assert forall|i: int, j: int| a.in_grid(i, j) implies a.cell(i, j) == if i == x && j == y {
        cell
    } else {
        b.cell(i, j)
    } by {
        assert(a.cell(i, j) == w.cell(i, j));
    }
    assert forall|i: int, j: int| b.in_grid(i, j) implies !b.holds(i, j, id) by {
        let c = b.cell(i, j);
    }
    assert forall|i: int, j: int| a.in_grid(i, j) implies {
        let c = #[trigger] a.cell(i, j);
        &&& c.wf()
        &&& c.emptied() == empty_cell_at(a.size as int, i, j)
        &&& c.occupant() matches Some(p) ==> p.id < a.pieces.len() && a.pieces[p.id as int].props()
            == p && a.placed[p.id as int]
    } by {
        let c = b.cell(i, j);
    }
    assert forall|x1: int, y1: int, x2: int, y2: int, i: int|
        a.in_grid(x1, y1) && a.in_grid(x2, y2) && #[trigger] a.holds(x1, y1, i)
            && #[trigger] a.holds(x2, y2, i) implies x1 == x2 && y1 == y2 by {
        if i == id {
            assert(!b.holds(x1, y1, id));
            assert(!b.holds(x2, y2, id));
        } else {
            assert(b.holds(x1, y1, i));
            assert(b.holds(x2, y2, i));
        }
    }
    assert forall|i: int| 0 <= i < a.placed.len() && #[trigger] a.placed[i] implies a.is_held(
        i,
    ) by {
        if i == id {
            assert(a.holds(x, y, i));
        } else {
            assert(b.placed[i]);
            assert(b.is_held(i));
            let (x0, y0) = choose|x0: int, y0: int|
                b.in_grid(x0, y0) && #[trigger] b.holds(x0, y0, i);
            assert(a.holds(x0, y0, i));
        }
    }
}

/// Taking the occupant off a cell keeps the invariant of the board.
pub proof fn lemma_remove_wf(b: BoardView, x: int, y: int)
    requires
        b.wf(),
        b.in_grid(x, y),
        b.cell(x, y).occupant() is Some,
    ensures
        b.remove(x, y).wf(),
{
    let id = b.cell(x, y).occupant().unwrap().id as int;
    let cell = b.cell(x, y).emptied();
    let w = b.with_cell(x, y, cell);
    let a = b.remove(x, y);
    lemma_with_cell(b, x, y, cell);
    assert(b.cell(x, y).wf());
    assert(b.holds(x, y, id));
    assert forall|i: int, j: int| a.in_grid(i, j) implies a.cell(i, j) == if i == x && j == y {
        cell
    } else {
        b.cell(i, j)
    } by {
        assert(a.cell(i, j) == w.cell(i, j));
    }
    assert forall|i: int, j: int| a.in_grid(i, j) implies {
        let c = #[trigger] a.cell(i, j);
        &&& c.wf()
        &&& c.emptied() == empty_cell_at(a.size as int, i, j)
        &&& c.occupant() matches Some(p) ==> p.id < a.pieces.len() && a.pieces[p.id as int].props()
            == p && a.placed[p.id as int]
    } by {
        let c = b.cell(i, j);
        if !(i == x && j == y) && c.occupant() is Some {
            let p = c.occupant().unwrap();
            assert(b.holds(i, j, p.id as int));
        }
    }
    assert forall|x1: int, y1: int, x2: int, y2: int, i: int|
        a.in_grid(x1, y1) && a.in_grid(x2, y2) && #[trigger] a.holds(x1, y1, i)
            && #[trigger] a.holds(x2, y2, i) implies x1 == x2 && y1 == y2 by {
        assert(b.holds(x1, y1, i));
        assert(b.holds(x2, y2, i));
    }
    assert forall|i: int| 0 <= i < a.placed.len() && #[trigger] a.placed[i] implies a.is_held(
        i,
    ) by {
        assert(b.placed[i]);
        assert(b.is_held(i));
        let (x0, y0) = choose|x0: int, y0: int| b.in_grid(x0, y0) && #[trigger] b.holds(x0, y0, i);
        assert(a.holds(x0, y0, i));
    }
}

/// Turning the occupant of a full cell keeps the invariant of the board.
pub proof fn lemma_rotate_wf(b: BoardView, x: int, y: int, compass: Compass)
    requires
        b.wf(),
        b.in_grid(x, y),
        b.cell(x, y) is FullCell,
        b.cell(x, y).occupant() is Some,
    ensures
        b.rotate(x, y, compass).wf(),
{
    let cell = Cell::FullCell(b.cell(x, y).occupant(), Some(compass));
    let a = b.rotate(x, y, compass);
    lemma_with_cell(b, x, y, cell);
    assert(b.cell(x, y).wf());
    assert forall|i: int, j: int| a.in_grid(i, j) implies {
        let c = #[trigger] a.cell(i, j);
        &&& c.wf()
        &&& c.emptied() == empty_cell_at(a.size as int, i, j)
        &&& c.occupant() matches Some(p) ==> p.id < a.pieces.len() && a.pieces[p.id as int].props()
            == p && a.placed[p.id as int]
    } by {
        let c = b.cell(i, j);
    }
    assert forall|x1: int, y1: int, x2: int, y2: int, i: int|
        a.in_grid(x1, y1) && a.in_grid(x2, y2) && #[trigger] a.holds(x1, y1, i)
            && #[trigger] a.holds(x2, y2, i) implies x1 == x2 && y1 == y2 by {
        assert(b.holds(x1, y1, i));
        assert(b.holds(x2, y2, i));
    }
    assert forall|i: int| 0 <= i < a.placed.len() && #[trigger] a.placed[i] implies a.is_held(
        i,
    ) by {
        assert(b.is_held(i));
        let (x0, y0) = choose|x0: int, y0: int| b.in_grid(x0, y0) && #[trigger] b.holds(x0, y0, i);
        assert(a.holds(x0, y0, i));
    }
}

/// A piece that was put on the board and taken off again leaves the board as
/// it was: the cell is empty, a full cell has forgotten the rotation, and the
/// piece is free. This holds of `put_piece` and of `place_piece`, which
/// succeeds only where `put_piece` does.
pub proof fn lemma_put_remove_round_trip(
    b: BoardView,
    id: int,
    x: int,
    y: int,
    compass: Option<Compass>,
)
    requires
        b.wf(),
        0 <= id < b.pieces.len(),
        b.in_grid(x, y),
        b.check_put(id, x, y, compass) is Ok,
    ensures
        b.check_place(id, x, y, compass) is Ok ==> b.check_put(id, x, y, compass) is Ok,
        b.put(id, x, y, compass).cell(x, y).occupant() == Some(b.pieces[id].props()),
        b.put(id, x, y, compass).remove(x, y) == b,
        b.put(id, x, y, compass).remove(x, y).cell(x, y).occupant() is None,
        b.put(id, x, y, compass).remove(x, y).cell(x, y).compass() == b.cell(
            x,
            y,
        ).emptied().compass(),
        b.cell(x, y) is FullCell ==> b.put(id, x, y, compass).remove(x, y).cell(x, y)
            == Cell::FullCell(None, None),
        !b.put(id, x, y, compass).remove(x, y).placed[id],
{
    let props = b.pieces[id].props();
    let cell = b.cell(x, y).filled(props, compass);
    let p = b.put(id, x, y, compass);
    let r = p.remove(x, y);
    lemma_with_cell(b, x, y, cell);
    assert(p.cell(x, y) == cell);
    assert(b.pieces[id].wf());
    assert(b.cell(x, y).wf());
    assert(b.cell(x, y).emptied() == empty_cell_at(b.size as int, x, y));
    assert(r.placed =~= b.placed);
    assert(r.cells =~~= b.cells);
}

/// Of the nine pairs of a piece's shape and a cell's shape, the three with
/// equal shapes can succeed and the six others fail as a kind mismatch, for
/// every free piece and every cell: a free piece of the cell's shape goes into
/// an empty cell (with a rotation, if the cell is full), and a free piece of
/// another shape is refused for its shape whatever the cell holds.
pub proof fn lemma_kind_combinations(
    b: BoardView,
    id: int,
    x: int,
    y: int,
    compass: Option<Compass>,
)
    requires
        b.wf(),
        0 <= id < b.pieces.len(),
        b.in_grid(x, y),
        !b.placed[id],
    ensures
        b.pieces[id].kind() != b.cell(x, y).kind() ==> b.check_put(id, x, y, compass) == Err::<
            (),
            PlacementError,
        >(b.kind_mismatch(id, x, y)),
        b.pieces[id].kind() != b.cell(x, y).kind() ==> b.check_place(id, x, y, compass) == Err::<
            (),
            PlacementError,
        >(b.kind_mismatch(id, x, y)),
        b.pieces[id].kind() == b.cell(x, y).kind() ==> b.check_put(id, x, y, compass) != Err::<
            (),
            PlacementError,
        >(b.kind_mismatch(id, x, y)),
        b.pieces[id].kind() == b.cell(x, y).kind() ==> b.check_place(id, x, y, compass) != Err::<
            (),
            PlacementError,
        >(b.kind_mismatch(id, x, y)),
        b.pieces[id].kind() == b.cell(x, y).kind() && b.cell(x, y).occupant() is None && (b.cell(
            x,
            y,
        ) is FullCell ==> compass is Some) ==> b.check_put(id, x, y, compass) is Ok,
{
}

} // verus!
