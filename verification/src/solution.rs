use vstd::prelude::*;
use crate::board::Compass;
use crate::cell::{lemma_occupied_cell_faces, Border, Cell, Face};
use crate::crawler::{lemma_pending_next, pending, successor};
use crate::model::{compatible, empty_cell_at, faces_fit, lemma_with_cell, BoardView};
use crate::piece::Sides;

verus! {

impl BoardView {
    /// The cell in column `x` of row `y` holds a piece, and each face of it
    /// is what the frontier shows there, where that shows anything.
    pub open spec fn fits(self, x: int, y: int) -> bool {
        &&& self.cell(x, y).occupant() is Some
        &&& faces_fit(self.cell(x, y).faces(), self.frontier(x, y))
    }

    /// Every cell still to be visited is empty.
    pub open spec fn empty_from(self, cursor: Option<(u8, u8)>) -> bool {
        forall|x: int, y: int|
            self.in_grid(x, y) && pending(cursor, x, y) ==> (#[trigger] self.cell(
                x,
                y,
            )).occupant() is None
    }

    /// In column `x` of row `y` the board continues `start` from `cursor`: a
    /// cell still to be visited holds a piece that fits, and a cell visited
    /// before is as in `start`.
    pub open spec fn extends_at(
        self,
        start: BoardView,
        cursor: Option<(u8, u8)>,
        x: int,
        y: int,
    ) -> bool {
        if pending(cursor, x, y) {
            self.fits(x, y)
        } else {
            self.cell(x, y) == start.cell(x, y)
        }
    }

    /// The board is a way to finish `start` from `cursor`: a board of the
    /// same puzzle that continues `start` in every cell.
    pub open spec fn completes(self, start: BoardView, cursor: Option<(u8, u8)>) -> bool {
        &&& self.wf()
        &&& self.size == start.size
        &&& self.pieces == start.pieces
        &&& forall|x: int, y: int|
            self.in_grid(x, y) ==> #[trigger] self.extends_at(start, cursor, x, y)
    }

    /// The cells still to be visited are empty and there is a way to finish
    /// the board from `cursor`.
    pub open spec fn solvable_from(self, cursor: Option<(u8, u8)>) -> bool {
        &&& self.empty_from(cursor)
        &&& exists|c: BoardView| c.completes(self, cursor)
    }

    /// No cell holds a piece.
    pub open spec fn is_empty(self) -> bool {
        forall|x: int, y: int|
            self.in_grid(x, y) ==> (#[trigger] self.cell(x, y)).occupant() is None
    }

    /// The cell in column `x` of row `y` holds a piece, and each face of it
    /// is what its surroundings show there: the face that the neighbor turns
    /// to it, or the edge of the grid.
    pub open spec fn settled(self, x: int, y: int) -> bool {
        &&& self.cell(x, y).occupant() is Some
        &&& self.cell(x, y).faces() == self.frontier(x, y)
    }

    /// Every cell is settled.
    pub open spec fn solved(self) -> bool {
        forall|x: int, y: int| self.in_grid(x, y) ==> #[trigger] self.settled(x, y)
    }

    /// The board is empty and its puzzle has a solution: a board with the
    /// same inventory that meets the invariant and is solved.
    pub open spec fn solvable(self) -> bool {
        &&& self.is_empty()
        &&& exists|c: BoardView|
            #![trigger c.solved()]
            c.wf() && c.size == self.size && c.pieces == self.pieces && c.solved()
    }
}

/// The rotation that a cell stores: that of a full cell, none for the others.
pub open spec fn stored_rotation(cell: Cell) -> Option<Compass> {
    match cell {
        Cell::FullCell(_, compass) => compass,
        _ => None,
    }
}

/// The place of what a cell holds in the order of the search: pieces by their
/// identifiers, the rotations of a piece from north clockwise.
pub open spec fn rank(cell: Cell) -> int {
    match cell.occupant() {
        Some(p) => p.id * 4 + match stored_rotation(cell) {
            Some(compass) => compass.index(),
            None => 0,
        },
        None => -1,
    }
}

impl BoardView {
    /// From `cursor` on the board holds in every cell what `other` holds.
    pub open spec fn same_from(self, other: BoardView, cursor: Option<(u8, u8)>) -> bool {
        forall|i: int, j: int|
            self.in_grid(i, j) && pending(cursor, i, j) ==> #[trigger] self.cell(i, j)
                == other.cell(i, j)
    }

    /// The cell in column `x` of row `y` is the first from `cursor` on in
    /// which the board and `other` differ, and the board holds there the
    /// piece with the smaller identifier, or the same piece in an earlier
    /// rotation.
    pub open spec fn first_differs_at(
        self,
        other: BoardView,
        cursor: Option<(u8, u8)>,
        x: int,
        y: int,
    ) -> bool {
        &&& self.in_grid(x, y)
        &&& pending(cursor, x, y)
        &&& rank(self.cell(x, y)) < rank(other.cell(x, y))
        &&& forall|i: int, j: int|
            self.in_grid(i, j) && pending(cursor, i, j) && (j < y || (j == y && i < x))
                ==> #[trigger] self.cell(i, j) == other.cell(i, j)
    }

    /// The board comes no later than `other` in the order of the search from
    /// `cursor` on: they are the same there, or the board has the earlier
    /// choice in the first cell in which they differ.
    pub open spec fn precedes(self, other: BoardView, cursor: Option<(u8, u8)>) -> bool {
        ||| self.same_from(other, cursor)
        ||| exists|x: int, y: int| #[trigger] self.first_differs_at(other, cursor, x, y)
    }

    /// The board is the first way to finish `start` from `cursor` in the
    /// order of the search.
    pub open spec fn first_completion(self, start: BoardView, cursor: Option<(u8, u8)>) -> bool {
        &&& self.completes(start, cursor)
        &&& forall|c: BoardView| #[trigger] c.completes(start, cursor) ==> self.precedes(c, cursor)
    }

    /// The board is the first solution of its puzzle in the order of the
    /// search.
    pub open spec fn first_solution(self) -> bool {
        &&& self.solved()
        &&& forall|c: BoardView|
            #![trigger c.solved()]
            c.wf() && c.size == self.size && c.pieces == self.pieces && c.solved()
                ==> self.precedes(c, Some((0u8, 0u8)))
    }

    /// The board has `cell` in the cell of the cursor and comes no later than
    /// any way to finish `start` from `cursor` that has it there too.
    pub open spec fn leads(self, start: BoardView, cursor: Option<(u8, u8)>, cell: Cell) -> bool {
        &&& self.cell(column(cursor), row(cursor)) == cell
        &&& forall|c: BoardView|
            #![trigger c.completes(start, cursor)]
            c.completes(start, cursor) && c.cell(column(cursor), row(cursor)) == cell
                ==> self.precedes(c, cursor)
    }

    /// No way to finish the board from `cursor` has `cell` in column `x` of
    /// row `y`.
    pub open spec fn bars(self, cursor: Option<(u8, u8)>, x: int, y: int, cell: Cell) -> bool {
        forall|c: BoardView| #[trigger] c.completes(self, cursor) ==> c.cell(x, y) != cell
    }

    /// No way to finish the board from `cursor` has the piece `id` in column
    /// `x` of row `y`.
    pub open spec fn excludes(self, cursor: Option<(u8, u8)>, x: int, y: int, id: int) -> bool {
        forall|c: BoardView| #[trigger] c.completes(self, cursor) ==> !c.holds(x, y, id)
    }
}

/// The rotation that the search gives a full piece at its try number `turn`:
/// north first, then clockwise.
pub open spec fn rotation_at(turn: int) -> Compass {
    if turn == 0 {
        Compass::North
    } else if turn == 1 {
        Compass::East
    } else if turn == 2 {
        Compass::South
    } else {
        Compass::West
    }
}

/// The cursor stands on a cell of a grid of `size` rows.
pub open spec fn on_grid(cursor: Option<(u8, u8)>, size: int) -> bool {
    cursor matches Some((row, col)) && row < size && col < size && size <= 255
}

/// The column of the cursor.
pub open spec fn column(cursor: Option<(u8, u8)>) -> int {
    cursor.unwrap().1 as int
}

/// The row of the cursor.
pub open spec fn row(cursor: Option<(u8, u8)>) -> int {
    cursor.unwrap().0 as int
}

/// The rows that the cursor has not finished.
pub open spec fn rows_left(cursor: Option<(u8, u8)>, size: int) -> int {
    match cursor {
        Some((row, _)) => size - row,
        None => 0,
    }
}

/// The cells of its row that the cursor has not finished.
pub open spec fn cols_left(cursor: Option<(u8, u8)>, size: int) -> int {
    match cursor {
        Some((_, col)) => size - col,
        None => 0,
    }
}

/// A limit of `limit` attempts, if there is one, allows `cost` attempts.
pub open spec fn affordable(limit: Option<u64>, cost: nat) -> bool {
    limit matches Some(n) ==> cost <= n
}

/// The limit that is left after `cost` attempts.
pub open spec fn spend(limit: Option<u64>, cost: nat) -> Option<u64> {
    match limit {
        Some(n) => Some((n - cost) as u64),
        None => None,
    }
}

impl BoardView {
    /// The number of rotations that the search tries in the cell in column
    /// `x` of row `y`: four in a full cell, one in the others.
    pub open spec fn turns(self, x: int, y: int) -> int {
        if self.cell(x, y) is FullCell {
            4
        } else {
            1
        }
    }

    /// The rotation of the try number `turn` in the cell in column `x` of row
    /// `y`: none in a corner or border cell.
    pub open spec fn given(self, x: int, y: int, turn: int) -> Option<Compass> {
        if self.cell(x, y) is FullCell {
            Some(rotation_at(turn))
        } else {
            None
        }
    }

    /// The piece `id` can be placed with `compass` in the cell of the cursor,
    /// and the board can be finished from the next cell with it.
    pub open spec fn accepts(
        self,
        cursor: Option<(u8, u8)>,
        id: int,
        compass: Option<Compass>,
    ) -> bool {
        &&& self.check_place(id, column(cursor), row(cursor), compass) is Ok
        &&& self.put(id, column(cursor), row(cursor), compass).solvable_from(
            successor(cursor, self.size as int),
        )
    }

    /// Some rotation of the piece `id` in the cell of the cursor leads to the
    /// end.
    pub open spec fn leads_on(self, cursor: Option<(u8, u8)>, id: int) -> bool {
        exists|turn: int|
            0 <= turn < self.turns(column(cursor), row(cursor)) && self.accepts(
                cursor,
                id,
                #[trigger] self.given(column(cursor), row(cursor), turn),
            )
    }

    /// The number of placements that the search tries from `cursor` on: at
    /// each cell the pieces worth trying in ascending order, each in the
    /// rotations of the cell in their order, up to the first that leads to
    /// the end, and after each placement that is accepted what the search
    /// tries from the next cell.
    pub open spec fn attempts_from(self, cursor: Option<(u8, u8)>) -> nat
        decreases
                rows_left(cursor, self.size as int),
                cols_left(cursor, self.size as int),
                3int,
                0int,
    {
        if on_grid(cursor, self.size as int) {
            self.attempts_on(cursor, self.candidates(column(cursor), row(cursor)), 0)
        } else {
            0
        }
    }

    /// The placements tried in the cell of the cursor and behind it for the
    /// pieces of `ids` from index `k` on.
    pub open spec fn attempts_on(self, cursor: Option<(u8, u8)>, ids: Seq<u8>, k: int) -> nat
        decreases
                rows_left(cursor, self.size as int),
                cols_left(cursor, self.size as int),
                2int,
                ids.len() - k,
    {
        if on_grid(cursor, self.size as int) && 0 <= k < ids.len() {
            self.attempts_with(cursor, ids[k] as int, 0) + if self.leads_on(
                cursor,
                ids[k] as int,
            ) {
                0
            } else {
                self.attempts_on(cursor, ids, k + 1)
            }
        } else {
            0
        }
    }

    /// The placements tried in the cell of the cursor and behind it for the
    /// piece `id` in the rotations from try number `turn` on.
    pub open spec fn attempts_with(self, cursor: Option<(u8, u8)>, id: int, turn: int) -> nat
        decreases
                rows_left(cursor, self.size as int),
                cols_left(cursor, self.size as int),
                1int,
                4 - turn,
    {
        let compass = self.given(column(cursor), row(cursor), turn);
        if on_grid(cursor, self.size as int) && 0 <= turn < self.turns(
            column(cursor),
            row(cursor),
        ) {
            self.attempt_cost(cursor, id, compass) + if self.accepts(cursor, id, compass) {
                0
            } else {
                self.attempts_with(cursor, id, turn + 1)
            }
        } else {
            0
        }
    }

    /// The placements tried for the piece `id` with `compass` in the cell of
    /// the cursor: this one, and if it is accepted those from the next cell
    /// on.
    pub open spec fn attempt_cost(
        self,
        cursor: Option<(u8, u8)>,
        id: int,
        compass: Option<Compass>,
    ) -> nat
        decreases
                rows_left(cursor, self.size as int),
                cols_left(cursor, self.size as int),
                0int,
                0int,
    {
        if on_grid(cursor, self.size as int) && self.check_place(
            id,
            column(cursor),
            row(cursor),
            compass,
        ) is Ok {
            1 + self.put(id, column(cursor), row(cursor), compass).attempts_from(
                successor(cursor, self.size as int),
            )
        } else {
            1
        }
    }
}

/// A piece that passed the checks of `put_piece` shows in its cell the faces
/// that it has under the orientation of the cell.
pub(crate) proof fn lemma_faces_in_cell(
    b: BoardView,
    id: int,
    x: int,
    y: int,
    compass: Option<Compass>,
)
    requires
        b.wf(),
        0 <= id < b.pieces.len(),
        b.in_grid(x, y),
        b.check_put(id, x, y, compass) is Ok,
    ensures
        b.cell(x, y).filled(b.pieces[id].props(), compass).faces()
            == b.pieces[id].props().kind.faces(b.orientation(x, y, compass)),
        b.cell(x, y).filled(b.pieces[id].props(), compass).wf(),
        b.cell(x, y) == empty_cell_at(b.size as int, x, y),
{
    assert(b.pieces[id].wf());
    assert(b.cell(x, y).wf());
}

/// A cell that is empty shows towards a neighbor on the grid nothing at all.
pub(crate) proof fn lemma_empty_neighbor(b: BoardView, x: int, y: int, side: Border)
    requires
        b.wf(),
        b.in_grid(x, y),
        b.cell(x, y).occupant() is None,
        b.has_neighbor(x, y, side),
    ensures
        b.cell(x, y).face(side) == Face::Open,
{
    assert(b.cell(x, y).wf());
    assert(b.cell(x, y).emptied() == empty_cell_at(b.size as int, x, y));
}

/// In a way to finish a board whose cells from the cursor on are empty, the
/// piece in the cell of the cursor agrees with what the board itself shows
/// around that cell.
pub(crate) proof fn lemma_side_at_cursor(b: BoardView, c: BoardView, x: int, y: int, side: Border)
    requires
        b.wf(),
        b.in_grid(x, y),
        b.empty_from(Some((y as u8, x as u8))),
        c.completes(b, Some((y as u8, x as u8))),
    ensures
        compatible(c.cell(x, y).face(side), b.frontier_face(x, y, side)),
{
    let cursor = Some((y as u8, x as u8));
    assert(c.extends_at(b, cursor, x, y));
    assert(c.fits(x, y));
    match side {
        Border::North => {
            if y > 0 {
                assert(c.extends_at(b, cursor, x, y - 1));
            }
        },
        Border::West => {
            if x > 0 {
                assert(c.extends_at(b, cursor, x - 1, y));
            }
        },
        Border::East => {
            if x < b.size - 1 {
                assert(b.cell(x + 1, y).occupant() is None);
                lemma_empty_neighbor(b, x + 1, y, Border::West);
            }
        },
        Border::South => {
            if y < b.size - 1 {
                assert(b.cell(x, y + 1).occupant() is None);
                lemma_empty_neighbor(b, x, y + 1, Border::North);
            }
        },
    }
}

/// In a way to finish a board whose cells from the cursor on are empty, the
/// piece in the cell of the cursor is one that `place_piece` accepts there,
/// and the way to finish also finishes the board with that piece placed.
pub(crate) proof fn lemma_completion_piece(b: BoardView, c: BoardView, x: int, y: int)
    requires
        b.wf(),
        b.in_grid(x, y),
        b.empty_from(Some((y as u8, x as u8))),
        c.completes(b, Some((y as u8, x as u8))),
    ensures
        c.cell(x, y).occupant() is Some,
        ({
            let p = c.cell(x, y).occupant().unwrap();
            let compass = stored_rotation(c.cell(x, y));
            &&& p.id < b.pieces.len()
            &&& b.pieces[p.id as int].props() == p
            &&& b.check_place(p.id as int, x, y, compass) is Ok
            &&& c.cell(x, y) == b.cell(x, y).filled(p, compass)
            &&& b.cell(x, y) is FullCell ==> compass is Some
            &&& c.completes(
                b.put(p.id as int, x, y, compass),
                successor(Some((y as u8, x as u8)), b.size as int),
            )
        }),
{
    let cursor = Some((y as u8, x as u8));
    assert(c.extends_at(b, cursor, x, y));
    assert(c.fits(x, y));
    let p = c.cell(x, y).occupant().unwrap();
    let id = p.id as int;
    let compass = stored_rotation(c.cell(x, y));
    assert(c.cell(x, y).wf());
    assert(b.cell(x, y).wf());
    assert(c.pieces[id].wf());
    assert(b.cell(x, y).occupant() is None);
    assert(c.cell(x, y).emptied() == b.cell(x, y).emptied());
    assert(c.cell(x, y) == b.cell(x, y).filled(p, compass));
    assert(c.holds(x, y, id));
    if b.placed[id] {
        assert(b.is_held(id));
        let (x0, y0) = choose|x0: int, y0: int| b.in_grid(x0, y0) && #[trigger] b.holds(x0, y0, id);
        assert(c.extends_at(b, cursor, x0, y0));
        assert(c.holds(x0, y0, id));
    }
    assert(b.check_put(id, x, y, compass) is Ok);
    lemma_faces_in_cell(b, id, x, y, compass);
    lemma_side_at_cursor(b, c, x, y, Border::North);
    lemma_side_at_cursor(b, c, x, y, Border::East);
    lemma_side_at_cursor(b, c, x, y, Border::South);
    lemma_side_at_cursor(b, c, x, y, Border::West);
    assert(b.check_place(id, x, y, compass) is Ok);
    let placed = b.put(id, x, y, compass);
    let next = successor(cursor, b.size as int);
    lemma_with_cell(b, x, y, b.cell(x, y).filled(p, compass));
    assert forall|i: int, j: int| c.in_grid(i, j) implies #[trigger] c.extends_at(
        placed,
        next,
        i,
        j,
    ) by {
        lemma_pending_next(b.size as int, x, y, i, j);
        assert(c.extends_at(b, cursor, i, j));
        if !(i == x && j == y) {
            assert(placed.cell(i, j) == b.with_cell(x, y, b.cell(x, y).filled(p, compass)).cell(
                i,
                j,
            ));
        }
    }
}

/// An occupied cell shows no open face, so a neighbor that fits beside it
/// shows the same face to it.
pub(crate) proof fn lemma_neighbor_agrees(c: BoardView, x: int, y: int, side: Border)
    requires
        c.in_grid(x, y),
        c.cell(x, y).wf(),
        c.cell(x, y).occupant() is Some,
        c.has_neighbor(x, y, side),
        c.fits(c.neighbor(x, y, side).0, c.neighbor(x, y, side).1),
    ensures
        c.frontier_face(x, y, side) == c.cell(x, y).face(side),
{
    lemma_occupied_cell_faces(c.cell(x, y), side);
    let mine = c.cell(x, y).face(side);
    match side {
        Border::North => {
            assert(c.frontier_face(x, y - 1, Border::South) == mine);
            assert(compatible(c.cell(x, y - 1).face(Border::South), mine));
        },
        Border::East => {
            assert(c.frontier_face(x + 1, y, Border::West) == mine);
            assert(compatible(c.cell(x + 1, y).face(Border::West), mine));
        },
        Border::South => {
            assert(c.frontier_face(x, y + 1, Border::North) == mine);
            assert(compatible(c.cell(x, y + 1).face(Border::North), mine));
        },
        Border::West => {
            assert(c.frontier_face(x - 1, y, Border::East) == mine);
            assert(compatible(c.cell(x - 1, y).face(Border::East), mine));
        },
    }
}

/// A way to finish the board with a piece placed in the cell of the cursor
/// finishes the board without it as well.
pub(crate) proof fn lemma_completion_step(
    b: BoardView,
    c: BoardView,
    id: int,
    x: int,
    y: int,
    compass: Option<Compass>,
)
    requires
        b.wf(),
        0 <= id < b.pieces.len(),
        b.in_grid(x, y),
        b.check_place(id, x, y, compass) is Ok,
        c.completes(
            b.put(id, x, y, compass),
            successor(Some((y as u8, x as u8)), b.size as int),
        ),
    ensures
        c.completes(b, Some((y as u8, x as u8))),
{
    let cursor = Some((y as u8, x as u8));
    let next = successor(cursor, b.size as int);
    let p = b.pieces[id].props();
    let filled = b.cell(x, y).filled(p, compass);
    let placed = b.put(id, x, y, compass);
    lemma_with_cell(b, x, y, filled);
    lemma_faces_in_cell(b, id, x, y, compass);
    assert forall|i: int, j: int| b.in_grid(i, j) implies placed.cell(i, j) == if i == x && j
        == y {
        filled
    } else {
        b.cell(i, j)
    } by {
        assert(placed.cell(i, j) == b.with_cell(x, y, filled).cell(i, j));
    }
    assert forall|i: int, j: int| c.in_grid(i, j) implies #[trigger] c.extends_at(
        b,
        cursor,
        i,
        j,
    ) by {
        lemma_pending_next(b.size as int, x, y, i, j);
        assert(c.extends_at(placed, next, i, j));
        if i == x && j == y {
            assert(c.cell(x, y) == filled);
            if y > 0 {
                lemma_pending_next(b.size as int, x, y, x, y - 1);
                assert(c.extends_at(placed, next, x, y - 1));
            }
            if x > 0 {
                lemma_pending_next(b.size as int, x, y, x - 1, y);
                assert(c.extends_at(placed, next, x - 1, y));
            }
            if x < b.size - 1 {
                lemma_pending_next(b.size as int, x, y, x + 1, y);
                assert(c.extends_at(placed, next, x + 1, y));
                lemma_neighbor_agrees(c, x, y, Border::East);
            }
            if y < b.size - 1 {
                lemma_pending_next(b.size as int, x, y, x, y + 1);
                assert(c.extends_at(placed, next, x, y + 1));
                lemma_neighbor_agrees(c, x, y, Border::South);
            }
            assert(c.fits(x, y));
        }
    }
}

/// A color that a piece shows at some side under some orientation is one of
/// its recorded colors.
pub(crate) proof fn lemma_face_is_recorded(sides: Sides, side: Border, offset: Compass, color: u8)
    requires
        sides.face_at(side, offset) == Face::Color(color),
    ensures
        sides.has_color(color),
{
}

/// A piece that `place_piece` accepts in a cell is among the pieces worth
/// trying there.
pub(crate) proof fn lemma_accepted_is_candidate(
    b: BoardView,
    id: int,
    x: int,
    y: int,
    compass: Option<Compass>,
)
    requires
        b.wf(),
        0 <= id < b.pieces.len(),
        b.in_grid(x, y),
        b.check_place(id, x, y, compass) is Ok,
    ensures
        b.is_candidate(id, x, y),
{
    let sides = b.pieces[id].props().kind;
    let o = b.orientation(x, y, compass);
    if let Face::Color(color) = b.frontier(x, y).0 {
        lemma_face_is_recorded(sides, Border::North, o, color);
    }
    if let Face::Color(color) = b.frontier(x, y).1 {
        lemma_face_is_recorded(sides, Border::East, o, color);
    }
    if let Face::Color(color) = b.frontier(x, y).2 {
        lemma_face_is_recorded(sides, Border::South, o, color);
    }
    if let Face::Color(color) = b.frontier(x, y).3 {
        lemma_face_is_recorded(sides, Border::West, o, color);
    }
}

/// Two boards that hold the same in the cell of the cursor are in the order
/// from the cursor on in which they are from the next cell on.
pub(crate) proof fn lemma_precedes_from_cursor(a: BoardView, c: BoardView, x: int, y: int)
    requires
        1 <= a.size <= 16,
        a.in_grid(x, y),
        a.cell(x, y) == c.cell(x, y),
        a.precedes(c, successor(Some((y as u8, x as u8)), a.size as int)),
    ensures
        a.precedes(c, Some((y as u8, x as u8))),
{
    let cursor = Some((y as u8, x as u8));
    let next = successor(cursor, a.size as int);
    if a.same_from(c, next) {
        assert forall|i: int, j: int| a.in_grid(i, j) && pending(cursor, i, j) implies #[trigger]
            a.cell(i, j) == c.cell(i, j) by {
            lemma_pending_next(a.size as int, x, y, i, j);
        }
    } else {
        let (fx, fy) = choose|fx: int, fy: int| #[trigger] a.first_differs_at(c, next, fx, fy);
        lemma_pending_next(a.size as int, x, y, fx, fy);
        assert forall|i: int, j: int|
            a.in_grid(i, j) && pending(cursor, i, j) && (j < fy || (j == fy && i
                < fx)) implies #[trigger] a.cell(i, j) == c.cell(i, j) by {
            lemma_pending_next(a.size as int, x, y, i, j);
        }
        assert(a.first_differs_at(c, cursor, fx, fy));
    }
}

/// A board finishes another one from the first cell exactly if it is solved.
pub(crate) proof fn lemma_completes_from_start(b: BoardView, c: BoardView)
    requires
        c.wf(),
        c.size == b.size,
        c.pieces == b.pieces,
    ensures
        c.completes(b, Some((0u8, 0u8))) <==> c.solved(),
{
    let start = Some((0u8, 0u8));
    if c.completes(b, start) {
        assert forall|x: int, y: int| c.in_grid(x, y) implies #[trigger] c.settled(x, y) by {
            assert(c.extends_at(b, start, x, y));
            assert(c.cell(x, y).wf());
            if y > 0 {
                assert(c.extends_at(b, start, x, y - 1));
                lemma_neighbor_agrees(c, x, y, Border::North);
            }
            if x < c.size - 1 {
                assert(c.extends_at(b, start, x + 1, y));
                lemma_neighbor_agrees(c, x, y, Border::East);
            }
            if y < c.size - 1 {
                assert(c.extends_at(b, start, x, y + 1));
                lemma_neighbor_agrees(c, x, y, Border::South);
            }
            if x > 0 {
                assert(c.extends_at(b, start, x - 1, y));
                lemma_neighbor_agrees(c, x, y, Border::West);
            }
        }
    }
    if c.solved() {
        assert forall|x: int, y: int| c.in_grid(x, y) implies #[trigger] c.extends_at(
            b,
            start,
            x,
            y,
        ) by {
            assert(c.settled(x, y));
        }
    }
}

/// An empty board has a solution exactly if it can be finished from the
/// first cell.
pub(crate) proof fn lemma_solvable_from_start(b: BoardView)
    requires
        b.wf(),
    ensures
        b.solvable() <==> b.solvable_from(Some((0u8, 0u8))),
{
    let start = Some((0u8, 0u8));
    if b.solvable() {
        let c = choose|c: BoardView|
            #![trigger c.solved()]
            c.wf() && c.size == b.size && c.pieces == b.pieces && c.solved();
        lemma_completes_from_start(b, c);
        assert forall|x: int, y: int| b.in_grid(x, y) && pending(start, x, y) implies (
        #[trigger] b.cell(x, y)).occupant() is None by {}
        assert(b.solvable_from(start));
    }
    if b.solvable_from(start) {
        let c = choose|c: BoardView| c.completes(b, start);
        lemma_completes_from_start(b, c);
        assert forall|x: int, y: int| b.in_grid(x, y) implies (#[trigger] b.cell(
            x,
            y,
        )).occupant() is None by {
            assert(pending(start, x, y));
        }
        assert(b.solvable());
    }
}

/// The first way to finish a board from the first cell is the first solution
/// of its puzzle.
pub(crate) proof fn lemma_first_solution(b: BoardView, done: BoardView)
    requires
        done.first_completion(b, Some((0u8, 0u8))),
    ensures
        done.first_solution(),
{
    lemma_completes_from_start(b, done);
    assert forall|c: BoardView|
        #![trigger c.solved()]
        c.wf() && c.size == done.size && c.pieces == done.pieces
            && c.solved() implies done.precedes(c, Some((0u8, 0u8))) by {
        lemma_completes_from_start(b, c);
    }
}

/// There is one first way to finish a board and no more: the order of the
/// search decides between any two.
pub proof fn lemma_first_completion_unique(
    start: BoardView,
    cursor: Option<(u8, u8)>,
    a: BoardView,
    c: BoardView,
)
    requires
        a.first_completion(start, cursor),
        c.first_completion(start, cursor),
    ensures
        a == c,
{
    assert(a.precedes(c, cursor));
    assert(c.precedes(a, cursor));
    if !a.same_from(c, cursor) {
        let (x, y) = choose|x: int, y: int| #[trigger] a.first_differs_at(c, cursor, x, y);
        if c.same_from(a, cursor) {
            assert(c.cell(x, y) == a.cell(x, y));
        } else {
            let (u, v) = choose|u: int, v: int| #[trigger] c.first_differs_at(a, cursor, u, v);
            if v < y || (v == y && u < x) {
                assert(a.cell(u, v) == c.cell(u, v));
            } else if y < v || (y == v && x < u) {
                assert(c.cell(x, y) == a.cell(x, y));
            }
        }
        assert(false);
    }
    assert forall|i: int, j: int| a.in_grid(i, j) implies a.cell(i, j) == c.cell(i, j) by {
        assert(a.extends_at(start, cursor, i, j));
        assert(c.extends_at(start, cursor, i, j));
    }
    assert forall|id: int| 0 <= id < a.placed.len() implies a.placed[id] == c.placed[id] by {
        if a.placed[id] {
            assert(a.is_held(id));
            let (i, j) = choose|i: int, j: int| a.in_grid(i, j) && #[trigger] a.holds(i, j, id);
            assert(c.cell(i, j) == a.cell(i, j));
        }
        if c.placed[id] {
            assert(c.is_held(id));
            let (i, j) = choose|i: int, j: int| c.in_grid(i, j) && #[trigger] c.holds(i, j, id);
            assert(a.cell(i, j) == c.cell(i, j));
        }
    }
    assert(a.placed =~= c.placed);
    assert forall|j: int| 0 <= j < a.size implies a.cells[j] =~= c.cells[j] by {
        assert forall|i: int| 0 <= i < a.size implies a.cells[j][i] == c.cells[j][i] by {
            assert(a.cell(i, j) == c.cell(i, j));
        }
    }
    assert(a.cells =~= c.cells);
}

} // verus!
