use vstd::prelude::*;
use crate::board::{BoardGame, Compass};
use crate::cell::Cell;
use crate::color_index::ColorIndex;
use crate::crawler::{lemma_pending_next, pending, Crawler};
use crate::model::{
    lemma_inventory_bound, lemma_put_remove_round_trip, lemma_with_cell, BoardView,
};
use crate::solution::{
    affordable, cols_left, lemma_accepted_is_candidate, lemma_completion_piece,
    lemma_completion_step, lemma_first_solution, lemma_precedes_from_cursor,
    lemma_solvable_from_start, on_grid, rank, rows_left, spend, stored_rotation,
};

verus! {

/// How a search ended.
#[derive(Debug, Copy, Clone, PartialEq, Eq, Structural)]
pub enum Outcome {
    /// Every cell from the cursor on holds a piece that fits.
    Solved,
    /// No choice of pieces fills the cells from the cursor on.
    Unsolvable,
}

/// The compass direction that lies `turn` quarter turns clockwise from north.
fn rotation(turn: u8) -> (r: Compass)
    requires
        turn < 4,
    ensures
        r.index() == turn,
{
    if turn == 0 {
        Compass::North
    } else if turn == 1 {
        Compass::East
    } else if turn == 2 {
        Compass::South
    } else {
        Compass::West
    }
}

/// Tries the piece `id` with the rotation `compass` in the cell of the
/// cursor, if the limit allows another attempt: places it, searches on from
/// the next cell, and takes it off again unless that search reaches the end.
/// The result is whether the end was reached, or `None` where the attempts
/// ran out.
fn attempt(
    board_game: &mut BoardGame,
    crawler: Crawler,
    index: &ColorIndex,
    id: u8,
    pos: (u8, u8),
    compass: Option<Compass>,
    limit: &mut Option<u64>,
) -> (found: Option<bool>)
    requires
        old(board_game).wf(),
        crawler.wf(),
        crawler.limit() == old(board_game).size,
        crawler.cursor() == Some((pos.1, pos.0)),
        index.wf(),
        index.indexes(old(board_game).pieces@),
        id < old(board_game).pieces.len(),
    ensures
        final(board_game).wf(),
        found is Some <==> affordable(
            *old(limit),
            old(board_game)@.attempt_cost(crawler.cursor(), id as int, compass),
        ),
        found is Some ==> *final(limit) == spend(
            *old(limit),
            old(board_game)@.attempt_cost(crawler.cursor(), id as int, compass),
        ),
        found is Some ==> (found == Some(true) <==> old(board_game)@.accepts(
            crawler.cursor(),
            id as int,
            compass,
        )),
        found == Some(true) ==> old(board_game)@.empty_from(crawler.cursor()),
        found == Some(true) ==> final(board_game)@.completes(old(board_game)@, crawler.cursor()),
        found == Some(true) ==> final(board_game)@.leads(
            old(board_game)@,
            crawler.cursor(),
            old(board_game)@.cell_with(id as int, pos.0 as int, pos.1 as int, compass),
        ),
        found != Some(true) ==> final(board_game)@ == old(board_game)@,
        found == Some(false) && old(board_game)@.empty_from(crawler.cursor()) ==> old(board_game)@
            .bars(
            crawler.cursor(),
            pos.0 as int,
            pos.1 as int,
            old(board_game)@.cell_with(id as int, pos.0 as int, pos.1 as int, compass),
        ),
    decreases
            rows_left(crawler.cursor(), crawler.limit()),
            cols_left(crawler.cursor(), crawler.limit()),
            0int,
{
    let ghost b = board_game@;
    let ghost cursor = crawler.cursor();
    let ghost x = pos.0 as int;
    let ghost y = pos.1 as int;
    let ghost filled = b.cell(x, y).filled(b.pieces[id as int].props(), compass);
    if let Some(n) = *limit {
        if n == 0 {
            return None;
        }
        *limit = Some(n - 1);
    }
    if board_game.place_piece(id, pos, compass).is_err() {
        proof {
            if b.empty_from(cursor) {
                assert forall|c: BoardView| #[trigger] c.completes(b, cursor) implies c.cell(x, y)
                    != filled by {
                    if c.cell(x, y) == filled {
                        lemma_completion_piece(b, c, x, y);
                        assert(b.cell(x, y).wf());
                        assert(b.pieces[id as int].wf());
                        assert(c.cell(x, y).occupant().unwrap().id == id);
                        assert(b.cell(x, y) is FullCell ==> stored_rotation(c.cell(x, y))
                            == compass);
                        assert(b.check_place(id as int, x, y, stored_rotation(c.cell(x, y))) is Ok);
                        assert(b.check_place(id as int, x, y, compass) is Ok);
                    }
                }
            }
        }
        return Some(false);
    }
    let ghost placed = board_game@;
    let mut next = crawler;
    next.next();
    match search(board_game, next, index, limit) {
        Some(Outcome::Solved) => {
            proof {
                let done = board_game@;
                lemma_completion_step(b, done, id as int, x, y, compass);
                lemma_with_cell(b, x, y, filled);
                assert forall|i: int, j: int| b.in_grid(i, j) && pending(cursor, i, j) implies (
                #[trigger] b.cell(i, j)).occupant() is None by {
                    lemma_pending_next(b.size as int, x, y, i, j);
                    if !(i == x && j == y) {
                        assert(placed.cell(i, j) == b.with_cell(x, y, filled).cell(i, j));
                        assert(placed.cell(i, j).occupant() is None);
                    }
                }
                lemma_pending_next(b.size as int, x, y, x, y);
                assert(done.extends_at(placed, next.cursor(), x, y));
                assert(done.cell(x, y) == filled);
                assert forall|c: BoardView|
                    #![trigger c.completes(b, cursor)]
                    c.completes(b, cursor) && c.cell(x, y) == filled implies done.precedes(
                    c,
                    cursor,
                ) by {
                    lemma_completion_piece(b, c, x, y);
                    assert(b.cell(x, y).wf());
                    assert(b.pieces[id as int].wf());
                    assert(c.cell(x, y).occupant().unwrap().id == id);
                    assert(b.put(id as int, x, y, stored_rotation(c.cell(x, y))) == placed) by {
                        assert(b.cell(x, y).filled(
                            b.pieces[id as int].props(),
                            stored_rotation(c.cell(x, y)),
                        ) == filled);
                    }
                    assert(c.completes(placed, next.cursor()));
                    assert(done.precedes(c, next.cursor()));
                    lemma_precedes_from_cursor(done, c, x, y);
                }
            }
            Some(true)
        },
        Some(Outcome::Unsolvable) => {
            proof {
                lemma_put_remove_round_trip(b, id as int, x, y, compass);
                if b.empty_from(cursor) {
                    assert forall|c: BoardView| #[trigger] c.completes(b, cursor) implies c.cell(
                        x,
                        y,
                    ) != filled by {
                        if c.cell(x, y) == filled {
                            lemma_completion_piece(b, c, x, y);
                            assert(b.cell(x, y).wf());
                            assert(b.pieces[id as int].wf());
                            assert(c.cell(x, y).occupant().unwrap().id == id);
                            assert(b.put(id as int, x, y, stored_rotation(c.cell(x, y)))
                                == placed) by {
                                assert(b.cell(x, y).filled(
                                    b.pieces[id as int].props(),
                                    stored_rotation(c.cell(x, y)),
                                ) == filled);
                            }
                            assert(c.completes(placed, next.cursor()));
                            lemma_with_cell(b, x, y, filled);
                            assert forall|i: int, j: int|
                                placed.in_grid(i, j) && pending(
                                    next.cursor(),
                                    i,
                                    j,
                                ) implies (#[trigger] placed.cell(i, j)).occupant() is None by {
                                lemma_pending_next(b.size as int, x, y, i, j);
                                assert(placed.cell(i, j) == b.with_cell(x, y, filled).cell(i, j));
                                assert(b.cell(i, j).occupant() is None);
                            }
                            assert(placed.solvable_from(next.cursor()));
                        }
                    }
                }
            }
            board_game.remove_piece(pos);
            Some(false)
        },
        None => {
            proof {
                lemma_put_remove_round_trip(b, id as int, x, y, compass);
            }
            board_game.remove_piece(pos);
            None
        },
    }
}

/// Fills the cells from the cursor on, row by row, within the limit of
/// attempts if there is one: at each cell it tries the pieces worth trying in
/// ascending order, a full cell's in each rotation from north clockwise, and
/// goes back to the cell before where none leads to the end. The result is
/// `None` where the attempts ran out. The board is left finished, or as it
/// was.
fn search(
    board_game: &mut BoardGame,
    crawler: Crawler,
    index: &ColorIndex,
    limit: &mut Option<u64>,
) -> (r: Option<Outcome>)
    requires
        old(board_game).wf(),
        crawler.wf(),
        crawler.limit() == old(board_game).size,
        index.wf(),
        index.indexes(old(board_game).pieces@),
    ensures
        final(board_game).wf(),
        r is Some <==> affordable(*old(limit), old(board_game)@.attempts_from(crawler.cursor())),
        r is Some ==> *final(limit) == spend(
            *old(limit),
            old(board_game)@.attempts_from(crawler.cursor()),
        ),
        r is Some ==> (r == Some(Outcome::Solved) <==> old(board_game)@.solvable_from(
            crawler.cursor(),
        )),
        r == Some(Outcome::Solved) ==> final(board_game)@.first_completion(
            old(board_game)@,
            crawler.cursor(),
        ),
        r != Some(Outcome::Solved) ==> final(board_game)@ == old(board_game)@,
    decreases
            rows_left(crawler.cursor(), crawler.limit()),
            cols_left(crawler.cursor(), crawler.limit()),
            1int,
{
    let ghost b = board_game@;
    let ghost cursor = crawler.cursor();
    let ghost limit0 = *limit;
    let (row, col) = match crawler.current() {
        Some(step) => step,
        None => {
            proof {
                assert forall|x: int, y: int| b.in_grid(x, y) implies #[trigger] b.extends_at(
                    b,
                    cursor,
                    x,
                    y,
                ) by {}
                assert(b.completes(b, cursor));
                assert forall|c: BoardView| #[trigger] c.completes(b, cursor) implies b.precedes(
                    c,
                    cursor,
                ) by {
                    assert(b.same_from(c, cursor));
                }
            }
            return Some(Outcome::Solved);
        },
    };
    let pos = (col, row);
    let ghost x = col as int;
    let ghost y = row as int;
    let candidates = board_game.find_placable_pieces(index, pos);
    let cell = board_game.cells[row as usize][col as usize];
    assert(cell == b.cell(x, y));
    let turns: u8 = match cell {
        Cell::FullCell(..) => 4,
        _ => 1,
    };
    let ghost ids = candidates@;
    let ghost mut used: nat = 0;
    let mut i: usize = 0;
    while i < candidates.len()
        invariant
            i <= candidates.len(),
            board_game@ == b,
            b == old(board_game)@,
            limit0 == *old(limit),
            board_game.wf(),
            crawler.wf(),
            crawler.limit() == b.size,
            crawler.cursor() == cursor,
            cursor == Some((row, col)),
            on_grid(cursor, b.size as int),
            pos == (col, row),
            x == col as int,
            y == row as int,
            index.wf(),
            index.indexes(b.pieces),
            cell == b.cell(x, y),
            turns == b.turns(x, y),
            ids == candidates@,
            ids == b.candidates(x, y),
            b.lists_candidates(ids, x, y),
            forall|k: int|
                0 <= k < i && b.empty_from(cursor) ==> b.excludes(
                    cursor,
                    x,
                    y,
                    #[trigger] candidates[k] as int,
                ),
            affordable(limit0, used),
            *limit == spend(limit0, used),
            b.attempts_from(cursor) == used + b.attempts_on(cursor, ids, i as int),
        decreases candidates.len() - i,
    {
        let id = candidates[i];
        assert(candidates@.contains(id));
        let ghost props = b.pieces[id as int].props();
        let ghost mut spent: nat = 0;
        let mut turn: u8 = 0;
        while turn < turns
            invariant
                turn <= turns,
                i < candidates.len(),
                id == candidates[i as int],
                board_game@ == b,
                b == old(board_game)@,
                limit0 == *old(limit),
                board_game.wf(),
                crawler.wf(),
                crawler.limit() == b.size,
                crawler.cursor() == cursor,
                cursor == Some((row, col)),
                on_grid(cursor, b.size as int),
                pos == (col, row),
                x == col as int,
                y == row as int,
                index.wf(),
                index.indexes(b.pieces),
                cell == b.cell(x, y),
                id < b.pieces.len(),
                props == b.pieces[id as int].props(),
                turns == b.turns(x, y),
                ids == candidates@,
                b.lists_candidates(ids, x, y),
                forall|k: int|
                    0 <= k < i && b.empty_from(cursor) ==> b.excludes(
                        cursor,
                        x,
                        y,
                        #[trigger] candidates[k] as int,
                    ),
                forall|compass: Compass|
                    compass.index() < turn && cell is FullCell && b.empty_from(cursor) ==> b.bars(
                        cursor,
                        x,
                        y,
                        #[trigger] cell.filled(props, Some(compass)),
                    ),
                turn > 0 && !(cell is FullCell) && b.empty_from(cursor) ==> b.bars(
                    cursor,
                    x,
                    y,
                    cell.filled(props, None),
                ),
                forall|t: int|
                    0 <= t < turn ==> !b.accepts(cursor, id as int, #[trigger] b.given(x, y, t)),
                affordable(limit0, used + spent),
                *limit == spend(limit0, used + spent),
                b.attempts_from(cursor) == used + b.attempts_on(cursor, ids, i as int),
                b.attempts_with(cursor, id as int, 0) == spent + b.attempts_with(
                    cursor,
                    id as int,
                    turn as int,
                ),
            decreases turns - turn,
        {
            let compass = match cell {
                Cell::FullCell(..) => Some(rotation(turn)),
                _ => None,
            };
            assert(compass == b.given(x, y, turn as int));
            let ghost cost = b.attempt_cost(cursor, id as int, compass);
            match attempt(board_game, crawler, index, id, pos, compass, limit) {
                Some(true) => {
                    proof {
                        let done = board_game@;
                        let filled = cell.filled(props, compass);
                        assert(b.solvable_from(cursor));
                        assert(b.leads_on(cursor, id as int));
                        assert(b.pieces[id as int].wf());
                        assert(b.cell(x, y).wf());
                        assert forall|c: BoardView| #[trigger]
                            c.completes(b, cursor) implies done.precedes(c, cursor) by {
                            lemma_completion_piece(b, c, x, y);
                            let p = c.cell(x, y).occupant().unwrap();
                            let given = stored_rotation(c.cell(x, y));
                            lemma_accepted_is_candidate(b, p.id as int, x, y, given);
                            assert(candidates@.contains(p.id));
                            let k = choose|k: int|
                                0 <= k < candidates@.len() && candidates@[k] == p.id;
                            if k < i {
                                assert(b.excludes(cursor, x, y, candidates[k] as int));
                                assert(c.holds(x, y, p.id as int));
                            }
                            if c.cell(x, y) != filled {
                                if p.id == id {
                                    if cell is FullCell {
                                        let r = given.unwrap();
                                        if r.index() < turn {
                                            assert(b.bars(
                                                cursor,
                                                x,
                                                y,
                                                cell.filled(props, Some(r)),
                                            ));
                                        }
                                    }
                                }
                                assert(rank(done.cell(x, y)) < rank(c.cell(x, y)));
                                assert(done.first_differs_at(c, cursor, x, y));
                            }
                        }
                    }
                    return Some(Outcome::Solved);
                },
                Some(false) => {
                    proof {
                        spent = spent + cost;
                    }
                },
                None => {
                    return None;
                },
            }
            turn += 1;
        }
        proof {
            if b.empty_from(cursor) {
                assert forall|c: BoardView| #[trigger] c.completes(b, cursor) implies !c.holds(
                    x,
                    y,
                    id as int,
                ) by {
                    if c.holds(x, y, id as int) {
                        lemma_completion_piece(b, c, x, y);
                        let given = stored_rotation(c.cell(x, y));
                        assert(c.cell(x, y) == cell.filled(props, given));
                        if cell is FullCell {
                            let compass = given.unwrap();
                            assert(b.bars(cursor, x, y, cell.filled(props, Some(compass))));
                        } else {
                            assert(cell.filled(props, given) == cell.filled(props, None));
                        }
                    }
                }
            }
            assert(!b.leads_on(cursor, id as int));
            used = used + spent;
        }
        i += 1;
    }
    proof {
        if b.solvable_from(cursor) {
            let c = choose|c: BoardView| c.completes(b, cursor);
            lemma_completion_piece(b, c, x, y);
            let p = c.cell(x, y).occupant().unwrap();
            lemma_accepted_is_candidate(b, p.id as int, x, y, stored_rotation(c.cell(x, y)));
            assert(candidates@.contains(p.id));
            let k = choose|k: int| 0 <= k < candidates@.len() && candidates@[k] == p.id;
            assert(b.excludes(cursor, x, y, candidates[k] as int));
            assert(c.holds(x, y, p.id as int));
        }
    }
    Some(Outcome::Unsolvable)
}

/// Fills the cells from the cursor on, row by row: at each cell it tries the
/// pieces worth trying in ascending order, a full cell's in each rotation from
/// north clockwise, and goes back to the cell before where none leads to the
/// end. The board is left finished in the first way that this order meets,
/// or as it was.
pub fn solveception(board_game: &mut BoardGame, crawler: Crawler) -> (r: Outcome)
    requires
        old(board_game).wf(),
        crawler.wf(),
        crawler.limit() == old(board_game).size,
    ensures
        final(board_game).wf(),
        r == Outcome::Solved <==> old(board_game)@.solvable_from(crawler.cursor()),
        r == Outcome::Solved ==> final(board_game)@.first_completion(
            old(board_game)@,
            crawler.cursor(),
        ),
        r == Outcome::Unsolvable ==> final(board_game)@ == old(board_game)@,
{
    proof {
        lemma_inventory_bound(board_game@);
    }
    let index = ColorIndex::new(&board_game.pieces);
    let mut limit: Option<u64> = None;
    match search(board_game, crawler, &index, &mut limit) {
        Some(r) => r,
        None => unreached(),
    }
}

/// Searches a solution of the puzzle on an empty board, cell by cell in rows
/// from the northern edge. The board is left with the first solution in the
/// order of the search, or as it was. A board that holds a piece already is
/// reported as unsolvable.
pub fn solve(board_game: &mut BoardGame) -> (r: Outcome)
    requires
        old(board_game).wf(),
    ensures
        final(board_game).wf(),
        r == Outcome::Solved <==> old(board_game)@.solvable(),
        r == Outcome::Solved ==> final(board_game)@.first_solution(),
        final(board_game)@.size == old(board_game)@.size,
        final(board_game)@.pieces == old(board_game)@.pieces,
        r == Outcome::Unsolvable ==> final(board_game)@ == old(board_game)@,
{
    proof {
        lemma_solvable_from_start(board_game@);
    }
    let crawler = Crawler::new(board_game.size);
    let r = solveception(board_game, crawler);
    proof {
        if r == Outcome::Solved {
            lemma_first_solution(old(board_game)@, board_game@);
        }
    }
    r
}

/// Searches a solution like `solve`, but gives up after `max_attempts`
/// placements were tried. The result is `None` where the search would try
/// more; the board is then as it was.
pub fn solve_bounded(board_game: &mut BoardGame, max_attempts: u64) -> (r: Option<Outcome>)
    requires
        old(board_game).wf(),
    ensures
        final(board_game).wf(),
        r is Some <==> old(board_game)@.attempts_from(Some((0u8, 0u8))) <= max_attempts,
        r is Some ==> (r == Some(Outcome::Solved) <==> old(board_game)@.solvable()),
        r == Some(Outcome::Solved) ==> final(board_game)@.first_solution(),
        final(board_game)@.size == old(board_game)@.size,
        final(board_game)@.pieces == old(board_game)@.pieces,
        r != Some(Outcome::Solved) ==> final(board_game)@ == old(board_game)@,
{
    proof {
        lemma_inventory_bound(board_game@);
        lemma_solvable_from_start(board_game@);
    }
    let index = ColorIndex::new(&board_game.pieces);
    let crawler = Crawler::new(board_game.size);
    let mut limit: Option<u64> = Some(max_attempts);
    let r = search(board_game, crawler, &index, &mut limit);
    proof {
        if r == Some(Outcome::Solved) {
            lemma_first_solution(old(board_game)@, board_game@);
        }
    }
    r
}

impl BoardGame {
    /// Whether the cell at `pos` holds a piece whose faces are what its
    /// surroundings show.
    fn is_settled(&self, pos: (u8, u8)) -> (r: bool)
        requires
            self.wf(),
            self@.in_grid(pos.0 as int, pos.1 as int),
        ensures
            r == self@.settled(pos.0 as int, pos.1 as int),
    {
        let cell = self.cells[pos.1 as usize][pos.0 as usize];
        assert(cell == self@.cell(pos.0 as int, pos.1 as int));
        let occupied = match cell {
            Cell::CornerCell(p, _) => p.is_some(),
            Cell::BorderCell(p, _) => p.is_some(),
            Cell::FullCell(p, _) => p.is_some(),
        };
        if !occupied {
            return false;
        }
        let (a, b, c, d) = cell.get_faces();
        let (a_check, b_check, c_check, d_check) = self.get_frontier(pos);
        a == a_check && b == b_check && c == c_check && d == d_check
    }

    /// Whether the board is solved: every cell holds a piece and each face
    /// of each piece is what its surroundings show there.
    pub fn is_solved(&self) -> (r: bool)
        requires
            self.wf(),
        ensures
            r == self@.solved(),
    {
        let ghost v = self@;
        let mut y: u8 = 0;
        while y < self.size
            invariant
                y <= self.size,
                self.wf(),
                v == self@,
                forall|i: int, j: int|
                    0 <= i < self.size && 0 <= j < y ==> #[trigger] v.settled(i, j),
            decreases self.size - y,
        {
            let mut x: u8 = 0;
            while x < self.size
                invariant
                    x <= self.size,
                    y < self.size,
                    self.wf(),
                    v == self@,
                    forall|i: int, j: int|
                        0 <= i < self.size && 0 <= j < y ==> #[trigger] v.settled(i, j),
                    forall|i: int| 0 <= i < x ==> #[trigger] v.settled(i, y as int),
                decreases self.size - x,
            {
                if !self.is_settled((x, y)) {
                    assert(!v.settled(x as int, y as int));
                    return false;
                }
                x += 1;
            }
            y += 1;
        }
        true
    }
}

} // verus!
