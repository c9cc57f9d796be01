use vstd::prelude::*;

verus! {

/// A cursor that walks the cells of a square grid row by row, each row from
/// west to east. `step` is the current cell as `(row, column)`, or `None` once
/// every cell has been visited.
#[derive(Debug, Copy, Clone)]
pub struct Crawler {
    pub step: Option<(u8, u8)>,
    size: u8,
}

/// The cell behind `step` on a grid of `size` rows: the next one in the row,
/// else the first one of the next row, else none.
pub open spec fn successor(step: Option<(u8, u8)>, size: int) -> Option<(u8, u8)> {
    match step {
        Some((row, col)) => if col + 1 < size {
            Some((row, (col + 1) as u8))
        } else if row + 1 < size {
            Some(((row + 1) as u8, 0u8))
        } else {
            None
        },
        None => None,
    }
}

/// The cell in column `x` of row `y` is still to be visited when the cursor
/// stands at `cursor`: it is the cell of the cursor or comes behind it, row
/// by row and in each row from west to east.
pub open spec fn pending(cursor: Option<(u8, u8)>, x: int, y: int) -> bool {
    cursor matches Some((row, col)) && (y > row || (y == row && x >= col))
}

/// The walk visits every cell exactly once. At the start every cell of the
/// grid is still to be visited; moving the cursor on takes its own cell off
/// the cells still to be visited and no other; and behind the last cell none
/// is left.
pub proof fn lemma_pending_next(size: int, x: int, y: int, i: int, j: int)
    requires
        1 <= size <= 255,
        0 <= x < size,
        0 <= y < size,
        0 <= i < size,
        0 <= j < size,
    ensures
        pending(Some((0u8, 0u8)), i, j),
        pending(successor(Some((y as u8, x as u8)), size), i, j) <==> pending(
            Some((y as u8, x as u8)),
            i,
            j,
        ) && !(i == x && j == y),
        !pending(None, i, j),
{
}

impl Crawler {
    /// The number of rows of the grid.
    pub closed spec fn limit(&self) -> int {
        self.size as int
    }

    /// The current cell as `(row, column)`, or `None` behind the last cell.
    pub closed spec fn cursor(&self) -> Option<(u8, u8)> {
        self.step
    }

    /// The current cell lies on the grid.
    pub open spec fn wf(&self) -> bool {
        self.cursor() matches Some((row, col)) ==> row < self.limit() && col < self.limit()
    }

    /// A cursor on the first cell of a grid of `size` rows.
    pub fn new(size: u8) -> (r: Crawler)
        ensures
            r.limit() == size,
            size > 0 ==> r.cursor() == Some((0u8, 0u8)),
            size == 0 ==> r.cursor() is None,
            r.wf(),
    {
        Crawler {
            size,
            step: if size > 0 {
                Some((0, 0))
            } else {
                None
            },
        }
    }

    /// The current cell as `(row, column)`, or `None` behind the last cell.
    pub fn current(&self) -> (r: Option<(u8, u8)>)
        ensures
            r == self.cursor(),
    {
        self.step
    }

    /// Moves to the next cell and returns it.
    pub fn next(&mut self) -> (r: Option<(u8, u8)>)
        requires
            old(self).wf(),
        ensures
            final(self).limit() == old(self).limit(),
            final(self).cursor() == successor(old(self).cursor(), old(self).limit()),
            final(self).wf(),
            r == final(self).cursor(),
    {
        match self.step {
            Some((mut x, mut y)) => {
                y += 1;

                if y == self.size {
                    x += 1;
                    y = 0;
                }
                self.step = Some((x, y));
                if x == self.size {
                    self.step = None;
                }
                self.step
            },
            None => None,
        }
    }
}

impl Default for Crawler {
    /// A cursor on a grid without cells.
    fn default() -> (r: Crawler)
        ensures
            r.limit() == 0,
            r.cursor() is None,
    {
        Crawler { step: None, size: 0 }
    }
}

} // verus!
