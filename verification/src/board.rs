//! The board and its mathematical model.

use crate::object::Object;
use crate::pos::{in_grid, Pos};
use vstd::prelude::*;
use vstd::std_specs::cmp::PartialEqSpecImpl;

verus! {

/// The mathematical model of a board: what each cell holds, and where the
/// goal lies. Cells are named by the pair `(column, row)`.
#[verifier::ext_equal]
pub struct Board {
    pub cells: Map<(int, int), Option<Object>>,
    pub end: (int, int),
}

impl Board {
    /// The cells are those of the grid, and the goal is one of them.
    pub open spec fn shaped(self) -> bool {
        &&& forall|c: (int, int)|
            #![trigger self.cells.dom().contains(c)]
            #![trigger in_grid(c)]
            self.cells.dom().contains(c) <==> in_grid(c)
        &&& in_grid(self.end)
    }

    /// The marker stands on the cell `c`.
    pub open spec fn marker_at(self, c: (int, int)) -> bool {
        in_grid(c) && self.cells[c] == Some(Object::START)
    }

    /// The cell `c` is a wall.
    pub open spec fn wall_at(self, c: (int, int)) -> bool {
        in_grid(c) && self.cells[c] == Some(Object::WALL)
    }

    /// Every cell of the board is set.
    pub open spec fn filled(self) -> bool {
        forall|c: (int, int)| in_grid(c) ==> (#[trigger] self.cells[c]) is Some
    }

    /// A board in play: every cell is set, the marker stands on exactly one
    /// cell, no cell but the goal is marked as the goal, and the goal is no
    /// wall.
    pub open spec fn valid(self) -> bool {
        &&& self.shaped()
        &&& self.filled()
        &&& exists|m: (int, int)| self.marker_at(m)
        &&& forall|a: (int, int), b: (int, int)|
            self.marker_at(a) && self.marker_at(b) ==> a == b
        &&& forall|c: (int, int)|
            in_grid(c) && #[trigger] self.cells[c] == Some(Object::END) ==> c == self.end
        &&& !self.wall_at(self.end)
    }

    /// The marker stands on the goal.
    pub open spec fn solved(self) -> bool {
        self.cells[self.end] == Some(Object::START)
    }
}

/// The board: a 5x5 grid of cells, each set or not, and the position of the
/// goal cell.
#[derive(Debug, Clone, Copy, Eq, Hash)]
pub struct IceRunner {
    maze: [[Option<Object>; 5]; 5],
    end_point: Pos,
}

impl View for IceRunner {
    type V = Board;

    /// The model of this board: a map from the 25 pairs of the grid to what
    /// the cells hold, and the pair of the goal cell.
    open spec fn view(&self) -> Board {
        Board {
            cells: Map::new(|c: (int, int)| in_grid(c), |c: (int, int)| self.cell(c)),
            end: self.goal(),
        }
    }
}

impl PartialEq for IceRunner {
    /// Two boards are equal when their cells hold the same and their goals
    /// are the same cell.
    fn eq(&self, other: &IceRunner) -> (r: bool) {
        if self.end_point != other.end_point {
            proof {
                Pos::lemma_view_injective(self.end_point, other.end_point);
            }
            return false;
        }
        let mut x: usize = 0;
        while x < 5
            invariant
                x <= 5,
                forall|i: int, j: int|
                    0 <= i < x && 0 <= j < 5 ==> self.cell((i, j)) == other.cell((i, j)),
            decreases 5 - x,
        {
            let mut y: usize = 0;
            while y < 5
                invariant
                    x < 5,
                    y <= 5,
                    forall|i: int, j: int|
                        0 <= i < x && 0 <= j < 5 ==> self.cell((i, j)) == other.cell((i, j)),
                    forall|j: int|
                        0 <= j < y ==> self.cell((x as int, j)) == other.cell((x as int, j)),
                decreases 5 - y,
            {
                if self.maze[x][y] != other.maze[x][y] {
                    let ghost c = (x as int, y as int);
                    assert(self@.cells[c] != other@.cells[c]);
                    return false;
                }
                y += 1;
            }
            x += 1;
        }
        assert(self@.cells =~= other@.cells);
        true
    }
}

impl PartialEqSpecImpl for IceRunner {
    open spec fn obeys_eq_spec() -> bool {
        true
    }

    open spec fn eq_spec(&self, other: &IceRunner) -> bool {
        self@ == other@
    }
}

impl IceRunner {
    /// What the cell in column `c.0` of row `c.1` holds.
    pub closed spec fn cell(&self, c: (int, int)) -> Option<Object> {
        self.maze[c.0][c.1]
    }

    /// The column and row of the goal cell.
    pub closed spec fn goal(&self) -> (int, int) {
        self.end_point@
    }

    /// Two boards with the same model are the same board.
    pub proof fn lemma_view_injective(a: IceRunner, b: IceRunner)
        ensures
            a@ == b@ <==> a == b,
    {
        if a@ == b@ {
            Pos::lemma_view_injective(a.end_point, b.end_point);
            assert forall|x: int| 0 <= x < 5 implies a.maze[x] == b.maze[x] by {
                assert forall|y: int| 0 <= y < 5 implies a.maze[x][y] == b.maze[x][y] by {
                    assert(a@.cells[(x, y)] == b@.cells[(x, y)]);
                }
                assert(a.maze[x] =~= b.maze[x]);
            }
            assert(a.maze =~= b.maze);
        }
    }

    /// A board with no cell set and the goal at the first cell.
    pub fn new() -> (b: IceRunner)
        ensures
            b@.end == (0int, 0int),
            forall|c: (int, int)| in_grid(c) ==> #[trigger] b@.cells[c] == None::<Object>,
    {
        IceRunner { maze: [[None;5];5], end_point: Pos::new(0, 0) }
    }

    /// What the cell at `pos` holds.
    pub fn get(&self, pos: Pos) -> (r: &Option<Object>)
        ensures
            *r == self@.cells[pos@],
            in_grid(pos@),
    {
        let (x, y) = pos.xy();
        &self.maze[x][y]
    }

    /// The cell at `pos`, to be overwritten.
    pub fn get_mut(&mut self, pos: Pos) -> (r: &mut Option<Object>)
        ensures
            *r == old(self)@.cells[pos@],
            final(self)@ == (Board {
                cells: old(self)@.cells.insert(pos@, *final(r)),
                end: old(self)@.end,
            }),
            in_grid(pos@),
    {
        let (x, y) = pos.xy();
        &mut self.maze[x][y]
    }

    /// The position of the goal cell, to be overwritten.
    pub fn end_point_mut(&mut self) -> (r: &mut Pos)
        ensures
            r@ == old(self)@.end,
            final(self)@ == (Board { cells: old(self)@.cells, end: final(r)@ }),
    {
        &mut self.end_point
    }

    /// The position of the goal cell.
    pub fn end_point(&self) -> (r: Pos)
        ensures
            r@ == self@.end,
            in_grid(self@.end),
    {
        let r = self.end_point;
        let _ = r.xy();
        r
    }
}

} // verus!
