//! Coordinates on the board.

use crate::direction::Direction;
use std::cmp::Ordering;
use vstd::prelude::*;
use vstd::std_specs::cmp::PartialOrdSpecImpl;
use vstd::string::*;

verus! {

/// Whether the pair `(column, row)` names a cell of the board, which has five
/// columns and five rows.
pub open spec fn in_grid(c: (int, int)) -> bool {
    0 <= c.0 < 5 && 0 <= c.1 < 5
}

/// The pair `n` steps away from `c` in direction `dir`; it may lie off the
/// board.
pub open spec fn ahead(c: (int, int), dir: Direction, n: int) -> (int, int) {
    match dir {
        Direction::North => (c.0, c.1 - n),
        Direction::South => (c.0, c.1 + n),
        Direction::West => (c.0 - n, c.1),
        Direction::East => (c.0 + n, c.1),
    }
}

/// The number of steps that can be taken from `c` in direction `dir` before
/// the board ends.
pub open spec fn room(c: (int, int), dir: Direction) -> int {
    match dir {
        Direction::North => c.1,
        Direction::South => 4 - c.1,
        Direction::West => c.0,
        Direction::East => 4 - c.0,
    }
}

/// A step in one direction and a step back lead to where one started, and
/// each step away from an edge leaves one step less of room.
pub proof fn lemma_step_back(c: (int, int), dir: Direction)
    ensures
        ahead(ahead(c, dir, 1), dir.opposite(), 1) == c,
        room(ahead(c, dir, 1), dir) == room(c, dir) - 1,
        room(ahead(c, dir, 1), dir.opposite()) == room(c, dir.opposite()) + 1,
        in_grid(c) ==> (in_grid(ahead(c, dir, 1)) <==> room(c, dir) > 0),
{
}

/// The pair that stands at place `i` when the cells are listed row by row,
/// each row from West to East.
pub open spec fn nth_cell(i: int) -> (int, int) {
    (i % 5, i / 5)
}

/// The place of the pair `c` when the cells are listed row by row.
pub open spec fn cell_index(c: (int, int)) -> int {
    c.1 * 5 + c.0
}

/// Listing the cells row by row names each cell of the board once.
pub proof fn lemma_cell_order()
    ensures
        forall|i: int|
            0 <= i < 25 ==> in_grid(#[trigger] nth_cell(i)) && cell_index(nth_cell(i)) == i,
        forall|c: (int, int)|
            in_grid(c) ==> 0 <= #[trigger] cell_index(c) < 25 && nth_cell(cell_index(c)) == c,
{
}

/// The decimal digit for a coordinate.
pub open spec fn digit(n: int) -> char {
    if n == 0 {
        '0'
    } else if n == 1 {
        '1'
    } else if n == 2 {
        '2'
    } else if n == 3 {
        '3'
    } else {
        '4'
    }
}

fn digit_text(n: usize) -> (s: &'static str)
    requires
        n < 5,
    ensures
        s@ == seq![digit(n as int)],
{
    let s = if n == 0 {
        proof {
            reveal_strlit("0");
        }
        "0"
    } else if n == 1 {
        proof {
            reveal_strlit("1");
        }
        "1"
    } else if n == 2 {
        proof {
            reveal_strlit("2");
        }
        "2"
    } else if n == 3 {
        proof {
            reveal_strlit("3");
        }
        "3"
    } else {
        proof {
            reveal_strlit("4");
        }
        "4"
    };
    assert(s@ =~= seq![digit(n as int)]);
    s
}

/// A cell of the board: a column `x` and a row `y`, both below 5.
#[derive(Debug, Clone, Copy, PartialEq, Eq, Ord, Hash, Structural)]
pub struct Pos {
    x: usize,
    y: usize,
}

impl View for Pos {
    type V = (int, int);

    /// The pair `(column, row)`.
    closed spec fn view(&self) -> (int, int) {
        (self.x as int, self.y as int)
    }
}

impl PartialOrd for Pos {
    /// Positions are ordered by column, and within a column by row.
    fn partial_cmp(&self, other: &Pos) -> (r: Option<Ordering>) {
        if self.x < other.x {
            Some(Ordering::Less)
        } else if self.x > other.x {
            Some(Ordering::Greater)
        } else if self.y < other.y {
            Some(Ordering::Less)
        } else if self.y > other.y {
            Some(Ordering::Greater)
        } else {
            Some(Ordering::Equal)
        }
    }
}

impl PartialOrdSpecImpl for Pos {
    open spec fn obeys_partial_cmp_spec() -> bool {
        true
    }

    open spec fn partial_cmp_spec(&self, other: &Pos) -> Option<Ordering> {
        if self@.0 < other@.0 {
            Some(Ordering::Less)
        } else if self@.0 > other@.0 {
            Some(Ordering::Greater)
        } else if self@.1 < other@.1 {
            Some(Ordering::Less)
        } else if self@.1 > other@.1 {
            Some(Ordering::Greater)
        } else {
            Some(Ordering::Equal)
        }
    }
}

impl Pos {
    #[verifier::type_invariant]
    spec fn on_board(self) -> bool {
        self.x < 5 && self.y < 5
    }

    /// The position in column `x` of row `y`.
    pub fn new(x: usize, y: usize) -> (p: Pos)
        requires
            x < 5,
            y < 5,
        ensures
            p@ == (x as int, y as int),
    {
        Pos { x, y }
    }

    /// The column and the row.
    pub fn xy(&self) -> (r: (usize, usize))
        ensures
            (r.0 as int, r.1 as int) == self@,
            in_grid(self@),
    {
        proof {
            use_type_invariant(self);
        }
        (self.x, self.y)
    }

    /// Whether the position lies in the first or in the last row.
    pub fn at_edge(&self) -> (r: bool)
        ensures
            r == (self@.1 == 0 || self@.1 == 4),
    {
        let (_, y) = self.xy();
        y == 0 || y == 4
    }

    /// Whether the position lies in the first or last row, or in the middle
    /// of the first or last column.
    pub fn is_raised(&self) -> (r: bool)
        ensures
            r == (self@.1 == 0 || self@.1 == 4 || ((self@.0 == 0 || self@.0 == 4) && self@.1
                == 2)),
    {
        let (x, y) = self.xy();
        self.at_edge() || ((x == 0 || x == 4) && y == 2) || (x == 2 && (y == 0 || y == 4))
    }

    /// The neighbour one step away in direction `dir`, or `None` where that
    /// step would leave the board.
    pub fn step(&self, dir: Direction) -> (r: Option<Pos>)
        ensures
            r is Some <==> in_grid(ahead(self@, dir, 1)),
            r matches Some(q) ==> q@ == ahead(self@, dir, 1),
            in_grid(self@),
    {
        let (x, y) = self.xy();
        let (x, y) = match dir {
            Direction::North => {
                if y == 0 {
                    return None;
                }
                (x, y - 1)
            },
            Direction::South => {
                if y == 4 {
                    return None;
                }
                (x, y + 1)
            },
            Direction::West => {
                if x == 0 {
                    return None;
                }
                (x - 1, y)
            },
            Direction::East => {
                if x == 4 {
                    return None;
                }
                (x + 1, y)
            },
        };
        Some(Pos::new(x, y))
    }

    /// Every position of the board, row by row and each row from West to
    /// East.
    pub fn values() -> (r: Vec<Pos>)
        ensures
            r@.len() == 25,
            forall|i: int| 0 <= i < r@.len() ==> (#[trigger] r@[i])@ == nth_cell(i),
    {
        let mut r: Vec<Pos> = Vec::new();
        let mut y: usize = 0;
        while y < 5
            invariant
                y <= 5,
                r@.len() == y * 5,
                forall|i: int| 0 <= i < r@.len() ==> (#[trigger] r@[i])@ == nth_cell(i),
            decreases 5 - y,
        {
            let mut x: usize = 0;
            while x < 5
                invariant
                    y < 5,
                    x <= 5,
                    r@.len() == y * 5 + x,
                    forall|i: int| 0 <= i < r@.len() ==> (#[trigger] r@[i])@ == nth_cell(i),
                decreases 5 - x,
            {
                r.push(Pos::new(x, y));
                x += 1;
            }
            y += 1;
        }
        r
    }

    /// The text `(x,y)`.
    pub fn to_string(&self) -> (s: String)
        ensures
            s@ == seq!['(', digit(self@.0), ',', digit(self@.1), ')'],
    {
        let (x, y) = self.xy();
        let mut s = String::new();
        proof {
            reveal_strlit("(");
            reveal_strlit(",");
            reveal_strlit(")");
        }
        s.append("(");
        s.append(digit_text(x));
        s.append(",");
        s.append(digit_text(y));
        s.append(")");
        assert(s@ =~= seq!['(', digit(self@.0), ',', digit(self@.1), ')']);
        s
    }

    /// Two positions with the same column and row are the same position.
    pub proof fn lemma_view_injective(p: Pos, q: Pos)
        ensures
            p@ == q@ <==> p == q,
    {
    }
}

} // verus!
