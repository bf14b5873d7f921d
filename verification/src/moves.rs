//! The slide rule: where the marker comes to rest, the boards that one slide
//! leads to, and the test for a solved board.

use crate::board::{Board, IceRunner};
use crate::direction::Direction;
use crate::object::Object;
use crate::pos::{ahead, cell_index, in_grid, lemma_cell_order, nth_cell, room, Pos};
use vstd::prelude::*;

verus! {

/// The label of a move: what moves, and in which direction.
pub type Move = (Object, Direction);

impl Board {
    /// The number of cells that a marker on `p` crosses when it slides in
    /// direction `dir`: it advances while the next cell is on the board and
    /// is no wall.
    pub open spec fn run(self, p: (int, int), dir: Direction) -> nat
        recommends
            in_grid(p),
        decreases room(p, dir),
    {
        let q = ahead(p, dir, 1);
        if in_grid(p) && in_grid(q) && !self.wall_at(q) {
            1 + self.run(q, dir)
        } else {
            0
        }
    }

    /// The cell on which a marker on `p` comes to rest when it slides in
    /// direction `dir`.
    pub open spec fn rest(self, p: (int, int), dir: Direction) -> (int, int) {
        ahead(p, dir, self.run(p, dir) as int)
    }

    /// The board after the marker has left `p` and come to rest on `r`: `r`
    /// holds the marker, `p` is ice, and nothing else has changed.
    pub open spec fn moved(self, p: (int, int), r: (int, int)) -> Board {
        Board {
            cells: self.cells.insert(r, Some(Object::START)).insert(p, Some(Object::ICE)),
            end: self.end,
        }
    }

    /// The board that the slide from `p` in direction `dir` leads to. There
    /// is none where the marker does not stand on `p`, or where it cannot
    /// move at all.
    pub open spec fn slide(self, p: (int, int), dir: Direction) -> Option<Board> {
        if self.marker_at(p) && self.rest(p, dir) != p {
            Some(self.moved(p, self.rest(p, dir)))
        } else {
            None
        }
    }

    /// The slides from `p` in the first `n` directions of
    /// [`Direction::all`], in that order.
    pub open spec fn moves_at(self, p: (int, int), n: nat) -> Seq<(Move, Board)>
        recommends
            n <= 4,
        decreases n,
    {
        if n == 0 {
            Seq::empty()
        } else {
            let dir = Direction::all()[n - 1];
            let before = self.moves_at(p, (n - 1) as nat);
            match self.slide(p, dir) {
                Some(b) => before.push(((Object::START, dir), b)),
                None => before,
            }
        }
    }

    /// The slides from the first `k` cells of the board, row by row.
    pub open spec fn moves_upto(self, k: nat) -> Seq<(Move, Board)>
        recommends
            k <= 25,
        decreases k,
    {
        if k == 0 {
            Seq::empty()
        } else {
            self.moves_upto((k - 1) as nat) + self.moves_at(nth_cell(k - 1), 4)
        }
    }

    /// Every legal move with the board it leads to: the cells are tried row
    /// by row, and on each the four directions in their fixed order.
    pub open spec fn successors(self) -> Seq<(Move, Board)> {
        self.moves_upto(25)
    }
}

/// The moves with each board replaced by its model.
pub open spec fn moves_view(moves: Seq<(Move, IceRunner)>) -> Seq<(Move, Board)> {
    moves.map_values(|m: (Move, IceRunner)| (m.0, m.1@))
}

/// The position on which a marker on `p` comes to rest when it slides over
/// `board` in direction `dir`.
pub fn get_next_loc(board: &IceRunner, p: Pos, dir: Direction) -> (r: Pos)
    ensures
        r@ == board@.rest(p@, dir),
{
    let mut cur = p;
    loop
        invariant
            board@.rest(cur@, dir) == board@.rest(p@, dir),
        ensures
            cur@ == board@.rest(p@, dir),
        decreases room(cur@, dir),
    {
        match cur.step(dir) {
            Some(new_pos) => {
                let wall = match board.get(new_pos) {
                    Some(ob) => ob.is_obstacle(),
                    None => false,
                };
                if wall {
                    break ;
                }
                cur = new_pos;
            },
            None => {
                break ;
            },
        }
    }
    cur
}

impl IceRunner {
    /// Whether the marker stands on the goal.
    pub fn is_goal(&self) -> (r: bool)
        ensures
            r == self@.solved(),
    {
        match self.get(self.end_point()) {
            Some(obj) => obj.is_start(),
            None => false,
        }
    }

    /// Slides the marker from `pos` in direction `dir`. Gives the marker and
    /// the board after the slide, or `None` where the marker does not stand
    /// on `pos` or cannot move in that direction.
    pub fn move_yourself(&self, pos: Pos, dir: Direction) -> (r: Option<(Object, IceRunner)>)
        ensures
            match r {
                Some((obj, after)) => obj == Object::START && self@.slide(pos@, dir) == Some(
                    after@,
                ),
                None => self@.slide(pos@, dir) is None,
            },
    {
        let obj = match self.get(pos) {
            Some(o) => *o,
            None => return None,
        };
        if !obj.is_start() {
            return None;
        }
        let p = get_next_loc(self, pos, dir);
        proof {
            Pos::lemma_view_injective(p, pos);
        }
        if p == pos {
            return None;
        }
        let mut after = *self;
        *after.get_mut(p) = Some(obj);
        *after.get_mut(pos) = Some(Object::ICE);
        assert(after@ =~= self@.moved(pos@, p@));
        Some((obj, after))
    }

    /// Every legal move from this board, each with the board it leads to.
    pub fn next(&self) -> (moves: Vec<(Move, IceRunner)>)
        ensures
            moves_view(moves@) == self@.successors(),
            forall|i: int|
                0 <= i < moves@.len() ==> self@.one_move_away((#[trigger] moves@[i]).1@),
    {
        let mut moves: Vec<(Move, IceRunner)> = Vec::new();
        let cells = Pos::values();
        let dirs = Direction::values();
        let mut k: usize = 0;
        while k < cells.len()
            invariant
                k <= 25,
                cells@.len() == 25,
                forall|i: int| 0 <= i < 25 ==> (#[trigger] cells@[i])@ == nth_cell(i),
                dirs@ == Direction::all(),
                moves_view(moves@) == self@.moves_upto(k as nat),
            decreases 25 - k,
        {
            let pos = cells[k];
            let ghost done = moves_view(moves@);
            let mut j: usize = 0;
            assert(moves_view(moves@) =~= done + self@.moves_at(pos@, 0));
            while j < 4
                invariant
                    j <= 4,
                    pos@ == nth_cell(k as int),
                    dirs@ == Direction::all(),
                    moves_view(moves@) == done + self@.moves_at(pos@, j as nat),
                decreases 4 - j,
            {
                let dir = dirs[j];
                let ghost tried = moves_view(moves@);
                if let Some((obj, after)) = self.move_yourself(pos, dir) {
                    moves.push(((obj, dir), after));
                    assert(moves_view(moves@) =~= tried.push(((obj, dir), after@)));
                }
                j += 1;
                assert(moves_view(moves@) =~= done + self@.moves_at(pos@, j as nat));
            }
            k += 1;
        }
        let _ = self.end_point();
        proof {
            assert forall|i: int| 0 <= i < moves@.len() implies self@.one_move_away(
                (#[trigger] moves@[i]).1@,
            ) by {
                assert(moves_view(moves@)[i].1 == moves@[i].1@);
                self@.lemma_moves_change_two_cells(i);
            }
        }
        moves
    }
}

impl Board {
    /// A slide stays on the board and crosses no wall, and it ends only at
    /// the edge of the board or in front of a wall.
    pub proof fn lemma_run_stops_when_blocked(self, p: (int, int), dir: Direction)
        requires
            in_grid(p),
        ensures
            self.run(p, dir) <= room(p, dir),
            in_grid(self.rest(p, dir)),
            forall|j: int|
                1 <= j <= self.run(p, dir) ==> !self.wall_at(#[trigger] ahead(p, dir, j)),
            self.run(p, dir) < room(p, dir) ==> self.wall_at(
                ahead(p, dir, self.run(p, dir) as int + 1),
            ),
        decreases room(p, dir),
    {
        let q = ahead(p, dir, 1);
        if in_grid(q) && !self.wall_at(q) {
            self.lemma_run_stops_when_blocked(q, dir);
            let n = self.run(p, dir) as int;
            assert forall|j: int| 1 <= j <= n implies !self.wall_at(
                #[trigger] ahead(p, dir, j),
            ) by {
                if j > 1 {
                    assert(ahead(p, dir, j) == ahead(q, dir, j - 1));
                }
            }
            assert(ahead(p, dir, n + 1) == ahead(q, dir, n));
        }
    }

    /// The length of a slide is the only number of steps that crosses no
    /// wall and ends at the edge of the board or in front of a wall.
    pub proof fn lemma_run_is_unique(self, p: (int, int), dir: Direction, n: nat)
        requires
            in_grid(p),
            n <= room(p, dir),
            forall|j: int| 1 <= j <= n ==> !self.wall_at(#[trigger] ahead(p, dir, j)),
            n < room(p, dir) ==> self.wall_at(ahead(p, dir, n as int + 1)),
        ensures
            self.run(p, dir) == n,
    {
        self.lemma_run_stops_when_blocked(p, dir);
        let m = self.run(p, dir) as int;
        if m < n {
            assert(!self.wall_at(ahead(p, dir, m + 1)));
        } else if n < m {
            assert(!self.wall_at(ahead(p, dir, n as int + 1)));
        }
    }

    /// `after` is this board with the marker taken from `p` to `r`: `p` has
    /// become ice, `r` holds the marker, and no other cell and not the goal
    /// has changed.
    pub open spec fn marker_moved(self, after: Board, p: (int, int), r: (int, int)) -> bool {
        &&& in_grid(p) && in_grid(r) && p != r
        &&& self.cells[p] == Some(Object::START)
        &&& after.cells[p] == Some(Object::ICE)
        &&& after.cells[r] == Some(Object::START)
        &&& forall|c: (int, int)|
            in_grid(c) && c != p && c != r ==> #[trigger] after.cells[c] == self.cells[c]
        &&& after.end == self.end
        &&& after.shaped()
    }

    /// `after` differs from this board in two cells and no more: the marker
    /// has gone from one cell, which is now ice, to another.
    pub open spec fn one_move_away(self, after: Board) -> bool {
        exists|p: (int, int), r: (int, int)| self.marker_moved(after, p, r)
    }

    /// The move `m` is a slide of the marker from some cell of this board.
    pub open spec fn is_slide(self, m: (Move, Board)) -> bool {
        exists|p: (int, int)|
            in_grid(p) && m.0.0 == Object::START && #[trigger] self.slide(p, m.0.1) == Some(m.1)
    }

    /// A slide takes the marker from its cell to the cell where it comes to
    /// rest, which is another cell of the board and no wall, and changes
    /// nothing else.
    pub proof fn lemma_slide_moves_marker(self, p: (int, int), dir: Direction)
        requires
            self.shaped(),
        ensures
            self.slide(p, dir) matches Some(after) ==> {
                &&& self.marker_moved(after, p, self.rest(p, dir))
                &&& !self.wall_at(self.rest(p, dir))
            },
    {
        if self.slide(p, dir) is Some {
            self.lemma_run_stops_when_blocked(p, dir);
            let n = self.run(p, dir) as int;
            assert(!self.wall_at(ahead(p, dir, n)));
        }
    }

    /// A slide of a board in play leads to a board in play.
    pub proof fn lemma_slide_keeps_valid(self, p: (int, int), dir: Direction)
        requires
            self.valid(),
        ensures
            self.slide(p, dir) matches Some(after) ==> after.valid(),
    {
        if let Some(after) = self.slide(p, dir) {
            self.lemma_slide_moves_marker(p, dir);
            let r = self.rest(p, dir);
            assert(after.marker_at(r));
            assert forall|a: (int, int), b: (int, int)|
                after.marker_at(a) && after.marker_at(b) implies a == b by {
                if a != r {
                    assert(self.marker_at(a) && self.marker_at(p));
                }
                if b != r {
                    assert(self.marker_at(b) && self.marker_at(p));
                }
            }
        }
    }

    /// After a slide of a board in play the marker stands on the goal if the
    /// slide came to rest there, and only then.
    pub proof fn lemma_solved_after_slide(self, p: (int, int), dir: Direction)
        requires
            self.valid(),
        ensures
            self.slide(p, dir) matches Some(after) ==> (after.solved() <==> self.rest(p, dir)
                == self.end),
    {
        if self.slide(p, dir) is Some {
            self.lemma_slide_moves_marker(p, dir);
            let r = self.rest(p, dir);
            if self.end != r && self.end != p {
                assert(!self.marker_at(self.end)) by {
                    assert(self.marker_at(p));
                }
            }
        }
    }

    /// Each of the slides from one cell is a slide of the marker from that
    /// cell; there are none where the marker does not stand on it, and at
    /// most one for each direction.
    pub proof fn lemma_moves_at(self, p: (int, int), n: nat)
        requires
            n <= 4,
        ensures
            self.moves_at(p, n).len() <= n,
            !self.marker_at(p) ==> self.moves_at(p, n).len() == 0,
            forall|i: int|
                0 <= i < self.moves_at(p, n).len() ==> {
                    let m = #[trigger] self.moves_at(p, n)[i];
                    m.0.0 == Object::START && self.slide(p, m.0.1) == Some(m.1)
                },
        decreases n,
    {
        if n > 0 {
            self.lemma_moves_at(p, (n - 1) as nat);
        }
    }

    /// Each move of the first `k` cells is a slide of the marker from one of
    /// the cells of the board.
    pub proof fn lemma_moves_upto(self, k: nat)
        requires
            k <= 25,
        ensures
            self.moves_upto(k).len() <= 4 * k,
            forall|i: int|
                0 <= i < self.moves_upto(k).len() ==> self.is_slide(
                    #[trigger] self.moves_upto(k)[i],
                ),
        decreases k,
    {
        if k > 0 {
            let before = self.moves_upto((k - 1) as nat);
            let p = nth_cell(k - 1);
            self.lemma_moves_upto((k - 1) as nat);
            self.lemma_moves_at(p, 4);
            lemma_cell_order();
            assert forall|i: int| 0 <= i < self.moves_upto(k).len() implies self.is_slide(
                #[trigger] self.moves_upto(k)[i],
            ) by {
                let m = self.moves_upto(k)[i];
                if i < before.len() {
                    assert(m == before[i]);
                } else {
                    assert(m == self.moves_at(p, 4)[i - before.len()]);
                    assert(self.slide(p, m.0.1) == Some(m.1));
                }
            }
        }
    }

    /// No move changes more than two cells of the board: the cell that the
    /// marker leaves becomes ice, the cell on which it comes to rest holds
    /// the marker, and every other cell and the goal stay as they were.
    pub proof fn lemma_moves_change_two_cells(self, i: int)
        requires
            self.shaped(),
            0 <= i < self.successors().len(),
        ensures
            self.one_move_away(self.successors()[i].1),
    {
        self.lemma_moves_upto(25);
        let m = self.successors()[i];
        assert(self.is_slide(m));
        let p = choose|p: (int, int)|
            in_grid(p) && m.0.0 == Object::START && #[trigger] self.slide(p, m.0.1) == Some(m.1);
        self.lemma_slide_moves_marker(p, m.0.1);
        assert(self.marker_moved(m.1, p, self.rest(p, m.0.1)));
    }

    /// Where the marker stands on `m` and on no other cell, the moves of the
    /// board are the slides of the marker from `m`.
    pub proof fn lemma_moves_of_marker(self, m: (int, int))
        requires
            self.marker_at(m),
            forall|c: (int, int)| self.marker_at(c) ==> c == m,
        ensures
            self.successors() == self.moves_at(m, 4),
    {
        self.lemma_moves_from_marker_upto(m, 25);
        lemma_cell_order();
    }

    /// Each slide of the marker from `p` is among the slides from `p`.
    pub proof fn lemma_moves_at_has_each_slide(self, p: (int, int), dir: Direction)
        ensures
            self.slide(p, dir) matches Some(after) ==> self.moves_at(p, 4).contains(
                ((Object::START, dir), after),
            ),
    {
        if let Some(after) = self.slide(p, dir) {
            let m = ((Object::START, dir), after);
            let one = self.moves_at(p, 1);
            let two = self.moves_at(p, 2);
            let three = self.moves_at(p, 3);
            let four = self.moves_at(p, 4);
            assert(self.moves_at(p, 0).len() == 0);
            match dir {
                Direction::North => {
                    assert(one[one.len() - 1] == m);
                    assert(two[one.len() - 1] == m);
                    assert(three[one.len() - 1] == m);
                    assert(four[one.len() - 1] == m);
                },
                Direction::South => {
                    assert(two[two.len() - 1] == m);
                    assert(three[two.len() - 1] == m);
                    assert(four[two.len() - 1] == m);
                },
                Direction::West => {
                    assert(three[three.len() - 1] == m);
                    assert(four[three.len() - 1] == m);
                },
                Direction::East => {
                    assert(four[four.len() - 1] == m);
                },
            }
        }
    }

    /// A marker that has a wall or the edge of the board on each of its four
    /// sides has no move.
    pub proof fn lemma_enclosed_marker_has_no_move(self, m: (int, int))
        requires
            self.valid(),
            self.marker_at(m),
            forall|dir: Direction|
                !in_grid(#[trigger] ahead(m, dir, 1)) || self.wall_at(ahead(m, dir, 1)),
        ensures
            self.successors().len() == 0,
    {
        self.lemma_moves_of_marker(m);
        self.lemma_moves_at(m, 4);
        if self.successors().len() > 0 {
            let dir = self.moves_at(m, 4)[0].0.1;
            assert(self.slide(m, dir) is Some);
            assert(!in_grid(ahead(m, dir, 1)) || self.wall_at(ahead(m, dir, 1)));
        }
    }

    /// Where the marker is not at the edge of the board in direction `dir`
    /// and no wall stands between it and that edge, one of the moves slides
    /// it in that direction all the way to the edge.
    pub proof fn lemma_clear_path_reaches_edge(self, m: (int, int), dir: Direction)
        requires
            self.valid(),
            self.marker_at(m),
            room(m, dir) > 0,
            forall|j: int| 1 <= j <= room(m, dir) ==> !self.wall_at(#[trigger] ahead(m, dir, j)),
        ensures
            self.successors().contains(
                ((Object::START, dir), self.moved(m, ahead(m, dir, room(m, dir)))),
            ),
    {
        self.lemma_run_is_unique(m, dir, room(m, dir) as nat);
        self.lemma_moves_of_marker(m);
        self.lemma_moves_at_has_each_slide(m, dir);
    }

    /// After a move of a board in play the marker stands on the goal if the
    /// move came to rest on the goal, and after no other move.
    pub proof fn lemma_goal_after_move(self, m: (int, int), i: int)
        requires
            self.valid(),
            self.marker_at(m),
            0 <= i < self.successors().len(),
        ensures
            self.successors()[i].1.solved() <==> self.rest(m, self.successors()[i].0.1)
                == self.end,
    {
        self.lemma_moves_of_marker(m);
        self.lemma_moves_at(m, 4);
        self.lemma_solved_after_slide(m, self.successors()[i].0.1);
    }

    /// Every move of a board in play leads to a board in play.
    pub proof fn lemma_moves_keep_valid(self, i: int)
        requires
            self.valid(),
            0 <= i < self.successors().len(),
        ensures
            self.successors()[i].1.valid(),
    {
        let m = choose|m: (int, int)| self.marker_at(m);
        self.lemma_moves_of_marker(m);
        self.lemma_moves_at(m, 4);
        self.lemma_slide_keeps_valid(m, self.successors()[i].0.1);
    }

    /// A board in play has at most four moves, one for each direction.
    pub proof fn lemma_at_most_four_moves(self)
        requires
            self.valid(),
        ensures
            self.successors().len() <= 4,
    {
        let m = choose|m: (int, int)| self.marker_at(m);
        self.lemma_moves_of_marker(m);
        self.lemma_moves_at(m, 4);
    }

    proof fn lemma_moves_from_marker_upto(self, m: (int, int), k: nat)
        requires
            self.marker_at(m),
            forall|c: (int, int)| self.marker_at(c) ==> c == m,
            k <= 25,
        ensures
            self.moves_upto(k) == if k <= cell_index(m) {
                Seq::empty()
            } else {
                self.moves_at(m, 4)
            },
        decreases k,
    {
        if k > 0 {
            let p = nth_cell(k - 1);
            self.lemma_moves_from_marker_upto(m, (k - 1) as nat);
            self.lemma_moves_at(p, 4);
            lemma_cell_order();
            if p == m {
                assert(self.moves_upto(k) =~= self.moves_at(m, 4));
            } else {
                assert(self.moves_upto(k) =~= self.moves_upto((k - 1) as nat));
            }
        }
    }
}

} // verus!
