//! The text form of a board: five lines of five characters, each line ended
//! by a line break.

use crate::board::{Board, IceRunner};
use crate::object::Object;
use crate::pos::{in_grid, lemma_cell_order, nth_cell, Pos};
use std::str::FromStr;
use vstd::prelude::*;
use vstd::std_specs::iter::IteratorSpec;
use vstd::string::*;

verus! {

/// The text does not describe a board.
#[derive(Debug, Clone, Copy, PartialEq, Eq)]
pub struct IceMazeParseError;

/// The place in a board's text of the character for the cell `c`: each row
/// takes six places, the last of them for the line break.
pub open spec fn text_index(c: (int, int)) -> int {
    c.1 * 6 + c.0
}

/// The character at place `i` of `t` is one that a board's text may hold
/// there: a line break at the end of a line, and the symbol of a cell's
/// content anywhere else.
pub open spec fn fits_at(t: Seq<char>, i: int) -> bool {
    if i % 6 == 5 {
        t[i] == '\n'
    } else {
        Object::of_symbol(t[i]) is Some
    }
}

/// The character `ch` stands at exactly one place of `t`.
pub open spec fn occurs_once(t: Seq<char>, ch: char) -> bool {
    exists|i: int|
        0 <= i < t.len() && #[trigger] t[i] == ch && forall|j: int|
            0 <= j < t.len() && #[trigger] t[j] == ch ==> j == i
}

/// The text describes a board: it has five lines of five characters, each
/// line ended by a line break and nothing after the last; every character of
/// a line stands for a cell's content; and the marker and the goal occur
/// once each.
pub open spec fn well_formed(t: Seq<char>) -> bool {
    &&& t.len() == 30
    &&& forall|i: int| 0 <= i < 30 ==> fits_at(t, i)
    &&& occurs_once(t, 'S')
    &&& occurs_once(t, 'E')
}

impl Board {
    /// This board is the one that the text `t` describes: each cell holds
    /// what its character stands for, and the goal is the cell of the `E`.
    pub open spec fn reads(self, t: Seq<char>) -> bool {
        &&& self.shaped()
        &&& forall|c: (int, int)|
            in_grid(c) ==> #[trigger] self.cells[c] == Object::of_symbol(t[text_index(c)])
        &&& t[text_index(self.end)] == 'E'
    }

    /// The text of the first `k` cells, row by row: the symbol of each cell
    /// that is set, and a line break after the last cell of each row.
    pub open spec fn text_upto(self, k: nat) -> Seq<char>
        recommends
            k <= 25,
        decreases k,
    {
        if k == 0 {
            Seq::empty()
        } else {
            let c = nth_cell(k - 1);
            let shown = match self.cells[c] {
                Some(obj) => seq![obj.symbol()],
                None => Seq::empty(),
            };
            let line_end = if c.0 == 4 {
                seq!['\n']
            } else {
                Seq::empty()
            };
            self.text_upto((k - 1) as nat) + shown + line_end
        }
    }

    /// The text of the board.
    pub open spec fn text(self) -> Seq<char> {
        self.text_upto(25)
    }
}

impl Board {
    /// The character at place `i` of the text of a board whose cells are all
    /// set.
    pub open spec fn char_at(self, i: int) -> char
        recommends
            0 <= i < 30,
            self.filled(),
    {
        if i % 6 == 5 {
            '\n'
        } else {
            self.cells[(i % 6, i / 6)]->0.symbol()
        }
    }

    proof fn lemma_text_upto(self, k: nat)
        requires
            self.filled(),
            k <= 25,
        ensures
            self.text_upto(k).len() == k + k / 5,
            forall|i: int|
                0 <= i < k + k / 5 ==> #[trigger] self.text_upto(k)[i] == self.char_at(i),
        decreases k,
    {
        if k > 0 {
            self.lemma_text_upto((k - 1) as nat);
            lemma_cell_order();
            let c = nth_cell(k - 1);
            assert(self.cells[c] is Some);
            assert(text_index(c) == (k - 1) + (k - 1) / 5);
        }
    }

    /// The text of a board whose cells are all set has five lines of six
    /// characters: the symbols of the five cells of a row, and a line break.
    pub proof fn lemma_text_of_filled_board(self)
        requires
            self.filled(),
        ensures
            self.text().len() == 30,
            forall|i: int| 0 <= i < 30 ==> #[trigger] self.text()[i] == self.char_at(i),
            forall|c: (int, int)|
                in_grid(c) ==> self.text()[#[trigger] text_index(c)] == self.cells[c]->0.symbol(),
    {
        self.lemma_text_upto(25);
        assert forall|c: (int, int)| in_grid(c) implies self.text()[#[trigger] text_index(c)]
            == self.cells[c]->0.symbol() by {
            let i = text_index(c);
            assert(self.text()[i] == self.char_at(i));
            assert((i % 6, i / 6) == c);
        }
    }

    /// A well-formed text is described by one board only.
    pub proof fn lemma_reads_one_board(self, other: Board, t: Seq<char>)
        requires
            well_formed(t),
            self.reads(t),
            other.reads(t),
        ensures
            self == other,
    {
        assert(t[text_index(self.end)] == 'E' && t[text_index(other.end)] == 'E');
        assert(self.cells =~= other.cells);
    }

    /// The board that a well-formed text describes is a board in play, with
    /// the goal still marked.
    pub proof fn lemma_reads_valid(self, t: Seq<char>)
        requires
            well_formed(t),
            self.reads(t),
        ensures
            self.valid(),
            self.filled(),
            self.cells[self.end] == Some(Object::END),
    {
        assert forall|c: (int, int)| in_grid(c) implies (#[trigger] self.cells[c]) is Some by {
            assert(fits_at(t, text_index(c)));
        }
        let s = choose|i: int|
            0 <= i < t.len() && #[trigger] t[i] == 'S' && forall|j: int|
                0 <= j < t.len() && #[trigger] t[j] == 'S' ==> j == i;
        assert(fits_at(t, s));
        let m = (s % 6, s / 6);
        assert(text_index(m) == s);
        assert(self.marker_at(m));
        assert forall|a: (int, int), b: (int, int)|
            self.marker_at(a) && self.marker_at(b) implies a == b by {
            assert(t[text_index(a)] == 'S' && t[text_index(b)] == 'S');
        }
        assert forall|c: (int, int)|
            in_grid(c) && #[trigger] self.cells[c] == Some(Object::END) implies c == self.end by {
            assert(t[text_index(c)] == 'E' && t[text_index(self.end)] == 'E');
        }
    }

    /// Writing out the board that a well-formed text describes gives the
    /// text back.
    pub proof fn lemma_round_trip(self, t: Seq<char>)
        requires
            well_formed(t),
            self.reads(t),
        ensures
            self.text() == t,
    {
        self.lemma_reads_valid(t);
        self.lemma_text_of_filled_board();
        assert forall|i: int| 0 <= i < 30 implies self.text()[i] == t[i] by {
            assert(fits_at(t, i));
            if i % 6 != 5 {
                let c = (i % 6, i / 6);
                assert(text_index(c) == i);
                assert(self.cells[c] == Object::of_symbol(t[i]));
            }
        }
        assert(self.text() =~= t);
    }

    /// The text of a board in play whose goal is still marked is well
    /// formed, and describes that board.
    pub proof fn lemma_text_reads_back(self)
        requires
            self.valid(),
            self.cells[self.end] == Some(Object::END),
        ensures
            well_formed(self.text()),
            self.reads(self.text()),
    {
        let t = self.text();
        self.lemma_text_of_filled_board();
        assert forall|i: int| 0 <= i < 30 implies fits_at(t, i) by {
            assert(t[i] == self.char_at(i));
            if i % 6 != 5 {
                assert(self.cells[(i % 6, i / 6)] is Some);
            }
        }
        assert forall|c: (int, int)| in_grid(c) implies #[trigger] self.cells[c]
            == Object::of_symbol(t[text_index(c)]) by {
            assert(self.cells[c] is Some);
        }
        let m = choose|m: (int, int)| self.marker_at(m);
        assert(t[text_index(m)] == 'S');
        assert forall|j: int| 0 <= j < t.len() && #[trigger] t[j] == 'S' implies j == text_index(
            m,
        ) by {
            assert(t[j] == self.char_at(j));
            let c = (j % 6, j / 6);
            assert(self.cells[c] is Some);
            assert(self.marker_at(c));
        }
        assert(t[text_index(self.end)] == 'E');
        assert forall|j: int| 0 <= j < t.len() && #[trigger] t[j] == 'E' implies j == text_index(
            self.end,
        ) by {
            assert(t[j] == self.char_at(j));
            let c = (j % 6, j / 6);
            assert(self.cells[c] is Some);
            assert(self.cells[c] == Some(Object::END));
        }
    }
}

/// What a scan knows when it has read the first `k` characters of `t` into
/// `board`: each of them fits its place, each cell read holds what its
/// character stands for, `start` and `end` tell whether the marker and the
/// goal have occurred, and neither has occurred twice. The marker was read
/// at place `start_at`, and the goal into the cell `board.end`.
spec fn scanned(t: Seq<char>, k: int, board: Board, start: bool, start_at: int, end: bool) -> bool {
    &&& k <= t.len()
    &&& forall|i: int| 0 <= i < k ==> fits_at(t, i)
    &&& forall|c: (int, int)|
        in_grid(c) && text_index(c) < k ==> #[trigger] board.cells[c] == Object::of_symbol(
            t[text_index(c)],
        )
    &&& start ==> 0 <= start_at < k && t[start_at] == 'S'
    &&& forall|i: int| 0 <= i < k && #[trigger] t[i] == 'S' ==> start && i == start_at
    &&& end ==> in_grid(board.end) && text_index(board.end) < k && t[text_index(board.end)] == 'E'
    &&& forall|i: int| 0 <= i < k && #[trigger] t[i] == 'E' ==> end && i == text_index(board.end)
}

impl FromStr for IceRunner {
    type Err = IceMazeParseError;

    /// Reads a board from its text. The text is scanned from its start, and
    /// the first place that does not fit ends the scan.
    fn from_str(s: &str) -> (r: Result<IceRunner, IceMazeParseError>)
        ensures
            r is Ok <==> well_formed(s@),
            r matches Ok(b) ==> b@.reads(s@) && b@.valid() && b@.text() == s@,
    {
        broadcast use vstd::string::group_string_axioms;

        let mut icemaze = IceRunner::new();
        let mut cs = s.chars();
        let mut start = false;
        let mut end = false;
        let ghost t = s@;
        let ghost mut start_at: int = 0;
        let mut y: usize = 0;
        while y < 5
            invariant
                y <= 5,
                t == s@,
                cs.remaining() == t.skip(6 * y),
                scanned(t, 6 * y, icemaze@, start, start_at, end),
            decreases 5 - y,
        {
            let mut x: usize = 0;
            while x < 5
                invariant
                    y < 5,
                    x <= 5,
                    t == s@,
                    cs.remaining() == t.skip(6 * y + x),
                    scanned(t, 6 * y + x, icemaze@, start, start_at, end),
                decreases 5 - x,
            {
                let pos = Pos::new(x, y);
                let ghost k: int = 6 * y + x;
                let obj = match cs.next() {
                    None => {
                        return Err(IceMazeParseError);
                    },
                    Some(c) => {
                        assert(c == t[k]);
                        match Object::from_char(c) {
                            None => {
                                assert(!fits_at(t, k));
                                return Err(IceMazeParseError);
                            },
                            Some(obj) => obj,
                        }
                    },
                };
                if obj.is_start() {
                    if start {
                        assert(t[start_at] == 'S' && t[k] == 'S');
                        return Err(IceMazeParseError);
                    }
                    start = true;
                    proof {
                        start_at = k;
                    }
                }
                if obj.is_end() {
                    if end {
                        assert(t[text_index(icemaze@.end)] == 'E' && t[k] == 'E');
                        return Err(IceMazeParseError);
                    }
                    end = true;
                    *icemaze.end_point_mut() = pos;
                }
                *icemaze.get_mut(pos) = Some(obj);
                x += 1;
            }
            let ghost k: int = 6 * y + 5;
            match cs.next() {
                Some('\n') => {
                    assert(t[k] == '\n');
                },
                _ => {
                    assert(k < t.len() ==> !fits_at(t, k));
                    return Err(IceMazeParseError);
                },
            }
            y += 1;
        }
        if start == false {
            return Err(IceMazeParseError);
        }
        if end == false {
            return Err(IceMazeParseError);
        }
        if cs.next().is_some() {
            return Err(IceMazeParseError);
        }
        assert(t.len() == 30);
        assert(t[start_at] == 'S');
        assert(t[text_index(icemaze@.end)] == 'E');
        proof {
            icemaze@.lemma_reads_valid(t);
            icemaze@.lemma_round_trip(t);
        }
        Ok(icemaze)
    }
}

impl IceRunner {
    /// The text of the board: the symbols of its cells row by row, with a
    /// line break after each row. A cell that is not set has no symbol.
    pub fn to_string(&self) -> (s: String)
        ensures
            s@ == self@.text(),
    {
        let mut s = String::new();
        let cells = Pos::values();
        let mut k: usize = 0;
        while k < cells.len()
            invariant
                k <= 25,
                cells@.len() == 25,
                forall|i: int| 0 <= i < 25 ==> (#[trigger] cells@[i])@ == nth_cell(i),
                s@ == self@.text_upto(k as nat),
            decreases 25 - k,
        {
            let pos = cells[k];
            match self.get(pos) {
                None => {},
                Some(obj) => {
                    let symbol = obj.to_string();
                    s.append(symbol.as_str());
                },
            }
            if pos.xy().0 == 4 {
                proof {
                    reveal_strlit("\n");
                }
                s.append("\n");
            }
            k += 1;
            assert(s@ =~= self@.text_upto(k as nat));
        }
        s
    }
}

} // verus!
