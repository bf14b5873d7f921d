//! The four directions in which the marker may slide.

use vstd::prelude::*;

verus! {

/// A cardinal direction on the board. North is towards row 0, West towards
/// column 0.
#[derive(Debug, Copy, Clone, PartialEq, Eq, Hash, Structural)]
pub enum Direction {
    North,
    South,
    West,
    East,
}

impl Direction {
    /// The direction that points the other way.
    pub open spec fn opposite(self) -> Direction {
        match self {
            Direction::North => Direction::South,
            Direction::South => Direction::North,
            Direction::West => Direction::East,
            Direction::East => Direction::West,
        }
    }

    /// All four directions, in the order in which moves are tried.
    pub open spec fn all() -> Seq<Direction> {
        seq![Direction::North, Direction::South, Direction::West, Direction::East]
    }

    /// The arrow that stands for this direction in a solution's text.
    pub open spec fn symbol(self) -> char {
        match self {
            Direction::North => '\u{2191}',
            Direction::South => '\u{2193}',
            Direction::West => '\u{2190}',
            Direction::East => '\u{2192}',
        }
    }

    /// The direction that points the other way.
    pub fn rev(&self) -> (r: Direction)
        ensures
            r == self.opposite(),
    {
        match self {
            Direction::North => Direction::South,
            Direction::South => Direction::North,
            Direction::West => Direction::East,
            Direction::East => Direction::West,
        }
    }

    /// All four directions: North, South, West, East.
    pub fn values() -> (r: [Direction; 4])
        ensures
            r@ == Direction::all(),
    {
        let r = [Direction::North, Direction::South, Direction::West, Direction::East];
        assert(r@ =~= Direction::all());
        r
    }

    /// The one-character text of this direction.
    pub fn to_string(&self) -> (s: String)
        ensures
            s@ == seq![self.symbol()],
    {
        let text = match self {
            Direction::North => {
                proof {
                    reveal_strlit("\u{2191}");
                }
                "\u{2191}"
            },
            Direction::South => {
                proof {
                    reveal_strlit("\u{2193}");
                }
                "\u{2193}"
            },
            Direction::West => {
                proof {
                    reveal_strlit("\u{2190}");
                }
                "\u{2190}"
            },
            Direction::East => {
                proof {
                    reveal_strlit("\u{2192}");
                }
                "\u{2192}"
            },
        };
        let s = text.to_owned();
        assert(s@ =~= seq![self.symbol()]);
        s
    }

    /// Reversing twice gives the direction back, and no direction is its own
    /// reverse.
    pub proof fn lemma_opposite_involution(d: Direction)
        ensures
            d.opposite().opposite() == d,
            d.opposite() != d,
    {
    }
}

} // verus!
