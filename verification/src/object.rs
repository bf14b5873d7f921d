//! What a cell of the board may hold.

use vstd::prelude::*;

verus! {

/// The content of one cell.
#[derive(Debug, Clone, Copy, PartialEq, Eq, Hash, Structural)]
pub enum Object {
    /// Open ice: the marker slides across it.
    ICE,
    /// An obstacle: the marker stops in front of it.
    WALL,
    /// The marker itself.
    START,
    /// The goal cell.
    END,
}

impl Object {
    /// The character that stands for this content in a board's text.
    pub open spec fn symbol(self) -> char {
        match self {
            Object::ICE => '.',
            Object::WALL => '*',
            Object::START => 'S',
            Object::END => 'E',
        }
    }

    /// The content that a character of a board's text stands for, if any.
    pub open spec fn of_symbol(c: char) -> Option<Object> {
        if c == '.' {
            Some(Object::ICE)
        } else if c == '*' {
            Some(Object::WALL)
        } else if c == 'S' {
            Some(Object::START)
        } else if c == 'E' {
            Some(Object::END)
        } else {
            None
        }
    }

    /// Each content has its own symbol, and a symbol is read back as the
    /// content that it stands for.
    pub proof fn lemma_symbol_read_back(obj: Object, c: char)
        ensures
            Object::of_symbol(obj.symbol()) == Some(obj),
            Object::of_symbol(c) == Some(obj) <==> c == obj.symbol(),
    {
    }

    /// Whether this is open ice.
    pub fn is_ice(&self) -> (r: bool)
        ensures
            r == (*self == Object::ICE),
    {
        matches!(self, Object::ICE)
    }

    /// Whether this stops the marker.
    pub fn is_obstacle(&self) -> (r: bool)
        ensures
            r == (*self == Object::WALL),
    {
        matches!(self, Object::WALL)
    }

    /// Whether this is the marker.
    pub fn is_start(&self) -> (r: bool)
        ensures
            r == (*self == Object::START),
    {
        matches!(self, Object::START)
    }

    /// Whether this marks the goal.
    pub fn is_end(&self) -> (r: bool)
        ensures
            r == (*self == Object::END),
    {
        matches!(self, Object::END)
    }

    /// Reads one character of a board's text.
    pub fn from_char(c: char) -> (r: Option<Object>)
        ensures
            r == Object::of_symbol(c),
    {
        if c == '.' {
            Some(Object::ICE)
        } else if c == '*' {
            Some(Object::WALL)
        } else if c == 'S' {
            Some(Object::START)
        } else if c == 'E' {
            Some(Object::END)
        } else {
            None
        }
    }

    /// The one-character text of this content.
    pub fn to_string(&self) -> (s: String)
        ensures
            s@ == seq![self.symbol()],
    {
        let text = match self {
            Object::ICE => {
                proof {
                    reveal_strlit(".");
                }
                "."
            },
            Object::WALL => {
                proof {
                    reveal_strlit("*");
                }
                "*"
            },
            Object::START => {
                proof {
                    reveal_strlit("S");
                }
                "S"
            },
            Object::END => {
                proof {
                    reveal_strlit("E");
                }
                "E"
            },
        };
        let s = text.to_owned();
        assert(s@ =~= seq![self.symbol()]);
        s
    }
}

} // verus!
