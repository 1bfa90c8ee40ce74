use vstd::prelude::*;

verus! {

/// A stone on the board, owned by one of the two players.
#[derive(Copy, Clone, Eq, PartialEq, Structural, Debug)]
pub enum Stone {
    Black,
    White,
}

impl Stone {
    /// Decodes the external integer code of a player: `1` is Black,
    /// `-1` is White, anything else is no player at all.
    pub fn value_of(v: i8) -> (r: Option<Stone>)
        ensures
            r == Stone::spec_value_of(v),
    {
        match v {
            1 => Some(Stone::Black),
            -1 => Some(Stone::White),
            _ => None,
        }
    }

    /// What `value_of` decodes each integer code to.
    pub open spec fn spec_value_of(v: i8) -> Option<Stone> {
        if v == 1 {
            Some(Stone::Black)
        } else if v == -1 {
            Some(Stone::White)
        } else {
            None
        }
    }

    /// The stone of the other player.
    pub fn reverse(&self) -> (r: Stone)
        ensures
            r == self.spec_reverse(),
    {
        match self {
            Stone::White => Stone::Black,
            Stone::Black => Stone::White,
        }
    }

    /// What `reverse` returns: Black and White swap.
    pub open spec fn spec_reverse(self) -> Stone {
        match self {
            Stone::White => Stone::Black,
            Stone::Black => Stone::White,
        }
    }

    /// The glyph used when rendering a board cell.
    pub fn to_string(&self) -> (r: &'static str)
        ensures
            self == Stone::Black ==> r@ == "\u{25cf}"@,
            self == Stone::White ==> r@ == "\u{25cb}"@,
    {
        match self {
            Stone::Black => "\u{25cf}",
            Stone::White => "\u{25cb}",
        }
    }
}

} // verus!
