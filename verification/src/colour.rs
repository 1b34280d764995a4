use vstd::prelude::*;

verus! {

/// The two sides of a chess game.
#[derive(Debug, Clone, Copy, PartialEq, Eq, Structural)]
pub enum Colour {
    White,
    Black,
}

impl Colour {
    pub open spec fn spec_opp(self) -> Colour {
        match self {
            Colour::White => Colour::Black,
            Colour::Black => Colour::White,
        }
    }

    /// 0 for White, 1 for Black: the index of per-colour tables.
    pub open spec fn idx(self) -> int {
        match self {
            Colour::White => 0,
            Colour::Black => 1,
        }
    }

    /// The opposing side.
    pub fn opp(&self) -> (r: Colour)
        ensures
            r == self.spec_opp(),
    {
        match self {
            Colour::White => Colour::Black,
            Colour::Black => Colour::White,
        }
    }

    /// The index of per-colour tables as a machine integer.
    pub fn index(&self) -> (r: usize)
        ensures
            r as int == self.idx(),
            r < 2,
    {
        match self {
            Colour::White => 0,
            Colour::Black => 1,
        }
    }
}

} // verus!
