use vstd::prelude::*;

verus! {

/// Player color.
#[derive(Debug, Clone, Copy, PartialEq, Eq, Hash, Structural)]
pub enum Color {
    White,
    Black,
}

impl Color {
    pub open spec fn spec_flip(self) -> Color {
        match self {
            Color::White => Color::Black,
            Color::Black => Color::White,
        }
    }

    /// The other color.
    #[verifier::when_used_as_spec(spec_flip)]
    pub fn flip(self) -> (r: Color)
        ensures
            r == self.spec_flip(),
    {
        match self {
            Color::White => Color::Black,
            Color::Black => Color::White,
        }
    }
}

/// Kind of piece.
#[derive(Debug, Clone, Copy, PartialEq, Eq, Hash, Structural)]
pub enum PieceKind {
    Migo,
    Yugo,
}

/// A piece on the board.
#[derive(Debug, Clone, Copy, PartialEq, Eq, Hash, Structural)]
pub struct Piece {
    pub kind: PieceKind,
    pub color: Color,
}

impl Piece {
    /// A piece of the given kind and color.
    pub fn new(kind: PieceKind, color: Color) -> (r: Piece)
        ensures
            r == (Piece { kind, color }),
    {
        Piece { kind, color }
    }
}

} // verus!
