//! The closed set of piece kinds crossed with the two colors.

use vstd::prelude::*;

verus! {

/// The two sides of a chess game.
#[derive(Clone, Copy, Debug, PartialEq, Eq, Structural)]
pub enum Color {
    White,
    Black,
}

impl Color {
    /// The color of the opposing side.
    pub open spec fn spec_other(self) -> Color {
        match self {
            Color::White => Color::Black,
            Color::Black => Color::White,
        }
    }

    /// Returns the color of the opposing side.
    pub fn other(self) -> (c: Color)
        ensures
            c == self.spec_other(),
    {
        match self {
            Color::White => Color::Black,
            Color::Black => Color::White,
        }
    }
}

/// A chess piece: one of six kinds, each carrying the color of its side.
#[derive(Clone, Copy, Debug, PartialEq, Eq, Structural)]
pub enum Piece {
    Pawn(Color),
    Knight(Color),
    Bishop(Color),
    Rook(Color),
    Queen(Color),
    King(Color),
}

impl Piece {
    /// The color of the side the piece belongs to.
    pub open spec fn color(self) -> Color {
        match self {
            Piece::Pawn(c) => c,
            Piece::Knight(c) => c,
            Piece::Bishop(c) => c,
            Piece::Rook(c) => c,
            Piece::Queen(c) => c,
            Piece::King(c) => c,
        }
    }

    /// True exactly for the pieces whose moves extend along rays.
    pub open spec fn spec_is_slider(self) -> bool {
        match self {
            Piece::Bishop(_) | Piece::Rook(_) | Piece::Queen(_) => true,
            _ => false,
        }
    }

    /// Returns the color of the side the piece belongs to.
    pub fn get_color(self) -> (c: Color)
        ensures
            c == self.color(),
    {
        match self {
            Piece::Pawn(c) => c,
            Piece::Knight(c) => c,
            Piece::Bishop(c) => c,
            Piece::Rook(c) => c,
            Piece::Queen(c) => c,
            Piece::King(c) => c,
        }
    }

    /// Returns `true` if the piece is a slider, meaning its moves have _infinite_ range.
    pub fn is_slider(self) -> (r: bool)
        ensures
            r == self.spec_is_slider(),
    {
        match self {
            Piece::Bishop(_) | Piece::Rook(_) | Piece::Queen(_) => true,
            _ => false,
        }
    }
}

} // verus!
