//! Error values reported by the notation and FEN layers.

use vstd::prelude::*;

verus! {

/// A recoverable error from parsing algebraic or FEN text.
///
/// Notation errors identify the offending character and which coordinate was
/// expected; FEN errors distinguish a structurally missing field from
/// malformed content inside a field.
#[derive(Clone, Copy, Debug, PartialEq, Eq, Structural)]
pub enum ParseError {
    /// A file coordinate other than the letters `a` through `h` (either case).
    UnknownFile(char),
    /// A rank coordinate other than the digits `1` through `8`.
    UnknownRank(char),
    /// Square or move text of the wrong length.
    InvalidLength,
    /// A move whose origin and target square are the same.
    NullMove,
    /// The FEN field with this number (1 through 6) is absent.
    MissingField(u8),
    /// A character in the FEN piece-placement field that is no piece letter,
    /// digit or rank separator.
    UnrecognizedSymbol(char),
    /// A character that is out of place in the FEN field with this number.
    UnexpectedSymbol(char, u8),
    /// A FEN piece-placement field that runs past the bounds of the board.
    PlacementOverflow,
    /// The FEN field with this number is not an unsigned 32-bit integer.
    InvalidNumber(u8),
}

/// An error from a board operation.
#[derive(Clone, Copy, Debug, PartialEq, Eq, Structural)]
pub enum EngineError {
    /// The operation is a defined extension point that has no algorithm yet;
    /// it fails loudly instead of returning a silently wrong result.
    NotImplemented,
}

} // verus!
