//! The board: twelve piece bitboards kept consistent with a 64-square
//! mailbox, plus the side to move, castling rights and en-passant target.
//!
//! The least significant bit of each bitboard represents the `a1` square and
//! the most significant bit the `h8` square: square index `rank * 8 + file`
//! corresponds to bit `rank * 8 + file`.

use vstd::prelude::*;
use vstd::string::StrSliceExecFns;

use crate::bits::{bit64, exactly_one_bit, lemma_bit_or, lemma_bit_and, lemma_bit_xor,
    lemma_bit_single, lemma_bit_zero, lemma_bit_ext, lemma_single_bit_value, lemma_two_bits,
    lemma_nonzero_has_bit, lemma_disjoint_iff};
use crate::castle::CastleRights;
use crate::errors::ParseError;
use crate::piece::{Color, Piece};

verus! {

broadcast use vstd::array::group_array_axioms;

/// A square of the board, indexed 0 (`a1`) through 63 (`h8`).
#[derive(Clone, Copy, Debug, PartialEq, Eq, Structural)]
pub struct Square {
    pub index: u8,
}

/// An ordered pair of origin and target square.
#[derive(Clone, Copy, Debug, PartialEq, Eq, Structural)]
pub struct Move {
    pub origin: Square,
    pub target: Square,
}

/// The file index encoded by a letter of algebraic notation, if any.
pub open spec fn file_of_char(c: char) -> Option<u8> {
    if c == 'a' || c == 'A' {
        Some(0u8)
    } else if c == 'b' || c == 'B' {
        Some(1u8)
    } else if c == 'c' || c == 'C' {
        Some(2u8)
    } else if c == 'd' || c == 'D' {
        Some(3u8)
    } else if c == 'e' || c == 'E' {
        Some(4u8)
    } else if c == 'f' || c == 'F' {
        Some(5u8)
    } else if c == 'g' || c == 'G' {
        Some(6u8)
    } else if c == 'h' || c == 'H' {
        Some(7u8)
    } else {
        None
    }
}

/// The rank index encoded by a digit of algebraic notation, if any.
pub open spec fn rank_of_char(c: char) -> Option<u8> {
    if c == '1' {
        Some(0u8)
    } else if c == '2' {
        Some(1u8)
    } else if c == '3' {
        Some(2u8)
    } else if c == '4' {
        Some(3u8)
    } else if c == '5' {
        Some(4u8)
    } else if c == '6' {
        Some(5u8)
    } else if c == '7' {
        Some(6u8)
    } else if c == '8' {
        Some(7u8)
    } else {
        None
    }
}

/// The square encoded by a file letter and a rank digit, or the error
/// naming whichever coordinate is invalid (the file is checked first).
pub open spec fn spec_square_of_chars(a: char, b: char) -> Result<Square, ParseError> {
    match (file_of_char(a), rank_of_char(b)) {
        (None, _) => Err(ParseError::UnknownFile(a)),
        (Some(_), None) => Err(ParseError::UnknownRank(b)),
        (Some(f), Some(r)) => Ok(Square { index: (r * 8 + f) as u8 }),
    }
}

/// What `Square::from_notation` returns for any text.
pub open spec fn spec_parse_square(s: Seq<char>) -> Result<Square, ParseError> {
    if s.len() != 2 {
        Err(ParseError::InvalidLength)
    } else {
        spec_square_of_chars(s[0], s[1])
    }
}

/// What `Move::from_notation` returns for any text.
pub open spec fn spec_parse_move(s: Seq<char>) -> Result<Move, ParseError> {
    if s.len() != 4 {
        Err(ParseError::InvalidLength)
    } else {
        match spec_square_of_chars(s[0], s[1]) {
            Err(e) => Err(e),
            Ok(origin) => match spec_square_of_chars(s[2], s[3]) {
                Err(e) => Err(e),
                Ok(target) => if origin == target {
                    Err(ParseError::NullMove)
                } else {
                    Ok(Move { origin, target })
                },
            },
        }
    }
}

/// Returns the file index for a letter of algebraic notation.
pub(crate) fn file_of(c: char) -> (r: Option<u8>)
    ensures
        r == file_of_char(c),
{
    match c {
        'a' | 'A' => Some(0),
        'b' | 'B' => Some(1),
        'c' | 'C' => Some(2),
        'd' | 'D' => Some(3),
        'e' | 'E' => Some(4),
        'f' | 'F' => Some(5),
        'g' | 'G' => Some(6),
        'h' | 'H' => Some(7),
        _ => None,
    }
}

/// Returns the rank index for a digit of algebraic notation.
pub(crate) fn rank_of(c: char) -> (r: Option<u8>)
    ensures
        r == rank_of_char(c),
{
    match c {
        '1' => Some(0),
        '2' => Some(1),
        '3' => Some(2),
        '4' => Some(3),
        '5' => Some(4),
        '6' => Some(5),
        '7' => Some(6),
        '8' => Some(7),
        _ => None,
    }
}

/// Decodes a file letter and a rank digit into a square.
pub(crate) fn square_of_chars(a: char, b: char) -> (r: Result<Square, ParseError>)
    ensures
        r == spec_square_of_chars(a, b),
{
    match file_of(a) {
        None => Err(ParseError::UnknownFile(a)),
        Some(f) => match rank_of(b) {
            None => Err(ParseError::UnknownRank(b)),
            Some(r) => Ok(Square { index: r * 8 + f }),
        },
    }
}

impl Square {
    /// True when the index lies on the board.
    pub open spec fn wf(self) -> bool {
        self.index < 64
    }

    /// Constructs a `Square` from the given string interpreted as algebraic notation.
    ///
    /// The board representation maps "a1" to the square with index 0 and "h8"
    /// to the one with index 63. Exactly one file letter (either case) and one
    /// rank digit are accepted.
    pub fn from_notation(text: &str) -> (r: Result<Self, ParseError>)
        ensures
            r == spec_parse_square(text@),
            r matches Ok(sq) ==> sq.wf(),
    {
        if text.unicode_len() != 2 {
            return Err(ParseError::InvalidLength);
        }
        let a = text.get_char(0);
        let b = text.get_char(1);
        square_of_chars(a, b)
    }

    /// Returns the row index (rank) of the square.
    pub fn get_rank(&self) -> (r: usize)
        ensures
            r == self.index as int / 8,
    {
        (self.index / 8) as usize
    }

    /// Returns the column index (file) of the square.
    pub fn get_file(&self) -> (r: usize)
        ensures
            r == self.index as int % 8,
    {
        (self.index % 8) as usize
    }
}

impl Move {
    /// True when both squares lie on the board.
    pub open spec fn wf(self) -> bool {
        self.origin.wf() && self.target.wf()
    }

    /// Constructs a `Move` from a string of text.
    ///
    /// The notation used expects 4 characters: the first two represent the
    /// square from which the piece is moving, and the last two the target
    /// square. For example, "e2e4" is one of the most common opening moves
    /// for white. A move whose two squares are equal is rejected.
    pub fn from_notation(text: &str) -> (r: Result<Self, ParseError>)
        ensures
            r == spec_parse_move(text@),
            r matches Ok(m) ==> m.wf() && m.origin != m.target,
    {
        if text.unicode_len() != 4 {
            return Err(ParseError::InvalidLength);
        }
        let origin = match square_of_chars(text.get_char(0), text.get_char(1)) {
            Ok(sq) => sq,
            Err(e) => {
                return Err(e);
            },
        };
        let target = match square_of_chars(text.get_char(2), text.get_char(3)) {
            Ok(sq) => sq,
            Err(e) => {
                return Err(e);
            },
        };
        if origin == target {
            return Err(ParseError::NullMove);
        }
        Ok(Move { origin, target })
    }

    /// Constructs a `Move` from two indices.
    ///
    /// The caller is responsible for handing in distinct indices that lie on
    /// the board; the move generator uses this constructor directly.
    pub fn from_indices(origin: usize, target: usize) -> (m: Self)
        requires
            origin < 64,
            target < 64,
            origin != target,
        ensures
            m.origin.index == origin,
            m.target.index == target,
            m.wf(),
            m.origin != m.target,
    {
        Move { origin: Square { index: origin as u8 }, target: Square { index: target as u8 } }
    }
}

/// The position a bitboard occupies in the board's array of twelve: white
/// pieces come first, each color ordered pawn, knight, bishop, rook, queen,
/// king.
pub open spec fn piece_index(p: Piece) -> int {
    match p {
        Piece::Pawn(Color::White) => 0,
        Piece::Knight(Color::White) => 1,
        Piece::Bishop(Color::White) => 2,
        Piece::Rook(Color::White) => 3,
        Piece::Queen(Color::White) => 4,
        Piece::King(Color::White) => 5,
        Piece::Pawn(Color::Black) => 6,
        Piece::Knight(Color::Black) => 7,
        Piece::Bishop(Color::Black) => 8,
        Piece::Rook(Color::Black) => 9,
        Piece::Queen(Color::Black) => 10,
        Piece::King(Color::Black) => 11,
    }
}

/// The piece whose bitboard sits at position `k`; inverse of `piece_index`.
pub open spec fn index_piece(k: int) -> Piece {
    if k == 0 {
        Piece::Pawn(Color::White)
    } else if k == 1 {
        Piece::Knight(Color::White)
    } else if k == 2 {
        Piece::Bishop(Color::White)
    } else if k == 3 {
        Piece::Rook(Color::White)
    } else if k == 4 {
        Piece::Queen(Color::White)
    } else if k == 5 {
        Piece::King(Color::White)
    } else if k == 6 {
        Piece::Pawn(Color::Black)
    } else if k == 7 {
        Piece::Knight(Color::Black)
    } else if k == 8 {
        Piece::Bishop(Color::Black)
    } else if k == 9 {
        Piece::Rook(Color::Black)
    } else if k == 10 {
        Piece::Queen(Color::Black)
    } else {
        Piece::King(Color::Black)
    }
}

/// `piece_index` and `index_piece` are mutually inverse.
pub proof fn lemma_piece_index_inverse(p: Piece)
    ensures
        0 <= piece_index(p) < 12,
        index_piece(piece_index(p)) == p,
{
}

/// The occupant of square `i` in the standard starting arrangement.
pub open spec fn starting_square(i: int) -> Option<Piece> {
    if i == 0 || i == 7 {
        Some(Piece::Rook(Color::White))
    } else if i == 1 || i == 6 {
        Some(Piece::Knight(Color::White))
    } else if i == 2 || i == 5 {
        Some(Piece::Bishop(Color::White))
    } else if i == 3 {
        Some(Piece::Queen(Color::White))
    } else if i == 4 {
        Some(Piece::King(Color::White))
    } else if 8 <= i < 16 {
        Some(Piece::Pawn(Color::White))
    } else if 48 <= i < 56 {
        Some(Piece::Pawn(Color::Black))
    } else if i == 56 || i == 63 {
        Some(Piece::Rook(Color::Black))
    } else if i == 57 || i == 62 {
        Some(Piece::Knight(Color::Black))
    } else if i == 58 || i == 61 {
        Some(Piece::Bishop(Color::Black))
    } else if i == 59 {
        Some(Piece::Queen(Color::Black))
    } else if i == 60 {
        Some(Piece::King(Color::Black))
    } else {
        None
    }
}

/// The standard starting arrangement as a mailbox.
pub open spec fn starting_mailbox() -> Seq<Option<Piece>> {
    Seq::new(64, |i: int| starting_square(i))
}

/// The union of the first `n` bitboards.
pub open spec fn or_upto(bbs: Seq<u64>, n: int) -> u64
    decreases n,
{
    if n <= 0 {
        0u64
    } else {
        or_upto(bbs, n - 1) | bbs[n - 1]
    }
}

/// The board, in its dual representation.
#[derive(Clone, Debug, PartialEq)]
pub struct Board {
    piece_bitboards: [u64; 12],
    color_to_move: Color,
    castling_rights: CastleRights,
    en_passant_square: Option<usize>,
    squares: [Option<Piece>; 64],
}

impl Board {
    /// The mailbox: the occupant of every square, from `a1` to `h8`.
    pub closed spec fn mailbox(self) -> Seq<Option<Piece>> {
        self.squares@
    }

    /// The twelve piece bitboards, indexed by `piece_index`.
    pub closed spec fn bitboards(self) -> Seq<u64> {
        self.piece_bitboards@
    }

    /// The color whose turn it is to play.
    pub closed spec fn turn(self) -> Color {
        self.color_to_move
    }

    /// The castling rights of the position.
    pub closed spec fn castling(self) -> CastleRights {
        self.castling_rights
    }

    /// The en-passant target square of the position, if any.
    pub closed spec fn en_passant(self) -> Option<usize> {
        self.en_passant_square
    }

    /// Well-formedness: the two representations agree. Bit `i` of bitboard
    /// `k` is set exactly when square `i` holds the piece of index `k`; this
    /// makes the bitboards pairwise disjoint and complete.
    pub open spec fn wf(self) -> bool {
        &&& self.mailbox().len() == 64
        &&& self.bitboards().len() == 12
        &&& forall|k: int, i: u64|
            0 <= k < 12 && i < 64 ==> (#[trigger] bit64(self.bitboards()[k], i)
                <==> self.mailbox()[i as int] == Some(index_piece(k)))
    }

    /// The union of all twelve bitboards.
    pub open spec fn spec_occupancy(self) -> u64 {
        or_upto(self.bitboards(), 12)
    }

    /// No square is claimed by two bitboards.
    pub open spec fn pairwise_disjoint(self) -> bool {
        forall|k: int, l: int|
            #![trigger self.bitboards()[k], self.bitboards()[l]]
            0 <= k < l < 12 ==> self.bitboards()[k] & self.bitboards()[l] == 0
    }

    /// What `is_valid` checks: the bitboards are pairwise disjoint and each
    /// color has exactly one king.
    pub open spec fn spec_is_valid(self) -> bool {
        &&& self.pairwise_disjoint()
        &&& exactly_one_bit(self.bitboards()[5])
        &&& exactly_one_bit(self.bitboards()[11])
    }

    /// Whether the position allows `mov` to mutate the board: the move is no
    /// null move, its origin is occupied, and its target does not hold a
    /// piece of the mover's own color.
    pub open spec fn spec_move_allowed(self, mov: Move) -> bool {
        &&& mov.origin != mov.target
        &&& self.mailbox()[mov.origin.index as int] matches Some(po) && (self.mailbox()[
        mov.target.index as int] matches Some(pt) ==> po.color() != pt.color())
    }

    /// Builds the board whose mailbox is `squares`, deriving the bitboards
    /// by setting, for each occupied square, the corresponding bit in the
    /// matching piece's bitboard.
    pub fn from_array(
        squares: [Option<Piece>; 64],
        castling_rights: CastleRights,
        color_to_move: Color,
        en_passant_square: Option<usize>,
    ) -> (b: Board)
        ensures
            b.wf(),
            b.mailbox() == squares@,
            b.castling() == castling_rights,
            b.turn() == color_to_move,
            b.en_passant() == en_passant_square,
    {
        let mut piece_bitboards: [u64; 12] = [0u64; 12];
        proof {
            assert forall|k: int, i: u64| 0 <= k < 12 && i < 64 implies !(#[trigger] bit64(
                piece_bitboards@[k],
                i,
            )) by {
                lemma_bit_zero(i);
            }
        }
        for index in 0..64
            invariant
                piece_bitboards@.len() == 12,
                forall|k: int, i: u64|
                    0 <= k < 12 && i < 64 ==> (#[trigger] bit64(piece_bitboards@[k], i)
                        <==> (i < index as u64 && squares@[i as int] == Some(index_piece(k)))),
        {
            if let Some(piece) = squares[index] {
                let k = Self::bitboard_index(piece);
                let ghost before = piece_bitboards@;
                piece_bitboards[k] = piece_bitboards[k] | (1u64 << (index as u64));
                proof {
                    lemma_piece_index_inverse(piece);
                    assert forall|k2: int, i: u64| 0 <= k2 < 12 && i < 64 implies (#[trigger] bit64(
                        piece_bitboards@[k2],
                        i,
                    ) <==> (i < index as u64 + 1 && squares@[i as int] == Some(index_piece(k2)))) by {
                        if k2 == k as int {
                            lemma_bit_or(before[k2], 1u64 << (index as u64), i);
                            lemma_bit_single(index as u64, i);
                        }
                    }
                }
            } else {
                proof {
                    assert forall|k2: int, i: u64| 0 <= k2 < 12 && i < 64 implies (#[trigger] bit64(
                        piece_bitboards@[k2],
                        i,
                    ) <==> (i < index as u64 + 1 && squares@[i as int] == Some(index_piece(k2)))) by {}
                }
            }
        }
        Board { piece_bitboards, color_to_move, castling_rights, en_passant_square, squares }
    }

    /// Constructs a new `Board` with the standard piece arrangement, white
    /// to move, full castling rights and no en-passant target.
    pub fn new() -> (b: Self)
        ensures
            b.wf(),
            b.mailbox() == starting_mailbox(),
            b.turn() == Color::White,
            b.castling().bits() == 0x0f,
            b.en_passant() is None,
            b.spec_is_valid(),
    {
        let mut squares: [Option<Piece>; 64] = [None; 64];
        squares[0] = Some(Piece::Rook(Color::White));
        squares[1] = Some(Piece::Knight(Color::White));
        squares[2] = Some(Piece::Bishop(Color::White));
        squares[3] = Some(Piece::Queen(Color::White));
        squares[4] = Some(Piece::King(Color::White));
        squares[5] = Some(Piece::Bishop(Color::White));
        squares[6] = Some(Piece::Knight(Color::White));
        squares[7] = Some(Piece::Rook(Color::White));
        for i in 8..16
            invariant
                squares@.len() == 64,
                forall|j: int| 0 <= j < i ==> squares@[j] == starting_square(j),
                forall|j: int| i <= j < 64 ==> squares@[j] is None,
        {
            squares[i] = Some(Piece::Pawn(Color::White));
        }
        for i in 48..56
            invariant
                squares@.len() == 64,
                forall|j: int| 0 <= j < 16 ==> squares@[j] == starting_square(j),
                forall|j: int| 48 <= j < i ==> squares@[j] == starting_square(j),
                forall|j: int| 16 <= j < 48 ==> squares@[j] is None,
                forall|j: int| i <= j < 64 ==> squares@[j] is None,
        {
            squares[i] = Some(Piece::Pawn(Color::Black));
        }
        squares[56] = Some(Piece::Rook(Color::Black));
        squares[57] = Some(Piece::Knight(Color::Black));
        squares[58] = Some(Piece::Bishop(Color::Black));
        squares[59] = Some(Piece::Queen(Color::Black));
        squares[60] = Some(Piece::King(Color::Black));
        squares[61] = Some(Piece::Bishop(Color::Black));
        squares[62] = Some(Piece::Knight(Color::Black));
        squares[63] = Some(Piece::Rook(Color::Black));
        proof {
            assert(squares@ =~= starting_mailbox());
        }
        let b = Self::from_array(squares, CastleRights::all(), Color::White, None);
        proof {
            lemma_starting_board_valid(b);
        }
        b
    }

    /// Constructs a new empty `Board`: no pieces, white to move, no castling
    /// rights, no en-passant target.
    pub fn empty() -> (b: Self)
        ensures
            b.wf(),
            b.mailbox().len() == 64,
            forall|i: int| 0 <= i < 64 ==> b.mailbox()[i] is None,
            b.turn() == Color::White,
            b.castling().bits() == 0x00,
            b.en_passant() is None,
    {
        let squares: [Option<Piece>; 64] = [None; 64];
        Self::from_array(squares, CastleRights::no_rights(), Color::White, None)
    }

    /// The position of the bitboard that tracks `piece`.
    fn bitboard_index(piece: Piece) -> (k: usize)
        ensures
            k == piece_index(piece),
    {
        match piece {
            Piece::Pawn(Color::White) => 0,
            Piece::Knight(Color::White) => 1,
            Piece::Bishop(Color::White) => 2,
            Piece::Rook(Color::White) => 3,
            Piece::Queen(Color::White) => 4,
            Piece::King(Color::White) => 5,
            Piece::Pawn(Color::Black) => 6,
            Piece::Knight(Color::Black) => 7,
            Piece::Bishop(Color::Black) => 8,
            Piece::Rook(Color::Black) => 9,
            Piece::Queen(Color::Black) => 10,
            Piece::King(Color::Black) => 11,
        }
    }

    /// Returns the bitboard for `piece`.
    ///
    /// These bitboards contain the position of each kind of piece on the board.
    pub fn get_bitboard(&self, piece: Piece) -> (r: u64)
        ensures
            r == self.bitboards()[piece_index(piece)],
    {
        proof {
            lemma_piece_index_inverse(piece);
        }
        self.piece_bitboards[Self::bitboard_index(piece)]
    }

    /// Returns an array of `Option<Piece>` that represents the squares of the board.
    pub fn piece_array(&self) -> (r: &[Option<Piece>; 64])
        ensures
            r@ == self.mailbox(),
    {
        &self.squares
    }

    /// Returns the bitboard resulting from the union of all the piece bitboards.
    ///
    /// The occupancy is the set of all squares occupied by any piece; its
    /// complement is the set of all empty squares.
    pub fn occupancy(&self) -> (r: u64)
        ensures
            r == self.spec_occupancy(),
    {
        let mut acc: u64 = 0;
        for k in 0..12
            invariant
                acc == or_upto(self.bitboards(), k as int),
        {
            acc = acc | self.piece_bitboards[k];
        }
        acc
    }

    /// Checks whether the internal representation of the board is in a valid
    /// state: no two piece bitboards claim the same square, and each color
    /// has exactly one king.
    ///
    /// This function is meant for diagnostics and testing; a board built by
    /// the public constructors satisfies the disjointness half by
    /// construction.
    pub fn is_valid(&self) -> (r: bool)
        ensures
            r == self.spec_is_valid(),
    {
        for k in 0..12
            invariant
                forall|k1: int, l1: int|
                    #![trigger self.bitboards()[k1], self.bitboards()[l1]]
                    0 <= k1 < l1 < 12 && k1 < k ==> self.bitboards()[k1] & self.bitboards()[l1]
                        == 0,
        {
            for l in (k + 1)..12
                invariant
                    k < 12,
                    forall|k1: int, l1: int|
                        #![trigger self.bitboards()[k1], self.bitboards()[l1]]
                        0 <= k1 < l1 < 12 && k1 < k ==> self.bitboards()[k1] & self.bitboards()[l1]
                            == 0,
                    forall|l1: int|
                        k < l1 < l ==> self.bitboards()[k as int] & #[trigger] self.bitboards()[l1]
                            == 0,
            {
                if self.piece_bitboards[k] & self.piece_bitboards[l] != 0 {
                    return false;
                }
            }
        }
        let unique_kings = crate::bits::only_one(self.get_bitboard(Piece::King(Color::White)))
            && crate::bits::only_one(self.get_bitboard(Piece::King(Color::Black)));
        unique_kings
    }

    /// Returns the occupant of the square with the given index.
    ///
    /// The index's bit is tested against the twelve bitboards in a fixed
    /// order; under well-formedness at most one of them can match, so the
    /// result is the mailbox entry for that square.
    pub fn at(&self, index: usize) -> (r: Option<Piece>)
        requires
            self.wf(),
            index < 64,
        ensures
            r == self.mailbox()[index as int],
    {
        let mask: u64 = 1u64 << (index as u64);
        proof {
            assert forall|k: int| 0 <= k < 12 implies ((mask & (#[trigger] self.bitboards()[k]) > 0) == bit64(
                self.bitboards()[k],
                index as u64,
            )) by {
                crate::bits::lemma_and_comm(mask, self.bitboards()[k]);
            }
        }
        let r = if mask & self.get_bitboard(Piece::Pawn(Color::White)) > 0 {
            Some(Piece::Pawn(Color::White))
        } else if mask & self.get_bitboard(Piece::Knight(Color::White)) > 0 {
            Some(Piece::Knight(Color::White))
        } else if mask & self.get_bitboard(Piece::Bishop(Color::White)) > 0 {
            Some(Piece::Bishop(Color::White))
        } else if mask & self.get_bitboard(Piece::Rook(Color::White)) > 0 {
            Some(Piece::Rook(Color::White))
        } else if mask & self.get_bitboard(Piece::Queen(Color::White)) > 0 {
            Some(Piece::Queen(Color::White))
        } else if mask & self.get_bitboard(Piece::King(Color::White)) > 0 {
            Some(Piece::King(Color::White))
        } else if mask & self.get_bitboard(Piece::Pawn(Color::Black)) > 0 {
            Some(Piece::Pawn(Color::Black))
        } else if mask & self.get_bitboard(Piece::Knight(Color::Black)) > 0 {
            Some(Piece::Knight(Color::Black))
        } else if mask & self.get_bitboard(Piece::Bishop(Color::Black)) > 0 {
            Some(Piece::Bishop(Color::Black))
        } else if mask & self.get_bitboard(Piece::Rook(Color::Black)) > 0 {
            Some(Piece::Rook(Color::Black))
        } else if mask & self.get_bitboard(Piece::Queen(Color::Black)) > 0 {
            Some(Piece::Queen(Color::Black))
        } else if mask & self.get_bitboard(Piece::King(Color::Black)) > 0 {
            Some(Piece::King(Color::Black))
        } else {
            proof {
                if let Some(p) = self.mailbox()[index as int] {
                    lemma_piece_index_inverse(p);
                }
            }
            None
        };
        r
    }

    /// Returns the color of the pieces whose turn it is to play.
    pub fn color_to_move(&self) -> (c: Color)
        ensures
            c == self.turn(),
    {
        self.color_to_move
    }

    /// Returns `true` if the `color` pieces have the right to castle kingside.
    pub fn can_castle_kingside(&self, color: Color) -> (r: bool)
        ensures
            r == match color {
                Color::White => self.castling().has_white_ks(),
                Color::Black => self.castling().has_black_ks(),
            },
    {
        match color {
            Color::White => self.castling_rights.contains(CastleRights::white_ks()),
            Color::Black => self.castling_rights.contains(CastleRights::black_ks()),
        }
    }

    /// Returns `true` if the `color` pieces have the right to castle queenside.
    pub fn can_castle_queenside(&self, color: Color) -> (r: bool)
        ensures
            r == match color {
                Color::White => self.castling().has_white_qs(),
                Color::Black => self.castling().has_black_qs(),
            },
    {
        match color {
            Color::White => self.castling_rights.contains(CastleRights::white_qs()),
            Color::Black => self.castling_rights.contains(CastleRights::black_qs()),
        }
    }

    /// Applies a move and returns `true` if the move updated the state of
    /// the board.
    ///
    /// A null move, an empty origin square or a target square holding a
    /// piece of the mover's own color leave the board untouched and report
    /// `false`. Otherwise the piece on the origin moves to the target,
    /// capturing whatever stood there, and the turn passes to the other
    /// color. No legality checking beyond these occupancy rules is
    /// performed.
    pub fn make_move(&mut self, mov: Move) -> (r: bool)
        requires
            old(self).wf(),
            mov.wf(),
        ensures
            r == old(self).spec_move_allowed(mov),
            !r ==> *final(self) == *old(self),
            r ==> final(self).wf(),
            r ==> (old(self).mailbox()[mov.origin.index as int] matches Some(po)
                && final(self).mailbox() == old(self).mailbox().update(
                mov.origin.index as int,
                None,
            ).update(mov.target.index as int, Some(po))),
            r ==> final(self).turn() == old(self).turn().spec_other(),
            final(self).castling() == old(self).castling(),
            final(self).en_passant() == old(self).en_passant(),
    {
        if mov.origin == mov.target {
            return false;
        }
        let origin = mov.origin.index as usize;
        let target = mov.target.index as usize;
        let piece_o = match self.at(origin) {
            Some(p) => p,
            None => {
                return false;
            },
        };
        let ko = Self::bitboard_index(piece_o);
        proof {
            lemma_piece_index_inverse(piece_o);
        }
        if let Some(piece_t) = self.at(target) {
            if piece_o.get_color() == piece_t.get_color() {
                return false;
            }
            let kt = Self::bitboard_index(piece_t);
            proof {
                lemma_piece_index_inverse(piece_t);
                assert(piece_o != piece_t);
            }
            let ghost prev = *self;
            self.piece_bitboards[ko] = self.piece_bitboards[ko] ^ ((1u64 << (origin as u64)) | (
            1u64 << (target as u64)));
            self.piece_bitboards[kt] = self.piece_bitboards[kt] ^ (1u64 << (target as u64));
            self.squares[origin] = None;
            self.squares[target] = Some(piece_o);
            proof {
                lemma_move_wf(prev, *self, origin as int, target as int, piece_o, Some(piece_t));
            }
        } else {
            let ghost prev = *self;
            self.piece_bitboards[ko] = self.piece_bitboards[ko] ^ ((1u64 << (origin as u64)) | (
            1u64 << (target as u64)));
            self.squares[origin] = None;
            self.squares[target] = Some(piece_o);
            proof {
                lemma_move_wf(prev, *self, origin as int, target as int, piece_o, None);
            }
        }
        self.color_to_move = self.color_to_move.other();
        true
    }

    /// Returns all 64 squares of the board in increasing index order,
    /// equivalent to querying `at` for every index from 0 to 63.
    pub fn iter(&self) -> (r: Vec<Option<Piece>>)
        requires
            self.wf(),
        ensures
            r@ == self.mailbox(),
    {
        let mut r: Vec<Option<Piece>> = Vec::new();
        for index in 0..64
            invariant
                self.wf(),
                r@ == self.mailbox().subrange(0, index as int),
        {
            r.push(self.at(index));
            proof {
                assert(r@ =~= self.mailbox().subrange(0, index as int + 1));
            }
        }
        proof {
            assert(self.mailbox().subrange(0, 64) =~= self.mailbox());
        }
        r
    }

    /// Computes the fully legal moves of the piece on the square with the
    /// given index. Legality filtering (checks, pins) has no algorithm yet;
    /// the operation is a defined extension point that reports its absence
    /// loudly.
    pub fn compute_legal_moves_for(&self, index: usize) -> (r: Result<
        Vec<Move>,
        crate::errors::EngineError,
    >)
        ensures
            r matches Err(e) && e == crate::errors::EngineError::NotImplemented,
    {
        let _ = index;
        Err(crate::errors::EngineError::NotImplemented)
    }

    /// Computes the fully legal moves of the given color. Legality
    /// filtering (checks, pins) has no algorithm yet; the operation is a
    /// defined extension point that reports its absence loudly.
    pub fn get_legal_moves(&self, color_to_move: Color) -> (r: Result<
        Vec<Move>,
        crate::errors::EngineError,
    >)
        ensures
            r matches Err(e) && e == crate::errors::EngineError::NotImplemented,
    {
        let _ = color_to_move;
        Err(crate::errors::EngineError::NotImplemented)
    }

    /// Reverses a previously applied move, restoring the prior occupants and
    /// the turn. Undoing needs a record of what was captured, which a bare
    /// `Move` cannot carry; the operation is a defined extension point that
    /// reports its absence loudly.
    pub fn undo_move(&mut self, mov: Move) -> (r: Result<(), crate::errors::EngineError>)
        ensures
            r == Err::<(), crate::errors::EngineError>(crate::errors::EngineError::NotImplemented),
            *final(self) == *old(self),
    {
        let _ = mov;
        Err(crate::errors::EngineError::NotImplemented)
    }
}

/// After moving `po` from square `o` to square `t` (capturing `cap` if
/// present) and flipping the corresponding bitboard bits, the two
/// representations agree again.
proof fn lemma_move_wf(prev: Board, cur: Board, o: int, t: int, po: Piece, cap: Option<Piece>)
    requires
        prev.wf(),
        0 <= o < 64,
        0 <= t < 64,
        o != t,
        prev.mailbox()[o] == Some(po),
        prev.mailbox()[t] == cap,
        cap matches Some(pt) ==> pt != po,
        cur.mailbox() == prev.mailbox().update(o, None::<Piece>).update(t, Some(po)),
        cur.bitboards().len() == 12,
        ({
            let ko = piece_index(po);
            let mask = (1u64 << (o as u64)) | (1u64 << (t as u64));
            match cap {
                None => cur.bitboards() == prev.bitboards().update(
                    ko,
                    prev.bitboards()[ko] ^ mask,
                ),
                Some(pt) => {
                    let kt = piece_index(pt);
                    cur.bitboards() == prev.bitboards().update(
                        ko,
                        prev.bitboards()[ko] ^ mask,
                    ).update(kt, (prev.bitboards().update(ko, prev.bitboards()[ko] ^ mask))[kt] ^ (
                    1u64 << (t as u64)))
                },
            }
        }),
    ensures
        cur.wf(),
{
    lemma_piece_index_inverse(po);
    let ko = piece_index(po);
    let mask = (1u64 << (o as u64)) | (1u64 << (t as u64));
    assert forall|k: int, i: u64| 0 <= k < 12 && i < 64 implies (#[trigger] bit64(
        cur.bitboards()[k],
        i,
    ) <==> cur.mailbox()[i as int] == Some(index_piece(k))) by {
        lemma_bit_single(o as u64, i);
        lemma_bit_single(t as u64, i);
        lemma_bit_or(1u64 << (o as u64), 1u64 << (t as u64), i);
        lemma_bit_xor(prev.bitboards()[ko], mask, i);
        if let Some(pt) = cap {
            lemma_piece_index_inverse(pt);
            let kt = piece_index(pt);
            lemma_bit_xor(
                (prev.bitboards().update(ko, prev.bitboards()[ko] ^ mask))[kt],
                1u64 << (t as u64),
                i,
            );
            if kt == ko {
                assert(false);
            }
        }
        assert(bit64(prev.bitboards()[k], i) <==> prev.mailbox()[i as int] == Some(index_piece(k)));
    }
}

/// Under well-formedness the bitboards are pairwise disjoint: a square's
/// occupant is a single piece, so no bit can be claimed twice.
pub proof fn lemma_wf_disjoint(b: Board)
    requires
        b.wf(),
    ensures
        b.pairwise_disjoint(),
{
    assert forall|k: int, l: int|
        #![trigger b.bitboards()[k], b.bitboards()[l]]
        0 <= k < l < 12 implies b.bitboards()[k] & b.bitboards()[l] == 0 by {
        lemma_disjoint_iff(b.bitboards()[k], b.bitboards()[l]);
        assert forall|i: u64| i < 64 implies !(bit64(b.bitboards()[k], i) && bit64(
            b.bitboards()[l],
            i,
        )) by {
            assert(index_piece(k) != index_piece(l));
        }
    }
}

/// True when `c`'s king stands on exactly one square of the mailbox.
pub open spec fn has_one_king(b: Board, c: Color) -> bool {
    exists|i: int|
        0 <= i < 64 && b.mailbox()[i] == Some(Piece::King(c)) && (forall|j: int|
            0 <= j < 64 && j != i ==> b.mailbox()[j] != Some(Piece::King(c)))
}

/// Under well-formedness, validity of the board is exactly the mailbox-level
/// statement that each color has one king: disjointness always holds, and a
/// king bitboard has one bit exactly when one mailbox square holds that king.
pub proof fn lemma_valid_iff_one_king_each(b: Board)
    requires
        b.wf(),
    ensures
        b.spec_is_valid() <==> (has_one_king(b, Color::White) && has_one_king(b, Color::Black)),
{
    lemma_wf_disjoint(b);
    lemma_king_bit_iff(b, Color::White, 5);
    lemma_king_bit_iff(b, Color::Black, 11);
}

proof fn lemma_king_bit_iff(b: Board, c: Color, k: int)
    requires
        b.wf(),
        0 <= k < 12,
        index_piece(k) == Piece::King(c),
    ensures
        exactly_one_bit(b.bitboards()[k]) <==> has_one_king(b, c),
{
    let bb = b.bitboards()[k];
    if exactly_one_bit(bb) {
        lemma_nonzero_has_bit(bb);
        let i = choose|i: u64| i < 64 && bit64(bb, i);
        assert(b.mailbox()[i as int] == Some(Piece::King(c)));
        assert forall|j: int| 0 <= j < 64 && j != i as int implies b.mailbox()[j] != Some(
            Piece::King(c),
        ) by {
            if b.mailbox()[j] == Some(Piece::King(c)) {
                lemma_two_bits(bb, i, j as u64);
            }
        }
    }
    if has_one_king(b, c) {
        let i = choose|i: int|
            0 <= i < 64 && b.mailbox()[i] == Some(Piece::King(c)) && (forall|j: int|
                0 <= j < 64 && j != i ==> b.mailbox()[j] != Some(Piece::King(c)));
        assert forall|j: u64| j < 64 implies bit64(bb, j) == (j == i as u64) by {}
        lemma_single_bit_value(bb, i as u64);
    }
}

/// A well-formed board holding the standard starting arrangement passes the
/// validity check: the bitboards are disjoint and each color has exactly one
/// king (on `e1` and `e8`).
pub proof fn lemma_starting_board_valid(b: Board)
    requires
        b.wf(),
        b.mailbox() == starting_mailbox(),
    ensures
        b.spec_is_valid(),
{
    lemma_valid_iff_one_king_each(b);
    assert(b.mailbox()[4] == Some(Piece::King(Color::White)));
    assert(b.mailbox()[60] == Some(Piece::King(Color::Black)));
    assert forall|j: int| 0 <= j < 64 && j != 4 implies b.mailbox()[j] != Some(
        Piece::King(Color::White),
    ) by {}
    assert forall|j: int| 0 <= j < 64 && j != 60 implies b.mailbox()[j] != Some(
        Piece::King(Color::Black),
    ) by {}
    assert(has_one_king(b, Color::White));
    assert(has_one_king(b, Color::Black));
}

/// Bit `i` of the occupancy is set exactly when square `i` is occupied: the
/// occupancy equals the union, over the mailbox's occupied squares, of their
/// one-bit masks.
pub proof fn lemma_occupancy_matches_mailbox(b: Board)
    requires
        b.wf(),
    ensures
        forall|i: u64|
            i < 64 ==> (bit64(b.spec_occupancy(), i) <==> b.mailbox()[i as int] is Some),
{
    assert forall|i: u64| i < 64 implies (bit64(b.spec_occupancy(), i)
        <==> b.mailbox()[i as int] is Some) by {
        lemma_or_upto_bit(b.bitboards(), 12, i);
        if bit64(b.spec_occupancy(), i) {
            let k = choose|k: int| 0 <= k < 12 && bit64(b.bitboards()[k], i);
            assert(b.mailbox()[i as int] == Some(index_piece(k)));
        }
        if let Some(p) = b.mailbox()[i as int] {
            lemma_piece_index_inverse(p);
            assert(bit64(b.bitboards()[piece_index(p)], i));
        }
    }
}

/// Bit `i` of the union of the first `n` bitboards is set exactly when one
/// of them has it set.
proof fn lemma_or_upto_bit(bbs: Seq<u64>, n: int, i: u64)
    requires
        i < 64,
        n <= bbs.len(),
    ensures
        bit64(or_upto(bbs, n), i) <==> exists|k: int| 0 <= k < n && bit64(#[trigger] bbs[k], i),
    decreases n,
{
    if n <= 0 {
        lemma_bit_zero(i);
    } else {
        lemma_or_upto_bit(bbs, n - 1, i);
        lemma_bit_or(or_upto(bbs, n - 1), bbs[n - 1], i);
    }
}

/// The bitwise union of the one-bit masks of the occupied squares among the
/// first `n` entries of a mailbox.
pub open spec fn mailbox_mask(m: Seq<Option<Piece>>, n: int) -> u64
    decreases n,
{
    if n <= 0 {
        0u64
    } else {
        mailbox_mask(m, n - 1) | (if m[n - 1] is Some {
            1u64 << ((n - 1) as u64)
        } else {
            0u64
        })
    }
}

proof fn lemma_mailbox_mask_bit(m: Seq<Option<Piece>>, n: int, i: u64)
    requires
        i < 64,
        n <= 64,
    ensures
        bit64(mailbox_mask(m, n), i) <==> (i < n && m[i as int] is Some),
    decreases n,
{
    if n <= 0 {
        lemma_bit_zero(i);
    } else {
        lemma_mailbox_mask_bit(m, n - 1, i);
        if m[n - 1] is Some {
            lemma_bit_or(mailbox_mask(m, n - 1), 1u64 << ((n - 1) as u64), i);
            lemma_bit_single((n - 1) as u64, i);
        } else {
            lemma_bit_or(mailbox_mask(m, n - 1), 0u64, i);
            lemma_bit_zero(i);
        }
    }
}

/// The occupancy always equals the bitwise union of the mailbox's occupied
/// entries converted to one-bit masks.
pub proof fn lemma_occupancy_is_mailbox_mask(b: Board)
    requires
        b.wf(),
    ensures
        b.spec_occupancy() == mailbox_mask(b.mailbox(), 64),
{
    lemma_occupancy_matches_mailbox(b);
    assert forall|i: u64| i < 64 implies bit64(b.spec_occupancy(), i) == bit64(
        mailbox_mask(b.mailbox(), 64),
        i,
    ) by {
        lemma_mailbox_mask_bit(b.mailbox(), 64, i);
    }
    lemma_bit_ext(b.spec_occupancy(), mailbox_mask(b.mailbox(), 64));
}

/// Well-formed boards with equal mailboxes have equal bitboards: the mailbox
/// alone determines the whole piece placement.
pub proof fn lemma_mailbox_determines_bitboards(a: Board, b: Board)
    requires
        a.wf(),
        b.wf(),
        a.mailbox() == b.mailbox(),
    ensures
        a.bitboards() == b.bitboards(),
{
    assert forall|k: int| 0 <= k < 12 implies a.bitboards()[k] == b.bitboards()[k] by {
        assert forall|i: u64| i < 64 implies bit64(a.bitboards()[k], i) == bit64(
            b.bitboards()[k],
            i,
        ) by {}
        lemma_bit_ext(a.bitboards()[k], b.bitboards()[k]);
    }
    assert(a.bitboards() =~= b.bitboards());
}

} // verus!
