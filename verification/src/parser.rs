//! Loading positions from Forsyth-Edwards Notation (FEN), and the defined
//! but unimplemented inverse.
//!
//! A FEN string has six whitespace-separated fields: piece placement,
//! active color, castling availability, en-passant target square, halfmove
//! clock and fullmove number.

use vstd::prelude::*;
use vstd::string::StrSliceExecFns;

use crate::board::{Board, file_of_char, rank_of_char, file_of, rank_of};
use crate::castle::CastleRights;
use crate::errors::{EngineError, ParseError};
use crate::piece::{Color, Piece};

verus! {

/// The FEN string of the standard starting position.
pub const STARTING_POSITION_FEN: &'static str =
    "rnbqkbnr/pppppppp/8/8/8/8/PPPPPPPP/RNBQKBNR w KQkq - 0 1";

/// The whitespace that separates FEN fields.
pub open spec fn is_fen_ws(c: char) -> bool {
    c == ' ' || c == '\t' || c == '\n' || c == '\u{0c}' || c == '\r'
}

/// The index just past the maximal run of non-whitespace characters that
/// starts at `i`.
pub open spec fn token_end(s: Seq<char>, i: int) -> int
    decreases s.len() - i,
{
    if i < 0 || i >= s.len() || is_fen_ws(s[i]) {
        i
    } else {
        token_end(s, i + 1)
    }
}

/// `token_end` stays within the text, and moves past at least the first
/// character of a token.
pub proof fn lemma_token_end_bounds(s: Seq<char>, i: int)
    requires
        0 <= i <= s.len(),
    ensures
        i <= token_end(s, i) <= s.len(),
    decreases s.len() - i,
{
    if i < s.len() && !is_fen_ws(s[i]) {
        lemma_token_end_bounds(s, i + 1);
    }
}

/// The whitespace-separated fields of `s`, from position `i` on.
pub open spec fn split_fields_from(s: Seq<char>, i: int) -> Seq<Seq<char>>
    decreases s.len() - i,
    via split_fields_from_decreases
{
    if i < 0 || i >= s.len() {
        Seq::empty()
    } else if is_fen_ws(s[i]) {
        split_fields_from(s, i + 1)
    } else {
        seq![s.subrange(i, token_end(s, i))] + split_fields_from(s, token_end(s, i))
    }
}

#[via_fn]
proof fn split_fields_from_decreases(s: Seq<char>, i: int) {
    if 0 <= i < s.len() && !is_fen_ws(s[i]) {
        lemma_token_end_bounds(s, i + 1);
    }
}

/// The whitespace-separated fields of `s`.
pub open spec fn spec_fields(s: Seq<char>) -> Seq<Seq<char>> {
    split_fields_from(s, 0)
}

/// True for an ASCII decimal digit.
pub open spec fn is_digit_char(c: char) -> bool {
    ('0' as u32) <= (c as u32) && (c as u32) <= ('9' as u32)
}

/// The value of an ASCII decimal digit.
pub open spec fn digit_val(c: char) -> int {
    (c as u32) - ('0' as u32)
}

/// The piece a FEN placement letter denotes: the letter picks the kind,
/// its case the color (uppercase is white).
pub open spec fn piece_of_symbol(c: char) -> Option<Piece> {
    if c == 'P' {
        Some(Piece::Pawn(Color::White))
    } else if c == 'p' {
        Some(Piece::Pawn(Color::Black))
    } else if c == 'N' {
        Some(Piece::Knight(Color::White))
    } else if c == 'n' {
        Some(Piece::Knight(Color::Black))
    } else if c == 'B' {
        Some(Piece::Bishop(Color::White))
    } else if c == 'b' {
        Some(Piece::Bishop(Color::Black))
    } else if c == 'R' {
        Some(Piece::Rook(Color::White))
    } else if c == 'r' {
        Some(Piece::Rook(Color::Black))
    } else if c == 'Q' {
        Some(Piece::Queen(Color::White))
    } else if c == 'q' {
        Some(Piece::Queen(Color::Black))
    } else if c == 'K' {
        Some(Piece::King(Color::White))
    } else if c == 'k' {
        Some(Piece::King(Color::Black))
    } else {
        None
    }
}

/// The mailbox with no piece on any square.
pub open spec fn empty_mailbox() -> Seq<Option<Piece>> {
    Seq::new(64, |i: int| None::<Piece>)
}

/// Scanning the placement field from position `j` with the given file and
/// rank cursor and the mailbox collected so far: `/` starts the next rank
/// down, a digit skips that many files, a piece letter fills the current
/// square. A scan that would leave the board is rejected, as is any other
/// character.
pub open spec fn spec_placement(
    cs: Seq<char>,
    j: int,
    file: int,
    rank: int,
    m: Seq<Option<Piece>>,
) -> Result<Seq<Option<Piece>>, ParseError>
    recommends
        0 <= file <= 8,
        0 <= rank <= 7,
    decreases cs.len() - j,
{
    if j < 0 || j >= cs.len() {
        Ok(m)
    } else {
        let c = cs[j];
        if c == '/' {
            if rank == 0 {
                Err(ParseError::PlacementOverflow)
            } else {
                spec_placement(cs, j + 1, 0, rank - 1, m)
            }
        } else if is_digit_char(c) {
            if file + digit_val(c) > 8 {
                Err(ParseError::PlacementOverflow)
            } else {
                spec_placement(cs, j + 1, file + digit_val(c), rank, m)
            }
        } else {
            match piece_of_symbol(c) {
                Some(p) => if file >= 8 {
                    Err(ParseError::PlacementOverflow)
                } else {
                    spec_placement(cs, j + 1, file + 1, rank, m.update(rank * 8 + file, Some(p)))
                },
                None => Err(ParseError::UnrecognizedSymbol(c)),
            }
        }
    }
}

/// The active-color field: exactly "w" or "b".
pub open spec fn spec_color_field(f: Seq<char>) -> Result<Color, ParseError> {
    if f == seq!['w'] {
        Ok(Color::White)
    } else if f == seq!['b'] {
        Ok(Color::Black)
    } else {
        Err(ParseError::UnexpectedSymbol(f[0], 2))
    }
}

/// Scanning the castling field from position `j`: each letter unions in the
/// matching right, `-` ends the field early, anything else is rejected.
pub open spec fn spec_castling(f: Seq<char>, j: int, acc: u8) -> Result<u8, ParseError>
    decreases f.len() - j,
{
    if j < 0 || j >= f.len() {
        Ok(acc)
    } else {
        let c = f[j];
        if c == '-' {
            Ok(acc)
        } else if c == 'K' {
            spec_castling(f, j + 1, acc | 0x01)
        } else if c == 'Q' {
            spec_castling(f, j + 1, acc | 0x02)
        } else if c == 'k' {
            spec_castling(f, j + 1, acc | 0x04)
        } else if c == 'q' {
            spec_castling(f, j + 1, acc | 0x08)
        } else {
            Err(ParseError::UnexpectedSymbol(c, 3))
        }
    }
}

/// The en-passant field: `-` for no target square, else a square in the
/// notation of the codec (a file letter, then a rank digit).
pub open spec fn spec_ep_field(f: Seq<char>) -> Result<Option<usize>, ParseError> {
    if f.len() >= 1 && f[0] == '-' {
        Ok(None)
    } else {
        match file_of_char(f[0]) {
            None => Err(ParseError::UnknownFile(f[0])),
            Some(fl) => if f.len() < 2 {
                Err(ParseError::InvalidLength)
            } else {
                match rank_of_char(f[1]) {
                    None => Err(ParseError::UnknownRank(f[1])),
                    Some(r) => Ok(Some((r * 8 + fl) as usize)),
                }
            },
        }
    }
}

/// The numeric value of a digit string.
pub open spec fn num_value(f: Seq<char>) -> int
    decreases f.len(),
{
    if f.len() <= 0 {
        0
    } else {
        num_value(f.drop_last()) * 10 + digit_val(f.last())
    }
}

/// The halfmove-clock and fullmove-number fields: digits forming an
/// unsigned 32-bit integer. The value itself is not retained.
pub open spec fn spec_uint_field(f: Seq<char>, fieldno: u8) -> Result<(), ParseError> {
    if f.len() > 0 && (forall|j: int| 0 <= j < f.len() ==> is_digit_char(#[trigger] f[j]))
        && num_value(f) <= u32::MAX {
        Ok(())
    } else {
        Err(ParseError::InvalidNumber(fieldno))
    }
}

/// What `load_position_from_fen` computes from a FEN text: the mailbox, the
/// active color, the castling-right bits and the en-passant square, or the
/// error of the first field that fails. A field that is missing altogether
/// is reported as such, distinct from malformed content.
pub open spec fn spec_parse_fen(s: Seq<char>) -> Result<
    (Seq<Option<Piece>>, Color, u8, Option<usize>),
    ParseError,
> {
    let fields = spec_fields(s);
    if fields.len() < 1 {
        Err(ParseError::MissingField(1))
    } else {
        match spec_placement(fields[0], 0, 0, 7, empty_mailbox()) {
            Err(e) => Err(e),
            Ok(m) => if fields.len() < 2 {
                Err(ParseError::MissingField(2))
            } else {
                match spec_color_field(fields[1]) {
                    Err(e) => Err(e),
                    Ok(col) => if fields.len() < 3 {
                        Err(ParseError::MissingField(3))
                    } else {
                        match spec_castling(fields[2], 0, 0) {
                            Err(e) => Err(e),
                            Ok(cr) => if fields.len() < 4 {
                                Err(ParseError::MissingField(4))
                            } else {
                                match spec_ep_field(fields[3]) {
                                    Err(e) => Err(e),
                                    Ok(ep) => if fields.len() < 5 {
                                        Err(ParseError::MissingField(5))
                                    } else {
                                        match spec_uint_field(fields[4], 5) {
                                            Err(e) => Err(e),
                                            Ok(_) => if fields.len() < 6 {
                                                Err(ParseError::MissingField(6))
                                            } else {
                                                match spec_uint_field(fields[5], 6) {
                                                    Err(e) => Err(e),
                                                    Ok(_) => Ok((m, col, cr, ep)),
                                                }
                                            },
                                        }
                                    },
                                }
                            },
                        }
                    },
                }
            },
        }
    }
}

/// Collects the characters of a text.
fn chars_of(text: &str) -> (v: Vec<char>)
    ensures
        v@ == text@,
{
    let len = text.unicode_len();
    let mut v: Vec<char> = Vec::new();
    for i in 0..len
        invariant
            len == text@.len(),
            v@ == text@.subrange(0, i as int),
    {
        v.push(text.get_char(i));
        proof {
            assert(v@ =~= text@.subrange(0, i as int + 1));
        }
    }
    proof {
        assert(text@.subrange(0, text@.len() as int) =~= text@);
    }
    v
}

/// Decides whether a character separates FEN fields.
fn is_ws_char(c: char) -> (r: bool)
    ensures
        r == is_fen_ws(c),
{
    c == ' ' || c == '\t' || c == '\n' || c == '\u{0c}' || c == '\r'
}

/// Splits a text into its whitespace-separated fields.
fn split_ws(v: &Vec<char>) -> (fields: Vec<Vec<char>>)
    ensures
        fields@.map_values(|t: Vec<char>| t@) == spec_fields(v@),
{
    let ghost s = v@;
    let mut fields: Vec<Vec<char>> = Vec::new();
    let mut i: usize = 0;
    proof {
        assert(fields@.map_values(|t: Vec<char>| t@) =~= Seq::<Seq<char>>::empty());
    }
    while i < v.len()
        invariant
            s == v@,
            i <= v.len(),
            split_fields_from(s, 0) == fields@.map_values(|t: Vec<char>| t@) + split_fields_from(
                s,
                i as int,
            ),
        decreases v.len() - i,
    {
        let c = v[i];
        if is_ws_char(c) {
            i = i + 1;
        } else {
            let ghost start = i as int;
            let mut token: Vec<char> = Vec::new();
            loop
                invariant
                    s == v@,
                    0 <= start < v.len(),
                    !is_fen_ws(s[start]),
                    start <= i as int <= v.len(),
                    token@ == s.subrange(start, i as int),
                    token_end(s, start) == token_end(s, i as int),
                ensures
                    start < i as int <= v.len(),
                    token@ == s.subrange(start, i as int),
                    i as int == token_end(s, start),
                decreases v.len() - i,
            {
                if i >= v.len() {
                    break ;
                }
                let c2 = v[i];
                if is_ws_char(c2) {
                    break ;
                }
                token.push(c2);
                proof {
                    assert(token@ =~= s.subrange(start, i as int + 1));
                }
                i = i + 1;
            }
            let ghost tokv = token@;
            fields.push(token);
            proof {
                lemma_token_end_bounds(s, start);
                assert(split_fields_from(s, start) == seq![s.subrange(start, token_end(s, start))]
                    + split_fields_from(s, token_end(s, start)));
                assert(fields@.map_values(|t: Vec<char>| t@) =~= fields@.map_values(
                    |t: Vec<char>| t@,
                ).subrange(0, fields@.len() - 1).push(tokv));
                assert((fields@.map_values(|t: Vec<char>| t@).subrange(0, fields@.len() - 1).push(
                    tokv,
                )) + split_fields_from(s, i as int) =~= fields@.map_values(
                    |t: Vec<char>| t@,
                ).subrange(0, fields@.len() - 1) + (seq![tokv] + split_fields_from(s, i as int)));
            }
        }
    }
    proof {
        assert(split_fields_from(s, v@.len() as int) =~= Seq::<Seq<char>>::empty());
        assert(fields@.map_values(|t: Vec<char>| t@) + Seq::<Seq<char>>::empty()
            =~= fields@.map_values(|t: Vec<char>| t@));
    }
    fields
}

/// Decodes a FEN placement letter into a piece.
fn piece_of(c: char) -> (r: Option<Piece>)
    ensures
        r == piece_of_symbol(c),
{
    match c {
        'P' => Some(Piece::Pawn(Color::White)),
        'p' => Some(Piece::Pawn(Color::Black)),
        'N' => Some(Piece::Knight(Color::White)),
        'n' => Some(Piece::Knight(Color::Black)),
        'B' => Some(Piece::Bishop(Color::White)),
        'b' => Some(Piece::Bishop(Color::Black)),
        'R' => Some(Piece::Rook(Color::White)),
        'r' => Some(Piece::Rook(Color::Black)),
        'Q' => Some(Piece::Queen(Color::White)),
        'q' => Some(Piece::Queen(Color::Black)),
        'K' => Some(Piece::King(Color::White)),
        'k' => Some(Piece::King(Color::Black)),
        _ => None,
    }
}

/// Decides whether a character is an ASCII decimal digit.
fn is_digit(c: char) -> (r: bool)
    ensures
        r == is_digit_char(c),
{
    let code = c as u32;
    48 <= code && code <= 57
}

/// Scans the placement field into a mailbox.
fn parse_placement(f: &Vec<char>) -> (r: Result<[Option<Piece>; 64], ParseError>)
    ensures
        match spec_placement(f@, 0, 0, 7, empty_mailbox()) {
            Ok(m) => r matches Ok(arr) && arr@ == m,
            Err(e) => r == Err::<[Option<Piece>; 64], ParseError>(e),
        },
{
    let mut squares: [Option<Piece>; 64] = [None; 64];
    let mut file: usize = 0;
    let mut rank: usize = 7;
    proof {
        assert(squares@ =~= empty_mailbox());
    }
    let mut j: usize = 0;
    while j < f.len()
        invariant
            j <= f.len(),
            file <= 8,
            rank <= 7,
            squares@.len() == 64,
            spec_placement(f@, 0, 0, 7, empty_mailbox()) == spec_placement(
                f@,
                j as int,
                file as int,
                rank as int,
                squares@,
            ),
        decreases f.len() - j,
    {
        let c = f[j];
        if c == '/' {
            if rank == 0 {
                return Err(ParseError::PlacementOverflow);
            }
            rank = rank - 1;
            file = 0;
        } else if is_digit(c) {
            let d = (c as u32 - 48) as usize;
            if file + d > 8 {
                return Err(ParseError::PlacementOverflow);
            }
            file = file + d;
        } else {
            match piece_of(c) {
                Some(p) => {
                    if file >= 8 {
                        return Err(ParseError::PlacementOverflow);
                    }
                    squares[rank * 8 + file] = Some(p);
                    file = file + 1;
                },
                None => {
                    return Err(ParseError::UnrecognizedSymbol(c));
                },
            }
        }
        j = j + 1;
    }
    Ok(squares)
}

/// Reads the active-color field.
fn parse_color_field(f: &Vec<char>) -> (r: Result<Color, ParseError>)
    requires
        f@.len() > 0,
    ensures
        r == spec_color_field(f@),
{
    if f.len() == 1 {
        let c = f[0];
        if c == 'w' {
            proof {
                assert(f@ =~= seq!['w']);
            }
            return Ok(Color::White);
        }
        if c == 'b' {
            proof {
                assert(f@ =~= seq!['b']);
            }
            return Ok(Color::Black);
        }
        proof {
            assert(f@ != seq!['w'] && f@ != seq!['b']);
        }
        return Err(ParseError::UnexpectedSymbol(c, 2));
    }
    proof {
        assert(f@.len() != 1);
        assert(f@ != seq!['w'] && f@ != seq!['b']);
    }
    Err(ParseError::UnexpectedSymbol(f[0], 2))
}

/// Scans the castling-availability field.
fn parse_castling(f: &Vec<char>) -> (r: Result<CastleRights, ParseError>)
    ensures
        match spec_castling(f@, 0, 0) {
            Ok(bits) => r matches Ok(cr) && cr.bits() == bits,
            Err(e) => r == Err::<CastleRights, ParseError>(e),
        },
{
    let mut rights = CastleRights::no_rights();
    let mut j: usize = 0;
    while j < f.len()
        invariant
            j <= f.len(),
            spec_castling(f@, 0, 0) == spec_castling(f@, j as int, rights.bits()),
        decreases f.len() - j,
    {
        let c = f[j];
        if c == '-' {
            return Ok(rights);
        } else if c == 'K' {
            rights = rights.union(CastleRights::white_ks());
        } else if c == 'Q' {
            rights = rights.union(CastleRights::white_qs());
        } else if c == 'k' {
            rights = rights.union(CastleRights::black_ks());
        } else if c == 'q' {
            rights = rights.union(CastleRights::black_qs());
        } else {
            return Err(ParseError::UnexpectedSymbol(c, 3));
        }
        j = j + 1;
    }
    Ok(rights)
}

/// Reads the en-passant field.
fn parse_ep_field(f: &Vec<char>) -> (r: Result<Option<usize>, ParseError>)
    requires
        f@.len() > 0,
    ensures
        r == spec_ep_field(f@),
{
    let c0 = f[0];
    if c0 == '-' {
        return Ok(None);
    }
    match file_of(c0) {
        None => Err(ParseError::UnknownFile(c0)),
        Some(fl) => {
            if f.len() < 2 {
                return Err(ParseError::InvalidLength);
            }
            let c1 = f[1];
            match rank_of(c1) {
                None => Err(ParseError::UnknownRank(c1)),
                Some(rk) => Ok(Some((rk as usize) * 8 + (fl as usize))),
            }
        },
    }
}

/// `num_value` of a digit string never shrinks as the string grows.
proof fn lemma_num_value_extends(f: Seq<char>, k: int)
    requires
        0 <= k <= f.len(),
        forall|j: int| 0 <= j < f.len() ==> is_digit_char(#[trigger] f[j]),
    ensures
        0 <= num_value(f.subrange(0, k)) <= num_value(f),
    decreases f.len() - k,
{
    assert(forall|j: int|
        0 <= j < f.subrange(0, k).len() ==> is_digit_char(#[trigger] f.subrange(0, k)[j]));
    lemma_num_value_nonneg(f.subrange(0, k));
    if k < f.len() {
        lemma_num_value_extends(f, k + 1);
        let a = f.subrange(0, k);
        let b = f.subrange(0, k + 1);
        assert(b.drop_last() =~= a);
        assert(num_value(b) == num_value(a) * 10 + digit_val(b.last()));
        assert(num_value(a) * 10 >= num_value(a)) by (nonlinear_arith)
            requires
                num_value(a) >= 0,
        ;
    } else {
        assert(f.subrange(0, k) =~= f);
    }
}

/// A digit string's value is never negative.
proof fn lemma_num_value_nonneg(f: Seq<char>)
    requires
        forall|j: int| 0 <= j < f.len() ==> is_digit_char(#[trigger] f[j]),
    ensures
        num_value(f) >= 0,
    decreases f.len(),
{
    if f.len() > 0 {
        assert(forall|j: int|
            0 <= j < f.drop_last().len() ==> is_digit_char(#[trigger] f.drop_last()[j]));
        lemma_num_value_nonneg(f.drop_last());
        assert(num_value(f.drop_last()) * 10 >= 0) by (nonlinear_arith)
            requires
                num_value(f.drop_last()) >= 0,
        ;
    }
}

/// Checks that a field is an unsigned 32-bit integer.
fn check_uint_field(f: &Vec<char>, fieldno: u8) -> (r: Result<(), ParseError>)
    ensures
        r == spec_uint_field(f@, fieldno),
{
    if f.len() == 0 {
        return Err(ParseError::InvalidNumber(fieldno));
    }
    let mut value: u64 = 0;
    let mut j: usize = 0;
    while j < f.len()
        invariant
            j <= f.len(),
            f@.len() > 0,
            forall|k: int| 0 <= k < j ==> is_digit_char(#[trigger] f@[k]),
            value == num_value(f@.subrange(0, j as int)),
            value <= u32::MAX,
        decreases f.len() - j,
    {
        let c = f[j];
        if !is_digit(c) {
            return Err(ParseError::InvalidNumber(fieldno));
        }
        let d = (c as u32 - 48) as u64;
        proof {
            assert(f@.subrange(0, j as int + 1).drop_last() =~= f@.subrange(0, j as int));
        }
        value = value * 10 + d;
        if value > 0xffff_ffff {
            // The digits so far already exceed the range; more digits can
            // only grow the value.
            proof {
                if forall|k: int| 0 <= k < f@.len() ==> is_digit_char(#[trigger] f@[k]) {
                    lemma_num_value_extends(f@, j as int + 1);
                }
            }
            return Err(ParseError::InvalidNumber(fieldno));
        }
        j = j + 1;
    }
    proof {
        assert(f@.subrange(0, f@.len() as int) =~= f@);
    }
    Ok(())
}

/// Parses a string in FEN and returns the `Board` that represents the
/// position if the notation is valid: the placement fills the mailbox from
/// the black back rank down, and the remaining fields give the active
/// color, the castling rights and the en-passant target square. The
/// halfmove clock and fullmove number are validated but not retained.
pub fn load_position_from_fen(fen: &str) -> (r: Result<Board, ParseError>)
    ensures
        spec_parse_fen(fen@) matches Ok(out) ==> (r matches Ok(b) && b.wf() && b.mailbox() == out.0
            && b.turn() == out.1 && b.castling().bits() == out.2 && b.en_passant() == out.3),
        spec_parse_fen(fen@) matches Err(e) ==> r == Err::<Board, ParseError>(e),
{
    let v = chars_of(fen);
    let fields = split_ws(&v);
    let ghost fs = spec_fields(fen@);
    if fields.len() < 1 {
        return Err(ParseError::MissingField(1));
    }
    let squares = match parse_placement(&fields[0]) {
        Ok(m) => m,
        Err(e) => {
            return Err(e);
        },
    };
    if fields.len() < 2 {
        return Err(ParseError::MissingField(2));
    }
    proof {
        assert(fs[1].len() > 0) by {
            lemma_fields_nonempty(fen@, 0, 1);
        }
    }
    let color_to_move = match parse_color_field(&fields[1]) {
        Ok(c) => c,
        Err(e) => {
            return Err(e);
        },
    };
    if fields.len() < 3 {
        return Err(ParseError::MissingField(3));
    }
    let castling_rights = match parse_castling(&fields[2]) {
        Ok(cr) => cr,
        Err(e) => {
            return Err(e);
        },
    };
    if fields.len() < 4 {
        return Err(ParseError::MissingField(4));
    }
    proof {
        assert(fs[3].len() > 0) by {
            lemma_fields_nonempty(fen@, 0, 3);
        }
    }
    let en_passant_square = match parse_ep_field(&fields[3]) {
        Ok(ep) => ep,
        Err(e) => {
            return Err(e);
        },
    };
    if fields.len() < 5 {
        return Err(ParseError::MissingField(5));
    }
    if let Err(e) = check_uint_field(&fields[4], 5) {
        return Err(e);
    }
    if fields.len() < 6 {
        return Err(ParseError::MissingField(6));
    }
    if let Err(e) = check_uint_field(&fields[5], 6) {
        return Err(e);
    }
    Ok(Board::from_array(squares, castling_rights, color_to_move, en_passant_square))
}

/// Every field that splitting yields holds at least one character.
proof fn lemma_fields_nonempty(s: Seq<char>, i: int, k: int)
    requires
        0 <= i <= s.len(),
        0 <= k < split_fields_from(s, i).len(),
    ensures
        split_fields_from(s, i)[k].len() > 0,
    decreases s.len() - i,
{
    if i < s.len() {
        if is_fen_ws(s[i]) {
            lemma_fields_nonempty(s, i + 1, k);
        } else {
            lemma_token_end_bounds(s, i);
            if k > 0 {
                lemma_fields_nonempty(s, token_end(s, i), k - 1);
            }
        }
    }
}

/// Serializes a position back into FEN text: the exact inverse of
/// `load_position_from_fen`. The operation is a defined extension point
/// that reports its absence loudly instead of returning a wrong string.
pub fn store_position_as_fen(board: &Board) -> (r: Result<String, EngineError>)
    ensures
        r == Err::<String, EngineError>(EngineError::NotImplemented),
{
    let _ = board;
    Err(EngineError::NotImplemented)
}

} // verus!
