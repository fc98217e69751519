use chess_engine::board::Board;
use chess_engine::castle::CastleRights;
use chess_engine::errors::{EngineError, ParseError};
use chess_engine::parser::{load_position_from_fen, store_position_as_fen, STARTING_POSITION_FEN};
use chess_engine::piece::{Color, Piece};

const EMPTY_PLACEMENT: &str = "8/8/8/8/8/8/8/8";

#[test]
fn fen_parser_load() {
    assert_eq!(load_position_from_fen(STARTING_POSITION_FEN).unwrap(), Board::new());
}

#[test]
fn loaded_position_matches_applied_move() {
    let mut played = Board::new();
    assert!(played.make_move(chess_engine::board::Move::from_notation("e2e4").unwrap()));
    let loaded =
        load_position_from_fen("rnbqkbnr/pppppppp/8/8/4P3/8/PPPP1PPP/RNBQKBNR b KQkq e3 0 1")
            .unwrap();
    assert_eq!(loaded.piece_array(), played.piece_array());
    assert_eq!(loaded.color_to_move(), Color::Black);
}

#[test]
fn en_passant_field_is_retained() {
    let with_ep =
        load_position_from_fen("8/8/8/8/8/8/8/8 w - e3 0 1").unwrap();
    let same_by_hand =
        Board::from_array([None; 64], CastleRights::no_rights(), Color::White, Some(20));
    assert_eq!(with_ep, same_by_hand);
    let without_ep = load_position_from_fen("8/8/8/8/8/8/8/8 w - - 0 1").unwrap();
    assert_ne!(with_ep, without_ep);
}

#[test]
fn castling_field_unions_each_letter() {
    let fen = format!("{} w Kq - 0 1", EMPTY_PLACEMENT);
    let board = load_position_from_fen(&fen).unwrap();
    assert!(board.can_castle_kingside(Color::White));
    assert!(!board.can_castle_queenside(Color::White));
    assert!(!board.can_castle_kingside(Color::Black));
    assert!(board.can_castle_queenside(Color::Black));
}

#[test]
fn castling_field_dash_terminates_early() {
    let fen = format!("{} w K-q - 0 1", EMPTY_PLACEMENT);
    let board = load_position_from_fen(&fen).unwrap();
    assert!(board.can_castle_kingside(Color::White));
    assert!(!board.can_castle_queenside(Color::Black));
}

#[test]
fn placement_digits_skip_files() {
    let board = load_position_from_fen("3q4/8/8/8/8/8/8/8 w - - 0 1").unwrap();
    // Rank 8 (indices 56..64), file d.
    assert_eq!(board.at(59), Some(Piece::Queen(Color::Black)));
    assert_eq!(board.occupancy(), 1u64 << 59);
}

#[test]
fn missing_fields_are_reported_by_number() {
    assert_eq!(load_position_from_fen(""), Err(ParseError::MissingField(1)));
    assert_eq!(load_position_from_fen("   \t  "), Err(ParseError::MissingField(1)));
    assert_eq!(load_position_from_fen(EMPTY_PLACEMENT), Err(ParseError::MissingField(2)));
    assert_eq!(
        load_position_from_fen(&format!("{} w", EMPTY_PLACEMENT)),
        Err(ParseError::MissingField(3))
    );
    assert_eq!(
        load_position_from_fen(&format!("{} w -", EMPTY_PLACEMENT)),
        Err(ParseError::MissingField(4))
    );
    assert_eq!(
        load_position_from_fen(&format!("{} w - -", EMPTY_PLACEMENT)),
        Err(ParseError::MissingField(5))
    );
    assert_eq!(
        load_position_from_fen(&format!("{} w - - 0", EMPTY_PLACEMENT)),
        Err(ParseError::MissingField(6))
    );
}

#[test]
fn unrecognized_placement_symbol_is_reported() {
    assert_eq!(
        load_position_from_fen("x7/8/8/8/8/8/8/8 w - - 0 1"),
        Err(ParseError::UnrecognizedSymbol('x'))
    );
}

#[test]
fn placement_that_leaves_the_board_is_rejected() {
    assert_eq!(
        load_position_from_fen("9/8/8/8/8/8/8/8 w - - 0 1"),
        Err(ParseError::PlacementOverflow)
    );
    assert_eq!(
        load_position_from_fen("8/8/8/8/8/8/8/8/8 w - - 0 1"),
        Err(ParseError::PlacementOverflow)
    );
    assert_eq!(
        load_position_from_fen("ppppppppp/8/8/8/8/8/8/8 w - - 0 1"),
        Err(ParseError::PlacementOverflow)
    );
}

#[test]
fn bad_color_field_is_reported() {
    assert_eq!(
        load_position_from_fen(&format!("{} u - - 0 1", EMPTY_PLACEMENT)),
        Err(ParseError::UnexpectedSymbol('u', 2))
    );
    assert_eq!(
        load_position_from_fen(&format!("{} ww - - 0 1", EMPTY_PLACEMENT)),
        Err(ParseError::UnexpectedSymbol('w', 2))
    );
}

#[test]
fn bad_castling_field_is_reported() {
    assert_eq!(
        load_position_from_fen(&format!("{} w x - 0 1", EMPTY_PLACEMENT)),
        Err(ParseError::UnexpectedSymbol('x', 3))
    );
}

#[test]
fn bad_en_passant_field_is_reported() {
    assert_eq!(
        load_position_from_fen(&format!("{} w - x3 0 1", EMPTY_PLACEMENT)),
        Err(ParseError::UnknownFile('x'))
    );
    assert_eq!(
        load_position_from_fen(&format!("{} w - e9 0 1", EMPTY_PLACEMENT)),
        Err(ParseError::UnknownRank('9'))
    );
    assert_eq!(
        load_position_from_fen(&format!("{} w - e 0 1", EMPTY_PLACEMENT)),
        Err(ParseError::InvalidLength)
    );
}

#[test]
fn clock_fields_must_be_unsigned_integers() {
    assert_eq!(
        load_position_from_fen(&format!("{} w - - x 1", EMPTY_PLACEMENT)),
        Err(ParseError::InvalidNumber(5))
    );
    assert_eq!(
        load_position_from_fen(&format!("{} w - - 0 1x", EMPTY_PLACEMENT)),
        Err(ParseError::InvalidNumber(6))
    );
    assert!(load_position_from_fen(&format!("{} w - - 4294967295 1", EMPTY_PLACEMENT)).is_ok());
    assert_eq!(
        load_position_from_fen(&format!("{} w - - 4294967296 1", EMPTY_PLACEMENT)),
        Err(ParseError::InvalidNumber(5))
    );
    assert_eq!(
        load_position_from_fen(&format!("{} w - - 0 99999999999999999999", EMPTY_PLACEMENT)),
        Err(ParseError::InvalidNumber(6))
    );
}

#[test]
fn fields_may_be_separated_by_any_whitespace() {
    let fen = format!("  {} \t w \n KQkq   -  0 \t 1 ", EMPTY_PLACEMENT);
    let board = load_position_from_fen(&fen).unwrap();
    assert!(board.can_castle_kingside(Color::White));
    assert_eq!(board.color_to_move(), Color::White);
}

#[test]
fn fen_store_reports_not_implemented() {
    assert_eq!(store_position_as_fen(&Board::new()), Err(EngineError::NotImplemented));
}
