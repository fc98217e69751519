use chess_engine::board::{Board, Move, Square};
use chess_engine::castle::CastleRights;
use chess_engine::errors::EngineError;
use chess_engine::piece::{Color, Piece};

fn occupancy_of_mailbox(board: &Board) -> u64 {
    let mut acc: u64 = 0;
    for (i, square) in board.piece_array().iter().enumerate() {
        if square.is_some() {
            acc |= 1u64 << i;
        }
    }
    acc
}

#[test]
fn bitboard_no_overlap() {
    let board = Board::new();
    assert!(board.is_valid());
}

#[test]
fn board_no_overlap() {
    let board = Board::new();
    assert!(board.is_valid());
}

#[test]
fn it_works() {
    let _b = Board::new();
    assert_eq!(2 + 2, 4);
}

#[test]
fn starting_arrangement() {
    let board = Board::new();
    assert_eq!(board.at(0), Some(Piece::Rook(Color::White)));
    assert_eq!(board.at(4), Some(Piece::King(Color::White)));
    assert_eq!(board.at(12), Some(Piece::Pawn(Color::White)));
    assert_eq!(board.at(27), None);
    assert_eq!(board.at(52), Some(Piece::Pawn(Color::Black)));
    assert_eq!(board.at(59), Some(Piece::Queen(Color::Black)));
    assert_eq!(board.at(63), Some(Piece::Rook(Color::Black)));
    assert_eq!(board.color_to_move(), Color::White);
    assert!(board.can_castle_kingside(Color::White));
    assert!(board.can_castle_queenside(Color::White));
    assert!(board.can_castle_kingside(Color::Black));
    assert!(board.can_castle_queenside(Color::Black));
}

#[test]
fn empty_board_has_no_pieces_and_no_rights() {
    let board = Board::empty();
    assert_eq!(board.occupancy(), 0);
    for i in 0..64 {
        assert_eq!(board.at(i), None);
    }
    assert!(!board.can_castle_kingside(Color::White));
    assert!(!board.can_castle_queenside(Color::Black));
    // No kings at all, so the validity check fails.
    assert!(!board.is_valid());
}

#[test]
fn at_matches_piece_array() {
    let board = Board::new();
    let squares = *board.piece_array();
    for i in 0..64 {
        assert_eq!(board.at(i), squares[i]);
    }
}

#[test]
fn get_bitboard_of_kings() {
    let board = Board::new();
    assert_eq!(board.get_bitboard(Piece::King(Color::White)), 1u64 << 4);
    assert_eq!(board.get_bitboard(Piece::King(Color::Black)), 1u64 << 60);
}

#[test]
fn occupancy_matches_mailbox_on_constructors() {
    let board = Board::new();
    assert_eq!(board.occupancy(), occupancy_of_mailbox(&board));
    let board = Board::empty();
    assert_eq!(board.occupancy(), occupancy_of_mailbox(&board));
}

#[test]
fn null_move_changes_nothing() {
    let mut board = Board::new();
    let before = board.clone();
    let mov = Move { origin: Square { index: 12 }, target: Square { index: 12 } };
    assert!(!board.make_move(mov));
    assert_eq!(board, before);
}

#[test]
fn move_from_empty_origin_changes_nothing() {
    let mut board = Board::new();
    let before = board.clone();
    let mov = Move::from_notation("e4e5").unwrap();
    assert!(!board.make_move(mov));
    assert_eq!(board, before);
}

#[test]
fn move_onto_own_piece_changes_nothing() {
    let mut board = Board::new();
    let before = board.clone();
    // The white queen's square holds a white piece, as does d2.
    let mov = Move::from_notation("d1d2").unwrap();
    assert!(!board.make_move(mov));
    assert_eq!(board, before);
}

#[test]
fn quiet_move_updates_both_squares_and_flips_turn() {
    let mut board = Board::new();
    let mov = Move::from_notation("e2e4").unwrap();
    assert!(board.make_move(mov));
    assert_eq!(board.at(12), None);
    assert_eq!(board.at(28), Some(Piece::Pawn(Color::White)));
    assert_eq!(board.color_to_move(), Color::Black);
    assert_eq!(board.occupancy(), occupancy_of_mailbox(&board));
    assert!(board.is_valid());
}

#[test]
fn capture_removes_the_captured_piece() {
    let mut squares: [Option<Piece>; 64] = [None; 64];
    squares[4] = Some(Piece::King(Color::White));
    squares[60] = Some(Piece::King(Color::Black));
    squares[0] = Some(Piece::Rook(Color::White));
    squares[56] = Some(Piece::Rook(Color::Black));
    let mut board = Board::from_array(squares, CastleRights::no_rights(), Color::White, None);
    assert!(board.is_valid());
    // The white rook on a1 takes the black rook on a8.
    let mov = Move::from_notation("a1a8").unwrap();
    assert!(board.make_move(mov));
    assert_eq!(board.at(0), None);
    assert_eq!(board.at(56), Some(Piece::Rook(Color::White)));
    assert_eq!(board.color_to_move(), Color::Black);
    assert_eq!(board.occupancy(), occupancy_of_mailbox(&board));
    assert!(board.is_valid());
}

#[test]
fn occupancy_matches_mailbox_after_moves() {
    let mut board = Board::new();
    let moves = ["e2e4", "e7e5", "g1f3", "b8c6", "f1c4", "g8f6"];
    for text in moves {
        let mov = Move::from_notation(text).unwrap();
        assert!(board.make_move(mov));
        assert_eq!(board.occupancy(), occupancy_of_mailbox(&board));
        assert!(board.is_valid());
    }
}

#[test]
fn undo_move_reports_not_implemented() {
    let mut board = Board::new();
    let mov = Move::from_notation("e2e4").unwrap();
    assert!(board.make_move(mov));
    assert_eq!(board.undo_move(mov), Err(EngineError::NotImplemented));
}

#[test]
fn iter_yields_all_squares_in_index_order() {
    let board = Board::new();
    let seen = board.iter();
    assert_eq!(seen.len(), 64);
    for (i, square) in seen.iter().enumerate() {
        assert_eq!(*square, board.at(i));
    }
}

#[test]
fn legal_move_queries_report_not_implemented() {
    let board = Board::new();
    assert_eq!(board.compute_legal_moves_for(0), Err(EngineError::NotImplemented));
    assert_eq!(board.get_legal_moves(Color::White), Err(EngineError::NotImplemented));
}

#[test]
fn from_array_round_trips_the_mailbox() {
    let mut squares: [Option<Piece>; 64] = [None; 64];
    squares[33] = Some(Piece::Queen(Color::Black));
    squares[7] = Some(Piece::Knight(Color::White));
    let board = Board::from_array(
        squares,
        CastleRights::white_ks(),
        Color::Black,
        Some(20),
    );
    assert_eq!(*board.piece_array(), squares);
    assert_eq!(board.color_to_move(), Color::Black);
    assert!(board.can_castle_kingside(Color::White));
    assert!(!board.can_castle_queenside(Color::White));
    assert!(!board.can_castle_kingside(Color::Black));
}
