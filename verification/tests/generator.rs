use chess_engine::board::{Board, Move};
use chess_engine::castle::CastleRights;
use chess_engine::generator::Naive;
use chess_engine::piece::{Color, Piece};

fn board_with(pieces: &[(usize, Piece)], color_to_move: Color) -> Board {
    let mut squares: [Option<Piece>; 64] = [None; 64];
    for (index, piece) in pieces {
        squares[*index] = Some(*piece);
    }
    Board::from_array(squares, CastleRights::no_rights(), color_to_move, None)
}

fn count_with_target(moves: &[Move], target: usize) -> usize {
    moves.iter().filter(|m| m.target.index as usize == target).count()
}

#[test]
fn rook_moves_on_empty_board_match_edge_distances() {
    let generator = Naive::new();
    for sq in 0..64 {
        let rank = sq / 8;
        let file = sq % 8;
        let expected = (7 - rank) + rank + (7 - file) + file;
        let board = board_with(&[(sq, Piece::Rook(Color::White))], Color::White);
        let moves = generator.generate_moves(&board);
        assert_eq!(moves.len(), expected);
    }
}

#[test]
fn bishop_moves_on_empty_board_match_edge_distances() {
    let generator = Naive::new();
    let min = |a: usize, b: usize| if a <= b { a } else { b };
    for sq in 0..64 {
        let n = 7 - sq / 8;
        let s = sq / 8;
        let e = 7 - sq % 8;
        let w = sq % 8;
        let expected = min(n, e) + min(s, e) + min(n, w) + min(s, w);
        let board = board_with(&[(sq, Piece::Bishop(Color::Black))], Color::Black);
        let moves = generator.generate_moves(&board);
        assert_eq!(moves.len(), expected);
    }
}

#[test]
fn corner_rook_has_fourteen_moves_and_corner_bishop_seven() {
    let generator = Naive::new();
    let rook = board_with(&[(0, Piece::Rook(Color::White))], Color::White);
    assert_eq!(generator.generate_moves(&rook).len(), 14);
    let bishop = board_with(&[(0, Piece::Bishop(Color::White))], Color::White);
    assert_eq!(generator.generate_moves(&bishop).len(), 7);
}

#[test]
fn slider_captures_and_stops_behind_the_captured_piece() {
    let generator = Naive::new();
    // A white rook on a1, a black pawn on a4: north yields a2, a3 and the
    // capture on a4, and nothing beyond; east is open for seven moves.
    let board = board_with(
        &[(0, Piece::Rook(Color::White)), (24, Piece::Pawn(Color::Black))],
        Color::White,
    );
    let moves = generator.generate_moves(&board);
    assert_eq!(moves.len(), 10);
    assert_eq!(count_with_target(&moves, 24), 1);
    for beyond in [32, 40, 48, 56] {
        assert_eq!(count_with_target(&moves, beyond), 0);
    }
}

#[test]
fn slider_stops_before_a_piece_of_its_own_color() {
    let generator = Naive::new();
    // A white rook on a1, a white knight on a4: north yields only a2 and
    // a3; there is no move onto a4 or beyond it.
    let board = board_with(
        &[(0, Piece::Rook(Color::White)), (24, Piece::Knight(Color::White))],
        Color::White,
    );
    let moves = generator.generate_moves(&board);
    assert_eq!(moves.len(), 9);
    for blocked in [24, 32, 40, 48, 56] {
        assert_eq!(count_with_target(&moves, blocked), 0);
    }
}

#[test]
fn only_the_side_to_move_generates() {
    let generator = Naive::new();
    let board = board_with(&[(0, Piece::Rook(Color::White))], Color::Black);
    assert_eq!(generator.generate_moves(&board).len(), 0);
}

#[test]
fn non_sliders_generate_nothing() {
    let generator = Naive::new();
    let board = board_with(
        &[
            (27, Piece::Knight(Color::White)),
            (28, Piece::Pawn(Color::White)),
            (29, Piece::King(Color::White)),
        ],
        Color::White,
    );
    assert_eq!(generator.generate_moves(&board).len(), 0);
}

#[test]
fn starting_position_sliders_are_all_blocked() {
    let generator = Naive::new();
    let board = Board::new();
    assert_eq!(generator.generate_moves(&board).len(), 0);
}

#[test]
fn every_generated_move_is_accepted_by_make_move() {
    let generator = Naive::new();
    let board = board_with(
        &[
            (27, Piece::Queen(Color::White)),
            (3, Piece::Rook(Color::White)),
            (24, Piece::Pawn(Color::White)),
            (31, Piece::Knight(Color::Black)),
            (59, Piece::Rook(Color::Black)),
        ],
        Color::White,
    );
    let moves = generator.generate_moves(&board);
    assert!(!moves.is_empty());
    for m in moves {
        let mut scratch = board.clone();
        assert!(scratch.make_move(m));
        assert_eq!(scratch.color_to_move(), Color::Black);
    }
}

#[test]
fn queen_walks_all_eight_directions() {
    let generator = Naive::new();
    // A queen on d4 with an empty board: 14 orthogonal plus 13 diagonal.
    let board = board_with(&[(27, Piece::Queen(Color::White))], Color::White);
    let moves = generator.generate_moves(&board);
    assert_eq!(moves.len(), 27);
    for m in moves.iter() {
        assert_eq!(m.origin.index, 27);
        assert_ne!(m.target.index, 27);
    }
}
