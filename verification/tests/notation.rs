use chess_engine::board::{Move, Square};
use chess_engine::errors::ParseError;

#[test]
fn bitboard_square_struct() {
    assert!(Square::from_notation("a1").is_ok());
    assert!(Square::from_notation("h8").is_ok());
    assert!(Square::from_notation("u9").is_err());
}

#[test]
fn board_square_struct() {
    assert!(Square::from_notation("a1").is_ok());
    assert!(Square::from_notation("h8").is_ok());
    assert!(Square::from_notation("u9").is_err());
    assert!(Square::from_notation("b0").is_err());
}

#[test]
fn bitboard_move_struct() {
    assert!(Move::from_notation("a1h8").is_ok());
    assert!(Move::from_notation("a1a1").is_err());
    assert!(Move::from_notation("a1h").is_err());
    assert!(Move::from_notation("ah8").is_err());
}

#[test]
fn board_move_struct() {
    assert!(Move::from_notation("a1h8").is_ok());
    assert!(Move::from_notation("a1a1").is_err());
    assert!(Move::from_notation("a1h").is_err());
    assert!(Move::from_notation("ah8").is_err());
}

#[test]
fn square_accepts_all_64() {
    let files = ['a', 'b', 'c', 'd', 'e', 'f', 'g', 'h'];
    let ranks = ['1', '2', '3', '4', '5', '6', '7', '8'];
    for (f, file) in files.iter().enumerate() {
        for (r, rank) in ranks.iter().enumerate() {
            let text: String = [*file, *rank].iter().collect();
            let sq = Square::from_notation(&text).unwrap();
            assert_eq!(sq.index as usize, r * 8 + f);
            assert_eq!(sq.get_rank(), r);
            assert_eq!(sq.get_file(), f);
        }
    }
}

#[test]
fn square_is_case_insensitive_on_file() {
    assert_eq!(Square::from_notation("E4"), Square::from_notation("e4"));
    let sq = Square::from_notation("A1").unwrap();
    assert_eq!(sq.index, 0);
}

#[test]
fn square_rejects_bad_text() {
    assert_eq!(Square::from_notation("u9"), Err(ParseError::UnknownFile('u')));
    assert_eq!(Square::from_notation("a0"), Err(ParseError::UnknownRank('0')));
    assert_eq!(Square::from_notation("a9"), Err(ParseError::UnknownRank('9')));
    assert_eq!(Square::from_notation("i1"), Err(ParseError::UnknownFile('i')));
    assert_eq!(Square::from_notation(""), Err(ParseError::InvalidLength));
    assert_eq!(Square::from_notation("a"), Err(ParseError::InvalidLength));
    assert_eq!(Square::from_notation("a1x"), Err(ParseError::InvalidLength));
}

#[test]
fn move_notation_decodes_squares() {
    let m = Move::from_notation("a1h8").unwrap();
    assert_eq!(m.origin.index, 0);
    assert_eq!(m.target.index, 63);
    assert_eq!(Move::from_notation("a1a1"), Err(ParseError::NullMove));
    assert_eq!(Move::from_notation("a1h"), Err(ParseError::InvalidLength));
    assert_eq!(Move::from_notation("ah8"), Err(ParseError::InvalidLength));
    let e2e4 = Move::from_notation("e2e4").unwrap();
    assert_eq!(e2e4.origin.index, 12);
    assert_eq!(e2e4.target.index, 28);
}

#[test]
fn move_from_indices_keeps_the_squares() {
    let m = Move::from_indices(0, 63);
    assert_eq!(m.origin, Square { index: 0 });
    assert_eq!(m.target, Square { index: 63 });
}
