use chess_engine::init::{compute_squares_to_edge, Direction};

const ALL_DIRECTIONS: [Direction; 8] = [
    Direction::North,
    Direction::South,
    Direction::East,
    Direction::West,
    Direction::NorthEast,
    Direction::SouthWest,
    Direction::NorthWest,
    Direction::SouthEast,
];

fn min(a: usize, b: usize) -> usize {
    if a <= b { a } else { b }
}

#[test]
fn squares_to_edge() {
    let table = compute_squares_to_edge();
    for index in 0..64 {
        let rank = index / 8;
        let file = index % 8;
        let n = 7 - rank;
        let s = rank;
        let e = 7 - file;
        let w = file;
        assert_eq!(table.get(index, Direction::North), n);
        assert_eq!(table.get(index, Direction::South), s);
        assert_eq!(table.get(index, Direction::East), e);
        assert_eq!(table.get(index, Direction::West), w);
        assert_eq!(table.get(index, Direction::NorthEast), min(n, e));
        assert_eq!(table.get(index, Direction::SouthEast), min(s, e));
        assert_eq!(table.get(index, Direction::NorthWest), min(n, w));
        assert_eq!(table.get(index, Direction::SouthWest), min(s, w));
    }
    // The corner square a1 in particular, in table order.
    let a1: Vec<usize> = ALL_DIRECTIONS.iter().map(|d| table.get(0, *d)).collect();
    assert_eq!(a1, vec![7, 0, 7, 0, 7, 0, 0, 0]);
}

#[test]
fn direction_offsets() {
    assert_eq!(Direction::North.offset(), 8);
    assert_eq!(Direction::South.offset(), -8);
    assert_eq!(Direction::East.offset(), 1);
    assert_eq!(Direction::West.offset(), -1);
    assert_eq!(Direction::NorthEast.offset(), 9);
    assert_eq!(Direction::SouthWest.offset(), -9);
    assert_eq!(Direction::NorthWest.offset(), 7);
    assert_eq!(Direction::SouthEast.offset(), -7);
}
