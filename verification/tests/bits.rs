use chess_engine::bits::{at_most_one, count_ones, more_than_one, only_one};

#[test]
fn count_ones_counts() {
    assert_eq!(count_ones(0), 0);
    assert_eq!(count_ones(1), 1);
    assert_eq!(count_ones(0b1011), 3);
    assert_eq!(count_ones(u64::MAX), 64);
    assert_eq!(count_ones(1u64 << 63), 1);
}

#[test]
fn at_most_one_bit_set() {
    assert!(at_most_one(0));
    assert!(at_most_one(1));
    assert!(at_most_one(1u64 << 40));
    assert!(!at_most_one(3));
    assert!(!at_most_one(u64::MAX));
}

#[test]
fn only_one_bit_set() {
    assert!(!only_one(0));
    assert!(only_one(1));
    assert!(only_one(1u64 << 63));
    assert!(!only_one(5));
}

#[test]
fn more_than_one_bit_set() {
    assert!(!more_than_one(0));
    assert!(!more_than_one(2));
    assert!(more_than_one(6));
    assert!(more_than_one(u64::MAX));
}
