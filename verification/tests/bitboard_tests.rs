use aperture_movegen::BitBoard;

#[test]
fn from_bytes_white_squares() {
    assert_eq!(
        0b_10101010_01010101_10101010_01010101_10101010_01010101_10101010_01010101,
        BitBoard::from_bytes([
            0b_10101010,
            0b_01010101,
            0b_10101010,
            0b_01010101,
            0b_10101010,
            0b_01010101,
            0b_10101010,
            0b_01010101,
        ])
        .0
    );
}

#[test]
fn from_bytes_black_squares() {
    assert_eq!(
        0b_01010101_10101010_01010101_10101010_01010101_10101010_01010101_10101010,
        BitBoard::from_bytes([
            0b_01010101,
            0b_10101010,
            0b_01010101,
            0b_10101010,
            0b_01010101,
            0b_10101010,
            0b_01010101,
            0b_10101010,
        ])
        .0
    );
}

#[test]
fn from_bytes_e4() {
    assert_eq!(
        1 << 36,
        BitBoard::from_bytes([
            0b_00000000,
            0b_00000000,
            0b_00000000,
            0b_00000000,
            0b_00001000,
            0b_00000000,
            0b_00000000,
            0b_00000000,
        ])
        .0
    );
}

#[test]
fn set_clear_test_roundtrip() {
    let empty = BitBoard(0);
    let with_bit = empty.set(36);
    assert!(with_bit.test(36));
    assert!(!empty.test(36));
    assert_eq!(with_bit.0, 1u64 << 36);
    let cleared = with_bit.clear(36);
    assert_eq!(cleared.0, 0);
}

#[test]
fn count_and_lowest() {
    assert_eq!(BitBoard(0).count(), 0);
    assert_eq!(BitBoard(0).lowest(), None);
    let b = BitBoard(0).set(3).set(40).set(63);
    assert_eq!(b.count(), 3);
    assert_eq!(b.lowest(), Some(3));
}

#[test]
fn union_intersect_difference() {
    let a = BitBoard(0b_1100);
    let b = BitBoard(0b_1010);
    assert_eq!(a.union(&b).0, 0b_1110);
    assert_eq!(a.intersect(&b).0, 0b_1000);
    assert_eq!(a.difference(&b).0, 0b_0100);
}
