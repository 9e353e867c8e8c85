use engine::bitboard::Bitboard;
use engine::square::Square;

#[test]
fn bitboard_empty() {
    let bb = Bitboard::EMPTY();
    assert!(bb.is_empty());
    assert_eq!(bb.count(), 0);
}

#[test]
fn bitboard_from_square() {
    let bb = Bitboard::from_square(Square::E4());
    assert!(!bb.is_empty());
    assert_eq!(bb.count(), 1);
    assert!(bb.contains(Square::E4()));
    assert!(!bb.contains(Square::E5()));
}

#[test]
fn bitboard_set_clear() {
    let mut bb = Bitboard::EMPTY();
    bb = bb.set(Square::E4());
    assert!(bb.contains(Square::E4()));
    assert_eq!(bb.count(), 1);

    bb = bb.set(Square::E5());
    assert!(bb.contains(Square::E5()));
    assert_eq!(bb.count(), 2);

    bb = bb.clear(Square::E4());
    assert!(!bb.contains(Square::E4()));
    assert!(bb.contains(Square::E5()));
    assert_eq!(bb.count(), 1);
}

#[test]
fn bitboard_toggle() {
    let mut bb = Bitboard::EMPTY();
    bb = bb.toggle(Square::E4());
    assert!(bb.contains(Square::E4()));

    bb = bb.toggle(Square::E4());
    assert!(!bb.contains(Square::E4()));
}

#[test]
fn bitboard_lsb_msb() {
    let bb = Bitboard::from_square(Square::A1())
        .set(Square::H8())
        .set(Square::E4());

    assert_eq!(bb.lsb(), Some(Square::A1()));
    assert_eq!(bb.msb(), Some(Square::H8()));

    assert_eq!(Bitboard::EMPTY().lsb(), None);
    assert_eq!(Bitboard::EMPTY().msb(), None);
}

#[test]
fn bitboard_pop_lsb() {
    let mut bb = Bitboard::from_square(Square::A1())
        .set(Square::E4())
        .set(Square::H8());

    assert_eq!(bb.pop_lsb(), Some(Square::A1()));
    assert_eq!(bb.count(), 2);
    assert_eq!(bb.pop_lsb(), Some(Square::E4()));
    assert_eq!(bb.count(), 1);
    assert_eq!(bb.pop_lsb(), Some(Square::H8()));
    assert_eq!(bb.count(), 0);
    assert_eq!(bb.pop_lsb(), None);
}

#[test]
fn bitboard_iterator() {
    let bb = Bitboard::from_square(Square::A1())
        .set(Square::E4())
        .set(Square::H8());

    let squares: Vec<Square> = bb.squares();
    assert_eq!(squares.len(), 3);
    assert_eq!(squares[0], Square::A1());
    assert_eq!(squares[1], Square::E4());
    assert_eq!(squares[2], Square::H8());
}

#[test]
fn bitboard_bitwise_ops() {
    let bb1 = Bitboard::from_square(Square::E4()).set(Square::E5());
    let bb2 = Bitboard::from_square(Square::E5()).set(Square::D4());

    let and = bb1 & bb2;
    assert_eq!(and.count(), 1);
    assert!(and.contains(Square::E5()));

    let or = bb1 | bb2;
    assert_eq!(or.count(), 3);
    assert!(or.contains(Square::E4()));
    assert!(or.contains(Square::E5()));
    assert!(or.contains(Square::D4()));

    let xor = bb1 ^ bb2;
    assert_eq!(xor.count(), 2);
    assert!(xor.contains(Square::E4()));
    assert!(xor.contains(Square::D4()));
    assert!(!xor.contains(Square::E5()));
}

#[test]
fn bitboard_shifts() {
    let bb = Bitboard::from_square(Square::E4());

    let north = bb.shift_north();
    assert!(north.contains(Square::E5()));

    let south = bb.shift_south();
    assert!(south.contains(Square::from_coords(4, 2)));

    let east = bb.shift_east();
    assert!(east.contains(Square::from_coords(5, 3)));

    let west = bb.shift_west();
    assert!(west.contains(Square::from_coords(3, 3)));
}

