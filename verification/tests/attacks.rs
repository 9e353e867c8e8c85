use engine::attacks::{pawn_attacks, knight_attacks, king_attacks, bishop_attacks, rook_attacks, queen_attacks};
use engine::bitboard::Bitboard;
use engine::piece::Color;
use engine::square::Square;

#[test]
fn test_pawn_attacks_white() {
    // E4 = coords(4, 3), attacks to D5=coords(3,4) and F5=coords(5,4)
    let attacks = pawn_attacks(Square::E4(), Color::White);
    assert!(attacks.contains(Square::D5())); // D5 = coords(3, 4)
    assert!(attacks.contains(Square::from_coords(5, 4))); // F5
    assert_eq!(attacks.count(), 2);
}

#[test]
fn test_pawn_attacks_black() {
    // E4 = coords(4, 3), black attacks down to D3=coords(3,2) and F3=coords(5,2)
    let attacks = pawn_attacks(Square::E4(), Color::Black);
    assert!(attacks.contains(Square::from_coords(3, 2))); // D3
    assert!(attacks.contains(Square::from_coords(5, 2))); // F3
    assert_eq!(attacks.count(), 2);
}

#[test]
fn test_pawn_attacks_edge() {
    // A2 = coords(0, 1), white attacks to B3=coords(1,2)
    let attacks = pawn_attacks(Square::A2(), Color::White);
    assert_eq!(attacks.count(), 1);
    assert!(attacks.contains(Square::from_coords(1, 2))); // B3

    // H7 = coords(7, 6), black attacks to G6=coords(6,5)
    let attacks = pawn_attacks(Square::H7(), Color::Black);
    assert_eq!(attacks.count(), 1);
    assert!(attacks.contains(Square::from_coords(6, 5))); // G6
}

#[test]
fn test_knight_attacks_center() {
    // E4 = coords(4, 3)
    let attacks = knight_attacks(Square::E4());
    assert_eq!(attacks.count(), 8);

    // Check all 8 knight moves from E4
    assert!(attacks.contains(Square::D2())); // D2 = coords(3, 1)
    assert!(attacks.contains(Square::from_coords(5, 1))); // F2
    assert!(attacks.contains(Square::from_coords(2, 2))); // C3
    assert!(attacks.contains(Square::from_coords(6, 2))); // G3
    assert!(attacks.contains(Square::from_coords(2, 4))); // C5
    assert!(attacks.contains(Square::from_coords(6, 4))); // G5
    assert!(attacks.contains(Square::D6())); // D6 = coords(3, 5)
    assert!(attacks.contains(Square::from_coords(5, 5))); // F6
}

#[test]
fn test_knight_attacks_corner() {
    // Knight in corner has only 2 moves
    let attacks = knight_attacks(Square::A1());
    assert_eq!(attacks.count(), 2);
    assert!(attacks.contains(Square::from_coords(2, 1))); // c2
    assert!(attacks.contains(Square::from_coords(1, 2))); // b3
}

#[test]
fn test_king_attacks_center() {
    // E4 = coords(4, 3)
    let attacks = king_attacks(Square::E4());
    assert_eq!(attacks.count(), 8);

    // Check all 8 adjacent squares
    assert!(attacks.contains(Square::from_coords(3, 2))); // D3
    assert!(attacks.contains(Square::E3())); // E3 = coords(4, 2)
    assert!(attacks.contains(Square::from_coords(5, 2))); // F3
    assert!(attacks.contains(Square::D4())); // D4 = coords(3, 3)
    assert!(attacks.contains(Square::from_coords(5, 3))); // F4
    assert!(attacks.contains(Square::D5())); // D5 = coords(3, 4)
    assert!(attacks.contains(Square::E5())); // E5 = coords(4, 4)
    assert!(attacks.contains(Square::from_coords(5, 4))); // F5
}

#[test]
fn test_king_attacks_corner() {
    // King in corner has only 3 moves
    let attacks = king_attacks(Square::A1());
    assert_eq!(attacks.count(), 3);
    assert!(attacks.contains(Square::A2()));
    assert!(attacks.contains(Square::B1()));
    assert!(attacks.contains(Square::from_coords(1, 1))); // b2
}

#[test]
fn test_bishop_attacks_empty_board() {
    let occupancy = Bitboard::EMPTY();
    // E4 = coords(4, 3)
    let attacks = bishop_attacks(Square::E4(), occupancy);

    // Should reach all diagonal squares
    assert!(attacks.contains(Square::A8())); // A8 = coords(0, 7) - NW diagonal
    assert!(attacks.contains(Square::from_coords(7, 0))); // H1 - SE diagonal
    assert!(attacks.contains(Square::D5())); // D5 = coords(3, 4) - NW
    assert!(attacks.contains(Square::from_coords(5, 2))); // F3 - SE

    // Should not reach non-diagonal squares
    assert!(!attacks.contains(Square::E5())); // Same file
    assert!(!attacks.contains(Square::D4())); // Same rank - 1 file
}

#[test]
fn test_bishop_attacks_with_blocker() {
    let mut occupancy = Bitboard::EMPTY();
    occupancy = occupancy.set(Square::from_coords(5, 4)); // Blocker on F5

    // E4 = coords(4, 3)
    let attacks = bishop_attacks(Square::E4(), occupancy);

    // Should include the blocker square F5
    assert!(attacks.contains(Square::from_coords(5, 4)));

    // Should not go beyond the blocker (F5 blocks to G6, H7)
    assert!(!attacks.contains(Square::from_coords(6, 5))); // G6
    assert!(!attacks.contains(Square::from_coords(7, 6))); // H7
}

#[test]
fn test_rook_attacks_empty_board() {
    let occupancy = Bitboard::EMPTY();
    let attacks = rook_attacks(Square::A1(), occupancy);

    // Should reach entire file and rank
    assert!(attacks.contains(Square::A8()));
    assert!(attacks.contains(Square::H1()));
    assert_eq!(attacks.count(), 14); // 7 squares up + 7 squares right

    // Should not reach diagonal squares
    assert!(!attacks.contains(Square::from_coords(1, 1))); // b2
}

#[test]
fn test_rook_attacks_with_blocker() {
    let mut occupancy = Bitboard::EMPTY();
    occupancy = occupancy.set(Square::E4()); // Blocker on e4

    let attacks = rook_attacks(Square::E1(), occupancy);

    // Should include the blocker
    assert!(attacks.contains(Square::E4()));

    // Should not go beyond the blocker
    assert!(!attacks.contains(Square::E5()));
    assert!(!attacks.contains(Square::E8()));
}

#[test]
fn test_queen_attacks() {
    let occupancy = Bitboard::EMPTY();
    let attacks = queen_attacks(Square::E4(), occupancy);

    // Queen should combine bishop and rook moves
    let bishop_atk = bishop_attacks(Square::E4(), occupancy);
    let rook_atk = rook_attacks(Square::E4(), occupancy);
    let combined = bishop_atk | rook_atk;

    assert_eq!(attacks, combined);
    assert_eq!(attacks.count(), 27); // Queen in center on empty board
}

