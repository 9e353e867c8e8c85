use engine::chess_move::{Move, MoveFlags};
use engine::piece::PieceType;
use engine::square::Square;

#[test]
fn move_packing_quiet() {
    let m = Move::new(Square::E2(), Square::E4(), MoveFlags::QUIET);
    assert_eq!(m.from(), Square::E2());
    assert_eq!(m.to(), Square::E4());
    assert_eq!(m.flags(), MoveFlags::QUIET);
    assert!(m.is_quiet());
    assert!(!m.is_capture());
}

#[test]
fn move_packing_double_pawn_push() {
    let m = Move::new(Square::E2(), Square::E4(), MoveFlags::DOUBLE_PAWN_PUSH);
    assert_eq!(m.from(), Square::E2());
    assert_eq!(m.to(), Square::E4());
    assert!(m.is_double_pawn_push());
    assert!(!m.is_capture());
}

#[test]
fn move_packing_capture() {
    let m = Move::new(Square::E4(), Square::D5(), MoveFlags::CAPTURE);
    assert_eq!(m.from(), Square::E4());
    assert_eq!(m.to(), Square::D5());
    assert!(m.is_capture());
    assert!(!m.is_promotion());
}

#[test]
fn move_packing_castling() {
    let kingside = Move::new(Square::E1(), Square::G1(), MoveFlags::KING_CASTLE);
    assert!(kingside.is_castling());
    assert!(!kingside.is_capture());

    let queenside = Move::new(Square::E1(), Square::C1(), MoveFlags::QUEEN_CASTLE);
    assert!(queenside.is_castling());
}

#[test]
fn move_packing_en_passant() {
    let m = Move::new(Square::E5(), Square::D6(), MoveFlags::EP_CAPTURE);
    assert!(m.is_en_passant());
    assert!(m.is_capture());
}

#[test]
fn move_packing_promotion_quiet() {
    let m = Move::new(Square::E7(), Square::E8(), MoveFlags::QUEEN_PROMOTION);
    assert!(m.is_promotion());
    assert!(!m.is_capture());
    assert_eq!(m.promotion_piece(), Some(PieceType::Queen));
}

#[test]
fn move_packing_promotion_capture() {
    let m = Move::new(Square::E7(), Square::D8(), MoveFlags::KNIGHT_PROMOTION_CAPTURE);
    assert!(m.is_promotion());
    assert!(m.is_capture());
    assert_eq!(m.promotion_piece(), Some(PieceType::Knight));
}

#[test]
fn move_all_promotions() {
    let promotions = [
        (MoveFlags::KNIGHT_PROMOTION, PieceType::Knight),
        (MoveFlags::BISHOP_PROMOTION, PieceType::Bishop),
        (MoveFlags::ROOK_PROMOTION, PieceType::Rook),
        (MoveFlags::QUEEN_PROMOTION, PieceType::Queen),
    ];

    for (flag, expected_piece) in promotions {
        let m = Move::new(Square::A7(), Square::A8(), flag);
        assert_eq!(m.promotion_piece(), Some(expected_piece));
    }
}

#[test]
fn move_null() {
    let m = Move::null();
    assert!(m.is_null());
    assert_eq!(m.from(), Square::A1());
    assert_eq!(m.to(), Square::A1());
}

#[test]
fn move_to_uci() {
    assert_eq!(
        Move::new(Square::E2(), Square::E4(), MoveFlags::QUIET).to_uci(),
        "e2e4"
    );
    assert_eq!(
        Move::new(Square::E7(), Square::E8(), MoveFlags::QUEEN_PROMOTION).to_uci(),
        "e7e8q"
    );
    assert_eq!(
        Move::new(Square::G7(), Square::H8(), MoveFlags::KNIGHT_PROMOTION_CAPTURE).to_uci(),
        "g7h8n"
    );
}

#[test]
fn move_size() {
    // Ensure Move is exactly 2 bytes
    assert_eq!(std::mem::size_of::<Move>(), 2);
}

