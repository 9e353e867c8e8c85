use engine::piece::{Color, Piece, PieceType};

#[test]
fn color_opponent() {
    assert_eq!(Color::White.opponent(), Color::Black);
    assert_eq!(Color::Black.opponent(), Color::White);
}

#[test]
fn color_index() {
    assert_eq!(Color::White.index(), 0);
    assert_eq!(Color::Black.index(), 1);
    assert_eq!(Color::from_index(0), Color::White);
    assert_eq!(Color::from_index(1), Color::Black);
}

#[test]
fn piece_type_index() {
    assert_eq!(PieceType::Pawn.index(), 0);
    assert_eq!(PieceType::King.index(), 5);
    assert_eq!(PieceType::from_index(0), Some(PieceType::Pawn));
    assert_eq!(PieceType::from_index(5), Some(PieceType::King));
    assert_eq!(PieceType::from_index(6), None);
}

#[test]
fn piece_type_char() {
    assert_eq!(PieceType::Pawn.to_char(), 'p');
    assert_eq!(PieceType::Knight.to_char(), 'n');
    assert_eq!(PieceType::King.to_char(), 'k');

    assert_eq!(PieceType::from_char('p'), Some(PieceType::Pawn));
    assert_eq!(PieceType::from_char('P'), Some(PieceType::Pawn));
    assert_eq!(PieceType::from_char('n'), Some(PieceType::Knight));
    assert_eq!(PieceType::from_char('x'), None);
}

#[test]
fn piece_char() {
    let white_pawn = Piece::new(PieceType::Pawn, Color::White);
    let black_king = Piece::new(PieceType::King, Color::Black);

    assert_eq!(white_pawn.to_char(), 'P');
    assert_eq!(black_king.to_char(), 'k');

    assert_eq!(Piece::from_char('P'), Some(white_pawn));
    assert_eq!(Piece::from_char('k'), Some(black_king));
    assert_eq!(Piece::from_char('x'), None);
}

#[test]
fn piece_all_types() {
    let all = PieceType::all();
    assert_eq!(all.len(), 6);
    assert_eq!(all[0], PieceType::Pawn);
    assert_eq!(all[5], PieceType::King);
}

