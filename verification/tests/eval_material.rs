use engine::board::Board;
use engine::io::parse_fen;
use engine::piece::{Color, PieceType};
use engine::square::Square;
use engine::eval::material::{piece_value, evaluate_material, total_material, is_endgame};

#[test]
fn test_piece_values() {
    assert_eq!(piece_value(PieceType::Pawn), 100);
    assert_eq!(piece_value(PieceType::Knight), 320);
    assert_eq!(piece_value(PieceType::Bishop), 330);
    assert_eq!(piece_value(PieceType::Rook), 500);
    assert_eq!(piece_value(PieceType::Queen), 900);
    assert_eq!(piece_value(PieceType::King), 20_000);
}

#[test]
fn test_startpos_material() {
    let board = Board::startpos();
    let white_mat = evaluate_material(&board, Color::White);
    let black_mat = evaluate_material(&board, Color::Black);

    // Each side: 8P + 2N + 2B + 2R + Q + K
    // = 8*100 + 2*320 + 2*330 + 2*500 + 900 + 20000
    // = 800 + 640 + 660 + 1000 + 900 + 20000 = 24000
    assert_eq!(white_mat, 24_000);
    assert_eq!(black_mat, 24_000);
}

#[test]
fn test_material_imbalance() {
    // White missing a rook
    let fen = "rnbqkbnr/pppppppp/8/8/8/8/PPPPPPPP/RNBQKBN1 w KQkq - 0 1";
    let board = parse_fen(fen).unwrap();

    let white_mat = evaluate_material(&board, Color::White);
    let black_mat = evaluate_material(&board, Color::Black);

    assert_eq!(black_mat - white_mat, 500, "Black should be up a rook");
}

#[test]
fn test_is_endgame() {
    // Starting position - not endgame
    let board = Board::startpos();
    assert!(!is_endgame(&board));

    // Queens traded
    let fen = "rnb1kbnr/pppppppp/8/8/8/8/PPPPPPPP/RNB1KBNR w KQkq - 0 1";
    let board = parse_fen(fen).unwrap();
    assert!(is_endgame(&board));

    // King and pawn endgame
    let fen = "8/4k3/8/8/8/8/4K3/8 w - - 0 1";
    let board = parse_fen(fen).unwrap();
    assert!(is_endgame(&board));
}

#[test]
fn test_total_material() {
    let board = Board::startpos();
    let total = total_material(&board);
    assert_eq!(total, 48_000); // Both sides
}

