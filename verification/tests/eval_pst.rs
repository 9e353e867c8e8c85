use engine::board::Board;
use engine::io::parse_fen;
use engine::piece::{Color, PieceType};
use engine::square::Square;
use engine::eval::pst::PieceSquareTables;

#[test]
fn test_pst_startpos() {
    let board = Board::startpos();
    let pst = PieceSquareTables::default();

    let white_score = pst.evaluate_position(&board, Color::White);
    let black_score = pst.evaluate_position(&board, Color::Black);

    // Starting position is symmetric, so scores should be equal
    assert_eq!(
        white_score, black_score,
        "PST should be symmetric for starting position"
    );
}

#[test]
fn test_pst_central_pawn() {
    // Pawn on e4 should have bonus
    let fen = "rnbqkbnr/pppppppp/8/8/4P3/8/PPPP1PPP/RNBQKBNR w KQkq - 0 1";
    let board = parse_fen(fen).unwrap();
    let pst = PieceSquareTables::default();

    let white_score = pst.evaluate_position(&board, Color::White);
    let black_score = pst.evaluate_position(&board, Color::Black);

    // White should have slightly better PST score due to central pawn
    assert!(
        white_score > black_score,
        "White central pawn should have PST bonus"
    );
}

#[test]
fn test_pst_color_flip() {
    // Test that PST correctly flips for black pieces
    let pst = PieceSquareTables::default();

    // White pawn on e4 (rank 3, file 4)
    let sq_white = Square::E4();
    let idx_white = sq_white.index();

    // Black pawn on e5 (rank 4, file 4)
    let sq_black = Square::E5();
    // Black uses flipped rank
    let idx_black = Square::from_coords(sq_black.file(), 7 - sq_black.rank()).index();

    // Should have similar values (mirror positions)
    let white_value = pst.mg_tables[PieceType::Pawn.index()][idx_white as usize];
    let black_value = pst.mg_tables[PieceType::Pawn.index()][idx_black as usize];

    assert_eq!(
        white_value, black_value,
        "Mirrored positions should have same PST value"
    );
}

