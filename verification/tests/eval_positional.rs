use engine::board::Board;
use engine::io::parse_fen;
use engine::piece::{Color, PieceType};
use engine::square::Square;
use engine::eval::positional::{evaluate_mobility, evaluate_positional, MOBILITY_BONUS};

#[test]
fn test_mobility_startpos() {
    let board = Board::startpos();

    let white_mobility = evaluate_mobility(&board, Color::White);
    let black_mobility = evaluate_mobility(&board, Color::Black);

    // Starting position is symmetric
    assert_eq!(white_mobility, black_mobility);
    // Should have 20 legal moves each (8 pawns * 2 + 2 knights * 2)
    assert_eq!(white_mobility, 20 * MOBILITY_BONUS);
}

#[test]
fn test_mobility_more_moves() {
    // Position with more piece activity
    let fen = "rnbqkbnr/pppp1ppp/8/4p3/4P3/8/PPPP1PPP/RNBQKBNR w KQkq - 0 2";
    let board = parse_fen(fen).unwrap();

    let white_mobility = evaluate_mobility(&board, Color::White);

    // Should have more moves than starting position
    // (bishop and queen have some moves now)
    assert!(white_mobility > 20 * MOBILITY_BONUS);
}

