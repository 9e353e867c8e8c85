use engine::board::Board;
use engine::io::parse_fen;
use engine::piece::{Color, PieceType};
use engine::square::Square;
use engine::eval::threats::evaluate_threats;

#[test]
fn test_defended_piece() {
    // Position with defended pieces
    let board = parse_fen("rnbqkbnr/pppppppp/8/8/8/8/PPPPPPPP/RNBQKBNR w KQkq - 0 1").unwrap();

    let (mg, eg) = evaluate_threats(&board);

    // No threats in starting position
    assert_eq!(mg, 0, "No threats in starting position");
    assert_eq!(eg, 0, "No threats in starting position");
}

#[test]
fn test_attacked_by_pawn() {
    // Position where pawn attacks knight
    let board = parse_fen("rnbqkb1r/pppp1ppp/8/4n3/3P4/8/PPP1PPPP/RNBQKBNR w KQkq - 0 1").unwrap();

    let (mg, eg) = evaluate_threats(&board);

    // White pawn threatens black knight (worth more)
    assert!(mg > 0, "Pawn should threaten knight");
    assert!(eg > 0, "Pawn should threaten knight in endgame");
}


#[test]
fn test_hanging_piece() {
    // Position with a hanging knight on e5
    let board = parse_fen("rnbqkb1r/pppp1ppp/8/4n3/8/8/PPPPPPPP/RNBQKBNR w KQkq - 0 1").unwrap();

    let (mg, eg) = evaluate_threats(&board);

    // White should get bonus for threatening the hanging knight
    assert!(mg > 0, "Should detect hanging knight");
    assert!(eg > 0, "Should detect hanging knight in endgame");
}
