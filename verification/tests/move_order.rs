use engine::board::Board;
use engine::chess_move::{Move, MoveFlags};
use engine::io::parse_fen;
use engine::move_order::MoveOrder;
use engine::square::Square;

#[test]
fn test_move_order_create() {
    let move_order = MoveOrder::new();
    assert_eq!(move_order.killers[0][0], None);
    assert_eq!(move_order.history[0][0], 0);
}

#[test]
fn test_tt_move_priority() {
    let board = Board::startpos();
    let move_order = MoveOrder::new();

    let moves = board.generate_legal_moves();
    assert!(!moves.is_empty());

    let tt_move = moves.get(5); // Arbitrary move as TT move
    let other_move = moves.get(0);

    let tt_score = move_order.score_move(&board, tt_move, 0, Some(tt_move));
    let other_score = move_order.score_move(&board, other_move, 0, Some(tt_move));

    // TT move should have higher score
    assert!(tt_score > other_score);
    assert_eq!(tt_score, 10_000_000);
}

#[test]
fn test_capture_priority() {
    let move_order = MoveOrder::new();

    // Make a position with captures available
    let fen = "rnbqkbnr/ppp1pppp/8/3p4/4P3/8/PPPP1PPP/RNBQKBNR w KQkq - 0 1";
    let board = parse_fen(fen).unwrap();

    let moves = board.generate_legal_moves();
    let capture = moves.iter().find(|m| m.is_capture()).unwrap();
    let quiet = moves.iter().find(|m| !m.is_capture()).unwrap();

    let capture_score = move_order.score_move(&board, *capture, 0, None);
    let quiet_score = move_order.score_move(&board, *quiet, 0, None);

    // Captures should score higher than quiet moves
    assert!(capture_score > quiet_score);
}

#[test]
fn test_move_ordering_tt_move_first() {
    let board = Board::startpos();
    let mut move_order = MoveOrder::new();

    let mut moves = board.generate_legal_moves();
    assert!(moves.len() >= 6);

    let tt_move = moves.get(5); // Make an arbitrary move the TT move

    move_order.order_moves(&board, &mut moves, 0, Some(tt_move));

    // TT move should be sorted to first position
    assert_eq!(moves.get(0), tt_move);
}

#[test]
fn test_move_ordering_captures_before_quiet() {
    // Position with both captures and quiet moves
    let fen = "rnbqkbnr/ppp1pppp/8/3p4/4P3/8/PPPP1PPP/RNBQKBNR w KQkq - 0 1";
    let board = parse_fen(fen).unwrap();

    let mut moves = board.generate_legal_moves();
    let mut move_order = MoveOrder::new();

    move_order.order_moves(&board, &mut moves, 0, None);

    // Find first capture and first quiet move in ordered list
    let first_capture_idx = moves.iter().position(|m| m.is_capture());
    let first_quiet_idx = moves.iter().position(|m| !m.is_capture());

    if let (Some(cap_idx), Some(quiet_idx)) = (first_capture_idx, first_quiet_idx) {
        // Captures should come before quiet moves
        assert!(
            cap_idx < quiet_idx,
            "Captures should be ordered before quiet moves"
        );
    }
}

#[test]
fn test_clear() {
    let mut move_order = MoveOrder::new();

    // Manually set some data
    move_order.killers[0][0] = Some(Move::new(
        Square::E2(),
        Square::E4(),
        engine::chess_move::MoveFlags::QUIET,
    ));
    move_order.history[0][0] = 100;

    // Clear
    move_order.clear();

    // Should be reset
    assert_eq!(move_order.killers[0][0], None);
    assert_eq!(move_order.history[0][0], 0);
}
