use engine::chess_move::{Move, MoveFlags};
use engine::io::parse_fen;
use engine::movegen::generate_moves;
use engine::search::pruning::{can_futility_prune, can_reverse_futility_prune, can_razor, can_late_move_prune, can_see_prune, can_multi_cut, should_try_probcut, probcut_beta, is_pruning_safe};
use engine::square::Square;

#[test]
fn test_futility_pruning_depth() {
    // Should work at shallow depths
    assert!(can_futility_prune(1, false, false, -200, 0));
    assert!(can_futility_prune(2, false, false, -300, 0));
    assert!(can_futility_prune(3, false, false, -400, 0));

    // Should not work at higher depths
    assert!(!can_futility_prune(4, false, false, -500, 0));
    assert!(!can_futility_prune(5, false, false, -600, 0));
}

#[test]
fn test_futility_pruning_conditions() {
    // Should not work in check
    assert!(!can_futility_prune(1, true, false, -200, 0));

    // Should not work in PV
    assert!(!can_futility_prune(1, false, true, -200, 0));

    // Should not work if eval + margin >= alpha
    assert!(!can_futility_prune(1, false, false, 50, 0));
}

#[test]
fn test_reverse_futility_pruning() {
    // Should work when eval - margin >= beta
    // depth=3, margin=300, so need eval >= beta + 300 = 300 + 300 = 600
    let (can_prune, score) = can_reverse_futility_prune(3, false, false, 700, 300);
    assert!(can_prune);
    assert_eq!(score, 700);

    // Should not work when eval - margin < beta
    let (can_prune, _) = can_reverse_futility_prune(3, false, false, 500, 300);
    assert!(!can_prune);

    // Should not work in check
    let (can_prune, _) = can_reverse_futility_prune(3, true, false, 700, 300);
    assert!(!can_prune);

    // Should not work in PV
    let (can_prune, _) = can_reverse_futility_prune(3, false, true, 700, 300);
    assert!(!can_prune);

    // Should not work at high depth
    let (can_prune, _) = can_reverse_futility_prune(6, false, false, 700, 300);
    assert!(!can_prune);
}

#[test]
fn test_reverse_futility_mate_scores() {
    // Should not apply near mate scores
    let (can_prune, _) = can_reverse_futility_prune(3, false, false, 15000, 300);
    assert!(!can_prune);

    let (can_prune, _) = can_reverse_futility_prune(3, false, false, -15000, 300);
    assert!(!can_prune);
}

#[test]
fn test_razoring() {
    // Should work when eval + margin < alpha
    // depth=2, margin=300, so need eval < -300 for eval+margin < 0
    assert!(can_razor(2, false, false, -400, 0));
    assert!(can_razor(1, false, false, -250, 0));

    // Should not work when eval + margin >= alpha
    assert!(!can_razor(2, false, false, -300, 0)); // -300 + 300 = 0, not < 0

    // Should not work in check
    assert!(!can_razor(2, true, false, -400, 0));

    // Should not work in PV
    assert!(!can_razor(2, false, true, -400, 0));

    // Should not work at depth 0 or > 3
    assert!(!can_razor(0, false, false, -400, 0));
    assert!(!can_razor(4, false, false, -400, 0));
}

#[test]
fn test_late_move_pruning() {
    let quiet_move = Move::new(
        Square::from_algebraic("e2").unwrap(),
        Square::from_algebraic("e4").unwrap(),
        MoveFlags::QUIET,
    );

    // Should prune late quiet moves
    assert!(can_late_move_prune(1, false, 5, quiet_move));
    assert!(can_late_move_prune(2, false, 10, quiet_move));

    // Should not prune early moves
    assert!(!can_late_move_prune(1, false, 2, quiet_move));
    assert!(!can_late_move_prune(2, false, 4, quiet_move));

    // Should not prune in check
    assert!(!can_late_move_prune(1, true, 10, quiet_move));
}

#[test]
fn test_late_move_pruning_tactical() {
    let capture = Move::new(
        Square::from_algebraic("e4").unwrap(),
        Square::from_algebraic("d5").unwrap(),
        MoveFlags::CAPTURE,
    );

    let promotion = Move::new(
        Square::from_algebraic("e7").unwrap(),
        Square::from_algebraic("e8").unwrap(),
        MoveFlags::QUEEN_PROMOTION,
    );

    // Should not prune captures or promotions
    assert!(!can_late_move_prune(1, false, 10, capture));
    assert!(!can_late_move_prune(1, false, 10, promotion));
}

#[test]
fn test_see_pruning() {
    // Test with a position where we can evaluate captures
    let board =
        parse_fen("rnbqkbnr/ppp1pppp/8/3p4/4P3/8/PPPP1PPP/RNBQKBNR w KQkq d6 0 2").unwrap();

    let moves = generate_moves(&board);
    let capture = moves
        .iter()
        .find(|m| m.from().to_algebraic() == "e4" && m.to().to_algebraic() == "d5")
        .unwrap();

    // Good capture should not be pruned
    assert!(!can_see_prune(&board, *capture, false));
}

#[test]
fn test_multi_cut() {
    // Should trigger with enough cutoffs
    assert!(can_multi_cut(3));
    assert!(can_multi_cut(4));
    assert!(can_multi_cut(5));

    // Should not trigger with too few
    assert!(!can_multi_cut(0));
    assert!(!can_multi_cut(1));
    assert!(!can_multi_cut(2));
}

#[test]
fn test_probcut_conditions() {
    // Should work at high depth, non-PV
    assert!(should_try_probcut(5, false));
    assert!(should_try_probcut(10, false));

    // Should not work at low depth
    assert!(!should_try_probcut(4, false));
    assert!(!should_try_probcut(3, false));

    // Should not work in PV
    assert!(!should_try_probcut(5, true));
}
