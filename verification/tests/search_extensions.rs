use engine::board::Board;
use engine::chess_move::{Move, MoveFlags};
use engine::io::parse_fen;
use engine::movegen::generate_moves;
use engine::search::extensions::{calculate_extension, is_recapture, is_passed_pawn_push_to_7th, singular_extension, MAX_EXTENSIONS_PER_PATH};
use engine::square::Square;

#[test]
fn test_check_extension() {
    // Position where white is in check
    let board =
        parse_fen("rnbqkbnr/pppp1ppp/8/4p3/6P1/5P2/PPPPP2P/RNBQKBNR b KQkq - 0 2").unwrap();

    let moves = generate_moves(&board);
    // Find a checking move (Qh4+)
    let checking_move = moves
        .iter()
        .find(|m| m.from().to_algebraic() == "d8" && m.to().to_algebraic() == "h4");

    if let Some(mv) = checking_move {
        let mut board_after = board.clone();
        board_after.make_move(*mv);

        // After the move, white is in check
        let in_check = board_after.is_in_check();
        let extension = calculate_extension(&board_after, *mv, in_check, None, 5, 0);

        if in_check {
            assert!(extension > 0, "Check should give extension");
        }
    }
}

#[test]
fn test_recapture_extension() {
    // Position with captures
    let board =
        parse_fen("rnbqkbnr/ppp1pppp/8/3p4/4P3/8/PPPP1PPP/RNBQKBNR w KQkq d6 0 2").unwrap();

    let moves = generate_moves(&board);
    let capture = moves
        .iter()
        .find(|m| m.from().to_algebraic() == "e4" && m.to().to_algebraic() == "d5");

    if let Some(first_capture) = capture {
        let mut board_after = board.clone();
        board_after.make_move(*first_capture);

        // Now black recaptures
        let moves2 = generate_moves(&board_after);
        let recapture = moves2.iter().find(|m| m.to().to_algebraic() == "d5");

        if let Some(recap) = recapture {
            let mut board_after2 = board_after.clone();
            board_after2.make_move(*recap);

            let extension =
                calculate_extension(&board_after2, *recap, false, Some(*first_capture), 5, 0);

            assert!(extension > 0, "Recapture should give extension");
        }
    }
}

#[test]
fn test_passed_pawn_extension() {
    // Position with a far advanced passed pawn
    let board = parse_fen("4k3/4P3/8/8/8/8/8/4K3 w - - 0 1").unwrap();

    let moves = generate_moves(&board);
    // The pawn is already on the 7th rank, any pawn move should extend
    let pawn_move = moves.iter().find(|m| m.from().to_algebraic() == "e7");

    if let Some(mv) = pawn_move {
        let mut board_after = board.clone();
        board_after.make_move(*mv);

        let extension = calculate_extension(&board_after, *mv, false, None, 5, 0);

        // May or may not extend depending on if we consider it still passed after the move
        // This test just checks it doesn't crash
        assert!(extension >= 0);
    }
}

#[test]
fn test_extension_limit() {
    // Test that extensions are limited
    let board = Board::startpos();
    let moves = generate_moves(&board);
    let mv = moves.iter().next().unwrap();

    // With max extensions already used, should get 0
    let extension = calculate_extension(&board, *mv, true, None, 5, MAX_EXTENSIONS_PER_PATH);

    assert_eq!(extension, 0, "Should not extend beyond limit");
}

#[test]
fn test_extension_remaining_budget() {
    // Test that extension respects remaining budget
    let board = Board::startpos();
    let moves = generate_moves(&board);
    let mv = moves.iter().next().unwrap();

    // With 15 extensions used, only 1 remaining
    let extension = calculate_extension(&board, *mv, true, None, 5, 15);

    assert!(
        extension <= 1,
        "Should not extend more than remaining budget"
    );
}

#[test]
fn test_no_extension_quiet_move() {
    // Regular quiet move should not extend
    let board = Board::startpos();
    let moves = generate_moves(&board);
    let quiet_move = moves
        .iter()
        .find(|m| m.from().to_algebraic() == "e2" && m.to().to_algebraic() == "e4")
        .unwrap();

    let mut board_after = board.clone();
    board_after.make_move(*quiet_move);

    let extension = calculate_extension(&board_after, *quiet_move, false, None, 5, 0);

    assert_eq!(extension, 0, "Quiet move should not extend");
}

#[test]
fn test_multiple_extension_conditions() {
    // Test position where multiple extension conditions might apply
    // But we should only extend once (take the max)
    let board = parse_fen("4k3/8/8/8/8/8/4p3/4K3 b - - 0 1").unwrap();

    let moves = generate_moves(&board);
    // Black pawn promotes with check
    let promoting_check = moves
        .iter()
        .find(|m| m.from().to_algebraic() == "e2" && m.is_promotion());

    if let Some(mv) = promoting_check {
        let mut board_after = board.clone();
        board_after.make_move(*mv);

        let in_check = board_after.is_in_check();
        let extension = calculate_extension(&board_after, *mv, in_check, None, 5, 0);

        // Should extend, but not double (at most 1 ply in this case)
        assert!(extension > 0);
        assert!(extension <= 2, "Should not stack extensions excessively");
    }
}

#[test]
fn test_is_recapture_same_square() {

    let board = Board::startpos();
    let moves = generate_moves(&board);
    let mv1 = moves.iter().next().unwrap();

    // Same destination = recapture
    let mv2 = Move::new(
        Square::from_algebraic("f2").unwrap(),
        mv1.to(),
        MoveFlags::CAPTURE,
    );

    assert!(is_recapture(mv2, *mv1));
}

#[test]
fn test_is_recapture_different_square() {

    let board = Board::startpos();
    let moves = generate_moves(&board);
    let mv1 = moves.iter().next().unwrap();

    // Different destination = not a recapture
    let mv2 = Move::new(
        Square::from_algebraic("f2").unwrap(),
        Square::from_algebraic("f4").unwrap(),
        MoveFlags::QUIET,
    );

    assert!(!is_recapture(mv2, *mv1));
}

#[test]
fn test_passed_pawn_detection() {
    // White passed pawn on 6th rank
    let board = parse_fen("4k3/8/4P3/8/8/8/8/4K3 w - - 0 1").unwrap();

    let moves = generate_moves(&board);
    let pawn_push = moves
        .iter()
        .find(|m| m.from().to_algebraic() == "e6" && m.to().to_algebraic() == "e7");

    if let Some(mv) = pawn_push {
        let mut board_after = board.clone();
        board_after.make_move(*mv);

        // After pushing to 7th, should still detect as passed pawn
        assert!(is_passed_pawn_push_to_7th(&board_after, *mv));
    }
}

#[test]
fn test_singular_extension_low_depth() {
    // At low depth, singular extension should return 0
    let board = Board::startpos();
    let moves = generate_moves(&board);
    let mv = moves.iter().next().unwrap();

    let extension = singular_extension(&board, *mv, 100, 5, 0);

    assert_eq!(extension, 0, "Should not apply singular at low depth");
}
