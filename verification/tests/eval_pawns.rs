use engine::board::Board;
use engine::io::parse_fen;
use engine::piece::{Color, PieceType};
use engine::square::Square;
use engine::eval::pawns::{evaluate_pawn_structure, count_pawn_islands, pawn_hash_key, PawnHashTable, file_bitboard, adjacent_files_bitboard, is_passed};

#[test]
fn test_doubled_pawns() {
    // White has doubled pawns on e-file
    let board = parse_fen("8/8/8/4p3/4P3/4P3/8/8 w - - 0 1").unwrap();
    let (mg, eg) = evaluate_pawn_structure(&board, Color::White);

    // Should have penalty for doubled pawns
    assert!(mg < 0, "Doubled pawns should have penalty");
    assert!(eg < 0, "Doubled pawns should have penalty in endgame");
}

#[test]
fn test_isolated_pawns() {
    // White has isolated pawn on e4, with enemy pawn on e6 (so not passed)
    let board = parse_fen("8/8/4p3/8/4P3/8/8/8 w - - 0 1").unwrap();
    let (mg, eg) = evaluate_pawn_structure(&board, Color::White);

    // Should have penalty for isolated pawn
    // Note: This pawn is isolated AND blocked, so it should be negative
    assert!(mg < 0, "Isolated pawn should have penalty, got mg={}", mg);
    assert!(
        eg < 0,
        "Isolated pawn should have penalty in endgame, got eg={}",
        eg
    );
}

#[test]
fn test_passed_pawns() {
    // White has passed pawn on e6
    let board = parse_fen("8/8/4P3/8/8/8/p7/8 w - - 0 1").unwrap();
    let (mg, eg) = evaluate_pawn_structure(&board, Color::White);

    // Should have bonus for passed pawn
    assert!(mg > 0, "Passed pawn should have bonus");
    assert!(eg > 0, "Passed pawn should have bonus in endgame");
}

#[test]
fn test_protected_pawns() {
    // White has pawn chain d4-e5
    let board = parse_fen("8/8/8/4P3/3P4/8/8/8 w - - 0 1").unwrap();
    let (mg, _eg) = evaluate_pawn_structure(&board, Color::White);

    // Should have bonus for protected pawns
    assert!(mg > 0, "Protected pawns should have bonus");
}

#[test]
fn test_pawn_islands() {
    // White has 3 pawn islands: a2, c4-d4, g5
    let board = parse_fen("8/8/8/6P1/2PP4/8/P7/8 w - - 0 1").unwrap();
    let islands = count_pawn_islands(board.piece_bb(PieceType::Pawn, Color::White));

    assert_eq!(islands, 3, "Should count 3 pawn islands");
}

#[test]
fn test_pawn_hash_table() {
    let mut table = PawnHashTable::new(16);
    let board = Board::startpos();
    let key = pawn_hash_key(&board);

    // Store evaluation
    table.store(key, 100, 150);

    // Probe should return same values
    let result = table.probe(key);
    assert_eq!(result, Some((100, 150)));

    // Different key should miss
    let result = table.probe(key + 1);
    assert_eq!(result, None);
}

#[test]
fn test_pawn_hash_key_stability() {
    let board = Board::startpos();
    let key1 = pawn_hash_key(&board);
    let key2 = pawn_hash_key(&board);

    assert_eq!(key1, key2, "Pawn hash key should be stable");
}

#[test]
fn pawns_test_file_bitboard() {
    let file_e = file_bitboard(4); // e-file
    assert_eq!(file_e.count(), 8, "File should have 8 squares");

    // Check that e1, e2, ..., e8 are set
    for rank in 0..8 {
        let sq = Square::from_coords(4, rank);
        assert!(
            file_e.contains(sq),
            "File bitboard should contain square {}",
            sq.to_algebraic()
        );
    }
}

#[test]
fn test_adjacent_files() {
    let adjacent = adjacent_files_bitboard(4); // d and f files
    assert_eq!(
        adjacent.count(),
        16,
        "Adjacent files should have 16 squares"
    );

    // Check d-file
    for rank in 0..8 {
        let sq = Square::from_coords(3, rank);
        assert!(
            adjacent.contains(sq),
            "Adjacent files should contain d-file"
        );
    }

    // Check f-file
    for rank in 0..8 {
        let sq = Square::from_coords(5, rank);
        assert!(
            adjacent.contains(sq),
            "Adjacent files should contain f-file"
        );
    }
}

#[test]
fn test_passed_pawn_detection_white() {
    // White pawn on e5, no black pawns blocking
    let board = parse_fen("8/8/8/4P3/8/8/8/8 w - - 0 1").unwrap();
    let black_pawns = board.piece_bb(PieceType::Pawn, Color::Black);

    let pawn_sq = Square::from_algebraic("e5").unwrap();
    assert!(is_passed(pawn_sq, Color::White, black_pawns));
}

#[test]
fn test_not_passed_pawn() {
    // White pawn on e4, black pawn on e6 blocks
    let board = parse_fen("8/8/4p3/8/4P3/8/8/8 w - - 0 1").unwrap();
    let black_pawns = board.piece_bb(PieceType::Pawn, Color::Black);

    let pawn_sq = Square::from_algebraic("e4").unwrap();
    assert!(!is_passed(pawn_sq, Color::White, black_pawns));
}

#[test]
fn test_pawn_islands_connected() {
    // White has 1 island: e4-f4-g4
    let board = parse_fen("8/8/8/8/4PPP1/8/8/8 w - - 0 1").unwrap();
    let islands = count_pawn_islands(board.piece_bb(PieceType::Pawn, Color::White));

    assert_eq!(islands, 1, "Connected pawns should be 1 island");
}

#[test]
fn test_startpos_no_weaknesses() {
    let board = Board::startpos();
    let (white_mg, white_eg) = evaluate_pawn_structure(&board, Color::White);

    // Starting position should have neutral/zero pawn structure
    // No doubled, isolated, or passed pawns
    // No pawn chains either (all on same rank)
    assert_eq!(
        white_mg, 0,
        "Startpos should have neutral pawn structure score, got mg={}",
        white_mg
    );
    assert_eq!(
        white_eg, 0,
        "Startpos should have neutral pawn structure score in endgame, got eg={}",
        white_eg
    );
}

