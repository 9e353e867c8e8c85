use engine::board::Board;
use engine::io::parse_fen;
use engine::piece::{Color, PieceType};
use engine::square::Square;
use engine::eval::phase::{calculate_phase, interpolate};

#[test]
fn test_phase_startpos() {
    // Starting position should be phase 0 (all pieces present)
    let board = Board::startpos();
    let phase = calculate_phase(&board);
    assert_eq!(phase, 0);
}

#[test]
fn test_phase_bare_kings() {
    // Bare kings should be phase 256 (pure endgame)
    let board = parse_fen("8/8/8/4k3/4K3/8/8/8 w - - 0 1").unwrap();
    let phase = calculate_phase(&board);
    assert_eq!(phase, 256);
}

#[test]
fn test_phase_kqk() {
    // K+Q vs K should be near endgame
    // 1 Queen = 4 phase points out of 24 total
    // phase = 256 - (4 * 256 / 24) = 256 - 42 = 214
    let board = parse_fen("8/8/8/4k3/4K3/8/8/4Q3 w - - 0 1").unwrap();
    let phase = calculate_phase(&board);
    assert_eq!(phase, 214); // Close to endgame
}

#[test]
fn test_phase_krk() {
    // K+R vs K
    // 1 Rook = 2 phase points out of 24 total
    // phase = 256 - (2 * 256 / 24) = 256 - 21 = 235
    let board = parse_fen("8/8/8/4k3/4K3/8/8/4R3 w - - 0 1").unwrap();
    let phase = calculate_phase(&board);
    assert_eq!(phase, 235); // Very close to endgame
}

#[test]
fn test_phase_middlegame() {
    // Middlegame position with some trades
    // Remove 2 minor pieces (2 phase points)
    // phase = 256 - (22 * 256 / 24) = 256 - 234 = 22
    let board =
        parse_fen("r1bqkb1r/pppp1ppp/2n2n2/4p3/4P3/3P1N2/PPP2PPP/RNBQKB1R w KQkq - 0 1")
            .unwrap();
    let phase = calculate_phase(&board);
    // Should be in early middlegame (low phase value)
    assert!(
        phase < 64,
        "Phase should be < 64 in middlegame, got {}",
        phase
    );
}

#[test]
fn test_phase_symmetry() {
    // Phase should be same regardless of side to move
    let fen = "r1bqkb1r/pppp1ppp/2n2n2/4p3/4P3/3P1N2/PPP2PPP/RNBQKB1R w KQkq - 0 1";
    let board_white = parse_fen(fen).unwrap();

    let fen_black = "r1bqkb1r/pppp1ppp/2n2n2/4p3/4P3/3P1N2/PPP2PPP/RNBQKB1R b KQkq - 0 1";
    let board_black = parse_fen(fen_black).unwrap();

    assert_eq!(calculate_phase(&board_white), calculate_phase(&board_black));
}

#[test]
fn test_phase_boundaries() {
    // Test that phase is always within [0, 256]
    let positions = vec![
        "rnbqkbnr/pppppppp/8/8/8/8/PPPPPPPP/RNBQKBNR w KQkq - 0 1", // startpos
        "8/8/8/4k3/4K3/8/8/8 w - - 0 1",                            // bare kings
        "rnbqkbnr/8/8/8/8/8/8/RNBQKBNR w - - 0 1",                  // no pawns
        "4k3/pppppppp/8/8/8/8/PPPPPPPP/4K3 w - - 0 1",              // only pawns
    ];

    for fen in positions {
        let board = parse_fen(fen).unwrap();
        let phase = calculate_phase(&board);
        assert!(
            (0..=256).contains(&phase),
            "Phase {} out of bounds for FEN: {}",
            phase,
            fen
        );
    }
}

#[test]
fn test_interpolate_pure_middlegame() {
    // Phase 0 = pure middlegame, should return mg_score
    assert_eq!(interpolate(100, 200, 0), 100);
    assert_eq!(interpolate(-50, 75, 0), -50);
}

#[test]
fn test_interpolate_pure_endgame() {
    // Phase 256 = pure endgame, should return eg_score
    assert_eq!(interpolate(100, 200, 256), 200);
    assert_eq!(interpolate(-50, 75, 256), 75);
}

#[test]
fn test_interpolate_halfway() {
    // Phase 128 = halfway, should return average
    assert_eq!(interpolate(100, 200, 128), 150);
    assert_eq!(interpolate(0, 100, 128), 50);
    assert_eq!(interpolate(-100, 100, 128), 0);
}

#[test]
fn test_interpolate_quarter() {
    // Phase 64 = 1/4 into endgame
    // mg_score * (256 - 64) / 256 + eg_score * 64 / 256
    // = mg_score * 192/256 + eg_score * 64/256
    // = mg_score * 0.75 + eg_score * 0.25
    assert_eq!(interpolate(100, 200, 64), 125);
    assert_eq!(interpolate(0, 100, 64), 25);
}

#[test]
fn test_interpolate_three_quarters() {
    // Phase 192 = 3/4 into endgame
    // mg_score * 64/256 + eg_score * 192/256
    // = mg_score * 0.25 + eg_score * 0.75
    assert_eq!(interpolate(100, 200, 192), 175);
    assert_eq!(interpolate(0, 100, 192), 75);
}

