use engine::board::Board;
use engine::io::parse_fen;
use engine::perft::{perft, perft_divide};

#[test]
fn test_perft_startpos_depth_0() {
    let board = Board::startpos();
    assert_eq!(perft(&board, 0), 1);
}

#[test]
fn test_perft_startpos_depth_1() {
    let board = Board::startpos();
    assert_eq!(perft(&board, 1), 20);
}

#[test]
fn test_perft_startpos_depth_2() {
    let board = Board::startpos();
    assert_eq!(perft(&board, 2), 400);
}

#[test]
fn test_perft_startpos_depth_3() {
    let board = Board::startpos();
    assert_eq!(perft(&board, 3), 8_902);
}

#[test]
fn test_perft_startpos_depth_4() {
    let board = Board::startpos();
    assert_eq!(perft(&board, 4), 197_281);
}

#[test]
fn test_perft_kiwipete_depth_1() {
    let fen = "r3k2r/p1ppqpb1/bn2pnp1/3PN3/1p2P3/2N2Q1p/PPPBBPPP/R3K2R w KQkq - 0 1";
    let board = parse_fen(fen).unwrap();
    assert_eq!(perft(&board, 1), 48);
}

#[test]
fn test_perft_kiwipete_depth_2() {
    let fen = "r3k2r/p1ppqpb1/bn2pnp1/3PN3/1p2P3/2N2Q1p/PPPBBPPP/R3K2R w KQkq - 0 1";
    let board = parse_fen(fen).unwrap();
    assert_eq!(perft(&board, 2), 2_039);
}

#[test]
fn test_perft_kiwipete_depth_3() {
    let fen = "r3k2r/p1ppqpb1/bn2pnp1/3PN3/1p2P3/2N2Q1p/PPPBBPPP/R3K2R w KQkq - 0 1";
    let board = parse_fen(fen).unwrap();
    assert_eq!(perft(&board, 3), 97_862);
}

#[test]
fn test_perft_position3_depth_1() {
    let fen = "8/2p5/3p4/KP5r/1R3p1k/8/4P1P1/8 w - - 0 1";
    let board = parse_fen(fen).unwrap();
    assert_eq!(perft(&board, 1), 14);
}

#[test]
fn test_perft_position3_depth_2() {
    let fen = "8/2p5/3p4/KP5r/1R3p1k/8/4P1P1/8 w - - 0 1";
    let board = parse_fen(fen).unwrap();
    assert_eq!(perft(&board, 2), 191);
}

#[test]
fn test_perft_position3_depth_3() {
    let fen = "8/2p5/3p4/KP5r/1R3p1k/8/4P1P1/8 w - - 0 1";
    let board = parse_fen(fen).unwrap();
    assert_eq!(perft(&board, 3), 2_812);
}

#[test]
fn test_perft_position3_depth_4() {
    let fen = "8/2p5/3p4/KP5r/1R3p1k/8/4P1P1/8 w - - 0 1";
    let board = parse_fen(fen).unwrap();
    assert_eq!(perft(&board, 4), 43_238);
}

#[test]
fn test_perft_position4_depth_1() {
    let fen = "r3k2r/Pppp1ppp/1b3nbN/nP6/BBP1P3/q4N2/Pp1P2PP/R2Q1RK1 w kq - 0 1";
    let board = parse_fen(fen).unwrap();
    assert_eq!(perft(&board, 1), 6);
}

#[test]
fn test_perft_position4_depth_2() {
    let fen = "r3k2r/Pppp1ppp/1b3nbN/nP6/BBP1P3/q4N2/Pp1P2PP/R2Q1RK1 w kq - 0 1";
    let board = parse_fen(fen).unwrap();
    assert_eq!(perft(&board, 2), 264);
}

#[test]
fn test_perft_position4_depth_3() {
    let fen = "r3k2r/Pppp1ppp/1b3nbN/nP6/BBP1P3/q4N2/Pp1P2PP/R2Q1RK1 w kq - 0 1";
    let board = parse_fen(fen).unwrap();
    assert_eq!(perft(&board, 3), 9_467);
}

#[test]
fn test_perft_position5_depth_1() {
    let fen = "rnbq1k1r/pp1Pbppp/2p5/8/2B5/8/PPP1NnPP/RNBQK2R w KQ - 1 8";
    let board = parse_fen(fen).unwrap();
    assert_eq!(perft(&board, 1), 44);
}

#[test]
fn test_perft_position5_depth_2() {
    let fen = "rnbq1k1r/pp1Pbppp/2p5/8/2B5/8/PPP1NnPP/RNBQK2R w KQ - 1 8";
    let board = parse_fen(fen).unwrap();
    assert_eq!(perft(&board, 2), 1_486);
}

#[test]
fn test_perft_position5_depth_3() {
    let fen = "rnbq1k1r/pp1Pbppp/2p5/8/2B5/8/PPP1NnPP/RNBQK2R w KQ - 1 8";
    let board = parse_fen(fen).unwrap();
    assert_eq!(perft(&board, 3), 62_379);
}

#[test]
fn test_perft_position6_depth_1() {
    let fen = "r4rk1/1pp1qppp/p1np1n2/2b1p1B1/2B1P1b1/P1NP1N2/1PP1QPPP/R4RK1 w - - 0 10";
    let board = parse_fen(fen).unwrap();
    assert_eq!(perft(&board, 1), 46);
}

#[test]
fn test_perft_position6_depth_2() {
    let fen = "r4rk1/1pp1qppp/p1np1n2/2b1p1B1/2B1P1b1/P1NP1N2/1PP1QPPP/R4RK1 w - - 0 10";
    let board = parse_fen(fen).unwrap();
    assert_eq!(perft(&board, 2), 2_079);
}

#[test]
fn test_perft_position6_depth_3() {
    let fen = "r4rk1/1pp1qppp/p1np1n2/2b1p1B1/2B1P1b1/P1NP1N2/1PP1QPPP/R4RK1 w - - 0 10";
    let board = parse_fen(fen).unwrap();
    assert_eq!(perft(&board, 3), 89_890);
}

#[test]
fn test_perft_divide_startpos() {
    let board = Board::startpos();
    let results = perft_divide(&board, 1);

    // Should have 20 moves
    assert_eq!(results.len(), 20);

    // Each move at depth 1 should have count of 1
    for (_, count) in results.iter() {
        assert_eq!(*count, 1);
    }
}

#[test]
fn test_perft_divide_startpos_depth_2() {
    let board = Board::startpos();
    let results = perft_divide(&board, 2);

    // Should have 20 moves
    assert_eq!(results.len(), 20);

    // Total should be 400
    let total: u64 = results.iter().map(|(_, count)| count).sum();
    assert_eq!(total, 400);
}

