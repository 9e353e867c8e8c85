use engine::board::Board;
use engine::chess_move::Move;
use engine::io::parse_fen;
use engine::search::advanced::{Searcher, MATE_SCORE};
use engine::time::TimeControl;
use engine::piece::Color;

#[test]
fn core_test_search_startpos() {
    let board = Board::startpos();
    let mut searcher = Searcher::new();

    let result = searcher.search(&board, 3);

    // Should find a legal move
    assert!(board.is_legal(result.best_move));
    assert!(result.nodes > 0);
    assert_eq!(result.depth, 3);
}

#[test]
fn core_test_search_mate_in_one() {
    // Simple back rank mate: Rook can deliver mate
    let fen = "6k1/5ppp/8/8/8/8/5PPP/R5K1 w - - 0 1";
    let board = parse_fen(fen).unwrap();
    let mut searcher = Searcher::new();

    let result = searcher.search(&board, 3);

    // Should find a move (Ra8#)
    assert!(board.is_legal(result.best_move));
    // With deeper search, should recognize the mate threat
    // (At depth 3, it might not fully recognize mate, but should prefer it)
}

#[test]
fn test_iterative_deepening() {
    let board = Board::startpos();
    let mut searcher = Searcher::new();

    let result = searcher.search(&board, 3);

    // Should return depth 3 result
    assert_eq!(result.depth, 3);
    // Should have searched multiple depths (1, 2, 3)
    assert!(result.nodes > 400); // More than just depth 3
}

#[test]
fn test_pv_extraction() {
    let board = Board::startpos();
    let mut searcher = Searcher::new();

    let result = searcher.search(&board, 3);

    // Should extract a PV
    assert!(!result.pv.is_empty());
    assert!(result.pv.len() <= 3);

    // All moves in PV should be legal
    let mut test_board = board.clone();
    for m in &result.pv {
        assert!(test_board.is_legal(*m));
        test_board.make_move(*m);
    }
}

#[test]
fn core_test_alpha_beta_prunes() {
    // Alpha-beta should search fewer nodes than full minimax
    let board = Board::startpos();
    let mut searcher = Searcher::new();

    let result = searcher.search(&board, 3);

    // At depth 3 from startpos, with perfect ordering we'd search ~400 nodes
    // Without pruning, we'd search ~8900 nodes
    // We should be somewhere in between
    println!("Nodes at depth 3: {}", result.nodes);
    assert!(result.nodes < 8_900);
}

#[test]
fn test_null_move_mechanics() {

    let board = Board::startpos();
    let mut null_board = board.clone();

    // Test side switches
    assert_eq!(board.side_to_move(), Color::White);
    null_board.make_null_move();
    assert_eq!(null_board.side_to_move(), Color::Black);

    // Test hash changes
    assert_ne!(board.hash(), null_board.hash());

    // Test with en passant
    let fen = "rnbqkbnr/pppppppp/8/8/4P3/8/PPPP1PPP/RNBQKBNR b KQkq e3 0 1";
    let board_with_ep = parse_fen(fen).unwrap();
    let mut null_board_ep = board_with_ep.clone();

    assert!(board_with_ep.ep_square().is_some());
    null_board_ep.make_null_move();
    assert!(null_board_ep.ep_square().is_none());
}

#[test]
fn test_null_move_pruning_reduces_nodes() {
    // Compare node counts with a position where null move should help
    // Use a quiet middlegame position
    let fen = "r1bqkb1r/pppp1ppp/2n2n2/1B2p3/4P3/5N2/PPPP1PPP/RNBQK2R w KQkq - 4 4";
    let board = parse_fen(fen).unwrap();

    let mut searcher = Searcher::new();
    let result = searcher.search(&board, 5);

    println!("Nodes with null move pruning at depth 5: {}", result.nodes);

    // With null move pruning, we expect significant node reduction
    // At depth 5, we should search considerably fewer nodes
    // This is a basic sanity check - exact numbers vary by position
    assert!(result.nodes > 1000); // Should still search something
    assert!(result.nodes < 150_000); // But not too much (relaxed threshold)
}

#[test]
fn test_null_move_disabled_in_endgame() {
    // Test that null move is disabled in endgames
    // Simple endgame - no queens, low material
    let fen = "8/8/4k3/8/8/4K3/8/8 w - - 0 1";
    let board = parse_fen(fen).unwrap();

    // Verify this is considered an endgame
    assert!(engine::eval::is_endgame(&board));

    let mut searcher = Searcher::new();
    let result = searcher.search(&board, 4);

    // Should complete search without errors
    // (null move is disabled in endgames, avoiding zugzwang issues)
    assert!(result.nodes > 0);
}

#[test]
fn test_null_move_doesnt_break_tactics() {
    // Test that null move pruning doesn't cause tactical oversights
    // Position with a clear tactic
    let fen = "r1bqkb1r/pppp1ppp/2n2n2/1B2p3/4P3/5N2/PPPP1PPP/RNBQK2R w KQkq - 4 4";
    let board = parse_fen(fen).unwrap();

    let mut searcher = Searcher::new();
    let result = searcher.search(&board, 5);

    // Should find a legal, reasonable move
    assert!(board.is_legal(result.best_move));
    // Score should be reasonable (not a crazy mate score unless it's actually mate)
    assert!(result.score.abs() < MATE_SCORE / 2);
}

#[test]
fn test_lmr_reduces_nodes() {
    // Test that LMR significantly reduces node count
    let fen = "r1bqkb1r/pppp1ppp/2n2n2/1B2p3/4P3/5N2/PPPP1PPP/RNBQK2R w KQkq - 4 4";
    let board = parse_fen(fen).unwrap();

    let mut searcher = Searcher::new();
    let result = searcher.search(&board, 6);

    println!("Nodes with LMR + null move at depth 6: {}", result.nodes);

    // With both LMR and null move, expect major node reduction
    // At depth 6, should be significantly less than without optimizations
    // M7 enhanced move ordering may cause slightly different node counts
    assert!(result.nodes > 1000); // Should still search something
    assert!(result.nodes < 400_000); // But much less than naive search
}

#[test]
fn test_lmr_tactical_accuracy() {
    // Test that LMR doesn't miss tactics
    // Position where there's a clear best move (Bxf7+ fork)
    let fen = "r1bqkbnr/pppp1ppp/2n5/4p3/2B1P3/5Q2/PPPP1PPP/RNB1K1NR w KQkq - 0 1";
    let board = parse_fen(fen).unwrap();

    let mut searcher = Searcher::new();
    let result = searcher.search(&board, 5);

    // Should find a legal move
    assert!(board.is_legal(result.best_move));
    // Should have a positive score (white is winning)
    assert!(result.score > 0);
    println!(
        "Best move: {} with score {}",
        result.best_move.to_uci(),
        result.score
    );
}

#[test]
fn test_lmr_finds_mate() {
    // Test that LMR doesn't miss mate in few moves
    // Back rank mate: Ra8# is mate in 1
    let fen = "6k1/5ppp/8/8/8/8/5PPP/R5K1 w - - 0 1";
    let board = parse_fen(fen).unwrap();

    let mut searcher = Searcher::new();
    let result = searcher.search(&board, 5);

    // Should find the mating move Ra8
    assert!(board.is_legal(result.best_move));
    println!(
        "Best move: {} with score {}",
        result.best_move.to_uci(),
        result.score
    );
    // Should recognize this is a winning position
    assert!(result.score > 1000 || result.score < -1000); // Either we see mate or strong advantage
}

#[test]
fn test_lmr_deeper_search() {
    // Test that LMR enables deeper search
    let board = Board::startpos();

    let mut searcher = Searcher::new();
    let result = searcher.search(&board, 6);

    println!("Nodes at depth 6 with LMR: {}", result.nodes);

    // Should complete depth 6 search
    assert_eq!(result.depth, 6);
    assert!(result.nodes > 5000); // Should search reasonably
                                  // With LMR, depth 6 should be feasible
    assert!(result.nodes < 500_000);
}

#[test]
fn test_pvs_first_move_full_window() {
    // Test that PVS gives first move full window
    // This is more of a regression test to ensure the logic is correct
    let board = Board::startpos();

    let mut searcher = Searcher::new();
    let result = searcher.search(&board, 4);

    // Should find a legal move
    assert!(board.is_legal(result.best_move));
    assert!(result.nodes > 0);
}

#[test]
fn test_lmr_quiet_moves_only() {
    // Test that LMR only applies to quiet moves
    // Position with many captures available
    let fen = "r1bqkb1r/pppp1ppp/2n2n2/1B2p3/4P3/5N2/PPPP1PPP/RNBQK2R w KQkq - 4 4";
    let board = parse_fen(fen).unwrap();

    let mut searcher = Searcher::new();
    let result = searcher.search(&board, 5);

    // Should still find good moves (captures should be searched fully)
    assert!(board.is_legal(result.best_move));
    println!("Nodes searched: {}", result.nodes);
}

#[test]
fn test_aspiration_window_basic() {
    // Test that aspiration windows work correctly
    let board = Board::startpos();

    let mut searcher = Searcher::new();
    let result = searcher.search(&board, 6);

    // Should find a legal move
    assert!(board.is_legal(result.best_move));
    assert_eq!(result.depth, 6);
    println!("Aspiration windows at depth 6: {} nodes", result.nodes);
}

#[test]
fn test_aspiration_window_tactical_position() {
    // Test aspiration windows on a tactical position
    // Position with clear best move
    let fen = "r1bqkb1r/pppp1ppp/2n2n2/1B2p3/4P3/5N2/PPPP1PPP/RNBQK2R w KQkq - 4 4";
    let board = parse_fen(fen).unwrap();

    let mut searcher = Searcher::new();
    let result = searcher.search(&board, 6);

    // Should find a good move
    assert!(board.is_legal(result.best_move));
    println!(
        "Best move: {} with score {}",
        result.best_move.to_uci(),
        result.score
    );
}

#[test]
fn test_aspiration_window_stable_score() {
    // Test that aspiration windows handle stable scores well
    let board = Board::startpos();

    let mut searcher = Searcher::new();
    let result = searcher.search(&board, 5);

    // Score should be reasonable (near equality at start)
    assert!(result.score.abs() < 200); // Within 2 pawns
    assert!(board.is_legal(result.best_move));
}

#[test]
fn test_aspiration_window_mate_position() {
    // Test aspiration windows with mate scores
    let fen = "6k1/5ppp/8/8/8/8/5PPP/R5K1 w - - 0 1";
    let board = parse_fen(fen).unwrap();

    let mut searcher = Searcher::new();
    let result = searcher.search(&board, 5);

    // Should find mate or strong advantage
    assert!(board.is_legal(result.best_move));
    println!(
        "Mate position score: {} with move {}",
        result.score,
        result.best_move.to_uci()
    );
}

#[test]
fn test_multi_pv_basic() {
    // Test Multi-PV finds multiple best moves
    let board = Board::startpos();

    let mut searcher = Searcher::new();
    let result = searcher.search_multi_pv(&board, 4, 3);

    // Should find 3 PV lines
    assert_eq!(result.multi_pv.len(), 3);

    // All moves should be legal
    for pv_line in &result.multi_pv {
        assert!(!pv_line.pv.is_empty());
        assert!(board.is_legal(pv_line.pv[0]));
    }

    // Scores should be ordered (PV1 >= PV2 >= PV3)
    assert!(result.multi_pv[0].score >= result.multi_pv[1].score);
    assert!(result.multi_pv[1].score >= result.multi_pv[2].score);

    println!("Multi-PV results:");
    for (i, pv_line) in result.multi_pv.iter().enumerate() {
        println!(
            "  PV{}: {} (score: {})",
            i + 1,
            pv_line.pv[0].to_uci(),
            pv_line.score
        );
    }
}

#[test]
fn test_multi_pv_no_duplicates() {
    // Test that Multi-PV doesn't return duplicate moves
    let board = Board::startpos();

    let mut searcher = Searcher::new();
    let result = searcher.search_multi_pv(&board, 4, 5);

    // Collect first moves from each PV
    let first_moves: Vec<Move> = result.multi_pv.iter().map(|pv| pv.pv[0]).collect();

    // Check for duplicates
    for i in 0..first_moves.len() {
        for j in (i + 1)..first_moves.len() {
            assert_ne!(
                first_moves[i], first_moves[j],
                "Found duplicate moves in multi-PV"
            );
        }
    }
}

#[test]
fn test_multi_pv_tactical_position() {
    // Test Multi-PV on a position with clear alternatives
    let fen = "r1bqkb1r/pppp1ppp/2n2n2/1B2p3/4P3/5N2/PPPP1PPP/RNBQK2R w KQkq - 4 4";
    let board = parse_fen(fen).unwrap();

    let mut searcher = Searcher::new();
    let result = searcher.search_multi_pv(&board, 4, 3);

    // Should find multiple PV lines
    assert!(result.multi_pv.len() >= 2);

    // All should be legal
    for pv_line in &result.multi_pv {
        assert!(board.is_legal(pv_line.pv[0]));
    }

    println!("Tactical position Multi-PV:");
    for (i, pv_line) in result.multi_pv.iter().enumerate() {
        println!(
            "  PV{}: {} (score: {})",
            i + 1,
            pv_line.pv[0].to_uci(),
            pv_line.score
        );
    }
}

#[test]
fn test_multi_pv_single_pv_fallback() {
    // Test that requesting 1 PV falls back to regular search
    let board = Board::startpos();

    let mut searcher1 = Searcher::new();
    let result1 = searcher1.search(&board, 4);

    let mut searcher2 = Searcher::new();
    let result2 = searcher2.search_multi_pv(&board, 4, 1);

    // Should get same result (same best move)
    assert_eq!(result1.best_move, result2.best_move);
    assert_eq!(result1.score, result2.score);
}

#[test]
fn test_time_limited_search_move_time() {
    // Test fixed time per move
    let board = Board::startpos();
    let mut searcher = Searcher::new();

    let time_control = TimeControl::MoveTime { millis: 100 };
    let result = searcher.search_with_limit(&board, 10, time_control);

    // Should find a legal move
    assert!(board.is_legal(result.best_move));
    // Should have stopped before reaching depth 10 (100ms is too short for depth 10)
    assert!(result.depth < 10);
}

#[test]
fn test_depth_limited_search() {
    // Test depth limit
    let board = Board::startpos();
    let mut searcher = Searcher::new();

    let time_control = TimeControl::Depth { depth: 3 };
    let result = searcher.search_with_limit(&board, 10, time_control);

    // Should stop at depth 3
    assert_eq!(result.depth, 3);
    assert!(board.is_legal(result.best_move));
}

#[test]
fn test_node_limited_search() {
    // Test node limit
    let board = Board::startpos();
    let mut searcher = Searcher::new();

    let time_control = TimeControl::Nodes { nodes: 1000 };
    let result = searcher.search_with_limit(&board, 10, time_control);

    // Should stop when nodes exceeded
    assert!(result.nodes >= 1000);
    // Should not search to full depth
    assert!(result.depth < 10);
    assert!(board.is_legal(result.best_move));
}

#[test]
fn core_test_infinite_time_control() {
    // Test that infinite time control searches to full depth
    let board = Board::startpos();
    let mut searcher = Searcher::new();

    let time_control = TimeControl::Infinite;
    let result = searcher.search_with_limit(&board, 4, time_control);

    // Should search to full depth
    assert_eq!(result.depth, 4);
    assert!(board.is_legal(result.best_move));
}

#[test]
fn core_test_clock_time_control() {
    // Test clock-based time control
    let board = Board::startpos();
    let mut searcher = Searcher::new();

    let time_control = TimeControl::Clock {
        wtime: 10000, // 10 seconds
        btime: 10000,
        winc: 0,
        binc: 0,
        movestogo: Some(20),
    };
    let result = searcher.search_with_limit(&board, 10, time_control);

    // Should find a legal move
    assert!(board.is_legal(result.best_move));
    // Should stop before reaching depth 10 (not enough time)
    assert!(result.depth < 10);
}

#[test]
fn test_backward_compatible_search() {
    // Test that old search() method still works (backward compatibility)
    let board = Board::startpos();
    let mut searcher = Searcher::new();

    let result = searcher.search(&board, 4);

    // Should search to full depth (no time limit)
    assert_eq!(result.depth, 4);
    assert!(board.is_legal(result.best_move));
}
