use engine::board::Board;
use engine::io::parse_fen;
use engine::search::Searcher;

#[test]
fn search_test_search_startpos() {
    let board = Board::startpos();
    let mut searcher = Searcher::new();

    let result = searcher.search(&board, 1);

    // Should find a legal move
    assert!(board.is_legal(result.best_move));
    assert!(result.nodes > 0);
}

#[test]
fn search_test_search_mate_in_one() {
    // Simple back rank mate: Rook can deliver mate
    let fen = "6k1/5ppp/8/8/8/8/5PPP/R5K1 w - - 0 1";
    let board = parse_fen(fen).unwrap();
    let mut searcher = Searcher::new();

    let result = searcher.search(&board, 3);

    // Should find a move (Ra8#)
    assert!(board.is_legal(result.best_move));
    // With deeper search, should recognize the mate threat
    // (At depth 3, it might not fully recognize mate, but should prefer it)
}

#[test]
fn test_search_finds_better_at_depth_2() {
    let board = Board::startpos();
    let mut searcher = Searcher::new();

    let result1 = searcher.search(&board, 1);
    let result2 = searcher.search(&board, 2);

    // Deeper search should search more nodes
    assert!(result2.nodes > result1.nodes);
}

#[test]
fn search_test_alpha_beta_prunes() {
    // Alpha-beta should search fewer nodes than full minimax
    let board = Board::startpos();
    let mut searcher = Searcher::new();

    let result = searcher.search(&board, 3);

    // At depth 3 from startpos, with perfect ordering we'd search ~400 nodes
    // Without pruning, we'd search ~8900 nodes
    // We should be somewhere in between
    println!("Nodes at depth 3: {}", result.nodes);
    assert!(result.nodes < 8_900);
}
