use engine::board::Board;
use engine::chess_move::{Move, MoveFlags};
use engine::io::{parse_fen, parse_epd_entry, EpdError, FenError, ToFen};
use engine::tune::TuningParams;
use engine::eval::pieces::evaluate_rook_activity;
use engine::api::{final_report, progress_report, REPORTED_DEPTHS};
use engine::polyglot::PolyglotBook;
use engine::search::lmr::get_reduction;
use engine::search_params::SearchParams;
use engine::square::Square;
use engine::time::{TimeControl, TimeManager};
use engine::tt::{Bound, TranspositionTable};

#[test]
fn params_set_then_get() {
    let mut p = SearchParams::default();
    assert!(p.set_by_name("aspiration_delta", 60).is_ok());
    assert_eq!(p.get_by_name("aspiration_delta").unwrap(), 60);
    assert!(p.set_by_name("lmp_threshold_d2", 9).is_ok());
    assert_eq!(p.get_by_name("lmp_threshold_d2").unwrap(), 9);
    assert_eq!(p.get_by_name("nope").unwrap_err(), "Unknown parameter: nope");
    assert!(p.set_by_name("nope", 1).is_err());
    assert_eq!(SearchParams::param_names().len(), 27);
}

#[test]
fn tt_generation_and_replacement() {
    let mut tt = TranspositionTable::new(1);
    let mv = Move::new(Square::E2(), Square::E4(), MoveFlags::QUIET);
    tt.store(7, mv, 10, 8, Bound::Exact);
    // a shallower result in the same generation for another hash in the same slot is refused
    let other = 7 + tt.size() as u64;
    tt.store(other, mv, 20, 2, Bound::Lower);
    assert_eq!(tt.probe(7).unwrap().score, 10);
    assert!(tt.probe(other).is_none());
    // in a new generation it replaces
    tt.new_search();
    tt.store(other, mv, 20, 2, Bound::Lower);
    assert_eq!(tt.probe(other).unwrap().score, 20);
    assert!(tt.probe(7).is_none());
}

#[test]
fn time_limits_of_move_time_and_clock() {
    let tm = TimeManager::new(TimeControl::MoveTime { millis: 0 }, true);
    assert!(tm.should_stop());
    assert!(tm.must_stop());
    let tm = TimeManager::new(TimeControl::Clock { wtime: 60000, btime: 60000, winc: 0, binc: 0, movestogo: Some(40) }, true);
    assert!(!tm.must_stop());
    assert!(!tm.node_limit_reached(10));
}

#[test]
fn lmr_table_values() {
    assert_eq!(get_reduction(8, 8), 2);
    assert_eq!(get_reduction(8, 16), 3);
    assert_eq!(get_reduction(-1, 5), get_reduction(63, 5));
    assert_eq!(get_reduction(1, 40), 0);
}

#[test]
fn polyglot_bytes_and_probe() {
    let board = Board::startpos();
    let key = board.hash();
    let mut data: Vec<u8> = Vec::new();
    // e2e4 with weight 7, then g1f3 with weight 9, both for the start position
    for (mv, w) in [(796u16, 7u16), ((6 << 6) | (2 << 3) | 5, 9u16)] {
        data.extend_from_slice(&key.to_be_bytes());
        data.extend_from_slice(&mv.to_be_bytes());
        data.extend_from_slice(&w.to_be_bytes());
        data.extend_from_slice(&[0, 0, 0, 0]);
    }
    data.push(1); // trailing byte ignored
    let book = PolyglotBook::from_bytes(&data);
    assert_eq!(book.size(), 2);
    assert!(book.contains(&board));
    let moves = book.probe(&board);
    assert_eq!(moves.len(), 2);
    assert_eq!(moves[0].0.to_uci(), "e2e4");
    assert_eq!(book.get_move(&board).unwrap().to_uci(), "g1f3");
    let other = parse_fen("8/8/8/8/8/8/8/K6k w - - 0 1").unwrap();
    assert!(!book.contains(&other));
}

#[test]
fn epd_entries_skip_blank_and_comment_lines() {
    assert!(parse_epd_entry("   ").is_none());
    assert!(parse_epd_entry("  # a comment").is_none());
    let ok = parse_epd_entry("rnbqkbnr/pppppppp/8/8/8/8/PPPPPPPP/RNBQKBNR w KQkq - bm e4; id \"start\";");
    let pos = ok.unwrap().unwrap();
    assert_eq!(pos.best_moves, vec!["e4".to_string()]);
    assert_eq!(pos.id, "start");
    let missing = parse_epd_entry("rnbqkbnr/pppppppp/8/8/8/8/PPPPPPPP/RNBQKBNR w KQkq -; id \"x\";");
    assert_eq!(missing.unwrap().unwrap_err(), EpdError::MissingBestMoves);
}

#[test]
fn error_descriptions() {
    assert_eq!(EpdError::MissingBestMoves.describe(), "EPD missing best move (bm) operation");
    assert_eq!(EpdError::InvalidFormat("Empty EPD line".to_string()).describe(), "Invalid EPD format: Empty EPD line");
    assert_eq!(EpdError::IllegalMove("e9".to_string()).describe(), "Best move is not legal: e9");
    let e = parse_fen("8/8/8/8/8/8/8/8 x - - 0 1").unwrap_err();
    assert!(e.describe().starts_with("Invalid side to move: "));
}

#[test]
fn server_reports() {
    assert_eq!(REPORTED_DEPTHS, 6);
    let info = progress_report("abc", 3);
    assert_eq!(info.id, "abc");
    assert_eq!(info.depth, 3);
    assert_eq!(info.seldepth, Some(4));
    assert_eq!(info.nodes, 30_000);
    assert_eq!(info.nps, 1_000_000);
    assert_eq!(info.time_ms, 240);
    assert_eq!(info.score, engine::types::Score::Cp { value: 36 });
    assert_eq!(info.pv, vec!["e2e4".to_string(), "e7e5".to_string()]);
    assert_eq!(info.hashfull, Some(60));
    assert_eq!(info.tb_hits, None);
    let best = final_report("abc");
    assert_eq!(best.id, "abc");
    assert_eq!(best.best, "e2e4");
    assert_eq!(best.ponder, Some("e7e5".to_string()));
}

#[test]
fn fen_written_reads_back() {
    for fen in [
        "r3k2r/p1ppqpb1/bn2pnp1/3PN3/1p2P3/2N2Q1p/PPPBBPPP/R3K2R w KQkq - 0 1",
        "8/2p5/3p4/KP5r/1R3p1k/8/4P1P1/8 w - - 0 1",
        "rnbqkbnr/pp1ppppp/8/2p5/4P3/8/PPPP1PPP/RNBQKBNR w Kq c6 12 345",
        "4k3/8/8/8/8/8/8/4K3 b - - 99 4294967295",
    ] {
        let board = parse_fen(fen).unwrap();
        let text = board.to_fen();
        assert_eq!(text, fen);
        let again = parse_fen(&text).unwrap();
        assert_eq!(again.to_fen(), fen);
        assert_eq!(again.hash(), board.hash());
    }
}

#[test]
fn tt_store_then_probe() {
    let mut tt = TranspositionTable::new(1);
    let mv = Move::new(Square::G1(), Square::F3(), MoveFlags::QUIET);
    assert!(tt.probe(12345).is_none());
    tt.store(12345, mv, -42, 5, Bound::Upper);
    let e = *tt.probe(12345).unwrap();
    assert_eq!(e.hash, 12345);
    assert_eq!(e.score, -42);
    assert_eq!(e.depth, 5);
    assert_eq!(e.bound, Bound::Upper);
    assert_eq!(e.best_move, mv);
    // the same position stored again at a lower depth still replaces
    tt.store(12345, mv, 7, 1, Bound::Exact);
    assert_eq!(tt.probe(12345).unwrap().score, 7);
    // another slot is untouched
    assert!(tt.probe(12346).is_none());
}

#[test]
fn tuning_parameter_names() {
    let names = TuningParams::param_names();
    assert_eq!(names.len(), TuningParams::param_count());
    assert_eq!(names[0], "pst_scale");
    assert_eq!(names[13], "mobility_divisor");
    assert_eq!(names[14], "passed_pawn_mg_r2");
    assert_eq!(names[25], "passed_pawn_eg_r7");
    let mut p = TuningParams::from_current_eval();
    p.set_param(20, 77);
    assert_eq!(p.get_param(20), 77);
    assert_eq!(p.passed_pawn_mg[5], 77);
}

#[test]
fn pictures_and_names() {
    use_pictures();
}

fn use_pictures() {
    assert_eq!(engine::piece::Color::White.name(), "white");
    assert_eq!(engine::piece::Color::Black.name(), "black");
    let bb = engine::bitboard::Bitboard::new(1u64 | (1u64 << 63));
    let pic = bb.diagram();
    let lines: Vec<&str> = pic.split('\n').collect();
    assert_eq!(lines[0], "");
    assert_eq!(lines[1], ". . . . . . . 1 ");
    assert_eq!(lines[8], "1 . . . . . . . ");
    let board = Board::startpos();
    let text = board.diagram();
    assert!(text.starts_with("\n8 r n b q k b n r \n7 p p p p p p p p \n"));
    assert!(text.contains("1 R N B Q K B N R \n  a b c d e f g h\nSide to move: white\nCastling: KQkq\nEP square: None\nHalfmove: 0\nFullmove: 1\n"));
    let ep = parse_fen("rnbqkbnr/pppppppp/8/8/4P3/8/PPPP1PPP/RNBQKBNR b KQkq e3 0 1").unwrap();
    assert!(ep.diagram().contains("EP square: Some(Square(20))\n"));
}

#[test]
fn one_rook_on_seventh_counts_once() {
    let b = parse_fen("4k3/p3R3/8/8/8/8/8/4K3 w - - 0 1").unwrap();
    assert_eq!(evaluate_rook_activity(&b, engine::piece::Color::White), (55, 45));
    let two = parse_fen("4k3/2RR4/8/8/8/8/8/4K3 w - - 0 1").unwrap();
    assert_eq!(evaluate_rook_activity(&two, engine::piece::Color::White), (60 + 40, 30 + 50));
}

#[test]
fn setoption_clamps_and_ignores() {
    let mut h = engine::uci::UciHandler::new();
    let before = h.current_options();
    h.handle_command("setoption name hash value 5000");
    assert_eq!(h.current_options().hash_size_mb, 1024);
    h.handle_command("setoption name Hash value 0");
    assert_eq!(h.current_options().hash_size_mb, 1);
    h.handle_command("setoption name MultiPV value 99");
    assert_eq!(h.current_options().multi_pv, 10);
    h.handle_command("setoption name Threads value 8");
    assert_eq!(h.current_options().threads, 1);
    h.handle_command("setoption name Hash value lots");
    assert_eq!(h.current_options().hash_size_mb, 1);
    h.handle_command("setoption name Ponder value true");
    assert_eq!(h.current_options().multi_pv, 10);
    assert_eq!(before.multi_pv, 1);
    h.handle_command("position startpos moves e2e4");
    h.handle_command("position startpos");
    assert_eq!(h.current_board(), Board::startpos());
}

#[test]
fn multi_pv_lines_cover_all_moves_when_few() {
    // only the king can move: three legal moves
    let b = parse_fen("7k/8/8/8/8/8/8/K7 w - - 0 1").unwrap();
    let mut s = engine::search::advanced::Searcher::new();
    let r = s.search_multi_pv(&b, 2, 5);
    assert_eq!(r.multi_pv.len(), 3);
    let mut firsts: Vec<Move> = r.multi_pv.iter().map(|l| l.pv[0]).collect();
    firsts.sort_by_key(|m| m.to().index());
    firsts.dedup();
    assert_eq!(firsts.len(), 3);
}

#[test]
fn book_has_start_position_moves() {
    let book = engine::opening_book::OpeningBook::new();
    let b = Board::startpos();
    assert!(book.contains(&b));
    assert!(book.size() > 0);
}

#[test]
fn fen_error_payloads() {

    let s = "rnbqkbnr/pppppppp/8/8/8/8/PPPPPPPP/RNBQKBNR";
    assert_eq!(parse_fen(&format!("{} x KQkq - 0 1", s)).unwrap_err(), FenError::InvalidSideToMove("x".to_string()));
    assert_eq!(parse_fen(&format!("{} w KQkq z9 0 1", s)).unwrap_err(), FenError::InvalidEnPassant("z9".to_string()));
    assert_eq!(parse_fen(&format!("{} w KQkq - h 1", s)).unwrap_err(), FenError::InvalidHalfmoveClock("h".to_string()));
    assert_eq!(parse_fen("invalid").unwrap_err(), FenError::InvalidFormat("Expected 6 components, got 1".to_string()));
}

#[test]
fn incremental_hash_matches_full_hash() {
    let mut b = parse_fen("r3k2r/p1ppqpb1/bn2pnp1/3PN3/1p2P3/2N2Q1p/PPPBBPPP/R3K2R w KQkq - 0 1").unwrap();
    for _ in 0..3 {
        let moves = b.generate_legal_moves();
        for i in 0..moves.len() {
            let m = moves.get(i);
            let mut c = b;
            c.make_move(m);
            assert_eq!(c.hash(), engine::zobrist::zobrist_hash(&c));
        }
        let m = moves.get(0);
        b.make_move(m);
    }
}

#[test]
fn mate_in_one_found_at_root() {
    let b = parse_fen("6k1/5ppp/8/8/8/8/5PPP/R5K1 w - - 0 1").unwrap();
    let mut s = engine::search::advanced::Searcher::new();
    let r = s.search(&b, 2);
    assert_eq!(r.score, 29_999);
    assert_eq!(r.best_move.to_uci(), "a1a8");
    let mut plain = engine::search::Searcher::new();
    let r2 = plain.search(&b, 2);
    assert_eq!(r2.score, 29_999);
    assert_eq!(r2.best_move.to_uci(), "a1a8");
}

#[test]
fn multi_pv_scores_do_not_increase() {
    let b = Board::startpos();
    let mut s = engine::search::advanced::Searcher::new();
    let r = s.search_multi_pv(&b, 3, 4);
    assert_eq!(r.multi_pv.len(), 4);
    for w in r.multi_pv.windows(2) {
        assert!(w[0].score >= w[1].score);
    }
    assert_eq!(r.score, r.multi_pv[0].score);
}

#[test]
fn go_answers_and_unknown_commands_do_not() {
    let mut h = engine::uci::UciHandler::new();
    let r = h.handle_command("go depth 2");
    assert!(r.unwrap().starts_with("bestmove "));
    assert_eq!(h.handle_command("flip"), None);
    assert_eq!(h.current_board(), Board::startpos());
}

#[test]
fn plain_depth_one_score_is_best_child_evaluation() {
    let b = Board::startpos();
    let mut plain = engine::search::Searcher::new();
    let r = plain.search(&b, 1);
    let moves = b.generate_legal_moves();
    let mut evaluator = engine::eval::Evaluator::new();
    let mut best = i32::MIN;
    let mut best_move = moves.get(0);
    for i in 0..moves.len() {
        let m = moves.get(i);
        let mut child = b;
        child.make_move(m);
        let score = -evaluator.evaluate(&child);
        if score > best {
            best = score;
            best_move = m;
        }
    }
    assert_eq!(r.score, best);
    assert_eq!(r.best_move, best_move);
}

#[test]
fn tuned_searcher_still_finds_mate() {
    let b = parse_fen("6k1/5ppp/8/8/8/8/5PPP/R5K1 w - - 0 1").unwrap();
    let mut s = engine::search::advanced::Searcher::new();
    s.set_tuning(Some(TuningParams::from_current_eval()));
    let r = s.search(&b, 2);
    assert_eq!(r.score, 29_999);
    assert_eq!(r.best_move.to_uci(), "a1a8");
}
