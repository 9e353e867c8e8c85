use engine::board::Board;
use engine::uci::UciHandler;
use engine::time::TimeControl;

#[test]
fn test_uci_command() {
    let mut handler = UciHandler::new();
    let response = handler.handle_command("uci");

    assert!(response.is_some());
    let resp = response.unwrap();
    assert!(resp.contains("id name"));
    assert!(resp.contains("id author"));
    assert!(resp.contains("uciok"));
    assert!(resp.contains("option name Hash"));
}

#[test]
fn test_isready_command() {
    let mut handler = UciHandler::new();
    let response = handler.handle_command("isready");

    assert_eq!(response, Some("readyok".to_string()));
}

#[test]
fn test_position_startpos() {
    let mut handler = UciHandler::new();
    handler.handle_command("position startpos");

    assert_eq!(handler.current_board(), Board::startpos());
}

#[test]
fn test_position_startpos_with_moves() {
    let mut handler = UciHandler::new();
    handler.handle_command("position startpos moves e2e4 e7e5");

    // Board should have had two moves applied
    assert_ne!(handler.current_board(), Board::startpos());
}

#[test]
fn test_position_fen() {
    let mut handler = UciHandler::new();
    let fen = "rnbqkbnr/pppppppp/8/8/4P3/8/PPPP1PPP/RNBQKBNR b KQkq e3 0 1";
    handler.handle_command(&format!("position fen {}", fen));

    // Verify FEN was parsed (board is not startpos)
    assert_ne!(handler.current_board(), Board::startpos());
}

#[test]
fn test_ucinewgame() {
    let mut handler = UciHandler::new();

    // Apply some moves
    handler.handle_command("position startpos moves e2e4 e7e5");
    assert_ne!(handler.current_board(), Board::startpos());

    // Reset
    handler.handle_command("ucinewgame");
    handler.handle_command("position startpos");
    assert_eq!(handler.current_board(), Board::startpos());
}

#[test]
fn test_parse_uci_move() {
    let handler = UciHandler::new();

    // Valid moves
    assert!(handler.parse_uci_move("e2e4").is_some());
    assert!(handler.parse_uci_move("g1f3").is_some());

    // Invalid moves
    assert!(handler.parse_uci_move("e2e5").is_none()); // Illegal pawn move
    assert!(handler.parse_uci_move("xyz").is_none()); // Invalid format
}

#[test]
fn test_parse_time_control_infinite() {
    let handler = UciHandler::new();
    let tc = handler.parse_time_control(&["infinite"]);
    assert!(matches!(tc, TimeControl::Infinite));
}

#[test]
fn test_parse_time_control_movetime() {
    let handler = UciHandler::new();
    let tc = handler.parse_time_control(&["movetime", "5000"]);
    assert!(matches!(tc, TimeControl::MoveTime { millis: 5000 }));
}

#[test]
fn test_parse_time_control_depth() {
    let handler = UciHandler::new();
    let tc = handler.parse_time_control(&["depth", "10"]);
    assert!(matches!(tc, TimeControl::Depth { depth: 10 }));
}

#[test]
fn test_parse_time_control_nodes() {
    let handler = UciHandler::new();
    let tc = handler.parse_time_control(&["nodes", "100000"]);
    assert!(matches!(tc, TimeControl::Nodes { nodes: 100000 }));
}

#[test]
fn test_parse_time_control_clock() {
    let handler = UciHandler::new();
    let tc = handler.parse_time_control(&[
        "wtime", "60000", "btime", "60000", "winc", "1000", "binc", "1000",
    ]);

    match tc {
        TimeControl::Clock {
            wtime,
            btime,
            winc,
            binc,
            movestogo,
        } => {
            assert_eq!(wtime, 60000);
            assert_eq!(btime, 60000);
            assert_eq!(winc, 1000);
            assert_eq!(binc, 1000);
            assert_eq!(movestogo, None);
        }
        _ => panic!("Expected Clock time control"),
    }
}

#[test]
fn test_setoption_hash() {
    let mut handler = UciHandler::new();
    handler.handle_command("setoption name Hash value 128");
    assert_eq!(handler.current_options().hash_size_mb, 128);
}

#[test]
fn test_setoption_multipv() {
    let mut handler = UciHandler::new();
    handler.handle_command("setoption name MultiPV value 3");
    assert_eq!(handler.current_options().multi_pv, 3);
}

#[test]
fn test_go_command_returns_bestmove() {
    let mut handler = UciHandler::new();
    handler.handle_command("position startpos");
    let response = handler.handle_command("go depth 3");

    assert!(response.is_some());
    let resp = response.unwrap();
    assert!(resp.starts_with("bestmove"));
}
