use engine::board::Board;
use engine::io::parse_fen;
use engine::opening_book::OpeningBook;

#[test]
fn test_book_creation() {
    let book = OpeningBook::new();
    assert!(book.size() > 0, "Book should have positions");
}

#[test]
fn test_startpos_in_book() {
    let book = OpeningBook::new();
    let board = Board::startpos();
    assert!(book.contains(&board), "Starting position should be in book");
}

#[test]
fn test_probe_startpos() {
    let book = OpeningBook::new();
    let board = Board::startpos();
    let mv = book.probe(&board);
    assert!(mv.is_some(), "Should find a move for starting position");
}

#[test]
fn test_avoid_ng5() {
    let book = OpeningBook::new();
    // After 1.Nf3 d5, should NOT suggest Ng5
    let board = parse_fen("rnbqkbnr/ppp1pppp/8/3p4/8/5N2/PPPPPPPP/RNBQKB1R w KQkq d6 0 2").unwrap();

    if let Some(mv) = book.probe(&board) {
        let from_str = mv.from().to_algebraic();
        let to_str = mv.to().to_algebraic();
        let move_uci = format!("{}{}", from_str, to_str);
        assert_ne!(move_uci, "g1g5", "Book should not suggest Ng5");
    }
}
