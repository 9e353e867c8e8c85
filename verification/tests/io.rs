use engine::io::{parse_fen, is_valid_fen, parse_epd, EpdError, ToFen, STARTPOS_FEN};
use engine::piece::{Color, Piece, PieceType};
use engine::square::Square;

#[test]
fn test_parse_startpos() {
    let board = parse_fen(STARTPOS_FEN).unwrap();

    // Check piece placement
    assert_eq!(
        board.piece_at(Square::E1()),
        Some(Piece::new(PieceType::King, Color::White))
    );
    assert_eq!(
        board.piece_at(Square::E8()),
        Some(Piece::new(PieceType::King, Color::Black))
    );
    assert_eq!(
        board.piece_at(Square::A1()),
        Some(Piece::new(PieceType::Rook, Color::White))
    );
    assert_eq!(
        board.piece_at(Square::H8()),
        Some(Piece::new(PieceType::Rook, Color::Black))
    );
    assert_eq!(
        board.piece_at(Square::E2()),
        Some(Piece::new(PieceType::Pawn, Color::White))
    );

    // Check metadata
    assert_eq!(board.side_to_move(), Color::White);
    assert!(board.castling().white_kingside());
    assert!(board.castling().white_queenside());
    assert!(board.castling().black_kingside());
    assert!(board.castling().black_queenside());
    assert_eq!(board.ep_square(), None);
    assert_eq!(board.halfmove_clock(), 0);
    assert_eq!(board.fullmove_number(), 1);
}

#[test]
fn test_fen_roundtrip() {
    let board = parse_fen(STARTPOS_FEN).unwrap();
    assert_eq!(board.to_fen(), STARTPOS_FEN);
}

#[test]
fn test_parse_fen_with_en_passant() {
    let fen = "rnbqkbnr/pppppppp/8/8/4P3/8/PPPP1PPP/RNBQKBNR b KQkq e3 0 1";
    let board = parse_fen(fen).unwrap();

    assert_eq!(board.ep_square(), Some(Square::E3()));
    assert_eq!(board.to_fen(), fen);
}

#[test]
fn test_parse_fen_no_castling() {
    let fen = "rnbqkbnr/pppppppp/8/8/8/8/PPPPPPPP/RNBQKBNR w - - 0 1";
    let board = parse_fen(fen).unwrap();

    assert_eq!(board.castling().bits(), 0);
    assert_eq!(board.to_fen(), fen);
}

#[test]
fn test_parse_fen_partial_castling() {
    let fen = "rnbqkbnr/pppppppp/8/8/8/8/PPPPPPPP/RNBQKBNR w Kq - 0 1";
    let board = parse_fen(fen).unwrap();

    assert!(board.castling().white_kingside());
    assert!(!board.castling().white_queenside());
    assert!(!board.castling().black_kingside());
    assert!(board.castling().black_queenside());
    assert_eq!(board.to_fen(), fen);
}

#[test]
fn test_parse_fen_black_to_move() {
    let fen = "rnbqkbnr/pppppppp/8/8/8/8/PPPPPPPP/RNBQKBNR b KQkq - 0 1";
    let board = parse_fen(fen).unwrap();

    assert_eq!(board.side_to_move(), Color::Black);
    assert_eq!(board.to_fen(), fen);
}

#[test]
fn test_parse_complex_position() {
    let fen = "r3k2r/p1ppqpb1/bn2pnp1/3PN3/1p2P3/2N2Q1p/PPPBBPPP/R3K2R w KQkq - 0 1";
    let board = parse_fen(fen).unwrap();

    // Verify some key pieces
    assert_eq!(
        board.piece_at(Square::E1()),
        Some(Piece::new(PieceType::King, Color::White))
    );
    assert_eq!(
        board.piece_at(Square::E8()),
        Some(Piece::new(PieceType::King, Color::Black))
    );
    assert_eq!(
        board.piece_at(Square::F3()),
        Some(Piece::new(PieceType::Queen, Color::White))
    );
    assert_eq!(
        board.piece_at(Square::E7()),
        Some(Piece::new(PieceType::Queen, Color::Black))
    );

    assert_eq!(board.to_fen(), fen);
}

#[test]
fn test_parse_fen_with_clocks() {
    let fen = "rnbqkbnr/pppppppp/8/8/8/8/PPPPPPPP/RNBQKBNR w KQkq - 5 10";
    let board = parse_fen(fen).unwrap();

    assert_eq!(board.halfmove_clock(), 5);
    assert_eq!(board.fullmove_number(), 10);
    assert_eq!(board.to_fen(), fen);
}

#[test]
fn test_parse_empty_board() {
    let fen = "8/8/8/8/8/8/8/8 w - - 0 1";
    let board = parse_fen(fen).unwrap();

    // All squares should be empty
    for sq in Square::all() {
        assert_eq!(board.piece_at(sq), None);
    }

    assert_eq!(board.to_fen(), fen);
}

#[test]
fn test_parse_invalid_piece_count() {
    let fen = "rnbqkbnr/pppppppp/8/8/8/8/PPPPPPPP w KQkq - 0 1"; // Missing rank
    assert!(parse_fen(fen).is_err());
}

#[test]
fn test_parse_invalid_side() {
    let fen = "rnbqkbnr/pppppppp/8/8/8/8/PPPPPPPP/RNBQKBNR x KQkq - 0 1";
    assert!(parse_fen(fen).is_err());
}

#[test]
fn test_parse_invalid_castling() {
    let fen = "rnbqkbnr/pppppppp/8/8/8/8/PPPPPPPP/RNBQKBNR w KQx - 0 1";
    assert!(parse_fen(fen).is_err());
}

#[test]
fn test_parse_invalid_en_passant() {
    let fen = "rnbqkbnr/pppppppp/8/8/8/8/PPPPPPPP/RNBQKBNR w KQkq z9 0 1";
    assert!(parse_fen(fen).is_err());
}

#[test]
fn test_is_valid_fen() {
    assert!(is_valid_fen(STARTPOS_FEN));
    assert!(is_valid_fen(
        "r3k2r/p1ppqpb1/bn2pnp1/3PN3/1p2P3/2N2Q1p/PPPBBPPP/R3K2R w KQkq - 0 1"
    ));
    assert!(!is_valid_fen("invalid"));
    assert!(!is_valid_fen(""));
}

#[test]
fn test_parse_simple_epd() {
    let epd = "rnbqkbnr/pppppppp/8/8/8/8/PPPPPPPP/RNBQKBNR w KQkq - 0 1; bm e2e4; id \"Test\"";
    let result = parse_epd(epd).unwrap();

    assert_eq!(result.best_moves.len(), 1);
    assert_eq!(result.best_moves[0], "e2e4");
    assert_eq!(result.id, "Test");
}

#[test]
fn test_parse_epd_multiple_best_moves() {
    let epd = "rnbqkbnr/pppppppp/8/8/8/8/PPPPPPPP/RNBQKBNR w KQkq -; bm e2e4 d2d4; id \"Opening\"";
    let result = parse_epd(epd).unwrap();

    assert_eq!(result.best_moves.len(), 2);
    assert!(result.best_moves.contains(&"e2e4".to_string()));
    assert!(result.best_moves.contains(&"d2d4".to_string()));
}

#[test]
fn test_parse_epd_with_comment() {
    let epd = r#"rnbqkbnr/pppppppp/8/8/4P3/8/PPPP1PPP/RNBQKBNR b KQkq e3; bm e7e5; id "Test"; c0 "King's pawn opening""#;
    let result = parse_epd(epd).unwrap();

    assert_eq!(result.best_moves[0], "e7e5");
    assert_eq!(result.comment.as_ref().unwrap(), "King's pawn opening");
}

#[test]
fn test_parse_epd_no_best_move() {
    let epd = "rnbqkbnr/pppppppp/8/8/8/8/PPPPPPPP/RNBQKBNR w KQkq - 0 1; id \"Test\"";
    let result = parse_epd(epd);

    assert!(result.is_err());
    assert!(matches!(result.unwrap_err(), EpdError::MissingBestMoves));
}

#[test]
fn test_parse_epd_minimal_fen() {
    // EPD with only 4 FEN fields (standard EPD format)
    let epd = "rnbqkbnr/pppppppp/8/8/8/8/PPPPPPPP/RNBQKBNR w KQkq -; bm e2e4";
    let result = parse_epd(epd).unwrap();

    assert_eq!(result.board.side_to_move(), Color::White);
    assert_eq!(result.best_moves[0], "e2e4");
}

