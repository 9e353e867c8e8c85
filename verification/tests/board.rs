use engine::board::{Board, CastlingRights};
use engine::chess_move::{Move, MoveFlags};
use engine::io::parse_fen;
use engine::movegen::generate_moves;
use engine::piece::{Color, Piece, PieceType};
use engine::square::Square;

#[test]
fn castling_rights_all() {
    let rights = CastlingRights::all();
    assert!(rights.white_kingside());
    assert!(rights.white_queenside());
    assert!(rights.black_kingside());
    assert!(rights.black_queenside());
}

#[test]
fn castling_rights_none() {
    let rights = CastlingRights::none();
    assert!(!rights.white_kingside());
    assert!(!rights.white_queenside());
    assert!(!rights.black_kingside());
    assert!(!rights.black_queenside());
}

#[test]
fn castling_rights_partial() {
    let rights = CastlingRights::none()
        .set_white_kingside()
        .set_black_queenside();
    assert!(rights.white_kingside());
    assert!(!rights.white_queenside());
    assert!(!rights.black_kingside());
    assert!(rights.black_queenside());
}

#[test]
fn empty_board() {
    let board = Board::empty();
    assert!(board.occupied().is_empty());
    assert_eq!(board.side_to_move(), Color::White);
    assert_eq!(board.piece_at(Square::E4()), None);
}

#[test]
fn startpos_board() {
    let board = Board::startpos();

    // Check white pieces
    assert_eq!(
        board.piece_at(Square::E1()),
        Some(Piece::new(PieceType::King, Color::White))
    );
    assert_eq!(
        board.piece_at(Square::E2()),
        Some(Piece::new(PieceType::Pawn, Color::White))
    );

    // Check black pieces
    assert_eq!(
        board.piece_at(Square::E8()),
        Some(Piece::new(PieceType::King, Color::Black))
    );
    assert_eq!(
        board.piece_at(Square::E7()),
        Some(Piece::new(PieceType::Pawn, Color::Black))
    );

    // Check empty squares
    assert_eq!(board.piece_at(Square::E4()), None);
    assert_eq!(board.piece_at(Square::E5()), None);

    // Check occupied count
    assert_eq!(board.occupied().count(), 32);
}

#[test]
fn set_and_remove_piece() {
    let mut board = Board::empty();

    board.set_piece(Square::E4(), Piece::new(PieceType::Pawn, Color::White));
    assert_eq!(
        board.piece_at(Square::E4()),
        Some(Piece::new(PieceType::Pawn, Color::White))
    );
    assert_eq!(board.occupied().count(), 1);

    board.remove_piece(Square::E4());
    assert_eq!(board.piece_at(Square::E4()), None);
    assert!(board.occupied().is_empty());
}

#[test]
fn piece_bitboards() {
    let board = Board::startpos();

    // White pawns
    let white_pawns = board.piece_bb(PieceType::Pawn, Color::White);
    assert_eq!(white_pawns.count(), 8);

    // Black knights
    let black_knights = board.piece_bb(PieceType::Knight, Color::Black);
    assert_eq!(black_knights.count(), 2);
    assert!(black_knights.contains(Square::B8()));
    assert!(black_knights.contains(Square::G8()));
}

#[test]
fn color_bitboards() {
    let board = Board::startpos();

    let white_pieces = board.color_bb(Color::White);
    let black_pieces = board.color_bb(Color::Black);

    assert_eq!(white_pieces.count(), 16);
    assert_eq!(black_pieces.count(), 16);
    assert_eq!((white_pieces | black_pieces).count(), 32);
}

#[test]
fn board_state() {
    let mut board = Board::startpos();

    assert_eq!(board.side_to_move(), Color::White);
    assert_eq!(board.halfmove_clock(), 0);
    assert_eq!(board.fullmove_number(), 1);
    assert_eq!(board.ep_square(), None);

    board.set_side_to_move(Color::Black);
    board.set_halfmove_clock(5);
    board.set_fullmove_number(10);
    board.set_ep_square(Some(Square::E3()));

    assert_eq!(board.side_to_move(), Color::Black);
    assert_eq!(board.halfmove_clock(), 5);
    assert_eq!(board.fullmove_number(), 10);
    assert_eq!(board.ep_square(), Some(Square::E3()));
}

#[test]
fn make_unmake_quiet_move() {
    let original = Board::startpos();
    let mut board = original.clone();

    let m = Move::new(Square::E2(), Square::E4(), MoveFlags::DOUBLE_PAWN_PUSH);
    let undo = board.make_move(m);

    // Piece should have moved
    assert_eq!(board.piece_at(Square::E2()), None);
    assert_eq!(
        board.piece_at(Square::E4()),
        Some(Piece::new(PieceType::Pawn, Color::White))
    );

    // Side to move should have switched
    assert_eq!(board.side_to_move(), Color::Black);

    // En passant square should be set
    assert_eq!(board.ep_square(), Some(Square::E3()));

    // Halfmove clock should reset
    assert_eq!(board.halfmove_clock(), 0);

    // Unmake the move
    board.unmake_move(m, undo);

    // Board should be identical to original
    assert_eq!(board, original);
}

#[test]
fn make_unmake_capture() {
    let mut board = Board::empty();
    board.set_piece(Square::E4(), Piece::new(PieceType::Knight, Color::White));
    board.set_piece(Square::D6(), Piece::new(PieceType::Pawn, Color::Black));
    board.set_side_to_move(Color::White);
    board.set_halfmove_clock(10);

    let original = board.clone();

    let m = Move::new(Square::E4(), Square::D6(), MoveFlags::CAPTURE);
    let undo = board.make_move(m);

    // Knight should have captured pawn
    assert_eq!(
        board.piece_at(Square::D6()),
        Some(Piece::new(PieceType::Knight, Color::White))
    );
    assert_eq!(board.piece_at(Square::E4()), None);

    // Halfmove clock should reset
    assert_eq!(board.halfmove_clock(), 0);

    // Unmake the move
    board.unmake_move(m, undo);

    // Board should be restored
    assert_eq!(board, original);
}

#[test]
fn make_unmake_castling_kingside() {
    let mut board = Board::empty();
    board.set_piece(Square::E1(), Piece::new(PieceType::King, Color::White));
    board.set_piece(Square::H1(), Piece::new(PieceType::Rook, Color::White));
    board.set_side_to_move(Color::White);
    board.set_castling(CastlingRights::all());

    let original = board.clone();

    let m = Move::new(Square::E1(), Square::G1(), MoveFlags::KING_CASTLE);
    let undo = board.make_move(m);

    // King should be on G1
    assert_eq!(
        board.piece_at(Square::G1()),
        Some(Piece::new(PieceType::King, Color::White))
    );

    // Rook should be on F1
    assert_eq!(
        board.piece_at(Square::F1()),
        Some(Piece::new(PieceType::Rook, Color::White))
    );

    // E1 and H1 should be empty
    assert_eq!(board.piece_at(Square::E1()), None);
    assert_eq!(board.piece_at(Square::H1()), None);

    // Castling rights should be removed for white
    assert!(!board.castling().white_kingside());
    assert!(!board.castling().white_queenside());

    // Unmake the move
    board.unmake_move(m, undo);

    // Board should be restored
    assert_eq!(board, original);
}

#[test]
fn make_unmake_promotion() {
    let mut board = Board::empty();
    board.set_piece(Square::E7(), Piece::new(PieceType::Pawn, Color::White));
    board.set_side_to_move(Color::White);

    let original = board.clone();

    let m = Move::new(Square::E7(), Square::E8(), MoveFlags::QUEEN_PROMOTION);
    let undo = board.make_move(m);

    // Should be a queen on E8
    assert_eq!(
        board.piece_at(Square::E8()),
        Some(Piece::new(PieceType::Queen, Color::White))
    );
    assert_eq!(board.piece_at(Square::E7()), None);

    // Unmake the move
    board.unmake_move(m, undo);

    // Board should be restored (pawn back on E7)
    assert_eq!(board, original);
}

#[test]
fn make_unmake_en_passant() {
    // Set up position with proper double pawn push first
    let mut board = Board::empty();
    board.set_piece(Square::E5(), Piece::new(PieceType::Pawn, Color::White));
    board.set_piece(Square::D7(), Piece::new(PieceType::Pawn, Color::Black));
    board.set_side_to_move(Color::Black);

    // Black does double pawn push D7-D5
    let double_push = Move::new(Square::D7(), Square::D5(), MoveFlags::DOUBLE_PAWN_PUSH);
    board.make_move(double_push);

    // Now en passant square should be D6
    assert_eq!(board.ep_square(), Some(Square::D6()));

    let original = board.clone();

    // White captures en passant E5xD6
    let ep_capture = Move::new(Square::E5(), Square::D6(), MoveFlags::EP_CAPTURE);
    let undo = board.make_move(ep_capture);

    // White pawn should be on D6
    assert_eq!(
        board.piece_at(Square::D6()),
        Some(Piece::new(PieceType::Pawn, Color::White))
    );

    // Black pawn should be captured (D5 should be empty)
    assert_eq!(board.piece_at(Square::D5()), None);
    assert_eq!(board.piece_at(Square::E5()), None);

    // Unmake the move
    board.unmake_move(ep_capture, undo);

    // Board should be restored
    assert_eq!(board, original);
}

#[test]
fn make_move_updates_castling_rights() {
    let mut board = Board::startpos();

    // Move white king
    let m = Move::new(Square::E1(), Square::E2(), MoveFlags::QUIET);
    board.make_move(m);

    // White should lose all castling rights
    assert!(!board.castling().white_kingside());
    assert!(!board.castling().white_queenside());

    // Black should still have castling rights
    assert!(board.castling().black_kingside());
    assert!(board.castling().black_queenside());
}

#[test]
fn make_move_updates_castling_on_rook_move() {
    let mut board = Board::startpos();

    // Move white kingside rook
    let m = Move::new(Square::H1(), Square::H2(), MoveFlags::QUIET);
    board.make_move(m);

    // White should lose kingside castling only
    assert!(!board.castling().white_kingside());
    assert!(board.castling().white_queenside());
}

#[test]
fn make_move_updates_castling_on_rook_capture() {
    let mut board = Board::startpos();

    // Simulate capturing black's queenside rook
    let m = Move::new(Square::D1(), Square::A8(), MoveFlags::CAPTURE);
    board.make_move(m);

    // Black should lose queenside castling
    assert!(!board.castling().black_queenside());
}

#[test]
fn make_move_fullmove_number() {
    let mut board = Board::startpos();

    // White's move - fullmove should stay 1
    let m1 = Move::new(Square::E2(), Square::E4(), MoveFlags::QUIET);
    board.make_move(m1);
    assert_eq!(board.fullmove_number(), 1);

    // Black's move - fullmove should increment to 2
    let m2 = Move::new(Square::E7(), Square::E5(), MoveFlags::QUIET);
    board.make_move(m2);
    assert_eq!(board.fullmove_number(), 2);
}

#[test]
fn make_move_halfmove_clock() {
    let mut board = Board::startpos();

    // Pawn move - resets clock
    let m1 = Move::new(Square::E2(), Square::E4(), MoveFlags::QUIET);
    board.make_move(m1);
    assert_eq!(board.halfmove_clock(), 0);

    // Knight move - increments clock
    let m2 = Move::new(Square::B8(), Square::C6(), MoveFlags::QUIET);
    board.make_move(m2);
    assert_eq!(board.halfmove_clock(), 1);

    // Another knight move - increments clock
    let m3 = Move::new(Square::G1(), Square::F3(), MoveFlags::QUIET);
    board.make_move(m3);
    assert_eq!(board.halfmove_clock(), 2);
}

#[test]
fn reversibility_chain() {
    // Test multiple moves and unmakes
    let original = Board::startpos();
    let mut board = original.clone();

    let moves_and_undos = vec![
        (
            Move::new(Square::E2(), Square::E4(), MoveFlags::DOUBLE_PAWN_PUSH),
            board.make_move(Move::new(
                Square::E2(),
                Square::E4(),
                MoveFlags::DOUBLE_PAWN_PUSH,
            )),
        ),
        (
            Move::new(Square::E7(), Square::E5(), MoveFlags::DOUBLE_PAWN_PUSH),
            board.make_move(Move::new(
                Square::E7(),
                Square::E5(),
                MoveFlags::DOUBLE_PAWN_PUSH,
            )),
        ),
        (
            Move::new(Square::G1(), Square::F3(), MoveFlags::QUIET),
            board.make_move(Move::new(Square::G1(), Square::F3(), MoveFlags::QUIET)),
        ),
    ];

    // Unmake in reverse order
    for (m, undo) in moves_and_undos.into_iter().rev() {
        board.unmake_move(m, undo);
    }

    // Should be back to original
    assert_eq!(board, original);
}

#[test]
fn test_is_square_attacked() {
    let board = Board::startpos();

    // E2 is protected by white
    assert!(board.is_square_attacked(Square::E2(), Color::White));

    // E7 is protected by black
    assert!(board.is_square_attacked(Square::E7(), Color::Black));

    // E4 is not attacked at start
    assert!(!board.is_square_attacked(Square::E4(), Color::White));
    assert!(!board.is_square_attacked(Square::E4(), Color::Black));
}

#[test]
fn test_is_in_check_startpos() {
    let board = Board::startpos();
    assert!(!board.is_in_check());
}

#[test]
fn test_is_in_check_white() {

    // White king in check from black queen on h4
    let fen = "rnb1kbnr/pppp1ppp/8/4p3/6Pq/5P2/PPPPP2P/RNBQKBNR w KQkq - 1 3";
    let board = parse_fen(fen).unwrap();
    assert!(board.is_in_check());
}

#[test]
fn test_is_in_check_black() {

    // Black king in check from white queen on e8
    let fen = "rnb1k2Q/pppp1ppp/5n2/2b1p3/2B1P3/8/PPPP1PPP/RNB1K1NR b KQq - 4 4";
    let board = parse_fen(fen).unwrap();
    assert!(board.is_in_check());
}

#[test]
fn test_is_legal_normal_move() {
    let board = Board::startpos();
    let m = Move::new(Square::E2(), Square::E4(), MoveFlags::DOUBLE_PAWN_PUSH);
    assert!(board.is_legal(m));
}

#[test]
fn test_is_legal_pinned_piece() {

    // Position where knight can move freely
    let fen = "r1bqkbnr/pppp1ppp/2n5/4p3/2B1P3/5N2/PPPP1PPP/RNBQK2R w KQkq - 4 4";
    let board = parse_fen(fen).unwrap();

    // Move knight normally - should be legal
    let legal_move = Move::new(Square::F3(), Square::from_coords(6, 4), MoveFlags::QUIET); // Ng5
    assert!(board.is_legal(legal_move));
}

#[test]
fn test_is_legal_blocks_check() {

    // Black in check from rook on e1 (along e-file to e8)
    let fen = "4k3/8/8/8/8/8/8/4R2K b - - 0 1";
    let board = parse_fen(fen).unwrap();

    assert!(board.is_in_check()); // Black king on e8 in check from rook on e1

    // King can move to escape
    let king_move = Move::new(
        Square::from_coords(4, 7), // e8
        Square::from_coords(3, 7), // d8
        MoveFlags::QUIET,
    );
    assert!(board.is_legal(king_move));
}

#[test]
fn test_castling_legal() {
    let mut board = Board::empty();
    board.set_piece(Square::E1(), Piece::new(PieceType::King, Color::White));
    board.set_piece(Square::H1(), Piece::new(PieceType::Rook, Color::White));
    board.set_side_to_move(Color::White);
    board.set_castling(CastlingRights::all());

    let castle_move = Move::new(Square::E1(), Square::G1(), MoveFlags::KING_CASTLE);
    assert!(board.is_legal(castle_move));
}

#[test]
fn test_castling_through_check() {
    let mut board = Board::empty();
    board.set_piece(Square::E1(), Piece::new(PieceType::King, Color::White));
    board.set_piece(Square::H1(), Piece::new(PieceType::Rook, Color::White));
    board.set_piece(Square::F3(), Piece::new(PieceType::Rook, Color::Black)); // Attacks f1
    board.set_side_to_move(Color::White);
    board.set_castling(CastlingRights::all());

    let castle_move = Move::new(Square::E1(), Square::G1(), MoveFlags::KING_CASTLE);
    assert!(!board.is_legal(castle_move)); // Can't castle through check
}

#[test]
fn test_castling_into_check() {
    let mut board = Board::empty();
    board.set_piece(Square::E1(), Piece::new(PieceType::King, Color::White));
    board.set_piece(Square::H1(), Piece::new(PieceType::Rook, Color::White));
    board.set_piece(
        Square::from_coords(6, 2),
        Piece::new(PieceType::Rook, Color::Black),
    ); // G3 - Attacks g1
    board.set_side_to_move(Color::White);
    board.set_castling(CastlingRights::all());

    let castle_move = Move::new(Square::E1(), Square::G1(), MoveFlags::KING_CASTLE);
    assert!(!board.is_legal(castle_move)); // Can't castle into check
}

#[test]
fn test_castling_out_of_check() {
    let mut board = Board::empty();
    board.set_piece(Square::E1(), Piece::new(PieceType::King, Color::White));
    board.set_piece(Square::H1(), Piece::new(PieceType::Rook, Color::White));
    board.set_piece(Square::E3(), Piece::new(PieceType::Rook, Color::Black)); // Attacks e1
    board.set_side_to_move(Color::White);
    board.set_castling(CastlingRights::all());

    let castle_move = Move::new(Square::E1(), Square::G1(), MoveFlags::KING_CASTLE);
    assert!(!board.is_legal(castle_move)); // Can't castle out of check
}

#[test]
fn test_generate_legal_moves_startpos() {
    let board = Board::startpos();
    let legal_moves = board.generate_legal_moves();

    // Starting position has 20 legal moves (same as pseudo-legal)
    assert_eq!(legal_moves.len(), 20);
}

#[test]
fn test_generate_legal_moves_in_check() {

    // Black king in check from rook
    let fen = "4k3/8/8/8/8/8/8/4R2K b - - 0 1";
    let board = parse_fen(fen).unwrap();

    assert!(board.is_in_check());
    let legal_moves = board.generate_legal_moves();

    // Should have some legal moves (king moves to escape)
    assert!(!legal_moves.is_empty());

    // All legal moves should actually be legal
    for &m in legal_moves.iter() {
        assert!(board.is_legal(m));
    }
}

#[test]
fn test_generate_legal_moves_filters_illegal() {

    // Position with some pins
    let fen = "r3k2r/p1ppqpb1/bn2pnp1/3PN3/1p2P3/2N2Q1p/PPPBBPPP/R3K2R w KQkq - 0 1";
    let board = parse_fen(fen).unwrap();

    let pseudo_legal = generate_moves(&board);
    let legal = board.generate_legal_moves();

    // Legal should be <= pseudo-legal (some moves may be illegal)
    assert!(legal.len() <= pseudo_legal.len());

    // All legal moves should pass is_legal check
    for &m in legal.iter() {
        assert!(board.is_legal(m));
    }
}

