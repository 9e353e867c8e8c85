use engine::board::Board;
use engine::movegen::generate_moves;
use engine::piece::{Color, Piece, PieceType};
use engine::square::Square;

#[test]
fn test_startpos_move_count() {
    let board = Board::startpos();
    let moves = generate_moves(&board);

    // Starting position has 20 legal moves:
    // 16 pawn moves (8 single pushes + 8 double pushes)
    // 4 knight moves (2 knights * 2 moves each)
    assert_eq!(moves.len(), 20);
}

#[test]
fn test_startpos_pawn_moves() {
    let board = Board::startpos();
    let moves = generate_moves(&board);

    // Count pawn moves
    let pawn_moves = moves
        .iter()
        .filter(|m| {
            board
                .piece_at(m.from())
                .is_some_and(|p| p.piece_type == PieceType::Pawn)
        })
        .count();

    assert_eq!(pawn_moves, 16); // 8 single + 8 double pushes
}

#[test]
fn test_startpos_knight_moves() {
    let board = Board::startpos();
    let moves = generate_moves(&board);

    // Count knight moves
    let knight_moves = moves
        .iter()
        .filter(|m| {
            board
                .piece_at(m.from())
                .is_some_and(|p| p.piece_type == PieceType::Knight)
        })
        .count();

    assert_eq!(knight_moves, 4); // 2 knights * 2 squares each
}

#[test]
fn test_knight_center_moves() {
    let mut board = Board::empty();
    board.set_piece(Square::E4(), Piece::new(PieceType::Knight, Color::White));
    board.set_side_to_move(Color::White);

    let moves = generate_moves(&board);

    // Knight on E4 has 8 possible moves on empty board
    assert_eq!(moves.len(), 8);

    // All should be quiet moves
    assert!(moves.iter().all(|m| !m.is_capture()));
}

#[test]
fn test_knight_captures() {
    let mut board = Board::empty();
    board.set_piece(Square::E4(), Piece::new(PieceType::Knight, Color::White));
    board.set_piece(
        Square::from_coords(5, 5),
        Piece::new(PieceType::Pawn, Color::Black),
    ); // F6
    board.set_piece(
        Square::from_coords(3, 5),
        Piece::new(PieceType::Pawn, Color::Black),
    ); // D6
    board.set_side_to_move(Color::White);

    let moves = generate_moves(&board);

    // 6 quiet moves + 2 captures = 8 total
    assert_eq!(moves.len(), 8);

    let captures = moves.iter().filter(|m| m.is_capture()).count();
    assert_eq!(captures, 2);
}

#[test]
fn test_bishop_diagonal_moves() {
    let mut board = Board::empty();
    board.set_piece(Square::E4(), Piece::new(PieceType::Bishop, Color::White));
    board.set_side_to_move(Color::White);

    let moves = generate_moves(&board);

    // Bishop on E4: 13 diagonal squares (4+3+3+3 in each direction)
    assert_eq!(moves.len(), 13);
}

#[test]
fn test_rook_rank_file_moves() {
    let mut board = Board::empty();
    board.set_piece(Square::E4(), Piece::new(PieceType::Rook, Color::White));
    board.set_side_to_move(Color::White);

    let moves = generate_moves(&board);

    // Rook on E4: 14 squares (7 on file + 7 on rank)
    assert_eq!(moves.len(), 14);
}

#[test]
fn test_queen_all_directions() {
    let mut board = Board::empty();
    board.set_piece(Square::E4(), Piece::new(PieceType::Queen, Color::White));
    board.set_side_to_move(Color::White);

    let moves = generate_moves(&board);

    // Queen on E4: 27 squares (13 diagonal + 14 rank/file)
    assert_eq!(moves.len(), 27);
}

#[test]
fn test_king_adjacent_moves() {
    let mut board = Board::empty();
    board.set_piece(Square::E4(), Piece::new(PieceType::King, Color::White));
    board.set_side_to_move(Color::White);

    let moves = generate_moves(&board);

    // King on E4: 8 adjacent squares
    assert_eq!(moves.len(), 8);
}

#[test]
fn test_pawn_single_push() {
    let mut board = Board::empty();
    board.set_piece(Square::E2(), Piece::new(PieceType::Pawn, Color::White));
    board.set_side_to_move(Color::White);

    let moves = generate_moves(&board);

    // Pawn on E2 can move to E3 (single) and E4 (double)
    assert_eq!(moves.len(), 2);

    // Check single push
    assert!(moves.iter().any(|m| {
        m.from() == Square::E2() && m.to() == Square::E3() && !m.is_double_pawn_push()
    }));

    // Check double push
    assert!(moves.iter().any(|m| {
        m.from() == Square::E2() && m.to() == Square::E4() && m.is_double_pawn_push()
    }));
}

#[test]
fn test_pawn_captures() {
    let mut board = Board::empty();
    board.set_piece(Square::E4(), Piece::new(PieceType::Pawn, Color::White));
    board.set_piece(Square::D5(), Piece::new(PieceType::Pawn, Color::Black));
    board.set_piece(
        Square::from_coords(5, 4),
        Piece::new(PieceType::Pawn, Color::Black),
    ); // F5
    board.set_side_to_move(Color::White);

    let moves = generate_moves(&board);

    // 1 push + 2 captures = 3 moves
    assert_eq!(moves.len(), 3);

    let captures = moves.iter().filter(|m| m.is_capture()).count();
    assert_eq!(captures, 2);
}

#[test]
fn test_pawn_blocked() {
    let mut board = Board::empty();
    board.set_piece(Square::E2(), Piece::new(PieceType::Pawn, Color::White));
    board.set_piece(Square::E3(), Piece::new(PieceType::Pawn, Color::Black)); // Blocker
    board.set_side_to_move(Color::White);

    let moves = generate_moves(&board);

    // Pawn is completely blocked
    assert_eq!(moves.len(), 0);
}

#[test]
fn test_black_pawn_moves() {
    let mut board = Board::empty();
    board.set_piece(Square::E7(), Piece::new(PieceType::Pawn, Color::Black));
    board.set_side_to_move(Color::Black);

    let moves = generate_moves(&board);

    // Black pawn on E7 can move to E6 (single) and E5 (double)
    assert_eq!(moves.len(), 2);

    // Check moves go in correct direction (down for black)
    assert!(moves
        .iter()
        .any(|m| m.from() == Square::E7() && m.to().rank() < Square::E7().rank()));
}

#[test]
fn test_no_friendly_captures() {
    let mut board = Board::empty();
    board.set_piece(Square::E4(), Piece::new(PieceType::Knight, Color::White));
    board.set_piece(
        Square::from_coords(5, 5),
        Piece::new(PieceType::Pawn, Color::White),
    ); // F6 - friendly
    board.set_side_to_move(Color::White);

    let moves = generate_moves(&board);

    // Knight should have 7 moves (8 - 1 blocked by friendly)
    // Pawn should have 1 move (F6 to F7)
    // Total: 8 moves
    assert_eq!(moves.len(), 8);

    // Count knight moves specifically
    let knight_moves = moves
        .iter()
        .filter(|m| {
            board
                .piece_at(m.from())
                .is_some_and(|p| p.piece_type == PieceType::Knight)
        })
        .count();
    assert_eq!(knight_moves, 7);

    // None should be captures
    assert_eq!(moves.iter().filter(|m| m.is_capture()).count(), 0);
}

