use vstd::prelude::*;
use crate::bitboard::{popcount, lemma_popcount_bound};
use crate::board::Board;
use crate::piece::{Color, PieceType, color_index, kind_index};

verus! {

/// Piece values in centipawns: pawn, knight, bishop, rook, queen, king.
pub const PIECE_VALUES: [i32; 6] = [100, 320, 330, 500, 900, 20000];

/// The value of a piece type in centipawns.
pub open spec fn value_of(kind: PieceType) -> int {
    match kind {
        PieceType::Pawn => 100,
        PieceType::Knight => 320,
        PieceType::Bishop => 330,
        PieceType::Rook => 500,
        PieceType::Queen => 900,
        PieceType::King => 20000,
    }
}

/// The squares of the pieces of a kind and color.
pub open spec fn bits_of(b: Board, kind: PieceType, c: Color) -> u64 {
    b.slot_bits((color_index(c) * 6 + kind_index(kind)) as int)
}

/// The number of pieces of a kind and color on the board.
pub open spec fn piece_count(b: Board, kind: PieceType, c: Color) -> nat {
    popcount(b.slot_bits((color_index(c) * 6 + kind_index(kind)) as int))
}

/// The material of a color: each piece counted at its value.
pub open spec fn material(b: Board, c: Color) -> int {
    (piece_count(b, PieceType::Pawn, c) * 100 + piece_count(b, PieceType::Knight, c) * 320
        + piece_count(b, PieceType::Bishop, c) * 330 + piece_count(b, PieceType::Rook, c) * 500
        + piece_count(b, PieceType::Queen, c) * 900 + piece_count(b, PieceType::King, c) * 20000) as int
}

/// The value of a piece type in centipawns.
pub fn piece_value(piece_type: PieceType) -> (r: i32)
    ensures
        r == value_of(piece_type),
{
    PIECE_VALUES[piece_type.index()]
}

/// The number of pieces of a kind and color, as an `i32`.
pub fn count_pieces(board: &Board, kind: PieceType, color: Color) -> (r: i32)
    ensures
        r == piece_count(*board, kind, color),
        0 <= r <= 64,
{
    let n = board.piece_bb(kind, color).count();
    proof {
        lemma_popcount_bound(board.slot_bits((color_index(color) * 6 + kind_index(kind)) as int));
    }
    n as i32
}

/// The material of one color.
pub fn evaluate_material(board: &Board, color: Color) -> (r: i32)
    ensures
        r == material(*board, color),
        0 <= r <= 64 * 22150,
{
    let p = count_pieces(board, PieceType::Pawn, color);
    let n = count_pieces(board, PieceType::Knight, color);
    let b = count_pieces(board, PieceType::Bishop, color);
    let r = count_pieces(board, PieceType::Rook, color);
    let q = count_pieces(board, PieceType::Queen, color);
    let k = count_pieces(board, PieceType::King, color);
    p * 100 + n * 320 + b * 330 + r * 500 + q * 900 + k * 20000
}

/// The material of both colors together.
pub fn total_material(board: &Board) -> (r: i32)
    ensures
        r == material(*board, Color::White) + material(*board, Color::Black),
{
    evaluate_material(board, Color::White) + evaluate_material(board, Color::Black)
}

/// The endgame: no queens left, or less than 1700 of material per side on
/// average.
pub open spec fn endgame(b: Board) -> bool {
    (piece_count(b, PieceType::Queen, Color::White) == 0 && piece_count(b, PieceType::Queen, Color::Black) == 0)
        || (material(b, Color::White) + material(b, Color::Black)) / 2 < 1700
}

/// Whether the position is an endgame (see `endgame`).
pub fn is_endgame(board: &Board) -> (r: bool)
    ensures
        r == endgame(*board),
{
    let wq = count_pieces(board, PieceType::Queen, Color::White);
    let bq = count_pieces(board, PieceType::Queen, Color::Black);
    if wq == 0 && bq == 0 {
        return true;
    }
    let total = total_material(board);
    total / 2 < 1700
}

} // verus!
