use vstd::prelude::*;
use crate::board::Board;
use crate::eval::material::{piece_count, count_pieces};
use crate::piece::{Color, PieceType};

verus! {

/// The phase of a pure endgame.
pub const MAX_PHASE: i32 = 256;

/// The phase weight of a side's pieces: one per minor piece, two per rook,
/// four per queen.
pub open spec fn phase_weight(b: Board, c: Color) -> int {
    (piece_count(b, PieceType::Knight, c) + piece_count(b, PieceType::Bishop, c)
        + 2 * piece_count(b, PieceType::Rook, c) + 4 * piece_count(b, PieceType::Queen, c)) as int
}

/// The game phase: 0 with all pieces, rising to 256 as pieces leave,
/// clamped to `0..=256`.
pub open spec fn phase_of(b: Board) -> int {
    let w = phase_weight(b, Color::White) + phase_weight(b, Color::Black);
    let v = 256 - (w * 256) / 24;
    if v < 0 { 0 } else if v > 256 { 256 } else { v }
}

/// Division rounding toward zero, as Rust's `/` on integers.
pub open spec fn tdiv(a: int, b: int) -> int {
    if a >= 0 { a / b } else { -((-a) / b) }
}

/// The game phase (see `phase_of`).
pub fn calculate_phase(board: &Board) -> (r: i32)
    ensures
        r == phase_of(*board),
        0 <= r <= 256,
{
    let mut phase: i32 = 0;
    let wn = count_pieces(board, PieceType::Knight, Color::White);
    let wb = count_pieces(board, PieceType::Bishop, Color::White);
    let wr = count_pieces(board, PieceType::Rook, Color::White);
    let wq = count_pieces(board, PieceType::Queen, Color::White);
    let bn = count_pieces(board, PieceType::Knight, Color::Black);
    let bb = count_pieces(board, PieceType::Bishop, Color::Black);
    let br = count_pieces(board, PieceType::Rook, Color::Black);
    let bq = count_pieces(board, PieceType::Queen, Color::Black);
    phase = wn + wb + wr * 2 + wq * 4 + bn + bb + br * 2 + bq * 4;
    let phase_value = MAX_PHASE - (phase * MAX_PHASE / 24);
    if phase_value < 0 {
        0
    } else if phase_value > MAX_PHASE {
        MAX_PHASE
    } else {
        phase_value
    }
}

/// Blend a middlegame and an endgame score by phase:
/// `(mg * (256 - phase) + eg * phase) / 256`, rounded toward zero.
pub fn interpolate(mg_score: i32, eg_score: i32, phase: i32) -> (r: i32)
    requires
        i32::MIN <= mg_score * (256 - phase) <= i32::MAX,
        i32::MIN <= eg_score * phase <= i32::MAX,
        i32::MIN <= mg_score * (256 - phase) + eg_score * phase <= i32::MAX,
        256 - phase <= i32::MAX,
    ensures
        r == tdiv(mg_score * (256 - phase) + eg_score * phase, 256),
{
    (mg_score * (MAX_PHASE - phase) + eg_score * phase) / MAX_PHASE
}

} // verus!
