//! Search extensions: extra depth for checks, recaptures and advanced
//! passed pawns, within a budget per search path.
use vstd::prelude::*;
use crate::bitboard::{Bitboard, bit};
use crate::board::Board;
use crate::chess_move::{Move, mv_code, mv_to};
use crate::eval::material::bits_of;
use crate::piece::{Color, PieceType, Piece, opposite};
use crate::square::{Square, file_of, rank_of};

verus! {

/// Extensions allowed along one search path.
pub const MAX_EXTENSIONS_PER_PATH: i32 = 16;

/// Extension for a check.
const CHECK_EXTENSION: i32 = 1;

/// Extension for a recapture.
const RECAPTURE_EXTENSION: i32 = 1;

/// Extension for a passed pawn reaching the sixth or seventh rank.
const PASSED_PAWN_EXTENSION: i32 = 1;

/// Margin of the singular extension test.
const SINGULAR_MARGIN: i32 = 100;

/// Depth reduction of the singular extension test.
const SINGULAR_DEPTH_REDUCTION: i32 = 3;

/// Minimum depth of a singular extension.
const SINGULAR_MIN_DEPTH: i32 = 8;

/// Whether `mv` recaptures on the square `prev` moved to.
pub open spec fn recaptures(mv: Move, prev: Move) -> bool {
    4 <= mv_code(mv@) % 8 && mv_to(mv@) == mv_to(prev@)
}

/// Whether file `f` is `file` or next to it.
pub open spec fn near_file(f: nat, file: nat) -> bool {
    (if file > 0 { file - 1 } else { 0 }) <= f <= (if file + 1 > 7 { 7 } else { file + 1 })
}

/// Whether rank `r` lies ahead of rank `rank` for a pawn of `c`.
pub open spec fn ahead_of(c: Color, r: nat, rank: nat) -> bool {
    match c {
        Color::White => r > rank,
        Color::Black => r < rank,
    }
}

/// Whether an enemy pawn stands ahead of `sq` for `c`, on its file or one
/// next to it.
pub open spec fn blocked_ahead(b: Board, sq: nat, c: Color) -> bool {
    exists|s: nat| s < 64 && #[trigger] bit(bits_of(b, PieceType::Pawn, opposite(c)), s as u64)
        && near_file(file_of(s), file_of(sq)) && ahead_of(c, rank_of(s), rank_of(sq))
}

/// Whether the piece on a move's target is a pawn of some color on its
/// sixth or seventh rank (for white ranks 6 to 8, for black 1 to 3) with
/// no enemy pawn ahead on its file or the files next to it.
pub open spec fn passed_push(b: Board, mv: Move) -> bool {
    let to = mv_to(mv@);
    match b.piece_on(to) {
        Some(p) => p.piece_type == PieceType::Pawn
            && (match p.color { Color::White => rank_of(to) >= 5, Color::Black => rank_of(to) <= 2 })
            && !blocked_ahead(b, to, p.color),
        None => false,
    }
}

/// The extension of a move (the board is the one after it): none once the
/// budget is used up; otherwise one ply for a check, a recapture or an
/// advanced passed pawn, within what is left of the budget.
pub open spec fn extension(b: Board, mv: Move, in_check: bool, prev: Option<Move>, used: int) -> int {
    if used >= 16 {
        0
    } else {
        let e = if in_check || (prev matches Some(p) && recaptures(mv, p)) || passed_push(b, mv) { 1int } else { 0int };
        if e < 16 - used { e } else { 16 - used }
    }
}

/// The extension of a move made on `board` (see `extension`).
pub fn calculate_extension(board: &Board, mv: Move, in_check: bool, prev_move: Option<Move>, depth: i32,
    extensions_used: i32) -> (r: i32)
    requires
        board.wf(),
        extensions_used >= 16 - i32::MAX,
    ensures
        r == extension(*board, mv, in_check, prev_move, extensions_used as int),
{
    if extensions_used >= MAX_EXTENSIONS_PER_PATH {
        return 0;
    }
    let mut ext: i32 = 0;
    if in_check {
        ext = CHECK_EXTENSION;
    }
    match prev_move {
        Some(prev) => {
            if is_recapture(mv, prev) {
                ext = RECAPTURE_EXTENSION;
            }
        },
        None => {},
    }
    if is_passed_pawn_push_to_7th(board, mv) {
        ext = PASSED_PAWN_EXTENSION;
    }
    let remaining = MAX_EXTENSIONS_PER_PATH - extensions_used;
    if ext < remaining { ext } else { remaining }
}

/// Whether `mv` captures on the square `prev_move` moved to.
pub fn is_recapture(mv: Move, prev_move: Move) -> (r: bool)
    ensures
        r == recaptures(mv, prev_move),
{
    let a = mv.to();
    let b = prev_move.to();
    proof {
        if a@ == b@ {
            crate::square::lemma_square_view_injective(a, b);
        }
    }
    mv.is_capture() && a == b
}

/// Whether the piece a move brought to its target is an advanced passed
/// pawn (see `passed_push`).
pub fn is_passed_pawn_push_to_7th(board: &Board, mv: Move) -> (r: bool)
    requires
        board.wf(),
    ensures
        r == passed_push(*board, mv),
{
    let to = mv.to();
    let piece = match board.piece_at(to) {
        Some(p) => p,
        None => {
            return false;
        },
    };
    if piece.piece_type != PieceType::Pawn {
        return false;
    }
    let rank = to.rank();
    let is_advanced = match piece.color {
        Color::White => rank >= 5,
        Color::Black => rank <= 2,
    };
    if !is_advanced {
        return false;
    }
    is_passed_pawn_simple(board, to, piece.color)
}

/// Whether no enemy pawn stands ahead of `sq` for `color` on its file or
/// the files next to it.
pub fn is_passed_pawn_simple(board: &Board, sq: Square, color: Color) -> (r: bool)
    requires
        board.wf(),
    ensures
        r == !blocked_ahead(*board, sq@, color),
{
    let file = sq.file();
    let rank = sq.rank();
    let enemy_pawns = board.piece_bb(PieceType::Pawn, color.opponent());
    let lo: u8 = if file > 0 { file - 1 } else { 0 };
    let hi: u8 = if file + 1 > 7 { 7 } else { file + 1 };
    let mut f: u8 = lo;
    while f <= hi
        invariant
            lo <= f <= hi + 1,
            hi <= 7,
            lo == (if file_of(sq@) > 0 { file_of(sq@) - 1 } else { 0 }),
            hi == (if file_of(sq@) + 1 > 7 { 7 } else { file_of(sq@) + 1 }),
            file == file_of(sq@),
            rank == rank_of(sq@),
            rank < 8,
            enemy_pawns.0 == bits_of(*board, PieceType::Pawn, opposite(color)),
            forall|s: nat| s < 64 && file_of(s) < f && #[trigger] bit(enemy_pawns.0, s as u64) ==>
                !(near_file(file_of(s), file_of(sq@)) && ahead_of(color, rank_of(s), rank_of(sq@))),
        decreases 8 - f,
    {
        let mut r: u8 = 0;
        while r < 8
            invariant
                lo <= f <= hi,
                hi <= 7,
                lo == (if file_of(sq@) > 0 { file_of(sq@) - 1 } else { 0 }),
                hi == (if file_of(sq@) + 1 > 7 { 7 } else { file_of(sq@) + 1 }),
                file == file_of(sq@),
                enemy_pawns.0 == bits_of(*board, PieceType::Pawn, opposite(color)),
                r <= 8,
                rank < 8,
                rank == rank_of(sq@),
                forall|s: nat| s < 64 && file_of(s) == f && rank_of(s) < r && #[trigger] bit(enemy_pawns.0, s as u64) ==>
                    !ahead_of(color, rank_of(s), rank_of(sq@)),
            decreases 8 - r,
        {
            let ahead = match color {
                Color::White => r > rank,
                Color::Black => r < rank,
            };
            if ahead {
                let check_sq = Square::from_coords(f, r);
                if enemy_pawns.contains(check_sq) {
                    proof {
                        let s = check_sq@;
                        assert(near_file(file_of(s), file_of(sq@)));
                        assert(blocked_ahead(*board, sq@, color));
                    }
                    return false;
                }
            }
            proof {
                assert forall|s: nat| s < 64 && file_of(s) == f && rank_of(s) < r + 1 && #[trigger] bit(enemy_pawns.0, s as u64) implies
                    !ahead_of(color, rank_of(s), rank_of(sq@)) by {
                    if rank_of(s) == r {
                        assert(s == r * 8 + f);
                    }
                }
            }
            r += 1;
        }
        f += 1;
    }
    proof {
        assert forall|s: nat| s < 64 && #[trigger] bit(bits_of(*board, PieceType::Pawn, opposite(color)), s as u64) implies
            !(near_file(file_of(s), file_of(sq@)) && ahead_of(color, rank_of(s), rank_of(sq@))) by {
            if near_file(file_of(s), file_of(sq@)) {
                assert(file_of(s) < f);
            }
        }
    }
    true
}

/// The singular extension of the table move: none below depth 8; the
/// verification search it would need is not done, so it is always none.
pub fn singular_extension(board: &Board, tt_move: Move, beta: i32, depth: i32, extensions_used: i32) -> (r: i32)
    requires
        depth >= 8 ==> beta >= i32::MIN + 100,
    ensures
        r == 0,
{
    if depth < SINGULAR_MIN_DEPTH {
        return 0;
    }
    let verification_depth = depth - SINGULAR_DEPTH_REDUCTION;
    let singular_beta = beta - SINGULAR_MARGIN;
    let _is_singular = verify_singular(board, tt_move, singular_beta, verification_depth);
    0
}

/// Whether the table move is singular: not yet decided by a verification
/// search, so never.
fn verify_singular(board: &Board, tt_move: Move, beta: i32, depth: i32) -> (r: bool)
    ensures
        !r,
{
    false
}

} // verus!
