use vstd::prelude::*;
use crate::board::Board;
use crate::chess_move::{Move, lemma_distinct_moves_bound};
use crate::movegen::{generate_moves, pseudo_legal};
use crate::piece::Color;

verus! {

/// Mobility bonus per pseudo-legal move.
pub const MOBILITY_BONUS: i32 = 2;

/// Mobility: two for each pseudo-legal move of the side to move (whatever
/// color is asked for).
pub fn evaluate_mobility(board: &Board, color: Color) -> (r: i32)
    requires
        board.wf(),
    ensures
        exists|ms: Seq<Move>| ms.no_duplicates() && (forall|m: Move| #[trigger] ms.contains(m) <==> pseudo_legal(*board, m))
            && r == 2 * ms.len(),
{
    let moves = generate_moves(board);
    let n = moves.len();
    proof {
        lemma_distinct_moves_bound(moves@);
    }
    (n as i32) * MOBILITY_BONUS
}

/// The positional terms of a color: its mobility.
pub fn evaluate_positional(board: &Board, color: Color) -> (r: i32)
    requires
        board.wf(),
    ensures
        exists|ms: Seq<Move>| ms.no_duplicates() && (forall|m: Move| #[trigger] ms.contains(m) <==> pseudo_legal(*board, m))
            && r == 2 * ms.len(),
{
    evaluate_mobility(board, color)
}

} // verus!
