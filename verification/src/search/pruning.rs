//! Forward pruning tests: futility, reverse futility, razoring, late move
//! pruning, SEE pruning, multi-cut and probcut. Each test that depends on
//! tunable margins comes in two forms: one reading the given parameters
//! and one with the default parameters.
use vstd::prelude::*;
use crate::board::Board;
use crate::chess_move::{Move, mv_code};
use crate::search::see::{see, see_score, see_ready};
use crate::search_params::SearchParams;

verus! {

/// Futility margins by depth (0 to 3).
pub const FUTILITY_MARGINS: [i32; 4] = [0, 100, 200, 300];

/// Reverse futility margins by depth (0 to 5).
pub const RFP_MARGINS: [i32; 6] = [0, 100, 200, 300, 400, 500];

/// Razoring margins by depth (0 to 3).
pub const RAZOR_MARGINS: [i32; 4] = [0, 200, 300, 400];

/// Late move pruning thresholds by depth (0 to 3).
pub const LMP_THRESHOLDS: [usize; 4] = [0, 3, 6, 12];

/// SEE threshold for captures in the main search.
pub const SEE_QUIET_THRESHOLD: i32 = -10;

/// SEE threshold for captures in quiescence search.
pub const SEE_CAPTURE_THRESHOLD: i32 = -10;

/// How far above beta a probcut search aims.
pub const PROBCUT_MARGIN: i32 = 200;

/// Depth reduction of a probcut search.
pub const PROBCUT_DEPTH_REDUCTION: i32 = 4;

/// Cutoffs needed for a multi-cut.
pub const MULTI_CUT_THRESHOLD: usize = 3;

/// Depth reduction of a multi-cut search.
pub const MULTI_CUT_DEPTH_REDUCTION: i32 = 3;

/// The futility margin at a depth.
pub open spec fn futility_margin(p: SearchParams, depth: i32) -> int {
    if depth == 1 { p.futility_margin_d1 as int }
    else if depth == 2 { p.futility_margin_d2 as int }
    else if depth == 3 { p.futility_margin_d3 as int }
    else { 0 }
}

/// The reverse futility margin at a depth.
pub open spec fn rfp_margin(p: SearchParams, depth: i32) -> int {
    if depth == 1 { p.rfp_margin_d1 as int }
    else if depth == 2 { p.rfp_margin_d2 as int }
    else if depth == 3 { p.rfp_margin_d3 as int }
    else if depth == 4 { p.rfp_margin_d4 as int }
    else if depth == 5 { p.rfp_margin_d5 as int }
    else { 0 }
}

/// The razoring margin at a depth.
pub open spec fn razor_margin(p: SearchParams, depth: i32) -> int {
    if depth == 1 { p.razor_margin_d1 as int }
    else if depth == 2 { p.razor_margin_d2 as int }
    else if depth == 3 { p.razor_margin_d3 as int }
    else { 0 }
}

/// The late move pruning threshold at a depth (99 beyond depth 3).
pub open spec fn lmp_threshold(p: SearchParams, depth: i32) -> int {
    if depth == 1 { p.lmp_threshold_d1 as int }
    else if depth == 2 { p.lmp_threshold_d2 as int }
    else if depth == 3 { p.lmp_threshold_d3 as int }
    else { 99 }
}

/// Whether `x` fits in an `i32`.
pub open spec fn fits_i32(x: int) -> bool {
    i32::MIN <= x <= i32::MAX
}

/// Futility pruning with the given parameters: at depth 3 or less, out of
/// check and off the principal variation, when the evaluation plus the
/// margin stays below alpha.
pub fn can_futility_prune_with(params: &SearchParams, depth: i32, in_check: bool, is_pv: bool, eval: i32, alpha: i32) -> (r: bool)
    requires
        depth <= 3 && !in_check && !is_pv ==> fits_i32(eval + futility_margin(*params, depth)),
    ensures
        r == (depth <= 3 && !in_check && !is_pv && eval + futility_margin(*params, depth) < alpha),
{
    if depth > 3 || in_check || is_pv {
        return false;
    }
    let margin = match depth {
        1 => params.futility_margin_d1,
        2 => params.futility_margin_d2,
        3 => params.futility_margin_d3,
        _ => 0,
    };
    eval + margin < alpha
}

/// Futility pruning with the default parameters.
pub fn can_futility_prune(depth: i32, in_check: bool, is_pv: bool, eval: i32, alpha: i32) -> (r: bool)
    requires
        depth <= 3 && !in_check && !is_pv ==> fits_i32(eval + futility_margin(crate::search_params::default_params(), depth)),
    ensures
        r == (depth <= 3 && !in_check && !is_pv
            && eval + futility_margin(crate::search_params::default_params(), depth) < alpha),
{
    let params = SearchParams::default();
    can_futility_prune_with(&params, depth, in_check, is_pv, eval, alpha)
}

/// Reverse futility pruning with the given parameters: at depth 5 or less,
/// out of check, off the principal variation and away from mate scores
/// (|eval| <= 10000), when the evaluation less the margin reaches beta;
/// the score to return is then the evaluation.
pub fn can_reverse_futility_prune_with(params: &SearchParams, depth: i32, in_check: bool, is_pv: bool, eval: i32,
    beta: i32) -> (r: (bool, i32))
    requires
        depth <= 5 && !in_check && !is_pv && -10000 <= eval <= 10000 ==> fits_i32(eval - rfp_margin(*params, depth)),
    ensures
        r.0 == (depth <= 5 && !in_check && !is_pv && -10000 <= eval <= 10000
            && eval - rfp_margin(*params, depth) >= beta),
        r.1 == if r.0 { eval } else { 0 },
{
    if depth > 5 || in_check || is_pv {
        return (false, 0);
    }
    if eval > 10000 || eval < -10000 {
        return (false, 0);
    }
    let margin = match depth {
        1 => params.rfp_margin_d1,
        2 => params.rfp_margin_d2,
        3 => params.rfp_margin_d3,
        4 => params.rfp_margin_d4,
        5 => params.rfp_margin_d5,
        _ => 0,
    };
    if eval - margin >= beta {
        (true, eval)
    } else {
        (false, 0)
    }
}

/// Reverse futility pruning with the default parameters.
pub fn can_reverse_futility_prune(depth: i32, in_check: bool, is_pv: bool, eval: i32, beta: i32) -> (r: (bool, i32))
    ensures
        r.0 == (depth <= 5 && !in_check && !is_pv && -10000 <= eval <= 10000
            && eval - rfp_margin(crate::search_params::default_params(), depth) >= beta),
        r.1 == if r.0 { eval } else { 0 },
{
    let params = SearchParams::default();
    can_reverse_futility_prune_with(&params, depth, in_check, is_pv, eval, beta)
}

/// Razoring with the given parameters: at depths 1 to 3, out of check and
/// off the principal variation, when the evaluation plus the margin stays
/// below alpha.
pub fn can_razor_with(params: &SearchParams, depth: i32, in_check: bool, is_pv: bool, eval: i32, alpha: i32) -> (r: bool)
    requires
        1 <= depth <= 3 && !in_check && !is_pv ==> fits_i32(eval + razor_margin(*params, depth)),
    ensures
        r == (1 <= depth <= 3 && !in_check && !is_pv && eval + razor_margin(*params, depth) < alpha),
{
    if !(1 <= depth && depth <= 3) || in_check || is_pv {
        return false;
    }
    let margin = match depth {
        1 => params.razor_margin_d1,
        2 => params.razor_margin_d2,
        3 => params.razor_margin_d3,
        _ => 0,
    };
    eval + margin < alpha
}

/// Razoring with the default parameters.
pub fn can_razor(depth: i32, in_check: bool, is_pv: bool, eval: i32, alpha: i32) -> (r: bool)
    requires
        1 <= depth <= 3 && !in_check && !is_pv ==> fits_i32(eval + razor_margin(crate::search_params::default_params(), depth)),
    ensures
        r == (1 <= depth <= 3 && !in_check && !is_pv
            && eval + razor_margin(crate::search_params::default_params(), depth) < alpha),
{
    let params = SearchParams::default();
    can_razor_with(&params, depth, in_check, is_pv, eval, alpha)
}

/// Late move pruning with the given parameters: at depth 3 or less, out of
/// check, a quiet move (neither capture nor promotion) past the threshold
/// of moves searched.
pub fn can_late_move_prune_with(params: &SearchParams, depth: i32, in_check: bool, move_count: usize, mv: Move) -> (r: bool)
    ensures
        r == (depth <= 3 && !in_check && !(4 <= mv_code(mv@) % 8) && !(mv_code(mv@) >= 8)
            && move_count > lmp_threshold(*params, depth)),
{
    if depth > 3 || in_check {
        return false;
    }
    if mv.is_capture() || mv.is_promotion() {
        return false;
    }
    let threshold: usize = match depth {
        1 => params.lmp_threshold_d1,
        2 => params.lmp_threshold_d2,
        3 => params.lmp_threshold_d3,
        _ => 99,
    };
    move_count > threshold
}

/// Late move pruning with the default parameters.
pub fn can_late_move_prune(depth: i32, in_check: bool, move_count: usize, mv: Move) -> (r: bool)
    ensures
        r == (depth <= 3 && !in_check && !(4 <= mv_code(mv@) % 8) && !(mv_code(mv@) >= 8)
            && move_count > lmp_threshold(crate::search_params::default_params(), depth)),
{
    let params = SearchParams::default();
    can_late_move_prune_with(&params, depth, in_check, move_count, mv)
}

/// Whether a capture loses material by static exchange evaluation: its
/// exchange value is below -10 (the same threshold in and out of
/// quiescence search). Quiet moves are never pruned this way.
pub fn can_see_prune(board: &Board, mv: Move, in_qsearch: bool) -> (r: bool)
    requires
        see_ready(*board, mv),
    ensures
        r == (4 <= mv_code(mv@) % 8 && see_score(*board, mv) < -10),
{
    if !mv.is_capture() {
        return false;
    }
    let threshold = if in_qsearch { SEE_CAPTURE_THRESHOLD } else { SEE_QUIET_THRESHOLD };
    !see(board, mv, threshold)
}

/// Multi-cut: at least three cutoffs.
pub fn can_multi_cut(cutoff_count: usize) -> (r: bool)
    ensures
        r == (cutoff_count >= 3),
{
    cutoff_count >= MULTI_CUT_THRESHOLD
}

/// Probcut is tried at depth 5 or more off the principal variation.
pub fn should_try_probcut(depth: i32, is_pv: bool) -> (r: bool)
    ensures
        r == (depth >= 5 && !is_pv),
{
    depth >= 5 && !is_pv
}

/// The probcut bound: beta plus the margin.
pub fn probcut_beta(beta: i32) -> (r: i32)
    requires
        beta + 200 <= i32::MAX,
    ensures
        r == beta + 200,
{
    beta + PROBCUT_MARGIN
}

/// Whether the position is treated as an endgame for pruning: never, so
/// that pruning stays active.
pub fn is_endgame(board: &Board) -> (r: bool)
    ensures
        !r,
{
    false
}

/// Whether forward pruning is safe: out of check, off the principal
/// variation, and without a mate score (|score| > 10000) from the table.
pub fn is_pruning_safe(in_check: bool, is_pv: bool, tt_score: Option<i32>) -> (r: bool)
    requires
        tt_score != Some(i32::MIN),
    ensures
        r == (!in_check && !is_pv && match tt_score {
            Some(s) => -10000 <= s <= 10000,
            None => true,
        }),
{
    if in_check || is_pv {
        return false;
    }
    match tt_score {
        Some(score) => !(score > 10000 || score < -10000),
        None => true,
    }
}

} // verus!
