pub mod king;
pub mod material;
pub mod pawns;
pub mod pawn_mirror;
pub mod phase;
pub mod pieces;
pub mod positional;
pub mod pst;
pub mod threats;

use vstd::prelude::*;
use crate::board::Board;
use crate::eval::king::{king_safety, evaluate_king_safety};
use crate::eval::material::{material, evaluate_material};
use crate::eval::pawns::{PawnHashTable, structure_mg, structure_eg, evaluate_pawns_cached};
use crate::eval::phase::{phase_of, tdiv, calculate_phase};
use crate::eval::pieces::{piece_activity, evaluate_piece_activity};
use crate::eval::pst::{PieceSquareTables, pst_score};
use crate::piece::Color;
pub use crate::eval::material::is_endgame;
use crate::tune::TuningParams;

verus! {

/// The divisors the evaluation scales its terms by.
pub struct Divisors {
    /// Divisor of the piece-square terms.
    pub pst: i32,
    /// Divisor of the pawn structure.
    pub pawn: i32,
    /// Divisor of the piece activity.
    pub mobility: i32,
    /// Divisor of the king safety.
    pub king: i32,
}

/// The divisors of a set of tuning parameters, or the defaults 4, 4, 8, 12.
pub open spec fn divisors_of(t: Option<TuningParams>) -> Divisors {
    match t {
        Some(p) => Divisors { pst: p.pst_scale, pawn: p.pawn_structure_divisor, mobility: p.mobility_divisor, king: p.king_safety_divisor },
        None => Divisors { pst: 4, pawn: 4, mobility: 8, king: 12 },
    }
}

/// Divisors that are all at least one.
pub open spec fn divisors_ok(d: Divisors) -> bool {
    d.pst >= 1 && d.pawn >= 1 && d.mobility >= 1 && d.king >= 1
}

/// A middlegame and an endgame term blended by phase.
pub open spec fn blend(mg: int, eg: int, phase: int) -> int {
    tdiv(mg * (256 - phase) + eg * phase, 256)
}

/// The scaled piece-square term from white's side.
pub open spec fn pst_term(b: Board, pst: PieceSquareTables, d: Divisors) -> int {
    tdiv(pst_score(pst, b, Color::White), d.pst as int) - tdiv(pst_score(pst, b, Color::Black), d.pst as int)
}

/// The scaled pawn structure term from white's side.
pub open spec fn pawn_term(b: Board, d: Divisors) -> int {
    let phase = phase_of(b);
    tdiv(blend(structure_mg(b, Color::White), structure_eg(b, Color::White), phase)
        - blend(structure_mg(b, Color::Black), structure_eg(b, Color::Black), phase), d.pawn as int)
}

/// The scaled piece activity term from white's side.
pub open spec fn activity_term(b: Board, d: Divisors) -> int {
    let phase = phase_of(b);
    tdiv(blend(piece_activity(b, Color::White, phase, false), piece_activity(b, Color::White, phase, true), phase)
        - blend(piece_activity(b, Color::Black, phase, false), piece_activity(b, Color::Black, phase, true), phase), d.mobility as int)
}

/// The scaled king safety term from white's side.
pub open spec fn king_term(b: Board, d: Divisors) -> int {
    let phase = phase_of(b);
    tdiv(blend(king_safety(b, Color::White, phase, false), king_safety(b, Color::White, phase, true), phase)
        - blend(king_safety(b, Color::Black, phase, false), king_safety(b, Color::Black, phase, true), phase), d.king as int)
}

/// The evaluation of a position from white's side: material, plus the
/// scaled piece-square, pawn structure, piece activity and king safety
/// terms, each blended by phase.
pub open spec fn white_score(b: Board, pst: PieceSquareTables, d: Divisors) -> int {
    material(b, Color::White) - material(b, Color::Black) + pst_term(b, pst, d) + pawn_term(b, d)
        + activity_term(b, d) + king_term(b, d)
}

/// The evaluation from the side to move's side.
pub open spec fn evaluation(b: Board, pst: PieceSquareTables, d: Divisors) -> int {
    if b.side() == Color::Black { -white_score(b, pst, d) } else { white_score(b, pst, d) }
}

/// The position evaluator: piece-square tables, a pawn structure cache and
/// optional tuning parameters.
#[derive(Debug)]
pub struct Evaluator {
    pst: PieceSquareTables,
    pawn_hash: PawnHashTable,
    tuning: Option<TuningParams>,
}

/// Blend a middlegame and an endgame term by phase (see `blend`).
fn blend_terms(mg: i32, eg: i32, phase: i32) -> (r: i32)
    requires
        -100_000 <= mg <= 100_000,
        -100_000 <= eg <= 100_000,
        0 <= phase <= 256,
    ensures
        r == blend(mg as int, eg as int, phase as int),
        -100_000 <= r <= 100_000,
{
    proof {
        assert(-25_600_000 <= mg * (256 - phase) <= 25_600_000) by (nonlinear_arith)
            requires -100_000 <= mg <= 100_000, 0 <= phase <= 256;
        assert(-25_600_000 <= eg * phase <= 25_600_000) by (nonlinear_arith)
            requires -100_000 <= eg <= 100_000, 0 <= phase <= 256;
        assert(-25_600_000 <= mg * (256 - phase) + eg * phase <= 25_600_000) by (nonlinear_arith)
            requires -100_000 <= mg <= 100_000, -100_000 <= eg <= 100_000, 0 <= phase <= 256;
    }
    (mg * (256 - phase) + eg * phase) / 256
}

impl Evaluator {
    /// The tables stay bounded, the cache well formed and the divisors
    /// positive.
    pub closed spec fn wf(self) -> bool {
        &&& self.pst.bounded()
        &&& self.pawn_hash.wf()
        &&& divisors_ok(divisors_of(self.tuning))
    }

    /// The piece-square tables in use.
    pub closed spec fn tables(self) -> PieceSquareTables {
        self.pst
    }

    /// The divisors in use.
    pub closed spec fn divisors(self) -> Divisors {
        divisors_of(self.tuning)
    }

    /// An evaluator with the standard tables and default divisors.
    pub fn new() -> (r: Evaluator)
        ensures
            r.wf(),
            r.tables().mg_tables == crate::eval::pst::PST_MG,
            r.tables().eg_tables == crate::eval::pst::PST_EG,
            r.divisors() == divisors_of(None),
    {
        let pst = PieceSquareTables::default();
        proof {
            assert(crate::eval::pst::tables_bounded(crate::eval::pst::PST_MG)) by {
                reveal_with_fuel(crate::eval::pst::tables_bounded, 1);
            }
            assert(crate::eval::pst::tables_bounded(crate::eval::pst::PST_EG));
        }
        Evaluator { pst, pawn_hash: PawnHashTable::default(), tuning: None }
    }

    /// Use tuning parameters (or the defaults, for `None`).
    pub fn set_tuning(&mut self, tuning: Option<TuningParams>)
        requires
            old(self).wf(),
            divisors_ok(divisors_of(tuning)),
        ensures
            final(self).wf(),
            final(self).tables() == old(self).tables(),
            final(self).divisors() == divisors_of(tuning),
    {
        self.tuning = tuning;
    }

    /// The current divisors.
    fn current_divisors(&self) -> (r: (i32, i32, i32, i32))
        requires
            self.wf(),
        ensures
            r.0 == self.divisors().pst && r.1 == self.divisors().pawn
                && r.2 == self.divisors().mobility && r.3 == self.divisors().king,
            r.0 >= 1 && r.1 >= 1 && r.2 >= 1 && r.3 >= 1,
    {
        match &self.tuning {
            Some(p) => (p.pst_scale, p.pawn_structure_divisor, p.mobility_divisor, p.king_safety_divisor),
            None => (4, 4, 8, 12),
        }
    }

    /// The scaled piece-square term.
    fn pst_part(&self, board: &Board, div: i32) -> (r: i32)
        requires
            self.wf(),
            div == self.divisors().pst,
        ensures
            r == pst_term(*board, self.tables(), self.divisors()),
            -800_000_000 <= r <= 800_000_000,
    {
        let w = self.pst.evaluate_position(board, Color::White);
        let b = self.pst.evaluate_position(board, Color::Black);
        w / div - b / div
    }

    /// The scaled pawn structure term, through the cache.
    fn pawn_part(&mut self, board: &Board, phase: i32, div: i32) -> (r: i32)
        requires
            old(self).wf(),
            phase == phase_of(*board),
            div >= 1,
        ensures
            final(self).wf(),
            final(self).tables() == old(self).tables(),
            final(self).divisors() == old(self).divisors(),
            r == tdiv(blend(structure_mg(*board, Color::White), structure_eg(*board, Color::White), phase as int)
                - blend(structure_mg(*board, Color::Black), structure_eg(*board, Color::Black), phase as int), div as int),
            -200_000 <= r <= 200_000,
    {
        let (wpm, wpe, bpm, bpe) = evaluate_pawns_cached(board, &mut self.pawn_hash);
        let wp = blend_terms(wpm, wpe, phase);
        let bp = blend_terms(bpm, bpe, phase);
        (wp - bp) / div
    }

    /// Evaluate a position in centipawns from the side to move's side (see
    /// `evaluation`).
    pub fn evaluate(&mut self, board: &Board) -> (r: i32)
        requires
            old(self).wf(),
            board.wf(),
        ensures
            final(self).wf(),
            final(self).tables() == old(self).tables(),
            final(self).divisors() == old(self).divisors(),
            r == evaluation(*board, old(self).tables(), old(self).divisors()),
            -1_000_000_000 <= r <= 1_000_000_000,
    {
        let (pst_div, pawn_div, mob_div, king_div) = self.current_divisors();
        let white_material = evaluate_material(board, Color::White);
        let black_material = evaluate_material(board, Color::Black);
        let mat = white_material - black_material;
        let pst = self.pst_part(board, pst_div);
        let phase = calculate_phase(board);
        let pawns = self.pawn_part(board, phase, pawn_div);
        let mob = activity_part(board, phase, mob_div);
        let king = king_part(board, phase, king_div);
        let score = mat + pst + pawns + mob + king;
        if board.side_to_move() == Color::Black {
            -score
        } else {
            score
        }
    }
}

/// The scaled piece activity term.
fn activity_part(board: &Board, phase: i32, div: i32) -> (r: i32)
    requires
        phase == phase_of(*board),
        0 <= phase <= 256,
        div >= 1,
    ensures
        r == activity_term(*board, Divisors { pst: 1, pawn: 1, mobility: div, king: 1 }),
        -200_000 <= r <= 200_000,
{
    let (wmm, wme) = evaluate_piece_activity(board, Color::White, phase);
    let (bmm, bme) = evaluate_piece_activity(board, Color::Black, phase);
    let wm = blend_terms(wmm, wme, phase);
    let bm = blend_terms(bmm, bme, phase);
    (wm - bm) / div
}

/// The scaled king safety term.
fn king_part(board: &Board, phase: i32, div: i32) -> (r: i32)
    requires
        board.wf(),
        phase == phase_of(*board),
        0 <= phase <= 256,
        div >= 1,
    ensures
        r == king_term(*board, Divisors { pst: 1, pawn: 1, mobility: 1, king: div }),
        -200_000 <= r <= 200_000,
{
    let (wkm, wke) = evaluate_king_safety(board, Color::White, phase);
    let (bkm, bke) = evaluate_king_safety(board, Color::Black, phase);
    let wk = blend_terms(wkm, wke, phase);
    let bk = blend_terms(bkm, bke, phase);
    (wk - bk) / div
}

} // verus!
