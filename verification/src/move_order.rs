//! Move ordering for alpha-beta search: the moves most likely to be best
//! are searched first, so that more of the tree is cut off.
use vstd::prelude::*;
use crate::board::Board;
use crate::chess_move::{Move, mv_code, mv_from, mv_to, lemma_move_parts};
use crate::movelist::{MoveList, stable_by};
use crate::piece::PieceType;

verus! {

/// Plies for which killer moves are kept.
pub const MAX_PLY: usize = 64;

/// The value of a piece kind for capture ordering.
pub open spec fn order_value(t: PieceType) -> int {
    match t {
        PieceType::Pawn => 100,
        PieceType::Knight => 320,
        PieceType::Bishop => 330,
        PieceType::Rook => 500,
        PieceType::Queen => 900,
        PieceType::King => 1000,
    }
}

fn order_value_of(t: PieceType) -> (r: i32)
    ensures
        r == order_value(t),
{
    match t {
        PieceType::Pawn => 100,
        PieceType::Knight => 320,
        PieceType::Bishop => 330,
        PieceType::Rook => 500,
        PieceType::Queen => 900,
        PieceType::King => 1000,
    }
}

/// Most valuable victim, least valuable attacker: ten times the value of
/// the piece taken (a pawn when the target is empty, en passant) less the
/// value of the piece taking.
pub open spec fn mvv_lva(b: Board, m: Move) -> int {
    let victim = match b.piece_on(mv_to(m@)) {
        Some(p) => order_value(p.piece_type),
        None => 100,
    };
    let attacker = match b.piece_on(mv_from(m@)) {
        Some(p) => order_value(p.piece_type),
        None => 0,
    };
    10 * victim - attacker
}

/// The capture ordering term of a move (see `mvv_lva`).
pub fn capture_order(board: &Board, m: Move) -> (r: i32)
    ensures
        r == mvv_lva(*board, m),
{
    let victim = match board.piece_at(m.to()) {
        Some(p) => order_value_of(p.piece_type),
        None => 100,
    };
    let attacker = match board.piece_at(m.from()) {
        Some(p) => order_value_of(p.piece_type),
        None => 0,
    };
    10 * victim - attacker
}

/// The history bonus of a cutoff at `depth`: its square, at most 400 (none
/// for a negative depth).
pub open spec fn history_bonus(depth: int) -> int {
    if depth <= 0 { 0 } else if depth >= 20 { 400 } else { depth * depth }
}

/// Killer moves and history scores kept across a search.
pub struct MoveOrder {
    /// For each ply, two quiet moves that caused a beta cutoff there, the
    /// latest first.
    pub killers: [[Option<Move>; 2]; 64],
    /// For each from and to square, a score of how often the move caused a
    /// cutoff.
    pub history: [[i32; 64]; 64],
}

/// Whether `after` is `before` reordered by `perm` (`after[i]` is
/// `before[perm[i]]`) with moves of equal priority in their old order.
pub open spec fn kept_in_order(perm: Seq<int>, before: Seq<Move>, after: Seq<Move>, mo: MoveOrder, b: Board, ply: int,
    tt_move: Option<Move>) -> bool {
    &&& perm.len() == after.len() && after.len() == before.len()
    &&& forall|k: int| 0 <= k < after.len() ==> 0 <= #[trigger] perm[k] < before.len() && after[k] == before[perm[k]]
    &&& forall|i: int, j: int| 0 <= i < j < after.len()
        && mo.priority(b, after[i], ply, tt_move) == mo.priority(b, after[j], ply, tt_move) ==>
        #[trigger] perm[i] < #[trigger] perm[j]
}

impl MoveOrder {
    /// Whether the tables are all empty.
    pub open spec fn is_clear(self) -> bool {
        &&& forall|p: int, s: int| 0 <= p < 64 && 0 <= s < 2 ==> #[trigger] self.killers[p][s] is None
        &&& forall|f: int, t: int| 0 <= f < 64 && 0 <= t < 64 ==> #[trigger] self.history[f][t] == 0
    }

    /// Whether every history score lies in 0..=100,000.
    pub open spec fn wf(&self) -> bool {
        forall|f: int, t: int| 0 <= f < 64 && 0 <= t < 64 ==> 0 <= #[trigger] self.history[f][t] <= 100_000
    }

    /// The ordering score of a move at `ply`: 10,000,000 for the
    /// transposition-table move; 1,000,000 plus its MVV-LVA term for a
    /// capture; 900,000 and 800,000 for the first and second killer of the
    /// ply; otherwise its history score (0 to 100,000).
    pub open spec fn priority(&self, b: Board, m: Move, ply: int, tt_move: Option<Move>) -> int {
        if tt_move == Some(m) {
            10_000_000
        } else if 4 <= mv_code(m@) % 8 {
            1_000_000 + mvv_lva(b, m)
        } else if 0 <= ply < 64 && self.killers[ply][0] == Some(m) {
            900_000
        } else if 0 <= ply < 64 && self.killers[ply][1] == Some(m) {
            800_000
        } else {
            self.history[mv_from(m@) as int][mv_to(m@) as int] as int
        }
    }

    /// Empty tables.
    pub fn new() -> (r: MoveOrder)
        ensures
            r.is_clear(),
            r.wf(),
    {
        let killers: [[Option<Move>; 2]; 64] = [[None; 2]; 64];
        let history: [[i32; 64]; 64] = [[0; 64]; 64];
        MoveOrder { killers, history }
    }

    /// The ordering score of a move (see `priority`): the
    /// transposition-table move first, then captures by MVV-LVA, then
    /// killer moves, then quiet moves by history.
    pub fn score_move(&self, board: &Board, m: Move, ply: usize, tt_move: Option<Move>) -> (r: i32)
        requires
            self.wf(),
        ensures
            r == self.priority(*board, m, ply as int, tt_move),
            0 <= r <= 10_000_000,
    {
        let is_tt = match tt_move {
            Some(t) => t == m,
            None => false,
        };
        if is_tt {
            return 10_000_000;
        }
        if m.is_capture() {
            return 1_000_000 + capture_order(board, m);
        }
        if ply < MAX_PLY {
            let first = match self.killers[ply][0] {
                Some(k) => k == m,
                None => false,
            };
            if first {
                return 900_000;
            }
            let second = match self.killers[ply][1] {
                Some(k) => k == m,
                None => false,
            };
            if second {
                return 800_000;
            }
        }
        let from = m.from().index() as usize;
        let to = m.to().index() as usize;
        proof {
            lemma_move_parts(m);
            assert(0 <= self.history[from as int][to as int] <= 100_000);
        }
        self.history[from][to]
    }

    /// Sort the moves by ordering score (see `priority`), highest first;
    /// moves of equal score keep their order.
    pub fn order_moves(&mut self, board: &Board, moves: &mut MoveList, ply: usize, tt_move: Option<Move>)
        requires
            old(self).wf(),
        ensures
            final(moves)@.to_multiset() == old(moves)@.to_multiset(),
            final(moves)@.len() == old(moves)@.len(),
            forall|i: int, j: int| 0 <= i < j < final(moves)@.len() ==>
                old(self).priority(*board, #[trigger] final(moves)@[i], ply as int, tt_move)
                    >= old(self).priority(*board, #[trigger] final(moves)@[j], ply as int, tt_move),
            exists|perm: Seq<int>| #[trigger] kept_in_order(perm, old(moves)@, final(moves)@, *old(self), *board, ply as int, tt_move),
            *final(self) == *old(self),
    {
        let this: &MoveOrder = self;
        let key = |m: &Move| -> (k: i32)
            requires
                this.wf(),
            ensures
                k == -this.priority(*board, *m, ply as int, tt_move),
            {
                -this.score_move(board, *m, ply, tt_move)
            };
        moves.sort_by_key(key);
        proof {
            let ks = choose|ks: Seq<i32>| #![trigger ks.len()]
                ks.len() == moves@.len() && crate::movelist::sorted_keys(ks)
                && forall|i: int| 0 <= i < ks.len() ==> key.ensures((&moves@[i],), #[trigger] ks[i]);
            assert forall|i: int, j: int| 0 <= i < j < moves@.len() implies
                this.priority(*board, #[trigger] moves@[i], ply as int, tt_move)
                    >= this.priority(*board, #[trigger] moves@[j], ply as int, tt_move) by {
                assert(key.ensures((&moves@[i],), ks[i]));
                assert(key.ensures((&moves@[j],), ks[j]));
            }
            let (ks2, perm) = choose|ks2: Seq<i32>, perm: Seq<int>| #[trigger] stable_by(ks2, perm, old(moves)@, moves@)
                && ks2.len() == moves@.len()
                && forall|i: int| 0 <= i < ks2.len() ==> key.ensures((&moves@[i],), #[trigger] ks2[i]);
            assert forall|a: int, b: int| 0 <= a < b < moves@.len()
                && this.priority(*board, moves@[a], ply as int, tt_move) == this.priority(*board, moves@[b], ply as int, tt_move)
                implies #[trigger] perm[a] < #[trigger] perm[b] by {
                assert(key.ensures((&moves@[a],), ks2[a]));
                assert(key.ensures((&moves@[b],), ks2[b]));
            }
            assert(kept_in_order(perm, old(moves)@, moves@, *this, *board, ply as int, tt_move));
        }
    }

    /// Record a quiet move that caused a cutoff at `ply`: it becomes the
    /// first killer there and the previous first killer the second, unless
    /// it is already the first. Plies past the table are ignored.
    pub fn store_killer(&mut self, m: Move, ply: usize)
        requires
            old(self).wf(),
        ensures
            final(self).wf(),
            final(self).history == old(self).history,
            forall|p: int| 0 <= p < 64 && p != ply ==> #[trigger] final(self).killers[p] == old(self).killers[p],
            ply < 64 ==> final(self).killers[ply as int][0] == Some(m),
            ply < 64 && old(self).killers[ply as int][0] != Some(m) ==>
                final(self).killers[ply as int][1] == old(self).killers[ply as int][0],
            ply < 64 && old(self).killers[ply as int][0] == Some(m) ==>
                final(self).killers[ply as int] == old(self).killers[ply as int],
            ply >= 64 ==> final(self).killers == old(self).killers,
    {
        if ply < MAX_PLY {
            let first = self.killers[ply][0];
            let same = match first {
                Some(k) => k == m,
                None => false,
            };
            if !same {
                self.killers[ply] = [Some(m), first];
            }
        }
    }

    /// Raise the history score of a move that caused a cutoff at `depth`
    /// by `history_bonus(depth)`, up to 100,000.
    pub fn update_history(&mut self, m: Move, depth: i32)
        requires
            old(self).wf(),
        ensures
            final(self).wf(),
            final(self).killers == old(self).killers,
            ({
                let f = mv_from(m@) as int;
                let t = mv_to(m@) as int;
                let raised = old(self).history[f][t] + history_bonus(depth as int);
                &&& final(self).history[f][t] == if raised > 100_000 { 100_000 } else { raised }
                &&& forall|a: int, b: int| 0 <= a < 64 && 0 <= b < 64 && (a != f || b != t) ==>
                    #[trigger] final(self).history[a][b] == old(self).history[a][b]
            }),
    {
        let from = m.from().index() as usize;
        let to = m.to().index() as usize;
        let bonus: i32 = if depth <= 0 {
            0
        } else if depth >= 20 {
            400
        } else {
            assert(0 < depth < 20 ==> depth * depth < 400) by (nonlinear_arith);
            depth * depth
        };
        assert(0 <= self.history[from as int][to as int] <= 100_000);
        let raised = self.history[from][to] + bonus;
        let value = if raised > 100_000 { 100_000 } else { raised };
        let mut row = self.history[from];
        row[to] = value;
        self.history[from] = row;
    }

    /// Empty the killer and history tables.
    pub fn clear(&mut self)
        ensures
            final(self).is_clear(),
            final(self).wf(),
    {
        self.killers = [[None; 2]; 64];
        self.history = [[0; 64]; 64];
    }
}

impl Default for MoveOrder {
    fn default() -> (r: MoveOrder)
        ensures
            r.is_clear(),
            r.wf(),
    {
        MoveOrder::new()
    }
}

} // verus!
