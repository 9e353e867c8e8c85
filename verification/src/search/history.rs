//! History heuristics for move ordering: countermoves, continuation
//! history (move pairs) and capture history.
use vstd::prelude::*;
use crate::chess_move::{Move, mv_from, mv_to, lemma_move_parts};
use crate::piece::{PieceType, kind_index};

verus! {

/// The bonus of a cutoff at `depth`: its square, at most 400.
pub open spec fn cutoff_bonus(depth: int) -> int {
    if depth * depth < 400 { depth * depth } else { 400 }
}

/// A history score raised by the bonus of a cutoff at `depth`, capped at
/// 16000.
pub open spec fn raised(old: int, depth: int) -> int {
    if old + cutoff_bonus(depth) < 16000 { old + cutoff_bonus(depth) } else { 16000 }
}

fn bonus_of(depth: i32) -> (r: i32)
    requires
        depth * depth <= i32::MAX,
    ensures
        r == cutoff_bonus(depth as int),
        0 <= r <= 400,
{
    assert(depth * depth >= 0) by (nonlinear_arith);
    let sq = depth * depth;
    if sq < 400 { sq } else { 400 }
}

/// For each move (from and to square), the move that refuted it.
#[derive(Clone)]
pub struct CountermoveTable {
    table: [[Option<Move>; 64]; 64],
}

impl CountermoveTable {
    /// The countermove stored for the move from `f` to `t`.
    pub closed spec fn entry(&self, f: int, t: int) -> Option<Move> {
        self.table[f][t]
    }

    /// An empty table.
    pub fn new() -> (r: CountermoveTable)
        ensures
            forall|f: int, t: int| 0 <= f < 64 && 0 <= t < 64 ==> #[trigger] r.entry(f, t) is None,
    {
        CountermoveTable { table: [[None; 64]; 64] }
    }

    /// Store the move that refuted `prev_move`.
    pub fn store(&mut self, prev_move: Move, countermove: Move)
        ensures
            final(self).entry(mv_from(prev_move@) as int, mv_to(prev_move@) as int) == Some(countermove),
            forall|f: int, t: int| 0 <= f < 64 && 0 <= t < 64 && (f != mv_from(prev_move@) || t != mv_to(prev_move@))
                ==> #[trigger] final(self).entry(f, t) == old(self).entry(f, t),
    {
        let from = prev_move.from().index() as usize;
        let to = prev_move.to().index() as usize;
        let mut row = self.table[from];
        row[to] = Some(countermove);
        self.table[from] = row;
    }

    /// The move stored as refuting `prev_move`, if any.
    pub fn get(&self, prev_move: Move) -> (r: Option<Move>)
        ensures
            r == self.entry(mv_from(prev_move@) as int, mv_to(prev_move@) as int),
    {
        let from = prev_move.from().index() as usize;
        let to = prev_move.to().index() as usize;
        self.table[from][to]
    }

    /// Forget every countermove.
    pub fn clear(&mut self)
        ensures
            forall|f: int, t: int| 0 <= f < 64 && 0 <= t < 64 ==> #[trigger] final(self).entry(f, t) is None,
    {
        self.table = [[None; 64]; 64];
    }
}

impl Default for CountermoveTable {
    fn default() -> (r: CountermoveTable)
        ensures
            forall|f: int, t: int| 0 <= f < 64 && 0 <= t < 64 ==> #[trigger] r.entry(f, t) is None,
    {
        CountermoveTable::new()
    }
}

/// The index of a pair of moves in the continuation table.
pub open spec fn pair_index(f1: int, t1: int, f2: int, t2: int) -> int {
    ((f1 * 64 + t1) * 64 + f2) * 64 + t2
}

/// Scores for pairs of moves: how often a move caused a cutoff right
/// after another, indexed by both moves' from and to squares.
#[derive(Clone)]
pub struct ContinuationHistory {
    table: Vec<i16>,
}

impl ContinuationHistory {
    /// Every score lies in 0..=16000 and the table covers all pairs.
    pub closed spec fn wf(&self) -> bool {
        &&& self.table@.len() == 16_777_216
        &&& forall|i: int| 0 <= i < self.table@.len() ==> 0 <= #[trigger] self.table@[i] <= 16000
    }

    /// The score of a move from `f2` to `t2` after one from `f1` to `t1`.
    pub closed spec fn score(&self, f1: int, t1: int, f2: int, t2: int) -> int {
        self.table@[pair_index(f1, t1, f2, t2)] as int
    }

    /// An all-zero table.
    pub fn new() -> (r: ContinuationHistory)
        ensures
            r.wf(),
            forall|f1: int, t1: int, f2: int, t2: int| 0 <= f1 < 64 && 0 <= t1 < 64 && 0 <= f2 < 64 && 0 <= t2 < 64
                ==> #[trigger] r.score(f1, t1, f2, t2) == 0,
    {
        let mut table: Vec<i16> = Vec::new();
        let mut i: usize = 0;
        while i < 16_777_216
            invariant
                i <= 16_777_216,
                table@.len() == i,
                forall|j: int| 0 <= j < i ==> #[trigger] table@[j] == 0,
            decreases 16_777_216 - i,
        {
            table.push(0);
            i += 1;
        }
        let r = ContinuationHistory { table };
        proof {
            assert forall|f1: int, t1: int, f2: int, t2: int| 0 <= f1 < 64 && 0 <= t1 < 64 && 0 <= f2 < 64 && 0 <= t2 < 64
                implies #[trigger] r.score(f1, t1, f2, t2) == 0 by {
                lemma_pair_index(f1, t1, f2, t2);
            }
        }
        r
    }

    /// Raise the score of `current_move` after `prev_move` by the bonus of
    /// a cutoff at `depth`, up to 16000.
    pub fn update(&mut self, prev_move: Move, current_move: Move, depth: i32)
        requires
            old(self).wf(),
            depth * depth <= i32::MAX,
        ensures
            final(self).wf(),
            ({
                let (f1, t1) = (mv_from(prev_move@) as int, mv_to(prev_move@) as int);
                let (f2, t2) = (mv_from(current_move@) as int, mv_to(current_move@) as int);
                &&& final(self).score(f1, t1, f2, t2) == raised(old(self).score(f1, t1, f2, t2), depth as int)
                &&& forall|a: int, b: int, c: int, d: int|
                    0 <= a < 64 && 0 <= b < 64 && 0 <= c < 64 && 0 <= d < 64 && (a, b, c, d) != (f1, t1, f2, t2)
                        ==> #[trigger] final(self).score(a, b, c, d) == old(self).score(a, b, c, d)
            }),
    {
        let from1 = prev_move.from().index() as usize;
        let to1 = prev_move.to().index() as usize;
        let from2 = current_move.from().index() as usize;
        let to2 = current_move.to().index() as usize;
        proof {
            lemma_pair_index(from1 as int, to1 as int, from2 as int, to2 as int);
        }
        let idx = ((from1 * 64 + to1) * 64 + from2) * 64 + to2;
        let bonus = bonus_of(depth);
        let sum = self.table[idx] as i32 + bonus;
        let value: i16 = if sum < 16000 { sum as i16 } else { 16000 };
        self.table.set(idx, value);
        proof {
            assert forall|a: int, b: int, c: int, d: int|
                0 <= a < 64 && 0 <= b < 64 && 0 <= c < 64 && 0 <= d < 64
                    && (a, b, c, d) != (from1 as int, to1 as int, from2 as int, to2 as int)
                implies #[trigger] self.score(a, b, c, d) == old(self).score(a, b, c, d) by {
                lemma_pair_index(a, b, c, d);
                lemma_pair_distinct(a, b, c, d, from1 as int, to1 as int, from2 as int, to2 as int);
            }
        }
        if self.table[idx] > 16000 {
            self.age_down();
        }
    }

    /// The score of `current_move` after `prev_move`.
    pub fn get(&self, prev_move: Move, current_move: Move) -> (r: i32)
        requires
            self.wf(),
        ensures
            r == self.score(mv_from(prev_move@) as int, mv_to(prev_move@) as int, mv_from(current_move@) as int,
                mv_to(current_move@) as int),
            0 <= r <= 16000,
    {
        let from1 = prev_move.from().index() as usize;
        let to1 = prev_move.to().index() as usize;
        let from2 = current_move.from().index() as usize;
        let to2 = current_move.to().index() as usize;
        proof {
            lemma_pair_index(from1 as int, to1 as int, from2 as int, to2 as int);
        }
        self.table[((from1 * 64 + to1) * 64 + from2) * 64 + to2] as i32
    }

    /// Halve every score.
    fn age_down(&mut self)
        requires
            old(self).wf(),
        ensures
            final(self).wf(),
            forall|i: int| 0 <= i < final(self).table@.len() ==> #[trigger] final(self).table@[i] == old(self).table@[i] / 2,
    {
        let n = self.table.len();
        let mut i: usize = 0;
        while i < n
            invariant
                n == self.table@.len(),
                n == old(self).table@.len(),
                i <= n,
                forall|j: int| 0 <= j < i ==> #[trigger] self.table@[j] == old(self).table@[j] / 2,
                forall|j: int| i <= j < n ==> #[trigger] self.table@[j] == old(self).table@[j],
                forall|j: int| 0 <= j < n ==> 0 <= #[trigger] old(self).table@[j] <= 16000,
            decreases n - i,
        {
            let v = self.table[i];
            self.table.set(i, v / 2);
            i += 1;
        }
    }

    /// Reset every score to zero.
    pub fn clear(&mut self)
        requires
            old(self).wf(),
        ensures
            final(self).wf(),
            forall|f1: int, t1: int, f2: int, t2: int| 0 <= f1 < 64 && 0 <= t1 < 64 && 0 <= f2 < 64 && 0 <= t2 < 64
                ==> #[trigger] final(self).score(f1, t1, f2, t2) == 0,
    {
        let n = self.table.len();
        let mut i: usize = 0;
        while i < n
            invariant
                n == self.table@.len(),
                n == 16_777_216,
                i <= n,
                forall|j: int| 0 <= j < i ==> #[trigger] self.table@[j] == 0,
                forall|j: int| 0 <= j < n ==> 0 <= #[trigger] self.table@[j] <= 16000,
            decreases n - i,
        {
            self.table.set(i, 0);
            i += 1;
        }
        proof {
            assert forall|f1: int, t1: int, f2: int, t2: int| 0 <= f1 < 64 && 0 <= t1 < 64 && 0 <= f2 < 64 && 0 <= t2 < 64
                implies #[trigger] self.score(f1, t1, f2, t2) == 0 by {
                lemma_pair_index(f1, t1, f2, t2);
            }
        }
    }
}

impl Default for ContinuationHistory {
    fn default() -> (r: ContinuationHistory)
        ensures
            r.wf(),
    {
        ContinuationHistory::new()
    }
}

/// A pair index lies in the table.
proof fn lemma_pair_index(f1: int, t1: int, f2: int, t2: int)
    requires
        0 <= f1 < 64,
        0 <= t1 < 64,
        0 <= f2 < 64,
        0 <= t2 < 64,
    ensures
        0 <= pair_index(f1, t1, f2, t2) < 16_777_216,
{
    assert(0 <= pair_index(f1, t1, f2, t2) < 16_777_216) by (nonlinear_arith)
        requires
            0 <= f1 < 64,
            0 <= t1 < 64,
            0 <= f2 < 64,
            0 <= t2 < 64;
}

/// Different pairs have different indices.
proof fn lemma_pair_distinct(a: int, b: int, c: int, d: int, e: int, f: int, g: int, h: int)
    requires
        0 <= a < 64 && 0 <= b < 64 && 0 <= c < 64 && 0 <= d < 64,
        0 <= e < 64 && 0 <= f < 64 && 0 <= g < 64 && 0 <= h < 64,
        (a, b, c, d) != (e, f, g, h),
    ensures
        pair_index(a, b, c, d) != pair_index(e, f, g, h),
{
    assert(pair_index(a, b, c, d) == a * 262144 + b * 4096 + c * 64 + d) by (nonlinear_arith);
    assert(pair_index(e, f, g, h) == e * 262144 + f * 4096 + g * 64 + h) by (nonlinear_arith);
}

/// The index of a capture in the capture table.
pub open spec fn capture_index(f: int, t: int, k: int) -> int {
    (f * 64 + t) * 6 + k
}

/// Scores for captures: how often a capture from one square to another of
/// a kind of piece caused a cutoff.
#[derive(Clone)]
pub struct CaptureHistory {
    table: Vec<i16>,
}

impl CaptureHistory {
    /// Every score lies in 0..=16000 and the table covers all captures.
    pub closed spec fn wf(&self) -> bool {
        &&& self.table@.len() == 24_576
        &&& forall|i: int| 0 <= i < self.table@.len() ==> 0 <= #[trigger] self.table@[i] <= 16000
    }

    /// The score of a capture from `f` to `t` of a piece of kind index `k`.
    pub closed spec fn score(&self, f: int, t: int, k: int) -> int {
        self.table@[capture_index(f, t, k)] as int
    }

    /// An all-zero table.
    pub fn new() -> (r: CaptureHistory)
        ensures
            r.wf(),
            forall|f: int, t: int, k: int| 0 <= f < 64 && 0 <= t < 64 && 0 <= k < 6 ==> #[trigger] r.score(f, t, k) == 0,
    {
        let mut table: Vec<i16> = Vec::new();
        let mut i: usize = 0;
        while i < 24_576
            invariant
                i <= 24_576,
                table@.len() == i,
                forall|j: int| 0 <= j < i ==> #[trigger] table@[j] == 0,
            decreases 24_576 - i,
        {
            table.push(0);
            i += 1;
        }
        let r = CaptureHistory { table };
        proof {
            assert forall|f: int, t: int, k: int| 0 <= f < 64 && 0 <= t < 64 && 0 <= k < 6 implies #[trigger] r.score(f, t, k) == 0 by {
                lemma_capture_index(f, t, k);
            }
        }
        r
    }

    /// Raise the score of a capture of `captured` by `mv` by the bonus of a
    /// cutoff at `depth`, up to 16000.
    pub fn update(&mut self, mv: Move, captured: PieceType, depth: i32)
        requires
            old(self).wf(),
            depth * depth <= i32::MAX,
        ensures
            final(self).wf(),
            ({
                let (f, t, k) = (mv_from(mv@) as int, mv_to(mv@) as int, kind_index(captured) as int);
                &&& final(self).score(f, t, k) == raised(old(self).score(f, t, k), depth as int)
                &&& forall|a: int, b: int, c: int| 0 <= a < 64 && 0 <= b < 64 && 0 <= c < 6 && (a, b, c) != (f, t, k)
                    ==> #[trigger] final(self).score(a, b, c) == old(self).score(a, b, c)
            }),
    {
        let from = mv.from().index() as usize;
        let to = mv.to().index() as usize;
        let piece_idx = captured.index();
        proof {
            lemma_capture_index(from as int, to as int, piece_idx as int);
        }
        let idx = (from * 64 + to) * 6 + piece_idx;
        let bonus = bonus_of(depth);
        let sum = self.table[idx] as i32 + bonus;
        let value: i16 = if sum < 16000 { sum as i16 } else { 16000 };
        self.table.set(idx, value);
        proof {
            assert forall|a: int, b: int, c: int| 0 <= a < 64 && 0 <= b < 64 && 0 <= c < 6
                && (a, b, c) != (from as int, to as int, piece_idx as int)
                implies #[trigger] self.score(a, b, c) == old(self).score(a, b, c) by {
                lemma_capture_index(a, b, c);
                assert(capture_index(a, b, c) == a * 384 + b * 6 + c) by (nonlinear_arith);
                assert(capture_index(from as int, to as int, piece_idx as int) == from * 384 + to * 6 + piece_idx) by (nonlinear_arith);
            }
        }
        if self.table[idx] > 16000 {
            self.age_down();
        }
    }

    /// The score of a capture of `captured` by `mv`.
    pub fn get(&self, mv: Move, captured: PieceType) -> (r: i32)
        requires
            self.wf(),
        ensures
            r == self.score(mv_from(mv@) as int, mv_to(mv@) as int, kind_index(captured) as int),
            0 <= r <= 16000,
    {
        let from = mv.from().index() as usize;
        let to = mv.to().index() as usize;
        let piece_idx = captured.index();
        proof {
            lemma_capture_index(from as int, to as int, piece_idx as int);
        }
        self.table[(from * 64 + to) * 6 + piece_idx] as i32
    }

    /// Halve every score.
    fn age_down(&mut self)
        requires
            old(self).wf(),
        ensures
            final(self).wf(),
    {
        let n = self.table.len();
        let mut i: usize = 0;
        while i < n
            invariant
                n == self.table@.len(),
                n == 24_576,
                i <= n,
                forall|j: int| 0 <= j < n ==> 0 <= #[trigger] self.table@[j] <= 16000,
            decreases n - i,
        {
            let v = self.table[i];
            self.table.set(i, v / 2);
            i += 1;
        }
    }

    /// Reset every score to zero.
    pub fn clear(&mut self)
        requires
            old(self).wf(),
        ensures
            final(self).wf(),
            forall|f: int, t: int, k: int| 0 <= f < 64 && 0 <= t < 64 && 0 <= k < 6 ==> #[trigger] final(self).score(f, t, k) == 0,
    {
        let n = self.table.len();
        let mut i: usize = 0;
        while i < n
            invariant
                n == self.table@.len(),
                n == 24_576,
                i <= n,
                forall|j: int| 0 <= j < i ==> #[trigger] self.table@[j] == 0,
                forall|j: int| 0 <= j < n ==> 0 <= #[trigger] self.table@[j] <= 16000,
            decreases n - i,
        {
            self.table.set(i, 0);
            i += 1;
        }
        proof {
            assert forall|f: int, t: int, k: int| 0 <= f < 64 && 0 <= t < 64 && 0 <= k < 6 implies #[trigger] self.score(f, t, k) == 0 by {
                lemma_capture_index(f, t, k);
            }
        }
    }
}

impl Default for CaptureHistory {
    fn default() -> (r: CaptureHistory)
        ensures
            r.wf(),
    {
        CaptureHistory::new()
    }
}

/// A capture index lies in the table.
proof fn lemma_capture_index(f: int, t: int, k: int)
    requires
        0 <= f < 64,
        0 <= t < 64,
        0 <= k < 6,
    ensures
        0 <= capture_index(f, t, k) < 24_576,
{
    assert(0 <= capture_index(f, t, k) < 24_576) by (nonlinear_arith)
        requires
            0 <= f < 64,
            0 <= t < 64,
            0 <= k < 6;
}

} // verus!
