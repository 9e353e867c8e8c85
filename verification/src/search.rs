//! Game-tree search: a plain negamax searcher with alpha-beta pruning and
//! a transposition table; `advanced` holds the full searcher.
pub mod advanced;
pub mod extensions;
pub mod history;
pub mod line;
pub mod lmr;
pub mod pruning;
pub mod ranking;
pub mod see;

use vstd::prelude::*;
use crate::board::Board;
use crate::chess_move::Move;
use crate::eval::Evaluator;
use crate::movegen::lemma_pseudo_legal_makeable;
use crate::perft::{legal_move, lemma_board_after};
use crate::search::advanced::{RootStep, root_outcome, traced, mates_scored, lists_legal};
use crate::search::line::{score_ok, searchable, has_legal_move};
use crate::tt::{Bound, TranspositionTable, TTEntry, found, stored};
use crate::legality::in_check;
use crate::eval::{evaluation, Divisors};
use crate::eval::pst::PieceSquareTables;
use crate::perft::board_after;

verus! {

/// Maximum search depth.
pub const MAX_DEPTH: u32 = 64;

/// The score of being checkmated at the root.
pub const MATE_SCORE: i32 = 30_000;

/// A score beyond every mate score.
pub const INFINITY: i32 = 32_000;

/// What a search returns.
#[derive(Debug, Clone)]
pub struct SearchResult {
    /// The best move found (the null move when there is none).
    pub best_move: Move,
    /// Its score, from the side to move's point of view.
    pub score: i32,
    /// The depth searched.
    pub depth: u32,
    /// The nodes visited.
    pub nodes: u64,
}

/// Whether every score stored in a table lies within the score bound.
pub open spec fn scores_ok(tt: TranspositionTable) -> bool {
    forall|i: int| 0 <= i < tt.slots().len() ==> score_ok(#[trigger] tt.slots()[i].score as int)
}

/// What the table entry found for a position settles before its moves are
/// searched: the score returned at once, if any. An entry searched at least
/// as deep answers when it is exact, when its lower bound reaches `beta`
/// (after raising `alpha`), or when its upper bound lies below `beta` or
/// the window is already empty.
pub open spec fn probe_answer(e: Option<TTEntry>, depth: i32, alpha: int, beta: int) -> Option<int> {
    match e {
        Some(e) => if e.depth >= (depth as u8) {
            match e.bound {
                Bound::Exact => Some(e.score as int),
                Bound::Lower => if e.score >= beta || alpha >= beta { Some(e.score as int) } else { None },
                Bound::Upper => if e.score < beta || alpha >= beta { Some(e.score as int) } else { None },
            }
        } else {
            None
        },
        None => None,
    }
}

/// The lower end of the window once the probe's entry has been read: a
/// deep enough lower bound above `alpha` raises it.
pub open spec fn probe_alpha(e: Option<TTEntry>, depth: i32, alpha: int) -> int {
    match e {
        Some(e) => if e.depth >= (depth as u8) && e.bound is Lower && e.score > alpha { e.score as int } else { alpha },
        None => alpha,
    }
}

/// The lower end of the window after the first `i` move scores `s`.
pub open spec fn alpha_after(a: int, s: Seq<int>, i: int) -> int
    decreases i,
{
    if i <= 0 {
        a
    } else {
        let p = alpha_after(a, s, i - 1);
        if s[i - 1] > p { s[i - 1] } else { p }
    }
}

/// The best of the first `i` move scores `s` (minus infinity for none).
pub open spec fn best_after(s: Seq<int>, i: int) -> int
    decreases i,
{
    if i <= 0 {
        -INFINITY as int
    } else {
        let p = best_after(s, i - 1);
        if s[i - 1] > p { s[i - 1] } else { p }
    }
}

/// The index of the first move, among the first `i`, that reached the best
/// score (the first move when none beat minus infinity).
pub open spec fn best_index(s: Seq<int>, i: int) -> int
    decreases i,
{
    if i <= 0 {
        0
    } else if s[i - 1] > best_after(s, i - 1) {
        i - 1
    } else {
        best_index(s, i - 1)
    }
}

/// Of `n` moves, exactly the first `c` were searched: the search goes on
/// while the window is not empty, and stops after the move that closes
/// it.
pub open spec fn cut_at(a: int, beta: int, s: Seq<int>, c: int, n: int) -> bool {
    &&& 1 <= c <= n
    &&& forall|i: int| 1 <= i < c ==> #[trigger] alpha_after(a, s, i) < beta
    &&& c == n || alpha_after(a, s, c) >= beta
}

/// How a result is stored: a lower bound when it reached `beta`, exact
/// when it beat the original `alpha`, an upper bound otherwise.
pub open spec fn bound_for(best: int, alpha: int, beta: int) -> Bound {
    if best >= beta {
        Bound::Lower
    } else if best > alpha {
        Bound::Exact
    } else {
        Bound::Upper
    }
}

/// `t1` is `t0` after storing a result for `hash`.
pub open spec fn stores(t0: TranspositionTable, t1: TranspositionTable, hash: u64, m: Move, score: i32, depth: u8,
    bound: Bound) -> bool {
    &&& t1.slots() == stored(t0.slots(), t0.slot_of(hash), t0.gen(), hash, m, score, depth, bound)
    &&& t1.gen() == t0.gen()
    &&& forall|h: u64| #[trigger] t1.slot_of(h) == t0.slot_of(h)
}

/// One call of the plain search as it ran: the score it returned, the
/// table before and after it, the legal moves in the order tried, and the
/// search of each move tried.
pub struct PlainNode {
    pub value: i32,
    pub before: TranspositionTable,
    pub after: TranspositionTable,
    pub moves: Seq<Move>,
    pub children: Seq<PlainNode>,
}

/// The scores of the moves tried, from the mover's side.
pub open spec fn plain_scores(children: Seq<PlainNode>) -> Seq<int> {
    Seq::new(children.len(), |j: int| -children[j].value)
}

/// Each search starts from the table the previous one left (the first
/// from `before`).
pub open spec fn plain_chained(before: TranspositionTable, children: Seq<PlainNode>) -> bool {
    forall|i: int| 0 <= i < children.len() ==> (#[trigger] children[i]).before
        == if i == 0 { before } else { children[i - 1].after }
}

/// Whether `node` is what the plain negamax search of `b` computes to
/// `depth` plies in the window (`alpha`, `beta`), `ply` plies from the
/// root, with evaluation tables `t` and divisors `d`: the table probe may
/// answer at once; at depth 0, or with the move counters exhausted, the
/// position is scored statically; without legal moves it is mate or
/// stalemate; otherwise the legal moves are searched in turn, each a ply
/// shallower in the window (`-beta`, `-alpha`) with `alpha` raised by the
/// scores so far, until the window closes, the best score (the first to
/// reach it) is stored in the table and returned.
pub open spec fn plain_explains(t: PieceSquareTables, d: Divisors, node: PlainNode, b: Board, depth: i32,
    alpha: int, beta: int, ply: int) -> bool
    decreases node,
{
    let hash = b.hash_value();
    let e = found(node.before.slots(), node.before.slot_of(hash), hash);
    match probe_answer(e, depth, alpha, beta) {
        Some(v) => node.value == v && node.after == node.before,
        None => if depth <= 0 || !searchable(b) {
            node.value == evaluation(b, t, d) && node.after == node.before
        } else if !has_legal_move(b) {
            node.value == (if in_check(b) { -MATE_SCORE + ply } else { 0 }) && node.after == node.before
        } else {
            let a = probe_alpha(e, depth, alpha);
            let s = plain_scores(node.children);
            let c = node.children.len() as int;
            &&& lists_legal(b, node.moves)
            &&& cut_at(a, beta, s, c, node.moves.len() as int)
            &&& plain_chained(node.before, node.children)
            &&& forall|i: int| 0 <= i < c ==> plain_explains(t, d, #[trigger] node.children[i],
                board_after(b, node.moves[i]), (depth - 1) as i32, -beta, -alpha_after(a, s, i), ply + 1)
            &&& node.value == best_after(s, c)
            &&& stores(node.children[c - 1].after, node.after, hash, node.moves[best_index(s, c)], node.value,
                depth as u8, bound_for(node.value as int, alpha, beta))
        }
    }
}

/// The plain search engine.
pub struct Searcher {
    evaluator: Evaluator,
    tt: TranspositionTable,
    nodes: u64,
}

impl Searcher {
    /// The evaluator and table are well formed and every stored score is
    /// within the score bound.
    pub closed spec fn wf(self) -> bool {
        &&& self.evaluator.wf()
        &&& self.tt.wf()
        &&& scores_ok(self.tt)
    }

    /// Whether the table holds a result for `hash` searched at least to
    /// `depth` (as a byte), which a search of that depth may use instead.
    pub closed spec fn cached(self, hash: u64, depth: i32) -> bool {
        found(self.tt.slots(), self.tt.slot_of(hash), hash) matches Some(e) && e.depth >= (depth as u8)
    }

    /// The static evaluation of a position by this searcher's evaluator.
    pub closed spec fn static_value(self, b: Board) -> int {
        evaluation(b, self.evaluator.tables(), self.evaluator.divisors())
    }

    /// The transposition table.
    pub closed spec fn table(self) -> TranspositionTable {
        self.tt
    }

    /// Whether `root` and `nodes` are how a search of `b` to `depth` plies
    /// ran from this searcher, ending with table `end`: the root itself is
    /// searched first in the full window from the table of the new
    /// generation; then each move of `trace` is searched in turn in the
    /// full window, a ply shallower, from the table the previous search
    /// left, and its step's score is minus the value found.
    pub closed spec fn root_searched(self, b: Board, depth: u32, trace: Seq<RootStep>, root: PlainNode,
        nodes: Seq<PlainNode>, end: TranspositionTable) -> bool {
        let t = self.evaluator.tables();
        let d = self.evaluator.divisors();
        &&& plain_explains(t, d, root, b, depth as i32, -INFINITY as int, INFINITY as int, 0)
        &&& root.before.slots() == self.tt.slots()
        &&& root.before.gen() == (self.tt.gen() + 1) % 256
        &&& nodes.len() == trace.len()
        &&& forall|i: int| 0 <= i < nodes.len() ==> plain_explains(t, d, #[trigger] nodes[i],
            board_after(b, trace[i].0), (depth - 1) as i32, -INFINITY as int, INFINITY as int, 1)
        &&& forall|i: int| 0 <= i < nodes.len() ==> trace[i].1 == -(#[trigger] nodes[i]).value
        &&& forall|i: int| 0 <= i < nodes.len() ==> (#[trigger] nodes[i]).before
            == if i == 0 { root.after } else { nodes[i - 1].after }
        &&& end == if nodes.len() == 0 { root.after } else { nodes.last().after }
    }

    /// A searcher with a 64 MB transposition table.
    pub fn new() -> (r: Searcher)
        ensures
            r.wf(),
    {
        Self::with_tt_size(64)
    }

    /// A searcher with a transposition table of `size_mb` megabytes.
    pub fn with_tt_size(size_mb: usize) -> (r: Searcher)
        requires
            size_mb <= 0x4000,
            size_mb * 1048576 <= usize::MAX,
        ensures
            r.wf(),
    {
        Searcher { evaluator: Evaluator::new(), tt: TranspositionTable::new(size_mb), nodes: 0 }
    }

    /// Search `depth` plies: after a search of the root itself, each legal
    /// move is searched with a full window and the first of the highest
    /// score is returned (the null move, scored minus infinity, when there
    /// is none).
    #[verifier::spinoff_prover]
    #[verifier::rlimit(60)]
    pub fn search(&mut self, board: &Board, depth: u32) -> (r: SearchResult)
        requires
            old(self).wf(),
            searchable(*board),
            depth < 0x1000_0000,
        ensures
            final(self).wf(),
            r.depth == depth,
            has_legal_move(*board) ==> legal_move(*board, r.best_move),
            !has_legal_move(*board) ==> r.best_move@ == 0 && r.score == -INFINITY,
            score_ok(r.score as int),
            has_legal_move(*board) ==> exists|trace: Seq<RootStep>| #[trigger] root_outcome(*board, trace, r.score, r.best_move)
                && (forall|m: Move| #[trigger] legal_move(*board, m) ==> traced(trace, m))
                && (depth >= 2 ==> mates_scored(*board, trace))
                && exists|root: PlainNode, nodes: Seq<PlainNode>| #[trigger] old(self).root_searched(*board, depth,
                    trace, root, nodes, final(self).table()),
    {
        let ghost start = *self;
        self.nodes = 0;
        self.tt.new_search();
        let (_score, Ghost(root)) = self.negamax(board, depth as i32, -INFINITY, INFINITY, 0);
        let ghost pst = self.evaluator.tables();
        let ghost dv = self.evaluator.divisors();
        let ghost mut nodes: Seq<PlainNode> = Seq::empty();
        let legal_moves = board.generate_legal_moves();
        let mut best_move = if legal_moves.is_empty() { Move::null() } else { legal_moves.get(0) };
        proof {
            if legal_moves@.len() > 0 {
                assert(legal_moves@.contains(best_move));
            } else {
                assert forall|m: Move| !legal_move(*board, m) by {
                    if legal_move(*board, m) {
                        assert(legal_moves@.contains(m));
                    }
                }
            }
        }
        let mut best_score: i32 = -INFINITY;
        let n = legal_moves.len();
        let mut i: usize = 0;
        let ghost mut trace: Seq<RootStep> = Seq::empty();
        while i < n
            invariant
                self.wf(),
                searchable(*board),
                depth < 0x1000_0000,
                n == legal_moves@.len(),
                i <= n,
                forall|m: Move| #[trigger] legal_moves@.contains(m) <==> legal_move(*board, m),
                n > 0 ==> legal_move(*board, best_move),
                n == 0 ==> best_move@ == 0,
                score_ok(best_score as int),
                n == 0 ==> best_score == -INFINITY,
                trace.len() == i,
                forall|j: int| 0 <= j < i ==> (#[trigger] trace[j]).0 == legal_moves@[j],
                forall|j: int| 0 <= j < i ==> (#[trigger] trace[j]).1 <= best_score,
                i > 0 ==> exists|k: int| 0 <= k < i && (#[trigger] trace[k]).0 == best_move && trace[k].1 == best_score
                    && forall|j: int| 0 <= j < k ==> (#[trigger] trace[j]).1 < best_score,
                depth >= 2 ==> mates_scored(*board, trace),
                self.evaluator.tables() == pst,
                self.evaluator.divisors() == dv,
                nodes.len() == i,
                forall|j: int| 0 <= j < i ==> plain_explains(pst, dv, #[trigger] nodes[j],
                    board_after(*board, legal_moves@[j]), (depth - 1) as i32, -INFINITY as int, INFINITY as int, 1),
                forall|j: int| 0 <= j < i ==> trace[j].1 == -(#[trigger] nodes[j]).value,
                forall|j: int| 0 <= j < i ==> (#[trigger] nodes[j]).before
                    == if j == 0 { root.after } else { nodes[j - 1].after },
                self.tt == if i == 0 { root.after } else { nodes[i - 1].after },
            decreases n - i,
        {
            let m = legal_moves.get(i);
            proof {
                assert(legal_moves@.contains(m));
                lemma_pseudo_legal_makeable(*board, m);
            }
            let mut new_board = *board;
            let undo = new_board.make_move(m);
            proof {
                lemma_board_after(*board, m, new_board, undo);
            }
            let ghost clean = !self.cached(new_board.hash_value(), (depth as i32 - 1) as i32);
            let ghost prev = trace;
            let ghost prev_best = best_score;
            let (child, Ghost(node)) = self.negamax(&new_board, depth as i32 - 1, -INFINITY, INFINITY, 1);
            let score = -child;
            if i == 0 || score > best_score {
                best_score = score;
                best_move = m;
            }
            proof {
                let ghost prev_nodes = nodes;
                nodes = prev_nodes.push(node);
                assert forall|j: int| 0 <= j < i ==> #[trigger] nodes[j] == prev_nodes[j] by {}
                trace = prev.push((m, score, clean));
                assert(trace[i as int] == (m, score, clean));
                assert forall|j: int| 0 <= j < i ==> #[trigger] trace[j] == prev[j] by {}
                if i == 0 || score > prev_best {
                    assert(forall|j: int| 0 <= j < i ==> (#[trigger] trace[j]).1 < best_score);
                } else if i > 0 {
                    let k = choose|k: int| 0 <= k < i && (#[trigger] prev[k]).0 == best_move && prev[k].1 == best_score
                        && forall|j: int| 0 <= j < k ==> (#[trigger] prev[j]).1 < best_score;
                    assert(trace[k] == prev[k]);
                }
            }
            i += 1;
        }
        let result = SearchResult { best_move, score: best_score, depth, nodes: self.nodes };
        proof {
            if has_legal_move(*board) {
                assert(forall|x: Move| #[trigger] legal_move(*board, x) ==> traced(trace, x)) by {
                    assert forall|x: Move| #[trigger] legal_move(*board, x) implies traced(trace, x) by {
                        assert(legal_moves@.contains(x));
                        let j = choose|j: int| 0 <= j < legal_moves@.len() && legal_moves@[j] == x;
                        assert(trace[j].0 == x);
                    }
                }
                assert(root_outcome(*board, trace, result.score, result.best_move)) by {
                    let m = choose|m: Move| #[trigger] legal_move(*board, m);
                    assert(legal_moves@.contains(m));
                    assert forall|j: int| 0 <= j < trace.len() implies legal_move(*board, (#[trigger] trace[j]).0) by {
                        assert(legal_moves@.contains(legal_moves@[j]));
                    }
                }
                assert(start.root_searched(*board, depth, trace, root, nodes, self.tt)) by {
                    assert forall|j: int| 0 <= j < nodes.len() implies plain_explains(pst, dv, #[trigger] nodes[j],
                        board_after(*board, trace[j].0), (depth - 1) as i32, -INFINITY as int, INFINITY as int, 1) by {
                        assert(trace[j].0 == legal_moves@[j]);
                    }
                }
                assert(self.table() == self.tt);
            }
        }
        result
    }

    /// The entry stored for `hash`, if any.
    fn tt_probe(&self, hash: u64) -> (r: Option<TTEntry>)
        requires
            self.wf(),
        ensures
            r matches Some(e) ==> score_ok(e.score as int),
            r == found(self.tt.slots(), self.tt.slot_of(hash), hash),
    {
        proof {
            self.tt.lemma_slot_in_range(hash);
        }
        match self.tt.probe(hash) {
            Some(e) => Some(*e),
            None => None,
        }
    }

    /// Store a result in the transposition table.
    fn tt_store(&mut self, hash: u64, best_move: Move, score: i32, depth: u8, bound: Bound)
        requires
            old(self).wf(),
            score_ok(score as int),
        ensures
            final(self).wf(),
            final(self).evaluator == old(self).evaluator,
            stores(old(self).tt, final(self).tt, hash, best_move, score, depth, bound),
    {
        let ghost before = self.tt;
        proof {
            before.lemma_slot_in_range(hash);
        }
        self.tt.store(hash, best_move, score, depth, bound);
        proof {
            assert forall|i: int| 0 <= i < self.tt.slots().len() implies score_ok(#[trigger] self.tt.slots()[i].score as int) by {
                if i != before.slot_of(hash) {
                    assert(self.tt.slots()[i] == before.slots()[i]);
                }
            }
        }
    }

    /// Negamax search with alpha-beta pruning to `depth` plies, `ply`
    /// plies from the root; the score is from the side to move's side. A
    /// position whose move counters are exhausted is scored statically.
    /// The search as it ran is returned beside the score.
    fn negamax(&mut self, board: &Board, depth: i32, alpha: i32, beta: i32, ply: u32) -> (r: (i32, Ghost<PlainNode>))
        requires
            old(self).wf(),
            board.wf(),
            -1 <= depth,
            ply as int + depth as int <= 0x1000_0000,
            ply <= 0x1000_0000,
            score_ok(alpha as int),
            score_ok(beta as int),
        ensures
            final(self).wf(),
            score_ok(r.0 as int),
            final(self).evaluator.tables() == old(self).evaluator.tables(),
            final(self).evaluator.divisors() == old(self).evaluator.divisors(),
            r.1@.value == r.0,
            r.1@.before == old(self).tt,
            r.1@.after == final(self).tt,
            plain_explains(old(self).evaluator.tables(), old(self).evaluator.divisors(), r.1@, *board, depth,
                alpha as int, beta as int, ply as int),
            !old(self).cached(board.hash_value(), depth) && searchable(*board) ==> {
                &&& depth <= 0 ==> r.0 == old(self).static_value(*board)
                &&& 1 <= depth && !has_legal_move(*board) ==> r.0 == if in_check(*board) { -MATE_SCORE + ply } else { 0 }
            },
        decreases depth + 1,
    {
        let ghost t0 = self.tt;
        let ghost pst = self.evaluator.tables();
        let ghost dv = self.evaluator.divisors();
        let mut alpha = alpha;
        self.nodes = self.nodes.wrapping_add(1);
        let original_alpha = alpha;
        let hash = board.hash();
        let probe = self.tt_probe(hash);
        let ghost leaf = |v: i32| PlainNode { value: v, before: t0, after: t0, moves: Seq::empty(), children: Seq::empty() };
        match probe {
            Some(entry) => {
                let d: u8 = #[verifier::truncate] (depth as u8);
                if entry.depth >= d {
                    match entry.bound {
                        Bound::Exact => {
                            return (entry.score, Ghost(leaf(entry.score)));
                        },
                        Bound::Lower => {
                            if entry.score > alpha {
                                alpha = entry.score;
                            }
                        },
                        Bound::Upper => {
                            if entry.score < beta {
                                return (entry.score, Ghost(leaf(entry.score)));
                            }
                        },
                    }
                    if alpha >= beta {
                        return (entry.score, Ghost(leaf(entry.score)));
                    }
                }
            },
            None => {},
        }
        let ghost a1 = alpha as int;
        proof {
            assert(probe_answer(probe, depth, original_alpha as int, beta as int) is None);
            assert(probe_alpha(probe, depth, original_alpha as int) == a1);
        }
        if depth <= 0 || !(board.halfmove_clock() < u32::MAX && board.fullmove_number() < u32::MAX) {
            let v = self.evaluator.evaluate(board);
            return (v, Ghost(leaf(v)));
        }
        let legal_moves = board.generate_legal_moves();
        if legal_moves.is_empty() {
            let v = if board.is_in_check() { -MATE_SCORE + ply as i32 } else { 0 };
            proof {
                assert forall|m: Move| !legal_move(*board, m) by {
                    if legal_move(*board, m) {
                        assert(legal_moves@.contains(m));
                    }
                }
            }
            return (v, Ghost(leaf(v)));
        }
        proof {
            assert(legal_moves@.contains(legal_moves@[0]));
            assert(legal_move(*board, legal_moves@[0]));
        }
        let mut best_score: i32 = -INFINITY;
        let mut best_move = legal_moves.get(0);
        let n = legal_moves.len();
        let mut i: usize = 0;
        let mut cut = false;
        let ghost mut children: Seq<PlainNode> = Seq::empty();
        while i < n && !cut
            invariant
                self.wf(),
                searchable(*board),
                1 <= depth,
                ply as int + depth as int <= 0x1000_0000,
                n == legal_moves@.len(),
                i <= n,
                forall|m: Move| #[trigger] legal_moves@.contains(m) <==> legal_move(*board, m),
                score_ok(best_score as int),
                score_ok(alpha as int),
                score_ok(beta as int),
                self.evaluator.tables() == pst,
                self.evaluator.divisors() == dv,
                children.len() == i,
                self.tt == if i == 0 { t0 } else { children[i - 1].after },
                plain_chained(t0, children),
                forall|j: int| 0 <= j < i ==> plain_explains(pst, dv, #[trigger] children[j],
                    board_after(*board, legal_moves@[j]), (depth - 1) as i32, -beta,
                    -alpha_after(a1, plain_scores(children), j), ply + 1),
                alpha as int == alpha_after(a1, plain_scores(children), i as int),
                best_score as int == best_after(plain_scores(children), i as int),
                best_move == legal_moves@[best_index(plain_scores(children), i as int)],
                0 <= best_index(plain_scores(children), i as int) < n,
                forall|j: int| 1 <= j < i ==> #[trigger] alpha_after(a1, plain_scores(children), j) < beta,
                cut ==> i >= 1 && alpha >= beta,
                !cut && i >= 1 ==> alpha < beta,
            decreases n - i,
        {
            let m = legal_moves.get(i);
            proof {
                assert(legal_moves@.contains(m));
                lemma_pseudo_legal_makeable(*board, m);
            }
            let mut new_board = *board;
            let undo = new_board.make_move(m);
            proof {
                lemma_board_after(*board, m, new_board, undo);
            }
            let ghost prev = children;
            let ghost ps = plain_scores(prev);
            let (child, Ghost(node)) = self.negamax(&new_board, depth - 1, -beta, -alpha, ply + 1);
            let score = -child;
            if score > best_score {
                best_score = score;
                best_move = m;
            }
            if score > alpha {
                alpha = score;
            }
            if alpha >= beta {
                cut = true;
            }
            proof {
                children = prev.push(node);
                assert(plain_scores(children) =~= ps.push(score as int));
                assert forall|j: int| 0 <= j <= i implies
                    #[trigger] alpha_after(a1, plain_scores(children), j) == alpha_after(a1, ps, j)
                    && best_after(plain_scores(children), j) == best_after(ps, j)
                    && best_index(plain_scores(children), j) == best_index(ps, j) by {
                    lemma_scores_prefix(a1, ps, score as int, j);
                }
                assert forall|j: int| 0 <= j < i + 1 implies plain_explains(pst, dv, #[trigger] children[j],
                    board_after(*board, legal_moves@[j]), (depth - 1) as i32, -beta,
                    -alpha_after(a1, plain_scores(children), j), ply + 1) by {
                    if j < i {
                        assert(children[j] == prev[j]);
                    }
                }
                assert forall|j: int| 0 <= j < children.len() implies (#[trigger] children[j]).before
                    == if j == 0 { t0 } else { children[j - 1].after } by {
                    if j < i {
                        assert(children[j] == prev[j]);
                    }
                }
                assert forall|j: int| 1 <= j < i + 1 implies #[trigger] alpha_after(a1, plain_scores(children), j) < beta by {
                    if j < i {
                        assert(alpha_after(a1, ps, j) < beta);
                    }
                }
            }
            i += 1;
        }
        let bound = if best_score >= beta {
            Bound::Lower
        } else if best_score > original_alpha {
            Bound::Exact
        } else {
            Bound::Upper
        };
        self.tt_store(hash, best_move, best_score, #[verifier::truncate] (depth as u8), bound);
        let ghost node = PlainNode { value: best_score, before: t0, after: self.tt, moves: legal_moves@, children };
        proof {
            assert(has_legal_move(*board));
            assert(lists_legal(*board, node.moves));
            assert(cut_at(a1, beta as int, plain_scores(children), i as int, n as int));
            assert(plain_explains(pst, dv, node, *board, depth, original_alpha as int, beta as int, ply as int));
        }
        (best_score, Ghost(node))
    }
}

/// One more score: the window, the best score and its index move on by
/// that score.
pub proof fn lemma_scores_step(a: int, s: Seq<int>, i: int)
    requires
        0 <= i < s.len(),
    ensures
        alpha_after(a, s, i + 1) == if s[i] > alpha_after(a, s, i) { s[i] } else { alpha_after(a, s, i) },
        best_after(s, i + 1) == if s[i] > best_after(s, i) { s[i] } else { best_after(s, i) },
        best_index(s, i + 1) == if s[i] > best_after(s, i) { i } else { best_index(s, i) },
{
}

/// Scores appended after the first `j` leave the window, the best score and
/// its index after those `j` unchanged.
pub proof fn lemma_scores_prefix(a: int, s: Seq<int>, x: int, j: int)
    requires
        0 <= j <= s.len(),
    ensures
        alpha_after(a, s.push(x), j) == alpha_after(a, s, j),
        best_after(s.push(x), j) == best_after(s, j),
        best_index(s.push(x), j) == best_index(s, j),
    decreases j,
{
    if j > 0 {
        lemma_scores_prefix(a, s, x, j - 1);
        assert(s.push(x)[j - 1] == s[j - 1]);
    }
}

impl Default for Searcher {
    fn default() -> (r: Searcher)
        ensures
            r.wf(),
    {
        Searcher::new()
    }
}

} // verus!
