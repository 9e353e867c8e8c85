//! The main searcher: iterative deepening negamax with alpha-beta pruning,
//! a transposition table, move ordering, null-move pruning, late move
//! reductions, principal variation search, aspiration windows, quiescence
//! search and time control.
use vstd::prelude::*;
use crate::board::{Board, made};
use crate::chess_move::Move;
use crate::eval::Evaluator;
use crate::eval::material::is_endgame;
use crate::move_order::MoveOrder;
use crate::movegen::lemma_pseudo_legal_makeable;
use crate::movelist::MoveList;
use crate::perft::{legal_move, board_after, lemma_board_after};
use crate::piece::Color;
use crate::search::line::{score_ok, searchable, has_legal_move, legal_line, line_end, lemma_line_push,
    list_contains, piece_total, lemma_capture_shrinks};
use crate::time::{TimeControl, TimeManager, time_control_fits, limits};
use crate::tt::{Bound, TranspositionTable, TTEntry, is_empty_entry, found};
use crate::legality::in_check;
use crate::search::ranking::{sort_lines, line_ok, starts_some};
use crate::search::{probe_answer, probe_alpha, alpha_after, best_after, best_index, cut_at, bound_for, stores,
    lemma_scores_prefix, lemma_scores_step};
use crate::eval::{Divisors, divisors_ok, divisors_of, evaluation};
use crate::tune::TuningParams;
use crate::eval::pst::PieceSquareTables;
use crate::eval::material::endgame;
use crate::chess_move::mv_code;
use crate::piece::opposite;
use crate::zobrist::{ep_key, KEY_BLACK_TO_MOVE};

verus! {

/// Maximum search depth.
pub const MAX_DEPTH: u32 = 64;

/// The score of being checkmated at the root.
pub const MATE_SCORE: i32 = 30_000;

/// A score beyond every mate score.
pub const INFINITY: i32 = 32_000;

/// Half-width of the first aspiration window, in centipawns.
const ASPIRATION_DELTA: i32 = 50;

/// A principal variation found by a multi-PV search.
#[derive(Debug, Clone)]
pub struct PVLine {
    /// Its score.
    pub score: i32,
    /// Its moves.
    pub pv: Vec<Move>,
}

/// What a search returns.
#[derive(Debug, Clone)]
pub struct SearchResult {
    /// The best move found (the null move when there is none).
    pub best_move: Move,
    /// Its score, from the side to move's point of view.
    pub score: i32,
    /// The last depth completed.
    pub depth: u32,
    /// The nodes visited.
    pub nodes: u64,
    /// The principal variation.
    pub pv: Vec<Move>,
    /// The lines of a multi-PV search (empty otherwise).
    pub multi_pv: Vec<PVLine>,
}

/// Whether every score stored in a table lies within the score bound.
pub open spec fn tt_scores_ok(tt: TranspositionTable) -> bool {
    forall|i: int| 0 <= i < tt.slots().len() ==> score_ok(#[trigger] tt.slots()[i].score as int)
}

/// A copy of a vector of moves.
pub(crate) fn copy_moves(v: &Vec<Move>) -> (r: Vec<Move>)
    ensures
        r@ == v@,
{
    let mut r: Vec<Move> = Vec::new();
    let mut i: usize = 0;
    while i < v.len()
        invariant
            i <= v.len(),
            r@ == v@.subrange(0, i as int),
        decreases v.len() - i,
    {
        r.push(v[i]);
        i += 1;
        assert(r@ =~= v@.subrange(0, i as int));
    }
    assert(v@.subrange(0, v.len() as int) =~= v@);
    r
}

/// Whether a move is among the excluded ones.
fn is_excluded(excluded: &[Move], m: Move) -> (r: bool)
    ensures
        r == excluded@.contains(m),
{
    let mut i: usize = 0;
    while i < excluded.len()
        invariant
            i <= excluded@.len(),
            forall|j: int| 0 <= j < i ==> excluded@[j] != m,
        decreases excluded@.len() - i,
    {
        if excluded[i] == m {
            assert(excluded@[i as int] == m);
            return true;
        }
        i += 1;
    }
    false
}

/// Whether a hash is among those seen.
fn contains_hash(seen: &Vec<u64>, hash: u64) -> (r: bool)
    ensures
        r == seen@.contains(hash),
{
    let mut i: usize = 0;
    while i < seen.len()
        invariant
            i <= seen.len(),
            forall|j: int| 0 <= j < i ==> seen@[j] != hash,
        decreases seen.len() - i,
    {
        if seen[i] == hash {
            assert(seen@[i as int] == hash);
            return true;
        }
        i += 1;
    }
    false
}

/// `x` kept within the score bound.
fn clamp_score(x: i64) -> (r: i32)
    ensures
        score_ok(r as int),
        score_ok(x as int) ==> r == x,
{
    if x < -1_000_000_001 {
        -1_000_000_001
    } else if x > 1_000_000_001 {
        1_000_000_001
    } else {
        x as i32
    }
}

/// Whether a depth search has completed its depth before `current_depth`.
pub open spec fn depth_done(tc: TimeControl, current_depth: u32) -> bool {
    match tc {
        TimeControl::Depth { depth } => current_depth - 1 >= depth,
        _ => false,
    }
}

/// Whether a node search has used its nodes.
pub open spec fn nodes_used(tc: TimeControl, nodes: u64) -> bool {
    match tc {
        TimeControl::Nodes { nodes: limit } => nodes >= limit,
        _ => false,
    }
}

/// A list of moves holds exactly the legal moves of a position.
pub open spec fn lists_legal(b: Board, l: Seq<Move>) -> bool {
    forall|m: Move| #[trigger] l.contains(m) <==> legal_move(b, m)
}

/// One root move searched: the move, its score from the root's side, and
/// whether the table held no usable result for the position after it when
/// it was searched.
pub type RootStep = (Move, i32, bool);

/// Whether the root moves of a trace are searched moves whose first best
/// is `best` with score `score`: the trace is not empty, its moves are
/// legal, no score exceeds `score`, and `best` is the first move scored
/// `score`.
pub open spec fn root_outcome(b: Board, trace: Seq<RootStep>, score: i32, best: Move) -> bool {
    &&& trace.len() >= 1
    &&& forall|i: int| 0 <= i < trace.len() ==> legal_move(b, (#[trigger] trace[i]).0)
    &&& forall|i: int| 0 <= i < trace.len() ==> (#[trigger] trace[i]).1 <= score
    &&& exists|k: int| 0 <= k < trace.len() && (#[trigger] trace[k]).0 == best && trace[k].1 == score
        && forall|i: int| 0 <= i < k ==> (#[trigger] trace[i]).1 < score
}

/// Whether a position is checkmated and can be searched.
pub open spec fn mated(b: Board) -> bool {
    searchable(b) && in_check(b) && !has_legal_move(b)
}

/// Whether a move of the trace occurs in it.
pub open spec fn traced(trace: Seq<RootStep>, m: Move) -> bool {
    exists|i: int| 0 <= i < trace.len() && (#[trigger] trace[i]).0 == m
}

/// A move that mates scores the mate score less one, wherever the table
/// held nothing for the mated position.
pub open spec fn mates_scored(b: Board, trace: Seq<RootStep>) -> bool {
    forall|i: int| 0 <= i < trace.len() && (#[trigger] trace[i]).2 && mated(board_after(b, trace[i].0))
        ==> trace[i].1 == MATE_SCORE - 1
}

/// Reordering a list keeps what it contains.
proof fn lemma_same_multiset_contains(a: Seq<Move>, b: Seq<Move>)
    requires
        a.to_multiset() == b.to_multiset(),
    ensures
        forall|m: Move| #[trigger] a.contains(m) <==> b.contains(m),
{
    assert forall|m: Move| #[trigger] a.contains(m) <==> b.contains(m) by {
        vstd::seq_lib::to_multiset_contains(a, m);
        vstd::seq_lib::to_multiset_contains(b, m);
    }
}

/// `a` is `b` with the move passed to the other side: the same pieces,
/// castling rights and full-move number, no en-passant square, the
/// half-move clock one higher and the hash updated to match.
pub open spec fn nulled(b: Board, a: Board) -> bool {
    &&& a.wf()
    &&& forall|i: nat| #[trigger] a.piece_on(i) == b.piece_on(i)
    &&& a.side() == opposite(b.side())
    &&& a.ep() is None
    &&& a.halfmove() == b.halfmove() + 1
    &&& a.rights() == b.rights()
    &&& a.fullmove() == b.fullmove()
    &&& a.hash_value() == b.hash_value() ^ ep_key(b.ep()) ^ KEY_BLACK_TO_MOVE
}

/// Whether the search of `b` at `depth` tries passing the move first: at
/// depth 3 or more, out of check, outside the endgame, with move counters
/// to spare and `beta` clear of the mate scores.
pub open spec fn null_allowed(b: Board, depth: i32, beta: int) -> bool {
    &&& depth >= 3
    &&& searchable(b)
    &&& !in_check(b)
    &&& !endgame(b)
    &&& -(MATE_SCORE - MAX_DEPTH) < beta < MATE_SCORE - MAX_DEPTH
}

/// Whether the move at index `i` is a late quiet move, searched first at
/// reduced depth: from the fourth move on, at depth 3 or more, neither a
/// capture nor a promotion, not giving check and not out of check.
pub open spec fn late_quiet(b: Board, m: Move, i: int, depth: i32) -> bool {
    &&& i >= 3
    &&& depth >= 3
    &&& !(4 <= mv_code(m@) % 8)
    &&& !(mv_code(m@) >= 8)
    &&& !in_check(board_after(b, m))
    &&& !in_check(b)
}

/// The depth of the first search of the move at index `i`: one ply less,
/// or two (three from the seventh move at depth 6) for a late quiet move.
pub open spec fn first_depth(b: Board, m: Move, i: int, depth: i32) -> i32 {
    if late_quiet(b, m, i, depth) {
        (depth - 1 - (if i >= 6 && depth >= 6 { 2int } else { 1int })) as i32
    } else {
        (depth - 1) as i32
    }
}

/// The lower end of the first search's window of the move at index `i`
/// when the window is (`a`, `beta`): the full window for the first move,
/// a null window at `a` for the others.
pub open spec fn first_low(b: Board, m: Move, i: int, depth: i32, a: int, beta: int) -> int {
    if !late_quiet(b, m, i, depth) && i == 0 { -beta } else { -a - 1 }
}

/// Whether the move at index `i`, first scored `s0`, is searched again in
/// full: a late quiet move that beats `a`, or another move after the first
/// whose score falls inside the window.
pub open spec fn researched(b: Board, m: Move, i: int, depth: i32, s0: int, a: int, beta: int) -> bool {
    if late_quiet(b, m, i, depth) {
        s0 > a
    } else if i == 0 {
        false
    } else {
        s0 > a && s0 < beta
    }
}

/// One call of the quiescence search as it ran: the score it returned,
/// the legal moves in the order looked at, and for each move looked at the
/// search of it (used for captures only).
pub struct QNode {
    pub value: i32,
    pub moves: Seq<Move>,
    pub children: Seq<QNode>,
}

/// The score of each move looked at by a quiescence search, from the
/// mover's side: minus the value of its search for a capture, and a
/// value below every score for any other move.
pub open spec fn q_scores(moves: Seq<Move>, children: Seq<QNode>) -> Seq<int> {
    Seq::new(children.len(), |j: int| if 4 <= mv_code(moves[j]@) % 8 { -children[j].value } else { -2_000_000_000 })
}

/// Whether `node` is what the quiescence search of `b` computes in the
/// window (`alpha`, `beta`) with evaluation tables `t` and divisors `d`,
/// when it is not stopped: the static score stands pat, returning `beta`
/// when it reaches `beta` and otherwise raising `alpha`; with the move
/// counters exhausted that is the score; otherwise the captures among the
/// legal moves are searched in turn in the window (`-beta`, `-alpha`) with
/// `alpha` raised by the scores so far, and a capture that reaches `beta`
/// returns `beta` at once.
#[verifier::opaque]
pub open spec fn q_explains(t: PieceSquareTables, d: Divisors, node: QNode, b: Board, alpha: int, beta: int) -> bool
    decreases node,
{
    let stand = evaluation(b, t, d);
    let a0 = if stand > alpha { stand } else { alpha };
    let c = node.children.len() as int;
    let s = q_scores(node.moves, node.children);
    if stand >= beta {
        node.value == beta
    } else if !searchable(b) {
        node.value == a0
    } else {
        &&& lists_legal(b, node.moves)
        &&& c <= node.moves.len()
        &&& forall|j: int| 0 <= j < c && 4 <= mv_code(node.moves[j]@) % 8 ==> q_explains(t, d,
            #[trigger] node.children[j], board_after(b, node.moves[j]), -beta, -alpha_after(a0, s, j))
        &&& forall|j: int| 0 <= j < c - 1 ==> #[trigger] s[j] < beta
        &&& c < node.moves.len() ==> c > 0 && s[c - 1] >= beta
        &&& node.value == if c > 0 && s[c - 1] >= beta { beta } else { alpha_after(a0, s, c) }
    }
}

/// Whether `children` are the searches of the first moves of `moves` as
/// the quiescence search makes them from the raised lower bound `a0`
/// (see `q_explains`), none of them reaching `beta`; the searches
/// themselves are only claimed when the search was not stopped.
#[verifier::opaque]
pub open spec fn q_done(t: PieceSquareTables, d: Divisors, b: Board, moves: Seq<Move>, a0: int, beta: int,
    children: Seq<QNode>, stopped: bool) -> bool {
    let s = q_scores(moves, children);
    &&& children.len() <= moves.len()
    &&& forall|j: int| 0 <= j < children.len() ==> #[trigger] s[j] < beta
    &&& !stopped ==> forall|j: int| 0 <= j < children.len() && 4 <= mv_code(moves[j]@) % 8 ==> q_explains(t, d,
        #[trigger] children[j], board_after(b, moves[j]), -beta, -alpha_after(a0, s, j))
}

/// One more move looked at extends the searches; the window moves on by
/// its score.
proof fn lemma_q_push(t: PieceSquareTables, d: Divisors, b: Board, moves: Seq<Move>, a0: int, beta: int,
    prev: Seq<QNode>, x: QNode, stopped_before: bool, stopped_after: bool)
    requires
        q_done(t, d, b, moves, a0, beta, prev, stopped_before),
        prev.len() < moves.len(),
        !stopped_after ==> !stopped_before,
        !stopped_after && 4 <= mv_code(moves[prev.len() as int]@) % 8 ==> q_explains(t, d, x,
            board_after(b, moves[prev.len() as int]), -beta, -alpha_after(a0, q_scores(moves, prev), prev.len() as int)),
    ensures
        ({
            let k = prev.len() as int;
            let ns = q_scores(moves, prev.push(x));
            &&& ns[k] == if 4 <= mv_code(moves[k]@) % 8 { -x.value } else { -2_000_000_000 }
            &&& alpha_after(a0, ns, k + 1) == if ns[k] > alpha_after(a0, q_scores(moves, prev), k) { ns[k] }
                else { alpha_after(a0, q_scores(moves, prev), k) }
            &&& ns[k] < beta ==> q_done(t, d, b, moves, a0, beta, prev.push(x), stopped_after)
            &&& forall|j: int| 0 <= j < k ==> #[trigger] ns[j] < beta
            &&& !stopped_after ==> forall|j: int| 0 <= j <= k && 4 <= mv_code(moves[j]@) % 8 ==> q_explains(t, d,
                #[trigger] prev.push(x)[j], board_after(b, moves[j]), -beta, -alpha_after(a0, ns, j))
        }),
{
    reveal(q_done);
    let k = prev.len() as int;
    let ps = q_scores(moves, prev);
    let children = prev.push(x);
    let v: int = if 4 <= mv_code(moves[k]@) % 8 { -x.value } else { -2_000_000_000 };
    assert(q_scores(moves, children) =~= ps.push(v));
    assert forall|j: int| 0 <= j <= k implies #[trigger] alpha_after(a0, q_scores(moves, children), j)
        == alpha_after(a0, ps, j) by {
        lemma_scores_prefix(a0, ps, v, j);
    }
    lemma_scores_step(a0, q_scores(moves, children), k);
    assert forall|j: int| 0 <= j < k implies #[trigger] children[j] == prev[j] by {}
    assert forall|j: int| 0 <= j < k implies #[trigger] q_scores(moves, children)[j] < beta by {
        assert(ps[j] < beta);
    }
    if !stopped_after {
        assert forall|j: int| 0 <= j <= k && 4 <= mv_code(moves[j]@) % 8 implies q_explains(t, d,
            #[trigger] children[j], board_after(b, moves[j]), -beta, -alpha_after(a0, q_scores(moves, children), j)) by {
            if j < k {
                assert(children[j] == prev[j]);
            }
        }
    }
}

/// A quiescence search that stood pat below `beta`, had counters to spare,
/// and searched the first `children.len()` moves, `explains` its value.
proof fn lemma_q_explains_moves(t: PieceSquareTables, d: Divisors, node: QNode, b: Board, alpha: int, beta: int)
    requires
        ({
            let stand = evaluation(b, t, d);
            let a0 = if stand > alpha { stand } else { alpha };
            let c = node.children.len() as int;
            let s = q_scores(node.moves, node.children);
            &&& stand < beta
            &&& searchable(b)
            &&& lists_legal(b, node.moves)
            &&& c <= node.moves.len()
            &&& forall|j: int| 0 <= j < c - 1 ==> #[trigger] s[j] < beta
            &&& forall|j: int| 0 <= j < c && 4 <= mv_code(node.moves[j]@) % 8 ==> q_explains(t, d,
                #[trigger] node.children[j], board_after(b, node.moves[j]), -beta, -alpha_after(a0, s, j))
            &&& c < node.moves.len() ==> c > 0 && s[c - 1] >= beta
            &&& node.value == if c > 0 && s[c - 1] >= beta { beta } else { alpha_after(a0, s, c) }
        }),
    ensures
        q_explains(t, d, node, b, alpha, beta),
{
    reveal(q_explains);
}

/// One call of the main search as it ran: the score it returned, the
/// table before and after it, the position and search of the passed move
/// if one was tried, the legal moves in the order tried, and for each move
/// tried its searches (the first, and the full one when it was searched
/// again).
pub struct SearchNode {
    pub value: i32,
    pub before: TranspositionTable,
    pub after: TranspositionTable,
    pub null_board: Board,
    pub null_try: Seq<SearchNode>,
    pub quiet: Seq<QNode>,
    pub moves: Seq<Move>,
    pub tries: Seq<Seq<SearchNode>>,
}

/// The score of each move tried, from the mover's side: minus the value of
/// its last search.
pub open spec fn try_scores(tries: Seq<Seq<SearchNode>>) -> Seq<int> {
    Seq::new(tries.len(), |j: int| -tries[j].last().value)
}

/// Each search starts from the table the previous one left (the first
/// from `t`).
pub open spec fn tries_chained(t: TranspositionTable, tries: Seq<Seq<SearchNode>>) -> bool {
    forall|i: int| 0 <= i < tries.len() ==> {
        &&& (#[trigger] tries[i])[0].before == if i == 0 { t } else { tries[i - 1].last().after }
        &&& tries[i].len() == 2 ==> tries[i][1].before == tries[i][0].after
    }
}

/// Whether `node` is what the main negamax search of `b` computes to
/// `depth` plies in the window (`alpha`, `beta`), `ply` plies from the
/// root, with evaluation tables `t` and divisors `d`, when it is not
/// stopped: the table probe may answer at once; where allowed, passing the
/// move is searched two plies shallower with a null window at `beta`, and
/// a pass that holds `beta` returns `beta`; at depth 0, or with the move
/// counters exhausted, the quiescence search scores the position; without
/// legal moves it is mate or stalemate; otherwise the legal moves are
/// tried in turn (see `first_depth`, `first_low`, `researched`) with
/// `alpha` raised by the scores so far until the window closes, and the
/// best score (the first to reach it) is stored and returned.
#[verifier::opaque]
pub open spec fn explains(t: PieceSquareTables, d: Divisors, node: SearchNode, b: Board, depth: i32, alpha: int,
    beta: int, ply: int) -> bool
    decreases node,
{
    let hash = b.hash_value();
    let e = found(node.before.slots(), node.before.slot_of(hash), hash);
    match probe_answer(e, depth, alpha, beta) {
        Some(v) => node.value == v && node.after == node.before,
        None => {
            let a = probe_alpha(e, depth, alpha);
            let nul = null_allowed(b, depth, beta);
            let t1 = if nul { node.null_try[0].after } else { node.before };
            &&& nul ==> {
                &&& node.null_try.len() == 1
                &&& nulled(b, node.null_board)
                &&& node.null_try[0].before == node.before
                &&& explains(t, d, node.null_try[0], node.null_board, (depth - 3) as i32, -beta, -beta + 1, ply + 1)
            }
            &&& if nul && -node.null_try[0].value >= beta {
                node.value == beta && node.after == t1
            } else if depth <= 0 || !searchable(b) {
                node.after == t1 && node.quiet.len() == 1 && node.value == node.quiet[0].value
                    && q_explains(t, d, node.quiet[0], b, a, beta)
            } else if !has_legal_move(b) {
                node.value == (if in_check(b) { -MATE_SCORE + ply } else { 0 }) && node.after == t1
            } else {
                let s = try_scores(node.tries);
                let c = node.tries.len() as int;
                &&& lists_legal(b, node.moves)
                &&& cut_at(a, beta, s, c, node.moves.len() as int)
                &&& forall|i: int| 0 <= i < c ==> 1 <= (#[trigger] node.tries[i]).len() <= 2
                    && (node.tries[i].len() == 2 <==> researched(b, node.moves[i], i, depth, -node.tries[i][0].value,
                        alpha_after(a, s, i), beta))
                &&& tries_chained(t1, node.tries)
                &&& forall|i: int| #![trigger node.tries[i]] 0 <= i < c ==> explains(t, d, node.tries[i][0],
                    board_after(b, node.moves[i]), first_depth(b, node.moves[i], i, depth),
                    first_low(b, node.moves[i], i, depth, alpha_after(a, s, i), beta), -alpha_after(a, s, i), ply + 1)
                &&& forall|i: int| #![trigger node.tries[i]] 0 <= i < c && node.tries[i].len() == 2 ==> explains(t, d,
                    node.tries[i][1], board_after(b, node.moves[i]), (depth - 1) as i32, -beta, -alpha_after(a, s, i),
                    ply + 1)
                &&& node.value == best_after(s, c)
                &&& stores(node.tries[c - 1].last().after, node.after, hash, node.moves[best_index(s, c)], node.value,
                    depth as u8, bound_for(node.value as int, alpha, beta))
            }
        }
    }
}

/// Whether `tries` are the searches of the first moves of `moves` as the
/// main search makes them in the window (`a`, `beta`) from table `t1`
/// (see `explains`); the searches themselves are only claimed when the
/// search was not stopped.
#[verifier::opaque]
pub open spec fn tried(t: PieceSquareTables, d: Divisors, b: Board, moves: Seq<Move>, depth: i32, a: int, beta: int,
    ply: int, t1: TranspositionTable, tries: Seq<Seq<SearchNode>>, stopped: bool) -> bool {
    let s = try_scores(tries);
    &&& tries.len() <= moves.len()
    &&& forall|i: int| 0 <= i < tries.len() ==> 1 <= (#[trigger] tries[i]).len() <= 2
        && (tries[i].len() == 2 <==> researched(b, moves[i], i, depth, -tries[i][0].value, alpha_after(a, s, i), beta))
    &&& tries_chained(t1, tries)
    &&& !stopped ==> forall|i: int| #![trigger tries[i]] 0 <= i < tries.len() ==> explains(t, d, tries[i][0],
        board_after(b, moves[i]), first_depth(b, moves[i], i, depth),
        first_low(b, moves[i], i, depth, alpha_after(a, s, i), beta), -alpha_after(a, s, i), ply + 1)
    &&& !stopped ==> forall|i: int| #![trigger tries[i]] 0 <= i < tries.len() && tries[i].len() == 2 ==> explains(t, d,
        tries[i][1], board_after(b, moves[i]), (depth - 1) as i32, -beta, -alpha_after(a, s, i), ply + 1)
}

/// One more move searched keeps `tried`.
proof fn lemma_tried_push(t: PieceSquareTables, d: Divisors, b: Board, moves: Seq<Move>, depth: i32, a: int,
    beta: int, ply: int, t1: TranspositionTable, prev: Seq<Seq<SearchNode>>, tr: Seq<SearchNode>, stopped_before: bool,
    stopped_after: bool)
    requires
        tried(t, d, b, moves, depth, a, beta, ply, t1, prev, stopped_before),
        prev.len() < moves.len(),
        1 <= tr.len() <= 2,
        tr.len() == 2 <==> researched(b, moves[prev.len() as int], prev.len() as int, depth, -tr[0].value,
            alpha_after(a, try_scores(prev), prev.len() as int), beta),
        tr[0].before == if prev.len() == 0 { t1 } else { prev.last().last().after },
        tr.len() == 2 ==> tr[1].before == tr[0].after,
        !stopped_after ==> !stopped_before,
        !stopped_after ==> explains(t, d, tr[0], board_after(b, moves[prev.len() as int]),
            first_depth(b, moves[prev.len() as int], prev.len() as int, depth),
            first_low(b, moves[prev.len() as int], prev.len() as int, depth,
                alpha_after(a, try_scores(prev), prev.len() as int), beta),
            -alpha_after(a, try_scores(prev), prev.len() as int), ply + 1),
        !stopped_after && tr.len() == 2 ==> explains(t, d, tr[1], board_after(b, moves[prev.len() as int]),
            (depth - 1) as i32, -beta, -alpha_after(a, try_scores(prev), prev.len() as int), ply + 1),
    ensures
        tried(t, d, b, moves, depth, a, beta, ply, t1, prev.push(tr), stopped_after),
        try_scores(prev.push(tr)) == try_scores(prev).push(-tr.last().value),
{
    reveal(tried);
    let k = prev.len() as int;
    let tries = prev.push(tr);
    let ps = try_scores(prev);
    assert(try_scores(tries) =~= ps.push(-tr.last().value));
    assert forall|j: int| 0 <= j <= k implies #[trigger] alpha_after(a, try_scores(tries), j) == alpha_after(a, ps, j) by {
        lemma_scores_prefix(a, ps, -tr.last().value, j);
    }
    assert forall|j: int| 0 <= j < k implies #[trigger] tries[j] == prev[j] by {}
    assert(tries[k] == tr);
    assert forall|j: int| 0 <= j < tries.len() implies {
        &&& (#[trigger] tries[j])[0].before == if j == 0 { t1 } else { tries[j - 1].last().after }
        &&& tries[j].len() == 2 ==> tries[j][1].before == tries[j][0].after
    } by {
        if j > 0 {
            assert(tries[j - 1] == prev[j - 1]);
        }
    }
    assert forall|j: int| 0 <= j < tries.len() implies 1 <= (#[trigger] tries[j]).len() <= 2
        && (tries[j].len() == 2 <==> researched(b, moves[j], j, depth, -tries[j][0].value,
            alpha_after(a, try_scores(tries), j), beta)) by {
        assert(alpha_after(a, try_scores(tries), j) == alpha_after(a, ps, j));
    }
    if !stopped_after {
        assert forall|j: int| #![trigger tries[j]] 0 <= j < tries.len() implies explains(t, d, tries[j][0],
            board_after(b, moves[j]), first_depth(b, moves[j], j, depth),
            first_low(b, moves[j], j, depth, alpha_after(a, try_scores(tries), j), beta),
            -alpha_after(a, try_scores(tries), j), ply + 1) by {
            assert(alpha_after(a, try_scores(tries), j) == alpha_after(a, ps, j));
            if j < k {
                assert(tries[j] == prev[j]);
            }
        }
        assert forall|j: int| #![trigger tries[j]] 0 <= j < tries.len() && tries[j].len() == 2 implies explains(t, d,
            tries[j][1], board_after(b, moves[j]), (depth - 1) as i32, -beta, -alpha_after(a, try_scores(tries), j),
            ply + 1) by {
            assert(alpha_after(a, try_scores(tries), j) == alpha_after(a, ps, j));
            if j < k {
                assert(tries[j] == prev[j]);
            }
        }
    }
}

/// Moves searched as `tried` make a node that `explains` the search.
proof fn lemma_explains_moves(t: PieceSquareTables, d: Divisors, node: SearchNode, b: Board, depth: i32, alpha: int,
    beta: int, ply: int, t1: TranspositionTable)
    requires
        ({
            let hash = b.hash_value();
            let e = found(node.before.slots(), node.before.slot_of(hash), hash);
            let a = probe_alpha(e, depth, alpha);
            let nul = null_allowed(b, depth, beta);
            let s = try_scores(node.tries);
            let c = node.tries.len() as int;
            &&& probe_answer(e, depth, alpha, beta) is None
            &&& t1 == if nul { node.null_try[0].after } else { node.before }
            &&& nul ==> {
                &&& node.null_try.len() == 1
                &&& nulled(b, node.null_board)
                &&& node.null_try[0].before == node.before
                &&& explains(t, d, node.null_try[0], node.null_board, (depth - 3) as i32, -beta, -beta + 1, ply + 1)
                &&& -node.null_try[0].value < beta
            }
            &&& 1 <= depth
            &&& searchable(b)
            &&& has_legal_move(b)
            &&& lists_legal(b, node.moves)
            &&& cut_at(a, beta, s, c, node.moves.len() as int)
            &&& tried(t, d, b, node.moves, depth, a, beta, ply, t1, node.tries, false)
            &&& node.value == best_after(s, c)
            &&& stores(node.tries[c - 1].last().after, node.after, hash, node.moves[best_index(s, c)], node.value,
                depth as u8, bound_for(node.value as int, alpha, beta))
        }),
    ensures
        explains(t, d, node, b, depth, alpha, beta, ply),
{
    reveal(explains);
    reveal(tried);
}

/// A node settled by the table probe `explains` the search.
proof fn lemma_explains_leaf(t: PieceSquareTables, d: Divisors, node: SearchNode, b: Board, depth: i32, alpha: int,
    beta: int, ply: int)
    requires
        probe_answer(found(node.before.slots(), node.before.slot_of(b.hash_value()), b.hash_value()), depth, alpha,
            beta) == Some(node.value as int),
        node.after == node.before,
    ensures
        explains(t, d, node, b, depth, alpha, beta, ply),
{
    reveal(explains);
}

/// A node that ends after the probe and the passed move `explains` the
/// search when it is as the definition says for that case.
proof fn lemma_explains_end(t: PieceSquareTables, d: Divisors, node: SearchNode, b: Board, depth: i32, alpha: int,
    beta: int, ply: int)
    requires
        ({
            let hash = b.hash_value();
            let e = found(node.before.slots(), node.before.slot_of(hash), hash);
            let nul = null_allowed(b, depth, beta);
            let t1 = if nul { node.null_try[0].after } else { node.before };
            &&& probe_answer(e, depth, alpha, beta) is None
            &&& nul ==> {
                &&& node.null_try.len() == 1
                &&& nulled(b, node.null_board)
                &&& node.null_try[0].before == node.before
                &&& explains(t, d, node.null_try[0], node.null_board, (depth - 3) as i32, -beta, -beta + 1, ply + 1)
            }
            &&& if nul && -node.null_try[0].value >= beta {
                node.value == beta && node.after == t1
            } else if depth <= 0 || !searchable(b) {
                node.after == t1 && node.quiet.len() == 1 && node.value == node.quiet[0].value
                    && q_explains(t, d, node.quiet[0], b, probe_alpha(e, depth, alpha), beta)
            } else {
                !has_legal_move(b) && node.value == (if in_check(b) { -MATE_SCORE + ply } else { 0 })
                    && node.after == t1
            }
        }),
    ensures
        explains(t, d, node, b, depth, alpha, beta, ply),
{
    reveal(explains);
}

/// The scores of the steps of a root search.
pub open spec fn step_scores(trace: Seq<RootStep>) -> Seq<int> {
    Seq::new(trace.len(), |j: int| trace[j].1 as int)
}

/// Whether `nodes` are the searches behind the steps of a root search of
/// `b` to `depth` plies in the window (`alpha`, `beta`), with evaluation
/// `sc`: each move of `trace` was searched in turn a ply shallower, in the
/// window (`-beta`, `-alpha`) with `alpha` raised by the scores so far,
/// from the table the previous search left (the first from `start`), and
/// each step's score is minus the value found.
pub open spec fn root_explained(sc: (PieceSquareTables, Divisors), b: Board, depth: int, alpha: int, beta: int,
    trace: Seq<RootStep>, nodes: Seq<SearchNode>, start: TranspositionTable) -> bool {
    &&& nodes.len() == trace.len()
    &&& forall|i: int| 0 <= i < nodes.len() ==> explains(sc.0, sc.1, #[trigger] nodes[i], board_after(b, trace[i].0),
        (depth - 1) as i32, -beta, -alpha_after(alpha, step_scores(trace), i), 1)
    &&& forall|i: int| 0 <= i < nodes.len() ==> trace[i].1 == -(#[trigger] nodes[i]).value
    &&& forall|i: int| 0 <= i < nodes.len() ==> (#[trigger] nodes[i]).before
        == if i == 0 { start } else { nodes[i - 1].after }
}

/// The search engine.
pub struct Searcher {
    evaluator: Evaluator,
    tt: TranspositionTable,
    move_order: MoveOrder,
    nodes: u64,
    time_manager: Option<TimeManager>,
    stopped: bool,
}

impl Searcher {
    /// The evaluator, table and move ordering are well formed, and every
    /// stored score is within the score bound.
    pub closed spec fn wf(self) -> bool {
        &&& self.evaluator.wf()
        &&& self.tt.wf()
        &&& self.move_order.wf()
        &&& tt_scores_ok(self.tt)
    }

    /// Whether the search cannot be stopped: it has not been, and no hard
    /// time limit is set.
    pub closed spec fn never_stops(self) -> bool {
        &&& !self.stopped
        &&& match self.time_manager {
            Some(tm) => tm.hard() is None,
            None => true,
        }
    }

    /// Whether the search was stopped (by a request or a passed hard time
    /// limit); once stopped, searches answer at once.
    pub closed spec fn halted(self) -> bool {
        self.stopped
    }

    /// Whether this is a new searcher with a table of `size_mb` megabytes
    /// (16 bytes an entry, rounded up to a power of two), all of it empty,
    /// not stopped and with no time control.
    pub closed spec fn fresh(self, size_mb: usize) -> bool {
        &&& self.tt.gen() == 0
        &&& self.tt.slots().len() >= size_mb * 65536
        &&& (self.tt.slots().len() < 2 * size_mb * 65536 || self.tt.slots().len() == 1)
        &&& forall|i: int| 0 <= i < self.tt.slots().len() ==> is_empty_entry(#[trigger] self.tt.slots()[i])
        &&& !self.stopped
        &&& self.time_manager is None
        &&& self.nodes == 0
    }

    /// The transposition table.
    pub closed spec fn table(self) -> TranspositionTable {
        self.tt
    }

    /// The evaluation tables and divisors in use.
    pub closed spec fn scoring(self) -> (PieceSquareTables, Divisors) {
        (self.evaluator.tables(), self.evaluator.divisors())
    }

    /// Whether the table holds a result for `hash` searched at least to
    /// `depth` (as a byte), which a search of that depth may use instead.
    pub closed spec fn cached(self, hash: u64, depth: i32) -> bool {
        found(self.tt.slots(), self.tt.slot_of(hash), hash) matches Some(e) && e.depth >= (depth as u8)
    }

    /// The time manager of the current search.
    pub closed spec fn timing(self) -> Option<TimeManager> {
        self.time_manager
    }

    /// A searcher with a 64 MB transposition table.
    pub fn new() -> (r: Searcher)
        ensures
            r.wf(),
    {
        Self::with_tt_size(64)
    }

    /// A searcher with a transposition table of `size_mb` megabytes.
    pub fn with_tt_size(size_mb: usize) -> (r: Searcher)
        requires
            size_mb <= 0x4000,
            size_mb * 1048576 <= usize::MAX,
        ensures
            r.wf(),
            r.fresh(size_mb),
    {
        let tt = TranspositionTable::new(size_mb);
        Searcher {
            evaluator: Evaluator::new(),
            tt,
            move_order: MoveOrder::new(),
            nodes: 0,
            time_manager: None,
            stopped: false,
        }
    }

    /// Store a result in the transposition table.
    /// Evaluate with these tuning parameters (the defaults for `None`).
    pub fn set_tuning(&mut self, tuning: Option<TuningParams>)
        requires
            old(self).wf(),
            divisors_ok(divisors_of(tuning)),
        ensures
            final(self).wf(),
            final(self).table() == old(self).table(),
            final(self).scoring() == (old(self).scoring().0, divisors_of(tuning)),
            final(self).halted() == old(self).halted(),
    {
        self.evaluator.set_tuning(tuning);
    }

    fn tt_store(&mut self, hash: u64, best_move: Move, score: i32, depth: u8, bound: Bound)
        requires
            old(self).wf(),
            score_ok(score as int),
        ensures
            final(self).wf(),
            final(self).never_stops() == old(self).never_stops(),
            final(self).timing() == old(self).timing(),
            final(self).halted() == old(self).halted(),
            final(self).scoring() == old(self).scoring(),
            final(self).move_order == old(self).move_order,
            stores(old(self).tt, final(self).tt, hash, best_move, score, depth, bound),
    {
        let ghost before = self.tt;
        proof {
            before.lemma_slot_in_range(hash);
        }
        self.tt.store(hash, best_move, score, depth, bound);
        proof {
            assert forall|i: int| 0 <= i < self.tt.slots().len() implies score_ok(#[trigger] self.tt.slots()[i].score as int) by {
                if i != before.slot_of(hash) {
                    assert(self.tt.slots()[i] == before.slots()[i]);
                }
            }
        }
    }

    /// The entry stored for `hash`, if any.
    fn tt_probe(&self, hash: u64) -> (r: Option<TTEntry>)
        requires
            self.wf(),
        ensures
            r matches Some(e) ==> score_ok(e.score as int),
            r == found(self.tt.slots(), self.tt.slot_of(hash), hash),
    {
        proof {
            self.tt.lemma_slot_in_range(hash);
        }
        match self.tt.probe(hash) {
            Some(e) => Some(*e),
            None => None,
        }
    }

    /// Whether the hard time limit has passed.
    fn hard_limit_passed(&self) -> (r: bool)
        ensures
            self.never_stops() ==> !r,
    {
        match &self.time_manager {
            Some(tm) => tm.must_stop(),
            None => false,
        }
    }

    /// The static evaluation of a position.
    fn evaluate(&mut self, board: &Board) -> (r: i32)
        requires
            old(self).wf(),
            board.wf(),
        ensures
            final(self).wf(),
            score_ok(r as int),
            final(self).never_stops() == old(self).never_stops(),
            final(self).timing() == old(self).timing(),
            final(self).halted() == old(self).halted(),
            final(self).table() == old(self).table(),
            final(self).scoring() == old(self).scoring(),
            r == evaluation(*board, old(self).scoring().0, old(self).scoring().1),
    {
        self.evaluator.evaluate(board)
    }

    /// Iterative deepening from depth 1 to `max_depth` under a time
    /// control: the first four depths with a full window, the later ones
    /// with an aspiration window around the previous score that widens on
    /// failure. It stops before a new depth once the search was stopped,
    /// the hard limit passed, the soft limit passed (after depth 1), the
    /// depth of a depth search was completed, or the nodes of a node search
    /// were used.
    pub fn search_with_limit(&mut self, board: &Board, max_depth: u32, time_control: TimeControl) -> (r: SearchResult)
        requires
            old(self).wf(),
            searchable(*board),
            max_depth < 0x1000_0000,
            time_control_fits(time_control, board.side() == Color::White),
        ensures
            final(self).wf(),
            r.depth <= max_depth,
            legal_line(*board, r.pv@),
            r.pv@.len() <= r.depth,
            score_ok(r.score as int),
            r.multi_pv@.len() == 0,
            !has_legal_move(*board) ==> r.best_move@ == 0 && r.pv@.len() == 0,
            r.depth > 0 && has_legal_move(*board) ==> r.pv@.len() >= 1 && r.best_move == r.pv@[0],
            r.depth > 0 && has_legal_move(*board) ==> legal_move(*board, r.best_move),
            time_control == TimeControl::Infinite ==> r.depth == max_depth,
            time_control matches TimeControl::Depth { depth } ==> r.depth == if depth < max_depth { depth } else { max_depth },
            r.depth > 0 && has_legal_move(*board) ==> exists|trace: Seq<RootStep>| #[trigger] root_outcome(*board, trace, r.score, r.best_move),
            r.depth >= 2 && has_legal_move(*board) && !final(self).halted() ==> exists|trace: Seq<RootStep>|
                #[trigger] root_outcome(*board, trace, r.score, r.best_move) && mates_scored(*board, trace),
            (time_control == TimeControl::Infinite || time_control is Depth) ==> !final(self).halted(),
            r.depth > 0 && has_legal_move(*board) && !final(self).halted() ==> exists|trace: Seq<RootStep>|
                #[trigger] root_outcome(*board, trace, r.score, r.best_move)
                && exists|a: int, bt: int, start: TranspositionTable, nodes: Seq<SearchNode>| #[trigger] root_explained(
                    old(self).scoring(), *board, r.depth as int, a, bt, trace, nodes, start),
    {
        let ghost sc = self.scoring();
        self.nodes = 0;
        self.tt.new_search();
        self.move_order.clear();
        self.stopped = false;
        let is_white = board.side_to_move() == Color::White;
        self.time_manager = Some(TimeManager::new(time_control, is_white));
        proof {
            let tm = self.time_manager.unwrap();
            assert((tm.soft(), tm.hard()) == limits(time_control, is_white));
        }
        let mut best_move = Move::null();
        let mut best_score: i32 = 0;
        let mut completed_depth: u32 = 0;
        let mut pv: Vec<Move> = Vec::new();
        let mut depth: u32 = 1;
        let ghost mut last: Seq<RootStep> = Seq::empty();
        let ghost mut last_nodes: Seq<SearchNode> = Seq::empty();
        while depth <= max_depth
            invariant
                self.scoring() == sc,
                completed_depth > 0 && !self.halted() ==> exists|a: int, bt: int, start: TranspositionTable|
                    #[trigger] root_explained(sc, *board, completed_depth as int, a, bt, last, last_nodes, start),
                completed_depth > 0 && has_legal_move(*board) ==> root_outcome(*board, last, best_score, best_move),
                completed_depth >= 2 && !self.halted() ==> mates_scored(*board, last),
                self.wf(),
                searchable(*board),
                max_depth < 0x1000_0000,
                1 <= depth <= max_depth + 1,
                completed_depth == depth - 1,
                score_ok(best_score as int),
                legal_line(*board, pv@),
                pv@.len() <= completed_depth,
                !has_legal_move(*board) ==> best_move@ == 0 && pv@.len() == 0,
                completed_depth > 0 && has_legal_move(*board) ==> pv@.len() >= 1 && best_move == pv@[0],
                self.timing() is Some,
                self.timing().unwrap().control() == time_control,
                (self.timing().unwrap().soft(), self.timing().unwrap().hard()) == limits(time_control, is_white),
                (time_control == TimeControl::Infinite || time_control is Depth) ==> self.never_stops(),
                time_control matches TimeControl::Depth { depth: d } ==> completed_depth <= d,
            ensures
                completed_depth <= max_depth,
                time_control == TimeControl::Infinite ==> completed_depth == max_depth,
                time_control matches TimeControl::Depth { depth: d } ==>
                    completed_depth == if d < max_depth { d } else { max_depth },
            decreases max_depth + 1 - depth,
        {
            if self.should_stop(depth) {
                break;
            }
            let ghost table_before = self.table();
            let (score, root_best, trace, nodes) = if depth <= 4 {
                self.search_root(board, depth)
            } else {
                self.aspiration_search(board, depth, best_score)
            };
            proof {
                last = trace@;
                last_nodes = nodes@;
                if depth <= 4 && !self.halted() {
                    assert(root_explained(sc, *board, depth as int, -INFINITY as int, INFINITY as int, last, last_nodes,
                        table_before));
                }
            }
            best_score = score;
            completed_depth = depth;
            let line = self.extract_pv(board, depth, root_best);
            if line.len() > 0 {
                best_move = line[0];
            }
            pv = line;
            depth += 1;
        }
        proof {
            if pv@.len() > 0 {
                assert(legal_move(*board, pv@[0]));
            }
            if completed_depth > 0 && has_legal_move(*board) {
                assert(root_outcome(*board, last, best_score, best_move));
                assert(completed_depth >= 2 && !self.halted() ==> mates_scored(*board, last));
                assert(exists|t: Seq<RootStep>| #[trigger] root_outcome(*board, t, best_score, best_move)
                    && (completed_depth >= 2 && !self.halted() ==> mates_scored(*board, t)));
                if !self.halted() {
                    let (a, bt, start) = choose|a: int, bt: int, start: TranspositionTable| #[trigger] root_explained(sc,
                        *board, completed_depth as int, a, bt, last, last_nodes, start);
                    assert(root_explained(sc, *board, completed_depth as int, a, bt, last, last_nodes, start));
                }
            }
        }
        let result = SearchResult { best_move, score: best_score, depth: completed_depth, nodes: self.nodes, pv, multi_pv: Vec::new() };
        proof {
            if result.depth > 0 && has_legal_move(*board) {
                assert(root_outcome(*board, last, result.score, result.best_move));
            }
        }
        result
    }

    /// A root search with an aspiration window around `previous`, widened
    /// by a growing step on each failure, and opened fully once the step
    /// passes 1000.
    fn aspiration_search(&mut self, board: &Board, depth: u32, previous: i32)
        -> (r: (i32, Option<Move>, Ghost<Seq<RootStep>>, Ghost<Seq<SearchNode>>))
        requires
            old(self).wf(),
            searchable(*board),
            1 <= depth < 0x1000_0000,
            score_ok(previous as int),
        ensures
            final(self).wf(),
            score_ok(r.0 as int),
            r.1 is None <==> !has_legal_move(*board),
            r.1 matches Some(m) ==> legal_move(*board, m) && root_outcome(*board, r.2@, r.0, m),
            !final(self).halted() && depth >= 2 ==> mates_scored(*board, r.2@),
            old(self).never_stops() ==> final(self).never_stops(),
            final(self).timing() == old(self).timing(),
            old(self).halted() ==> final(self).halted(),
            final(self).scoring() == old(self).scoring(),
            !final(self).halted() ==> exists|a: int, bt: int, start: TranspositionTable| #[trigger] root_explained(
                old(self).scoring(), *board, depth as int, a, bt, r.2@, r.3@, start),
    {
        let ghost sc = self.scoring();
        let mut alpha: i32 = clamp_score(previous as i64 - ASPIRATION_DELTA as i64);
        let mut beta: i32 = clamp_score(previous as i64 + ASPIRATION_DELTA as i64);
        let mut delta: i32 = ASPIRATION_DELTA;
        let mut tries: u32 = 0;
        let mut result = self.search_root_window(board, depth, alpha, beta);
        while tries < 32
            invariant
                self.wf(),
                searchable(*board),
                1 <= depth < 0x1000_0000,
                score_ok(alpha as int),
                score_ok(beta as int),
                50 <= delta <= 2000,
                score_ok(result.0 as int),
                result.1 is None <==> !has_legal_move(*board),
                result.1 matches Some(m) ==> legal_move(*board, m) && root_outcome(*board, result.2@, result.0, m),
                !self.halted() && depth >= 2 ==> mates_scored(*board, result.2@),
                old(self).halted() ==> self.halted(),
                old(self).never_stops() ==> self.never_stops(),
                self.timing() == old(self).timing(),
                self.scoring() == sc,
                !self.halted() ==> exists|a: int, bt: int, start: TranspositionTable| #[trigger] root_explained(
                    sc, *board, depth as int, a, bt, result.2@, result.3@, start),
            decreases 32 - tries,
        {
            let score = result.0;
            if score <= alpha {
                alpha = clamp_score(alpha as i64 - delta as i64);
            } else if score >= beta {
                beta = clamp_score(beta as i64 + delta as i64);
            } else {
                break;
            }
            if delta > 1000 {
                alpha = -INFINITY;
                beta = INFINITY;
            } else {
                delta = delta * 2;
            }
            result = self.search_root_window(board, depth, alpha, beta);
            tries += 1;
        }
        result
    }

    /// Convenience search to `max_depth` with no time limit.
    pub fn search(&mut self, board: &Board, max_depth: u32) -> (r: SearchResult)
        requires
            old(self).wf(),
            searchable(*board),
            max_depth < 0x1000_0000,
        ensures
            final(self).wf(),
            r.depth == max_depth,
            legal_line(*board, r.pv@),
            r.pv@.len() <= r.depth,
            score_ok(r.score as int),
            r.multi_pv@.len() == 0,
            !has_legal_move(*board) ==> r.best_move@ == 0 && r.pv@.len() == 0,
            r.depth > 0 && has_legal_move(*board) ==> r.pv@.len() >= 1 && r.best_move == r.pv@[0],
            r.depth > 0 && has_legal_move(*board) ==> legal_move(*board, r.best_move),
            r.depth > 0 && has_legal_move(*board) ==> exists|trace: Seq<RootStep>| #[trigger] root_outcome(*board, trace, r.score, r.best_move),
            r.depth >= 2 && has_legal_move(*board) ==> exists|trace: Seq<RootStep>|
                #[trigger] root_outcome(*board, trace, r.score, r.best_move) && mates_scored(*board, trace),
            r.depth > 0 && has_legal_move(*board) ==> exists|trace: Seq<RootStep>|
                #[trigger] root_outcome(*board, trace, r.score, r.best_move)
                && exists|a: int, bt: int, start: TranspositionTable, nodes: Seq<SearchNode>| #[trigger] root_explained(
                    old(self).scoring(), *board, r.depth as int, a, bt, trace, nodes, start),
    {
        self.search_with_limit(board, max_depth, TimeControl::Infinite)
    }

    /// Whether to stop before searching `current_depth`.
    fn should_stop(&self, current_depth: u32) -> (r: bool)
        requires
            current_depth >= 1,
        ensures
            ({
                let tm = self.timing().unwrap();
                (self.never_stops() && self.timing() is Some && tm.soft() is None) ==>
                    r == (depth_done(tm.control(), current_depth) || nodes_used(tm.control(), self.nodes))
            }),
    {
        if self.stopped {
            return true;
        }
        match &self.time_manager {
            Some(tm) => {
                if tm.must_stop() {
                    return true;
                }
                if current_depth > 1 && tm.should_stop() {
                    return true;
                }
                if tm.depth_limit_reached(current_depth - 1) {
                    return true;
                }
                if tm.node_limit_reached(self.nodes) {
                    return true;
                }
                false
            },
            None => false,
        }
    }

    /// Search the `num_pv` best root moves, each with the moves found
    /// before excluded; one line is a plain search.
    pub fn search_multi_pv(&mut self, board: &Board, max_depth: u32, num_pv: usize) -> (r: SearchResult)
        requires
            old(self).wf(),
            searchable(*board),
            max_depth < 0x1000_0000,
            num_pv <= 1 || (max_depth >= 1 && has_legal_move(*board)),
        ensures
            final(self).wf(),
            legal_line(*board, r.pv@),
            num_pv > 1 ==> {
                &&& 1 <= r.multi_pv@.len() <= num_pv
                &&& r.depth == max_depth
                &&& r.pv@ == r.multi_pv@[0].pv@
                &&& r.best_move == r.pv@[0]
                &&& r.score == r.multi_pv@[0].score
                &&& forall|i: int| 0 <= i < r.multi_pv@.len() ==>
                    (#[trigger] r.multi_pv@[i]).pv@.len() >= 1 && legal_line(*board, r.multi_pv@[i].pv@)
                &&& forall|i: int, j: int| 0 <= i < j < r.multi_pv@.len() ==>
                    (#[trigger] r.multi_pv@[i]).pv@[0] != (#[trigger] r.multi_pv@[j]).pv@[0]
                &&& r.multi_pv@.len() < num_pv ==> forall|m: Move| #[trigger] legal_move(*board, m) ==>
                    starts_some(r.multi_pv@, m)
                &&& forall|i: int, j: int| 0 <= i < j < r.multi_pv@.len() ==>
                    (#[trigger] r.multi_pv@[i]).score >= (#[trigger] r.multi_pv@[j]).score
            },
            num_pv <= 1 ==> r.depth == max_depth && r.multi_pv@.len() == 0,
            num_pv <= 1 && r.depth > 0 && has_legal_move(*board) ==> exists|trace: Seq<RootStep>|
                #[trigger] root_outcome(*board, trace, r.score, r.best_move)
                && exists|a: int, bt: int, start: TranspositionTable, nodes: Seq<SearchNode>| #[trigger] root_explained(
                    old(self).scoring(), *board, r.depth as int, a, bt, trace, nodes, start),
    {
        if num_pv <= 1 {
            return self.search(board, max_depth);
        }
        self.nodes = 0;
        self.tt.new_search();
        self.move_order.clear();
        let mut multi_pv: Vec<PVLine> = Vec::new();
        let mut excluded: Vec<Move> = Vec::new();
        let mut k: usize = 0;
        let mut done = false;
        proof {
            let m = choose|m: Move| #[trigger] legal_move(*board, m);
            assert(!excluded@.contains(m));
        }
        while k < num_pv && !done
            invariant
                self.wf(),
                searchable(*board),
                max_depth < 0x1000_0000,
                max_depth >= 1,
                has_legal_move(*board),
                k <= num_pv,
                multi_pv@.len() <= k,
                excluded@.len() == multi_pv@.len(),
                k > 0 ==> multi_pv@.len() >= 1,
                done ==> k > 0,
                k == 0 ==> excluded@.len() == 0,
                forall|i: int| 0 <= i < multi_pv@.len() ==>
                    (#[trigger] multi_pv@[i]).pv@.len() >= 1 && legal_line(*board, multi_pv@[i].pv@)
                    && excluded@[i] == multi_pv@[i].pv@[0],
                forall|i: int, j: int| 0 <= i < j < excluded@.len() ==> excluded@[i] != excluded@[j],
                !done ==> multi_pv@.len() == k,
                done ==> forall|m: Move| #[trigger] legal_move(*board, m) ==> excluded@.contains(m),
            decreases num_pv - k,
        {
            let result = self.search_excluding(board, max_depth, excluded.as_slice());
            if result.pv.len() == 0 {
                done = true;
            } else {
                let first = result.pv[0];
                proof {
                    assert forall|i: int| 0 <= i < excluded@.len() implies excluded@[i] != first by {
                        assert(excluded@.contains(excluded@[i]));
                    }
                }
                multi_pv.push(PVLine { score: result.score, pv: result.pv });
                excluded.push(first);
                proof {
                    assert forall|i: int, j: int| 0 <= i < j < excluded@.len() implies excluded@[i] != excluded@[j] by {
                        if j == excluded@.len() - 1 {
                            assert(excluded@[j] == first);
                        }
                    }
                }
            }
            k += 1;
        }
        proof {
            if multi_pv@.len() < num_pv {
                assert forall|m: Move| #[trigger] legal_move(*board, m) implies starts_some(multi_pv@, m) by {
                    let i = excluded@.index_of(m);
                    assert(excluded@[i] == multi_pv@[i].pv@[0]);
                }
            }
            assert forall|i: int| 0 <= i < multi_pv@.len() implies line_ok(*board, #[trigger] multi_pv@[i]) by {}
            assert forall|i: int, j: int| 0 <= i < j < multi_pv@.len() implies
                (#[trigger] multi_pv@[i]).pv@[0] != (#[trigger] multi_pv@[j]).pv@[0] by {
                assert(excluded@[i] == multi_pv@[i].pv@[0] && excluded@[j] == multi_pv@[j].pv@[0]);
            }
        }
        let sorted = sort_lines(Ghost(*board), &multi_pv);
        proof {
            assert(line_ok(*board, sorted@[0]));
            if multi_pv@.len() < num_pv {
                assert forall|m: Move| #[trigger] legal_move(*board, m) implies starts_some(sorted@, m) by {
                    assert(starts_some(multi_pv@, m));
                }
            }
        }
        let score = sorted[0].score;
        let pv = copy_moves(&sorted[0].pv);
        let best_move = pv[0];
        SearchResult { best_move, score, depth: max_depth, nodes: self.nodes, pv, multi_pv: sorted }
    }

    /// Iterative deepening to `max_depth` over the root moves not excluded;
    /// the line found starts with the best of them.
    fn search_excluding(&mut self, board: &Board, max_depth: u32, excluded: &[Move]) -> (r: SearchResult)
        requires
            old(self).wf(),
            searchable(*board),
            1 <= max_depth < 0x1000_0000,
        ensures
            final(self).wf(),
            legal_line(*board, r.pv@),
            r.pv@.len() >= 1 ==> !excluded@.contains(r.pv@[0]),
            (exists|m: Move| #[trigger] legal_move(*board, m) && !excluded@.contains(m)) ==> r.pv@.len() >= 1,
    {
        let mut best_move = Move::null();
        let mut best_score: i32 = 0;
        let mut pv: Vec<Move> = Vec::new();
        let mut depth: u32 = 1;
        while depth <= max_depth
            invariant
                self.wf(),
                searchable(*board),
                1 <= depth <= max_depth + 1,
                max_depth < 0x1000_0000,
                legal_line(*board, pv@),
                pv@.len() >= 1 ==> !excluded@.contains(pv@[0]),
                depth > 1 && (exists|m: Move| #[trigger] legal_move(*board, m) && !excluded@.contains(m)) ==> pv@.len() >= 1,
                score_ok(best_score as int),
            decreases max_depth + 1 - depth,
        {
            let (score, root_best) = self.search_root_excluding(board, depth, excluded);
            best_score = score;
            let line = self.extract_pv(board, depth, root_best);
            if line.len() > 0 {
                best_move = line[0];
            }
            pv = line;
            depth += 1;
        }
        SearchResult { best_move, score: best_score, depth: max_depth, nodes: self.nodes, pv, multi_pv: Vec::new() }
    }

    /// A full-window root search over the moves not excluded; returns the
    /// score and best move (none when no move is left).
    fn search_root_excluding(&mut self, board: &Board, depth: u32, excluded: &[Move]) -> (r: (i32, Option<Move>))
        requires
            old(self).wf(),
            searchable(*board),
            1 <= depth < 0x1000_0000,
        ensures
            final(self).wf(),
            score_ok(r.0 as int),
            r.1 matches Some(m) ==> legal_move(*board, m) && !excluded@.contains(m),
            r.1 is None ==> !(exists|m: Move| #[trigger] legal_move(*board, m) && !excluded@.contains(m)),
    {
        let all_moves = board.generate_legal_moves();
        let mut legal_moves = MoveList::new();
        let n = all_moves.len();
        let mut i: usize = 0;
        while i < n
            invariant
                n == all_moves@.len(),
                i <= n,
                lists_legal(*board, all_moves@),
                forall|x: Move| #[trigger] legal_moves@.contains(x) ==> legal_move(*board, x) && !excluded@.contains(x),
                forall|j: int| 0 <= j < i && !excluded@.contains(all_moves@[j]) ==> legal_moves@.contains(#[trigger] all_moves@[j]),
            decreases n - i,
        {
            let m = all_moves.get(i);
            let ghost before = legal_moves@;
            proof {
                assert(all_moves@.contains(m));
            }
            if !is_excluded(excluded, m) {
                legal_moves.push(m);
                proof {
                    assert(legal_moves@ == before.push(m));
                    assert(legal_moves@[before.len() as int] == m);
                    assert forall|x: Move| #[trigger] legal_moves@.contains(x) implies legal_move(*board, x) && !excluded@.contains(x) by {
                        let k = choose|k: int| 0 <= k < legal_moves@.len() && legal_moves@[k] == x;
                        if k < before.len() {
                            assert(before[k] == x);
                            assert(before.contains(x));
                        }
                    }
                    assert forall|j: int| 0 <= j < i && !excluded@.contains(all_moves@[j]) implies legal_moves@.contains(#[trigger] all_moves@[j]) by {
                        let y = all_moves@[j];
                        assert(before.contains(y));
                        let k = choose|k: int| 0 <= k < before.len() && before[k] == y;
                        assert(legal_moves@[k] == y);
                    }
                }
            }
            i += 1;
        }
        if legal_moves.is_empty() {
            proof {
                assert forall|m: Move| #[trigger] legal_move(*board, m) implies excluded@.contains(m) by {
                    assert(all_moves@.contains(m));
                    let j = choose|j: int| 0 <= j < all_moves@.len() && all_moves@[j] == m;
                    if !excluded@.contains(m) {
                        assert(legal_moves@.contains(all_moves@[j]));
                    }
                }
            }
            let score = if board.is_in_check() { -MATE_SCORE } else { 0 };
            return (score, None);
        }
        let tt_move = match self.tt_probe(board.hash()) {
            Some(e) => Some(e.best_move),
            None => None,
        };
        let ghost unordered = legal_moves@;
        self.move_order.order_moves(board, &mut legal_moves, 0, tt_move);
        proof {
            lemma_same_multiset_contains(legal_moves@, unordered);
        }
        let mut best_score: i32 = -INFINITY;
        let mut best_move = legal_moves.get(0);
        proof {
            assert(legal_moves@.contains(best_move));
        }
        let mut alpha: i32 = -INFINITY;
        let beta: i32 = INFINITY;
        let n = legal_moves.len();
        let mut i: usize = 0;
        while i < n
            invariant
                self.wf(),
                searchable(*board),
                1 <= depth < 0x1000_0000,
                n == legal_moves@.len(),
                i <= n,
                forall|m: Move| #[trigger] legal_moves@.contains(m) ==> legal_move(*board, m) && !excluded@.contains(m),
                legal_move(*board, best_move) && !excluded@.contains(best_move),
                score_ok(best_score as int),
                score_ok(alpha as int),
                beta == INFINITY,
            decreases n - i,
        {
            let m = legal_moves.get(i);
            proof {
                assert(legal_moves@.contains(m));
                lemma_pseudo_legal_makeable(*board, m);
            }
            let mut new_board = *board;
            new_board.make_move(m);
            let (child, Ghost(node)) = self.negamax(&new_board, (depth - 1) as i32, -beta, -alpha, 1);
            let score = -child;
            if score > best_score {
                best_score = score;
                best_move = m;
            }
            if score > alpha {
                alpha = score;
            }
            i += 1;
        }
        self.tt_store(board.hash(), best_move, best_score, #[verifier::truncate] (depth as u8), Bound::Exact);
        (best_score, Some(best_move))
    }

    /// A full-window root search.
    fn search_root(&mut self, board: &Board, depth: u32)
        -> (r: (i32, Option<Move>, Ghost<Seq<RootStep>>, Ghost<Seq<SearchNode>>))
        requires
            old(self).wf(),
            searchable(*board),
            1 <= depth < 0x1000_0000,
        ensures
            final(self).wf(),
            score_ok(r.0 as int),
            r.1 is None <==> !has_legal_move(*board),
            r.1 matches Some(m) ==> legal_move(*board, m) && root_outcome(*board, r.2@, r.0, m),
            r.1 is Some && (exists|m: Move| #[trigger] legal_move(*board, m) && !traced(r.2@, m)) ==> r.0 >= INFINITY,
            !final(self).halted() && depth >= 2 ==> mates_scored(*board, r.2@),
            old(self).never_stops() ==> final(self).never_stops(),
            final(self).timing() == old(self).timing(),
            old(self).halted() ==> final(self).halted(),
            final(self).scoring() == old(self).scoring(),
            !final(self).halted() ==> root_explained(old(self).scoring(), *board, depth as int, -INFINITY as int,
                INFINITY as int, r.2@, r.3@, old(self).table()),
    {
        self.search_root_window(board, depth, -INFINITY, INFINITY)
    }

    /// A root search with the window (`alpha`, `beta`); returns the score
    /// and the best move (none when there is no legal move, the score then
    /// being minus the mate score in check and zero otherwise).
    #[verifier::spinoff_prover]
    #[verifier::rlimit(90)]
    fn search_root_window(&mut self, board: &Board, depth: u32, alpha: i32, beta: i32)
        -> (r: (i32, Option<Move>, Ghost<Seq<RootStep>>, Ghost<Seq<SearchNode>>))
        requires
            old(self).wf(),
            searchable(*board),
            1 <= depth < 0x1000_0000,
            score_ok(alpha as int),
            score_ok(beta as int),
        ensures
            final(self).wf(),
            score_ok(r.0 as int),
            r.1 is None <==> !has_legal_move(*board),
            r.1 matches Some(m) ==> legal_move(*board, m) && root_outcome(*board, r.2@, r.0, m),
            r.1 is Some && (exists|m: Move| #[trigger] legal_move(*board, m) && !traced(r.2@, m)) ==> r.0 >= beta || alpha >= beta,
            !final(self).halted() && depth >= 2 ==> mates_scored(*board, r.2@),
            old(self).never_stops() ==> final(self).never_stops(),
            final(self).timing() == old(self).timing(),
            old(self).halted() ==> final(self).halted(),
            final(self).scoring() == old(self).scoring(),
            !final(self).halted() ==> root_explained(old(self).scoring(), *board, depth as int, alpha as int, beta as int,
                r.2@, r.3@, old(self).table()),
    {
        let ghost t0 = self.tt;
        let ghost sc = self.scoring();
        let mut alpha = alpha;
        let mut legal_moves = board.generate_legal_moves();
        if legal_moves.is_empty() {
            proof {
                assert forall|m: Move| !legal_move(*board, m) by {
                    if legal_move(*board, m) {
                        assert(legal_moves@.contains(m));
                    }
                }
            }
            let score = if board.is_in_check() { -MATE_SCORE } else { 0 };
            return (score, None, Ghost(Seq::empty()), Ghost(Seq::empty()));
        }
        let tt_move = match self.tt_probe(board.hash()) {
            Some(e) => Some(e.best_move),
            None => None,
        };
        let ghost unordered = legal_moves@;
        self.move_order.order_moves(board, &mut legal_moves, 0, tt_move);
        proof {
            lemma_same_multiset_contains(legal_moves@, unordered);
        }
        let mut best_score: i32 = -INFINITY;
        let mut best_move = legal_moves.get(0);
        proof {
            assert(legal_moves@.contains(best_move));
        }
        let n = legal_moves.len();
        let mut i: usize = 0;
        let mut cut = false;
        let ghost mut trace: Seq<RootStep> = Seq::empty();
        let ghost mut nodes: Seq<SearchNode> = Seq::empty();
        let ghost alpha0 = alpha;
        while i < n && !cut
            invariant
                self.scoring() == sc,
                nodes.len() == i,
                !self.halted() ==> root_explained(sc, *board, depth as int, alpha0 as int, beta as int, trace, nodes, t0),
                forall|j: int| 0 <= j < i ==> trace[j].1 == -(#[trigger] nodes[j]).value,
                forall|j: int| 0 <= j < i ==> (#[trigger] nodes[j]).before
                    == if j == 0 { t0 } else { nodes[j - 1].after },
                self.tt == if i == 0 { t0 } else { nodes[i - 1].after },
                alpha as int == alpha_after(alpha0 as int, step_scores(trace), i as int),
                i > 0 ==> best_score <= alpha,
                alpha == alpha0 || (i > 0 && alpha == best_score),
                cut ==> best_score >= beta || alpha0 >= beta,
                cut ==> i > 0,
                n > 0,
                trace.len() == i,
                forall|j: int| 0 <= j < i ==> (#[trigger] trace[j]).0 == legal_moves@[j],
                forall|j: int| 0 <= j < i ==> (#[trigger] trace[j]).1 <= best_score,
                i > 0 ==> exists|k: int| 0 <= k < i && (#[trigger] trace[k]).0 == best_move && trace[k].1 == best_score
                    && forall|j: int| 0 <= j < k ==> (#[trigger] trace[j]).1 < best_score,
                i == 0 ==> best_score == -INFINITY,
                !self.halted() && depth >= 2 ==> mates_scored(*board, trace),
                old(self).halted() ==> self.halted(),
                self.wf(),
                searchable(*board),
                1 <= depth < 0x1000_0000,
                n == legal_moves@.len(),
                i <= n,
                lists_legal(*board, legal_moves@),
                legal_move(*board, best_move),
                score_ok(best_score as int),
                score_ok(alpha as int),
                score_ok(beta as int),
                old(self).never_stops() ==> self.never_stops(),
                self.timing() == old(self).timing(),
            decreases n - i,
        {
            let m = legal_moves.get(i);
            proof {
                assert(legal_moves@.contains(m));
                lemma_pseudo_legal_makeable(*board, m);
            }
            let mut new_board = *board;
            let undo = new_board.make_move(m);
            proof {
                lemma_board_after(*board, m, new_board, undo);
            }
            let ghost clean = !self.cached(new_board.hash_value(), (depth - 1) as i32);
            let ghost prev = trace;
            let ghost prev_best = best_score;
            let ghost prev_nodes = nodes;
            let ghost was_halted = self.halted();
            let ghost old_alpha = alpha;
            let (child, Ghost(node)) = self.negamax(&new_board, (depth - 1) as i32, -beta, -alpha, 1);
            let score = -child;
            if i == 0 || score > best_score {
                best_score = score;
                best_move = m;
            }
            if score > alpha {
                alpha = score;
            }
            if alpha >= beta {
                cut = true;
            }
            proof {
                trace = prev.push((m, score, clean));
                nodes = prev_nodes.push(node);
                assert(trace[i as int] == (m, score, clean));
                assert forall|j: int| 0 <= j < i ==> #[trigger] trace[j] == prev[j] by {}
                assert forall|j: int| 0 <= j < i ==> #[trigger] nodes[j] == prev_nodes[j] by {}
                let ps = step_scores(prev);
                assert(step_scores(trace) =~= ps.push(score as int));
                assert forall|j: int| 0 <= j <= i implies
                    #[trigger] alpha_after(alpha0 as int, step_scores(trace), j) == alpha_after(alpha0 as int, ps, j) by {
                    lemma_scores_prefix(alpha0 as int, ps, score as int, j);
                }
                lemma_scores_step(alpha0 as int, step_scores(trace), i as int);
                if !self.halted() {
                    assert(!was_halted);
                    assert forall|j: int| 0 <= j < nodes.len() implies explains(sc.0, sc.1, #[trigger] nodes[j],
                        board_after(*board, trace[j].0), (depth - 1) as i32, -beta,
                        -alpha_after(alpha0 as int, step_scores(trace), j), 1) by {
                        if j < i {
                            assert(nodes[j] == prev_nodes[j]);
                            assert(trace[j] == prev[j]);
                        }
                    }
                }
                if i == 0 || score > prev_best {
                    assert(forall|j: int| 0 <= j < i ==> (#[trigger] trace[j]).1 < best_score);
                } else if i > 0 {
                    let k = choose|k: int| 0 <= k < i && (#[trigger] prev[k]).0 == best_move && prev[k].1 == best_score
                        && forall|j: int| 0 <= j < k ==> (#[trigger] prev[j]).1 < best_score;
                    assert(trace[k] == prev[k]);
                }
            }
            i += 1;
        }
        let bound = if best_score >= beta {
            Bound::Lower
        } else if best_score > alpha {
            Bound::Exact
        } else {
            Bound::Upper
        };
        self.tt_store(board.hash(), best_move, best_score, #[verifier::truncate] (depth as u8), bound);
        proof {
            assert(has_legal_move(*board));
            assert(trace.len() >= 1);
            let k = choose|k: int| 0 <= k < i && (#[trigger] trace[k]).0 == best_move && trace[k].1 == best_score
                && forall|j: int| 0 <= j < k ==> (#[trigger] trace[j]).1 < best_score;
            if !cut {
                assert forall|m: Move| #[trigger] legal_move(*board, m) implies traced(trace, m) by {
                    assert(legal_moves@.contains(m));
                    let j = choose|j: int| 0 <= j < legal_moves@.len() && legal_moves@[j] == m;
                    assert(trace[j].0 == m);
                }
            }
            assert forall|j: int| 0 <= j < trace.len() implies legal_move(*board, (#[trigger] trace[j]).0) by {
                assert(legal_moves@.contains(legal_moves@[j]));
            }
        }
        (best_score, Some(best_move), Ghost(trace), Ghost(nodes))
    }

    /// The principal variation: the root's best move, then the moves the
    /// transposition table holds for the positions that follow, as long as
    /// each is legal and no position repeats, up to `max_depth` moves.
    fn extract_pv(&self, board: &Board, max_depth: u32, root_best: Option<Move>) -> (pv: Vec<Move>)
        requires
            self.wf(),
            searchable(*board),
            root_best matches Some(m) ==> legal_move(*board, m),
        ensures
            legal_line(*board, pv@),
            pv@.len() <= max_depth,
            max_depth >= 1 && root_best is Some ==> pv@.len() >= 1 && pv@[0] == root_best.unwrap(),
            root_best is None ==> pv@.len() == 0,
    {
        let mut pv: Vec<Move> = Vec::new();
        let first = match root_best {
            Some(m) => m,
            None => {
                return pv;
            },
        };
        if max_depth == 0 {
            return pv;
        }
        let mut seen: Vec<u64> = Vec::new();
        seen.push(board.hash());
        proof {
            lemma_pseudo_legal_makeable(*board, first);
        }
        let mut current = *board;
        let undo = current.make_move(first);
        proof {
            lemma_board_after(*board, first, current, undo);
            assert(legal_line(*board, Seq::<Move>::empty()));
            assert(line_end(*board, Seq::<Move>::empty()) == *board);
            lemma_line_push(*board, Seq::<Move>::empty(), first);
            assert(Seq::<Move>::empty().push(first) =~= seq![first]);
        }
        pv.push(first);
        let mut step: u32 = 1;
        while step < max_depth
            invariant
                self.wf(),
                1 <= step <= max_depth,
                pv@.len() == step,
                pv@[0] == first,
                legal_line(*board, pv@),
                current == line_end(*board, pv@),
                current.wf(),
            decreases max_depth - step,
        {
            let hash = current.hash();
            if contains_hash(&seen, hash) {
                break;
            }
            seen.push(hash);
            let entry = match self.tt_probe(hash) {
                Some(e) => e,
                None => {
                    break;
                },
            };
            let m = entry.best_move;
            if !(current.halfmove_clock() < u32::MAX && current.fullmove_number() < u32::MAX) {
                break;
            }
            let moves = current.generate_legal_moves();
            if !list_contains(&moves, m) {
                break;
            }
            proof {
                lemma_pseudo_legal_makeable(current, m);
            }
            let ghost before = current;
            let undo = current.make_move(m);
            proof {
                lemma_board_after(before, m, current, undo);
                lemma_line_push(*board, pv@, m);
            }
            pv.push(m);
            step += 1;
        }
        pv
    }

    /// The score of the move at index `i` of the ordered list, from the
    /// mover's side: a late quiet move (from the fourth on, at depth 3 or
    /// more, neither capture nor promotion, not giving check and not out of
    /// check) is first searched one ply shallower (two from the seventh move
    /// at depth 6) with a null window, and again in full when it beats
    /// alpha; the first move gets the full window; the others a null window,
    /// searched again in full when the score falls inside the window. The
    /// searches made are returned beside the score.
    fn child_score(&mut self, board: &Board, new_board: &Board, m: Move, i: usize, depth: i32, alpha: i32,
        beta: i32, ply: u32) -> (r: (i32, Ghost<Seq<SearchNode>>))
        requires
            old(self).wf(),
            board.wf(),
            new_board.wf(),
            *new_board == board_after(*board, m),
            1 <= depth,
            ply as int + depth as int <= 0x1000_0000,
            score_ok(alpha as int),
            score_ok(beta as int),
            i > 0 ==> alpha < beta,
        ensures
            final(self).wf(),
            score_ok(r.0 as int),
            old(self).never_stops() ==> final(self).never_stops(),
            final(self).timing() == old(self).timing(),
            old(self).halted() ==> final(self).halted(),
            final(self).scoring() == old(self).scoring(),
            1 <= r.1@.len() <= 2,
            r.0 == -r.1@.last().value,
            r.1@[0].before == old(self).table(),
            r.1@.len() == 2 ==> r.1@[1].before == r.1@[0].after,
            r.1@.last().after == final(self).table(),
            r.1@.len() == 2 <==> researched(*board, m, i as int, depth, -r.1@[0].value, alpha as int, beta as int),
            !final(self).halted() ==> explains(old(self).scoring().0, old(self).scoring().1, r.1@[0], *new_board,
                first_depth(*board, m, i as int, depth), first_low(*board, m, i as int, depth, alpha as int, beta as int),
                -alpha, ply + 1),
            !final(self).halted() && r.1@.len() == 2 ==> explains(old(self).scoring().0, old(self).scoring().1,
                r.1@[1], *new_board, (depth - 1) as i32, -beta, -alpha, ply + 1),
            !final(self).halted() && 2 <= depth && searchable(*new_board) && in_check(*new_board)
                && !has_legal_move(*new_board) && !old(self).cached(new_board.hash_value(), (depth - 1) as i32) ==>
                r.0 == MATE_SCORE - (ply + 1) && final(self).table() == old(self).table(),
        decreases depth, 0int,
    {
        let ghost late = late_quiet(*board, m, i as int, depth);
        let can_reduce = i >= 3 && depth >= 3 && !m.is_capture() && !m.is_promotion()
            && !new_board.is_in_check() && !board.is_in_check();
        proof {
            assert(can_reduce == late);
        }
        let mut score: i32;
        let ghost mut tries: Seq<SearchNode>;
        if can_reduce {
            let reduction: i32 = if i >= 6 && depth >= 6 { 2 } else { 1 };
            let (v, Ghost(n0)) = self.negamax(new_board, depth - 1 - reduction, -alpha - 1, -alpha, ply + 1);
            score = -v;
            proof {
                tries = seq![n0];
            }
            if score > alpha {
                let (w, Ghost(n1)) = self.negamax(new_board, depth - 1, -beta, -alpha, ply + 1);
                score = -w;
                proof {
                    tries = seq![n0, n1];
                }
            }
        } else if i == 0 {
            let (v, Ghost(n0)) = self.negamax(new_board, depth - 1, -beta, -alpha, ply + 1);
            score = -v;
            proof {
                tries = seq![n0];
            }
        } else {
            let (v, Ghost(n0)) = self.negamax(new_board, depth - 1, -alpha - 1, -alpha, ply + 1);
            score = -v;
            proof {
                tries = seq![n0];
            }
            if score > alpha && score < beta {
                let (w, Ghost(n1)) = self.negamax(new_board, depth - 1, -beta, -alpha, ply + 1);
                score = -w;
                proof {
                    tries = seq![n0, n1];
                }
            }
        }
        (score, Ghost(tries))
    }

    /// Negamax search with alpha-beta pruning to `depth` plies, `ply`
    /// plies from the root; the score is from the side to move's side. The
    /// search as it ran is returned beside the score.
    #[verifier::spinoff_prover]
    #[verifier::rlimit(80)]
    fn negamax(&mut self, board: &Board, depth: i32, alpha: i32, beta: i32, ply: u32) -> (r: (i32, Ghost<SearchNode>))
        requires
            old(self).wf(),
            board.wf(),
            0 <= depth,
            ply as int + depth as int <= 0x1000_0000,
            score_ok(alpha as int),
            score_ok(beta as int),
        ensures
            final(self).wf(),
            score_ok(r.0 as int),
            old(self).never_stops() ==> final(self).never_stops(),
            final(self).timing() == old(self).timing(),
            old(self).halted() ==> final(self).halted(),
            final(self).scoring() == old(self).scoring(),
            r.1@.value == r.0,
            r.1@.before == old(self).table(),
            r.1@.after == final(self).table(),
            !final(self).halted() ==> explains(old(self).scoring().0, old(self).scoring().1, r.1@, *board, depth,
                alpha as int, beta as int, ply as int),
            !final(self).halted() && !old(self).cached(board.hash_value(), depth) && 1 <= depth && searchable(*board)
                && !has_legal_move(*board) ==> {
                &&& in_check(*board) ==> r.0 == -MATE_SCORE + ply && final(self).table() == old(self).table()
                &&& !in_check(*board) ==> (r.0 == 0 || r.0 == beta)
                &&& !in_check(*board) && depth < 3 ==> r.0 == 0
            },
        decreases depth, 1int,
    {
        let ghost t0 = self.tt;
        let ghost sc = self.scoring();
        let ghost pst = sc.0;
        let ghost dv = sc.1;
        let ghost empty_tries: Seq<Seq<SearchNode>> = Seq::empty();
        let mut alpha = alpha;
        self.nodes = self.nodes.wrapping_add(1);
        if self.nodes % 1024 == 0 {
            if self.hard_limit_passed() {
                self.stopped = true;
                return (0, Ghost(SearchNode { value: 0, before: t0, after: t0, null_board: *board,
                    null_try: Seq::empty(), quiet: Seq::empty(), moves: Seq::empty(), tries: empty_tries }));
            }
        }
        if self.stopped {
            return (0, Ghost(SearchNode { value: 0, before: t0, after: t0, null_board: *board,
                null_try: Seq::empty(), quiet: Seq::empty(), moves: Seq::empty(), tries: empty_tries }));
        }
        let original_alpha = alpha;
        let hash = board.hash();
        let mut tt_move: Option<Move> = None;
        let probe = self.tt_probe(hash);
        let ghost leaf = |v: i32| SearchNode { value: v, before: t0, after: t0, null_board: *board,
            null_try: Seq::empty(), quiet: Seq::empty(), moves: Seq::empty(), tries: empty_tries };
        match probe {
            Some(entry) => {
                let d: u8 = #[verifier::truncate] (depth as u8);
                if entry.depth >= d {
                    match entry.bound {
                        Bound::Exact => {
                            proof {
                                lemma_explains_leaf(pst, dv, leaf(entry.score), *board, depth, original_alpha as int,
                                    beta as int, ply as int);
                            }
                            return (entry.score, Ghost(leaf(entry.score)));
                        },
                        Bound::Lower => {
                            if entry.score > alpha {
                                alpha = entry.score;
                            }
                        },
                        Bound::Upper => {
                            if entry.score < beta {
                                proof {
                                    lemma_explains_leaf(pst, dv, leaf(entry.score), *board, depth,
                                        original_alpha as int, beta as int, ply as int);
                                }
                                return (entry.score, Ghost(leaf(entry.score)));
                            }
                        },
                    }
                    if alpha >= beta {
                        proof {
                            lemma_explains_leaf(pst, dv, leaf(entry.score), *board, depth, original_alpha as int,
                                beta as int, ply as int);
                        }
                        return (entry.score, Ghost(leaf(entry.score)));
                    }
                }
                tt_move = Some(entry.best_move);
            },
            None => {},
        }
        let ghost a1 = alpha as int;
        proof {
            assert(probe_answer(probe, depth, original_alpha as int, beta as int) is None);
            assert(probe_alpha(probe, depth, original_alpha as int) == a1);
        }
        let counters_ok = board.halfmove_clock() < u32::MAX && board.fullmove_number() < u32::MAX;
        let ghost mut null_try: Seq<SearchNode> = Seq::empty();
        let ghost mut null_board_g: Board = *board;
        if depth >= 3 && counters_ok && !board.is_in_check() && !is_endgame(board)
            && -(MATE_SCORE - MAX_DEPTH as i32) < beta && beta < MATE_SCORE - MAX_DEPTH as i32
        {
            let mut null_board = *board;
            null_board.make_null_move();
            let (nv, Ghost(nn)) = self.negamax(&null_board, depth - 1 - 2, -beta, -beta + 1, ply + 1);
            let null_score = -nv;
            proof {
                null_try = seq![nn];
                null_board_g = null_board;
            }
            proof {
                assert(null_try[0].value == nv);
            }
            if null_score >= beta {
                let ghost node = SearchNode { value: beta, before: t0, after: self.tt, null_board: null_board_g,
                    null_try, quiet: Seq::empty(), moves: Seq::empty(), tries: empty_tries };
                proof {
                    assert(null_allowed(*board, depth, beta as int));
                    if !self.halted() {
                        lemma_explains_end(pst, dv, node, *board, depth, original_alpha as int, beta as int, ply as int);
                    }
                }
                return (beta, Ghost(node));
            }
        }
        let ghost nul = null_allowed(*board, depth, beta as int);
        let ghost t1 = self.tt;
        let ghost h1 = self.halted();
        proof {
            assert(nul ==> null_try.len() == 1 && t1 == null_try[0].after);
            assert(!nul ==> t1 == t0);
        }
        if depth <= 0 || !counters_ok {
            let (v, Ghost(q)) = self.quiesce(board, alpha, beta);
            let ghost node = SearchNode { value: v, before: t0, after: self.tt, null_board: null_board_g,
                null_try, quiet: seq![q], moves: Seq::empty(), tries: empty_tries };
            proof {
                if !self.halted() {
                    lemma_explains_end(pst, dv, node, *board, depth, original_alpha as int, beta as int, ply as int);
                }
            }
            return (v, Ghost(node));
        }
        let mut legal_moves = board.generate_legal_moves();
        if legal_moves.is_empty() {
            let v = if board.is_in_check() { -MATE_SCORE + ply as i32 } else { 0 };
            proof {
                assert forall|m: Move| !legal_move(*board, m) by {
                    if legal_move(*board, m) {
                        assert(legal_moves@.contains(m));
                    }
                }
            }
            let ghost node = SearchNode { value: v, before: t0, after: self.tt, null_board: null_board_g,
                null_try, quiet: Seq::empty(), moves: Seq::empty(), tries: empty_tries };
            proof {
                if !self.halted() {
                    lemma_explains_end(pst, dv, node, *board, depth, original_alpha as int, beta as int, ply as int);
                }
            }
            return (v, Ghost(node));
        }
        proof {
            assert(legal_moves@.contains(legal_moves@[0]));
            assert(legal_move(*board, legal_moves@[0]));
            assert(has_legal_move(*board));
        }
        let ghost unordered = legal_moves@;
        self.move_order.order_moves(board, &mut legal_moves, ply as usize, tt_move);
        proof {
            lemma_same_multiset_contains(legal_moves@, unordered);
        }
        let mut best_score: i32 = -INFINITY;
        let mut best_move = legal_moves.get(0);
        let n = legal_moves.len();
        let mut i: usize = 0;
        let mut cut = false;
        let ghost mut tries: Seq<Seq<SearchNode>> = Seq::empty();
        assert(tried(pst, dv, *board, legal_moves@, depth, a1, beta as int, ply as int, t1, tries, self.halted())) by {
            reveal(tried);
        }
        while i < n && !cut
            invariant
                self.wf(),
                searchable(*board),
                1 <= depth,
                ply as int + depth as int <= 0x1000_0000,
                n == legal_moves@.len(),
                i <= n,
                lists_legal(*board, legal_moves@),
                score_ok(best_score as int),
                score_ok(alpha as int),
                score_ok(beta as int),
                i > 0 && !cut ==> alpha < beta,
                old(self).never_stops() ==> self.never_stops(),
                self.timing() == old(self).timing(),
                old(self).halted() ==> self.halted(),
                self.scoring() == sc,
                tries.len() == i,
                tried(pst, dv, *board, legal_moves@, depth, a1, beta as int, ply as int, t1, tries, self.halted()),
                pst == sc.0,
                dv == sc.1,
                h1 ==> self.halted(),
                self.tt == if i == 0 { t1 } else { tries[i - 1].last().after },
                alpha as int == alpha_after(a1, try_scores(tries), i as int),
                best_score as int == best_after(try_scores(tries), i as int),
                best_move == legal_moves@[best_index(try_scores(tries), i as int)],
                0 <= best_index(try_scores(tries), i as int) < n,
                forall|j: int| 1 <= j < i ==> #[trigger] alpha_after(a1, try_scores(tries), j) < beta,
                cut ==> i >= 1 && alpha >= beta,
            decreases n - i,
        {
            let m = legal_moves.get(i);
            proof {
                assert(legal_moves@.contains(m));
                lemma_pseudo_legal_makeable(*board, m);
            }
            let mut new_board = *board;
            let undo = new_board.make_move(m);
            proof {
                lemma_board_after(*board, m, new_board, undo);
            }
            let ghost prev = tries;
            let ghost ps = try_scores(prev);
            let ghost was_halted = self.halted();
            let ghost old_alpha = alpha;
            let (score, Ghost(tr)) = self.child_score(board, &new_board, m, i, depth, alpha, beta, ply);
            let ghost after_child = *self;
            proof {
                assert(!after_child.halted() ==> explains(sc.0, sc.1, tr[0], new_board,
                    first_depth(*board, m, i as int, depth), first_low(*board, m, i as int, depth, old_alpha as int,
                    beta as int), -old_alpha, ply + 1));
            }
            if score > best_score {
                best_score = score;
                best_move = m;
            }
            if score > alpha {
                alpha = score;
            }
            if alpha >= beta {
                if !m.is_capture() {
                    self.move_order.store_killer(m, ply as usize);
                    self.move_order.update_history(m, depth);
                }
                cut = true;
            }
            proof {
                assert(prev.len() == i);
                assert(m == legal_moves@[i as int]);
                assert(new_board == board_after(*board, legal_moves@[i as int]));
                assert(alpha_after(a1, ps, i as int) == old_alpha as int);
                assert(score == -tr.last().value);
                assert(after_child.halted() == self.halted());
                assert(!self.halted() ==> explains(pst, dv, tr[0], board_after(*board, legal_moves@[i as int]),
                    first_depth(*board, legal_moves@[i as int], i as int, depth),
                    first_low(*board, legal_moves@[i as int], i as int, depth, old_alpha as int, beta as int),
                    -old_alpha, ply + 1));
                lemma_tried_push(pst, dv, *board, legal_moves@, depth, a1, beta as int, ply as int, t1, prev, tr,
                    was_halted, self.halted());
                tries = prev.push(tr);
                assert(try_scores(tries) == ps.push(score as int));
                assert(try_scores(tries)[i as int] == score);
                assert forall|j: int| 0 <= j <= i implies
                    #[trigger] alpha_after(a1, try_scores(tries), j) == alpha_after(a1, ps, j)
                    && best_after(try_scores(tries), j) == best_after(ps, j)
                    && best_index(try_scores(tries), j) == best_index(ps, j) by {
                    lemma_scores_prefix(a1, ps, score as int, j);
                }
                lemma_scores_step(a1, try_scores(tries), i as int);
                assert(alpha_after(a1, try_scores(tries), i as int + 1)
                    == if score > old_alpha { score as int } else { old_alpha as int });
                assert(best_after(try_scores(tries), i as int + 1)
                    == if score > best_after(ps, i as int) { score as int } else { best_after(ps, i as int) });
                assert(best_index(try_scores(tries), i as int + 1)
                    == if score > best_after(ps, i as int) { i as int } else { best_index(ps, i as int) });
                assert forall|j: int| 1 <= j < i + 1 implies #[trigger] alpha_after(a1, try_scores(tries), j) < beta by {
                    if j < i {
                        assert(alpha_after(a1, ps, j) < beta);
                    }
                }
            }
            i += 1;
        }
        let bound = if best_score >= beta {
            Bound::Lower
        } else if best_score > original_alpha {
            Bound::Exact
        } else {
            Bound::Upper
        };
        self.tt_store(hash, best_move, best_score, #[verifier::truncate] (depth as u8), bound);
        let ghost node = SearchNode { value: best_score, before: t0, after: self.tt, null_board: null_board_g,
            null_try, quiet: Seq::empty(), moves: legal_moves@, tries };
        proof {
            if !self.halted() {
                assert(cut_at(a1, beta as int, try_scores(tries), i as int, n as int));
                assert(i >= 1);
                assert(t1 == if nul { null_try[0].after } else { t0 });
                assert(nul ==> -null_try[0].value < beta);
                assert(!h1);
                assert(null_allowed(*board, depth, beta as int) ==> nulled(*board, null_board_g));
                assert(tried(pst, dv, *board, legal_moves@, depth, a1, beta as int, ply as int, t1, tries, false));
                assert(stores(tries[i - 1].last().after, self.tt, hash, legal_moves@[best_index(try_scores(tries), i as int)],
                    best_score, depth as u8, bound_for(best_score as int, original_alpha as int, beta as int)));
                lemma_explains_moves(pst, dv, node, *board, depth, original_alpha as int, beta as int, ply as int, t1);
            }
        }
        (best_score, Ghost(node))
    }

    /// Quiescence search: only captures are searched, from a stand-pat
    /// score, until the position is quiet. The search as it ran is
    /// returned beside the score.
    #[verifier::spinoff_prover]
    #[verifier::rlimit(90)]
    fn quiesce(&mut self, board: &Board, low: i32, beta: i32) -> (r: (i32, Ghost<QNode>))
        requires
            old(self).wf(),
            board.wf(),
            score_ok(low as int),
            score_ok(beta as int),
        ensures
            final(self).wf(),
            score_ok(r.0 as int),
            old(self).never_stops() ==> final(self).never_stops(),
            final(self).timing() == old(self).timing(),
            old(self).halted() ==> final(self).halted(),
            final(self).table() == old(self).table(),
            final(self).scoring() == old(self).scoring(),
            r.1@.value == r.0,
            !final(self).halted() ==> q_explains(old(self).scoring().0, old(self).scoring().1, r.1@, *board,
                low as int, beta as int),
        decreases piece_total(*board),
    {
        let ghost sc = self.scoring();
        let ghost alpha_in = low as int;
        let mut alpha = low;
        self.nodes = self.nodes.wrapping_add(1);
        let ghost empty: Seq<QNode> = Seq::empty();
        if self.stopped {
            return (0, Ghost(QNode { value: 0, moves: Seq::empty(), children: empty }));
        }
        let stand_pat = self.evaluate(board);
        if stand_pat >= beta {
            let ghost node = QNode { value: beta, moves: Seq::empty(), children: empty };
            proof {
                reveal(q_explains);
            }
            return (beta, Ghost(node));
        }
        if stand_pat > alpha {
            alpha = stand_pat;
        }
        let ghost a0 = alpha as int;
        if !(board.halfmove_clock() < u32::MAX && board.fullmove_number() < u32::MAX) {
            let ghost node = QNode { value: alpha, moves: Seq::empty(), children: empty };
            proof {
                reveal(q_explains);
            }
            return (alpha, Ghost(node));
        }
        let moves = board.generate_legal_moves();
        let n = moves.len();
        let mut i: usize = 0;
        let ghost mut children: Seq<QNode> = Seq::empty();
        assert(q_done(sc.0, sc.1, *board, moves@, a0, beta as int, children, self.halted())) by {
            reveal(q_done);
        }
        while i < n
            invariant
                self.wf(),
                searchable(*board),
                n == moves@.len(),
                i <= n,
                lists_legal(*board, moves@),
                score_ok(alpha as int),
                score_ok(beta as int),
                old(self).never_stops() ==> self.never_stops(),
                self.timing() == old(self).timing(),
                old(self).halted() ==> self.halted(),
                self.table() == old(self).table(),
                self.scoring() == old(self).scoring(),
                sc == old(self).scoring(),
                children.len() == i,
                alpha as int == alpha_after(a0, q_scores(moves@, children), i as int),
                q_done(sc.0, sc.1, *board, moves@, a0, beta as int, children, self.halted()),
                stand_pat as int == evaluation(*board, sc.0, sc.1),
                stand_pat < beta,
                a0 == if stand_pat > alpha_in { stand_pat as int } else { alpha_in },
                alpha_in == low as int,
            decreases n - i,
        {
            let m = moves.get(i);
            let ghost prev = children;
            let ghost was_halted = self.halted();
            if m.is_capture() {
                proof {
                    assert(moves@.contains(m));
                    lemma_pseudo_legal_makeable(*board, m);
                }
                let mut new_board = *board;
                let undo = new_board.make_move(m);
                proof {
                    lemma_capture_shrinks(*board, m, new_board, undo);
                    lemma_board_after(*board, m, new_board, undo);
                }
                let (child, Ghost(cn)) = self.quiesce(&new_board, -beta, -alpha);
                let score = -child;
                proof {
                    lemma_q_push(sc.0, sc.1, *board, moves@, a0, beta as int, prev, cn, was_halted, self.halted());
                    children = prev.push(cn);
                }
                if score >= beta {
                    let ghost node = QNode { value: beta, moves: moves@, children };
                    proof {
                        assert(m == moves@[i as int]);
                        if !self.halted() {
                            lemma_q_explains_moves(sc.0, sc.1, node, *board, alpha_in, beta as int);
                        }
                    }
                    return (beta, Ghost(node));
                }
                if score > alpha {
                    alpha = score;
                }
            } else {
                proof {
                    let filler = QNode { value: 0, moves: Seq::empty(), children: empty };
                    lemma_q_push(sc.0, sc.1, *board, moves@, a0, beta as int, prev, filler, was_halted, self.halted());
                    children = prev.push(filler);
                }
            }
            i += 1;
        }
        let ghost node = QNode { value: alpha, moves: moves@, children };
        proof {
            if !self.halted() {
                reveal(q_done);
                lemma_q_explains_moves(sc.0, sc.1, node, *board, alpha_in, beta as int);
            }
        }
        (alpha, Ghost(node))
    }
}

impl Default for Searcher {
    fn default() -> (r: Searcher)
        ensures
            r.wf(),
    {
        Searcher::new()
    }
}

} // verus!
