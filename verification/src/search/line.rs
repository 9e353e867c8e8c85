//! Facts shared by the searchers: legal lines of moves, the bound on
//! scores, and the piece count that captures reduce.
use vstd::prelude::*;
use crate::board::{Board, UndoInfo, made, moved, placed, victim_square, code_capture, code_ep, code_castle};
use crate::chess_move::{Move, mv_code, mv_from, mv_to, lemma_move_parts};
use crate::legality::legal;
use crate::movegen::{pseudo_legal, lemma_pseudo_legal_makeable, enemy_on};
use crate::movelist::MoveList;
use crate::perft::{legal_move, board_after, lemma_board_after};
use crate::piece::Piece;

verus! {

/// Scores and search windows stay within this bound (evaluations are
/// within a billion centipawns).
pub open spec fn score_ok(s: int) -> bool {
    -1_000_000_001 <= s <= 1_000_000_001
}

/// Whether a board can be searched: well formed, with room on both move
/// counters for one more move.
pub open spec fn searchable(b: Board) -> bool {
    &&& b.wf()
    &&& b.halfmove() < u32::MAX
    &&& b.fullmove() < u32::MAX
}

/// Whether the position has a legal move.
pub open spec fn has_legal_move(b: Board) -> bool {
    exists|m: Move| #[trigger] legal_move(b, m)
}

/// Whether `pv` is a line of legal moves, each played in the position the
/// previous ones lead to.
pub open spec fn legal_line(b: Board, pv: Seq<Move>) -> bool
    decreases pv.len(),
{
    if pv.len() == 0 {
        true
    } else {
        legal_move(b, pv[0]) && legal_line(board_after(b, pv[0]), pv.drop_first())
    }
}

/// The position at the end of a line.
pub open spec fn line_end(b: Board, pv: Seq<Move>) -> Board
    decreases pv.len(),
{
    if pv.len() == 0 {
        b
    } else {
        line_end(board_after(b, pv[0]), pv.drop_first())
    }
}

/// A legal line extended by a legal move at its end is legal.
pub proof fn lemma_line_push(b: Board, pv: Seq<Move>, m: Move)
    requires
        legal_line(b, pv),
        legal_move(line_end(b, pv), m),
    ensures
        legal_line(b, pv.push(m)),
        line_end(b, pv.push(m)) == board_after(line_end(b, pv), m),
    decreases pv.len(),
{
    let q = pv.push(m);
    if pv.len() == 0 {
        assert(q.drop_first() =~= Seq::<Move>::empty());
        assert(q[0] == m);
        let a = board_after(b, m);
        assert(legal_line(a, q.drop_first()));
        assert(line_end(a, q.drop_first()) == a);
        assert(line_end(b, pv) == b);
    } else {
        let a = board_after(b, pv[0]);
        lemma_line_push(a, pv.drop_first(), m);
        assert(q.drop_first() =~= pv.drop_first().push(m));
        assert(q[0] == pv[0]);
        assert(line_end(b, pv) == line_end(a, pv.drop_first()));
    }
}

/// Whether a move is in a list.
pub fn list_contains(moves: &MoveList, m: Move) -> (r: bool)
    ensures
        r == moves@.contains(m),
{
    let n = moves.len();
    let mut i: usize = 0;
    while i < n
        invariant
            n == moves@.len(),
            i <= n,
            forall|j: int| 0 <= j < i ==> moves@[j] != m,
        decreases n - i,
    {
        if moves.get(i) == m {
            assert(moves@[i as int] == m);
            return true;
        }
        i += 1;
    }
    false
}

/// The number of occupied squares among the first `n` of a placement.
pub open spec fn occupied_count(s: Seq<Option<Piece>>, n: int) -> nat
    decreases n,
{
    if n <= 0 {
        0
    } else {
        occupied_count(s, n - 1) + if s[n - 1] is Some { 1nat } else { 0nat }
    }
}

/// The number of pieces on the board.
pub open spec fn piece_total(b: Board) -> nat {
    occupied_count(b.mailbox(), 64)
}

proof fn lemma_count_prefix(s: Seq<Option<Piece>>, t: Seq<Option<Piece>>, n: int)
    requires
        forall|j: int| 0 <= j < n ==> #[trigger] s[j] == t[j],
    ensures
        occupied_count(s, n) == occupied_count(t, n),
    decreases n,
{
    if n > 0 {
        lemma_count_prefix(s, t, n - 1);
    }
}

proof fn lemma_count_update(s: Seq<Option<Piece>>, n: int, i: int, v: Option<Piece>)
    requires
        0 <= i < n <= s.len(),
    ensures
        occupied_count(s.update(i, v), n) + (if s[i] is Some { 1int } else { 0int })
            == occupied_count(s, n) + (if v is Some { 1int } else { 0int }),
    decreases n,
{
    if i < n - 1 {
        lemma_count_update(s, n - 1, i, v);
    } else {
        lemma_count_prefix(s.update(i, v), s, n - 1);
    }
}

/// A pseudo-legal capture takes one piece off the board.
pub proof fn lemma_capture_shrinks(b: Board, m: Move, a: Board, u: UndoInfo)
    requires
        b.wf(),
        pseudo_legal(b, m),
        code_capture(mv_code(m@)),
        made(b, m, a, u),
    ensures
        piece_total(a) + 1 == piece_total(b),
{
    lemma_move_parts(m);
    b.lemma_mailbox();
    a.lemma_mailbox();
    let us = b.side();
    let from = mv_from(m@);
    let to = mv_to(m@);
    let code = mv_code(m@);
    let mb = b.mailbox();
    let v = victim_square(us, to, code);
    assert(!code_castle(code));
    assert(0 <= v < 64 && mb[v] is Some && mb[from as int] is Some && from as int != v && from != to);
    assert(code_ep(code) ==> mb[to as int] is None && to as int != v);
    assert(!code_ep(code) ==> to as int == v);
    let m1 = mb.update(v, None);
    let m2 = m1.update(from as int, None);
    let m3 = placed(mb, us, from, to, code);
    lemma_count_update(mb, 64, v, None);
    lemma_count_update(m1, 64, from as int, None);
    lemma_count_update(m2, 64, to as int, m3[to as int]);
    assert(m3 =~= m2.update(to as int, m3[to as int]));
    assert(moved(mb, us, from, to, code) == m3);
    assert(a.mailbox() =~= m3);
}

} // verus!
