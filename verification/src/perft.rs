use vstd::prelude::*;
use crate::board::{Board, UndoInfo, made, lemma_made_unique};
use crate::chess_move::{Move, move_with_bits, lemma_move_with_bits, uci_text};
use crate::legality::legal;
use crate::movegen::{pseudo_legal, lemma_pseudo_legal_makeable};
use crate::movelist::MoveList;

verus! {

/// A legal move of the side to move.
pub open spec fn legal_move(b: Board, m: Move) -> bool {
    pseudo_legal(b, m) && legal(b, m)
}

/// The board after a move.
pub open spec fn board_after(b: Board, m: Move) -> Board {
    (choose|a: Board, u: UndoInfo| #[trigger] made(b, m, a, u)).0
}

/// The number of leaf positions `depth` plies below `b`: one at depth
/// zero, else the sum over the legal moves of the count below the
/// position after the move.
pub open spec fn perft_count(b: Board, depth: nat) -> nat
    decreases depth, 65537nat,
{
    if depth == 0 {
        1
    } else {
        perft_sum(b, depth, 65536)
    }
}

/// The sum of the counts below the legal moves among the first `k`
/// packings.
pub open spec fn perft_sum(b: Board, depth: nat, k: nat) -> nat
    decreases depth, k,
{
    if depth == 0 || k == 0 {
        0
    } else {
        let m = move_with_bits((k - 1) as u16);
        perft_sum(b, depth, (k - 1) as nat) + if legal_move(b, m) {
            perft_count(board_after(b, m), (depth - 1) as nat)
        } else {
            0
        }
    }
}

/// The count below move `m`.
pub open spec fn count_below(b: Board, depth: nat, m: Move) -> nat {
    perft_count(board_after(b, m), (depth - 1) as nat)
}

/// The sum of the counts below the moves of a list.
pub open spec fn list_sum(b: Board, depth: nat, l: Seq<Move>) -> nat
    decreases l.len(),
{
    if l.len() == 0 {
        0
    } else {
        list_sum(b, depth, l.drop_last()) + count_below(b, depth, l.last())
    }
}

/// The sum of the counts below the moves of a list among the first `k`
/// packings.
pub open spec fn masked_sum(b: Board, depth: nat, k: nat, l: Seq<Move>) -> nat
    decreases k,
{
    if k == 0 {
        0
    } else {
        let m = move_with_bits((k - 1) as u16);
        masked_sum(b, depth, (k - 1) as nat, l) + if l.contains(m) { count_below(b, depth, m) } else { 0 }
    }
}

/// Adding one move to a list adds its count once it is among the packings.
proof fn lemma_masked_push(b: Board, depth: nat, k: nat, l: Seq<Move>, e: Move)
    requires
        !l.contains(e),
        k <= 65536,
    ensures
        masked_sum(b, depth, k, l.push(e)) == masked_sum(b, depth, k, l) + if e@ < k { count_below(b, depth, e) } else { 0 },
    decreases k,
{
    if k > 0 {
        lemma_masked_push(b, depth, (k - 1) as nat, l, e);
        let m = move_with_bits((k - 1) as u16);
        lemma_move_with_bits((k - 1) as u16, e);
        assert(l.push(e).contains(m) == (l.contains(m) || m == e)) by {
            if l.push(e).contains(m) {
                let i = choose|i: int| 0 <= i < l.push(e).len() && l.push(e)[i] == m;
                if i < l.len() {
                    assert(l[i] == m);
                }
            }
            if l.contains(m) {
                let i = choose|i: int| 0 <= i < l.len() && l[i] == m;
                assert(l.push(e)[i] == m);
            }
            if m == e {
                assert(l.push(e)[l.len() as int] == m);
            }
        }
        if m == e {
            assert(e@ == k - 1);
        } else {
            assert(e@ != k - 1);
        }
    }
}

/// The list sum of a duplicate-free list equals its masked sum over all
/// packings.
proof fn lemma_list_masked(b: Board, depth: nat, l: Seq<Move>)
    requires
        l.no_duplicates(),
    ensures
        list_sum(b, depth, l) == masked_sum(b, depth, 65536, l),
    decreases l.len(),
{
    if l.len() == 0 {
        lemma_masked_empty(b, depth, 65536, l);
    } else {
        let init = l.drop_last();
        let e = l.last();
        assert(init.no_duplicates());
        assert(!init.contains(e)) by {
            if init.contains(e) {
                let i = choose|i: int| 0 <= i < init.len() && init[i] == e;
                assert(l[i] == l[l.len() - 1]);
            }
        }
        lemma_list_masked(b, depth, init);
        lemma_masked_push(b, depth, 65536, init, e);
        assert(init.push(e) == l);
        let x = e@;
        assert(x < 65536);
    }
}

/// The masked sum of the empty list is zero.
proof fn lemma_masked_empty(b: Board, depth: nat, k: nat, l: Seq<Move>)
    requires
        l.len() == 0,
    ensures
        masked_sum(b, depth, k, l) == 0,
    decreases k,
{
    if k > 0 {
        lemma_masked_empty(b, depth, (k - 1) as nat, l);
    }
}

/// Masking by a list of exactly the legal moves gives the perft sum.
proof fn lemma_masked_legal(b: Board, depth: nat, k: nat, l: Seq<Move>)
    requires
        depth > 0,
        forall|m: Move| #[trigger] l.contains(m) <==> legal_move(b, m),
    ensures
        masked_sum(b, depth, k, l) == perft_sum(b, depth, k),
    decreases k,
{
    if k > 0 {
        lemma_masked_legal(b, depth, (k - 1) as nat, l);
    }
}

/// The perft count is the sum over any duplicate-free list of exactly the
/// legal moves.
pub proof fn lemma_perft_by_list(b: Board, depth: nat, l: Seq<Move>)
    requires
        depth > 0,
        l.no_duplicates(),
        forall|m: Move| #[trigger] l.contains(m) <==> legal_move(b, m),
    ensures
        perft_count(b, depth) == list_sum(b, depth, l),
{
    lemma_list_masked(b, depth, l);
    lemma_masked_legal(b, depth, 65536, l);
}

/// A list's sum is at least any prefix's sum.
proof fn lemma_list_sum_prefix(b: Board, depth: nat, l: Seq<Move>, i: int)
    requires
        0 <= i <= l.len(),
    ensures
        list_sum(b, depth, l.subrange(0, i)) <= list_sum(b, depth, l),
    decreases l.len(),
{
    if i < l.len() {
        assert(l.drop_last().subrange(0, i) == l.subrange(0, i));
        lemma_list_sum_prefix(b, depth, l.drop_last(), i);
    } else {
        assert(l.subrange(0, i) == l);
    }
}

/// The board after a move made by `make_move` is `board_after`.
pub proof fn lemma_board_after(b: Board, m: Move, a: Board, u: UndoInfo)
    requires
        made(b, m, a, u),
    ensures
        board_after(b, m) == a,
{
    let (c, cu) = choose|c: Board, cu: UndoInfo| #[trigger] made(b, m, c, cu);
    lemma_made_unique(b, m, a, u, c, cu);
}

/// What the counting needs: a well-formed board whose clocks have room for
/// `depth` more plies.
pub open spec fn perft_ready(b: Board, depth: nat) -> bool {
    &&& b.wf()
    &&& b.halfmove() + depth < u32::MAX
    &&& b.fullmove() + depth < u32::MAX
}

/// Count the leaf positions `depth` plies below `board`.
pub fn perft(board: &Board, depth: u32) -> (r: u64)
    requires
        perft_ready(*board, depth as nat),
        perft_count(*board, depth as nat) <= u64::MAX,
    ensures
        r == perft_count(*board, depth as nat),
    decreases depth,
{
    if depth == 0 {
        return 1;
    }
    let moves = board.generate_legal_moves();
    proof {
        lemma_perft_by_list(*board, depth as nat, moves@);
    }
    if depth == 1 {
        proof {
            lemma_count_one(*board, moves@);
        }
        return moves.len() as u64;
    }
    let n = moves.len();
    let mut nodes: u64 = 0;
    let mut i: usize = 0;
    while i < n
        invariant
            n == moves@.len(),
            i <= n,
            depth >= 2,
            perft_ready(*board, depth as nat),
            perft_count(*board, depth as nat) <= u64::MAX,
            perft_count(*board, depth as nat) == list_sum(*board, depth as nat, moves@),
            forall|m: Move| #[trigger] moves@.contains(m) <==> legal_move(*board, m),
            nodes == list_sum(*board, depth as nat, moves@.subrange(0, i as int)),
        decreases n - i,
    {
        let m = moves.get(i);
        proof {
            assert(moves@.contains(m));
            lemma_pseudo_legal_makeable(*board, m);
        }
        let mut new_board = *board;
        let undo = new_board.make_move(m);
        proof {
            lemma_board_after(*board, m, new_board, undo);
            let sub = moves@.subrange(0, i as int + 1);
            assert(sub.drop_last() == moves@.subrange(0, i as int));
            assert(sub.last() == m);
            lemma_list_sum_prefix(*board, depth as nat, moves@, i as int + 1);
        }
        let below = perft(&new_board, depth - 1);
        nodes = nodes + below;
        i += 1;
    }
    proof {
        assert(moves@.subrange(0, n as int) == moves@);
    }
    nodes
}

/// One ply down, the count is the number of legal moves.
proof fn lemma_count_one(b: Board, l: Seq<Move>)
    requires
        l.no_duplicates(),
        forall|m: Move| #[trigger] l.contains(m) <==> legal_move(b, m),
    ensures
        perft_count(b, 1) == l.len(),
{
    lemma_perft_by_list(b, 1, l);
    lemma_list_sum_ones(b, l);
}

/// One ply down, every move counts one.
proof fn lemma_list_sum_ones(b: Board, l: Seq<Move>)
    ensures
        list_sum(b, 1, l) == l.len(),
    decreases l.len(),
{
    if l.len() > 0 {
        lemma_list_sum_ones(b, l.drop_last());
    }
}

/// The count below each legal move at the root, with the move's UCI text,
/// in the order the moves are generated; one for each move when `depth`
/// is at most one.
pub fn perft_divide(board: &Board, depth: u32) -> (r: Vec<(String, u64)>)
    requires
        perft_ready(*board, depth as nat),
        perft_count(*board, depth as nat) <= u64::MAX,
    ensures
        exists|ms: Seq<Move>| {
            &&& ms.no_duplicates()
            &&& forall|m: Move| #[trigger] ms.contains(m) <==> legal_move(*board, m)
            &&& ms.len() == r@.len()
            &&& depth >= 1 ==> perft_count(*board, depth as nat) == list_sum(*board, depth as nat, ms)
            &&& forall|i: int| 0 <= i < ms.len() ==> (#[trigger] r@[i]).0@ == uci_text(ms[i]@)
                && r@[i].1 == if depth <= 1 { 1 } else { count_below(*board, depth as nat, ms[i]) }
        },
{
    let moves = board.generate_legal_moves();
    proof {
        if depth >= 1 {
            lemma_perft_by_list(*board, depth as nat, moves@);
        }
    }
    let n = moves.len();
    let mut results: Vec<(String, u64)> = Vec::new();
    let mut i: usize = 0;
    while i < n
        invariant
            n == moves@.len(),
            i <= n,
            perft_ready(*board, depth as nat),
            perft_count(*board, depth as nat) <= u64::MAX,
            depth >= 1 ==> perft_count(*board, depth as nat) == list_sum(*board, depth as nat, moves@),
            forall|m: Move| #[trigger] moves@.contains(m) <==> legal_move(*board, m),
            results@.len() == i,
            forall|j: int| 0 <= j < i ==> (#[trigger] results@[j]).0@ == uci_text(moves@[j]@)
                && results@[j].1 == if depth <= 1 { 1 } else { count_below(*board, depth as nat, moves@[j]) },
        decreases n - i,
    {
        let m = moves.get(i);
        proof {
            assert(moves@.contains(m));
            lemma_pseudo_legal_makeable(*board, m);
        }
        let mut new_board = *board;
        let undo = new_board.make_move(m);
        let count = if depth <= 1 {
            1
        } else {
            proof {
                lemma_board_after(*board, m, new_board, undo);
                let sub = moves@.subrange(0, i as int + 1);
                assert(sub.drop_last() == moves@.subrange(0, i as int));
                assert(sub.last() == m);
                lemma_list_sum_prefix(*board, depth as nat, moves@, i as int + 1);
                lemma_list_sum_last(*board, depth as nat, sub);
            }
            perft(&new_board, depth - 1)
        };
        results.push((m.to_uci(), count));
        i += 1;
    }
    results
}

/// A list's sum is at least the count below its last move.
proof fn lemma_list_sum_last(b: Board, depth: nat, l: Seq<Move>)
    requires
        l.len() > 0,
    ensures
        count_below(b, depth, l.last()) <= list_sum(b, depth, l),
{
}

} // verus!
