//! Static exchange evaluation: the material balance of the sequence of
//! captures on one square that a capture starts, each side recapturing
//! with its least valuable attacker and free to stop.
use vstd::prelude::*;
use crate::attacks::{bishop_attacks, king_attacks, knight_attacks, pawn_attacks, rook_attacks,
    pawn_hits, knight_hits, king_hits, bishop_hits, rook_hits};
use crate::bitboard::{Bitboard, bit, popcount, square_count, lemma_bit_single, lemma_bit_not, lemma_bit_and,
    lemma_popcount_squares, lemma_popcount_bound};
use crate::board::Board;
use crate::chess_move::{Move, mv_from, mv_to};
use crate::eval::material::bits_of;
use crate::piece::{Color, PieceType, opposite};
use crate::square::{Square, file_of};

verus! {

/// The exchange value of a piece; the king counts 20000.
pub open spec fn see_piece_value(t: PieceType) -> int {
    match t {
        PieceType::Pawn => 100,
        PieceType::Knight => 320,
        PieceType::Bishop => 330,
        PieceType::Rook => 500,
        PieceType::Queen => 900,
        PieceType::King => 20000,
    }
}

fn piece_value(t: PieceType) -> (r: i32)
    ensures
        r == see_piece_value(t),
{
    match t {
        PieceType::Pawn => 100,
        PieceType::Knight => 320,
        PieceType::Bishop => 330,
        PieceType::Rook => 500,
        PieceType::Queen => 900,
        PieceType::King => 20000,
    }
}

/// Whether a piece of `kind` of `side` on `s` attacks `target` with the
/// pieces of `occ` blocking.
pub open spec fn hits_target(kind: PieceType, side: Color, target: nat, occ: u64, s: nat) -> bool {
    match kind {
        PieceType::Pawn => pawn_hits(target, opposite(side), s),
        PieceType::Knight => knight_hits(target, s),
        PieceType::Bishop => bishop_hits(target, occ, s),
        PieceType::Rook => rook_hits(target, occ, s),
        PieceType::Queen => bishop_hits(target, occ, s) || rook_hits(target, occ, s),
        PieceType::King => king_hits(target, s),
    }
}

/// Whether square `s` holds a piece of `kind` of `side`, still in `occ`,
/// that attacks `target`.
pub open spec fn candidate(b: Board, kind: PieceType, side: Color, target: nat, occ: u64, s: nat) -> bool {
    s < 64 && bit(bits_of(b, kind, side), s as u64) && hits_target(kind, side, target, occ, s) && bit(occ, s as u64)
}

/// The lowest square holding an attacker of `kind`, if any.
pub open spec fn lowest_attacker(b: Board, kind: PieceType, side: Color, target: nat, occ: u64) -> Option<nat> {
    if exists|s: nat| #[trigger] candidate(b, kind, side, target, occ, s) {
        Some(choose|s: nat| #[trigger] candidate(b, kind, side, target, occ, s)
            && forall|j: nat| j < s ==> !candidate(b, kind, side, target, occ, j))
    } else {
        None
    }
}

/// The least valuable attacker of `target` of `side` among the pieces of
/// `occ`: pawns, knights, bishops, rooks, queens, then the king; of one
/// kind, the lowest square.
pub open spec fn least_attacker(b: Board, target: nat, side: Color, occ: u64) -> Option<(nat, PieceType)> {
    if lowest_attacker(b, PieceType::Pawn, side, target, occ) is Some {
        Some((lowest_attacker(b, PieceType::Pawn, side, target, occ).unwrap(), PieceType::Pawn))
    } else if lowest_attacker(b, PieceType::Knight, side, target, occ) is Some {
        Some((lowest_attacker(b, PieceType::Knight, side, target, occ).unwrap(), PieceType::Knight))
    } else if lowest_attacker(b, PieceType::Bishop, side, target, occ) is Some {
        Some((lowest_attacker(b, PieceType::Bishop, side, target, occ).unwrap(), PieceType::Bishop))
    } else if lowest_attacker(b, PieceType::Rook, side, target, occ) is Some {
        Some((lowest_attacker(b, PieceType::Rook, side, target, occ).unwrap(), PieceType::Rook))
    } else if lowest_attacker(b, PieceType::Queen, side, target, occ) is Some {
        Some((lowest_attacker(b, PieceType::Queen, side, target, occ).unwrap(), PieceType::Queen))
    } else if lowest_attacker(b, PieceType::King, side, target, occ) is Some {
        Some((lowest_attacker(b, PieceType::King, side, target, occ).unwrap(), PieceType::King))
    } else {
        None
    }
}

/// `occ` without square `s`.
pub open spec fn without(occ: u64, s: nat) -> u64 {
    occ & !(1u64 << (s as u64))
}

pub proof fn lemma_square_count_drop(n: nat, p: spec_fn(nat) -> bool, q: spec_fn(nat) -> bool, s: nat)
    requires
        s < n,
        p(s),
        !q(s),
        forall|t: nat| t < n && t != s ==> #[trigger] p(t) == q(t),
    ensures
        square_count(n, q) + 1 == square_count(n, p),
    decreases n,
{
    let m = (n - 1) as nat;
    if s < m {
        lemma_square_count_drop(m, p, q, s);
    } else {
        crate::bitboard::lemma_square_count_ext(m, p, q);
    }
}

/// Taking an occupied square out of a word removes one bit.
pub proof fn lemma_without(occ: u64, s: nat)
    requires
        s < 64,
        bit(occ, s as u64),
    ensures
        popcount(without(occ, s)) + 1 == popcount(occ),
        forall|t: u64| #[trigger] bit(without(occ, s), t) == (bit(occ, t) && t != s),
{
    lemma_bit_single(s as u64);
    lemma_bit_not(1u64 << (s as u64));
    lemma_bit_and(occ, !(1u64 << (s as u64)));
    let w = without(occ, s);
    lemma_popcount_squares(occ);
    lemma_popcount_squares(w);
    lemma_square_count_drop(64, |t: nat| bit(occ, t as u64), |t: nat| bit(w, t as u64), s);
}

/// The gains of the recaptures on `target` after a piece of `attacker`
/// has captured there, `side` to recapture with the pieces of `occ`: the
/// value of the piece taken at each step, ending when no attacker is left,
/// or after a king recaptures while the other side still attacks.
pub open spec fn recapture_gains(b: Board, target: nat, side: Color, occ: u64, attacker: PieceType) -> Seq<int>
    decreases popcount(occ),
{
    match least_attacker(b, target, side, occ) {
        None => Seq::empty(),
        Some((sq, t)) => {
            if sq < 64 && bit(occ, sq as u64) {
                proof {
                    lemma_without(occ, sq);
                }
                let occ2 = without(occ, sq);
                seq![see_piece_value(attacker)] + if t == PieceType::King && least_attacker(b, target, opposite(side), occ2) is Some {
                    Seq::empty()
                } else {
                    recapture_gains(b, target, opposite(side), occ2, t)
                }
            } else {
                Seq::empty()
            }
        },
    }
}

/// The outcome of a list of gains when each side may stop: the first gain
/// less the outcome of the rest when that is positive.
pub open spec fn exchange_outcome(gains: Seq<int>) -> int
    decreases gains.len(),
{
    if gains.len() == 0 {
        0
    } else {
        let rest = exchange_outcome(gains.drop_first());
        gains[0] - if rest > 0 { rest } else { 0 }
    }
}

/// The piece a move captures: the piece on its target, or a pawn for a
/// pawn moving diagonally onto an empty square (en passant).
pub open spec fn see_victim(b: Board, m: Move) -> Option<PieceType> {
    let from = mv_from(m@);
    let to = mv_to(m@);
    match b.piece_on(to) {
        Some(p) => Some(p.piece_type),
        None => if b.piece_on(from) matches Some(a) && a.piece_type == PieceType::Pawn && file_of(from) != file_of(to) {
            Some(PieceType::Pawn)
        } else {
            None
        },
    }
}

/// The exchange value of a move: zero when it captures nothing, else the
/// outcome of the captured piece's value followed by the recaptures.
pub open spec fn see_score(b: Board, m: Move) -> int {
    let from = mv_from(m@);
    let to = mv_to(m@);
    match see_victim(b, m) {
        None => 0,
        Some(v) => exchange_outcome(seq![see_piece_value(v)]
            + recapture_gains(b, to, opposite(b.side()), without(b.occ_bits(), from), b.piece_on(from).unwrap().piece_type)),
    }
}

/// Each side may stop the exchange: its outcome is never more than the
/// first gain (the opponent need not recapture), and never less than the
/// first gain less the second when that is positive (the first side may
/// stop once its piece is taken); a single gain is its own outcome.
pub proof fn lemma_outcome_bounds(g: Seq<int>)
    requires
        g.len() >= 1,
    ensures
        exchange_outcome(g) <= g[0],
        g.len() == 1 ==> exchange_outcome(g) == g[0],
        g.len() >= 2 ==> exchange_outcome(g) >= g[0] - (if g[1] > 0 { g[1] } else { 0 }),
    decreases g.len(),
{
    let rest = g.drop_first();
    if g.len() == 1 {
        assert(rest.len() == 0);
        assert(exchange_outcome(rest) == 0);
    } else {
        lemma_outcome_bounds(rest);
        assert(rest[0] == g[1]);
    }
}

/// The exchange value of a capture lies between the value of the piece it
/// takes less the value of the capturing piece (the capturer may stop once
/// its piece is taken) and the value of the piece it takes (the opponent
/// may decline to recapture); a move that takes nothing is worth zero.
pub proof fn lemma_see_bounds(b: Board, m: Move)
    requires
        see_ready(b, m),
    ensures
        see_victim(b, m) is None ==> see_score(b, m) == 0,
        see_victim(b, m) matches Some(v) ==> see_score(b, m) <= see_piece_value(v)
            && see_score(b, m) >= see_piece_value(v) - see_piece_value(b.piece_on(mv_from(m@)).unwrap().piece_type),
{
    if let Some(v) = see_victim(b, m) {
        let kind = b.piece_on(mv_from(m@)).unwrap().piece_type;
        let rg = recapture_gains(b, mv_to(m@), opposite(b.side()), without(b.occ_bits(), mv_from(m@)), kind);
        let g = seq![see_piece_value(v)] + rg;
        lemma_outcome_bounds(g);
        assert(g[0] == see_piece_value(v));
        if rg.len() > 0 {
            assert(rg[0] == see_piece_value(kind));
            assert(g[1] == rg[0]);
        }
    }
}

/// What the exchange evaluation needs: a well-formed board with a piece on
/// the move's origin.
pub open spec fn see_ready(b: Board, m: Move) -> bool {
    b.wf() && b.piece_on(mv_from(m@)) is Some
}

/// The lowest square of a bitboard that holds an attacker of `kind`.
fn lowest_of(b: &Board, kind: PieceType, side: Color, target: Square, occupied: Bitboard, x: Bitboard) -> (r: Option<Square>)
    requires
        forall|t: u64| #[trigger] bit(x.0, t) == candidate(*b, kind, side, target@, occupied.0, t as nat),
    ensures
        r matches Some(s) ==> lowest_attacker(*b, kind, side, target@, occupied.0) == Some(s@),
        r is None ==> lowest_attacker(*b, kind, side, target@, occupied.0) is None,
{
    let r = x.lsb();
    proof {
        match r {
            Some(s) => {
                assert(candidate(*b, kind, side, target@, occupied.0, s@));
                let c = choose|c: nat| #[trigger] candidate(*b, kind, side, target@, occupied.0, c)
                    && forall|j: nat| j < c ==> !candidate(*b, kind, side, target@, occupied.0, j);
                assert forall|j: nat| j < s@ implies !candidate(*b, kind, side, target@, occupied.0, j) by {
                    assert(!bit(x.0, j as u64));
                }
                if c < s@ {
                    assert(!bit(x.0, c as u64));
                } else if c > s@ {
                    assert(!candidate(*b, kind, side, target@, occupied.0, s@));
                }
            },
            None => {
                assert forall|s: nat| !#[trigger] candidate(*b, kind, side, target@, occupied.0, s) by {
                    if candidate(*b, kind, side, target@, occupied.0, s) {
                        assert(bit(x.0, s as u64));
                        crate::bitboard::lemma_bit_zero();
                    }
                }
            },
        }
    }
    r
}

/// The least valuable attacker of `target` of `by_color` among the pieces
/// of `occupied`, with its kind.
fn least_valuable_attacker(board: &Board, target: Square, by_color: Color, occupied: Bitboard) -> (r: Option<(Square, PieceType)>)
    ensures
        r matches Some((s, t)) ==> least_attacker(*board, target@, by_color, occupied.0) == Some((s@, t)),
        r is None ==> least_attacker(*board, target@, by_color, occupied.0) is None,
{
    let pawns = board.piece_bb(PieceType::Pawn, by_color).and(pawn_attacks(target, by_color.opponent())).and(occupied);
    let p = lowest_of(board, PieceType::Pawn, by_color, target, occupied, pawns);
    if let Some(sq) = p {
        return Some((sq, PieceType::Pawn));
    }
    let knights = board.piece_bb(PieceType::Knight, by_color).and(knight_attacks(target)).and(occupied);
    let n = lowest_of(board, PieceType::Knight, by_color, target, occupied, knights);
    if let Some(sq) = n {
        return Some((sq, PieceType::Knight));
    }
    let bishops = board.piece_bb(PieceType::Bishop, by_color).and(bishop_attacks(target, occupied)).and(occupied);
    let bi = lowest_of(board, PieceType::Bishop, by_color, target, occupied, bishops);
    if let Some(sq) = bi {
        return Some((sq, PieceType::Bishop));
    }
    let rooks = board.piece_bb(PieceType::Rook, by_color).and(rook_attacks(target, occupied)).and(occupied);
    let ro = lowest_of(board, PieceType::Rook, by_color, target, occupied, rooks);
    if let Some(sq) = ro {
        return Some((sq, PieceType::Rook));
    }
    let queens = board.piece_bb(PieceType::Queen, by_color)
        .and(bishop_attacks(target, occupied).or(rook_attacks(target, occupied))).and(occupied);
    let q = lowest_of(board, PieceType::Queen, by_color, target, occupied, queens);
    if let Some(sq) = q {
        return Some((sq, PieceType::Queen));
    }
    let king = board.piece_bb(PieceType::King, by_color).and(king_attacks(target)).and(occupied);
    let k = lowest_of(board, PieceType::King, by_color, target, occupied, king);
    if let Some(sq) = k {
        return Some((sq, PieceType::King));
    }
    None
}

/// Whether a move's exchange value reaches `threshold`.
pub fn see(board: &Board, mv: Move, threshold: i32) -> (r: bool)
    requires
        see_ready(*board, mv),
    ensures
        r == (see_score(*board, mv) >= threshold),
        see_victim(*board, mv) matches Some(v) && threshold > see_piece_value(v) ==> !r,
{
    proof {
        lemma_see_bounds(*board, mv);
    }
    see_value(board, mv) >= threshold
}

/// The exchange value of a move (see `see_score`).
pub fn see_value(board: &Board, mv: Move) -> (r: i32)
    requires
        see_ready(*board, mv),
    ensures
        r == see_score(*board, mv),
        see_victim(*board, mv) is None ==> r == 0,
        see_victim(*board, mv) matches Some(v) ==> r <= see_piece_value(v)
            && r >= see_piece_value(v) - see_piece_value(board.piece_on(mv_from(mv@)).unwrap().piece_type),
{
    proof {
        lemma_see_bounds(*board, mv);
    }
    let from = mv.from();
    let to = mv.to();
    let attacker = board.piece_at(from).unwrap();
    let mut victim: Option<PieceType> = match board.piece_at(to) {
        Some(p) => Some(p.piece_type),
        None => None,
    };
    if attacker.piece_type == PieceType::Pawn && victim.is_none() && from.file() != to.file() {
        victim = Some(PieceType::Pawn);
    }
    let v = match victim {
        Some(v) => v,
        None => {
            return 0;
        },
    };
    let mut gains: Vec<i32> = Vec::new();
    gains.push(piece_value(v));
    let mut occupied = board.occupied().clear(from);
    let mut attacker_piece = attacker.piece_type;
    let mut side = board.side_to_move().opponent();
    let ghost total: Seq<int> = seq![see_piece_value(v)]
        + recapture_gains(*board, to@, side, occupied.0, attacker_piece);
    proof {
        assert(occupied.0 == without(board.occ_bits(), from@));
        lemma_popcount_bound(occupied.0);
    }
    loop
        invariant_except_break
            total == gains@.map_values(|g: i32| g as int) + recapture_gains(*board, to@, side, occupied.0, attacker_piece),
        invariant
            gains@.len() + popcount(occupied.0) <= 65,
            gains@.len() >= 1,
            forall|i: int| 0 <= i < gains@.len() ==> 0 <= #[trigger] gains@[i] <= 20000,
        ensures
            total == gains@.map_values(|g: i32| g as int),
            gains@.len() <= 65,
            forall|i: int| 0 <= i < gains@.len() ==> 0 <= #[trigger] gains@[i] <= 20000,
        decreases popcount(occupied.0),
    {
        let ghost before = gains@;
        let next = least_valuable_attacker(board, to, side, occupied);
        let (attacker_sq, attacker_type) = match next {
            Some(x) => x,
            None => {
                assert(total =~= gains@.map_values(|g: i32| g as int));
                break;
            },
        };
        proof {
            assert(candidate(*board, attacker_type, side, to@, occupied.0, attacker_sq@));
            lemma_without(occupied.0, attacker_sq@);
        }
        let ghost old_occ = occupied.0;
        let ghost old_side = side;
        let ghost old_piece = attacker_piece;
        gains.push(piece_value(attacker_piece));
        occupied = occupied.clear(attacker_sq);
        attacker_piece = attacker_type;
        side = side.opponent();
        proof {
            assert(occupied.0 == without(old_occ, attacker_sq@));
            assert(gains@.map_values(|g: i32| g as int) =~= before.map_values(|g: i32| g as int).push(see_piece_value(old_piece)));
        }
        if attacker_piece == PieceType::King {
            let more = least_valuable_attacker(board, to, side, occupied);
            if more.is_some() {
                proof {
                    assert(recapture_gains(*board, to@, old_side, old_occ, old_piece) =~= seq![see_piece_value(old_piece)]);
                    assert(total =~= gains@.map_values(|g: i32| g as int));
                }
                break;
            }
        }
        proof {
            assert(recapture_gains(*board, to@, old_side, old_occ, old_piece)
                =~= seq![see_piece_value(old_piece)] + recapture_gains(*board, to@, side, occupied.0, attacker_piece));
            assert(total =~= gains@.map_values(|g: i32| g as int) + recapture_gains(*board, to@, side, occupied.0, attacker_piece));
        }
    }
    let mut score: i32 = 0;
    let n = gains.len();
    let mut i: usize = n;
    while i > 0
        invariant
            i <= n,
            n == gains@.len(),
            n <= 65,
            forall|k: int| 0 <= k < gains@.len() ==> 0 <= #[trigger] gains@[k] <= 20000,
            score == exchange_outcome(gains@.map_values(|g: i32| g as int).skip(i as int)),
            -20000 * 65 <= score <= 20000,
        decreases i,
    {
        i -= 1;
        let g = gains[i];
        let kept: i32 = if score > 0 { score } else { 0 };
        proof {
            let s = gains@.map_values(|g: i32| g as int);
            assert(s.skip(i as int).drop_first() =~= s.skip(i as int + 1));
            assert(s.skip(i as int)[0] == g);
        }
        score = g - kept;
    }
    proof {
        assert(gains@.map_values(|g: i32| g as int).skip(0) =~= gains@.map_values(|g: i32| g as int));
    }
    score
}

} // verus!
