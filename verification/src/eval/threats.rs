use vstd::prelude::*;
use crate::bitboard::{Bitboard, bit, bit_sum, popcount, lemma_popcount_clear_lowest, lemma_popcount_bound};
use crate::board::Board;
use crate::eval::material::bits_of;
use crate::legality::attacked;
use crate::piece::{Color, PieceType, opposite};
use crate::square::Square;

verus! {

/// The value of a piece for threats: the king counts nothing.
pub open spec fn threat_value(kind: PieceType) -> int {
    match kind {
        PieceType::Pawn => 100,
        PieceType::Knight => 320,
        PieceType::Bishop => 330,
        PieceType::Rook => 500,
        PieceType::Queen => 900,
        PieceType::King => 0,
    }
}

/// The squares attacked by the pieces of a color.
pub fn compute_attacks(board: &Board, color: Color) -> (r: Bitboard)
    requires
        board.wf(),
    ensures
        forall|t: u64| #[trigger] bit(r.0, t) == (t < 64 && attacked(*board, t as nat, color)),
{
    let mut attacks = Bitboard::new(0);
    proof {
        crate::bitboard::lemma_bit_zero();
    }
    let mut i: u8 = 0;
    while i < 64
        invariant
            i <= 64,
            board.wf(),
            forall|t: u64| #[trigger] bit(attacks.0, t) == (t < i && attacked(*board, t as nat, color)),
        decreases 64 - i,
    {
        let sq = Square::new(i);
        if board.is_square_attacked(sq, color) {
            attacks = attacks.set(sq);
        }
        i += 1;
    }
    attacks
}

/// The threat term of an enemy piece of `kind` on `s`: half its value when
/// it hangs (no piece of its side defends it), plus an eighth of what it is
/// worth above a pawn when we attack it.
pub open spec fn threat_term(s: nat, kind: PieceType, ours: u64, theirs: u64) -> int {
    let v = threat_value(kind);
    let hit = bit(ours, s as u64);
    let defended = bit(theirs, s as u64);
    (if !defended { v / 2 } else { 0 }) + (if hit && 100 < v { (v - 100) / 8 } else { 0 })
}

/// The threat terms against the enemy pieces of one kind.
pub open spec fn kind_threats(b: Board, kind: PieceType, c: Color, ours: u64, theirs: u64) -> int {
    bit_sum(bits_of(b, kind, opposite(c)), |s: nat| threat_term(s, kind, ours, theirs))
}

/// The threats of color `c` against the enemy queens, rooks, bishops,
/// knights and pawns.
pub open spec fn side_threats(b: Board, c: Color, ours: u64, theirs: u64) -> int {
    kind_threats(b, PieceType::Queen, c, ours, theirs) + kind_threats(b, PieceType::Rook, c, ours, theirs)
        + kind_threats(b, PieceType::Bishop, c, ours, theirs) + kind_threats(b, PieceType::Knight, c, ours, theirs)
        + kind_threats(b, PieceType::Pawn, c, ours, theirs)
}

/// The threat terms against the enemy pieces of one kind.
fn kind_threat_sum(board: &Board, kind: PieceType, color: Color, ours: Bitboard, theirs: Bitboard) -> (r: i32)
    requires
        kind != PieceType::King,
    ensures
        r == kind_threats(*board, kind, color, ours.0, theirs.0),
        0 <= r <= 64 * 550,
{
    let pieces = board.piece_bb(kind, color.opponent());
    let v: i32 = match kind {
        PieceType::Pawn => 100,
        PieceType::Knight => 320,
        PieceType::Bishop => 330,
        PieceType::Rook => 500,
        _ => 900,
    };
    let ghost f = |s: nat| threat_term(s, kind, ours.0, theirs.0);
    let mut total: i32 = 0;
    let mut rest = pieces;
    proof {
        lemma_popcount_bound(pieces.0);
    }
    while rest.0 != 0
        invariant
            f == (|s: nat| threat_term(s, kind, ours.0, theirs.0)),
            v == threat_value(kind),
            100 <= v <= 900,
            total + bit_sum(rest.0, f) == bit_sum(pieces.0, f),
            popcount(rest.0) <= popcount(pieces.0) <= 64,
            0 <= total <= 550 * (popcount(pieces.0) - popcount(rest.0)),
        decreases popcount(rest.0),
    {
        let ghost before = rest.0;
        let sq = rest.pop_lsb().unwrap();
        proof {
            lemma_popcount_clear_lowest(before);
            let k = popcount(pieces.0) - popcount(before);
            assert(550 * (k + 1) == 550 * k + 550) by (nonlinear_arith);
        }
        let hit = ours.contains(sq);
        let defended = theirs.contains(sq);
        if !defended {
            total = total + v / 2;
        }
        if hit && 100 < v {
            total = total + (v - 100) / 8;
        }
    }
    total
}

/// The threats of one side against the other's pieces, given the squares
/// each side attacks.
pub fn evaluate_threats_for_side(board: &Board, color: Color, our_attacks: &Bitboard, enemy_attacks: &Bitboard) -> (r: (i32, i32))
    ensures
        r.0 == side_threats(*board, color, our_attacks.0, enemy_attacks.0),
        r.1 == r.0,
        0 <= r.0 <= 5 * 64 * 550,
{
    let q = kind_threat_sum(board, PieceType::Queen, color, *our_attacks, *enemy_attacks);
    let rk = kind_threat_sum(board, PieceType::Rook, color, *our_attacks, *enemy_attacks);
    let b = kind_threat_sum(board, PieceType::Bishop, color, *our_attacks, *enemy_attacks);
    let n = kind_threat_sum(board, PieceType::Knight, color, *our_attacks, *enemy_attacks);
    let p = kind_threat_sum(board, PieceType::Pawn, color, *our_attacks, *enemy_attacks);
    let total = q + rk + b + n + p;
    (total, total)
}

/// The squares a color attacks, as a word.
pub open spec fn attack_bits_spec(b: Board, c: Color, x: u64) -> bool {
    forall|t: u64| #[trigger] bit(x, t) == (t < 64 && attacked(b, t as nat, c))
}

/// White's threats less black's, as (middlegame, endgame) terms (both
/// equal).
pub fn evaluate_threats(board: &Board) -> (r: (i32, i32))
    requires
        board.wf(),
    ensures
        exists|wa: u64, ba: u64| attack_bits_spec(*board, Color::White, wa) && attack_bits_spec(*board, Color::Black, ba)
            && r.0 == side_threats(*board, Color::White, wa, ba) - side_threats(*board, Color::Black, ba, wa)
            && r.1 == r.0,
{
    let white_attacks = compute_attacks(board, Color::White);
    let black_attacks = compute_attacks(board, Color::Black);
    let (white_mg, white_eg) = evaluate_threats_for_side(board, Color::White, &white_attacks, &black_attacks);
    let (black_mg, black_eg) = evaluate_threats_for_side(board, Color::Black, &black_attacks, &white_attacks);
    proof {
        assert(attack_bits_spec(*board, Color::White, white_attacks.0));
        assert(attack_bits_spec(*board, Color::Black, black_attacks.0));
    }
    (white_mg - black_mg, white_eg - black_eg)
}

} // verus!
