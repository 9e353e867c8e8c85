use vstd::prelude::*;
use crate::bitboard::{Bitboard, bit};
use crate::piece::Color;
use crate::square::{Square, file_of, rank_of};

verus! {

/// Whether file `f` and rank `r` lie on the board.
pub open spec fn on_board(f: int, r: int) -> bool {
    0 <= f < 8 && 0 <= r < 8
}

/// Whether square `t` is the square `(df, dr)` away from square `s`.
pub open spec fn step_to(s: nat, t: nat, df: int, dr: int) -> bool {
    on_board(file_of(s) + df, rank_of(s) + dr)
        && t == (rank_of(s) + dr) * 8 + (file_of(s) + df)
}

/// Squares a pawn of the given color on `s` attacks: one rank forward
/// (toward rank 8 for white), one file to either side.
pub open spec fn pawn_hits(s: nat, color: Color, t: nat) -> bool {
    let dr: int = match color {
        Color::White => 1,
        Color::Black => -1,
    };
    step_to(s, t, -1, dr) || step_to(s, t, 1, dr)
}

/// Squares a knight on `s` attacks.
pub open spec fn knight_hits(s: nat, t: nat) -> bool {
    step_to(s, t, -2, -1) || step_to(s, t, -2, 1) || step_to(s, t, -1, -2) || step_to(s, t, -1, 2)
        || step_to(s, t, 1, -2) || step_to(s, t, 1, 2) || step_to(s, t, 2, -1) || step_to(s, t, 2, 1)
}

/// Squares a king on `s` attacks.
pub open spec fn king_hits(s: nat, t: nat) -> bool {
    step_to(s, t, -1, -1) || step_to(s, t, -1, 0) || step_to(s, t, -1, 1) || step_to(s, t, 0, -1)
        || step_to(s, t, 0, 1) || step_to(s, t, 1, -1) || step_to(s, t, 1, 0) || step_to(s, t, 1, 1)
}

/// Squares reached from file `f`, rank `r` by sliding in direction
/// `(df, dr)`: every square up to and including the first occupied one,
/// stopping at the board edge (at most `fuel` steps).
pub open spec fn ray(f: int, r: int, df: int, dr: int, occ: u64, fuel: nat, t: nat) -> bool
    decreases fuel,
{
    if fuel == 0 || !on_board(f + df, r + dr) {
        false
    } else {
        let n = (r + dr) * 8 + (f + df);
        t == n || (!bit(occ, n as u64) && ray(f + df, r + dr, df, dr, occ, (fuel - 1) as nat, t))
    }
}

/// Squares a bishop on `s` attacks with occupancy `occ`.
pub open spec fn bishop_hits(s: nat, occ: u64, t: nat) -> bool {
    let f = file_of(s) as int;
    let r = rank_of(s) as int;
    ray(f, r, -1, -1, occ, 7, t) || ray(f, r, -1, 1, occ, 7, t) || ray(f, r, 1, -1, occ, 7, t) || ray(f, r, 1, 1, occ, 7, t)
}

/// Squares a rook on `s` attacks with occupancy `occ`.
pub open spec fn rook_hits(s: nat, occ: u64, t: nat) -> bool {
    let f = file_of(s) as int;
    let r = rank_of(s) as int;
    ray(f, r, -1, 0, occ, 7, t) || ray(f, r, 1, 0, occ, 7, t) || ray(f, r, 0, -1, occ, 7, t) || ray(f, r, 0, 1, occ, 7, t)
}

/// Adds the square `(df, dr)` away from `sq`, when it is on the board.
fn add_step(bb: Bitboard, sq: Square, df: i8, dr: i8) -> (r: Bitboard)
    requires
        -2 <= df <= 2,
        -2 <= dr <= 2,
    ensures
        forall|t: u64| #[trigger] bit(r.0, t) == (bit(bb.0, t) || (t < 64 && step_to(sq@, t as nat, df as int, dr as int))),
{
    let f = sq.file() as i8 + df;
    let rk = sq.rank() as i8 + dr;
    if 0 <= f && f < 8 && 0 <= rk && rk < 8 {
        let target = Square::from_coords(f as u8, rk as u8);
        bb.set(target)
    } else {
        bb
    }
}

/// Squares attacked by a pawn of `color` standing on `square`.
pub fn pawn_attacks(square: Square, color: Color) -> (r: Bitboard)
    ensures
        forall|t: u64| #[trigger] bit(r.0, t) == (t < 64 && pawn_hits(square@, color, t as nat)),
{
    let dr: i8 = match color {
        Color::White => 1,
        Color::Black => -1,
    };
    let b = add_step(Bitboard::EMPTY(), square, -1, dr);
    add_step(b, square, 1, dr)
}

/// Squares attacked by a knight standing on `square`.
pub fn knight_attacks(square: Square) -> (r: Bitboard)
    ensures
        forall|t: u64| #[trigger] bit(r.0, t) == (t < 64 && knight_hits(square@, t as nat)),
{
    let b = add_step(Bitboard::EMPTY(), square, -2, -1);
    let b = add_step(b, square, -2, 1);
    let b = add_step(b, square, -1, -2);
    let b = add_step(b, square, -1, 2);
    let b = add_step(b, square, 1, -2);
    let b = add_step(b, square, 1, 2);
    let b = add_step(b, square, 2, -1);
    add_step(b, square, 2, 1)
}

/// Squares attacked by a king standing on `square`.
pub fn king_attacks(square: Square) -> (r: Bitboard)
    ensures
        forall|t: u64| #[trigger] bit(r.0, t) == (t < 64 && king_hits(square@, t as nat)),
{
    let b = add_step(Bitboard::EMPTY(), square, -1, -1);
    let b = add_step(b, square, -1, 0);
    let b = add_step(b, square, -1, 1);
    let b = add_step(b, square, 0, -1);
    let b = add_step(b, square, 0, 1);
    let b = add_step(b, square, 1, -1);
    let b = add_step(b, square, 1, 0);
    add_step(b, square, 1, 1)
}

/// Adds the squares of one sliding ray to `acc`.
fn slide(acc: Bitboard, square: Square, occupancy: Bitboard, df: i8, dr: i8) -> (r: Bitboard)
    requires
        -1 <= df <= 1,
        -1 <= dr <= 1,
    ensures
        forall|t: u64| #[trigger] bit(r.0, t) == (bit(acc.0, t) || (t < 64
            && ray(file_of(square@) as int, rank_of(square@) as int, df as int, dr as int, occupancy.0, 7, t as nat))),
{
    let ghost f0 = file_of(square@) as int;
    let ghost r0 = rank_of(square@) as int;
    let mut attacks = acc;
    let mut cf: i8 = square.file() as i8;
    let mut cr: i8 = square.rank() as i8;
    let mut steps: u8 = 0;
    loop
        invariant_except_break
            forall|t: u64| t < 64 ==> (#[trigger] bit(attacks.0, t) || ray(cf as int, cr as int, df as int, dr as int, occupancy.0, (7 - steps) as nat, t as nat))
                == (bit(acc.0, t) || ray(f0, r0, df as int, dr as int, occupancy.0, 7, t as nat)),
        invariant
            -1 <= df <= 1,
            -1 <= dr <= 1,
            0 <= cf < 8,
            0 <= cr < 8,
            steps <= 7,
            forall|t: u64| t >= 64 ==> !#[trigger] bit(attacks.0, t),
            forall|t: u64| t >= 64 ==> !#[trigger] bit(acc.0, t),
        ensures
            forall|t: u64| t < 64 ==> #[trigger] bit(attacks.0, t)
                == (bit(acc.0, t) || ray(f0, r0, df as int, dr as int, occupancy.0, 7, t as nat)),
            forall|t: u64| t >= 64 ==> !#[trigger] bit(attacks.0, t),
        decreases 7 - steps,
    {
        let nf = cf + df;
        let nr = cr + dr;
        if steps >= 7 || nf < 0 || nf >= 8 || nr < 0 || nr >= 8 {
            assert forall|t: u64| t < 64 implies #[trigger] bit(attacks.0, t)
                == (bit(acc.0, t) || ray(f0, r0, df as int, dr as int, occupancy.0, 7, t as nat)) by {
                assert(!ray(cf as int, cr as int, df as int, dr as int, occupancy.0, (7 - steps) as nat, t as nat));
            }
            break;
        }
        let target = Square::from_coords(nf as u8, nr as u8);
        let ghost old_attacks = attacks;
        let ghost fuel = (7 - steps) as nat;
        let ghost n = (nr as int) * 8 + (nf as int);
        assert(target@ == n);
        assert forall|t: u64| t < 64 implies #[trigger] ray(cf as int, cr as int, df as int, dr as int, occupancy.0, fuel, t as nat)
            == (t == n || (!bit(occupancy.0, n as u64) && ray(nf as int, nr as int, df as int, dr as int, occupancy.0, (fuel - 1) as nat, t as nat))) by {
        }
        attacks = attacks.set(target);
        if occupancy.contains(target) {
            assert forall|t: u64| t < 64 implies #[trigger] bit(attacks.0, t)
                == (bit(acc.0, t) || ray(f0, r0, df as int, dr as int, occupancy.0, 7, t as nat)) by {
                assert(bit(old_attacks.0, t) || ray(cf as int, cr as int, df as int, dr as int, occupancy.0, fuel, t as nat)
                    == (bit(acc.0, t) || ray(f0, r0, df as int, dr as int, occupancy.0, 7, t as nat)));
            }
            break;
        }
        cf = nf;
        cr = nr;
        steps += 1;
        assert forall|t: u64| t < 64 implies (#[trigger] bit(attacks.0, t) || ray(cf as int, cr as int, df as int, dr as int, occupancy.0, (7 - steps) as nat, t as nat))
            == (bit(acc.0, t) || ray(f0, r0, df as int, dr as int, occupancy.0, 7, t as nat)) by {
            assert(bit(old_attacks.0, t) || ray(cf as int - df, cr as int - dr, df as int, dr as int, occupancy.0, fuel, t as nat)
                == (bit(acc.0, t) || ray(f0, r0, df as int, dr as int, occupancy.0, 7, t as nat)));
        }
    }
    attacks
}

/// Squares attacked by a bishop on `square` given the occupied squares.
pub fn bishop_attacks(square: Square, occupancy: Bitboard) -> (r: Bitboard)
    ensures
        forall|t: u64| #[trigger] bit(r.0, t) == (t < 64 && bishop_hits(square@, occupancy.0, t as nat)),
{
    let b = slide(Bitboard::EMPTY(), square, occupancy, -1, -1);
    let b = slide(b, square, occupancy, -1, 1);
    let b = slide(b, square, occupancy, 1, -1);
    slide(b, square, occupancy, 1, 1)
}

/// Squares attacked by a rook on `square` given the occupied squares.
pub fn rook_attacks(square: Square, occupancy: Bitboard) -> (r: Bitboard)
    ensures
        forall|t: u64| #[trigger] bit(r.0, t) == (t < 64 && rook_hits(square@, occupancy.0, t as nat)),
{
    let b = slide(Bitboard::EMPTY(), square, occupancy, -1, 0);
    let b = slide(b, square, occupancy, 1, 0);
    let b = slide(b, square, occupancy, 0, -1);
    slide(b, square, occupancy, 0, 1)
}

/// Squares attacked by a queen: the union of bishop and rook attacks.
pub fn queen_attacks(square: Square, occupancy: Bitboard) -> (r: Bitboard)
    ensures
        forall|t: u64| #[trigger] bit(r.0, t) == (t < 64 && (bishop_hits(square@, occupancy.0, t as nat)
            || rook_hits(square@, occupancy.0, t as nat))),
{
    bishop_attacks(square, occupancy).or(rook_attacks(square, occupancy))
}

} // verus!
