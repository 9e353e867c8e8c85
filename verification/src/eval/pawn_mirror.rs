//! Colour symmetry of the pawn terms: a black pawn is scored as the white
//! pawn on the square mirrored across the middle of the board, with both
//! sides' pawns mirrored too.
use vstd::prelude::*;
use crate::attacks::{pawn_hits, step_to, on_board};
use crate::bitboard::{bit, popcount, square_count, lemma_popcount_squares, lemma_square_count_ext, lemma_bit_and};
use crate::eval::pawns::{pawn_term_mg, pawn_term_eg, pawns_on_file, isolated, passed, protected, backward,
    pawns_attack, adjacent_file, ahead, beyond, lemma_file_mask};
use crate::piece::{Color, opposite};
use crate::square::{file_of, rank_of};

verus! {

/// The square on the same file and the mirrored rank (a2 and a7).
pub open spec fn mirror_sq(t: nat) -> nat {
    ((7 - rank_of(t)) * 8 + file_of(t)) as nat
}

/// Whether `y` holds exactly the squares of `x` mirrored across the middle
/// of the board.
pub open spec fn mirrored(x: u64, y: u64) -> bool {
    &&& forall|t: u64| t < 64 ==> (#[trigger] bit(x, t) <==> bit(y, mirror_sq(t as nat) as u64))
    &&& forall|t: u64| t < 64 ==> (#[trigger] bit(y, t) <==> bit(x, mirror_sq(t as nat) as u64))
}

/// The square `8 * r + f` has rank `r` and file `f`.
proof fn lemma_parts(r: nat, f: nat)
    requires
        r < 8,
        f < 8,
    ensures
        rank_of(r * 8 + f) == r,
        file_of(r * 8 + f) == f,
{
    assert((r * 8 + f) / 8 == r && (r * 8 + f) % 8 == f) by (nonlinear_arith)
        requires r < 8, f < 8;
}

/// A square is its rank and file.
proof fn lemma_square_parts(t: nat)
    requires
        t < 64,
    ensures
        t == rank_of(t) * 8 + file_of(t),
        rank_of(t) < 8,
        file_of(t) < 8,
{
}

/// Mirroring keeps the file, turns the rank over, and undoes itself.
proof fn lemma_mirror(t: nat)
    requires
        t < 64,
    ensures
        mirror_sq(t) < 64,
        file_of(mirror_sq(t)) == file_of(t),
        rank_of(mirror_sq(t)) == 7 - rank_of(t),
        mirror_sq(mirror_sq(t)) == t,
{
    lemma_square_parts(t);
    lemma_parts((7 - rank_of(t)) as nat, file_of(t));
}

/// The squares `n` to `n + m - 1` that satisfy `p`.
pub open spec fn count_from(p: spec_fn(nat) -> bool, n: nat, m: nat) -> nat {
    square_count(m, |j: nat| p(n + j))
}

/// Counting the first `n + m` squares is counting the first `n`, then the
/// next `m`.
proof fn lemma_count_split(p: spec_fn(nat) -> bool, n: nat, m: nat)
    ensures
        square_count(n + m, p) == square_count(n, p) + count_from(p, n, m),
    decreases m,
{
    if m > 0 {
        lemma_count_split(p, n, (m - 1) as nat);
        let q = |j: nat| p(n + j);
        assert(square_count(m, q) == square_count((m - 1) as nat, q) + if q((m - 1) as nat) { 1nat } else { 0 });
        assert(square_count(n + m, p) == square_count((n + m - 1) as nat, p)
            + if p((n + m - 1) as nat) { 1nat } else { 0 });
        assert((n + (m - 1)) as nat == (n + m - 1) as nat);
    }
}

/// Counting the 64 squares rank by rank.
proof fn lemma_count_ranks(p: spec_fn(nat) -> bool)
    ensures
        square_count(64, p) == count_from(p, 0, 8) + count_from(p, 8, 8) + count_from(p, 16, 8)
            + count_from(p, 24, 8) + count_from(p, 32, 8) + count_from(p, 40, 8) + count_from(p, 48, 8)
            + count_from(p, 56, 8),
{
    lemma_count_split(p, 0, 8);
    lemma_count_split(p, 8, 8);
    lemma_count_split(p, 16, 8);
    lemma_count_split(p, 24, 8);
    lemma_count_split(p, 32, 8);
    lemma_count_split(p, 40, 8);
    lemma_count_split(p, 48, 8);
    lemma_count_split(p, 56, 8);
    assert(square_count(0, p) == 0);
}

/// A rank of mirrored squares counts as the mirrored rank.
proof fn lemma_count_rank_mirror(p: spec_fn(nat) -> bool, k: nat)
    requires
        k < 8,
    ensures
        count_from(|t: nat| p(mirror_sq(t)), k * 8, 8) == count_from(p, ((7 - k) * 8) as nat, 8),
{
    let pm = |t: nat| p(mirror_sq(t));
    let a = |j: nat| pm(k * 8 + j);
    let c = |j: nat| p(((7 - k) * 8) as nat + j);
    assert forall|j: nat| j < 8 implies #[trigger] a(j) == c(j) by {
        lemma_parts(k, j);
        assert(mirror_sq(k * 8 + j) == ((7 - k) * 8) as nat + j);
    }
    lemma_square_count_ext(8, a, c);
}

/// Mirroring the squares keeps their count.
proof fn lemma_count_mirror(p: spec_fn(nat) -> bool)
    ensures
        square_count(64, |t: nat| p(mirror_sq(t))) == square_count(64, p),
{
    let pm = |t: nat| p(mirror_sq(t));
    lemma_count_ranks(p);
    lemma_count_ranks(pm);
    lemma_count_rank_mirror(p, 0);
    lemma_count_rank_mirror(p, 1);
    lemma_count_rank_mirror(p, 2);
    lemma_count_rank_mirror(p, 3);
    lemma_count_rank_mirror(p, 4);
    lemma_count_rank_mirror(p, 5);
    lemma_count_rank_mirror(p, 6);
    lemma_count_rank_mirror(p, 7);
}

/// Mirrored pawns have as many pawns on each file.
pub proof fn lemma_file_count_mirror(x: u64, y: u64, f: nat)
    requires
        mirrored(x, y),
        f < 8,
    ensures
        pawns_on_file(x, f as int) == pawns_on_file(y, f as int),
{
    let mask = 0x0101010101010101u64 << (f as u64);
    lemma_file_mask(f as u64);
    lemma_bit_and(x, mask);
    lemma_bit_and(y, mask);
    lemma_popcount_squares(x & mask);
    lemma_popcount_squares(y & mask);
    let px = |t: nat| bit(x & mask, t as u64);
    let py = |t: nat| bit(y & mask, t as u64);
    let pxm = |t: nat| px(mirror_sq(t));
    assert forall|t: nat| t < 64 implies #[trigger] py(t) == pxm(t) by {
        lemma_mirror(t);
        assert(bit(y, t as u64) == bit(x, mirror_sq(t) as u64));
    }
    lemma_square_count_ext(64, py, pxm);
    lemma_count_mirror(px);
}

/// A pawn attacks a square exactly when the mirrored pawn of the other
/// colour attacks the mirrored square.
proof fn lemma_hits_mirror(p: nat, c: Color, t: nat)
    requires
        p < 64,
        t < 64,
    ensures
        pawn_hits(p, c, t) == pawn_hits(mirror_sq(p), opposite(c), mirror_sq(t)),
{
    lemma_square_parts(p);
    lemma_square_parts(t);
    lemma_mirror(p);
    lemma_mirror(t);
    let fp = file_of(p) as int;
    let rp = rank_of(p) as int;
    let ft = file_of(t) as int;
    let rt = rank_of(t) as int;
    assert forall|df: int, dr: int| #![trigger step_to(p, t, df, dr)] -1 <= df <= 1 && -1 <= dr <= 1 implies
        step_to(p, t, df, dr) == step_to(mirror_sq(p), mirror_sq(t), df, -dr) by {
        if on_board(fp + df, rp + dr) {
            assert((t == (rp + dr) * 8 + (fp + df)) <==> (rt == rp + dr && ft == fp + df)) by (nonlinear_arith)
                requires t == rt * 8 + ft, 0 <= ft < 8, 0 <= fp + df < 8;
            assert((mirror_sq(t) == (7 - rp - dr) * 8 + (fp + df)) <==> (7 - rt == 7 - rp - dr && ft == fp + df))
                by (nonlinear_arith)
                requires mirror_sq(t) == (7 - rt) * 8 + ft, 0 <= ft < 8, 0 <= fp + df < 8;
        }
    }
    assert(step_to(p, t, -1, 1) == step_to(mirror_sq(p), mirror_sq(t), -1, -1));
    assert(step_to(p, t, 1, 1) == step_to(mirror_sq(p), mirror_sq(t), 1, -1));
    assert(step_to(p, t, -1, -1) == step_to(mirror_sq(p), mirror_sq(t), -1, 1));
    assert(step_to(p, t, 1, -1) == step_to(mirror_sq(p), mirror_sq(t), 1, 1));
}

/// Pawns of one colour attack a square exactly when the mirrored pawns of
/// the other colour attack the mirrored square.
proof fn lemma_attack_mirror(x: u64, y: u64, c: Color, t: nat)
    requires
        mirrored(x, y),
        t < 64,
    ensures
        pawns_attack(x, c, t) == pawns_attack(y, opposite(c), mirror_sq(t)),
{
    lemma_mirror(t);
    if pawns_attack(x, c, t) {
        let p = choose|p: u64| #[trigger] bit(x, p) && pawn_hits(p as nat, c, t);
        lemma_mirror(p as nat);
        lemma_hits_mirror(p as nat, c, t);
        let q = mirror_sq(p as nat) as u64;
        assert(bit(y, q));
        assert(pawn_hits(q as nat, opposite(c), mirror_sq(t)));
    }
    if pawns_attack(y, opposite(c), mirror_sq(t)) {
        let q = choose|q: u64| #[trigger] bit(y, q) && pawn_hits(q as nat, opposite(c), mirror_sq(t));
        lemma_mirror(q as nat);
        let p = mirror_sq(q as nat);
        lemma_hits_mirror(p, c, t);
        assert(bit(x, p as u64));
        assert(pawn_hits(p, c, t));
    }
}

/// A file's pawns have neighbours exactly when the mirrored pawns do.
proof fn lemma_isolated_mirror(x: u64, y: u64, f: int)
    requires
        mirrored(x, y),
    ensures
        isolated(f, x) == isolated(f, y),
{
    if isolated(f, x) {
        assert forall|t: u64| #[trigger] bit(y, t) implies !adjacent_file(f, file_of(t as nat) as int) by {
            lemma_mirror(t as nat);
            assert(bit(x, mirror_sq(t as nat) as u64));
        }
    }
    if isolated(f, y) {
        assert forall|t: u64| #[trigger] bit(x, t) implies !adjacent_file(f, file_of(t as nat) as int) by {
            lemma_mirror(t as nat);
            assert(bit(y, mirror_sq(t as nat) as u64));
        }
    }
}

/// A black pawn is passed exactly when the mirrored white pawn is.
proof fn lemma_passed_mirror(s: nat, e: u64, e2: u64)
    requires
        s < 64,
        mirrored(e, e2),
    ensures
        passed(s, Color::Black, e) == passed(mirror_sq(s), Color::White, e2),
{
    lemma_mirror(s);
    if passed(s, Color::Black, e) {
        assert forall|t: u64| #[trigger] bit(e2, t) implies !((file_of(t as nat) == file_of(mirror_sq(s))
            || adjacent_file(file_of(mirror_sq(s)) as int, file_of(t as nat) as int))
            && ahead(Color::White, mirror_sq(s), t as nat)) by {
            lemma_mirror(t as nat);
            assert(bit(e, mirror_sq(t as nat) as u64));
        }
    }
    if passed(mirror_sq(s), Color::White, e2) {
        assert forall|t: u64| #[trigger] bit(e, t) implies !((file_of(t as nat) == file_of(s)
            || adjacent_file(file_of(s) as int, file_of(t as nat) as int)) && ahead(Color::Black, s, t as nat)) by {
            lemma_mirror(t as nat);
            assert(bit(e2, mirror_sq(t as nat) as u64));
        }
    }
}

/// A black pawn is backward exactly when the mirrored white pawn is.
proof fn lemma_backward_mirror(s: nat, x: u64, e: u64, x2: u64, e2: u64)
    requires
        s < 64,
        mirrored(x, x2),
        mirrored(e, e2),
    ensures
        backward(s, Color::Black, x, e) == backward(mirror_sq(s), Color::White, x2, e2),
{
    lemma_mirror(s);
    lemma_square_parts(s);
    let r = rank_of(s) as int;
    if r > 0 {
        let front = (s - 8) as nat;
        lemma_square_parts(front);
        lemma_parts((r - 1) as nat, file_of(s));
        assert(front == (r - 1) * 8 + file_of(s));
        lemma_mirror(front);
        assert(mirror_sq(front) == mirror_sq(s) + 8);
        lemma_attack_mirror(e, e2, Color::White, front);
    }
    if backward(s, Color::Black, x, e) {
        assert forall|t: u64| #[trigger] bit(x2, t) implies !(adjacent_file(file_of(mirror_sq(s)) as int,
            file_of(t as nat) as int) && beyond(Color::White, rank_of(mirror_sq(s)) as int, rank_of(t as nat) as int,
            false)) by {
            lemma_mirror(t as nat);
            assert(bit(x, mirror_sq(t as nat) as u64));
        }
    }
    if backward(mirror_sq(s), Color::White, x2, e2) {
        assert forall|t: u64| #[trigger] bit(x, t) implies !(adjacent_file(file_of(s) as int, file_of(t as nat) as int)
            && beyond(Color::Black, r, rank_of(t as nat) as int, false)) by {
            lemma_mirror(t as nat);
            assert(bit(x2, mirror_sq(t as nat) as u64));
        }
    }
}

/// Colour symmetry of the pawn terms: a black pawn on `s`, with black
/// pawns `ours` and white pawns `enemy`, scores exactly what the white
/// pawn on the mirrored square scores with the mirrored pawns on both
/// sides; in particular a passed pawn's bonus goes by its rank counted
/// from its own side.
pub proof fn lemma_pawn_terms_mirror(s: nat, ours: u64, enemy: u64, ours2: u64, enemy2: u64)
    requires
        s < 64,
        mirrored(ours, ours2),
        mirrored(enemy, enemy2),
    ensures
        pawn_term_mg(s, Color::Black, ours, enemy) == pawn_term_mg(mirror_sq(s), Color::White, ours2, enemy2),
        pawn_term_eg(s, Color::Black, ours, enemy) == pawn_term_eg(mirror_sq(s), Color::White, ours2, enemy2),
{
    lemma_mirror(s);
    lemma_square_parts(s);
    let f = file_of(s);
    lemma_file_count_mirror(ours, ours2, f);
    lemma_isolated_mirror(ours, ours2, f as int);
    lemma_passed_mirror(s, enemy, enemy2);
    lemma_backward_mirror(s, ours, enemy, ours2, enemy2);
    lemma_attack_mirror(ours, ours2, Color::Black, s);
}

} // verus!
