use vstd::prelude::*;
use vstd::std_specs::bits::u64_trailing_zeros;
use crate::attacks::{king_attacks, king_hits};
use crate::bitboard::{Bitboard, bit, bit_sum, popcount, lemma_popcount_clear_lowest, lemma_popcount_bound,
    lemma_zero_iff_no_bits};
use crate::board::Board;
use crate::eval::material::bits_of;
use crate::eval::pawns::file_bitboard;
use crate::eval::phase::tdiv;
use crate::eval::pieces::on_file;
use crate::legality::{attacks_of, kind_hits};
use crate::piece::{Color, PieceType, opposite};
use crate::square::{Square, file_of, rank_of};

verus! {

/// Tropism bonus by Chebyshev distance.
pub const TROPISM_BONUS: [i32; 8] = [0, 10, 8, 6, 4, 2, 1, 0];

/// The square at file `f` and rank `r` if it lies on the board.
pub open spec fn square_at(f: int, r: int) -> Option<nat> {
    if 0 <= f < 8 && 0 <= r < 8 { Some((r * 8 + f) as nat) } else { None }
}

/// Whether a pawn of `ours` stands on square `sq`, when there is one.
pub open spec fn pawn_at(ours: u64, sq: Option<nat>) -> bool {
    sq matches Some(s) && bit(ours, s as u64)
}

/// A king of `c` on its back rank on files a-c or f-h.
pub open spec fn castled_or_central(k: nat, c: Color) -> bool {
    rank_of(k) == (match c { Color::White => 0nat, Color::Black => 7nat }) && (file_of(k) <= 2 || file_of(k) >= 5)
}

/// The shield term of file `f` for a king of `c` on `k`: 15/10 for a pawn
/// just in front, else 8/5 for one two squares ahead, else -10/-3 when the
/// king is castled or central.
pub open spec fn shield_term(f: int, k: nat, c: Color, ours: u64, eg: bool) -> int {
    let dir: int = match c { Color::White => 1, Color::Black => -1 };
    let r = rank_of(k) as int;
    if pawn_at(ours, square_at(f, r + dir)) {
        if eg { 10 } else { 15 }
    } else if pawn_at(ours, square_at(f, r + 2 * dir)) {
        if eg { 5 } else { 8 }
    } else if castled_or_central(k, c) {
        if eg { -3 } else { -10 }
    } else {
        0
    }
}

/// The sum of a term over the files `f - 1 ..= f + 1` that lie on the board.
pub open spec fn near_files_sum(f: int, term: spec_fn(int) -> int) -> int {
    (if f >= 1 { term(f - 1) } else { 0 }) + term(f) + (if f <= 6 { term(f + 1) } else { 0 })
}

/// The pawn shield of a king on `k`.
pub open spec fn pawn_shield(b: Board, k: nat, c: Color, eg: bool) -> int {
    near_files_sum(file_of(k) as int, |f: int| shield_term(f, k, c, bits_of(b, PieceType::Pawn, c), eg))
}

/// The shield term of one file.
fn shield_file(file: u8, king_sq: Square, color: Color, ours: Bitboard) -> (r: (i32, i32))
    requires
        file < 8,
    ensures
        r.0 == shield_term(file as int, king_sq@, color, ours.0, false),
        r.1 == shield_term(file as int, king_sq@, color, ours.0, true),
        -10 <= r.0 <= 15,
        -3 <= r.1 <= 10,
{
    let rank = king_sq.rank();
    let near = if color == Color::White {
        if rank < 7 { ours.contains(Square::from_coords(file, rank + 1)) } else { false }
    } else {
        if rank > 0 { ours.contains(Square::from_coords(file, rank - 1)) } else { false }
    };
    if near {
        return (15, 10);
    }
    let far = if color == Color::White {
        if rank < 6 { ours.contains(Square::from_coords(file, rank + 2)) } else { false }
    } else {
        if rank > 1 { ours.contains(Square::from_coords(file, rank - 2)) } else { false }
    };
    if far {
        return (8, 5);
    }
    let kf = king_sq.file();
    let home: u8 = if color == Color::White { 0 } else { 7 };
    if rank == home && (kf <= 2 || kf >= 5) {
        (-10, -3)
    } else {
        (0, 0)
    }
}

/// The pawn shield of the king on `king_sq` as (middlegame, endgame).
pub fn evaluate_pawn_shield(board: &Board, king_sq: Square, color: Color) -> (r: (i32, i32))
    ensures
        r.0 == pawn_shield(*board, king_sq@, color, false),
        r.1 == pawn_shield(*board, king_sq@, color, true),
        -30 <= r.0 <= 45,
        -9 <= r.1 <= 30,
{
    let ours = board.piece_bb(PieceType::Pawn, color);
    let kf = king_sq.file();
    let (m1, e1) = if kf >= 1 { shield_file(kf - 1, king_sq, color, ours) } else { (0, 0) };
    let (m2, e2) = shield_file(kf, king_sq, color, ours);
    let (m3, e3) = if kf <= 6 { shield_file(kf + 1, king_sq, color, ours) } else { (0, 0) };
    (m1 + m2 + m3, e1 + e2 + e3)
}

/// The squares of a king's zone: its square and the squares around it.
pub open spec fn in_zone(k: nat, t: nat) -> bool {
    t < 64 && (t == k || king_hits(k, t))
}

/// The king zone of a square.
pub fn get_king_zone(king_sq: Square) -> (r: Bitboard)
    ensures
        forall|t: u64| #[trigger] bit(r.0, t) == in_zone(king_sq@, t as nat),
{
    king_sq.index_bound();
    king_attacks(king_sq).set(king_sq)
}

/// The attack weight of a piece kind: queen 4, rook 3, bishop and knight 2,
/// pawn 1.
pub open spec fn attack_weight(kind: PieceType) -> int {
    match kind {
        PieceType::Queen => 4,
        PieceType::Rook => 3,
        PieceType::Bishop => 2,
        PieceType::Knight => 2,
        PieceType::Pawn => 1,
        PieceType::King => 0,
    }
}

/// The weight a piece of `kind` of color `e` on `s` adds when it attacks a
/// square of the zone of `k`.
pub open spec fn attacker_term(s: nat, kind: PieceType, e: Color, occ: u64, k: nat) -> int {
    if exists|t: nat| #[trigger] in_zone(k, t) && kind_hits(kind, s, e, occ, t) { attack_weight(kind) } else { 0 }
}

/// The attack weight of the enemy pieces of one kind on the zone of `k`.
pub open spec fn kind_attack_weight(b: Board, kind: PieceType, c: Color, k: nat) -> int {
    bit_sum(bits_of(b, kind, opposite(c)), |s: nat| attacker_term(s, kind, opposite(c), b.occ_bits(), k))
}

/// The attack weight of the enemy queens, rooks, bishops, knights and pawns.
pub open spec fn total_attack_weight(b: Board, c: Color, k: nat) -> int {
    kind_attack_weight(b, PieceType::Queen, c, k) + kind_attack_weight(b, PieceType::Rook, c, k)
        + kind_attack_weight(b, PieceType::Bishop, c, k) + kind_attack_weight(b, PieceType::Knight, c, k)
        + kind_attack_weight(b, PieceType::Pawn, c, k)
}

/// The penalty for an attack weight.
pub open spec fn attack_penalty(w: int) -> int {
    if w <= 2 { 0 } else if w <= 5 { -20 } else if w <= 9 { -50 } else if w <= 15 { -100 } else { -200 }
}

/// The attack weight of the enemy pieces of one kind.
fn kind_weight(board: &Board, kind: PieceType, color: Color, king_sq: Square, zone: Bitboard) -> (r: i32)
    requires
        board.wf(),
        kind != PieceType::King,
        forall|t: u64| #[trigger] bit(zone.0, t) == in_zone(king_sq@, t as nat),
    ensures
        r == kind_attack_weight(*board, kind, color, king_sq@),
        0 <= r <= 256,
{
    let enemy = color.opponent();
    let occ = board.occupied();
    let pieces = board.piece_bb(kind, enemy);
    let w: i32 = match kind {
        PieceType::Queen => 4,
        PieceType::Rook => 3,
        PieceType::Bishop => 2,
        PieceType::Knight => 2,
        _ => 1,
    };
    let ghost f = |s: nat| attacker_term(s, kind, enemy, occ.0, king_sq@);
    let mut total: i32 = 0;
    let mut rest = pieces;
    proof {
        lemma_popcount_bound(pieces.0);
    }
    while rest.0 != 0
        invariant
            f == (|s: nat| attacker_term(s, kind, enemy, occ.0, king_sq@)),
            w == attack_weight(kind),
            1 <= w <= 4,
            forall|t: u64| #[trigger] bit(zone.0, t) == in_zone(king_sq@, t as nat),
            total + bit_sum(rest.0, f) == bit_sum(pieces.0, f),
            popcount(rest.0) <= popcount(pieces.0) <= 64,
            0 <= total <= 4 * (popcount(pieces.0) - popcount(rest.0)),
        decreases popcount(rest.0),
    {
        let ghost before = rest.0;
        let sq = rest.pop_lsb().unwrap();
        proof {
            lemma_popcount_clear_lowest(before);
            let k = popcount(pieces.0) - popcount(before);
            assert(4 * (k + 1) == 4 * k + 4) by (nonlinear_arith);
        }
        let hit = attacks_of(kind, sq, enemy, occ).and(zone);
        proof {
            lemma_zero_iff_no_bits(hit.0);
            if hit.0 != 0 {
                let t = choose|t: u64| t < 64 && bit(hit.0, t);
                assert(in_zone(king_sq@, t as nat) && kind_hits(kind, sq@, enemy, occ.0, t as nat));
            } else {
                assert forall|t: nat| !(#[trigger] in_zone(king_sq@, t) && kind_hits(kind, sq@, enemy, occ.0, t)) by {
                    if in_zone(king_sq@, t) {
                        assert(!bit(hit.0, t as u64));
                    }
                }
            }
        }
        if !hit.is_empty() {
            total = total + w;
        }
    }
    total
}

/// The penalty for the enemy pieces bearing on the zone of the king on
/// `king_sq`.
pub fn evaluate_king_attackers(board: &Board, king_sq: Square, color: Color) -> (r: i32)
    requires
        board.wf(),
    ensures
        r == attack_penalty(total_attack_weight(*board, color, king_sq@)),
{
    let zone = get_king_zone(king_sq);
    let q = kind_weight(board, PieceType::Queen, color, king_sq, zone);
    let rk = kind_weight(board, PieceType::Rook, color, king_sq, zone);
    let bs = kind_weight(board, PieceType::Bishop, color, king_sq, zone);
    let n = kind_weight(board, PieceType::Knight, color, king_sq, zone);
    let p = kind_weight(board, PieceType::Pawn, color, king_sq, zone);
    let weight = q + rk + bs + n + p;
    if weight <= 2 {
        0
    } else if weight <= 5 {
        -20
    } else if weight <= 9 {
        -50
    } else if weight <= 15 {
        -100
    } else {
        -200
    }
}

/// The file term near a king: an open file (no pawns) -25/-8 on the king's
/// file, -12/-4 next to it; a semi-open file (only enemy pawns) -12/-4 on
/// the king's file, -6/0 next to it.
pub open spec fn king_file_term(f: int, kf: int, ours: u64, enemy: u64, eg: bool) -> int {
    if !on_file(ours, f) && !on_file(enemy, f) {
        if f == kf { if eg { -8int } else { -25 } } else { if eg { -4int } else { -12 } }
    } else if !on_file(ours, f) {
        if f == kf { if eg { -4int } else { -12 } } else { if eg { 0int } else { -6 } }
    } else {
        0
    }
}

/// The open-file terms around a king on `k`.
pub open spec fn open_files_near_king(b: Board, k: nat, c: Color, eg: bool) -> int {
    near_files_sum(file_of(k) as int, |f: int| king_file_term(f, file_of(k) as int,
        bits_of(b, PieceType::Pawn, c), bits_of(b, PieceType::Pawn, opposite(c)), eg))
}

/// The file term of one file near the king.
fn file_near_king(file: u8, king_file: u8, ours: Bitboard, enemy: Bitboard) -> (r: (i32, i32))
    requires
        file < 8,
    ensures
        r.0 == king_file_term(file as int, king_file as int, ours.0, enemy.0, false),
        r.1 == king_file_term(file as int, king_file as int, ours.0, enemy.0, true),
        -25 <= r.0 <= 0,
        -8 <= r.1 <= 0,
{
    let mask = file_bitboard(file);
    let has_ours = ours.and(mask).count() > 0;
    let has_enemy = enemy.and(mask).count() > 0;
    if !has_ours && !has_enemy {
        if file == king_file { (-25, -8) } else { (-12, -4) }
    } else if !has_ours {
        if file == king_file { (-12, -4) } else { (-6, 0) }
    } else {
        (0, 0)
    }
}

/// The open-file terms around the king on `king_sq` as (middlegame,
/// endgame).
pub fn evaluate_open_files_near_king(board: &Board, king_sq: Square, color: Color) -> (r: (i32, i32))
    ensures
        r.0 == open_files_near_king(*board, king_sq@, color, false),
        r.1 == open_files_near_king(*board, king_sq@, color, true),
        -75 <= r.0 <= 0,
        -24 <= r.1 <= 0,
{
    let ours = board.piece_bb(PieceType::Pawn, color);
    let enemy = board.piece_bb(PieceType::Pawn, color.opponent());
    let kf = king_sq.file();
    let (m1, e1) = if kf >= 1 { file_near_king(kf - 1, kf, ours, enemy) } else { (0, 0) };
    let (m2, e2) = file_near_king(kf, kf, ours, enemy);
    let (m3, e3) = if kf <= 6 { file_near_king(kf + 1, kf, ours, enemy) } else { (0, 0) };
    (m1 + m2 + m3, e1 + e2 + e3)
}

/// The Chebyshev distance between two squares.
pub open spec fn distance(a: nat, b: nat) -> nat {
    let df = if file_of(a) >= file_of(b) { file_of(a) - file_of(b) } else { file_of(b) - file_of(a) };
    let dr = if rank_of(a) >= rank_of(b) { rank_of(a) - rank_of(b) } else { rank_of(b) - rank_of(a) };
    (if df >= dr { df } else { dr }) as nat
}

/// The Chebyshev distance between two squares.
pub fn chebyshev_distance(sq1: Square, sq2: Square) -> (r: u8)
    ensures
        r == distance(sq1@, sq2@),
        r < 8,
{
    let f1 = sq1.file();
    let f2 = sq2.file();
    let r1 = sq1.rank();
    let r2 = sq2.rank();
    let df = if f1 >= f2 { f1 - f2 } else { f2 - f1 };
    let dr = if r1 >= r2 { r1 - r2 } else { r2 - r1 };
    if df >= dr { df } else { dr }
}

/// The tropism of the enemy pieces of one kind toward a king on `k`.
pub open spec fn kind_tropism(b: Board, kind: PieceType, c: Color, k: nat) -> int {
    bit_sum(bits_of(b, kind, opposite(c)), |s: nat| TROPISM_BONUS@[distance(k, s) as int] as int)
}

/// The tropism penalty: minus the bonus of each enemy queen, rook, bishop
/// and knight by its distance to the king.
pub open spec fn tropism(b: Board, k: nat, c: Color) -> int {
    -(kind_tropism(b, PieceType::Queen, c, k) + kind_tropism(b, PieceType::Rook, c, k)
        + kind_tropism(b, PieceType::Bishop, c, k) + kind_tropism(b, PieceType::Knight, c, k))
}

/// The tropism bonus of the enemy pieces of one kind.
fn kind_tropism_sum(board: &Board, kind: PieceType, color: Color, king_sq: Square) -> (r: i32)
    ensures
        r == kind_tropism(*board, kind, color, king_sq@),
        0 <= r <= 640,
{
    let pieces = board.piece_bb(kind, color.opponent());
    let ghost f = |s: nat| TROPISM_BONUS@[distance(king_sq@, s) as int] as int;
    let mut total: i32 = 0;
    let mut rest = pieces;
    proof {
        lemma_popcount_bound(pieces.0);
    }
    while rest.0 != 0
        invariant
            f == (|s: nat| TROPISM_BONUS@[distance(king_sq@, s) as int] as int),
            total + bit_sum(rest.0, f) == bit_sum(pieces.0, f),
            popcount(rest.0) <= popcount(pieces.0) <= 64,
            0 <= total <= 10 * (popcount(pieces.0) - popcount(rest.0)),
        decreases popcount(rest.0),
    {
        let ghost before = rest.0;
        let sq = rest.pop_lsb().unwrap();
        proof {
            lemma_popcount_clear_lowest(before);
            let k = popcount(pieces.0) - popcount(before);
            assert(10 * (k + 1) == 10 * k + 10) by (nonlinear_arith);
        }
        let d = chebyshev_distance(king_sq, sq);
        total = total + TROPISM_BONUS[d as usize];
    }
    total
}

/// The tropism penalty for the king on `king_sq` (see `tropism`).
pub fn evaluate_king_tropism(board: &Board, king_sq: Square, color: Color) -> (r: i32)
    ensures
        r == tropism(*board, king_sq@, color),
        -2560 <= r <= 0,
{
    let q = kind_tropism_sum(board, PieceType::Queen, color, king_sq);
    let rk = kind_tropism_sum(board, PieceType::Rook, color, king_sq);
    let b = kind_tropism_sum(board, PieceType::Bishop, color, king_sq);
    let n = kind_tropism_sum(board, PieceType::Knight, color, king_sq);
    -(q + rk + b + n)
}

/// The king safety of a color: nothing without a king; else, for its
/// king (its lowest square), the shield and open-file terms, and before
/// phase 200 the attack penalty (a quarter of it in the endgame) and the
/// tropism penalty (middlegame only).
pub open spec fn king_safety(b: Board, c: Color, phase: int, eg: bool) -> int {
    let kings = bits_of(b, PieceType::King, c);
    if kings == 0 {
        0
    } else {
        let k = u64_trailing_zeros(kings) as nat;
        let attack = attack_penalty(total_attack_weight(b, c, k));
        pawn_shield(b, k, c, eg) + open_files_near_king(b, k, c, eg)
            + (if phase < 200 { if eg { tdiv(attack, 4) } else { attack } } else { 0 })
            + (if phase < 200 && !eg { tropism(b, k, c) } else { 0 })
    }
}

/// The king safety of a color as (middlegame, endgame) terms.
pub fn evaluate_king_safety(board: &Board, color: Color, phase: i32) -> (r: (i32, i32))
    requires
        board.wf(),
    ensures
        r.0 == king_safety(*board, color, phase as int, false),
        r.1 == king_safety(*board, color, phase as int, true),
        -3000 <= r.0 <= 100,
        -300 <= r.1 <= 100,
{
    let kings = board.piece_bb(PieceType::King, color);
    let king_sq = match kings.lsb() {
        None => {
            return (0, 0);
        },
        Some(k) => k,
    };
    let (shield_mg, shield_eg) = evaluate_pawn_shield(board, king_sq, color);
    let mut mg = shield_mg;
    let mut eg = shield_eg;
    if phase < 200 {
        let attack = evaluate_king_attackers(board, king_sq, color);
        mg = mg + attack;
        eg = eg + attack / 4;
    }
    let (file_mg, file_eg) = evaluate_open_files_near_king(board, king_sq, color);
    mg = mg + file_mg;
    eg = eg + file_eg;
    if phase < 200 {
        let t = evaluate_king_tropism(board, king_sq, color);
        mg = mg + t;
    }
    (mg, eg)
}

} // verus!
