use vstd::prelude::*;
use crate::attacks::{pawn_attacks as pawn_attacks_from, pawn_hits};
use crate::bitboard::{Bitboard, bit, bit_sum, popcount, lemma_bit_sum_bound, lemma_popcount_clear_lowest,
    lemma_popcount_bound, lemma_zero_iff_no_bits};
use crate::board::Board;
use crate::piece::{Color, Piece, PieceType, opposite, color_index, kind_index};
use crate::square::{Square, file_of, rank_of};
use crate::zobrist::{piece_key, piece_key_of};

verus! {

/// Doubled pawn penalty by file.
pub const DOUBLED_PAWN: [i32; 8] = [-15, -12, -18, -20, -20, -18, -12, -15];

/// Passed pawn bonus by rank from the pawn's own side, middlegame.
pub const PASSED_PAWN_MG: [i32; 8] = [0, 0, 10, 15, 30, 50, 80, 0];

/// Passed pawn bonus by rank from the pawn's own side, endgame.
pub const PASSED_PAWN_EG: [i32; 8] = [0, 0, 15, 25, 50, 90, 150, 0];

/// The squares of a file.
pub fn file_bitboard(file: u8) -> (r: Bitboard)
    requires
        file < 8,
    ensures
        r.0 == 0x0101010101010101u64 << (file as u64),
        forall|i: u64| #[trigger] bit(r.0, i) == (i < 64 && file_of(i as nat) == file),
{
    let x: u64 = 0x0101010101010101u64 << file as u64;
    proof {
        lemma_file_mask(file as u64);
    }
    Bitboard::new(x)
}

/// The bits of the file mask shifted to file `f` are the squares of that file.
pub proof fn lemma_file_mask(f: u64)
    requires
        f < 8,
    ensures
        forall|i: u64| #[trigger] bit(0x0101010101010101u64 << f, i) == (i < 64 && file_of(i as nat) == f),
{
    assert forall|i: u64| #[trigger] bit(0x0101010101010101u64 << f, i) == (i < 64 && file_of(i as nat) == f) by {
        assert(f < 8 ==> (i < 64 && ((0x0101010101010101u64 << f) >> i) & 1u64 == 1u64 <==> i < 64 && i % 8 == f)) by (bit_vector);
    }
}

/// Whether file `g` is next to file `f`.
pub open spec fn adjacent_file(f: int, g: int) -> bool {
    g == f - 1 || g == f + 1
}

/// The squares of the files next to a file.
pub fn adjacent_files_bitboard(file: u8) -> (r: Bitboard)
    requires
        file < 8,
    ensures
        forall|i: u64| #[trigger] bit(r.0, i) == (i < 64 && adjacent_file(file as int, file_of(i as nat) as int)),
{
    let mut mask = Bitboard::new(0);
    proof {
        crate::bitboard::lemma_bit_zero();
    }
    if file > 0 {
        mask = mask.or(file_bitboard(file - 1));
    }
    if file < 7 {
        mask = mask.or(file_bitboard(file + 1));
    }
    mask
}

/// Whether square `t` lies ahead of square `s` for a pawn of color `c`.
pub open spec fn ahead(c: Color, s: nat, t: nat) -> bool {
    match c {
        Color::White => rank_of(t) > rank_of(s),
        Color::Black => rank_of(t) < rank_of(s),
    }
}

/// A pawn of color `c` on `s` is passed when no enemy pawn stands ahead of
/// it on its own or an adjacent file.
pub open spec fn passed(s: nat, c: Color, enemy: u64) -> bool {
    forall|t: u64| #[trigger] bit(enemy, t) ==> !((file_of(t as nat) == file_of(s)
        || adjacent_file(file_of(s) as int, file_of(t as nat) as int)) && ahead(c, s, t as nat))
}

/// Whether rank `t` is beyond rank `r` from the side of color `c`
/// (strictly, or from `r` on).
pub open spec fn beyond(c: Color, r: int, t: int, strict: bool) -> bool {
    match c {
        Color::White => if strict { t > r } else { t >= r },
        Color::Black => if strict { t < r } else { t <= r },
    }
}

/// The squares on ranks beyond `rank` from the side of `color`.
pub fn rank_span(color: Color, rank: u8, strict: bool) -> (r: Bitboard)
    requires
        rank < 8,
    ensures
        forall|i: u64| #[trigger] bit(r.0, i) == (i < 64 && beyond(color, rank as int, rank_of(i as nat) as int, strict)),
{
    let mut mask = Bitboard::new(0);
    proof {
        crate::bitboard::lemma_bit_zero();
    }
    let mut r: u8 = 0;
    while r < 8
        invariant
            r <= 8,
            rank < 8,
            forall|i: u64| #[trigger] bit(mask.0, i) == (i < 64 && rank_of(i as nat) < r
                && beyond(color, rank as int, rank_of(i as nat) as int, strict)),
        decreases 8 - r,
    {
        let in_span = if color == Color::White {
            if strict { r > rank } else { r >= rank }
        } else {
            if strict { r < rank } else { r <= rank }
        };
        if in_span {
            mask = mask.or(rank_bitboard(r));
        }
        r += 1;
    }
    mask
}

/// The squares ahead of `sq` on its own and adjacent files, from the side
/// of `color`.
pub fn passed_pawn_mask(sq: Square, color: Color) -> (r: Bitboard)
    ensures
        forall|i: u64| #[trigger] bit(r.0, i) == (i < 64 && (file_of(i as nat) == file_of(sq@)
            || adjacent_file(file_of(sq@) as int, file_of(i as nat) as int)) && ahead(color, sq@, i as nat)),
{
    let file = sq.file();
    let rank = sq.rank();
    let files = file_bitboard(file).or(adjacent_files_bitboard(file));
    files.and(rank_span(color, rank, true))
}

/// The squares of a rank.
pub fn rank_bitboard(rank: u8) -> (r: Bitboard)
    requires
        rank < 8,
    ensures
        forall|i: u64| #[trigger] bit(r.0, i) == (i < 64 && rank_of(i as nat) == rank),
{
    let x: u64 = 0xFFu64 << (rank as u64 * 8);
    proof {
        let s: u64 = (rank as u64 * 8) as u64;
        assert forall|i: u64| #[trigger] bit(0xFFu64 << s, i) == (i < 64 && rank_of(i as nat) == rank) by {
            assert(s < 64 && s % 8 == 0 ==> (i < 64 && ((0xFFu64 << s) >> i) & 1u64 == 1u64 <==> i < 64 && s <= i && i < s + 8)) by (bit_vector);
        }
    }
    Bitboard::new(x)
}

/// Whether a pawn of `color` on `sq` is passed (see `passed`).
pub fn is_passed(sq: Square, color: Color, enemy_pawns: Bitboard) -> (r: bool)
    ensures
        r == passed(sq@, color, enemy_pawns.0),
{
    let mask = passed_pawn_mask(sq, color);
    let blockers = enemy_pawns.and(mask);
    proof {
        lemma_zero_iff_no_bits(blockers.0);
        if blockers.0 == 0 {
            assert forall|t: u64| #[trigger] bit(enemy_pawns.0, t) implies !((file_of(t as nat) == file_of(sq@)
                || adjacent_file(file_of(sq@) as int, file_of(t as nat) as int)) && ahead(color, sq@, t as nat)) by {
                assert(!bit(blockers.0, t));
            }
        } else {
            let t = choose|t: u64| bit(blockers.0, t);
            assert(bit(enemy_pawns.0, t) && bit(mask.0, t));
        }
    }
    blockers.is_empty()
}

/// The squares attacked by a set of pawns of a color.
pub open spec fn pawns_attack(pawns: u64, c: Color, t: nat) -> bool {
    exists|p: u64| #[trigger] bit(pawns, p) && pawn_hits(p as nat, c, t)
}

/// The squares attacked by the pawns of a bitboard.
pub fn pawn_attacks(pawns: Bitboard, color: Color) -> (r: Bitboard)
    ensures
        forall|t: u64| #[trigger] bit(r.0, t) == (t < 64 && pawns_attack(pawns.0, color, t as nat)),
{
    let mut attacks = Bitboard::new(0);
    let mut rest = pawns;
    proof {
        crate::bitboard::lemma_bit_zero();
    }
    while rest.0 != 0
        invariant
            forall|i: u64| #[trigger] bit(rest.0, i) ==> bit(pawns.0, i),
            forall|t: u64| #[trigger] bit(attacks.0, t) == (t < 64 && exists|p: u64| #[trigger] bit(pawns.0, p)
                && !bit(rest.0, p) && pawn_hits(p as nat, color, t as nat)),
        decreases popcount(rest.0),
    {
        let ghost before = rest.0;
        let sq = rest.pop_lsb().unwrap();
        proof {
            lemma_popcount_clear_lowest(before);
        }
        let a = pawn_attacks_from(sq, color);
        attacks = attacks.or(a);
        proof {
            assert forall|t: u64| #[trigger] bit(attacks.0, t) == (t < 64 && exists|p: u64| #[trigger] bit(pawns.0, p)
                && !bit(rest.0, p) && pawn_hits(p as nat, color, t as nat)) by {
                if t < 64 && pawn_hits(sq@, color, t as nat) {
                    assert(bit(pawns.0, sq@ as u64) && !bit(rest.0, sq@ as u64));
                }
                if t < 64 && exists|p: u64| #[trigger] bit(pawns.0, p) && !bit(before, p) && pawn_hits(p as nat, color, t as nat) {
                    let p = choose|p: u64| #[trigger] bit(pawns.0, p) && !bit(before, p) && pawn_hits(p as nat, color, t as nat);
                    assert(!bit(rest.0, p));
                }
            }
        }
    }
    proof {
        lemma_zero_iff_no_bits(rest.0);
    }
    attacks
}

/// A pawn on `s` is protected when a friendly pawn attacks its square.
pub open spec fn protected(s: nat, c: Color, ours: u64) -> bool {
    pawns_attack(ours, c, s)
}

/// Whether the pawn on `sq` is protected by a pawn of its side.
pub fn is_protected_by_pawn(sq: Square, color: Color, our_pawns: Bitboard) -> (r: bool)
    ensures
        r == protected(sq@, color, our_pawns.0),
{
    let protectors = pawn_attacks(our_pawns, color);
    sq.index_bound();
    protectors.contains(sq)
}

/// A pawn is backward when the square in front of it exists and is
/// attacked by an enemy pawn while no friendly pawn stands on an adjacent
/// file at its rank or further forward.
pub open spec fn backward(s: nat, c: Color, ours: u64, enemy: u64) -> bool {
    let r = rank_of(s) as int;
    let front: int = match c { Color::White => s + 8int, Color::Black => s - 8 };
    &&& match c { Color::White => r < 7, Color::Black => r > 0 }
    &&& pawns_attack(enemy, opposite(c), front as nat)
    &&& forall|t: u64| #[trigger] bit(ours, t) ==> !(adjacent_file(file_of(s) as int, file_of(t as nat) as int)
        && beyond(c, r, rank_of(t as nat) as int, false))
}

/// Whether the pawn on `sq` is backward (see `backward`).
pub fn is_backward(sq: Square, color: Color, our_pawns: Bitboard, enemy_pawns: Bitboard) -> (r: bool)
    ensures
        r == backward(sq@, color, our_pawns.0, enemy_pawns.0),
{
    let file = sq.file();
    let rank = sq.rank();
    sq.index_bound();
    let front = if color == Color::White {
        if rank >= 7 {
            return false;
        }
        Square::from_coords(file, rank + 1)
    } else {
        if rank == 0 {
            return false;
        }
        Square::from_coords(file, rank - 1)
    };
    let enemy_control = pawn_attacks(enemy_pawns, color.opponent());
    if enemy_control.contains(front) {
        let support = our_pawns.and(adjacent_files_bitboard(file)).and(rank_span(color, rank, false));
        proof {
            lemma_zero_iff_no_bits(support.0);
            if support.0 == 0 {
                assert forall|t: u64| #[trigger] bit(our_pawns.0, t) implies !(adjacent_file(file_of(sq@) as int, file_of(t as nat) as int)
                    && beyond(color, rank_of(sq@) as int, rank_of(t as nat) as int, false)) by {
                    assert(!bit(support.0, t));
                }
            } else {
                let t = choose|t: u64| bit(support.0, t);
                assert(bit(our_pawns.0, t));
            }
        }
        return support.is_empty();
    }
    false
}

/// Whether no friendly pawn stands on a file next to file `f`.
pub open spec fn isolated(f: int, ours: u64) -> bool {
    forall|t: u64| #[trigger] bit(ours, t) ==> !adjacent_file(f, file_of(t as nat) as int)
}

/// Whether the pawns of `ours` leave file `file` without neighbours.
fn is_isolated(file: u8, ours: Bitboard) -> (r: bool)
    requires
        file < 8,
    ensures
        r == isolated(file as int, ours.0),
{
    let neighbours = ours.and(adjacent_files_bitboard(file));
    proof {
        lemma_zero_iff_no_bits(neighbours.0);
        if neighbours.0 == 0 {
            assert forall|t: u64| #[trigger] bit(ours.0, t) implies !adjacent_file(file as int, file_of(t as nat) as int) by {
                assert(!bit(neighbours.0, t));
            }
        } else {
            let t = choose|t: u64| bit(neighbours.0, t);
            assert(bit(ours.0, t));
        }
    }
    neighbours.is_empty()
}

/// The middlegame term of one pawn.
pub open spec fn pawn_term_mg(s: nat, c: Color, ours: u64, enemy: u64) -> int {
    let f = file_of(s) as int;
    let isolated = isolated(f, ours);
    let rel = match c { Color::White => rank_of(s) as int, Color::Black => 7 - rank_of(s) as int };
    (if pawns_on_file(ours, f) > 1 { DOUBLED_PAWN@[f] as int } else { 0 })
        + (if isolated { -15int } else { 0 })
        + (if isolated && backward(s, c, ours, enemy) { -10int } else { 0 })
        + (if passed(s, c, enemy) { PASSED_PAWN_MG@[rel] as int } else { 0 })
        + (if protected(s, c, ours) { 5int } else { 0 })
}

/// The endgame term of one pawn.
pub open spec fn pawn_term_eg(s: nat, c: Color, ours: u64, enemy: u64) -> int {
    let f = file_of(s) as int;
    let isolated = isolated(f, ours);
    let rel = match c { Color::White => rank_of(s) as int, Color::Black => 7 - rank_of(s) as int };
    (if pawns_on_file(ours, f) > 1 { DOUBLED_PAWN@[f] as int } else { 0 })
        + (if isolated { -20int } else { 0 })
        + (if isolated && backward(s, c, ours, enemy) { -15int } else { 0 })
        + (if passed(s, c, enemy) { PASSED_PAWN_EG@[rel] as int } else { 0 })
        + (if protected(s, c, ours) { 10int } else { 0 })
}

/// The number of pawns of a bitboard on file `f`.
pub open spec fn pawns_on_file(pawns: u64, f: int) -> nat {
    popcount(pawns & (0x0101010101010101u64 << (f as u64)))
}

/// The middlegame and endgame terms of one pawn.
fn pawn_terms(sq: Square, color: Color, ours: Bitboard, enemy: Bitboard) -> (r: (i32, i32))
    ensures
        r.0 == pawn_term_mg(sq@, color, ours.0, enemy.0),
        r.1 == pawn_term_eg(sq@, color, ours.0, enemy.0),
        -100 <= r.0 <= 100,
        -100 <= r.1 <= 200,
{
    let file = sq.file();
    let rank = sq.rank();
    sq.index_bound();
    let file_mask = file_bitboard(file);
    let on_file = ours.and(file_mask).count();
    let mut mg: i32 = 0;
    let mut eg: i32 = 0;
    if on_file > 1 {
        mg = mg + DOUBLED_PAWN[file as usize];
        eg = eg + DOUBLED_PAWN[file as usize];
    }
    let isolated = is_isolated(file, ours);
    if isolated {
        mg = mg - 15;
        eg = eg - 20;
    }
    if isolated && is_backward(sq, color, ours, enemy) {
        mg = mg - 10;
        eg = eg - 15;
    }
    if is_passed(sq, color, enemy) {
        let rel = if color == Color::White { rank as usize } else { (7 - rank) as usize };
        mg = mg + PASSED_PAWN_MG[rel];
        eg = eg + PASSED_PAWN_EG[rel];
    }
    if is_protected_by_pawn(sq, color, ours) {
        mg = mg + 5;
        eg = eg + 10;
    }
    (mg, eg)
}

/// The number of pawn islands: groups of pawns on adjacent files.
pub open spec fn islands(pawns: u64, n: nat) -> nat
    decreases n,
{
    if n == 0 {
        0
    } else {
        let f = (n - 1) as int;
        islands(pawns, (n - 1) as nat) + if pawns_on_file(pawns, f) > 0 && (f == 0 || pawns_on_file(pawns, f - 1) == 0) { 1nat } else { 0 }
    }
}

/// Count the pawn islands of a set of pawns.
pub fn count_pawn_islands(pawns: Bitboard) -> (r: u32)
    ensures
        r == islands(pawns.0, 8),
        r <= 8,
{
    let mut count: u32 = 0;
    let mut in_island = false;
    let mut file: u8 = 0;
    while file < 8
        invariant
            file <= 8,
            count == islands(pawns.0, file as nat),
            count <= file,
            file > 0 ==> in_island == (pawns_on_file(pawns.0, file - 1) > 0),
            file == 0 ==> !in_island,
        decreases 8 - file,
    {
        let has_pawn = pawns.and(file_bitboard(file)).count() > 0;
        if has_pawn && !in_island {
            count += 1;
            in_island = true;
        } else if !has_pawn {
            in_island = false;
        }
        file += 1;
    }
    count
}

/// The pawn structure terms of one side: the sum of each pawn's terms,
/// less the island penalty.
pub open spec fn structure_mg(b: Board, c: Color) -> int {
    let ours = b.slot_bits((color_index(c) * 6) as int);
    let enemy = b.slot_bits((color_index(opposite(c)) * 6) as int);
    let n = islands(ours, 8) as int;
    bit_sum(ours, |s: nat| pawn_term_mg(s, c, ours, enemy)) + if n > 1 { (n - 1) * -10 } else { 0 }
}

/// The endgame pawn structure of one side.
pub open spec fn structure_eg(b: Board, c: Color) -> int {
    let ours = b.slot_bits((color_index(c) * 6) as int);
    let enemy = b.slot_bits((color_index(opposite(c)) * 6) as int);
    let n = islands(ours, 8) as int;
    bit_sum(ours, |s: nat| pawn_term_eg(s, c, ours, enemy)) + if n > 1 { (n - 1) * -15 } else { 0 }
}

/// The pawn structure of one side as (middlegame, endgame) terms.
pub fn evaluate_pawn_structure(board: &Board, color: Color) -> (r: (i32, i32))
    ensures
        r.0 == structure_mg(*board, color),
        r.1 == structure_eg(*board, color),
        -7000 <= r.0 <= 7000,
        -7000 <= r.1 <= 13000,
{
    let ours = board.piece_bb(PieceType::Pawn, color);
    let enemy = board.piece_bb(PieceType::Pawn, color.opponent());
    let ghost fm = |s: nat| pawn_term_mg(s, color, ours.0, enemy.0);
    let ghost fe = |s: nat| pawn_term_eg(s, color, ours.0, enemy.0);
    let mut mg: i32 = 0;
    let mut eg: i32 = 0;
    let mut rest = ours;
    proof {
        lemma_popcount_bound(ours.0);
    }
    while rest.0 != 0
        invariant
            fm == (|s: nat| pawn_term_mg(s, color, ours.0, enemy.0)),
            fe == (|s: nat| pawn_term_eg(s, color, ours.0, enemy.0)),
            mg + bit_sum(rest.0, fm) == bit_sum(ours.0, fm),
            eg + bit_sum(rest.0, fe) == bit_sum(ours.0, fe),
            popcount(rest.0) <= popcount(ours.0) <= 64,
            -100 * (popcount(ours.0) - popcount(rest.0)) <= mg <= 100 * (popcount(ours.0) - popcount(rest.0)),
            -100 * (popcount(ours.0) - popcount(rest.0)) <= eg <= 200 * (popcount(ours.0) - popcount(rest.0)),
        decreases popcount(rest.0),
    {
        let ghost before = rest.0;
        let sq = rest.pop_lsb().unwrap();
        proof {
            lemma_popcount_clear_lowest(before);
        }
        let (m, e) = pawn_terms(sq, color, ours, enemy);
        proof {
            let k = popcount(ours.0) - popcount(before);
            assert(100 * (k + 1) == 100 * k + 100) by (nonlinear_arith);
            assert(200 * (k + 1) == 200 * k + 200) by (nonlinear_arith);
            assert(-100 * (k + 1) == -100 * k - 100) by (nonlinear_arith);
        }
        mg = mg + m;
        eg = eg + e;
    }
    let n = count_pawn_islands(ours);
    if n > 1 {
        let penalty = (n - 1) as i32;
        mg = mg + penalty * -10;
        eg = eg + penalty * -15;
    }
    (mg, eg)
}

/// The pawn key: the piece keys of all pawns combined.
pub open spec fn pawn_key_of(b: Board) -> u64 {
    bit_xor(b.slot_bits(0), |s: nat| piece_key(Piece { piece_type: PieceType::Pawn, color: Color::White }, s))
        ^ bit_xor(b.slot_bits(6), |s: nat| piece_key(Piece { piece_type: PieceType::Pawn, color: Color::Black }, s))
}

/// The combination by `^` of `f` over the set squares of `x`.
pub open spec fn bit_xor(x: u64, f: spec_fn(nat) -> u64) -> u64
    decreases popcount(x),
{
    if x == 0 {
        0
    } else {
        proof {
            lemma_popcount_clear_lowest(x);
        }
        f(vstd::std_specs::bits::u64_trailing_zeros(x) as nat) ^ bit_xor(x & ((x - 1u64) as u64), f)
    }
}

/// The keys of the pawns of one color, combined.
fn pawn_keys(board: &Board, color: Color) -> (r: u64)
    ensures
        r == bit_xor(board.slot_bits((color_index(color) * 6) as int), |s: nat| piece_key(Piece { piece_type: PieceType::Pawn, color }, s)),
{
    let ghost f = |s: nat| piece_key(Piece { piece_type: PieceType::Pawn, color }, s);
    let whole = board.piece_bb(PieceType::Pawn, color);
    let mut rest = whole;
    let mut key: u64 = 0;
    let pawn = Piece::new(PieceType::Pawn, color);
    proof {
        crate::bitboard::lemma_word_identities();
        assert(forall|x: u64, y: u64, z: u64| #[trigger] ((x ^ y) ^ z) == x ^ (y ^ z)) by (bit_vector);
        assert(0u64 ^ bit_xor(whole.0, f) == bit_xor(whole.0, f));
    }
    while rest.0 != 0
        invariant
            f == (|s: nat| piece_key(Piece { piece_type: PieceType::Pawn, color }, s)),
            pawn == (Piece { piece_type: PieceType::Pawn, color }),
            key ^ bit_xor(rest.0, f) == bit_xor(whole.0, f),
            forall|x: u64, y: u64, z: u64| #[trigger] ((x ^ y) ^ z) == x ^ (y ^ z),
        decreases popcount(rest.0),
    {
        let ghost before = rest.0;
        let sq = rest.pop_lsb().unwrap();
        proof {
            lemma_popcount_clear_lowest(before);
        }
        key = key ^ piece_key_of(pawn, sq);
    }
    proof {
        assert(key ^ 0u64 == key);
    }
    key
}

/// The pawn key of a position.
pub fn pawn_hash_key(board: &Board) -> (r: u64)
    ensures
        r == pawn_key_of(*board),
{
    pawn_keys(board, Color::White) ^ pawn_keys(board, Color::Black)
}

/// A cached pawn evaluation: the pawn key and the white-minus-black
/// middlegame and endgame scores (kept in 16 bits).
#[derive(Debug, Copy, Clone, PartialEq, Eq, Structural)]
pub struct PawnEntry {
    /// The pawn key of the position stored.
    pub key: u64,
    /// The middlegame score.
    pub mg_score: i16,
    /// The endgame score.
    pub eg_score: i16,
}

/// A key masked by `m` is at most `m`.
pub proof fn lemma_and_le(key: u64, m: u64)
    by (bit_vector)
    ensures
        key & m <= m,
{
}

/// An empty entry.
pub open spec fn empty_entry() -> PawnEntry {
    PawnEntry { key: 0, mg_score: 0, eg_score: 0 }
}

/// A table of cached pawn evaluations indexed by the low bits of the key.
#[derive(Debug)]
pub struct PawnHashTable {
    entries: Vec<PawnEntry>,
    mask: u64,
}

impl PawnHashTable {
    /// The number of entries is one more than the mask.
    pub closed spec fn wf(self) -> bool {
        &&& self.entries@.len() == self.mask + 1
        &&& self.mask < 0x8000_0000
    }

    /// The entries.
    pub closed spec fn slots(self) -> Seq<PawnEntry> {
        self.entries@
    }

    /// The index mask (the number of entries less one).
    pub closed spec fn index_mask(self) -> u64 {
        self.mask
    }

    /// The slot of a key.
    pub open spec fn slot_of(self, key: u64) -> int {
        (key & self.index_mask()) as int
    }

    /// The slot of a key lies in the table.
    pub proof fn lemma_slot_in_range(self, key: u64)
        requires
            self.wf(),
        ensures
            0 <= self.slot_of(key) < self.slots().len(),
    {
        lemma_and_le(key, self.mask);
    }

    /// A table of at least `size` entries (the next power of two, one for
    /// zero), all empty.
    pub fn new(size: usize) -> (r: PawnHashTable)
        requires
            size <= 0x4000_0000,
        ensures
            r.wf(),
            r.slots().len() >= size,
            r.slots().len() < 2 * size || size <= 1 && r.slots().len() == 1,
            forall|i: int| 0 <= i < r.slots().len() ==> #[trigger] r.slots()[i] == empty_entry(),
    {
        let mut n: u64 = 1;
        while (n as usize) < size
            invariant
                n <= 0x8000_0000,
                n >= 1,
                n == 1 || (n / 2) < size,
                size <= 0x4000_0000,
            decreases 0x1_0000_0000 - n,
        {
            n = n * 2;
        }
        let mut entries: Vec<PawnEntry> = Vec::new();
        let mut i: u64 = 0;
        while i < n
            invariant
                i <= n,
                entries@.len() == i,
                forall|j: int| 0 <= j < i ==> #[trigger] entries@[j] == empty_entry(),
            decreases n - i,
        {
            entries.push(PawnEntry { key: 0, mg_score: 0, eg_score: 0 });
            i += 1;
        }
        PawnHashTable { entries, mask: n - 1 }
    }

    /// The cached scores for `key`, if the key's slot holds that key.
    pub fn probe(&self, key: u64) -> (r: Option<(i32, i32)>)
        requires
            self.wf(),
        ensures
            r == if self.slots()[self.slot_of(key)].key == key {
                Some((self.slots()[self.slot_of(key)].mg_score as i32, self.slots()[self.slot_of(key)].eg_score as i32))
            } else {
                None
            },
    {
        proof {
            lemma_and_le(key, self.mask);
        }
        let index = (key & self.mask) as usize;
        let entry = self.entries[index];
        if entry.key == key {
            Some((entry.mg_score as i32, entry.eg_score as i32))
        } else {
            None
        }
    }

    /// Store scores for `key` in its slot, each kept in 16 bits.
    pub fn store(&mut self, key: u64, mg_score: i32, eg_score: i32)
        requires
            old(self).wf(),
        ensures
            final(self).wf(),
            final(self).index_mask() == old(self).index_mask(),
            final(self).slots() == old(self).slots().update(old(self).slot_of(key),
                PawnEntry { key, mg_score: mg_score as i16, eg_score: eg_score as i16 }),
    {
        proof {
            lemma_and_le(key, self.mask);
        }
        let index = (key & self.mask) as usize;
        let entry = PawnEntry { key, mg_score: mg_score as i16, eg_score: eg_score as i16 };
        self.entries.set(index, entry);
    }

    /// Empty every slot.
    pub fn clear(&mut self)
        requires
            old(self).wf(),
        ensures
            final(self).wf(),
            final(self).index_mask() == old(self).index_mask(),
            final(self).slots().len() == old(self).slots().len(),
            forall|i: int| 0 <= i < final(self).slots().len() ==> #[trigger] final(self).slots()[i] == empty_entry(),
    {
        let n = self.entries.len();
        let mut i: usize = 0;
        while i < n
            invariant
                i <= n,
                self.entries@.len() == n,
                n == self.mask + 1,
                self.mask < 0x8000_0000,
                self.mask == old(self).mask,
                forall|j: int| 0 <= j < i ==> #[trigger] self.entries@[j] == empty_entry(),
            decreases n - i,
        {
            self.entries.set(i, PawnEntry { key: 0, mg_score: 0, eg_score: 0 });
            i += 1;
        }
    }
}

impl Default for PawnHashTable {
    /// A table of 16384 entries.
    fn default() -> (r: PawnHashTable)
        ensures
            r.wf(),
            16384 <= r.slots().len() < 32768,
    {
        PawnHashTable::new(16384)
    }
}

/// The pawn structure of both sides, stored by pawn key as white's score
/// less black's: returns white's then black's (middlegame, endgame) terms.
pub fn evaluate_pawns_cached(board: &Board, pawn_table: &mut PawnHashTable) -> (r: (i32, i32, i32, i32))
    requires
        old(pawn_table).wf(),
    ensures
        final(pawn_table).wf(),
        r.0 == structure_mg(*board, Color::White),
        r.1 == structure_eg(*board, Color::White),
        r.2 == structure_mg(*board, Color::Black),
        r.3 == structure_eg(*board, Color::Black),
        -7000 <= r.0 <= 7000 && -7000 <= r.1 <= 13000 && -7000 <= r.2 <= 7000 && -7000 <= r.3 <= 13000,
        final(pawn_table).index_mask() == old(pawn_table).index_mask(),
        final(pawn_table).slots() == old(pawn_table).slots().update(old(pawn_table).slot_of(pawn_key_of(*board)),
            PawnEntry { key: pawn_key_of(*board), mg_score: (r.0 - r.2) as i16, eg_score: (r.1 - r.3) as i16 }),
{
    let key = pawn_hash_key(board);
    let (white_mg, white_eg) = evaluate_pawn_structure(board, Color::White);
    let (black_mg, black_eg) = evaluate_pawn_structure(board, Color::Black);
    pawn_table.store(key, white_mg - black_mg, white_eg - black_eg);
    (white_mg, white_eg, black_mg, black_eg)
}

} // verus!
