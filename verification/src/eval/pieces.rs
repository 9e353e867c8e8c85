use vstd::prelude::*;
use vstd::std_specs::bits::u64_trailing_zeros;
use crate::attacks::{knight_attacks, knight_hits};
use crate::bitboard::{Bitboard, bit, bit_sum, popcount, square_count, lemma_popcount_squares, lemma_square_count_ext, lemma_popcount_clear_lowest, lemma_popcount_bound,
    lemma_zero_iff_no_bits};
use crate::board::Board;
use crate::eval::material::bits_of;
use crate::eval::pawns::{file_bitboard, rank_bitboard, adjacent_files_bitboard, rank_span, beyond, adjacent_file,
    pawns_attack, pawn_attacks, pawns_on_file};
use crate::piece::{Color, PieceType, opposite, color_index};
use crate::square::{Square, file_of, rank_of};

verus! {

/// Whether a bitboard has a set square on file `f`.
pub open spec fn on_file(x: u64, f: int) -> bool {
    pawns_on_file(x, f) > 0
}

/// The rank on which a rook of `c` reaches the enemy's second rank.
pub open spec fn seventh(c: Color) -> nat {
    match c { Color::White => 6, Color::Black => 1 }
}

/// The file term of a rook on `s`: open file (no pawns) 30/15, semi-open
/// (only enemy pawns) 15/10.
pub open spec fn rook_file_term(s: nat, ours: u64, enemy: u64, eg: bool) -> int {
    let f = file_of(s) as int;
    if !on_file(ours, f) && !on_file(enemy, f) {
        if eg { 15 } else { 30 }
    } else if !on_file(ours, f) {
        if eg { 10 } else { 15 }
    } else {
        0
    }
}

/// Whether a rook on `s` counts as a rook on the seventh: it stands on the
/// enemy's second rank, and the enemy king (its lowest square) is on the
/// last rank or enemy pawns stand on the seventh. Each such rook counts
/// once.
pub open spec fn seventh_term(s: nat, c: Color, enemy_pawns: u64, enemy_king: u64) -> int {
    if rank_of(s) == seventh(c) && (
        (enemy_king != 0 && rank_of(u64_trailing_zeros(enemy_king) as nat) == match c { Color::White => 7nat, Color::Black => 0nat })
        || (exists|t: u64| #[trigger] bit(enemy_pawns, t) && rank_of(t as nat) == seventh(c))) {
        1
    } else {
        0
    }
}

/// The rook activity of a color: file terms, plus 40/50 for two or more
/// rooks on the seventh or 25/30 for one.
pub open spec fn rook_activity(b: Board, c: Color, eg: bool) -> int {
    let rooks = bits_of(b, PieceType::Rook, c);
    let ours = bits_of(b, PieceType::Pawn, c);
    let enemy = bits_of(b, PieceType::Pawn, opposite(c));
    let king = bits_of(b, PieceType::King, opposite(c));
    let n = bit_sum(rooks, |s: nat| seventh_term(s, c, enemy, king));
    bit_sum(rooks, |s: nat| rook_file_term(s, ours, enemy, eg))
        + if n >= 2 { if eg { 50int } else { 40 } } else if n == 1 { if eg { 30int } else { 25 } } else { 0 }
}

/// Whether a bitboard has a square on file `file`.
fn has_on_file(x: Bitboard, file: u8) -> (r: bool)
    requires
        file < 8,
    ensures
        r == on_file(x.0, file as int),
{
    x.and(file_bitboard(file)).count() > 0
}

/// The file and seventh-rank terms of one rook.
fn rook_terms(sq: Square, color: Color, ours: Bitboard, enemy: Bitboard, king: Bitboard) -> (r: (i32, i32, i32))
    ensures
        r.0 == rook_file_term(sq@, ours.0, enemy.0, false),
        r.1 == rook_file_term(sq@, ours.0, enemy.0, true),
        r.2 == seventh_term(sq@, color, enemy.0, king.0),
        0 <= r.0 <= 30,
        0 <= r.1 <= 15,
        0 <= r.2 <= 1,
{
    let file = sq.file();
    let rank = sq.rank();
    let our_file = has_on_file(ours, file);
    let their_file = has_on_file(enemy, file);
    let (mg, eg) = if !our_file && !their_file {
        (30, 15)
    } else if !our_file && their_file {
        (15, 10)
    } else {
        (0, 0)
    };
    let seventh_rank: u8 = if color == Color::White { 6 } else { 1 };
    let mut count: i32 = 0;
    if rank == seventh_rank {
        let king_rank: u8 = if color == Color::White { 7 } else { 0 };
        let mut king_there = false;
        match king.lsb() {
            Some(k) => {
                if k.rank() == king_rank {
                    king_there = true;
                }
            },
            None => {},
        }
        let on_seventh = enemy.and(rank_bitboard(seventh_rank));
        proof {
            lemma_zero_iff_no_bits(on_seventh.0);
            if on_seventh.0 != 0 {
                let t = choose|t: u64| t < 64 && bit(on_seventh.0, t);
                assert(bit(enemy.0, t) && rank_of(t as nat) == seventh(color));
            } else {
                assert forall|t: u64| #[trigger] bit(enemy.0, t) implies rank_of(t as nat) != seventh(color) by {
                    assert(!bit(on_seventh.0, t));
                }
            }
        }
        if king_there || !on_seventh.is_empty() {
            count = 1;
        }
    }
    (mg, eg, count)
}

/// The rook activity of a color as (middlegame, endgame) terms.
pub fn evaluate_rook_activity(board: &Board, color: Color) -> (r: (i32, i32))
    ensures
        r.0 == rook_activity(*board, color, false),
        r.1 == rook_activity(*board, color, true),
        0 <= r.0 <= 2000,
        0 <= r.1 <= 1100,
{
    let rooks = board.piece_bb(PieceType::Rook, color);
    let ours = board.piece_bb(PieceType::Pawn, color);
    let enemy = board.piece_bb(PieceType::Pawn, color.opponent());
    let king = board.piece_bb(PieceType::King, color.opponent());
    let ghost fm = |s: nat| rook_file_term(s, ours.0, enemy.0, false);
    let ghost fe = |s: nat| rook_file_term(s, ours.0, enemy.0, true);
    let ghost fs = |s: nat| seventh_term(s, color, enemy.0, king.0);
    let mut mg: i32 = 0;
    let mut eg: i32 = 0;
    let mut sevenths: i32 = 0;
    let mut rest = rooks;
    proof {
        lemma_popcount_bound(rooks.0);
    }
    while rest.0 != 0
        invariant
            fm == (|s: nat| rook_file_term(s, ours.0, enemy.0, false)),
            fe == (|s: nat| rook_file_term(s, ours.0, enemy.0, true)),
            fs == (|s: nat| seventh_term(s, color, enemy.0, king.0)),
            mg + bit_sum(rest.0, fm) == bit_sum(rooks.0, fm),
            eg + bit_sum(rest.0, fe) == bit_sum(rooks.0, fe),
            sevenths + bit_sum(rest.0, fs) == bit_sum(rooks.0, fs),
            popcount(rest.0) <= popcount(rooks.0) <= 64,
            0 <= mg <= 30 * (popcount(rooks.0) - popcount(rest.0)),
            0 <= eg <= 15 * (popcount(rooks.0) - popcount(rest.0)),
            0 <= sevenths <= 2 * (popcount(rooks.0) - popcount(rest.0)),
        decreases popcount(rest.0),
    {
        let ghost before = rest.0;
        let sq = rest.pop_lsb().unwrap();
        proof {
            lemma_popcount_clear_lowest(before);
        }
        let (m, e, s) = rook_terms(sq, color, ours, enemy, king);
        proof {
            let k = popcount(rooks.0) - popcount(before);
            assert(30 * (k + 1) == 30 * k + 30) by (nonlinear_arith);
            assert(15 * (k + 1) == 15 * k + 15) by (nonlinear_arith);
            assert(2 * (k + 1) == 2 * k + 2) by (nonlinear_arith);
        }
        mg = mg + m;
        eg = eg + e;
        sevenths = sevenths + s;
    }
    if sevenths >= 2 {
        mg = mg + 40;
        eg = eg + 50;
    } else if sevenths == 1 {
        mg = mg + 25;
        eg = eg + 30;
    }
    (mg, eg)
}

/// Whether square `s` is light: file plus rank even.
pub open spec fn light(s: nat) -> bool {
    (file_of(s) + rank_of(s)) % 2 == 0
}

/// A bishop is bad when there are pawns and more than half of them stand
/// on squares of its color.
pub open spec fn bad_bishop(s: nat, ours: u64) -> bool {
    let same = bit_sum(ours, |t: nat| if light(t) == light(s) { 1int } else { 0 });
    popcount(ours) > 0 && same > popcount(ours) as int / 2
}

/// A bishop of white on a7 or h7, or of black on a2 or h2, is trapped.
pub open spec fn trapped_bishop(s: nat, c: Color) -> bool {
    match c {
        Color::White => s == 48 || s == 55,
        Color::Black => s == 8 || s == 15,
    }
}

/// Whether the bishop on `sq` is bad (see `bad_bishop`).
pub fn is_bad_bishop(sq: Square, our_pawns: Bitboard) -> (r: bool)
    ensures
        r == bad_bishop(sq@, our_pawns.0),
{
    let on_light = (sq.file() + sq.rank()) % 2 == 0;
    let ghost f = |t: nat| if light(t) == light(sq@) { 1int } else { 0 };
    let mut same: u32 = 0;
    let mut total: u32 = 0;
    let mut rest = our_pawns;
    proof {
        lemma_popcount_bound(our_pawns.0);
    }
    while rest.0 != 0
        invariant
            f == (|t: nat| if light(t) == light(sq@) { 1int } else { 0 }),
            on_light == light(sq@),
            same + bit_sum(rest.0, f) == bit_sum(our_pawns.0, f),
            total + popcount(rest.0) == popcount(our_pawns.0),
            popcount(our_pawns.0) <= 64,
            same <= total,
        decreases popcount(rest.0),
    {
        let ghost before = rest.0;
        let p = rest.pop_lsb().unwrap();
        proof {
            lemma_popcount_clear_lowest(before);
        }
        let p_light = (p.file() + p.rank()) % 2 == 0;
        if p_light == on_light {
            same += 1;
        }
        total += 1;
    }
    if total == 0 {
        return false;
    }
    same > total / 2
}

/// Whether the bishop on `sq` is trapped (see `trapped_bishop`).
pub fn is_trapped_bishop(sq: Square, color: Color) -> (r: bool)
    ensures
        r == trapped_bishop(sq@, color),
{
    let i = sq.index();
    match color {
        Color::White => i == 48 || i == 55,
        Color::Black => i == 8 || i == 15,
    }
}

/// The bishop term of one bishop.
pub open spec fn bishop_term(s: nat, c: Color, ours: u64, eg: bool) -> int {
    (if trapped_bishop(s, c) { if eg { -100int } else { -150 } } else { 0 })
        + (if bad_bishop(s, ours) { if eg { -10int } else { -15 } } else { 0 })
}

/// The bishop activity of a color: the pair bonus 50/60, then each
/// bishop's term.
pub open spec fn bishop_activity(b: Board, c: Color, eg: bool) -> int {
    let bishops = bits_of(b, PieceType::Bishop, c);
    let ours = bits_of(b, PieceType::Pawn, c);
    (if popcount(bishops) >= 2 { if eg { 60int } else { 50 } } else { 0 })
        + bit_sum(bishops, |s: nat| bishop_term(s, c, ours, eg))
}

/// The bishop activity of a color as (middlegame, endgame) terms.
pub fn evaluate_bishop_activity(board: &Board, color: Color) -> (r: (i32, i32))
    ensures
        r.0 == bishop_activity(*board, color, false),
        r.1 == bishop_activity(*board, color, true),
        -10600 <= r.0 <= 50,
        -7100 <= r.1 <= 60,
{
    let bishops = board.piece_bb(PieceType::Bishop, color);
    let ours = board.piece_bb(PieceType::Pawn, color);
    let mut mg: i32 = 0;
    let mut eg: i32 = 0;
    if bishops.count() >= 2 {
        mg = 50;
        eg = 60;
    }
    let ghost fm = |s: nat| bishop_term(s, color, ours.0, false);
    let ghost fe = |s: nat| bishop_term(s, color, ours.0, true);
    let ghost mg0 = mg as int;
    let ghost eg0 = eg as int;
    let mut rest = bishops;
    proof {
        lemma_popcount_bound(bishops.0);
    }
    while rest.0 != 0
        invariant
            fm == (|s: nat| bishop_term(s, color, ours.0, false)),
            fe == (|s: nat| bishop_term(s, color, ours.0, true)),
            0 <= mg0 <= 50,
            0 <= eg0 <= 60,
            mg - mg0 + bit_sum(rest.0, fm) == bit_sum(bishops.0, fm),
            eg - eg0 + bit_sum(rest.0, fe) == bit_sum(bishops.0, fe),
            popcount(rest.0) <= popcount(bishops.0) <= 64,
            -165 * (popcount(bishops.0) - popcount(rest.0)) <= mg - mg0 <= 0,
            -110 * (popcount(bishops.0) - popcount(rest.0)) <= eg - eg0 <= 0,
        decreases popcount(rest.0),
    {
        let ghost before = rest.0;
        let sq = rest.pop_lsb().unwrap();
        proof {
            lemma_popcount_clear_lowest(before);
            let k = popcount(bishops.0) - popcount(before);
            assert(-165 * (k + 1) == -165 * k - 165) by (nonlinear_arith);
            assert(-110 * (k + 1) == -110 * k - 110) by (nonlinear_arith);
        }
        if is_trapped_bishop(sq, color) {
            mg = mg - 150;
            eg = eg - 100;
        }
        if is_bad_bishop(sq, ours) {
            mg = mg - 15;
            eg = eg - 10;
        }
    }
    (mg, eg)
}

/// A knight on an edge file with at most two empty squares to go to is
/// trapped.
pub open spec fn trapped_knight(s: nat, occ: u64) -> bool {
    (file_of(s) == 0 || file_of(s) == 7)
        && square_count(64, |t: nat| knight_hits(s, t) && !bit(occ, t as u64)) <= 2
}

/// A square an enemy pawn can still attack: an enemy pawn stands on an
/// adjacent file further toward the enemy's side.
pub open spec fn pawn_can_attack(s: nat, c: Color, enemy: u64) -> bool {
    exists|p: u64| #[trigger] bit(enemy, p) && adjacent_file(file_of(s) as int, file_of(p as nat) as int)
        && beyond(c, rank_of(s) as int, rank_of(p as nat) as int, true)
}

/// A knight outpost: on ranks 4 to 6 from its side, protected by a pawn,
/// and out of reach of enemy pawns.
pub open spec fn outpost(s: nat, c: Color, ours: u64, enemy: u64) -> bool {
    let r = rank_of(s);
    &&& match c { Color::White => 3 <= r <= 5, Color::Black => 2 <= r <= 4 }
    &&& pawns_attack(ours, c, s)
    &&& !pawn_can_attack(s, c, enemy)
}

/// Whether the knight on `sq` is trapped (see `trapped_knight`).
pub fn is_trapped_knight(sq: Square, occupied: Bitboard) -> (r: bool)
    ensures
        r == trapped_knight(sq@, occupied.0),
{
    let free = knight_attacks(sq).and(occupied.not());
    let mobility = free.count();
    proof {
        lemma_popcount_squares(free.0);
        lemma_square_count_ext(64, |t: nat| bit(free.0, t as u64), |t: nat| knight_hits(sq@, t) && !bit(occupied.0, t as u64));
    }
    let file = sq.file();
    (file == 0 || file == 7) && mobility <= 2
}

/// Whether an enemy pawn can still attack `sq` (see `pawn_can_attack`).
pub fn can_be_attacked_by_enemy_pawn(sq: Square, color: Color, enemy_pawns: Bitboard) -> (r: bool)
    ensures
        r == pawn_can_attack(sq@, color, enemy_pawns.0),
{
    let reach = enemy_pawns.and(adjacent_files_bitboard(sq.file())).and(rank_span(color, sq.rank(), true));
    proof {
        lemma_zero_iff_no_bits(reach.0);
        if reach.0 != 0 {
            let t = choose|t: u64| t < 64 && bit(reach.0, t);
            assert(bit(enemy_pawns.0, t));
        } else {
            assert forall|p: u64| #[trigger] bit(enemy_pawns.0, p) implies !(adjacent_file(file_of(sq@) as int, file_of(p as nat) as int)
                && beyond(color, rank_of(sq@) as int, rank_of(p as nat) as int, true)) by {
                assert(!bit(reach.0, p));
            }
        }
    }
    !reach.is_empty()
}

/// Whether the knight on `sq` stands on an outpost (see `outpost`).
pub fn is_knight_outpost(sq: Square, color: Color, our_pawns: Bitboard, enemy_pawns: Bitboard) -> (r: bool)
    ensures
        r == outpost(sq@, color, our_pawns.0, enemy_pawns.0),
{
    let rank = sq.rank();
    if color == Color::White {
        if !(3 <= rank && rank <= 5) {
            return false;
        }
    } else if !(2 <= rank && rank <= 4) {
        return false;
    }
    sq.index_bound();
    let protected = pawn_attacks(our_pawns, color).contains(sq);
    if !protected {
        return false;
    }
    !can_be_attacked_by_enemy_pawn(sq, color, enemy_pawns)
}

/// The term of one knight: -100/-80 when trapped, else 20/15 on an
/// outpost with 10/5 more on the central files c to f.
pub open spec fn knight_term(s: nat, c: Color, ours: u64, enemy: u64, occ: u64, eg: bool) -> int {
    if trapped_knight(s, occ) {
        if eg { -80 } else { -100 }
    } else if outpost(s, c, ours, enemy) {
        (if eg { 15int } else { 20 }) + if 2 <= file_of(s) < 6 { if eg { 5int } else { 10 } } else { 0 }
    } else {
        0
    }
}

/// The knight activity of a color.
pub open spec fn knight_activity(b: Board, c: Color, eg: bool) -> int {
    let ours = bits_of(b, PieceType::Pawn, c);
    let enemy = bits_of(b, PieceType::Pawn, opposite(c));
    bit_sum(bits_of(b, PieceType::Knight, c), |s: nat| knight_term(s, c, ours, enemy, b.occ_bits(), eg))
}

/// The knight activity of a color as (middlegame, endgame) terms.
pub fn evaluate_knight_activity(board: &Board, color: Color) -> (r: (i32, i32))
    ensures
        r.0 == knight_activity(*board, color, false),
        r.1 == knight_activity(*board, color, true),
        -6400 <= r.0 <= 1920,
        -6400 <= r.1 <= 1280,
{
    let knights = board.piece_bb(PieceType::Knight, color);
    let ours = board.piece_bb(PieceType::Pawn, color);
    let enemy = board.piece_bb(PieceType::Pawn, color.opponent());
    let occ = board.occupied();
    let ghost fm = |s: nat| knight_term(s, color, ours.0, enemy.0, occ.0, false);
    let ghost fe = |s: nat| knight_term(s, color, ours.0, enemy.0, occ.0, true);
    let mut mg: i32 = 0;
    let mut eg: i32 = 0;
    let mut rest = knights;
    proof {
        lemma_popcount_bound(knights.0);
    }
    while rest.0 != 0
        invariant
            fm == (|s: nat| knight_term(s, color, ours.0, enemy.0, occ.0, false)),
            fe == (|s: nat| knight_term(s, color, ours.0, enemy.0, occ.0, true)),
            mg + bit_sum(rest.0, fm) == bit_sum(knights.0, fm),
            eg + bit_sum(rest.0, fe) == bit_sum(knights.0, fe),
            popcount(rest.0) <= popcount(knights.0) <= 64,
            -100 * (popcount(knights.0) - popcount(rest.0)) <= mg <= 30 * (popcount(knights.0) - popcount(rest.0)),
            -100 * (popcount(knights.0) - popcount(rest.0)) <= eg <= 20 * (popcount(knights.0) - popcount(rest.0)),
        decreases popcount(rest.0),
    {
        let ghost before = rest.0;
        let sq = rest.pop_lsb().unwrap();
        proof {
            lemma_popcount_clear_lowest(before);
            let k = popcount(knights.0) - popcount(before);
            assert(-100 * (k + 1) == -100 * k - 100) by (nonlinear_arith);
            assert(30 * (k + 1) == 30 * k + 30) by (nonlinear_arith);
            assert(20 * (k + 1) == 20 * k + 20) by (nonlinear_arith);
        }
        if is_trapped_knight(sq, occ) {
            mg = mg - 100;
            eg = eg - 80;
        } else if is_knight_outpost(sq, color, ours, enemy) {
            mg = mg + 20;
            eg = eg + 15;
            let file = sq.file();
            if 2 <= file && file < 6 {
                mg = mg + 10;
                eg = eg + 5;
            }
        }
    }
    (mg, eg)
}

/// Whether a square is one of the four central squares d4, e4, d5, e5.
pub open spec fn central(s: nat) -> bool {
    3 <= file_of(s) < 5 && 3 <= rank_of(s) < 5
}

/// Whether a square is one of the four central squares.
pub fn is_central_square(sq: Square) -> (r: bool)
    ensures
        r == central(sq@),
{
    let file = sq.file();
    let rank = sq.rank();
    3 <= file && file < 5 && 3 <= rank && rank < 5
}

/// The placement term of a knight, bishop or rook on `s`: 5/2 on a
/// central square, -10 (middlegame) on the back rank before phase 200.
pub open spec fn placement_term(s: nat, c: Color, phase: int, eg: bool) -> int {
    let back: nat = match c { Color::White => 0, Color::Black => 7 };
    (if central(s) { if eg { 2int } else { 5 } } else { 0 })
        + (if rank_of(s) == back && phase < 200 && !eg { -10int } else { 0 })
}

/// The placement terms of the pieces of one kind.
pub open spec fn kind_placement(b: Board, kind: PieceType, c: Color, phase: int, eg: bool) -> int {
    bit_sum(bits_of(b, kind, c), |s: nat| placement_term(s, c, phase, eg))
}

/// The placement of a color's knights, bishops and rooks.
pub open spec fn piece_placement(b: Board, c: Color, phase: int, eg: bool) -> int {
    kind_placement(b, PieceType::Knight, c, phase, eg) + kind_placement(b, PieceType::Bishop, c, phase, eg)
        + kind_placement(b, PieceType::Rook, c, phase, eg)
}

/// The placement terms of the pieces of one kind as (middlegame, endgame).
fn kind_placement_terms(board: &Board, kind: PieceType, color: Color, phase: i32) -> (r: (i32, i32))
    ensures
        r.0 == kind_placement(*board, kind, color, phase as int, false),
        r.1 == kind_placement(*board, kind, color, phase as int, true),
        -640 <= r.0 <= 320,
        0 <= r.1 <= 128,
{
    let pieces = board.piece_bb(kind, color);
    let back: u8 = if color == Color::White { 0 } else { 7 };
    let ghost fm = |s: nat| placement_term(s, color, phase as int, false);
    let ghost fe = |s: nat| placement_term(s, color, phase as int, true);
    let mut mg: i32 = 0;
    let mut eg: i32 = 0;
    let mut rest = pieces;
    proof {
        lemma_popcount_bound(pieces.0);
    }
    while rest.0 != 0
        invariant
            fm == (|s: nat| placement_term(s, color, phase as int, false)),
            fe == (|s: nat| placement_term(s, color, phase as int, true)),
            back == (match color { Color::White => 0u8, Color::Black => 7u8 }),
            mg + bit_sum(rest.0, fm) == bit_sum(pieces.0, fm),
            eg + bit_sum(rest.0, fe) == bit_sum(pieces.0, fe),
            popcount(rest.0) <= popcount(pieces.0) <= 64,
            -10 * (popcount(pieces.0) - popcount(rest.0)) <= mg <= 5 * (popcount(pieces.0) - popcount(rest.0)),
            0 <= eg <= 2 * (popcount(pieces.0) - popcount(rest.0)),
        decreases popcount(rest.0),
    {
        let ghost before = rest.0;
        let sq = rest.pop_lsb().unwrap();
        proof {
            lemma_popcount_clear_lowest(before);
            let k = popcount(pieces.0) - popcount(before);
            assert(-10 * (k + 1) == -10 * k - 10) by (nonlinear_arith);
            assert(5 * (k + 1) == 5 * k + 5) by (nonlinear_arith);
            assert(2 * (k + 1) == 2 * k + 2) by (nonlinear_arith);
        }
        let file = sq.file();
        let rank = sq.rank();
        if 3 <= file && file < 5 && 3 <= rank && rank < 5 {
            mg = mg + 5;
            eg = eg + 2;
        }
        if rank == back && phase < 200 {
            mg = mg - 10;
        }
    }
    (mg, eg)
}

/// The placement of a color's minor pieces and rooks as (middlegame,
/// endgame) terms.
pub fn evaluate_piece_placement(board: &Board, color: Color, phase: i32) -> (r: (i32, i32))
    ensures
        r.0 == piece_placement(*board, color, phase as int, false),
        r.1 == piece_placement(*board, color, phase as int, true),
        -1920 <= r.0 <= 960,
        0 <= r.1 <= 384,
{
    let (nm, ne) = kind_placement_terms(board, PieceType::Knight, color, phase);
    let (bm, be) = kind_placement_terms(board, PieceType::Bishop, color, phase);
    let (rm, re) = kind_placement_terms(board, PieceType::Rook, color, phase);
    (nm + bm + rm, ne + be + re)
}

/// The piece activity of a color: rooks, bishops, knights and placement.
pub open spec fn piece_activity(b: Board, c: Color, phase: int, eg: bool) -> int {
    rook_activity(b, c, eg) + bishop_activity(b, c, eg) + knight_activity(b, c, eg) + piece_placement(b, c, phase, eg)
}

/// The piece activity of a color as (middlegame, endgame) terms.
pub fn evaluate_piece_activity(board: &Board, color: Color, phase: i32) -> (r: (i32, i32))
    ensures
        r.0 == piece_activity(*board, color, phase as int, false),
        r.1 == piece_activity(*board, color, phase as int, true),
        -19000 <= r.0 <= 5000,
        -14000 <= r.1 <= 3000,
{
    let (rm, re) = evaluate_rook_activity(board, color);
    let (bm, be) = evaluate_bishop_activity(board, color);
    let (km, ke) = evaluate_knight_activity(board, color);
    let (pm, pe) = evaluate_piece_placement(board, color, phase);
    (rm + bm + km + pm, re + be + ke + pe)
}

} // verus!
