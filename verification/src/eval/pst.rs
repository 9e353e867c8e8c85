use vstd::prelude::*;
use vstd::std_specs::bits::u64_trailing_zeros;
use crate::bitboard::{Bitboard, bit_sum, popcount, lemma_bit_sum_bound, lemma_popcount_clear_lowest, lemma_popcount_bound};
use crate::board::Board;
use crate::eval::material::{endgame, is_endgame};
use crate::piece::{Color, PieceType, color_index, kind_index, kind_of_index};
use crate::square::{Square, file_of, rank_of};

verus! {

/// Middlegame tables by piece type, indexed by square from white's side.
pub const PST_MG: [[i32; 64]; 6] = [
    [
        0, 0, 0, 0, 0, 0, 0, 0,
        5, 10, 10, -20, -20, 10, 10, 5,
        5, -5, -10, 0, 0, -10, -5, 5,
        0, 0, 0, 20, 20, 0, 0, 0,
        5, 5, 10, 25, 25, 10, 5, 5,
        10, 10, 20, 30, 30, 20, 10, 10,
        50, 50, 50, 50, 50, 50, 50, 50,
        0, 0, 0, 0, 0, 0, 0, 0,
    ],
    [
        -50, -40, -30, -30, -30, -30, -40, -50,
        -40, -20, 0, 5, 5, 0, -20, -40,
        -30, 5, 10, 15, 15, 10, 5, -30,
        -30, 0, 15, 20, 20, 15, 0, -30,
        -30, 5, 15, 20, 20, 15, 5, -30,
        -30, 0, 10, 15, 15, 10, 0, -30,
        -40, -20, 0, 0, 0, 0, -20, -40,
        -50, -40, -30, -30, -30, -30, -40, -50,
    ],
    [
        -20, -10, -10, -10, -10, -10, -10, -20,
        -10, 5, 0, 0, 0, 0, 5, -10,
        -10, 10, 10, 10, 10, 10, 10, -10,
        -10, 0, 10, 10, 10, 10, 0, -10,
        -10, 5, 5, 10, 10, 5, 5, -10,
        -10, 0, 5, 10, 10, 5, 0, -10,
        -10, 0, 0, 0, 0, 0, 0, -10,
        -20, -10, -10, -10, -10, -10, -10, -20,
    ],
    [
        0, 0, 0, 5, 5, 0, 0, 0,
        -5, 0, 0, 0, 0, 0, 0, -5,
        -5, 0, 0, 0, 0, 0, 0, -5,
        -5, 0, 0, 0, 0, 0, 0, -5,
        -5, 0, 0, 0, 0, 0, 0, -5,
        -5, 0, 0, 0, 0, 0, 0, -5,
        5, 10, 10, 10, 10, 10, 10, 5,
        0, 0, 0, 0, 0, 0, 0, 0,
    ],
    [
        -20, -10, -10, -5, -5, -10, -10, -20,
        -10, 0, 5, 0, 0, 0, 0, -10,
        -10, 5, 5, 5, 5, 5, 0, -10,
        0, 0, 5, 5, 5, 5, 0, -5,
        -5, 0, 5, 5, 5, 5, 0, -5,
        -10, 0, 5, 5, 5, 5, 0, -10,
        -10, 0, 0, 0, 0, 0, 0, -10,
        -20, -10, -10, -5, -5, -10, -10, -20,
    ],
    [
        20, 30, 10, 0, 0, 10, 30, 20,
        20, 20, 0, 0, 0, 0, 20, 20,
        -10, -20, -20, -20, -20, -20, -20, -10,
        -20, -30, -30, -40, -40, -30, -30, -20,
        -30, -40, -40, -50, -50, -40, -40, -30,
        -30, -40, -40, -50, -50, -40, -40, -30,
        -30, -40, -40, -50, -50, -40, -40, -30,
        -30, -40, -40, -50, -50, -40, -40, -30,
    ],
];

/// Endgame tables by piece type, indexed by square from white's side.
pub const PST_EG: [[i32; 64]; 6] = [
    [
        0, 0, 0, 0, 0, 0, 0, 0,
        10, 10, 10, 10, 10, 10, 10, 10,
        20, 20, 20, 20, 20, 20, 20, 20,
        30, 30, 30, 30, 30, 30, 30, 30,
        40, 40, 40, 40, 40, 40, 40, 40,
        50, 50, 50, 50, 50, 50, 50, 50,
        70, 70, 70, 70, 70, 70, 70, 70,
        0, 0, 0, 0, 0, 0, 0, 0,
    ],
    [
        -50, -40, -30, -30, -30, -30, -40, -50,
        -40, -20, 0, 0, 0, 0, -20, -40,
        -30, 0, 10, 15, 15, 10, 0, -30,
        -30, 5, 15, 20, 20, 15, 5, -30,
        -30, 0, 15, 20, 20, 15, 0, -30,
        -30, 5, 10, 15, 15, 10, 5, -30,
        -40, -20, 0, 5, 5, 0, -20, -40,
        -50, -40, -30, -30, -30, -30, -40, -50,
    ],
    [
        -20, -10, -10, -10, -10, -10, -10, -20,
        -10, 0, 0, 0, 0, 0, 0, -10,
        -10, 0, 5, 10, 10, 5, 0, -10,
        -10, 0, 10, 10, 10, 10, 0, -10,
        -10, 0, 10, 10, 10, 10, 0, -10,
        -10, 0, 5, 10, 10, 5, 0, -10,
        -10, 0, 0, 0, 0, 0, 0, -10,
        -20, -10, -10, -10, -10, -10, -10, -20,
    ],
    [
        0, 0, 0, 0, 0, 0, 0, 0,
        5, 10, 10, 10, 10, 10, 10, 5,
        -5, 0, 0, 0, 0, 0, 0, -5,
        -5, 0, 0, 0, 0, 0, 0, -5,
        -5, 0, 0, 0, 0, 0, 0, -5,
        -5, 0, 0, 0, 0, 0, 0, -5,
        -5, 0, 0, 0, 0, 0, 0, -5,
        0, 0, 0, 0, 0, 0, 0, 0,
    ],
    [
        -20, -10, -10, -5, -5, -10, -10, -20,
        -10, 0, 0, 0, 0, 0, 0, -10,
        -10, 0, 5, 5, 5, 5, 0, -10,
        -5, 0, 5, 5, 5, 5, 0, -5,
        0, 0, 5, 5, 5, 5, 0, 0,
        -10, 5, 5, 5, 5, 5, 0, -10,
        -10, 0, 5, 0, 0, 0, 0, -10,
        -20, -10, -10, -5, -5, -10, -10, -20,
    ],
    [
        -50, -30, -30, -30, -30, -30, -30, -50,
        -30, -30, 0, 0, 0, 0, -30, -30,
        -30, -10, 20, 30, 30, 20, -10, -30,
        -30, -10, 30, 40, 40, 30, -10, -30,
        -30, -10, 30, 40, 40, 30, -10, -30,
        -30, -10, 20, 30, 30, 20, -10, -30,
        -30, -20, -10, 0, 0, -10, -20, -30,
        -50, -40, -30, -20, -20, -30, -40, -50,
    ],
];

/// Piece-square tables: a bonus for each piece type on each square, seen
/// from white's side (black's squares are mirrored by rank).
#[derive(Debug, Clone)]
pub struct PieceSquareTables {
    /// Middlegame tables, by piece type and square.
    pub mg_tables: [[i32; 64]; 6],
    /// Endgame tables, by piece type and square.
    pub eg_tables: [[i32; 64]; 6],
}

/// The table square of square `s` for color `c`: the square itself for
/// white, mirrored by rank for black.
pub open spec fn table_square(c: Color, s: nat) -> nat {
    match c {
        Color::White => s,
        Color::Black => ((7 - rank_of(s)) * 8 + file_of(s)) as nat,
    }
}

/// Every entry of a set of tables lies within a million centipawns.
pub open spec fn tables_bounded(t: [[i32; 64]; 6]) -> bool {
    forall|k: int, s: int| 0 <= k < 6 && 0 <= s < 64 ==> -1_000_000 <= #[trigger] t@[k]@[s] <= 1_000_000
}

/// The sum of a table over the pieces of one kind.
pub open spec fn kind_table_sum(t: [[i32; 64]; 6], b: Board, c: Color, k: int) -> int {
    bit_sum(b.slot_bits(color_index(c) * 6 + k), |s: nat| t@[k]@[table_square(c, s) as int] as int)
}

/// The sum of a table over the pieces of the first `n` kinds.
pub open spec fn table_sum(t: [[i32; 64]; 6], b: Board, c: Color, n: int) -> int
    decreases n,
{
    if n <= 0 { 0 } else { table_sum(t, b, c, n - 1) + kind_table_sum(t, b, c, n - 1) }
}

/// The piece-square score of a color: endgame tables in the endgame,
/// middlegame tables otherwise.
pub open spec fn pst_score(p: PieceSquareTables, b: Board, c: Color) -> int {
    table_sum(if endgame(b) { p.eg_tables } else { p.mg_tables }, b, c, 6)
}

impl PieceSquareTables {
    /// Both sets of tables within a million centipawns per entry.
    pub open spec fn bounded(&self) -> bool {
        tables_bounded(self.mg_tables) && tables_bounded(self.eg_tables)
    }

    /// The sum of a table over the pieces of one kind and color.
    fn kind_sum(t: &[[i32; 64]; 6], board: &Board, color: Color, kind: usize) -> (r: i32)
        requires
            tables_bounded(*t),
            kind < 6,
        ensures
            r == kind_table_sum(*t, *board, color, kind as int),
            -64_000_000 <= r <= 64_000_000,
    {
        let ghost f = |s: nat| t@[kind as int]@[table_square(color, s) as int] as int;
        let ghost whole = board.slot_bits(color_index(color) * 6 + kind as int);
        let kt = PieceType::from_index(kind).unwrap();
        let mut rest = board.piece_bb(kt, color);
        let mut acc: i32 = 0;
        proof {
            assert(kind_index(kt) == kind);
            lemma_bit_sum_bound(whole, f, 1_000_000);
            lemma_popcount_bound(whole);
        }
        while rest.0 != 0
            invariant
                kind < 6,
                tables_bounded(*t),
                f == (|s: nat| t@[kind as int]@[table_square(color, s) as int] as int),
                acc + bit_sum(rest.0, f) == bit_sum(whole, f),
                -1_000_000 * (popcount(whole) - popcount(rest.0)) <= acc <= 1_000_000 * (popcount(whole) - popcount(rest.0)),
                popcount(rest.0) <= popcount(whole) <= 64,
            decreases popcount(rest.0),
        {
            let ghost before = rest.0;
            let sq = rest.pop_lsb().unwrap();
            proof {
                lemma_popcount_clear_lowest(before);
            }
            sq.index_bound();
            let ts = if color == Color::White {
                sq.index() as usize
            } else {
                Square::from_coords(sq.file(), 7 - sq.rank()).index() as usize
            };
            let v = t[kind][ts];
            proof {
                assert(ts == table_square(color, sq@));
                assert(f(sq@) == v);
                assert(-1_000_000 <= v <= 1_000_000);
                assert(1_000_000 * (popcount(whole) - popcount(rest.0)) == 1_000_000 * (popcount(whole) - popcount(before)) + 1_000_000) by (nonlinear_arith)
                    requires popcount(before) == popcount(rest.0) + 1;
                assert(-1_000_000 * (popcount(whole) - popcount(rest.0)) == -1_000_000 * (popcount(whole) - popcount(before)) - 1_000_000) by (nonlinear_arith)
                    requires popcount(before) == popcount(rest.0) + 1;
            }
            acc = acc + v;
        }
        acc
    }

    /// The piece-square score of one color (see `pst_score`).
    pub fn evaluate_position(&self, board: &Board, color: Color) -> (r: i32)
        requires
            self.bounded(),
        ensures
            r == pst_score(*self, *board, color),
            -384_000_000 <= r <= 384_000_000,
    {
        let is_eg = is_endgame(board);
        let t = if is_eg { &self.eg_tables } else { &self.mg_tables };
        let mut score: i32 = 0;
        let mut k: usize = 0;
        while k < 6
            invariant
                k <= 6,
                tables_bounded(*t),
                score == table_sum(*t, *board, color, k as int),
                -64_000_000 * k <= score <= 64_000_000 * k,
            decreases 6 - k,
        {
            let s = Self::kind_sum(t, board, color, k);
            score = score + s;
            k += 1;
        }
        score
    }
}

impl Default for PieceSquareTables {
    /// The standard tables.
    fn default() -> (r: PieceSquareTables)
        ensures
            r.mg_tables == PST_MG,
            r.eg_tables == PST_EG,
    {
        PieceSquareTables { mg_tables: PST_MG, eg_tables: PST_EG }
    }
}

} // verus!
