use vstd::prelude::*;
use crate::piece::PieceType;
use crate::square::{Square, algebraic};
use crate::text::push_char;

verus! {

/// Move flags, a 4-bit code: bits 0-1 the special kind, bit 2 capture,
/// bit 3 promotion. Codes 6 and 7 are unused.
#[allow(non_camel_case_types)]
#[derive(Debug, Copy, Clone, PartialEq, Eq, Structural, Hash)]
pub enum MoveFlags {
    QUIET,
    DOUBLE_PAWN_PUSH,
    KING_CASTLE,
    QUEEN_CASTLE,
    CAPTURE,
    EP_CAPTURE,
    UNUSED_6,
    UNUSED_7,
    KNIGHT_PROMOTION,
    BISHOP_PROMOTION,
    ROOK_PROMOTION,
    QUEEN_PROMOTION,
    KNIGHT_PROMOTION_CAPTURE,
    BISHOP_PROMOTION_CAPTURE,
    ROOK_PROMOTION_CAPTURE,
    QUEEN_PROMOTION_CAPTURE,
}

/// The 4-bit code of a flag.
pub open spec fn flag_code(f: MoveFlags) -> u8 {
    match f {
        MoveFlags::QUIET => 0,
        MoveFlags::DOUBLE_PAWN_PUSH => 1,
        MoveFlags::KING_CASTLE => 2,
        MoveFlags::QUEEN_CASTLE => 3,
        MoveFlags::CAPTURE => 4,
        MoveFlags::EP_CAPTURE => 5,
        MoveFlags::UNUSED_6 => 6,
        MoveFlags::UNUSED_7 => 7,
        MoveFlags::KNIGHT_PROMOTION => 8,
        MoveFlags::BISHOP_PROMOTION => 9,
        MoveFlags::ROOK_PROMOTION => 10,
        MoveFlags::QUEEN_PROMOTION => 11,
        MoveFlags::KNIGHT_PROMOTION_CAPTURE => 12,
        MoveFlags::BISHOP_PROMOTION_CAPTURE => 13,
        MoveFlags::ROOK_PROMOTION_CAPTURE => 14,
        MoveFlags::QUEEN_PROMOTION_CAPTURE => 15,
    }
}

/// The promoted piece encoded by the low two bits of a promotion code.
pub open spec fn promo_kind(code: u8) -> Option<PieceType> {
    if code < 8 {
        None
    } else if code % 4 == 0 {
        Some(PieceType::Knight)
    } else if code % 4 == 1 {
        Some(PieceType::Bishop)
    } else if code % 4 == 2 {
        Some(PieceType::Rook)
    } else {
        Some(PieceType::Queen)
    }
}

impl MoveFlags {
    /// The flag with a given 4-bit code.
    pub fn from_value(v: u8) -> (r: MoveFlags)
        requires
            v < 16,
        ensures
            flag_code(r) == v,
    {
        match v {
            0 => MoveFlags::QUIET,
            1 => MoveFlags::DOUBLE_PAWN_PUSH,
            2 => MoveFlags::KING_CASTLE,
            3 => MoveFlags::QUEEN_CASTLE,
            4 => MoveFlags::CAPTURE,
            5 => MoveFlags::EP_CAPTURE,
            6 => MoveFlags::UNUSED_6,
            7 => MoveFlags::UNUSED_7,
            8 => MoveFlags::KNIGHT_PROMOTION,
            9 => MoveFlags::BISHOP_PROMOTION,
            10 => MoveFlags::ROOK_PROMOTION,
            11 => MoveFlags::QUEEN_PROMOTION,
            12 => MoveFlags::KNIGHT_PROMOTION_CAPTURE,
            13 => MoveFlags::BISHOP_PROMOTION_CAPTURE,
            14 => MoveFlags::ROOK_PROMOTION_CAPTURE,
            _ => MoveFlags::QUEEN_PROMOTION_CAPTURE,
        }
    }

    /// The raw 4-bit code.
    pub fn value(self) -> (r: u8)
        ensures
            r == flag_code(self),
            r < 16,
    {
        match self {
            MoveFlags::QUIET => 0,
            MoveFlags::DOUBLE_PAWN_PUSH => 1,
            MoveFlags::KING_CASTLE => 2,
            MoveFlags::QUEEN_CASTLE => 3,
            MoveFlags::CAPTURE => 4,
            MoveFlags::EP_CAPTURE => 5,
            MoveFlags::UNUSED_6 => 6,
            MoveFlags::UNUSED_7 => 7,
            MoveFlags::KNIGHT_PROMOTION => 8,
            MoveFlags::BISHOP_PROMOTION => 9,
            MoveFlags::ROOK_PROMOTION => 10,
            MoveFlags::QUEEN_PROMOTION => 11,
            MoveFlags::KNIGHT_PROMOTION_CAPTURE => 12,
            MoveFlags::BISHOP_PROMOTION_CAPTURE => 13,
            MoveFlags::ROOK_PROMOTION_CAPTURE => 14,
            MoveFlags::QUEEN_PROMOTION_CAPTURE => 15,
        }
    }

    /// Whether the capture bit is set (captures, en passant, promotion captures).
    pub fn is_capture(self) -> (r: bool)
        ensures
            r == (flag_code(self) & 4 != 0),
            r == (4 <= flag_code(self) % 8),
    {
        let v = self.value();
        assert(v < 16 ==> ((v & 4 != 0) == (4 <= v % 8))) by (bit_vector);
        (v & 4) != 0
    }

    /// Whether the promotion bit is set.
    pub fn is_promotion(self) -> (r: bool)
        ensures
            r == (flag_code(self) & 8 != 0),
            r == (flag_code(self) >= 8),
    {
        let v = self.value();
        assert(v < 16 ==> ((v & 8 != 0) == (v >= 8))) by (bit_vector);
        (v & 8) != 0
    }

    /// The promoted piece type, or `None` when not a promotion.
    pub fn promotion_piece(self) -> (r: Option<PieceType>)
        ensures
            r == promo_kind(flag_code(self)),
    {
        if !self.is_promotion() {
            return None;
        }
        let v = self.value();
        let low = v & 3;
        assert(v & 3 == v % 4) by (bit_vector);
        if low == 0 {
            Some(PieceType::Knight)
        } else if low == 1 {
            Some(PieceType::Bishop)
        } else if low == 2 {
            Some(PieceType::Rook)
        } else {
            Some(PieceType::Queen)
        }
    }

    /// Whether this is a castling move (codes 2 and 3).
    pub fn is_castling(self) -> (r: bool)
        ensures
            r == (flag_code(self) == 2 || flag_code(self) == 3),
    {
        let v = self.value();
        v == 2 || v == 3
    }

    /// Whether this is kingside castling.
    pub fn is_kingside_castle(self) -> (r: bool)
        ensures
            r == (flag_code(self) == 2),
    {
        self.value() == 2
    }

    /// Whether this is queenside castling.
    pub fn is_queenside_castle(self) -> (r: bool)
        ensures
            r == (flag_code(self) == 3),
    {
        self.value() == 3
    }

    /// Whether this is an en passant capture.
    pub fn is_en_passant(self) -> (r: bool)
        ensures
            r == (flag_code(self) == 5),
    {
        self.value() == 5
    }

    /// Whether this is a double pawn push.
    pub fn is_double_pawn_push(self) -> (r: bool)
        ensures
            r == (flag_code(self) == 1),
    {
        self.value() == 1
    }
}

/// A move packed into 16 bits: bits 0-5 the from square, bits 6-11 the
/// to square, bits 12-15 the flags.
#[derive(Debug, Copy, Clone, PartialEq, Eq, Structural, Hash)]
pub struct Move(u16);

impl View for Move {
    type V = u16;

    closed spec fn view(&self) -> u16 {
        self.0
    }
}

/// From square of a packed move.
pub open spec fn mv_from(m: u16) -> nat {
    (m & 0x3F) as nat
}

/// To square of a packed move.
pub open spec fn mv_to(m: u16) -> nat {
    ((m >> 6) & 0x3F) as nat
}

/// Flag code of a packed move.
pub open spec fn mv_code(m: u16) -> u8 {
    (m >> 12) as u8
}

/// The packing of a from square, to square and flag code.
pub open spec fn mv_pack(from: nat, to: nat, code: u8) -> u16 {
    (from + to * 64 + code * 4096) as u16
}

/// UCI text of a move: from square, to square, then the promotion letter.
pub open spec fn uci_text(m: u16) -> Seq<char> {
    let base = algebraic(mv_from(m)) + algebraic(mv_to(m));
    match promo_kind(mv_code(m)) {
        Some(PieceType::Knight) => base.push('n'),
        Some(PieceType::Bishop) => base.push('b'),
        Some(PieceType::Rook) => base.push('r'),
        Some(_) => base.push('q'),
        None => base,
    }
}

impl Move {
    /// Create a move from source square, destination square, and flags.
    pub fn new(from: Square, to: Square, flags: MoveFlags) -> (r: Move)
        ensures
            r@ == mv_pack(from@, to@, flag_code(flags)),
            mv_from(r@) == from@,
            mv_to(r@) == to@,
            mv_code(r@) == flag_code(flags),
    {
        let f = from.index() as u16;
        let t = to.index() as u16;
        let c = flags.value() as u16;
        let v: u16 = f | (t << 6u16) | (c << 12u16);
        assert(f < 64 && t < 64 && c < 16 ==> (f | (t << 6u16) | (c << 12u16)) == f + t * 64 + c * 4096) by (bit_vector);
        assert(f < 64 && t < 64 && c < 16 ==> {
            let w = f | (t << 6u16) | (c << 12u16);
            &&& w & 0x3F == f
            &&& (w >> 6u16) & 0x3F == t
            &&& (w >> 12u16) == c
        }) by (bit_vector);
        Move(v)
    }

    /// The null move (a1a1, quiet), a sentinel value.
    pub fn null() -> (r: Move)
        ensures
            r@ == 0,
    {
        Move(0)
    }

    /// Whether this is the null move.
    pub fn is_null(self) -> (r: bool)
        ensures
            r == (self@ == 0),
    {
        self.0 == 0
    }

    /// The source square.
    pub fn from(self) -> (r: Square)
        ensures
            r@ == mv_from(self@),
    {
        let x = self.0;
        proof { lemma_move_parts(self); }
        Square::new((x & 0x3F) as u8)
    }

    /// The destination square.
    pub fn to(self) -> (r: Square)
        ensures
            r@ == mv_to(self@),
    {
        let x = self.0;
        proof { lemma_move_parts(self); }
        Square::new(((x >> 6u16) & 0x3F) as u8)
    }

    /// The move flags.
    pub fn flags(self) -> (r: MoveFlags)
        ensures
            flag_code(r) == mv_code(self@),
    {
        let x = self.0;
        proof { lemma_move_parts(self); }
        MoveFlags::from_value((x >> 12u16) as u8)
    }

    /// Whether this move captures (including en passant and promotion captures).
    pub fn is_capture(self) -> (r: bool)
        ensures
            r == (4 <= mv_code(self@) % 8),
    {
        self.flags().is_capture()
    }

    /// Whether this move promotes.
    pub fn is_promotion(self) -> (r: bool)
        ensures
            r == (mv_code(self@) >= 8),
    {
        self.flags().is_promotion()
    }

    /// Whether this move neither captures nor promotes.
    pub fn is_quiet(self) -> (r: bool)
        ensures
            r == (mv_code(self@) < 4),
    {
        self.flags().value() < 4
    }

    /// Whether this is a double pawn push.
    pub fn is_double_pawn_push(self) -> (r: bool)
        ensures
            r == (mv_code(self@) == 1),
    {
        self.flags().is_double_pawn_push()
    }

    /// Whether this is a castling move.
    pub fn is_castling(self) -> (r: bool)
        ensures
            r == (mv_code(self@) == 2 || mv_code(self@) == 3),
    {
        self.flags().is_castling()
    }

    /// Whether this is kingside castling.
    pub fn is_kingside_castle(self) -> (r: bool)
        ensures
            r == (mv_code(self@) == 2),
    {
        self.flags().is_kingside_castle()
    }

    /// Whether this is queenside castling.
    pub fn is_queenside_castle(self) -> (r: bool)
        ensures
            r == (mv_code(self@) == 3),
    {
        self.flags().is_queenside_castle()
    }

    /// Whether this is an en passant capture.
    pub fn is_en_passant(self) -> (r: bool)
        ensures
            r == (mv_code(self@) == 5),
    {
        self.flags().is_en_passant()
    }

    /// The promoted piece type, or `None` when not a promotion.
    pub fn promotion_piece(self) -> (r: Option<PieceType>)
        ensures
            r == promo_kind(mv_code(self@)),
    {
        self.flags().promotion_piece()
    }

    /// UCI text of the move, such as "e2e4" or "e7e8q".
    pub fn to_uci(self) -> (r: String)
        ensures
            r@ == uci_text(self@),
    {
        let from = self.from().to_algebraic();
        let to = self.to().to_algebraic();
        let mut s = from;
        let ghost fs = s@;
        let tb = to.as_str();
        proof {
            vstd::string::axiom_str_literal_len(tb);
        }
        let c0 = tb.get_char(0);
        let c1 = tb.get_char(1);
        push_char(&mut s, c0);
        push_char(&mut s, c1);
        assert(s@ =~= algebraic(mv_from(self@)) + algebraic(mv_to(self@)));
        match self.promotion_piece() {
            Some(PieceType::Knight) => push_char(&mut s, 'n'),
            Some(PieceType::Bishop) => push_char(&mut s, 'b'),
            Some(PieceType::Rook) => push_char(&mut s, 'r'),
            Some(_) => push_char(&mut s, 'q'),
            None => {},
        }
        s
    }
}

/// Packing a move and reading its parts back gives the parts.
pub proof fn lemma_move_roundtrip(from: nat, to: nat, code: u8)
    requires
        from < 64,
        to < 64,
        code < 16,
    ensures
        mv_from(mv_pack(from, to, code)) == from,
        mv_to(mv_pack(from, to, code)) == to,
        mv_code(mv_pack(from, to, code)) == code,
{
    let f = from as u16;
    let t = to as u16;
    let c = code as u16;
    assert(f < 64 && t < 64 && c < 16 ==> {
        let w = (f + t * 64 + c * 4096) as u16;
        &&& w & 0x3F == f
        &&& (w >> 6u16) & 0x3F == t
        &&& (w >> 12u16) == c
    }) by (bit_vector);
}

/// Every move is the packing of its own parts, each in range.
pub proof fn lemma_move_parts(m: Move)
    ensures
        mv_from(m@) < 64,
        mv_to(m@) < 64,
        mv_code(m@) < 16,
        m@ == mv_pack(mv_from(m@), mv_to(m@), mv_code(m@)),
{
    let x = m@;
    assert(x & 0x3F < 64 && (x >> 6u16) & 0x3F < 64 && (x >> 12u16) < 16
        && x == ((x & 0x3F) + ((x >> 6u16) & 0x3F) * 64 + (x >> 12u16) * 4096) as u16) by (bit_vector);
}

/// Two moves with the same parts are the same move.
pub proof fn lemma_move_eq(a: Move, b: Move)
    requires
        mv_from(a@) == mv_from(b@),
        mv_to(a@) == mv_to(b@),
        mv_code(a@) == mv_code(b@),
    ensures
        a == b,
{
    lemma_move_parts(a);
    lemma_move_parts(b);
}

/// The move with the given 16-bit packing.
pub closed spec fn move_with_bits(x: u16) -> Move {
    Move(x)
}

/// A move and its packing determine each other.
pub proof fn lemma_move_with_bits(x: u16, m: Move)
    ensures
        move_with_bits(x)@ == x,
        move_with_bits(m@) == m,
{
}

/// A list of distinct moves has at most 65536 of them: moves are told
/// apart by their 16-bit packing.
pub proof fn lemma_distinct_moves_bound(ms: Seq<Move>)
    requires
        ms.no_duplicates(),
    ensures
        ms.len() <= 65536,
{
    let vs = ms.map_values(|m: Move| m@ as int);
    assert(vs.no_duplicates()) by {
        assert forall|i: int, j: int| 0 <= i < vs.len() && 0 <= j < vs.len() && i != j implies vs[i] != vs[j] by {
            if vs[i] == vs[j] {
                lemma_move_with_bits(0, ms[i]);
                lemma_move_with_bits(0, ms[j]);
                assert(ms[i]@ == ms[j]@);
                assert(move_with_bits(ms[i]@) == ms[i]);
            }
        }
    }
    vs.unique_seq_to_set();
    vstd::set_lib::lemma_int_range(0, 65536);
    assert(vs.to_set().subset_of(vstd::set_lib::set_int_range(0, 65536))) by {
        assert forall|x: int| vs.to_set().contains(x) implies vstd::set_lib::set_int_range(0, 65536).contains(x) by {
            let i = choose|i: int| 0 <= i < vs.len() && vs[i] == x;
        }
    }
    vstd::set_lib::lemma_len_subset(vs.to_set(), vstd::set_lib::set_int_range(0, 65536));
}

} // verus!
