use vstd::prelude::*;
use crate::bitboard::{Bitboard, bit, lemma_word_identities, lemma_bit_or, lemma_eq_by_bits, lemma_bit_zero, lemma_bit_not};
use crate::chess_move::{Move, MoveFlags, mv_from, mv_to, mv_code, promo_kind, lemma_move_parts};
use crate::piece::{Color, Piece, PieceType, kind_index, color_index, kind_of_index, opposite};
use crate::square::{Square, file_of, rank_of, lemma_square_view_injective};
use crate::zobrist::{full_hash, zobrist_hash, piece_key, castling_key, ep_key, KEY_BLACK_TO_MOVE, hash_piece, hash_castling, hash_en_passant, hash_side_to_move};

verus! {

/// Castling rights for both colors, four bits: white kingside (1), white
/// queenside (2), black kingside (4), black queenside (8).
#[derive(Debug, Copy, Clone, PartialEq, Eq, Structural, Hash)]
pub struct CastlingRights {
    bits: u8,
}

impl View for CastlingRights {
    type V = u8;

    closed spec fn view(&self) -> u8 {
        self.bits
    }
}

/// Adding or removing one right keeps the rights below 16.
proof fn lemma_rights_bits(b: u8)
    by (bit_vector)
    ensures
        b < 16 ==> b | 1 < 16 && b | 2 < 16 && b | 4 < 16 && b | 8 < 16,
        b < 16 ==> b & !1u8 < 16 && b & !2u8 < 16 && b & !4u8 < 16 && b & !8u8 < 16,
        b & 15 < 16,
        (b & !1u8) & 1 == 0 && (b & !1u8) & 2 == b & 2 && (b & !1u8) & 4 == b & 4 && (b & !1u8) & 8 == b & 8,
        (b & !2u8) & 2 == 0 && (b & !2u8) & 1 == b & 1 && (b & !2u8) & 4 == b & 4 && (b & !2u8) & 8 == b & 8,
        (b & !4u8) & 4 == 0 && (b & !4u8) & 1 == b & 1 && (b & !4u8) & 2 == b & 2 && (b & !4u8) & 8 == b & 8,
        (b & !8u8) & 8 == 0 && (b & !8u8) & 1 == b & 1 && (b & !8u8) & 2 == b & 2 && (b & !8u8) & 4 == b & 4,
{
}

impl CastlingRights {
    #[verifier::type_invariant]
    spec fn four_bits(self) -> bool {
        self.bits < 16
    }

    /// The rights are below 16.
    pub fn bound(&self)
        ensures
            self@ < 16,
    {
        proof {
            use_type_invariant(self);
        }
    }

    /// No castling allowed.
    pub fn none() -> (r: CastlingRights)
        ensures
            r@ == 0,
    {
        CastlingRights { bits: 0 }
    }

    /// All castling allowed.
    pub fn all() -> (r: CastlingRights)
        ensures
            r@ == 15,
    {
        CastlingRights { bits: 15 }
    }

    /// Whether white may castle kingside.
    pub fn white_kingside(self) -> (r: bool)
        ensures
            r == (self@ & 1 != 0),
    {
        (self.bits & 1) != 0
    }

    /// Whether white may castle queenside.
    pub fn white_queenside(self) -> (r: bool)
        ensures
            r == (self@ & 2 != 0),
    {
        (self.bits & 2) != 0
    }

    /// Whether black may castle kingside.
    pub fn black_kingside(self) -> (r: bool)
        ensures
            r == (self@ & 4 != 0),
    {
        (self.bits & 4) != 0
    }

    /// Whether black may castle queenside.
    pub fn black_queenside(self) -> (r: bool)
        ensures
            r == (self@ & 8 != 0),
    {
        (self.bits & 8) != 0
    }

    fn with_bits(self, bits: u8) -> (r: CastlingRights)
        requires
            bits < 16,
        ensures
            r@ == bits,
    {
        CastlingRights { bits }
    }

    /// Rights with white kingside added.
    pub fn set_white_kingside(self) -> (r: CastlingRights)
        ensures
            r@ == self@ | 1,
    {
        proof { use_type_invariant(self); }
        let b = self.bits;
        proof { lemma_rights_bits(b); }
        self.with_bits(b | 1)
    }

    /// Rights with white queenside added.
    pub fn set_white_queenside(self) -> (r: CastlingRights)
        ensures
            r@ == self@ | 2,
    {
        proof { use_type_invariant(self); }
        let b = self.bits;
        proof { lemma_rights_bits(b); }
        self.with_bits(b | 2)
    }

    /// Rights with black kingside added.
    pub fn set_black_kingside(self) -> (r: CastlingRights)
        ensures
            r@ == self@ | 4,
    {
        proof { use_type_invariant(self); }
        let b = self.bits;
        proof { lemma_rights_bits(b); }
        self.with_bits(b | 4)
    }

    /// Rights with black queenside added.
    pub fn set_black_queenside(self) -> (r: CastlingRights)
        ensures
            r@ == self@ | 8,
    {
        proof { use_type_invariant(self); }
        let b = self.bits;
        proof { lemma_rights_bits(b); }
        self.with_bits(b | 8)
    }

    /// Rights with white kingside removed.
    pub fn remove_white_kingside(self) -> (r: CastlingRights)
        ensures
            r@ == self@ & !1u8,
    {
        proof { use_type_invariant(self); }
        let b = self.bits;
        proof { lemma_rights_bits(b); }
        self.with_bits(b & !1u8)
    }

    /// Rights with white queenside removed.
    pub fn remove_white_queenside(self) -> (r: CastlingRights)
        ensures
            r@ == self@ & !2u8,
    {
        proof { use_type_invariant(self); }
        let b = self.bits;
        proof { lemma_rights_bits(b); }
        self.with_bits(b & !2u8)
    }

    /// Rights with black kingside removed.
    pub fn remove_black_kingside(self) -> (r: CastlingRights)
        ensures
            r@ == self@ & !4u8,
    {
        proof { use_type_invariant(self); }
        let b = self.bits;
        proof { lemma_rights_bits(b); }
        self.with_bits(b & !4u8)
    }

    /// Rights with black queenside removed.
    pub fn remove_black_queenside(self) -> (r: CastlingRights)
        ensures
            r@ == self@ & !8u8,
    {
        proof { use_type_invariant(self); }
        let b = self.bits;
        proof { lemma_rights_bits(b); }
        self.with_bits(b & !8u8)
    }

    /// The raw bits.
    pub fn bits(self) -> (r: u8)
        ensures
            r == self@,
            r < 16,
    {
        proof { use_type_invariant(self); }
        self.bits
    }

    /// Rights from raw bits; bits above the low four are dropped.
    pub fn from_bits(bits: u8) -> (r: CastlingRights)
        ensures
            r@ == bits & 15,
    {
        proof { lemma_rights_bits(bits); }
        CastlingRights { bits: bits & 15 }
    }
}

/// Everything needed to take a move back.
#[derive(Debug, Copy, Clone, PartialEq, Eq, Structural)]
pub struct UndoInfo {
    /// The piece that was captured, if any.
    pub captured_piece: Option<Piece>,
    /// Castling rights before the move.
    pub castling_rights: CastlingRights,
    /// En passant square before the move.
    pub ep_square: Option<Square>,
    /// Halfmove clock before the move.
    pub halfmove_clock: u32,
    /// Zobrist hash before the move.
    pub hash: u64,
}

/// Slot of a piece in the board's bitboard array.
pub open spec fn slot(p: Piece) -> int {
    (color_index(p.color) * 6 + kind_index(p.piece_type)) as int
}

/// The piece stored in a slot of the board's bitboard array.
pub open spec fn slot_piece(k: int) -> Piece {
    Piece {
        piece_type: kind_of_index(k % 6).unwrap(),
        color: if k < 6 { Color::White } else { Color::Black },
    }
}

/// The square of the pawn taken en passant by a pawn of `us` landing on `to`.
pub open spec fn ep_victim(us: Color, to: nat) -> int {
    match us {
        Color::White => to - 8,
        Color::Black => to + 8int,
    }
}

/// The square a double push of `us` from `from` passes over.
pub open spec fn ep_target(us: Color, from: nat) -> int {
    match us {
        Color::White => from + 8int,
        Color::Black => from - 8,
    }
}

/// Rook origin of a castling move from `from` to `to`.
pub open spec fn rook_origin(from: nat, to: nat) -> nat {
    if file_of(to) > file_of(from) { rank_of(from) * 8 + 7 } else { rank_of(from) * 8 }
}

/// Rook destination of a castling move from `from` to `to`.
pub open spec fn rook_target(from: nat, to: nat) -> nat {
    if file_of(to) > file_of(from) { rank_of(from) * 8 + 5 } else { rank_of(from) * 8 + 3 }
}

pub open spec fn code_capture(code: u8) -> bool { 4 <= code % 8 }
pub open spec fn code_ep(code: u8) -> bool { code == 5 }
pub open spec fn code_promo(code: u8) -> bool { code >= 8 }
pub open spec fn code_castle(code: u8) -> bool { code == 2 || code == 3 }

/// The square of the captured piece of a move, when it captures.
pub open spec fn victim_square(us: Color, to: nat, code: u8) -> int {
    if code_ep(code) { ep_victim(us, to) } else { to as int }
}

/// Placement after the first steps of a move: the captured piece taken
/// off, the mover lifted from `from` and put (or its promotion) on `to`.
pub open spec fn placed(mb: Seq<Option<Piece>>, us: Color, from: nat, to: nat, code: u8) -> Seq<Option<Piece>> {
    let m1 = if code_capture(code) { mb.update(victim_square(us, to, code), None) } else { mb };
    let m2 = m1.update(from as int, None);
    let put = if code_promo(code) { Some(Piece { piece_type: promo_kind(code).unwrap(), color: us }) } else { mb[from as int] };
    m2.update(to as int, put)
}

/// Placement after a move (castling also moves the rook).
pub open spec fn moved(mb: Seq<Option<Piece>>, us: Color, from: nat, to: nat, code: u8) -> Seq<Option<Piece>> {
    let m3 = placed(mb, us, from, to, code);
    if code_castle(code) {
        let rf = rook_origin(from, to) as int;
        let rt = rook_target(from, to) as int;
        m3.update(rf, None).update(rt, m3[rf])
    } else {
        m3
    }
}

/// Placement after taking a move back, before the rook of a castling move returns.
pub open spec fn unplaced(mb: Seq<Option<Piece>>, us: Color, from: nat, to: nat, code: u8, captured: Option<Piece>) -> Seq<Option<Piece>> {
    let m1 = mb.update(to as int, None);
    let back = if code_promo(code) { Some(Piece { piece_type: PieceType::Pawn, color: us }) } else { mb[to as int] };
    let m2 = m1.update(from as int, back);
    match captured {
        Some(c) => m2.update(victim_square(us, to, code), Some(c)),
        None => m2,
    }
}

/// Placement after taking a move back.
pub open spec fn unmoved(mb: Seq<Option<Piece>>, us: Color, from: nat, to: nat, code: u8, captured: Option<Piece>) -> Seq<Option<Piece>> {
    let m3 = unplaced(mb, us, from, to, code, captured);
    if code_castle(code) {
        let rf = rook_origin(from, to) as int;
        let rt = rook_target(from, to) as int;
        m3.update(rt, None).update(rf, m3[rt])
    } else {
        m3
    }
}

/// Castling rights lost when a rook leaves or is taken on square `sq`.
pub open spec fn rights_without_rook(c: u8, sq: nat) -> u8 {
    if sq == 0 { c & !2u8 } else if sq == 7 { c & !1u8 } else if sq == 56 { c & !8u8 } else if sq == 63 { c & !4u8 } else { c }
}

/// Castling rights after a move of `mover` by `us`.
pub open spec fn rights_after(c: u8, mover: Piece, us: Color, from: nat, to: nat, code: u8) -> u8 {
    let c1 = if mover.piece_type == PieceType::King {
        match us {
            Color::White => c & !1u8 & !2u8,
            Color::Black => c & !4u8 & !8u8,
        }
    } else if mover.piece_type == PieceType::Rook {
        rights_without_rook(c, from)
    } else {
        c
    };
    if code_capture(code) && !code_ep(code) { rights_without_rook(c1, to) } else { c1 }
}

/// Whether a move costs the castling right of the rook on `corner` that
/// belongs to `owner`: a rook leaves that corner, a capture (not en
/// passant) lands on it, or `owner`'s king moves.
pub open spec fn costs_corner(b: Board, m: Move, corner: nat, owner: Color) -> bool {
    let from = mv_from(m@);
    let to = mv_to(m@);
    let code = mv_code(m@);
    let kind = b.piece_on(from).unwrap().piece_type;
    ||| kind == PieceType::Rook && from == corner
    ||| code_capture(code) && !code_ep(code) && to == corner
    ||| kind == PieceType::King && b.side() == owner
}

/// Castling rights after a move: each right (white kingside 1 with the
/// rook on h1, white queenside 2 on a1, black kingside 4 on h8, black
/// queenside 8 on a8) is gone exactly when it was gone before or the move
/// costs it (see `costs_corner`); so a move from or onto h8 loses black's
/// kingside right and keeps its queenside right unless a8 or the black king
/// is involved as well.
pub proof fn lemma_move_rights(b: Board, m: Move, a: Board, u: UndoInfo)
    requires
        made(b, m, a, u),
    ensures
        (a.rights() & 1 == 0) <==> (b.rights() & 1 == 0 || costs_corner(b, m, 7, Color::White)),
        (a.rights() & 2 == 0) <==> (b.rights() & 2 == 0 || costs_corner(b, m, 0, Color::White)),
        (a.rights() & 4 == 0) <==> (b.rights() & 4 == 0 || costs_corner(b, m, 63, Color::Black)),
        (a.rights() & 8 == 0) <==> (b.rights() & 8 == 0 || costs_corner(b, m, 56, Color::Black)),
{
    let c = b.rights();
    lemma_rights_bits(c);
    lemma_rights_bits(c & !1u8);
    lemma_rights_bits(c & !4u8);
    let from = mv_from(m@);
    let to = mv_to(m@);
    let code = mv_code(m@);
    let mover = b.piece_on(from).unwrap();
    let c1 = if mover.piece_type == PieceType::King {
        match b.side() {
            Color::White => c & !1u8 & !2u8,
            Color::Black => c & !4u8 & !8u8,
        }
    } else if mover.piece_type == PieceType::Rook {
        rights_without_rook(c, from)
    } else {
        c
    };
    lemma_rights_bits(c1);
}

/// The hash after a move, updated key by key from the hash before it.
pub open spec fn hash_after(h: u64, mover: Piece, captured: Option<Piece>, us: Color, from: nat, to: nat, code: u8,
    c_old: u8, c_new: u8, ep_old: Option<Square>, ep_new: Option<Square>) -> u64 {
    let h1 = h ^ piece_key(mover, from);
    let h2 = match captured {
        Some(p) => h1 ^ piece_key(p, victim_square(us, to, code) as nat),
        None => h1,
    };
    let fin = if code_promo(code) { Piece { piece_type: promo_kind(code).unwrap(), color: us } } else { mover };
    let h3 = h2 ^ piece_key(fin, to);
    let rook = Piece { piece_type: PieceType::Rook, color: us };
    let h4 = if code_castle(code) { h3 ^ piece_key(rook, rook_origin(from, to)) ^ piece_key(rook, rook_target(from, to)) } else { h3 };
    let h5 = h4 ^ castling_key(c_old) ^ castling_key(c_new);
    let h6 = h5 ^ ep_key(ep_old) ^ ep_key(ep_new);
    h6 ^ KEY_BLACK_TO_MOVE
}

/// What `make_move` requires so that it never panics.
pub open spec fn can_make(b: Board, m: Move) -> bool {
    let us = b.side();
    let from = mv_from(m@);
    let to = mv_to(m@);
    let code = mv_code(m@);
    let mover = b.piece_on(from);
    &&& b.wf()
    &&& mover is Some
    &&& code_ep(code) ==> 0 <= ep_victim(us, to) < 64
    &&& code == 1 ==> 0 <= ep_target(us, from) < 64
    &&& code_castle(code) ==> placed(b.mailbox(), us, from, to, code)[rook_origin(from, to) as int] is Some
    &&& (!code_capture(code) && mover.unwrap().piece_type != PieceType::Pawn) ==> b.halfmove() < u32::MAX
    &&& us == Color::Black ==> b.fullmove() < u32::MAX
}

/// The relation between a board, a move, the board after `make_move`
/// and the undo record it returns.
pub open spec fn made(b: Board, m: Move, after: Board, undo: UndoInfo) -> bool {
    let us = b.side();
    let from = mv_from(m@);
    let to = mv_to(m@);
    let code = mv_code(m@);
    let mover = b.piece_on(from).unwrap();
    let captured = b.piece_on(victim_square(us, to, code) as nat);
    let rights = rights_after(b.rights(), mover, us, from, to, code);
    &&& after.wf()
    &&& forall|i: int| 0 <= i < 64 ==> #[trigger] after.piece_on(i as nat) == moved(b.mailbox(), us, from, to, code)[i]
    &&& after.side() == opposite(us)
    &&& after.rights() == rights
    &&& (code == 1 ==> after.ep() is Some && after.ep().unwrap()@ == ep_target(us, from))
    &&& (code != 1 ==> after.ep() is None)
    &&& after.halfmove() == if code_capture(code) || mover.piece_type == PieceType::Pawn { 0 } else { b.halfmove() + 1 }
    &&& after.fullmove() == if us == Color::Black { b.fullmove() + 1 } else { b.fullmove() as int }
    &&& after.hash_value() == hash_after(b.hash_value(), mover, captured, us, from, to, code, b.rights(), rights, b.ep(), after.ep())
    &&& undo.captured_piece == captured
    &&& undo.castling_rights@ == b.rights()
    &&& undo.ep_square == b.ep()
    &&& undo.halfmove_clock == b.halfmove()
    &&& undo.hash == b.hash_value()
}

/// What `unmake_move` requires so that it never panics.
pub open spec fn can_unmake(b: Board, m: Move, undo: UndoInfo) -> bool {
    let us = opposite(b.side());
    let from = mv_from(m@);
    let to = mv_to(m@);
    let code = mv_code(m@);
    &&& b.wf()
    &&& b.piece_on(to) is Some
    &&& (undo.captured_piece is Some && code_ep(code)) ==> 0 <= ep_victim(us, to) < 64
    &&& code_castle(code) ==> unplaced(b.mailbox(), us, from, to, code, undo.captured_piece)[rook_target(from, to) as int] is Some
    &&& us == Color::Black ==> b.fullmove() >= 1
}

/// The relation between a board, a move, an undo record and the board
/// after `unmake_move`.
pub open spec fn unmade(b: Board, m: Move, undo: UndoInfo, after: Board) -> bool {
    let us = opposite(b.side());
    let from = mv_from(m@);
    let to = mv_to(m@);
    let code = mv_code(m@);
    &&& after.wf()
    &&& forall|i: int| 0 <= i < 64 ==> #[trigger] after.piece_on(i as nat) == unmoved(b.mailbox(), us, from, to, code, undo.captured_piece)[i]
    &&& after.side() == us
    &&& after.fullmove() == if us == Color::Black { b.fullmove() - 1 } else { b.fullmove() as int }
    &&& after.rights() == undo.castling_rights@
    &&& after.ep() == undo.ep_square
    &&& after.halfmove() == undo.halfmove_clock
    &&& after.hash_value() == undo.hash
}

/// The conditions of a well-formed pseudo-legal move under which taking it
/// back restores the board: the mover is not moved onto itself, a promoted
/// piece was a pawn of the side to move, an en passant landing square is
/// empty, and castling moves onto empty, distinct king and rook squares.
pub open spec fn reversible(b: Board, m: Move) -> bool {
    let us = b.side();
    let from = mv_from(m@);
    let to = mv_to(m@);
    let code = mv_code(m@);
    let rf = rook_origin(from, to);
    let rt = rook_target(from, to);
    &&& from != to
    &&& code_promo(code) ==> b.piece_on(from) == Some(Piece { piece_type: PieceType::Pawn, color: us })
    &&& code_ep(code) ==> b.piece_on(to) is None && ep_victim(us, to) != from
    &&& code_castle(code) ==> b.piece_on(to) is None && b.piece_on(rt) is None && b.piece_on(rf) is Some
        && rf != from && rf != to && rt != from && rt != to
}

/// Two boards with the same pieces: the same well-formedness, the same
/// piece on every square and the same bitboards.
pub open spec fn same_pieces(a: Board, b: Board) -> bool {
    &&& a.wf() == b.wf()
    &&& forall|i: nat| #[trigger] a.piece_on(i) == b.piece_on(i)
    &&& forall|k: int| #[trigger] a.slot_bits(k) == b.slot_bits(k)
    &&& a.occ_bits() == b.occ_bits()
    &&& forall|c: Color| #[trigger] a.color_bits(c) == b.color_bits(c)
}

/// A chess position held as twelve piece bitboards.
#[derive(Debug, Copy, Clone, PartialEq, Eq)]
pub struct Board {
    pieces: [Bitboard; 12],
    occupied_by_color: [Bitboard; 2],
    occupied: Bitboard,
    side_to_move: Color,
    castling: CastlingRights,
    ep_square: Option<Square>,
    halfmove_clock: u32,
    fullmove_number: u32,
    hash: u64,
}

impl Board {
    /// The bitboard of slot `k` (color * 6 + piece type).
    pub closed spec fn slot_bits(self, k: int) -> u64 {
        self.pieces@[k].0
    }

    /// The piece on square `i`, if any.
    pub closed spec fn piece_on(self, i: nat) -> Option<Piece> {
        if i >= 64 { None } else if bit(self.pieces@[0].0, i as u64) { Some(Piece { piece_type: PieceType::Pawn, color: Color::White }) } else if bit(self.pieces@[1].0, i as u64) { Some(Piece { piece_type: PieceType::Knight, color: Color::White }) } else if bit(self.pieces@[2].0, i as u64) { Some(Piece { piece_type: PieceType::Bishop, color: Color::White }) } else if bit(self.pieces@[3].0, i as u64) { Some(Piece { piece_type: PieceType::Rook, color: Color::White }) } else if bit(self.pieces@[4].0, i as u64) { Some(Piece { piece_type: PieceType::Queen, color: Color::White }) } else if bit(self.pieces@[5].0, i as u64) { Some(Piece { piece_type: PieceType::King, color: Color::White }) } else if bit(self.pieces@[6].0, i as u64) { Some(Piece { piece_type: PieceType::Pawn, color: Color::Black }) } else if bit(self.pieces@[7].0, i as u64) { Some(Piece { piece_type: PieceType::Knight, color: Color::Black }) } else if bit(self.pieces@[8].0, i as u64) { Some(Piece { piece_type: PieceType::Bishop, color: Color::Black }) } else if bit(self.pieces@[9].0, i as u64) { Some(Piece { piece_type: PieceType::Rook, color: Color::Black }) } else if bit(self.pieces@[10].0, i as u64) { Some(Piece { piece_type: PieceType::Queen, color: Color::Black }) } else if bit(self.pieces@[11].0, i as u64) { Some(Piece { piece_type: PieceType::King, color: Color::Black }) } else { None }
    }

    /// The occupied squares.
    pub closed spec fn occ_bits(self) -> u64 {
        self.occupied.0
    }

    /// The squares occupied by a color.
    pub closed spec fn color_bits(self, c: Color) -> u64 {
        self.occupied_by_color@[color_index(c) as int].0
    }

    pub closed spec fn side(self) -> Color {
        self.side_to_move
    }

    pub closed spec fn rights(self) -> u8 {
        self.castling@
    }

    pub closed spec fn ep(self) -> Option<Square> {
        self.ep_square
    }

    pub closed spec fn halfmove(self) -> u32 {
        self.halfmove_clock
    }

    pub closed spec fn fullmove(self) -> u32 {
        self.fullmove_number
    }

    pub closed spec fn hash_value(self) -> u64 {
        self.hash
    }

    /// The same board with `side_to_move` replaced.
    pub closed spec fn with_side(self, v: Color) -> Board {
        Board { side_to_move: v, ..self }
    }

    /// The same board with `castling` replaced.
    pub closed spec fn with_castling(self, v: CastlingRights) -> Board {
        Board { castling: v, ..self }
    }

    /// The same board with `ep_square` replaced.
    pub closed spec fn with_ep(self, v: Option<Square>) -> Board {
        Board { ep_square: v, ..self }
    }

    /// The same board with `halfmove_clock` replaced.
    pub closed spec fn with_halfmove(self, v: u32) -> Board {
        Board { halfmove_clock: v, ..self }
    }

    /// The same board with `fullmove_number` replaced.
    pub closed spec fn with_fullmove(self, v: u32) -> Board {
        Board { fullmove_number: v, ..self }
    }

    /// The same board with `hash` replaced.
    pub closed spec fn with_hash(self, v: u64) -> Board {
        Board { hash: v, ..self }
    }

    /// Well-formedness: no square holds two pieces, and the occupancy
    /// bitboards are the unions of the piece bitboards.
    pub closed spec fn wf(self) -> bool {
        &&& forall|k1: int, k2: int, i: u64| 0 <= k1 < k2 < 12 ==> !(#[trigger] bit(self.pieces@[k1].0, i) && #[trigger] bit(self.pieces@[k2].0, i))
        &&& self.occupied_by_color@[0].0 == (self.pieces@[0].0 | self.pieces@[1].0 | self.pieces@[2].0 | self.pieces@[3].0 | self.pieces@[4].0 | self.pieces@[5].0)
        &&& self.occupied_by_color@[1].0 == (self.pieces@[6].0 | self.pieces@[7].0 | self.pieces@[8].0 | self.pieces@[9].0 | self.pieces@[10].0 | self.pieces@[11].0)
        &&& self.occupied.0 == (self.occupied_by_color@[0].0 | self.occupied_by_color@[1].0)
    }

    /// On a well-formed board a slot's bit is set exactly where its piece
    /// stands, and the occupancy bitboards follow the pieces.
    pub proof fn lemma_wf_bits(self)
        requires
            self.wf(),
        ensures
            forall|k: int, i: u64| 0 <= k < 12 && i < 64 ==> #[trigger] bit(self.slot_bits(k), i) == (self.piece_on(i as nat) == Some(slot_piece(k))),
            forall|i: u64| i < 64 ==> #[trigger] bit(self.occ_bits(), i) == self.piece_on(i as nat).is_some(),
            forall|i: u64, c: Color| i < 64 ==> #[trigger] bit(self.color_bits(c), i) == (self.piece_on(i as nat) matches Some(p) && p.color == c),
            forall|i: u64| i >= 64 ==> !#[trigger] bit(self.occ_bits(), i),
    {
        let p = self.pieces@;
        lemma_bit_or(p[0].0, p[1].0);
        lemma_bit_or(p[0].0 | p[1].0, p[2].0);
        lemma_bit_or(p[0].0 | p[1].0 | p[2].0, p[3].0);
        lemma_bit_or(p[0].0 | p[1].0 | p[2].0 | p[3].0, p[4].0);
        lemma_bit_or(p[0].0 | p[1].0 | p[2].0 | p[3].0 | p[4].0, p[5].0);
        lemma_bit_or(p[6].0, p[7].0);
        lemma_bit_or(p[6].0 | p[7].0, p[8].0);
        lemma_bit_or(p[6].0 | p[7].0 | p[8].0, p[9].0);
        lemma_bit_or(p[6].0 | p[7].0 | p[8].0 | p[9].0, p[10].0);
        lemma_bit_or(p[6].0 | p[7].0 | p[8].0 | p[9].0 | p[10].0, p[11].0);
        lemma_bit_or(self.occupied_by_color@[0].0, self.occupied_by_color@[1].0);
        assert forall|k: int, i: u64| 0 <= k < 12 && i < 64 implies #[trigger] bit(self.slot_bits(k), i) == (self.piece_on(i as nat) == Some(slot_piece(k))) by {
            assert forall|j: int| 0 <= j < 12 && j != k implies !(bit(p[j].0, i) && bit(p[k].0, i)) by {
                if j < k {
                    assert(!(bit(p[j].0, i) && bit(p[k].0, i)));
                } else {
                    assert(!(bit(p[k].0, i) && bit(p[j].0, i)));
                }
            }
        }
    }

    /// Two well-formed boards with the same pieces on every square and the
    /// same state fields are equal.
    pub proof fn lemma_equal_by_squares(self, other: Board)
        requires
            self.wf(),
            other.wf(),
            forall|i: nat| i < 64 ==> #[trigger] self.piece_on(i) == other.piece_on(i),
            self.side() == other.side(),
            self.rights() == other.rights(),
            self.ep() == other.ep(),
            self.halfmove() == other.halfmove(),
            self.fullmove() == other.fullmove(),
            self.hash_value() == other.hash_value(),
        ensures
            self == other,
    {
        self.lemma_wf_bits();
        other.lemma_wf_bits();
        assert forall|k: int| 0 <= k < 12 implies self.pieces@[k] == other.pieces@[k] by {
            assert forall|i: u64| i < 64 implies #[trigger] bit(self.pieces@[k].0, i) == bit(other.pieces@[k].0, i) by {
                assert(self.piece_on(i as nat) == other.piece_on(i as nat));
                assert(bit(self.slot_bits(k), i) == bit(other.slot_bits(k), i));
            }
            lemma_eq_by_bits(self.pieces@[k].0, other.pieces@[k].0);
        }
        assert(self.pieces =~= other.pieces);
        assert(self.occupied_by_color@[0] == other.occupied_by_color@[0]);
        assert(self.occupied_by_color@[1] == other.occupied_by_color@[1]);
        assert(self.occupied_by_color =~= other.occupied_by_color);
        assert(self.castling == other.castling);
    }

    /// Recompute the occupancy bitboards from the piece bitboards.
    fn update_occupied(&mut self)
        requires
            forall|k1: int, k2: int, i: u64| 0 <= k1 < k2 < 12 ==> !(#[trigger] bit(old(self).pieces@[k1].0, i) && #[trigger] bit(old(self).pieces@[k2].0, i)),
        ensures
            final(self).wf(),
            final(self).pieces == old(self).pieces,
            final(self).side_to_move == old(self).side_to_move,
            final(self).castling == old(self).castling,
            final(self).ep_square == old(self).ep_square,
            final(self).halfmove_clock == old(self).halfmove_clock,
            final(self).fullmove_number == old(self).fullmove_number,
            final(self).hash == old(self).hash,
    {
        let p = self.pieces;
        let w = Bitboard(p[0].0 | p[1].0 | p[2].0 | p[3].0 | p[4].0 | p[5].0);
        let b = Bitboard(p[6].0 | p[7].0 | p[8].0 | p[9].0 | p[10].0 | p[11].0);
        self.occupied_by_color = [w, b];
        self.occupied = Bitboard(w.0 | b.0);
    }

    /// An empty board, white to move, no castling rights.
    pub fn empty() -> (r: Board)
        ensures
            r.wf(),
            forall|i: nat| #[trigger] r.piece_on(i) is None,
            r.side() == Color::White,
            r.rights() == 0,
            r.ep() is None,
            r.halfmove() == 0,
            r.fullmove() == 1,
            r.hash_value() == full_hash(r),
    {
        let e = Bitboard(0);
        let mut board = Board {
            pieces: [e; 12],
            occupied_by_color: [e; 2],
            occupied: e,
            side_to_move: Color::White,
            castling: CastlingRights::none(),
            ep_square: None,
            halfmove_clock: 0,
            fullmove_number: 1,
            hash: 0,
        };
        proof {
            lemma_bit_zero();
            assert(forall|k: int| 0 <= k < 12 ==> board.pieces@[k] == e);
            lemma_word_identities();
        }
        let h = zobrist_hash(&board);
        board.hash = h;
        proof {
            assert(board.mailbox() == Board { hash: 0, ..board }.mailbox());
        }
        board
    }

    /// The piece on square `i` in the starting position.
    pub open spec fn start_piece(i: nat) -> Option<Piece> {
        let f = file_of(i);
        let r = rank_of(i);
        let back = if f == 0 || f == 7 { PieceType::Rook } else if f == 1 || f == 6 { PieceType::Knight }
            else if f == 2 || f == 5 { PieceType::Bishop } else if f == 3 { PieceType::Queen } else { PieceType::King };
        if i >= 64 { None }
        else if r == 0 { Some(Piece { piece_type: back, color: Color::White }) }
        else if r == 1 { Some(Piece { piece_type: PieceType::Pawn, color: Color::White }) }
        else if r == 6 { Some(Piece { piece_type: PieceType::Pawn, color: Color::Black }) }
        else if r == 7 { Some(Piece { piece_type: back, color: Color::Black }) }
        else { None }
    }

    /// The piece on a square in the starting position.
    fn start_piece_at(sq: Square) -> (r: Option<Piece>)
        ensures
            r == Self::start_piece(sq@),
    {
        sq.index_bound();
        let f = sq.file();
        let r = sq.rank();
        let back = if f == 0 || f == 7 { PieceType::Rook } else if f == 1 || f == 6 { PieceType::Knight }
            else if f == 2 || f == 5 { PieceType::Bishop } else if f == 3 { PieceType::Queen } else { PieceType::King };
        if r == 0 { Some(Piece::new(back, Color::White)) }
        else if r == 1 { Some(Piece::new(PieceType::Pawn, Color::White)) }
        else if r == 6 { Some(Piece::new(PieceType::Pawn, Color::Black)) }
        else if r == 7 { Some(Piece::new(back, Color::Black)) }
        else { None }
    }

    /// The standard starting position: white to move, all castling rights.
    pub fn startpos() -> (r: Board)
        ensures
            r.wf(),
            forall|i: nat| #[trigger] r.piece_on(i) == Self::start_piece(i),
            r.side() == Color::White,
            r.rights() == 15,
            r.ep() is None,
            r.halfmove() == 0,
            r.fullmove() == 1,
            r.hash_value() == full_hash(r),
    {
        let mut board = Self::empty();
        let mut i: u8 = 0;
        while i < 64
            invariant
                i <= 64,
                board.wf(),
                forall|j: nat| #[trigger] board.piece_on(j) == if j < i { Self::start_piece(j) } else { None },
                board.side() == Color::White,
                board.ep() is None,
                board.halfmove() == 0,
                board.fullmove() == 1,
            decreases 64 - i,
        {
            let sq = Square::new(i);
            match Self::start_piece_at(sq) {
                Some(p) => board.set_piece(sq, p),
                None => {},
            }
            i += 1;
        }
        let ghost placed = board;
        assert(forall|j: nat| #[trigger] placed.piece_on(j) == Self::start_piece(j));
        board.set_castling(CastlingRights::all());
        let ghost with_rights = board;
        let h = zobrist_hash(&board);
        board.set_hash(h);
        proof {
            assert(forall|j: nat| #[trigger] board.piece_on(j) == with_rights.piece_on(j));
            assert(forall|j: nat| #[trigger] with_rights.piece_on(j) == placed.piece_on(j));
            assert(board.mailbox() =~= with_rights.mailbox());
        }
        board
    }

    /// The piece on a square, if any.
    pub fn piece_at(&self, square: Square) -> (r: Option<Piece>)
        ensures
            r == self.piece_on(square@),
    {
        if self.pieces[0].contains(square) {
            return Some(Piece { piece_type: PieceType::Pawn, color: Color::White });
        }
        if self.pieces[1].contains(square) {
            return Some(Piece { piece_type: PieceType::Knight, color: Color::White });
        }
        if self.pieces[2].contains(square) {
            return Some(Piece { piece_type: PieceType::Bishop, color: Color::White });
        }
        if self.pieces[3].contains(square) {
            return Some(Piece { piece_type: PieceType::Rook, color: Color::White });
        }
        if self.pieces[4].contains(square) {
            return Some(Piece { piece_type: PieceType::Queen, color: Color::White });
        }
        if self.pieces[5].contains(square) {
            return Some(Piece { piece_type: PieceType::King, color: Color::White });
        }
        if self.pieces[6].contains(square) {
            return Some(Piece { piece_type: PieceType::Pawn, color: Color::Black });
        }
        if self.pieces[7].contains(square) {
            return Some(Piece { piece_type: PieceType::Knight, color: Color::Black });
        }
        if self.pieces[8].contains(square) {
            return Some(Piece { piece_type: PieceType::Bishop, color: Color::Black });
        }
        if self.pieces[9].contains(square) {
            return Some(Piece { piece_type: PieceType::Rook, color: Color::Black });
        }
        if self.pieces[10].contains(square) {
            return Some(Piece { piece_type: PieceType::Queen, color: Color::Black });
        }
        if self.pieces[11].contains(square) {
            return Some(Piece { piece_type: PieceType::King, color: Color::Black });
        }
        None
    }

    /// Remove whatever piece stands on a square.
    pub fn remove_piece(&mut self, square: Square)
        requires
            old(self).wf(),
        ensures
            final(self).wf(),
            forall|k: int, i: u64| 0 <= k < 12 ==> #[trigger] bit(final(self).slot_bits(k), i) == (bit(old(self).slot_bits(k), i) && i != square@),
            forall|i: nat| #[trigger] final(self).piece_on(i) == if i == square@ { None } else { old(self).piece_on(i) },
            final(self).side() == old(self).side(),
            final(self).rights() == old(self).rights(),
            final(self).ep() == old(self).ep(),
            final(self).halfmove() == old(self).halfmove(),
            final(self).fullmove() == old(self).fullmove(),
            final(self).hash_value() == old(self).hash_value(),
    {
        let mut k: usize = 0;
        while k < 12
            invariant
                k <= 12,
                forall|j: int, i: u64| 0 <= j < 12 ==> #[trigger] bit(self.pieces@[j].0, i) == if j < k { bit(old(self).pieces@[j].0, i) && i != square@ } else { bit(old(self).pieces@[j].0, i) },
                self.side_to_move == old(self).side_to_move,
                self.castling == old(self).castling,
                self.ep_square == old(self).ep_square,
                self.halfmove_clock == old(self).halfmove_clock,
                self.fullmove_number == old(self).fullmove_number,
                self.hash == old(self).hash,
            decreases 12 - k,
        {
            let b = self.pieces[k].clear(square);
            self.pieces[k] = b;
            k += 1;
        }
        proof {
            old(self).lemma_wf_bits();
            assert forall|k1: int, k2: int, i: u64| 0 <= k1 < k2 < 12 implies !(#[trigger] bit(self.pieces@[k1].0, i) && #[trigger] bit(self.pieces@[k2].0, i)) by {
                assert(!(bit(old(self).pieces@[k1].0, i) && bit(old(self).pieces@[k2].0, i)));
            }
        }
        self.update_occupied();
    }

    /// Put a piece on a square, replacing whatever stood there.
    pub fn set_piece(&mut self, square: Square, piece: Piece)
        requires
            old(self).wf(),
        ensures
            final(self).wf(),
            forall|k: int, i: u64| 0 <= k < 12 ==> #[trigger] bit(final(self).slot_bits(k), i) == if i == square@ { k == slot(piece) } else { bit(old(self).slot_bits(k), i) },
            forall|i: nat| #[trigger] final(self).piece_on(i) == if i == square@ { Some(piece) } else { old(self).piece_on(i) },
            final(self).side() == old(self).side(),
            final(self).rights() == old(self).rights(),
            final(self).ep() == old(self).ep(),
            final(self).halfmove() == old(self).halfmove(),
            final(self).fullmove() == old(self).fullmove(),
            final(self).hash_value() == old(self).hash_value(),
    {
        self.remove_piece(square);
        let ghost mid = *self;
        let k = piece.color.index() * 6 + piece.piece_type.index();
        let b = self.pieces[k].set(square);
        self.pieces[k] = b;
        square.index_bound();
        proof {
            assert(self.pieces@ == mid.pieces@.update(k as int, b));
            assert forall|j: int, i: u64| 0 <= j < 12 implies #[trigger] bit(self.pieces@[j].0, i) == if i == square@ { j == k } else { bit(old(self).slot_bits(j), i) } by {
                assert(bit(mid.slot_bits(j), i) == (bit(old(self).slot_bits(j), i) && i != square@));
            }
            assert forall|k1: int, k2: int, i: u64| 0 <= k1 < k2 < 12 implies !(#[trigger] bit(self.pieces@[k1].0, i) && #[trigger] bit(self.pieces@[k2].0, i)) by {
                mid.lemma_wf_bits();
                if i != square@ {
                    assert(bit(self.pieces@[k1].0, i) == bit(mid.slot_bits(k1), i));
                    assert(bit(self.pieces@[k2].0, i) == bit(mid.slot_bits(k2), i));
                    assert(!(bit(mid.pieces@[k1].0, i) && bit(mid.pieces@[k2].0, i)));
                }
            }
        }
        self.update_occupied();
        proof {
            assert(slot_piece(k as int) == piece);
            assert forall|j: int, i: u64| 0 <= j < 12 implies #[trigger] bit(self.slot_bits(j), i) == if i == square@ { j == slot(piece) } else { bit(old(self).slot_bits(j), i) } by {
            }
            self.lemma_wf_bits();
            old(self).lemma_wf_bits();
            assert forall|i: nat| #[trigger] self.piece_on(i) == if i == square@ { Some(piece) } else { old(self).piece_on(i) } by {
                if i < 64 {
                    if i == square@ {
                        assert(bit(self.slot_bits(k as int), i as u64));
                    } else {
                        assert forall|j: int| 0 <= j < 12 implies bit(self.slot_bits(j), i as u64) == bit(old(self).slot_bits(j), i as u64) by {}
                    }
                }
            }
        }
    }

    /// The piece placement as a sequence of 64 squares.
    pub closed spec fn mailbox(self) -> Seq<Option<Piece>> {
        Seq::new(64, |i: int| self.piece_on(i as nat))
    }

    /// The mailbox lists the piece on each square.
    pub proof fn lemma_mailbox(self)
        ensures
            self.mailbox().len() == 64,
            forall|i: int| 0 <= i < 64 ==> #[trigger] self.mailbox()[i] == self.piece_on(i as nat),
    {
    }

    /// Move the pieces of a move: take off the captured piece, move the
    /// mover (or put its promotion) and, when castling, the rook.
    fn place_move(&mut self, m: Move, us: Color, victim: Square, mover: Piece)
        requires
            old(self).wf(),
            old(self).piece_on(mv_from(m@)) == Some(mover),
            victim@ == victim_square(us, mv_to(m@), mv_code(m@)),
            code_castle(mv_code(m@)) ==> placed(old(self).mailbox(), us, mv_from(m@), mv_to(m@), mv_code(m@))[rook_origin(mv_from(m@), mv_to(m@)) as int] is Some,
        ensures
            final(self).wf(),
            forall|i: int| 0 <= i < 64 ==> #[trigger] final(self).piece_on(i as nat) == moved(old(self).mailbox(), us, mv_from(m@), mv_to(m@), mv_code(m@))[i],
            final(self).side_to_move == old(self).side_to_move,
            final(self).castling == old(self).castling,
            final(self).ep_square == old(self).ep_square,
            final(self).halfmove_clock == old(self).halfmove_clock,
            final(self).fullmove_number == old(self).fullmove_number,
            final(self).hash == old(self).hash,
    {
        let ghost b0 = *self;
        let ghost mb = b0.mailbox();
        let ghost code = mv_code(m@);
        let from = m.from();
        let to = m.to();
        from.index_bound();
        to.index_bound();
        victim.index_bound();
        let ghost m1 = if code_capture(code) { mb.update(victim_square(us, to@, code), None) } else { mb };
        assert(forall|i: int| 0 <= i < 64 ==> #[trigger] mb[i] == b0.piece_on(i as nat));
        if m.is_capture() {
            self.remove_piece(victim);
            assert(m1 == mb.update(victim@ as int, None));
            assert forall|i: int| 0 <= i < 64 implies #[trigger] self.piece_on(i as nat) == m1[i] by {
                if i == victim@ {
                    assert(self.piece_on(i as nat) is None);
                } else {
                    assert(self.piece_on(i as nat) == b0.piece_on(i as nat));
                    assert(mb[i] == b0.piece_on(i as nat));
                }
            }
        } else {
            assert(m1 == mb);
            assert(forall|i: int| 0 <= i < 64 ==> #[trigger] self.piece_on(i as nat) == m1[i]);
        }
        self.remove_piece(from);
        if m.is_promotion() {
            let kind = m.promotion_piece().unwrap();
            self.set_piece(to, Piece::new(kind, us));
        } else {
            self.set_piece(to, mover);
        }
        let ghost m3 = placed(mb, us, from@, to@, code);
        assert(forall|i: int| 0 <= i < 64 ==> #[trigger] self.piece_on(i as nat) == m3[i]);
        if m.is_castling() {
            let rank = from.rank();
            let kingside = to.file() > from.file();
            let rook_from = if kingside { Square::from_coords(7, rank) } else { Square::from_coords(0, rank) };
            let rook_to = if kingside { Square::from_coords(5, rank) } else { Square::from_coords(3, rank) };
            assert(rook_from@ == rook_origin(from@, to@));
            assert(rook_to@ == rook_target(from@, to@));
            let rook = self.piece_at(rook_from).unwrap();
            assert(rook == m3[rook_from@ as int].unwrap());
            self.remove_piece(rook_from);
            self.set_piece(rook_to, rook);
        }
    }

    /// Make a move, returning what is needed to take it back. The move is
    /// assumed pseudo-legal; it may leave the mover's king in check.
    pub fn make_move(&mut self, m: Move) -> (undo: UndoInfo)
        requires
            can_make(*old(self), m),
        ensures
            made(*old(self), m, *final(self), undo),
    {
        let ghost b0 = *self;
        let from = m.from();
        let to = m.to();
        let us = self.side_to_move;
        let them = us.opponent();
        from.index_bound();
        to.index_bound();
        let ep = m.is_en_passant();
        let victim = if ep {
            if us == Color::White {
                Square::new(to.index() - 8)
            } else {
                Square::new(to.index() + 8)
            }
        } else {
            to
        };
        let captured_piece = self.piece_at(victim);
        let undo = UndoInfo {
            captured_piece,
            castling_rights: self.castling,
            ep_square: self.ep_square,
            halfmove_clock: self.halfmove_clock,
            hash: self.hash,
        };
        let moving_piece = self.piece_at(from).unwrap();
        let capture = m.is_capture();
        self.place_move(m, us, victim, moving_piece);
        let ghost after_place = *self;
        self.ep_square = None;
        if capture || moving_piece.piece_type == PieceType::Pawn {
            self.halfmove_clock = 0;
        } else {
            self.halfmove_clock = self.halfmove_clock + 1;
        }
        if m.is_double_pawn_push() {
            let target = if us == Color::White {
                Square::new(from.index() + 8)
            } else {
                Square::new(from.index() - 8)
            };
            self.ep_square = Some(target);
        }
        let old_rights = self.castling;
        let rights = Self::rights_after_move(old_rights, moving_piece, us, from, to, capture && !ep);
        self.castling = rights;
        self.side_to_move = them;
        if us == Color::Black {
            self.fullmove_number = self.fullmove_number + 1;
        }
        self.hash = Self::hash_after_move(undo.hash, moving_piece, captured_piece, us, m, victim, old_rights, rights, undo.ep_square, self.ep_square);
        assert(self.pieces == after_place.pieces);
        assert(forall|i: nat| #[trigger] self.piece_on(i) == after_place.piece_on(i));
        undo
    }

    /// Put the pieces of a move back: the mover (a pawn again after a
    /// promotion), the captured piece and, when castling, the rook.
    fn unplace_move(&mut self, m: Move, us: Color, captured: Option<Piece>)
        requires
            old(self).wf(),
            old(self).piece_on(mv_to(m@)) is Some,
            (captured is Some && code_ep(mv_code(m@))) ==> 0 <= ep_victim(us, mv_to(m@)) < 64,
            code_castle(mv_code(m@)) ==> unplaced(old(self).mailbox(), us, mv_from(m@), mv_to(m@), mv_code(m@), captured)[rook_target(mv_from(m@), mv_to(m@)) as int] is Some,
        ensures
            final(self).wf(),
            forall|i: int| 0 <= i < 64 ==> #[trigger] final(self).piece_on(i as nat) == unmoved(old(self).mailbox(), us, mv_from(m@), mv_to(m@), mv_code(m@), captured)[i],
            final(self).side_to_move == old(self).side_to_move,
            final(self).castling == old(self).castling,
            final(self).ep_square == old(self).ep_square,
            final(self).halfmove_clock == old(self).halfmove_clock,
            final(self).fullmove_number == old(self).fullmove_number,
            final(self).hash == old(self).hash,
    {
        let ghost b0 = *self;
        let ghost mb = b0.mailbox();
        let ghost code = mv_code(m@);
        let from = m.from();
        let to = m.to();
        from.index_bound();
        to.index_bound();
        assert(forall|i: int| 0 <= i < 64 ==> #[trigger] mb[i] == b0.piece_on(i as nat));
        let dest = self.piece_at(to).unwrap();
        self.remove_piece(to);
        if m.is_promotion() {
            self.set_piece(from, Piece::new(PieceType::Pawn, us));
        } else {
            self.set_piece(from, dest);
        }
        let ghost m2 = mb.update(to@ as int, None).update(from@ as int,
            if code_promo(code) { Some(Piece { piece_type: PieceType::Pawn, color: us }) } else { mb[to@ as int] });
        assert(forall|i: int| 0 <= i < 64 ==> #[trigger] self.piece_on(i as nat) == m2[i]);
        match captured {
            Some(c) => {
                let victim = if m.is_en_passant() {
                    if us == Color::White {
                        Square::new(to.index() - 8)
                    } else {
                        Square::new(to.index() + 8)
                    }
                } else {
                    to
                };
                assert(victim@ == victim_square(us, to@, code));
                self.set_piece(victim, c);
            },
            None => {},
        }
        let ghost m3 = unplaced(mb, us, from@, to@, code, captured);
        assert(forall|i: int| 0 <= i < 64 ==> #[trigger] self.piece_on(i as nat) == m3[i]);
        if m.is_castling() {
            let rank = from.rank();
            let kingside = to.file() > from.file();
            let rook_from = if kingside { Square::from_coords(7, rank) } else { Square::from_coords(0, rank) };
            let rook_to = if kingside { Square::from_coords(5, rank) } else { Square::from_coords(3, rank) };
            assert(rook_from@ == rook_origin(from@, to@));
            assert(rook_to@ == rook_target(from@, to@));
            let rook = self.piece_at(rook_to).unwrap();
            self.remove_piece(rook_to);
            self.set_piece(rook_from, rook);
        }
    }

    /// Take a move back using the record `make_move` returned.
    pub fn unmake_move(&mut self, m: Move, undo: UndoInfo)
        requires
            can_unmake(*old(self), m, undo),
        ensures
            unmade(*old(self), m, undo, *final(self)),
    {
        let us = self.side_to_move.opponent();
        self.unplace_move(m, us, undo.captured_piece);
        let ghost after_place = *self;
        self.side_to_move = us;
        if us == Color::Black {
            self.fullmove_number = self.fullmove_number - 1;
        }
        self.castling = undo.castling_rights;
        self.ep_square = undo.ep_square;
        self.halfmove_clock = undo.halfmove_clock;
        self.hash = undo.hash;
        assert(self.pieces == after_place.pieces);
        assert(forall|i: nat| #[trigger] self.piece_on(i) == after_place.piece_on(i));
    }

    /// Castling rights after a move of `mover` from `from` to `to`.
    fn rights_after_move(c: CastlingRights, mover: Piece, us: Color, from: Square, to: Square, takes_on_to: bool) -> (r: CastlingRights)
        ensures
            r@ == (if takes_on_to { rights_without_rook(
                if mover.piece_type == PieceType::King { match us { Color::White => c@ & !1u8 & !2u8, Color::Black => c@ & !4u8 & !8u8 } }
                else if mover.piece_type == PieceType::Rook { rights_without_rook(c@, from@) } else { c@ }, to@) }
                else {
                if mover.piece_type == PieceType::King { match us { Color::White => c@ & !1u8 & !2u8, Color::Black => c@ & !4u8 & !8u8 } }
                else if mover.piece_type == PieceType::Rook { rights_without_rook(c@, from@) } else { c@ } }),
    {
        let mut rights = c;
        if mover.piece_type == PieceType::King {
            if us == Color::White {
                rights = rights.remove_white_kingside().remove_white_queenside();
            } else {
                rights = rights.remove_black_kingside().remove_black_queenside();
            }
        } else if mover.piece_type == PieceType::Rook {
            rights = Self::rights_without_rook_at(rights, from);
        }
        if takes_on_to {
            rights = Self::rights_without_rook_at(rights, to);
        }
        rights
    }

    /// The hash after a move, updated key by key.
    fn hash_after_move(h0: u64, mover: Piece, captured: Option<Piece>, us: Color, m: Move, victim: Square,
        old_rights: CastlingRights, rights: CastlingRights, ep_old: Option<Square>, ep_new: Option<Square>) -> (r: u64)
        requires
            victim@ == victim_square(us, mv_to(m@), mv_code(m@)),
        ensures
            r == hash_after(h0, mover, captured, us, mv_from(m@), mv_to(m@), mv_code(m@), old_rights@, rights@, ep_old, ep_new),
    {
        let from = m.from();
        let to = m.to();
        let mut h = hash_piece(h0, mover, from);
        match captured {
            Some(p) => {
                h = hash_piece(h, p, victim);
            },
            None => {},
        }
        let final_piece = if m.is_promotion() {
            Piece::new(m.promotion_piece().unwrap(), us)
        } else {
            mover
        };
        h = hash_piece(h, final_piece, to);
        if m.is_castling() {
            let rank = from.rank();
            let kingside = to.file() > from.file();
            let rook_from = if kingside { Square::from_coords(7, rank) } else { Square::from_coords(0, rank) };
            let rook_to = if kingside { Square::from_coords(5, rank) } else { Square::from_coords(3, rank) };
            let rook = Piece::new(PieceType::Rook, us);
            h = hash_piece(h, rook, rook_from);
            h = hash_piece(h, rook, rook_to);
        }
        let ob = old_rights.bits();
        let nb = rights.bits();
        h = hash_castling(h, ob, nb);
        h = hash_en_passant(h, ep_old, ep_new);
        hash_side_to_move(h)
    }

    /// Castling rights without the right of a rook standing on `sq`
    /// (a1, h1, a8 or h8).
    fn rights_without_rook_at(c: CastlingRights, sq: Square) -> (r: CastlingRights)
        ensures
            r@ == rights_without_rook(c@, sq@),
    {
        let i = sq.index();
        if i == 0 {
            c.remove_white_queenside()
        } else if i == 7 {
            c.remove_white_kingside()
        } else if i == 56 {
            c.remove_black_queenside()
        } else if i == 63 {
            c.remove_black_kingside()
        } else {
            c
        }
    }

    /// Bitboard of one piece type and color.
    pub fn piece_bb(&self, piece_type: PieceType, color: Color) -> (r: Bitboard)
        ensures
            r.0 == self.slot_bits((color_index(color) * 6 + kind_index(piece_type)) as int),
    {
        self.pieces[color.index() * 6 + piece_type.index()]
    }

    /// Bitboard of all pieces of a color.
    pub fn color_bb(&self, color: Color) -> (r: Bitboard)
        ensures
            r.0 == self.color_bits(color),
    {
        self.occupied_by_color[color.index()]
    }

    /// Bitboard of all occupied squares.
    pub fn occupied(&self) -> (r: Bitboard)
        ensures
            r.0 == self.occ_bits(),
    {
        self.occupied
    }

    /// Bitboard of all empty squares.
    pub fn empty_squares(&self) -> (r: Bitboard)
        ensures
            r.0 == !self.occ_bits(),
    {
        Bitboard(!self.occupied.0)
    }

    /// The side to move.
    pub fn side_to_move(&self) -> (r: Color)
        ensures
            r == self.side(),
    {
        self.side_to_move
    }

    /// Set the side to move.
    pub fn set_side_to_move(&mut self, color: Color)
        ensures
            *final(self) == old(self).with_side(color),
            final(self).side() == color,
            final(self).rights() == old(self).rights(),
            final(self).ep() == old(self).ep(),
            final(self).halfmove() == old(self).halfmove(),
            final(self).fullmove() == old(self).fullmove(),
            final(self).hash_value() == old(self).hash_value(),
            same_pieces(*old(self), *final(self)),
    {
        self.side_to_move = color;
    }

    /// The castling rights.
    pub fn castling(&self) -> (r: CastlingRights)
        ensures
            r@ == self.rights(),
    {
        self.castling
    }

    /// Set the castling rights.
    pub fn set_castling(&mut self, castling: CastlingRights)
        ensures
            *final(self) == old(self).with_castling(castling),
            final(self).rights() == castling@,
            final(self).side() == old(self).side(),
            final(self).ep() == old(self).ep(),
            final(self).halfmove() == old(self).halfmove(),
            final(self).fullmove() == old(self).fullmove(),
            final(self).hash_value() == old(self).hash_value(),
            same_pieces(*old(self), *final(self)),
    {
        self.castling = castling;
    }

    /// The en passant target square.
    pub fn ep_square(&self) -> (r: Option<Square>)
        ensures
            r == self.ep(),
    {
        self.ep_square
    }

    /// Set the en passant target square.
    pub fn set_ep_square(&mut self, square: Option<Square>)
        ensures
            *final(self) == old(self).with_ep(square),
            final(self).ep() == square,
            final(self).side() == old(self).side(),
            final(self).rights() == old(self).rights(),
            final(self).halfmove() == old(self).halfmove(),
            final(self).fullmove() == old(self).fullmove(),
            final(self).hash_value() == old(self).hash_value(),
            same_pieces(*old(self), *final(self)),
    {
        self.ep_square = square;
    }

    /// The halfmove clock.
    pub fn halfmove_clock(&self) -> (r: u32)
        ensures
            r == self.halfmove(),
    {
        self.halfmove_clock
    }

    /// Set the halfmove clock.
    pub fn set_halfmove_clock(&mut self, clock: u32)
        ensures
            *final(self) == old(self).with_halfmove(clock),
            final(self).halfmove() == clock,
            final(self).side() == old(self).side(),
            final(self).rights() == old(self).rights(),
            final(self).ep() == old(self).ep(),
            final(self).fullmove() == old(self).fullmove(),
            final(self).hash_value() == old(self).hash_value(),
            same_pieces(*old(self), *final(self)),
    {
        self.halfmove_clock = clock;
    }

    /// The fullmove number.
    pub fn fullmove_number(&self) -> (r: u32)
        ensures
            r == self.fullmove(),
    {
        self.fullmove_number
    }

    /// Set the fullmove number.
    pub fn set_fullmove_number(&mut self, number: u32)
        ensures
            *final(self) == old(self).with_fullmove(number),
            final(self).fullmove() == number,
            final(self).side() == old(self).side(),
            final(self).rights() == old(self).rights(),
            final(self).ep() == old(self).ep(),
            final(self).halfmove() == old(self).halfmove(),
            final(self).hash_value() == old(self).hash_value(),
            same_pieces(*old(self), *final(self)),
    {
        self.fullmove_number = number;
    }

    /// The Zobrist hash of the position.
    pub fn hash(&self) -> (r: u64)
        ensures
            r == self.hash_value(),
    {
        self.hash
    }

    /// Set the Zobrist hash.
    pub fn set_hash(&mut self, hash: u64)
        ensures
            *final(self) == old(self).with_hash(hash),
            final(self).hash_value() == hash,
            final(self).side() == old(self).side(),
            final(self).rights() == old(self).rights(),
            final(self).ep() == old(self).ep(),
            final(self).halfmove() == old(self).halfmove(),
            final(self).fullmove() == old(self).fullmove(),
            same_pieces(*old(self), *final(self)),
    {
        self.hash = hash;
    }
}

/// Taking a move back undoes it: the placement after `unmoved` of
/// `moved` is the placement before.
proof fn lemma_unmoved_moved(mb: Seq<Option<Piece>>, b: Board, us: Color, from: nat, to: nat, code: u8)
    requires
        mb.len() == 64,
        from < 64,
        to < 64,
        mb[from as int] is Some,
        forall|i: int| 0 <= i < 64 ==> #[trigger] mb[i] == b.piece_on(i as nat),
        code_ep(code) ==> 0 <= ep_victim(us, to) < 64,
        from != to,
        code_promo(code) ==> mb[from as int] == Some(Piece { piece_type: PieceType::Pawn, color: us }),
        code_ep(code) ==> mb[to as int] is None && ep_victim(us, to) != from,
        code_castle(code) ==> mb[to as int] is None && mb[rook_target(from, to) as int] is None
            && mb[rook_origin(from, to) as int] is Some
            && rook_origin(from, to) != from && rook_origin(from, to) != to
            && rook_target(from, to) != from && rook_target(from, to) != to,
    ensures
        unmoved(moved(mb, us, from, to, code), us, from, to, code, mb[victim_square(us, to, code)]) =~= mb,
{
    assert(rook_origin(from, to) < 64);
    assert(rook_target(from, to) < 64);
    assert(rook_origin(from, to) != rook_target(from, to));
}

/// Making a move and taking it back with the returned record restores
/// the board exactly, for a reversible move (see `reversible`); and the
/// take-back is always possible after such a move.
pub proof fn lemma_make_unmake_roundtrip(b: Board, m: Move, mid: Board, undo: UndoInfo, back: Board)
    requires
        can_make(b, m),
        reversible(b, m),
        made(b, m, mid, undo),
        unmade(mid, m, undo, back),
    ensures
        back == b,
{
    lemma_made_can_unmake(b, m, mid, undo);
    let us = b.side();
    let from = mv_from(m@);
    let to = mv_to(m@);
    let code = mv_code(m@);
    let mb = b.mailbox();
    lemma_move_parts(m);
    assert(mid.mailbox() =~= moved(mb, us, from, to, code));
    lemma_unmoved_moved(mb, b, us, from, to, code);
    assert forall|i: nat| i < 64 implies #[trigger] back.piece_on(i) == b.piece_on(i) by {
        assert(back.piece_on(i) == unmoved(mid.mailbox(), opposite(mid.side()), from, to, code, undo.captured_piece)[i as int]);
    }
    assert(back.fullmove() == b.fullmove());
    back.lemma_equal_by_squares(b);
}

/// After a reversible move, `unmake_move` may be called with the record
/// `make_move` returned.
pub proof fn lemma_made_can_unmake(b: Board, m: Move, mid: Board, undo: UndoInfo)
    requires
        can_make(b, m),
        reversible(b, m),
        made(b, m, mid, undo),
    ensures
        can_unmake(mid, m, undo),
{
    let us = b.side();
    let from = mv_from(m@);
    let to = mv_to(m@);
    let code = mv_code(m@);
    let mb = b.mailbox();
    lemma_move_parts(m);
    assert(mid.mailbox() =~= moved(mb, us, from, to, code));
    assert(mid.piece_on(to) == moved(mb, us, from, to, code)[to as int]);
    assert(rook_origin(from, to) < 64);
    assert(rook_target(from, to) < 64);
}

/// The board after a move is determined by the board and the move: any
/// two results `make_move` may describe are the same board.
pub proof fn lemma_made_unique(b: Board, m: Move, a1: Board, u1: UndoInfo, a2: Board, u2: UndoInfo)
    requires
        made(b, m, a1, u1),
        made(b, m, a2, u2),
    ensures
        a1 == a2,
        u1 == u2,
{
    let mb = moved(b.mailbox(), b.side(), mv_from(m@), mv_to(m@), mv_code(m@));
    assert forall|i: nat| i < 64 implies #[trigger] a1.piece_on(i) == a2.piece_on(i) by {
        let j: int = i as int;
        assert(a1.piece_on(j as nat) == mb[j]);
        assert(a2.piece_on(j as nat) == mb[j]);
    }
    if mv_code(m@) == 1 {
        let s1 = a1.ep().unwrap();
        let s2 = a2.ep().unwrap();
        lemma_square_view_injective(s1, s2);
    }
    assert(a1.ep() == a2.ep());
    a1.lemma_equal_by_squares(a2);
    assert(u1.castling_rights@ == u2.castling_rights@);
    assert(u1.castling_rights == u2.castling_rights);
}

} // verus!
