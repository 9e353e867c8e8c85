use vstd::prelude::*;
use vstd::std_specs::bits::u64_trailing_zeros;
use crate::attacks::{pawn_attacks, knight_attacks, king_attacks, bishop_attacks, rook_attacks, queen_attacks,
    pawn_hits, knight_hits, king_hits, bishop_hits, rook_hits};
use crate::bitboard::{Bitboard, bit, popcount, lemma_word_identities, lemma_zero_iff_no_bits, lemma_popcount_clear_lowest};
use crate::board::{Board, UndoInfo, made, can_make, slot, slot_piece, code_castle, lemma_made_unique};
use crate::zobrist::{ep_key, KEY_BLACK_TO_MOVE};
use crate::chess_move::{Move, mv_code, mv_from, mv_to};
use crate::piece::{Color, Piece, PieceType, opposite, color_index, kind_index};
use crate::square::{Square, rank_of, file_of};

verus! {

/// Whether a piece of kind `kind` and color `c` on `s` attacks `t`, with
/// occupancy `occ`. A queen attacks like a bishop or a rook.
pub open spec fn kind_hits(kind: PieceType, s: nat, c: Color, occ: u64, t: nat) -> bool {
    match kind {
        PieceType::Pawn => pawn_hits(s, c, t),
        PieceType::Knight => knight_hits(s, t),
        PieceType::Bishop => bishop_hits(s, occ, t),
        PieceType::Rook => rook_hits(s, occ, t),
        PieceType::Queen => bishop_hits(s, occ, t) || rook_hits(s, occ, t),
        PieceType::King => king_hits(s, t),
    }
}

/// Whether some piece of color `c` attacks square `t`.
pub open spec fn attacked(b: Board, t: nat, c: Color) -> bool {
    exists|s: nat| s < 64 && (#[trigger] b.piece_on(s)) is Some && b.piece_on(s).unwrap().color == c
        && kind_hits(b.piece_on(s).unwrap().piece_type, s, c, b.occ_bits(), t)
}

/// The bitboard of the king of color `c`.
pub open spec fn king_bits(b: Board, c: Color) -> u64 {
    b.slot_bits((color_index(c) * 6 + 5) as int)
}

/// Whether the king of color `c` is missing or attacked (its first square
/// is the one examined when there are several kings).
pub open spec fn king_exposed(b: Board, c: Color) -> bool {
    let k = king_bits(b, c);
    k != 0 && attacked(b, u64_trailing_zeros(k) as nat, opposite(c))
}

/// Whether the side to move is in check.
pub open spec fn in_check(b: Board) -> bool {
    king_exposed(b, b.side())
}

/// Squares attacked by a piece of the given kind and color on `sq`.
pub fn attacks_of(kind: PieceType, sq: Square, color: Color, occ: Bitboard) -> (r: Bitboard)
    ensures
        forall|t: u64| #[trigger] bit(r.0, t) == (t < 64 && kind_hits(kind, sq@, color, occ.0, t as nat)),
{
    match kind {
        PieceType::Pawn => pawn_attacks(sq, color),
        PieceType::Knight => knight_attacks(sq),
        PieceType::Bishop => bishop_attacks(sq, occ),
        PieceType::Rook => rook_attacks(sq, occ),
        PieceType::Queen => queen_attacks(sq, occ),
        PieceType::King => king_attacks(sq),
    }
}

/// Whether a piece of `kind` on some square of `bb` attacks `target`.
fn any_hits(bb: Bitboard, kind: PieceType, color: Color, occ: Bitboard, target: Square) -> (r: bool)
    ensures
        r == exists|s: u64| #[trigger] bit(bb.0, s) && kind_hits(kind, s as nat, color, occ.0, target@),
{
    target.index_bound();
    let mut rest = bb;
    while rest.0 != 0
        invariant
            target@ < 64,
            forall|s: u64| #[trigger] bit(rest.0, s) ==> bit(bb.0, s),
            forall|s: u64| #[trigger] bit(bb.0, s) && !bit(rest.0, s) ==> !kind_hits(kind, s as nat, color, occ.0, target@),
        decreases popcount(rest.0),
    {
        let ghost before = rest;
        assert(forall|s: u64| #[trigger] bit(bb.0, s) && !bit(before.0, s) ==> !kind_hits(kind, s as nat, color, occ.0, target@));
        let sq = rest.pop_lsb().unwrap();
        proof {
            lemma_popcount_clear_lowest(before.0);
        }
        let a = attacks_of(kind, sq, color, occ);
        if a.contains(target) {
            assert(bit(bb.0, sq@ as u64));
            return true;
        }
        proof {
            assert(!bit(a.0, target@ as u64));
            assert forall|s: u64| #[trigger] bit(bb.0, s) && !bit(rest.0, s) implies !kind_hits(kind, s as nat, color, occ.0, target@) by {
                if bit(before.0, s) {
                    assert(s == sq@);
                    assert(target@ < 64);
                    assert(!kind_hits(kind, sq@, color, occ.0, (target@ as u64) as nat));
                }
            }
        }
    }
    proof {
        lemma_zero_iff_no_bits(rest.0);
    }
    false
}

impl Board {
    /// Whether `square` is attacked by a piece of `by_color`.
    pub fn is_square_attacked(&self, square: Square, by_color: Color) -> (r: bool)
        requires
            self.wf(),
        ensures
            r == attacked(*self, square@, by_color),
    {
        let occ = self.occupied();
        let pawns = self.piece_bb(PieceType::Pawn, by_color);
        let knights = self.piece_bb(PieceType::Knight, by_color);
        let bishops = self.piece_bb(PieceType::Bishop, by_color);
        let rooks = self.piece_bb(PieceType::Rook, by_color);
        let queens = self.piece_bb(PieceType::Queen, by_color);
        let kings = self.piece_bb(PieceType::King, by_color);
        let diag = bishops.or(queens);
        let orth = rooks.or(queens);
        let r = any_hits(pawns, PieceType::Pawn, by_color, occ, square)
            || any_hits(knights, PieceType::Knight, by_color, occ, square)
            || any_hits(diag, PieceType::Bishop, by_color, occ, square)
            || any_hits(orth, PieceType::Rook, by_color, occ, square)
            || any_hits(kings, PieceType::King, by_color, occ, square);
        proof {
            self.lemma_wf_bits();
            let c6: int = (color_index(by_color) * 6) as int;
            assert forall|s: nat| s < 64 && #[trigger] self.piece_on(s) == Some(Piece { piece_type: PieceType::Pawn, color: by_color }) implies bit(pawns.0, s as u64) by {
                assert(slot_piece(c6) == Piece { piece_type: PieceType::Pawn, color: by_color });
            }
            assert forall|s: nat| s < 64 && #[trigger] self.piece_on(s) == Some(Piece { piece_type: PieceType::Knight, color: by_color }) implies bit(knights.0, s as u64) by {
                assert(slot_piece(c6 + 1) == Piece { piece_type: PieceType::Knight, color: by_color });
            }
            assert forall|s: nat| s < 64 && #[trigger] self.piece_on(s) == Some(Piece { piece_type: PieceType::Bishop, color: by_color }) implies bit(bishops.0, s as u64) by {
                assert(slot_piece(c6 + 2) == Piece { piece_type: PieceType::Bishop, color: by_color });
            }
            assert forall|s: nat| s < 64 && #[trigger] self.piece_on(s) == Some(Piece { piece_type: PieceType::Rook, color: by_color }) implies bit(rooks.0, s as u64) by {
                assert(slot_piece(c6 + 3) == Piece { piece_type: PieceType::Rook, color: by_color });
            }
            assert forall|s: nat| s < 64 && #[trigger] self.piece_on(s) == Some(Piece { piece_type: PieceType::Queen, color: by_color }) implies bit(queens.0, s as u64) by {
                assert(slot_piece(c6 + 4) == Piece { piece_type: PieceType::Queen, color: by_color });
            }
            assert forall|s: nat| s < 64 && #[trigger] self.piece_on(s) == Some(Piece { piece_type: PieceType::King, color: by_color }) implies bit(kings.0, s as u64) by {
                assert(slot_piece(c6 + 5) == Piece { piece_type: PieceType::King, color: by_color });
            }
            if r {
                if exists|s: u64| #[trigger] bit(pawns.0, s) && kind_hits(PieceType::Pawn, s as nat, by_color, occ.0, square@) {
                    let s = choose|s: u64| #[trigger] bit(pawns.0, s) && kind_hits(PieceType::Pawn, s as nat, by_color, occ.0, square@);
                    assert(slot_piece(c6) == Piece { piece_type: PieceType::Pawn, color: by_color });
                    assert(self.piece_on(s as nat) is Some);
                } else if exists|s: u64| #[trigger] bit(knights.0, s) && kind_hits(PieceType::Knight, s as nat, by_color, occ.0, square@) {
                    let s = choose|s: u64| #[trigger] bit(knights.0, s) && kind_hits(PieceType::Knight, s as nat, by_color, occ.0, square@);
                    assert(slot_piece(c6 + 1) == Piece { piece_type: PieceType::Knight, color: by_color });
                    assert(self.piece_on(s as nat) is Some);
                } else if exists|s: u64| #[trigger] bit(diag.0, s) && kind_hits(PieceType::Bishop, s as nat, by_color, occ.0, square@) {
                    let s = choose|s: u64| #[trigger] bit(diag.0, s) && kind_hits(PieceType::Bishop, s as nat, by_color, occ.0, square@);
                    assert(slot_piece(c6 + 2) == Piece { piece_type: PieceType::Bishop, color: by_color });
                    assert(slot_piece(c6 + 4) == Piece { piece_type: PieceType::Queen, color: by_color });
                    assert(self.piece_on(s as nat) is Some);
                } else if exists|s: u64| #[trigger] bit(orth.0, s) && kind_hits(PieceType::Rook, s as nat, by_color, occ.0, square@) {
                    let s = choose|s: u64| #[trigger] bit(orth.0, s) && kind_hits(PieceType::Rook, s as nat, by_color, occ.0, square@);
                    assert(slot_piece(c6 + 3) == Piece { piece_type: PieceType::Rook, color: by_color });
                    assert(slot_piece(c6 + 4) == Piece { piece_type: PieceType::Queen, color: by_color });
                    assert(self.piece_on(s as nat) is Some);
                } else {
                    let s = choose|s: u64| #[trigger] bit(kings.0, s) && kind_hits(PieceType::King, s as nat, by_color, occ.0, square@);
                    assert(slot_piece(c6 + 5) == Piece { piece_type: PieceType::King, color: by_color });
                    assert(self.piece_on(s as nat) is Some);
                }
            } else {
                assert forall|s: nat| s < 64 && (#[trigger] self.piece_on(s)) is Some && self.piece_on(s).unwrap().color == by_color
                    implies !kind_hits(self.piece_on(s).unwrap().piece_type, s, by_color, self.occ_bits(), square@) by {
                    let p = self.piece_on(s).unwrap();
                    assert(bit(pawns.0, s as u64) ==> !kind_hits(PieceType::Pawn, s, by_color, occ.0, square@));
                    assert(bit(knights.0, s as u64) ==> !kind_hits(PieceType::Knight, s, by_color, occ.0, square@));
                    assert(bit(diag.0, s as u64) ==> !kind_hits(PieceType::Bishop, s, by_color, occ.0, square@));
                    assert(bit(orth.0, s as u64) ==> !kind_hits(PieceType::Rook, s, by_color, occ.0, square@));
                    assert(bit(kings.0, s as u64) ==> !kind_hits(PieceType::King, s, by_color, occ.0, square@));
                }
            }
        }
        r
    }
}

/// The square a castling king passes over: f1/f8 kingside, d1/d8 queenside.
pub open spec fn castle_passing_square(m: Move) -> nat {
    rank_of(mv_from(m@)) * 8 + if mv_code(m@) == 2 { 5nat } else { 3nat }
}

/// A castling move is legal when the king is not in check and neither the
/// square it passes over nor its destination is attacked.
pub open spec fn castling_safe(b: Board, m: Move) -> bool {
    let them = opposite(b.side());
    &&& !in_check(b)
    &&& !attacked(b, castle_passing_square(m), them)
    &&& !attacked(b, mv_to(m@), them)
}

/// After the move the mover's king is present and not attacked.
pub open spec fn safe_after(b: Board, m: Move) -> bool {
    forall|after: Board, undo: UndoInfo| made(b, m, after, undo) ==> !king_exposed(after, b.side())
}

/// Legality of a pseudo-legal move: castling is checked square by square,
/// any other move by the safety of the mover's king after it.
pub open spec fn legal(b: Board, m: Move) -> bool {
    if code_castle(mv_code(m@)) { castling_safe(b, m) } else { safe_after(b, m) }
}

/// What `is_legal` needs: a well-formed board, and a move that can be made
/// when it is not castling.
pub open spec fn can_check_legality(b: Board, m: Move) -> bool {
    &&& b.wf()
    &&& !code_castle(mv_code(m@)) ==> can_make(b, m)
}

impl Board {
    /// Whether the king of `color` is present and attacked.
    fn king_attacked(&self, color: Color) -> (r: bool)
        requires
            self.wf(),
        ensures
            r == king_exposed(*self, color),
    {
        let our_king = self.piece_bb(PieceType::King, color);
        match our_king.lsb() {
            None => false,
            Some(king_square) => self.is_square_attacked(king_square, color.opponent()),
        }
    }

    /// Whether the side to move is in check (false when it has no king).
    pub fn is_in_check(&self) -> (r: bool)
        requires
            self.wf(),
        ensures
            r == in_check(*self),
    {
        self.king_attacked(self.side_to_move())
    }

    /// Whether a move puts the opponent in check.
    pub fn gives_check(&self, m: Move) -> (r: bool)
        requires
            can_make(*self, m),
        ensures
            r == forall|after: Board, undo: UndoInfo| made(*self, m, after, undo) ==> in_check(after),
    {
        let mut board_after = *self;
        let undo = board_after.make_move(m);
        let r = board_after.is_in_check();
        proof {
            assert forall|after: Board, u: UndoInfo| made(*self, m, after, u) implies in_check(after) == r by {
                lemma_made_unique(*self, m, after, u, board_after, undo);
            }
        }
        r
    }

    /// Pass the turn: the en passant square is cleared, the side to move
    /// flips, the halfmove clock advances and the hash follows.
    pub fn make_null_move(&mut self)
        requires
            old(self).wf(),
            old(self).halfmove() < u32::MAX,
        ensures
            final(self).wf(),
            forall|i: nat| #[trigger] final(self).piece_on(i) == old(self).piece_on(i),
            final(self).side() == opposite(old(self).side()),
            final(self).ep() is None,
            final(self).halfmove() == old(self).halfmove() + 1,
            final(self).rights() == old(self).rights(),
            final(self).fullmove() == old(self).fullmove(),
            final(self).hash_value() == old(self).hash_value() ^ ep_key(old(self).ep()) ^ KEY_BLACK_TO_MOVE,
    {
        let old_ep = self.ep_square();
        let mut h = self.hash();
        proof {
            lemma_word_identities();
            assert(ep_key(None) == 0u64);
        }
        if old_ep.is_some() {
            h = crate::zobrist::hash_en_passant(h, old_ep, None);
            self.set_ep_square(None);
        }
        let them = self.side_to_move().opponent();
        self.set_side_to_move(them);
        h = crate::zobrist::hash_side_to_move(h);
        self.set_hash(h);
        let clock = self.halfmove_clock();
        self.set_halfmove_clock(clock + 1);
    }

    /// Whether a pseudo-legal move is legal: it does not leave the mover's
    /// king attacked and, for castling, the king neither starts in check nor
    /// passes over or lands on an attacked square.
    pub fn is_legal(&self, m: Move) -> (r: bool)
        requires
            can_check_legality(*self, m),
        ensures
            r == legal(*self, m),
    {
        if m.is_castling() {
            return self.is_castling_legal(m);
        }
        let us = self.side_to_move();
        let mut board = *self;
        let undo = board.make_move(m);
        let r = !board.king_attacked(us);
        proof {
            assert forall|after: Board, u: UndoInfo| made(*self, m, after, u) implies !king_exposed(after, us) == r by {
                lemma_made_unique(*self, m, after, u, board, undo);
            }
        }
        r
    }

    /// Legality of a castling move.
    fn is_castling_legal(&self, m: Move) -> (r: bool)
        requires
            self.wf(),
            code_castle(mv_code(m@)),
        ensures
            r == castling_safe(*self, m),
    {
        let them = self.side_to_move().opponent();
        if self.is_in_check() {
            return false;
        }
        let from = m.from();
        let to = m.to();
        from.index_bound();
        let passing = if m.is_kingside_castle() {
            Square::from_coords(5, from.rank())
        } else {
            Square::from_coords(3, from.rank())
        };
        if self.is_square_attacked(passing, them) {
            return false;
        }
        if self.is_square_attacked(to, them) {
            return false;
        }
        true
    }
}

} // verus!
