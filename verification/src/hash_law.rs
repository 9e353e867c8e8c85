//! The hash kept up to date by `make_move` is the hash computed from
//! scratch.
use vstd::prelude::*;
use crate::bitboard::lemma_word_identities;
use crate::board::{Board, UndoInfo, made, can_make, placed, moved, victim_square, code_capture, code_ep, code_castle,
    rook_origin, rook_target};
use crate::chess_move::{Move, mv_from, mv_to, mv_code};
use crate::piece::{Color, Piece, PieceType};
use crate::zobrist::{full_hash, placement_hash, square_key, KEY_BLACK_TO_MOVE};

verus! {

/// Replacing the content of one square changes the combined key by the
/// keys of the old and the new content.
proof fn lemma_update_hash(mb: Seq<Option<Piece>>, i: int, p: Option<Piece>, n: nat)
    requires
        mb.len() == 64,
        0 <= i < 64,
        n <= 64,
    ensures
        placement_hash(mb.update(i, p), n) == if i < n {
            (placement_hash(mb, n) ^ square_key(mb[i], i as nat)) ^ square_key(p, i as nat)
        } else {
            placement_hash(mb, n)
        },
    decreases n,
{
    if n > 0 {
        lemma_update_hash(mb, i, p, (n - 1) as nat);
        let a = placement_hash(mb, (n - 1) as nat);
        let k = square_key(mb[n - 1], (n - 1) as nat);
        let x = square_key(mb[i], i as nat);
        let y = square_key(p, i as nat);
        lemma_xor_shuffle(a, x, y, k);
        if i == n - 1 {
            assert(mb.update(i, p)[n - 1] == p);
        } else {
            assert(mb.update(i, p)[n - 1] == mb[n - 1]);
        }
    }
}

/// Reordering and cancelling in a chain of exclusive ors.
proof fn lemma_xor_shuffle(a: u64, x: u64, y: u64, k: u64)
    by (bit_vector)
    ensures
        ((a ^ x) ^ y) ^ k == ((a ^ k) ^ x) ^ y,
        (a ^ k) ^ k == a,
        ((a ^ x) ^ x) ^ y == a ^ y,
{
}

/// The combined keys of a move, in the order `make_move` applies them,
/// against the keys of the placement it leaves.
proof fn lemma_move_keys(
    p0: u64, c: u64, z: u64, m: u64, f: u64, r1: u64, r2: u64,
    sb: u64, sa: u64, cb: u64, ca: u64, eb: u64, ea: u64,
)
    by (bit_vector)
    requires
        sb ^ sa == KEY_BLACK_TO_MOVE,
    ensures
        ((((((((((((p0 ^ sb) ^ cb) ^ eb) ^ m) ^ (c ^ z)) ^ f) ^ r1) ^ r2) ^ cb) ^ ca) ^ eb) ^ ea) ^ KEY_BLACK_TO_MOVE
            == ((((((((p0 ^ c) ^ m) ^ z) ^ f) ^ r1) ^ r2) ^ sa) ^ ca) ^ ea,
{
}

/// The incremental hash is the full hash. When a position's hash is the
/// one computed from scratch, the hash `make_move` leaves is the one
/// computed from scratch for the new position, for every move whose
/// squares are as a legal move has them: origin and target differ, an en
/// passant capture lands on an empty square away from the captured pawn's
/// origin, and a castling move finds its own rook on the rook's origin
/// and the rook's target empty.
pub proof fn lemma_incremental_hash(b: Board, m: Move, after: Board, undo: UndoInfo)
    requires
        can_make(b, m),
        made(b, m, after, undo),
        b.hash_value() == full_hash(b),
        mv_from(m@) != mv_to(m@),
        code_ep(mv_code(m@)) ==> b.piece_on(mv_to(m@)) is None && victim_square(b.side(), mv_to(m@), mv_code(m@)) != mv_from(m@),
        code_castle(mv_code(m@)) ==> {
            let m3 = placed(b.mailbox(), b.side(), mv_from(m@), mv_to(m@), mv_code(m@));
            &&& m3[rook_origin(mv_from(m@), mv_to(m@)) as int] == Some(Piece { piece_type: PieceType::Rook, color: b.side() })
            &&& m3[rook_target(mv_from(m@), mv_to(m@)) as int] is None
            &&& rook_origin(mv_from(m@), mv_to(m@)) != rook_target(mv_from(m@), mv_to(m@))
            &&& rook_origin(mv_from(m@), mv_to(m@)) < 64 && rook_target(mv_from(m@), mv_to(m@)) < 64
        },
    ensures
        after.hash_value() == full_hash(after),
{
    let us = b.side();
    let from = mv_from(m@);
    let to = mv_to(m@);
    let code = mv_code(m@);
    let mb = b.mailbox();
    b.lemma_mailbox();
    after.lemma_mailbox();
    lemma_word_identities();
    crate::chess_move::lemma_move_parts(m);
    let v = victim_square(us, to, code);
    let mover = b.piece_on(from).unwrap();
    let captured = b.piece_on(v as nat);
    let p0 = placement_hash(mb, 64);
    let m1 = if code_capture(code) { mb.update(v, None) } else { mb };
    let c: u64 = if code_capture(code) { square_key(mb[v], v as nat) } else { 0 };
    if code_capture(code) {
        lemma_update_hash(mb, v, None, 64);
    }
    assert(placement_hash(m1, 64) == p0 ^ c);
    assert(m1[from as int] == mb[from as int]);
    let m2 = m1.update(from as int, None);
    let mk = square_key(Some(mover), from);
    lemma_update_hash(m1, from as int, None, 64);
    assert(placement_hash(m2, 64) == (p0 ^ c) ^ mk);
    let m3 = placed(mb, us, from, to, code);
    let put = m3[to as int];
    let z = square_key(m2[to as int], to);
    let f = square_key(put, to);
    lemma_update_hash(m2, to as int, put, 64);
    assert(m3 =~= m2.update(to as int, put));
    assert(placement_hash(m3, 64) == (((p0 ^ c) ^ mk) ^ z) ^ f);
    let ck = square_key(captured, v as nat);
    assert(c ^ z == ck);
    let rook = Piece { piece_type: PieceType::Rook, color: us };
    let r1: u64 = if code_castle(code) { square_key(Some(rook), rook_origin(from, to)) } else { 0 };
    let r2: u64 = if code_castle(code) { square_key(Some(rook), rook_target(from, to)) } else { 0 };
    let m5 = moved(mb, us, from, to, code);
    if code_castle(code) {
        let rf = rook_origin(from, to) as int;
        let rt = rook_target(from, to) as int;
        let m4 = m3.update(rf, None);
        lemma_update_hash(m3, rf, None, 64);
        lemma_update_hash(m4, rt, m3[rf], 64);
        assert(m4[rt] == m3[rt]);
    }
    assert(placement_hash(m5, 64) == (((((p0 ^ c) ^ mk) ^ z) ^ f) ^ r1) ^ r2);
    assert(after.mailbox() =~= m5);
    let sb: u64 = if us == Color::Black { KEY_BLACK_TO_MOVE } else { 0 };
    let sa: u64 = if after.side() == Color::Black { KEY_BLACK_TO_MOVE } else { 0 };
    assert(sb ^ sa == KEY_BLACK_TO_MOVE);
    lemma_move_keys(p0, c, z, mk, f, r1, r2, sb, sa, crate::zobrist::castling_key(b.rights()),
        crate::zobrist::castling_key(after.rights()), crate::zobrist::ep_key(b.ep()), crate::zobrist::ep_key(after.ep()));
}

} // verus!
