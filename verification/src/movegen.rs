use vstd::prelude::*;
use crate::attacks::{pawn_attacks, pawn_hits, step_to};
use crate::bitboard::{Bitboard, bit, popcount, lemma_zero_iff_no_bits, lemma_popcount_clear_lowest, lemma_bit_and, lemma_bit_not};
use crate::board::{Board, ep_victim, can_make, reversible, rook_origin, rook_target, placed, code_castle};
use crate::chess_move::{Move, MoveFlags, flag_code, mv_from, mv_to, mv_code, lemma_move_eq, lemma_move_parts};
use crate::legality::{attacks_of, kind_hits, legal, can_check_legality};
use crate::movelist::MoveList;
use crate::piece::{Color, Piece, PieceType, opposite, color_index, kind_index};
use crate::square::{Square, file_of, rank_of};

verus! {

/// Rank change of a pawn push: up for white, down for black.
pub open spec fn pawn_dir(c: Color) -> int {
    match c {
        Color::White => 1,
        Color::Black => -1,
    }
}

/// The rank on which a pawn of `c` promotes.
pub open spec fn last_rank(c: Color) -> nat {
    match c {
        Color::White => 7,
        Color::Black => 0,
    }
}

/// The rank from which a pawn of `c` may advance two squares.
pub open spec fn start_rank(c: Color) -> nat {
    match c {
        Color::White => 1,
        Color::Black => 6,
    }
}

/// Whether square `t` holds a piece of the opponent of `us`.
pub open spec fn enemy_on(b: Board, t: nat, us: Color) -> bool {
    b.piece_on(t) matches Some(p) && p.color == opposite(us)
}

/// Pawn pushes of the side to move from `from`: one square forward onto
/// an empty square (one of the four promotions on the last rank), or two
/// from the start rank over an empty square.
pub open spec fn pawn_push(b: Board, from: nat, to: nat, code: u8) -> bool {
    let us = b.side();
    let promo = rank_of(to) == last_rank(us);
    let push = step_to(from, to, 0, pawn_dir(us)) && b.piece_on(to) is None;
    ||| code == 0 && !promo && push
    ||| 8 <= code <= 11 && promo && push
    ||| code == 1 && rank_of(from) == start_rank(us) && step_to(from, to, 0, 2 * pawn_dir(us))
        && b.piece_on((from + 8 * pawn_dir(us)) as nat) is None && b.piece_on(to) is None
}

/// Pawn captures of the side to move from `from` (with the four
/// promotions on the last rank).
pub open spec fn pawn_take(b: Board, from: nat, to: nat, code: u8) -> bool {
    let us = b.side();
    let promo = rank_of(to) == last_rank(us);
    let take = pawn_hits(from, us, to) && enemy_on(b, to, us);
    ||| code == 4 && !promo && take
    ||| 12 <= code <= 15 && promo && take
}

/// An en passant capture of the side to move from `from`: onto the empty
/// en passant square, taking the enemy pawn behind it.
pub open spec fn pawn_ep(b: Board, from: nat, to: nat, code: u8) -> bool {
    let us = b.side();
    &&& code == 5
    &&& b.ep() matches Some(e) && e@ == to
    &&& pawn_hits(from, us, to)
    &&& b.piece_on(to) is None
    &&& 0 <= ep_victim(us, to) < 64
    &&& b.piece_on(ep_victim(us, to) as nat) == Some(Piece { piece_type: PieceType::Pawn, color: opposite(us) })
}

/// Pseudo-legal pawn moves of the side to move from `from`.
pub open spec fn pawn_move(b: Board, from: nat, to: nat, code: u8) -> bool {
    pawn_push(b, from, to, code) || pawn_take(b, from, to, code) || pawn_ep(b, from, to, code)
}

/// Pseudo-legal moves of a knight, bishop, rook, queen or king (other than
/// castling): to an empty attacked square, or a capture on an attacked
/// square holding an enemy piece.
pub open spec fn piece_move(b: Board, from: nat, to: nat, code: u8, kind: PieceType) -> bool {
    let us = b.side();
    &&& kind_hits(kind, from, us, b.occ_bits(), to)
    &&& to < 64
    &&& (code == 0 && b.piece_on(to) is None) || (code == 4 && enemy_on(b, to, us))
}

/// The home square of the king of `c` (e1 or e8).
pub open spec fn king_home(c: Color) -> nat {
    match c {
        Color::White => 4,
        Color::Black => 60,
    }
}

/// Whether `rights` lets `c` castle kingside.
pub open spec fn may_castle_kingside(rights: u8, c: Color) -> bool {
    match c {
        Color::White => rights & 1 != 0,
        Color::Black => rights & 4 != 0,
    }
}

/// Whether `rights` lets `c` castle queenside.
pub open spec fn may_castle_queenside(rights: u8, c: Color) -> bool {
    match c {
        Color::White => rights & 2 != 0,
        Color::Black => rights & 8 != 0,
    }
}

/// Pseudo-legal castling: the king on its home square, the right still
/// held, the rook on its corner and the squares between them empty.
/// Whether the king is attacked is left to the legality test.
pub open spec fn castle_move(b: Board, from: nat, to: nat, code: u8) -> bool {
    let us = b.side();
    let home = king_home(us);
    let rook = Some(Piece { piece_type: PieceType::Rook, color: us });
    &&& from == home
    &&& b.piece_on(home) == Some(Piece { piece_type: PieceType::King, color: us })
    &&& (code == 2 && to == home + 2 && may_castle_kingside(b.rights(), us)
            && b.piece_on(home + 1) is None && b.piece_on(home + 2) is None && b.piece_on(home + 3) == rook)
        || (code == 3 && to == home - 2 && may_castle_queenside(b.rights(), us)
            && b.piece_on((home - 1) as nat) is None && b.piece_on((home - 2) as nat) is None
            && b.piece_on((home - 3) as nat) is None && b.piece_on((home - 4) as nat) == rook)
}

/// A pseudo-legal move of a piece of `kind` of the side to move.
pub open spec fn kind_move(b: Board, m: Move, kind: PieceType) -> bool {
    let from = mv_from(m@);
    let to = mv_to(m@);
    let code = mv_code(m@);
    &&& b.piece_on(from) == Some(Piece { piece_type: kind, color: b.side() })
    &&& if kind == PieceType::Pawn { pawn_move(b, from, to, code) } else { piece_move(b, from, to, code, kind) }
}

/// A pseudo-legal move: it follows the movement rules of the piece of the
/// side to move on its from square, but may leave its king attacked.
pub open spec fn pseudo_legal(b: Board, m: Move) -> bool {
    let from = mv_from(m@);
    let to = mv_to(m@);
    let code = mv_code(m@);
    &&& b.piece_on(from) matches Some(p) && p.color == b.side()
    &&& kind_move(b, m, b.piece_on(from).unwrap().piece_type) || castle_move(b, from, to, code)
}

/// Whether `m` goes from `from` to a square of `targets` with a code in
/// `lo..=hi`.
pub open spec fn targets_move(m: Move, from: nat, targets: u64, lo: u8, hi: u8) -> bool {
    mv_from(m@) == from && bit(targets, mv_to(m@) as u64) && lo <= mv_code(m@) <= hi
}

/// Push one move from `from` with flag `flag` to each square of `targets`,
/// lowest square first.
fn push_targets(moves: &mut MoveList, from: Square, targets: Bitboard, flag: MoveFlags)
    requires
        old(moves)@.no_duplicates(),
        forall|m: Move| #[trigger] old(moves)@.contains(m) ==> !targets_move(m, from@, targets.0, flag_code(flag), flag_code(flag)),
    ensures
        final(moves)@.no_duplicates(),
        forall|m: Move| #[trigger] final(moves)@.contains(m) <==> (old(moves)@.contains(m)
            || targets_move(m, from@, targets.0, flag_code(flag), flag_code(flag))),
{
    let mut rest = targets;
    let ghost code = flag_code(flag);
    while rest.0 != 0
        invariant
            code == flag_code(flag),
            moves@.no_duplicates(),
            forall|m: Move| #[trigger] old(moves)@.contains(m) ==> !targets_move(m, from@, targets.0, code, code),
            forall|i: u64| #[trigger] bit(rest.0, i) ==> bit(targets.0, i),
            forall|m: Move| #[trigger] moves@.contains(m) <==> (old(moves)@.contains(m)
                || (targets_move(m, from@, targets.0, code, code) && !bit(rest.0, mv_to(m@) as u64))),
        decreases popcount(rest.0),
    {
        let ghost before = rest;
        let ghost list = moves@;
        let to = rest.pop_lsb().unwrap();
        proof {
            lemma_popcount_clear_lowest(before.0);
        }
        let mv = Move::new(from, to, flag);
        proof {
            if list.contains(mv) {
                assert(old(moves)@.contains(mv));
            }
        }
        moves.push(mv);
        proof {
            assert(moves@ == list.push(mv));
            assert forall|m: Move| #[trigger] moves@.contains(m) <==> (old(moves)@.contains(m)
                || (targets_move(m, from@, targets.0, code, code) && !bit(rest.0, mv_to(m@) as u64))) by {
                if m == mv {
                    assert(moves@[list.len() as int] == m);
                } else {
                    if targets_move(m, from@, targets.0, code, code) && mv_to(m@) == to@ {
                        lemma_move_eq(m, mv);
                    }
                    if moves@.contains(m) {
                        let k = choose|k: int| 0 <= k < moves@.len() && moves@[k] == m;
                        assert(list[k] == m);
                    }
                    if list.contains(m) {
                        let k = choose|k: int| 0 <= k < list.len() && list[k] == m;
                        assert(moves@[k] == m);
                    }
                }
            }
        }
    }
    proof {
        lemma_zero_iff_no_bits(rest.0);
    }
}

/// Push the four promotions (queen, rook, bishop, knight) from `from` to
/// each square of `targets`, as captures when `capture` holds.
fn push_promotions(moves: &mut MoveList, from: Square, targets: Bitboard, capture: bool)
    requires
        old(moves)@.no_duplicates(),
        forall|m: Move| #[trigger] old(moves)@.contains(m) ==> !targets_move(m, from@, targets.0,
            if capture { 12u8 } else { 8u8 }, if capture { 15u8 } else { 11u8 }),
    ensures
        final(moves)@.no_duplicates(),
        forall|m: Move| #[trigger] final(moves)@.contains(m) <==> (old(moves)@.contains(m)
            || targets_move(m, from@, targets.0, if capture { 12u8 } else { 8u8 }, if capture { 15u8 } else { 11u8 })),
{
    let ghost start = moves@;
    let (q, r, b, n) = if capture {
        (MoveFlags::QUEEN_PROMOTION_CAPTURE, MoveFlags::ROOK_PROMOTION_CAPTURE,
         MoveFlags::BISHOP_PROMOTION_CAPTURE, MoveFlags::KNIGHT_PROMOTION_CAPTURE)
    } else {
        (MoveFlags::QUEEN_PROMOTION, MoveFlags::ROOK_PROMOTION, MoveFlags::BISHOP_PROMOTION, MoveFlags::KNIGHT_PROMOTION)
    };
    let mut rest = targets;
    let ghost lo: u8 = if capture { 12u8 } else { 8u8 };
    while rest.0 != 0
        invariant
            flag_code(n) == lo && flag_code(b) == lo + 1 && flag_code(r) == lo + 2 && flag_code(q) == lo + 3,
            lo == if capture { 12u8 } else { 8u8 },
            moves@.no_duplicates(),
            forall|m: Move| #[trigger] start.contains(m) ==> !targets_move(m, from@, targets.0, lo, (lo + 3) as u8),
            forall|i: u64| #[trigger] bit(rest.0, i) ==> bit(targets.0, i),
            forall|m: Move| #[trigger] moves@.contains(m) <==> (start.contains(m)
                || (targets_move(m, from@, targets.0, lo, (lo + 3) as u8) && !bit(rest.0, mv_to(m@) as u64))),
        decreases popcount(rest.0),
    {
        let ghost before = rest;
        let to = rest.pop_lsb().unwrap();
        proof {
            lemma_popcount_clear_lowest(before.0);
        }
        let ghost list = moves@;
        let m1 = Move::new(from, to, q);
        let m2 = Move::new(from, to, r);
        let m3 = Move::new(from, to, b);
        let m4 = Move::new(from, to, n);
        proof {
            if list.contains(m1) { assert(start.contains(m1)); }
            if list.contains(m2) { assert(start.contains(m2)); }
            if list.contains(m3) { assert(start.contains(m3)); }
            if list.contains(m4) { assert(start.contains(m4)); }
            assert(m1 != m2 && m1 != m3 && m1 != m4 && m2 != m3 && m2 != m4 && m3 != m4);
        }
        moves.push(m1);
        moves.push(m2);
        moves.push(m3);
        moves.push(m4);
        proof {
            let n0 = list.len() as int;
            assert(moves@ == list.push(m1).push(m2).push(m3).push(m4));
            assert forall|m: Move| #[trigger] moves@.contains(m) <==> (start.contains(m)
                || (targets_move(m, from@, targets.0, lo, (lo + 3) as u8) && !bit(rest.0, mv_to(m@) as u64))) by {
                if m == m1 || m == m2 || m == m3 || m == m4 {
                    if m == m1 { assert(moves@[n0] == m); }
                    if m == m2 { assert(moves@[n0 + 1] == m); }
                    if m == m3 { assert(moves@[n0 + 2] == m); }
                    if m == m4 { assert(moves@[n0 + 3] == m); }
                } else {
                    if targets_move(m, from@, targets.0, lo, (lo + 3) as u8) && mv_to(m@) == to@ {
                        if mv_code(m@) == lo { lemma_move_eq(m, m4); }
                        if mv_code(m@) == lo + 1 { lemma_move_eq(m, m3); }
                        if mv_code(m@) == lo + 2 { lemma_move_eq(m, m2); }
                        if mv_code(m@) == lo + 3 { lemma_move_eq(m, m1); }
                    }
                    if moves@.contains(m) {
                        let k = choose|k: int| 0 <= k < moves@.len() && moves@[k] == m;
                        assert(k < n0);
                        assert(list[k] == m);
                    }
                    if list.contains(m) {
                        let k = choose|k: int| 0 <= k < list.len() && list[k] == m;
                        assert(moves@[k] == m);
                    }
                }
            }
        }
    }
    proof {
        lemma_zero_iff_no_bits(rest.0);
    }
}

/// Whether `p` is a piece of the given kind and color.
fn is_piece(p: Option<Piece>, kind: PieceType, color: Color) -> (r: bool)
    ensures
        r == (p == Some(Piece { piece_type: kind, color })),
{
    match p {
        Some(q) => q.piece_type == kind && q.color == color,
        None => false,
    }
}

/// The moves of a knight, bishop, rook, queen or king on `from` (castling
/// aside): quiet moves to empty attacked squares, then captures.
fn gen_piece_from(board: &Board, moves: &mut MoveList, from: Square, kind: PieceType)
    requires
        board.wf(),
        old(moves)@.no_duplicates(),
        forall|m: Move| #[trigger] old(moves)@.contains(m) ==> mv_from(m@) != from@,
    ensures
        final(moves)@.no_duplicates(),
        forall|m: Move| #[trigger] final(moves)@.contains(m) <==> (old(moves)@.contains(m)
            || (mv_from(m@) == from@ && piece_move(*board, from@, mv_to(m@), mv_code(m@), kind))),
{
    let us = board.side_to_move();
    let occ = board.occupied();
    let attacks = attacks_of(kind, from, us, occ);
    let quiet = attacks.and(occ.not());
    let caps = attacks.and(board.color_bb(us.opponent()));
    push_targets(moves, from, quiet, MoveFlags::QUIET);
    push_targets(moves, from, caps, MoveFlags::CAPTURE);
    proof {
        board.lemma_wf_bits();
        assert forall|m: Move| #[trigger] moves@.contains(m) <==> (old(moves)@.contains(m)
            || (mv_from(m@) == from@ && piece_move(*board, from@, mv_to(m@), mv_code(m@), kind))) by {
            lemma_move_parts(m);
            let t = mv_to(m@) as u64;
            assert(bit(quiet.0, t) == (bit(attacks.0, t) && t < 64 && !bit(occ.0, t)));
            assert(bit(caps.0, t) == (bit(attacks.0, t) && bit(board.color_bits(opposite(us)), t)));
        }
    }
}

/// Pushes of the pawn on `from`: single (or the promotions) and double.
fn gen_pawn_pushes(board: &Board, moves: &mut MoveList, from: Square)
    requires
        board.wf(),
        old(moves)@.no_duplicates(),
        forall|m: Move| #[trigger] old(moves)@.contains(m) ==> mv_from(m@) != from@,
    ensures
        final(moves)@.no_duplicates(),
        forall|m: Move| #[trigger] final(moves)@.contains(m) && mv_from(m@) == from@ ==>
            mv_code(m@) == 0 || mv_code(m@) == 1 || 8 <= mv_code(m@) <= 11,
        forall|m: Move| #[trigger] final(moves)@.contains(m) <==> (old(moves)@.contains(m)
            || (mv_from(m@) == from@ && pawn_push(*board, from@, mv_to(m@), mv_code(m@)))),
{
    let ghost b = *board;
    let us = board.side_to_move();
    let file = from.file();
    let rank = from.rank();
    from.index_bound();
    let forward = if us == Color::White { rank < 7 } else { rank > 0 };
    if !forward {
        proof {
            assert forall|m: Move| !(mv_from(m@) == from@ && #[trigger] pawn_push(b, from@, mv_to(m@), mv_code(m@))) by {
                lemma_move_parts(m);
            }
        }
        return;
    }
    let to_rank: u8 = if us == Color::White { rank + 1 } else { rank - 1 };
    let one = Square::from_coords(file, to_rank);
    let promo = if us == Color::White { to_rank == 7 } else { to_rank == 0 };
    let one_free = board.piece_at(one).is_none();
    let pushes = if one_free { Bitboard::from_square(one) } else { Bitboard::EMPTY() };
    let ghost start = moves@;
    if promo {
        push_promotions(moves, from, pushes, false);
    } else {
        push_targets(moves, from, pushes, MoveFlags::QUIET);
    }
    let start_rank_now = if us == Color::White { rank == 1 } else { rank == 6 };
    let doubles = if one_free && start_rank_now {
        let two_rank: u8 = if us == Color::White { rank + 2 } else { rank - 2 };
        let two = Square::from_coords(file, two_rank);
        if board.piece_at(two).is_none() { Bitboard::from_square(two) } else { Bitboard::EMPTY() }
    } else {
        Bitboard::EMPTY()
    };
    push_targets(moves, from, doubles, MoveFlags::DOUBLE_PAWN_PUSH);
    proof {
        assert forall|m: Move| #[trigger] moves@.contains(m) <==> (start.contains(m)
            || (mv_from(m@) == from@ && pawn_push(b, from@, mv_to(m@), mv_code(m@)))) by {
            lemma_move_parts(m);
            let to = mv_to(m@);
            assert(step_to(from@, to, 0, pawn_dir(us)) <==> to == one@);
            assert(step_to(from@, to, 0, 2 * pawn_dir(us)) && rank_of(from@) == start_rank(us) ==> start_rank_now);
            if start_rank_now {
                assert(((from@ + 8 * pawn_dir(us)) as nat) == one@);
            }
        }
    }
}

/// Captures of the pawn on `from` (with the promotions) and its en passant
/// capture.
fn gen_pawn_captures(board: &Board, moves: &mut MoveList, from: Square)
    requires
        board.wf(),
        old(moves)@.no_duplicates(),
        forall|m: Move| #[trigger] old(moves)@.contains(m) && mv_from(m@) == from@ ==>
            mv_code(m@) == 0 || mv_code(m@) == 1 || 8 <= mv_code(m@) <= 11,
    ensures
        final(moves)@.no_duplicates(),
        forall|m: Move| #[trigger] final(moves)@.contains(m) <==> (old(moves)@.contains(m)
            || (mv_from(m@) == from@ && (pawn_take(*board, from@, mv_to(m@), mv_code(m@))
                || pawn_ep(*board, from@, mv_to(m@), mv_code(m@))))),
{
    let ghost b = *board;
    let us = board.side_to_move();
    let them = us.opponent();
    let rank = from.rank();
    from.index_bound();
    let attacks = pawn_attacks(from, us);
    let caps = attacks.and(board.color_bb(them));
    let promo = if us == Color::White { rank == 6 } else { rank == 1 };
    let ghost start = moves@;
    if promo {
        push_promotions(moves, from, caps, true);
    } else {
        push_targets(moves, from, caps, MoveFlags::CAPTURE);
    }
    let ghost mid = moves@;
    let ep_targets = match board.ep_square() {
        Some(e) => {
            e.index_bound();
            let idx = e.index();
            let in_range = if us == Color::White { idx >= 8 } else { idx < 56 };
            if attacks.contains(e) && board.piece_at(e).is_none() && in_range {
                let victim = if us == Color::White { Square::new(idx - 8) } else { Square::new(idx + 8) };
                if is_piece(board.piece_at(victim), PieceType::Pawn, them) {
                    Bitboard::from_square(e)
                } else {
                    Bitboard::EMPTY()
                }
            } else {
                Bitboard::EMPTY()
            }
        },
        None => Bitboard::EMPTY(),
    };
    push_targets(moves, from, ep_targets, MoveFlags::EP_CAPTURE);
    proof {
        board.lemma_wf_bits();
        assert forall|m: Move| #[trigger] moves@.contains(m) <==> (start.contains(m)
            || (mv_from(m@) == from@ && (pawn_take(b, from@, mv_to(m@), mv_code(m@))
                || pawn_ep(b, from@, mv_to(m@), mv_code(m@))))) by {
            lemma_move_parts(m);
            let to = mv_to(m@);
            let t = to as u64;
            assert(bit(caps.0, t) == (bit(attacks.0, t) && bit(b.color_bits(them), t)));
            if pawn_hits(from@, us, to) {
                assert(rank_of(to) == last_rank(us) <==> promo);
            }
            if mv_code(m@) == 5 && mv_from(m@) == from@ {
                assert(pawn_ep(b, from@, to, 5) <==> bit(ep_targets.0, t));
            }
        }
    }
}

/// All pseudo-legal moves of the pieces of one kind of the side to move,
/// square by square from the lowest.
fn gen_kind(board: &Board, moves: &mut MoveList, kind: PieceType)
    requires
        board.wf(),
        old(moves)@.no_duplicates(),
        forall|m: Move| #[trigger] old(moves)@.contains(m) ==>
            board.piece_on(mv_from(m@)) != Some(Piece { piece_type: kind, color: board.side() }),
    ensures
        final(moves)@.no_duplicates(),
        forall|m: Move| #[trigger] final(moves)@.contains(m) <==> (old(moves)@.contains(m) || kind_move(*board, m, kind)),
{
    let ghost b = *board;
    let us = board.side_to_move();
    let pieces = board.piece_bb(kind, us);
    let mut rest = pieces;
    proof {
        b.lemma_wf_bits();
        assert forall|m: Move| kind_move(b, m, kind) implies #[trigger] bit(pieces.0, mv_from(m@) as u64) by {
            lemma_move_parts(m);
            let k = (color_index(us) * 6 + kind_index(kind)) as int;
            assert(bit(b.slot_bits(k), mv_from(m@) as u64));
        }
    }
    while rest.0 != 0
        invariant
            board.wf(),
            b == *board,
            us == b.side(),
            pieces.0 == b.slot_bits((color_index(us) * 6 + kind_index(kind)) as int),
            moves@.no_duplicates(),
            forall|m: Move| #[trigger] old(moves)@.contains(m) ==>
                b.piece_on(mv_from(m@)) != Some(Piece { piece_type: kind, color: us }),
            forall|i: u64| #[trigger] bit(rest.0, i) ==> bit(pieces.0, i),
            forall|m: Move| #[trigger] moves@.contains(m) <==> (old(moves)@.contains(m)
                || (kind_move(b, m, kind) && !bit(rest.0, mv_from(m@) as u64))),
        decreases popcount(rest.0),
    {
        let ghost before = rest;
        let ghost list = moves@;
        let from = rest.pop_lsb().unwrap();
        proof {
            lemma_popcount_clear_lowest(before.0);
        }
        from.index_bound();
        proof {
            b.lemma_wf_bits();
            assert(bit(pieces.0, from@ as u64));
            assert(b.piece_on(from@) == Some(Piece { piece_type: kind, color: us })) by {
                let k = (color_index(us) * 6 + kind_index(kind)) as int;
                assert(bit(b.slot_bits(k), from@ as u64));
            }
            assert forall|m: Move| #[trigger] moves@.contains(m) implies mv_from(m@) != from@ by {
                if mv_from(m@) == from@ && !old(moves)@.contains(m) {
                    assert(!bit(before.0, from@ as u64));
                }
            }
        }
        if kind == PieceType::Pawn {
            gen_pawn_pushes(board, moves, from);
            gen_pawn_captures(board, moves, from);
        } else {
            gen_piece_from(board, moves, from, kind);
        }
        proof {
            assert forall|m: Move| #[trigger] moves@.contains(m) <==> (old(moves)@.contains(m)
                || (kind_move(b, m, kind) && !bit(rest.0, mv_from(m@) as u64))) by {
                lemma_move_parts(m);
                let f = mv_from(m@) as u64;
                if kind_move(b, m, kind) && f != from@ {
                    let k = (color_index(us) * 6 + kind_index(kind)) as int;
                    assert(bit(b.slot_bits(k), f));
                }
            }
        }
    }
    proof {
        lemma_zero_iff_no_bits(rest.0);
    }
}

/// Castling moves of the side to move whose path is clear (see
/// `castle_move`); whether the king passes through check is decided later.
fn gen_castling(board: &Board, moves: &mut MoveList)
    requires
        board.wf(),
        old(moves)@.no_duplicates(),
        forall|m: Move| #[trigger] old(moves)@.contains(m) ==> mv_code(m@) != 2 && mv_code(m@) != 3,
    ensures
        final(moves)@.no_duplicates(),
        forall|m: Move| #[trigger] final(moves)@.contains(m) <==> (old(moves)@.contains(m)
            || castle_move(*board, mv_from(m@), mv_to(m@), mv_code(m@))),
{
    let ghost b = *board;
    let us = board.side_to_move();
    let rights = board.castling();
    let home_idx: u8 = if us == Color::White { 4 } else { 60 };
    let home = Square::new(home_idx);
    let king_home = is_piece(board.piece_at(home), PieceType::King, us);
    let may_k = if us == Color::White { rights.white_kingside() } else { rights.black_kingside() };
    let may_q = if us == Color::White { rights.white_queenside() } else { rights.black_queenside() };
    let kingside = king_home && may_k
        && board.piece_at(Square::new(home_idx + 1)).is_none()
        && board.piece_at(Square::new(home_idx + 2)).is_none()
        && is_piece(board.piece_at(Square::new(home_idx + 3)), PieceType::Rook, us);
    let queenside = king_home && may_q
        && board.piece_at(Square::new(home_idx - 1)).is_none()
        && board.piece_at(Square::new(home_idx - 2)).is_none()
        && board.piece_at(Square::new(home_idx - 3)).is_none()
        && is_piece(board.piece_at(Square::new(home_idx - 4)), PieceType::Rook, us);
    let k_bb = if kingside { Bitboard::from_square(Square::new(home_idx + 2)) } else { Bitboard::EMPTY() };
    let q_bb = if queenside { Bitboard::from_square(Square::new(home_idx - 2)) } else { Bitboard::EMPTY() };
    let ghost start = moves@;
    push_targets(moves, home, k_bb, MoveFlags::KING_CASTLE);
    push_targets(moves, home, q_bb, MoveFlags::QUEEN_CASTLE);
    proof {
        assert forall|m: Move| #[trigger] moves@.contains(m) <==> (start.contains(m)
            || castle_move(b, mv_from(m@), mv_to(m@), mv_code(m@))) by {
            lemma_move_parts(m);
        }
    }
}

/// All pseudo-legal moves of the side to move: pawn moves, then knight,
/// bishop, rook, queen and king moves, then castling.
pub fn generate_moves(board: &Board) -> (r: MoveList)
    requires
        board.wf(),
    ensures
        forall|m: Move| #[trigger] r@.contains(m) <==> pseudo_legal(*board, m),
        r@.no_duplicates(),
{
    let mut moves = MoveList::new();
    gen_kind(board, &mut moves, PieceType::Pawn);
    gen_kind(board, &mut moves, PieceType::Knight);
    gen_kind(board, &mut moves, PieceType::Bishop);
    gen_kind(board, &mut moves, PieceType::Rook);
    gen_kind(board, &mut moves, PieceType::Queen);
    gen_kind(board, &mut moves, PieceType::King);
    gen_castling(board, &mut moves);
    proof {
        let b = *board;
        assert forall|m: Move| #[trigger] moves@.contains(m) <==> pseudo_legal(b, m) by {
            if castle_move(b, mv_from(m@), mv_to(m@), mv_code(m@)) {
                assert(b.piece_on(mv_from(m@)) is Some);
            }
        }
    }
    moves
}

/// A pseudo-legal move can be made and taken back (while the clocks have
/// room to advance), and its legality can be decided.
pub proof fn lemma_pseudo_legal_makeable(b: Board, m: Move)
    requires
        b.wf(),
        pseudo_legal(b, m),
        b.halfmove() < u32::MAX,
        b.fullmove() < u32::MAX,
    ensures
        can_make(b, m),
        reversible(b, m),
        can_check_legality(b, m),
{
    lemma_move_parts(m);
    b.lemma_mailbox();
    let us = b.side();
    let from = mv_from(m@);
    let to = mv_to(m@);
    let code = mv_code(m@);
    if castle_move(b, from, to, code) {
        let rf = rook_origin(from, to);
        let rt = rook_target(from, to);
        assert(b.piece_on(rf) is Some);
        assert(placed(b.mailbox(), us, from, to, code)[rf as int] == b.mailbox()[rf as int]);
    }
}

/// The moves of a list that are legal in `b`, in the list's order.
pub open spec fn legal_filter(b: Board, p: Seq<Move>) -> Seq<Move> {
    p.filter(|m: Move| legal(b, m))
}

impl Board {
    /// All legal moves of the side to move: the pseudo-legal moves that
    /// pass `is_legal`, in generation order.
    pub fn generate_legal_moves(&self) -> (r: MoveList)
        requires
            self.wf(),
            self.halfmove() < u32::MAX,
            self.fullmove() < u32::MAX,
        ensures
            forall|m: Move| #[trigger] r@.contains(m) <==> (pseudo_legal(*self, m) && legal(*self, m)),
            r@.no_duplicates(),
            exists|p: Seq<Move>| #[trigger] legal_filter(*self, p) == r@ && p.no_duplicates()
                && forall|m: Move| #[trigger] p.contains(m) <==> pseudo_legal(*self, m),
    {
        let pseudo = generate_moves(self);
        let ghost f = |m: Move| legal(*self, m);
        let mut legal_moves = MoveList::new();
        let n = pseudo.len();
        let mut i: usize = 0;
        while i < n
            invariant
                self.wf(),
                self.halfmove() < u32::MAX,
                self.fullmove() < u32::MAX,
                n == pseudo@.len(),
                i <= n,
                pseudo@.no_duplicates(),
                forall|m: Move| #[trigger] pseudo@.contains(m) <==> pseudo_legal(*self, m),
                legal_moves@.no_duplicates(),
                forall|m: Move| #[trigger] legal_moves@.contains(m) <==>
                    (exists|k: int| 0 <= k < i && pseudo@[k] == m && legal(*self, m)),
                f == (|m: Move| legal(*self, m)),
                legal_moves@ == pseudo@.take(i as int).filter(f),
            decreases n - i,
        {
            let m = pseudo.get(i);
            proof {
                let t = pseudo@.take(i as int + 1);
                assert(t.drop_last() =~= pseudo@.take(i as int));
                assert(t.last() == m);
            }
            proof {
                assert(pseudo@.contains(m));
                lemma_pseudo_legal_makeable(*self, m);
            }
            let ghost list = legal_moves@;
            if self.is_legal(m) {
                proof {
                    if list.contains(m) {
                        let k = choose|k: int| 0 <= k < i && pseudo@[k] == m && legal(*self, m);
                        assert(pseudo@[k] == pseudo@[i as int]);
                    }
                }
                legal_moves.push(m);
                proof {
                    assert(legal_moves@ == list.push(m));
                    assert forall|x: Move| #[trigger] legal_moves@.contains(x) <==>
                        (exists|k: int| 0 <= k < i + 1 && pseudo@[k] == x && legal(*self, x)) by {
                        if x == m {
                            assert(legal_moves@[list.len() as int] == x);
                            assert(pseudo@[i as int] == x);
                        } else {
                            if legal_moves@.contains(x) {
                                let k = choose|k: int| 0 <= k < legal_moves@.len() && legal_moves@[k] == x;
                                assert(list[k] == x);
                                assert(list.contains(x));
                            }
                            if exists|k: int| 0 <= k < i + 1 && pseudo@[k] == x && legal(*self, x) {
                                let k = choose|k: int| 0 <= k < i + 1 && pseudo@[k] == x && legal(*self, x);
                                assert(k < i);
                                assert(list.contains(x));
                                let j = choose|j: int| 0 <= j < list.len() && list[j] == x;
                                assert(legal_moves@[j] == x);
                            }
                        }
                    }
                }
            } else {
                proof {
                    assert forall|x: Move| #[trigger] legal_moves@.contains(x) <==>
                        (exists|k: int| 0 <= k < i + 1 && pseudo@[k] == x && legal(*self, x)) by {
                        if exists|k: int| 0 <= k < i + 1 && pseudo@[k] == x && legal(*self, x) {
                            let k = choose|k: int| 0 <= k < i + 1 && pseudo@[k] == x && legal(*self, x);
                            assert(k < i);
                        }
                    }
                }
            }
            proof {
                let t = pseudo@.take(i as int + 1);
                assert(t.drop_last() =~= pseudo@.take(i as int));
                assert(t.last() == m);
                assert(f(m) == legal(*self, m));
                reveal(Seq::filter);
                assert(t.filter(f) == if f(t.last()) { t.drop_last().filter(f).push(t.last()) } else { t.drop_last().filter(f) });
            }
            i += 1;
        }
        proof {
            assert(pseudo@.take(n as int) =~= pseudo@);
            assert(pseudo@.filter(f) == legal_moves@);
            assert(legal_filter(*self, pseudo@) == legal_moves@);
            assert forall|m: Move| #[trigger] legal_moves@.contains(m) <==> (pseudo_legal(*self, m) && legal(*self, m)) by {
                if pseudo_legal(*self, m) && legal(*self, m) {
                    assert(pseudo@.contains(m));
                    let k = choose|k: int| 0 <= k < pseudo@.len() && pseudo@[k] == m;
                    assert(0 <= k < i && pseudo@[k] == m && legal(*self, m));
                }
                if legal_moves@.contains(m) {
                    let k = choose|k: int| 0 <= k < i && pseudo@[k] == m && legal(*self, m);
                    assert(pseudo@.contains(m));
                }
            }
        }
        legal_moves
    }
}

} // verus!
