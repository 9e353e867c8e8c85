//! Reading back what is written: the FEN text of a position parses to the
//! same position.
use vstd::prelude::*;
use crate::board::Board;
use crate::io::{digit_value, is_digit, rank_cells, rank_scan, rank_text, placement_text, placement_ok, placement_piece, rank_ok,
    digits_value, u32_of, castle_letters, castling_of, castling_text, ep_of, side_of, fen_text, fen_fault, fen_board, fields_fault};
use crate::piece::Color;
use crate::square::{algebraic, lemma_square_view_injective};
use crate::zobrist::full_hash;
use crate::square::{file_of, rank_of};
use crate::piece::{Piece, piece_char, piece_of_char, lemma_piece_char_roundtrip};
use crate::text::{decimal, digit_char, is_ws, ws_scan, ws_tokens, sep_scan, split_at_char};

verus! {

/// Fields joined by single spaces.
pub open spec fn spaced(fields: Seq<Seq<char>>) -> Seq<char>
    decreases fields.len(),
{
    if fields.len() == 0 {
        Seq::empty()
    } else if fields.len() == 1 {
        fields[0]
    } else {
        spaced(fields.drop_last()) + seq![' '] + fields.last()
    }
}

/// A field that splitting at white space keeps whole: not empty, with no
/// white space.
pub open spec fn solid(t: Seq<char>) -> bool {
    t.len() > 0 && forall|j: int| 0 <= j < t.len() ==> !is_ws(#[trigger] t[j])
}

/// Splitting a prefix at white space does not look past it.
proof fn lemma_ws_scan_prefix(s: Seq<char>, t: Seq<char>, n: nat)
    requires
        n <= s.len(),
    ensures
        ws_scan(s + t, n) == ws_scan(s, n),
    decreases n,
{
    if n > 0 {
        lemma_ws_scan_prefix(s, t, (n - 1) as nat);
        assert((s + t)[n - 1] == s[n - 1]);
    }
}

/// A run without white space extends the piece being read.
proof fn lemma_ws_scan_run(s: Seq<char>, m: nat, n: nat)
    requires
        m <= n <= s.len(),
        forall|j: int| m <= j < n ==> !is_ws(#[trigger] s[j]),
    ensures
        ws_scan(s, n) == (ws_scan(s, m).0, ws_scan(s, m).1 + s.subrange(m as int, n as int)),
    decreases n - m,
{
    if n > m {
        lemma_ws_scan_run(s, m, (n - 1) as nat);
        assert(ws_scan(s, m).1 + s.subrange(m as int, n as int) =~= (ws_scan(s, m).1 + s.subrange(m as int, n - 1)).push(
            s[n - 1],
        ));
    } else {
        assert(ws_scan(s, m).1 + s.subrange(m as int, n as int) =~= ws_scan(s, m).1);
    }
}

/// Scanning fields joined by spaces ends with all but the last field done
/// and the last being read.
proof fn lemma_spaced_scan(fields: Seq<Seq<char>>)
    requires
        fields.len() > 0,
        forall|k: int| 0 <= k < fields.len() ==> solid(#[trigger] fields[k]),
    ensures
        ws_scan(spaced(fields), spaced(fields).len()) == (fields.drop_last(), fields.last()),
    decreases fields.len(),
{
    let s = spaced(fields);
    if fields.len() == 1 {
        assert(s == fields[0]);
        assert(solid(fields[0]));
        lemma_ws_scan_run(s, 0, s.len());
        assert(Seq::<char>::empty() + s.subrange(0, s.len() as int) =~= s);
        assert(fields.drop_last() =~= Seq::<Seq<char>>::empty());
    } else {
        let init = fields.drop_last();
        let last = fields.last();
        assert(forall|k: int| 0 <= k < init.len() ==> init[k] == fields[k]);
        lemma_spaced_scan(init);
        let a = spaced(init);
        assert(s == a + seq![' '] + last);
        assert(s =~= a + (seq![' '] + last));
        lemma_ws_scan_prefix(a, seq![' '] + last, a.len());
        assert(s[a.len() as int] == ' ');
        assert(is_ws(' '));
        assert(solid(init.last())) by {
            assert(init.last() == fields[init.len() - 1]);
        }
        assert(ws_scan(s, a.len() + 1) == (init, Seq::<char>::empty())) by {
            assert(init.drop_last().push(init.last()) =~= init);
        }
        assert(solid(last)) by {
            assert(last == fields[fields.len() - 1]);
        }
        assert forall|j: int| a.len() + 1 <= j < s.len() implies !is_ws(#[trigger] s[j]) by {
            assert(s[j] == last[j - a.len() - 1]);
        }
        lemma_ws_scan_run(s, a.len() + 1, s.len());
        assert(Seq::<char>::empty() + s.subrange((a.len() + 1) as int, s.len() as int) =~= last);
    }
}

/// Splitting fields joined by single spaces at white space gives the
/// fields back.
pub proof fn lemma_spaced_tokens(fields: Seq<Seq<char>>)
    requires
        fields.len() > 0,
        forall|k: int| 0 <= k < fields.len() ==> solid(#[trigger] fields[k]),
    ensures
        ws_tokens(spaced(fields)) == fields,
{
    lemma_spaced_scan(fields);
    assert(solid(fields.last())) by {
        assert(fields.last() == fields[fields.len() - 1]);
    }
    assert(fields.drop_last().push(fields.last()) =~= fields);
}

/// A character that is neither white space nor the rank separator.
pub open spec fn plain(c: char) -> bool {
    !is_ws(c) && c != '/'
}

/// The pieces on the first `n` files of rank `r`.
pub open spec fn rank_pieces(b: Board, r: nat, n: nat) -> Seq<Option<Piece>> {
    Seq::new(n, |j: int| b.piece_on((r * 8 + j) as nat))
}

/// A piece letter is no digit, no white space and no separator.
proof fn lemma_piece_char_plain(p: Piece)
    ensures
        !is_digit(piece_char(p)),
        plain(piece_char(p)),
{
}

/// A digit from 1 to 8 reads as its value and is plain.
proof fn lemma_digit(e: nat)
    requires
        1 <= e <= 8,
    ensures
        decimal(e) == seq![digit_char(e)],
        is_digit(digit_char(e)),
        digit_value(digit_char(e)) == e,
        plain(digit_char(e)),
{
}

/// Reading the text of the first `f` files of a rank: what was written
/// reads as the pieces up to the run of empty squares not yet written.
proof fn lemma_rank_scan(b: Board, r: nat, f: nat)
    requires
        r < 8,
        f <= 8,
    ensures
        ({
            let (t, e) = rank_scan(b, r, f);
            &&& e <= f
            &&& rank_cells(t) == Some(rank_pieces(b, r, (f - e) as nat))
            &&& forall|j: int| f - e <= j < f ==> (#[trigger] b.piece_on((r * 8 + j) as nat)) is None
            &&& forall|k: int| 0 <= k < t.len() ==> plain(#[trigger] t[k])
        }),
    decreases f,
{
    if f > 0 {
        let g = (f - 1) as nat;
        lemma_rank_scan(b, r, g);
        let (t, e) = rank_scan(b, r, g);
        match b.piece_on((r * 8 + g) as nat) {
            Some(p) => {
                let u = if e > 0 { t + decimal(e) } else { t };
                assert(rank_cells(u) == Some(rank_pieces(b, r, g)) && forall|k: int| 0 <= k < u.len() ==> plain(#[trigger] u[k])) by {
                    if e > 0 {
                        lemma_digit(e);
                        let d = digit_char(e);
                        assert(u == t + seq![d]);
                        assert(u.drop_last() =~= t);
                        assert(u.last() == d);
                        assert(rank_pieces(b, r, (g - e) as nat) + Seq::new(e, |i: int| None::<Piece>) =~= rank_pieces(b, r, g));
                    } else {
                        assert(rank_pieces(b, r, (g - e) as nat) =~= rank_pieces(b, r, g));
                    }
                }
                let pc = piece_char(p);
                lemma_piece_char_plain(p);
                lemma_piece_char_roundtrip(p);
                let t2 = u.push(pc);
                assert(rank_scan(b, r, f) == (t2, 0nat));
                assert(t2.drop_last() =~= u);
                assert(t2.last() == pc);
                assert(rank_pieces(b, r, g).push(Some(p)) =~= rank_pieces(b, r, f));
            },
            None => {
                assert(rank_scan(b, r, f) == (t, e + 1));
            },
        }
    }
}

/// The text of a rank reads as its eight squares, and holds only plain
/// characters.
proof fn lemma_rank_text(b: Board, r: nat)
    requires
        r < 8,
    ensures
        rank_cells(rank_text(b, r)) == Some(rank_pieces(b, r, 8)),
        forall|k: int| 0 <= k < rank_text(b, r).len() ==> plain(#[trigger] rank_text(b, r)[k]),
{
    lemma_rank_scan(b, r, 8);
    let (t, e) = rank_scan(b, r, 8);
    if e > 0 {
        lemma_digit(e);
        let d = digit_char(e);
        let u = t + decimal(e);
        assert(u == t + seq![d]);
        assert(u.drop_last() =~= t);
        assert(u.last() == d);
        assert(rank_pieces(b, r, (8 - e) as nat) + Seq::new(e, |i: int| None::<Piece>) =~= rank_pieces(b, r, 8));
    } else {
        assert(rank_pieces(b, r, (8 - e) as nat) =~= rank_pieces(b, r, 8));
    }
}

/// Splitting a prefix at a separator does not look past it.
proof fn lemma_sep_scan_prefix(s: Seq<char>, t: Seq<char>, sep: char, n: nat)
    requires
        n <= s.len(),
    ensures
        sep_scan(s + t, sep, n) == sep_scan(s, sep, n),
    decreases n,
{
    if n > 0 {
        lemma_sep_scan_prefix(s, t, sep, (n - 1) as nat);
        assert((s + t)[n - 1] == s[n - 1]);
    }
}

/// A run without the separator extends the piece being read.
proof fn lemma_sep_scan_run(s: Seq<char>, sep: char, m: nat, n: nat)
    requires
        m <= n <= s.len(),
        forall|j: int| m <= j < n ==> #[trigger] s[j] != sep,
    ensures
        sep_scan(s, sep, n) == (sep_scan(s, sep, m).0, sep_scan(s, sep, m).1 + s.subrange(m as int, n as int)),
    decreases n - m,
{
    if n > m {
        lemma_sep_scan_run(s, sep, m, (n - 1) as nat);
        assert(sep_scan(s, sep, m).1 + s.subrange(m as int, n as int) =~= (sep_scan(s, sep, m).1 + s.subrange(
            m as int,
            n - 1,
        )).push(s[n - 1]));
    } else {
        assert(sep_scan(s, sep, m).1 + s.subrange(m as int, n as int) =~= sep_scan(s, sep, m).1);
    }
}

/// The texts of the top `k` ranks, from the eighth down.
pub open spec fn top_ranks(b: Board, k: nat) -> Seq<Seq<char>> {
    Seq::new(k, |j: int| rank_text(b, (7 - j) as nat))
}

/// Splitting the placement text of the top `k` ranks at `/`: every rank
/// but the first is followed by a separator; no character is white space.
proof fn lemma_placement_scan(b: Board, k: nat)
    requires
        k <= 8,
    ensures
        ({
            let p = placement_text(b, k);
            &&& k < 8 ==> sep_scan(p, '/', p.len()) == (top_ranks(b, k), Seq::<char>::empty())
            &&& k == 8 ==> sep_scan(p, '/', p.len()) == (top_ranks(b, 7), rank_text(b, 0))
            &&& forall|j: int| 0 <= j < p.len() ==> !is_ws(#[trigger] p[j])
        }),
    decreases k,
{
    let p = placement_text(b, k);
    if k == 0 {
        assert(top_ranks(b, 0) =~= Seq::<Seq<char>>::empty());
    } else {
        let g = (k - 1) as nat;
        lemma_placement_scan(b, g);
        let q = placement_text(b, g);
        let rank = (8 - k) as nat;
        let rt = rank_text(b, rank);
        lemma_rank_text(b, rank);
        let tail: Seq<char> = if rank > 0 { seq!['/'] } else { Seq::empty() };
        assert(p == q + rt + tail);
        assert(p =~= q + (rt + tail));
        lemma_sep_scan_prefix(q, rt + tail, '/', q.len());
        assert(sep_scan(q, '/', q.len()) == (top_ranks(b, g), Seq::<char>::empty()));
        assert forall|j: int| q.len() <= j < q.len() + rt.len() implies #[trigger] p[j] != '/' by {
            assert(p[j] == rt[j - q.len()]);
            assert(plain(rt[j - q.len()]));
        }
        lemma_sep_scan_run(p, '/', q.len(), q.len() + rt.len());
        assert(Seq::<char>::empty() + p.subrange(q.len() as int, (q.len() + rt.len()) as int) =~= rt);
        assert(top_ranks(b, g).push(rt) =~= top_ranks(b, k));
        assert forall|j: int| 0 <= j < p.len() implies !is_ws(#[trigger] p[j]) by {
            if j < q.len() {
                assert(p[j] == q[j]);
            } else if j < q.len() + rt.len() {
                assert(p[j] == rt[j - q.len()]);
                assert(plain(rt[j - q.len()]));
            } else {
                assert(p[j] == '/');
            }
        }
    }
}

/// The placement text of a position is a valid placement field that puts
/// each piece back on its square.
proof fn lemma_placement(b: Board)
    ensures
        placement_ok(placement_text(b, 8)),
        forall|i: nat| i < 64 ==> #[trigger] placement_piece(placement_text(b, 8), i) == b.piece_on(i),
        placement_text(b, 8).len() > 0,
        forall|j: int| 0 <= j < placement_text(b, 8).len() ==> !is_ws(#[trigger] placement_text(b, 8)[j]),
{
    let p = placement_text(b, 8);
    lemma_placement_scan(b, 8);
    let ranks = split_at_char(p, '/');
    assert(ranks =~= top_ranks(b, 8));
    assert forall|k: int| 0 <= k < 8 implies rank_ok(#[trigger] ranks[k]) by {
        lemma_rank_text(b, (7 - k) as nat);
    }
    assert forall|i: nat| i < 64 implies #[trigger] placement_piece(p, i) == b.piece_on(i) by {
        lemma_rank_text(b, rank_of(i));
        assert(ranks[7 - rank_of(i)] == rank_text(b, rank_of(i)));
        assert(rank_of(i) * 8 + file_of(i) == i);
    }
    assert(p.len() > 0) by {
        assert(placement_text(b, 7).len() <= placement_text(b, 8).len());
        assert(placement_text(b, 1) == placement_text(b, 0) + rank_text(b, 7) + seq!['/']);
        lemma_placement_len(b, 1, 8);
    }
}

/// Placement texts only grow.
proof fn lemma_placement_len(b: Board, j: nat, k: nat)
    requires
        j <= k <= 8,
    ensures
        placement_text(b, j).len() <= placement_text(b, k).len(),
    decreases k - j,
{
    if j < k {
        lemma_placement_len(b, j, (k - 1) as nat);
    }
}

/// The decimal text of a number: digits only, reading back as the number.
proof fn lemma_decimal(n: nat)
    ensures
        decimal(n).len() > 0,
        forall|k: int| 0 <= k < decimal(n).len() ==> is_digit(#[trigger] decimal(n)[k]),
        digits_value(decimal(n)) == n,
    decreases n,
{
    if n >= 10 {
        lemma_decimal(n / 10);
        let d = decimal(n / 10);
        assert(decimal(n) == d.push(digit_char(n % 10)));
        assert(decimal(n).drop_last() =~= d);
        assert(digit_value(digit_char(n % 10)) == n % 10);
        assert(digits_value(decimal(n)) == digits_value(d) * 10 + digit_value(decimal(n).last()));
        assert((n / 10) * 10 + n % 10 == n);
    } else {
        assert(seq![digit_char(n)].drop_last() =~= Seq::<char>::empty());
        assert(digit_value(digit_char(n)) == n);
        assert(digits_value(decimal(n)) == digits_value(Seq::<char>::empty()) * 10 + digit_value(decimal(n).last()));
    }
}

/// A `u32` written in decimal is a solid field that reads back as itself.
proof fn lemma_u32_text(n: u32)
    ensures
        u32_of(decimal(n as nat)) == Some(n),
        solid(decimal(n as nat)),
{
    lemma_decimal(n as nat);
    let d = decimal(n as nat);
    assert(is_digit(d[0]));
    assert forall|j: int| 0 <= j < d.len() implies !is_ws(#[trigger] d[j]) by {
        assert(is_digit(d[j]));
    }
}

/// The castling field of rights among `KQkq` is solid and reads back as
/// the same rights.
proof fn lemma_castling_text(c: u8)
    requires
        c < 16,
    ensures
        castling_of(castling_text(c)) == Some(c),
        solid(castling_text(c)),
{
    assert(((c & 1 != 0) ==> (0u8 | 1u8) == c & 1) && ((c & 1 == 0) ==> 0u8 == c & 1)
        && ((c & 2 != 0) ==> ((c & 1) | 2u8) == c & 3) && ((c & 2 == 0) ==> (c & 1) == c & 3)
        && ((c & 4 != 0) ==> ((c & 3) | 4u8) == c & 7) && ((c & 4 == 0) ==> (c & 3) == c & 7)
        && ((c & 8 != 0) ==> ((c & 7) | 8u8) == c & 15) && ((c & 8 == 0) ==> (c & 7) == c & 15)
        && (c < 16 ==> c & 15 == c) && (c != 0 && c < 16 ==> (c & 1 != 0 || c & 2 != 0 || c & 4 != 0 || c & 8 != 0)))
        by (bit_vector);
    if c != 0 {
        let t1: Seq<char> = if c & 1 != 0 { seq!['K'] } else { Seq::empty() };
        let t2: Seq<char> = if c & 2 != 0 { seq!['Q'] } else { Seq::empty() };
        let t4: Seq<char> = if c & 4 != 0 { seq!['k'] } else { Seq::empty() };
        let t8: Seq<char> = if c & 8 != 0 { seq!['q'] } else { Seq::empty() };
        let x1 = t1;
        let x2 = x1 + t2;
        let x3 = x2 + t4;
        let x4 = x3 + t8;
        assert(castling_text(c) == x4);
        assert(castle_letters(x1) == Some(c & 1)) by {
            if c & 1 != 0 {
                assert(x1.drop_last() =~= Seq::<char>::empty());
            }
        }
        assert(castle_letters(x2) == Some(c & 3)) by {
            if c & 2 != 0 {
                assert(x2.drop_last() =~= x1);
                assert(x2.last() == 'Q');
            } else {
                assert(x2 =~= x1);
            }
        }
        assert(castle_letters(x3) == Some(c & 7)) by {
            if c & 4 != 0 {
                assert(x3.drop_last() =~= x2);
                assert(x3.last() == 'k');
            } else {
                assert(x3 =~= x2);
            }
        }
        assert(castle_letters(x4) == Some(c & 15)) by {
            if c & 8 != 0 {
                assert(x4.drop_last() =~= x3);
                assert(x4.last() == 'q');
            } else {
                assert(x4 =~= x3);
            }
        }
        assert(x4.len() > 0);
        assert(x4 != seq!['-']) by {
            if x4 == seq!['-'] {
                assert(x4[0] == '-');
                assert(x4.len() == 1);
            }
        }
        assert forall|j: int| 0 <= j < x4.len() implies !is_ws(#[trigger] x4[j]) by {
            assert(x4[j] == 'K' || x4[j] == 'Q' || x4[j] == 'k' || x4[j] == 'q');
        }
    }
}

/// The name of a square is a solid field that reads back as the square.
proof fn lemma_square_text(e: nat)
    requires
        e < 64,
    ensures
        ep_of(algebraic(e)) == Some(Some(e)),
        solid(algebraic(e)),
{
    let t = algebraic(e);
    assert(t.len() == 2);
    assert(t != seq!['-']);
    assert(t[0] as u32 - 'a' as u32 == file_of(e));
    assert(t[1] as u32 - '1' as u32 == rank_of(e));
    assert(rank_of(e) * 8 + file_of(e) == e);
}

/// FEN text read back. The text `to_fen` writes for a position (whose
/// castling rights are among `KQkq` and whose en passant square is on the
/// board) is valid FEN, and the board it describes has the same pieces on
/// every square, side to move, castling rights, en passant square and move
/// counters; for a well-formed board with its hash up to date, it is the
/// same board.
pub proof fn lemma_fen_roundtrip(b: Board, b2: Board)
    requires
        b.rights() < 16,
        b.ep() matches Some(e) ==> e@ < 64,
    ensures
        fen_fault(fen_text(b)) is None,
        fen_board(fen_text(b), b2) ==> {
            &&& forall|i: nat| i < 64 ==> #[trigger] b2.piece_on(i) == b.piece_on(i)
            &&& b2.side() == b.side()
            &&& b2.rights() == b.rights()
            &&& b2.ep() == b.ep()
            &&& b2.halfmove() == b.halfmove()
            &&& b2.fullmove() == b.fullmove()
        },
        fen_board(fen_text(b), b2) && b.wf() && b.hash_value() == full_hash(b) ==> b2 == b,
{
    let p = placement_text(b, 8);
    let sd: Seq<char> = seq![if b.side() == Color::White { 'w' } else { 'b' }];
    let cs = castling_text(b.rights());
    let ep: Seq<char> = match b.ep() { Some(e) => algebraic(e@), None => seq!['-'] };
    let hm = decimal(b.halfmove() as nat);
    let fm = decimal(b.fullmove() as nat);
    let fields = seq![p, sd, cs, ep, hm, fm];
    lemma_placement(b);
    lemma_castling_text(b.rights());
    lemma_u32_text(b.halfmove());
    lemma_u32_text(b.fullmove());
    match b.ep() {
        Some(e) => lemma_square_text(e@),
        None => {},
    }
    assert(side_of(sd) == Some(b.side())) by {
        if b.side() != Color::White {
            assert(sd != seq!['w']) by {
                assert(sd[0] != 'w');
            }
        }
    }
    assert(ep_of(ep) matches Some(x) && x == (match b.ep() { Some(e) => Some(e@), None => None::<nat> }));
    assert(solid(sd));
    assert(solid(ep));
    assert forall|k: int| 0 <= k < fields.len() implies solid(#[trigger] fields[k]) by {
        assert(solid(p));
    }
    assert(fen_text(b) =~= spaced(fields)) by {
        reveal_with_fuel(spaced, 7);
        assert(fields.drop_last().drop_last().drop_last().drop_last().drop_last() =~= seq![p]);
        assert(fields.drop_last().drop_last().drop_last().drop_last() =~= seq![p, sd]);
        assert(fields.drop_last().drop_last().drop_last() =~= seq![p, sd, cs]);
        assert(fields.drop_last().drop_last() =~= seq![p, sd, cs, ep]);
        assert(fields.drop_last() =~= seq![p, sd, cs, ep, hm]);
    }
    lemma_spaced_tokens(fields);
    assert(ws_tokens(fen_text(b)) == fields);
    assert(fields_fault(fields) is None);
    if fen_board(fen_text(b), b2) {
        match b.ep() {
            Some(e) => {
                let sq = b2.ep().unwrap();
                lemma_square_view_injective(sq, e);
            },
            None => {},
        }
        if b.wf() && b.hash_value() == full_hash(b) {
            b.lemma_mailbox();
            b2.lemma_mailbox();
            assert(b2.mailbox() =~= b.mailbox());
            b2.lemma_equal_by_squares(b);
        }
    }
}

/// Boards with the same pieces on every square write the same rank texts.
proof fn lemma_rank_scan_same(b: Board, b2: Board, r: nat, f: nat)
    requires
        r < 8,
        f <= 8,
        forall|i: nat| i < 64 ==> #[trigger] b2.piece_on(i) == b.piece_on(i),
    ensures
        rank_scan(b2, r, f) == rank_scan(b, r, f),
    decreases f,
{
    if f > 0 {
        lemma_rank_scan_same(b, b2, r, (f - 1) as nat);
        assert(b2.piece_on((r * 8 + (f - 1)) as nat) == b.piece_on((r * 8 + (f - 1)) as nat));
    }
}

/// Boards with the same pieces on every square write the same placement.
proof fn lemma_placement_same(b: Board, b2: Board, k: nat)
    requires
        k <= 8,
        forall|i: nat| i < 64 ==> #[trigger] b2.piece_on(i) == b.piece_on(i),
    ensures
        placement_text(b2, k) == placement_text(b, k),
    decreases k,
{
    if k > 0 {
        lemma_placement_same(b, b2, (k - 1) as nat);
        lemma_rank_scan_same(b, b2, (8 - k) as nat, 8);
    }
}

/// FEN text written, read and written again is the same text: parsing the
/// text `to_fen` writes for a position (castling rights among `KQkq`, en
/// passant square on the board) gives a board whose FEN text is that text.
pub proof fn lemma_fen_text_roundtrip(b: Board, b2: Board)
    requires
        b.rights() < 16,
        b.ep() matches Some(e) ==> e@ < 64,
    ensures
        fen_board(fen_text(b), b2) ==> fen_text(b2) == fen_text(b),
{
    lemma_fen_roundtrip(b, b2);
    if fen_board(fen_text(b), b2) {
        lemma_placement_same(b, b2, 8);
    }
}

} // verus!
