use vstd::prelude::*;
use crate::board::{Board, CastlingRights};
use crate::piece::{Color, Piece, piece_of_char, piece_char, lower, ascii_lower};
use crate::chess_move::{Move, uci_text, mv_to};
use crate::movegen::{generate_moves, pseudo_legal};
use crate::square::{Square, file_of, rank_of, algebraic};
use crate::text::{decimal, trimmed, joined, strip_end, string_views, trim_chars, join_from, strip_end_char, chars_eq, chars_of, split_ws, split_on, string_of, push_char, push_str, push_decimal, ws_tokens, split_at_char, views};
use crate::zobrist::{full_hash, zobrist_hash};

verus! {

/// The FEN of the standard starting position.
pub const STARTPOS_FEN: &'static str = "rnbqkbnr/pppppppp/8/8/8/8/PPPPPPPP/RNBQKBNR w KQkq - 0 1";

/// Why a FEN string was refused, with a description.
#[derive(Debug, Clone, PartialEq, Eq)]
pub enum FenError {
    /// Not six space-separated fields.
    InvalidFormat(String),
    /// A bad piece placement field.
    InvalidPiecePlacement(String),
    /// A side to move other than `w` or `b`.
    InvalidSideToMove(String),
    /// A bad castling field.
    InvalidCastlingRights(String),
    /// A bad en passant field.
    InvalidEnPassant(String),
    /// A halfmove clock that is not a `u32`.
    InvalidHalfmoveClock(String),
    /// A fullmove number that is not a `u32`.
    InvalidFullmoveNumber(String),
}

/// The field of a FEN string that was refused.
#[derive(Debug, Copy, Clone, PartialEq, Eq, Structural)]
pub enum FenField {
    Format,
    Placement,
    Side,
    Castling,
    EnPassant,
    Halfmove,
    Fullmove,
}

/// The field an error refers to.
pub open spec fn fen_error_field(e: FenError) -> FenField {
    match e {
        FenError::InvalidFormat(_) => FenField::Format,
        FenError::InvalidPiecePlacement(_) => FenField::Placement,
        FenError::InvalidSideToMove(_) => FenField::Side,
        FenError::InvalidCastlingRights(_) => FenField::Castling,
        FenError::InvalidEnPassant(_) => FenField::EnPassant,
        FenError::InvalidHalfmoveClock(_) => FenField::Halfmove,
        FenError::InvalidFullmoveNumber(_) => FenField::Fullmove,
    }
}

/// Whether a character is an ASCII digit.
pub open spec fn is_digit(c: char) -> bool {
    '0' <= c <= '9'
}

/// The value of an ASCII digit.
pub open spec fn digit_value(c: char) -> nat {
    (c as u32 - '0' as u32) as nat
}

/// The squares of one rank, read left to right: a digit stands for that
/// many empty squares, a piece letter for the piece; `None` on any other
/// character.
pub open spec fn rank_cells(r: Seq<char>) -> Option<Seq<Option<Piece>>>
    decreases r.len(),
{
    if r.len() == 0 {
        Some(Seq::empty())
    } else {
        match rank_cells(r.drop_last()) {
            None => None,
            Some(cells) => {
                let c = r.last();
                if is_digit(c) {
                    Some(cells + Seq::new(digit_value(c), |i: int| None::<Piece>))
                } else {
                    match piece_of_char(c) {
                        Some(p) => Some(cells.push(Some(p))),
                        None => None,
                    }
                }
            },
        }
    }
}

/// A rank describes exactly eight squares.
pub open spec fn rank_ok(r: Seq<char>) -> bool {
    rank_cells(r) matches Some(cells) && cells.len() == 8
}

/// The placement field has eight valid ranks separated by `/`.
pub open spec fn placement_ok(p: Seq<char>) -> bool {
    let ranks = split_at_char(p, '/');
    ranks.len() == 8 && forall|k: int| 0 <= k < 8 ==> rank_ok(#[trigger] ranks[k])
}

/// The piece a valid placement field puts on square `i` (ranks are listed
/// from the eighth down).
pub open spec fn placement_piece(p: Seq<char>, i: nat) -> Option<Piece> {
    rank_cells(split_at_char(p, '/')[7 - rank_of(i)]).unwrap()[file_of(i) as int]
}

/// The side to move of a FEN field.
pub open spec fn side_of(t: Seq<char>) -> Option<Color> {
    if t == seq!['w'] {
        Some(Color::White)
    } else if t == seq!['b'] {
        Some(Color::Black)
    } else {
        None
    }
}

/// The rights named by a sequence of castling letters.
pub open spec fn castle_letters(t: Seq<char>) -> Option<u8>
    decreases t.len(),
{
    if t.len() == 0 {
        Some(0)
    } else {
        match castle_letters(t.drop_last()) {
            None => None,
            Some(b) => {
                let c = t.last();
                if c == 'K' { Some(b | 1) } else if c == 'Q' { Some(b | 2) } else if c == 'k' { Some(b | 4) }
                else if c == 'q' { Some(b | 8) } else { None }
            },
        }
    }
}

/// The castling rights of a FEN field: `-` for none, else letters of `KQkq`.
pub open spec fn castling_of(t: Seq<char>) -> Option<u8> {
    if t == seq!['-'] { Some(0) } else { castle_letters(t) }
}

/// The square named by two characters such as `e3`.
pub open spec fn square_of_text(t: Seq<char>) -> Option<nat> {
    if t.len() == 2 && 'a' <= t[0] <= 'h' && '1' <= t[1] <= '8' {
        Some(((t[1] as u32 - '1' as u32) * 8 + (t[0] as u32 - 'a' as u32)) as nat)
    } else {
        None
    }
}

/// The en passant square of a FEN field: `-` for none.
pub open spec fn ep_of(t: Seq<char>) -> Option<Option<nat>> {
    if t == seq!['-'] {
        Some(None)
    } else {
        match square_of_text(t) {
            Some(s) => Some(Some(s)),
            None => None,
        }
    }
}

/// The value of a string of decimal digits.
pub open spec fn digits_value(d: Seq<char>) -> nat
    decreases d.len(),
{
    if d.len() == 0 { 0 } else { digits_value(d.drop_last()) * 10 + digit_value(d.last()) }
}

/// The digits of a decimal field after an optional `+`.
pub open spec fn unsigned_digits(t: Seq<char>) -> Seq<char> {
    if t.len() > 0 && t[0] == '+' { t.drop_first() } else { t }
}

/// A `u32` in decimal as `str::parse` reads it: an optional `+`, then at
/// least one digit, with a value that fits.
pub open spec fn u32_of(t: Seq<char>) -> Option<u32> {
    let d = unsigned_digits(t);
    if d.len() > 0 && (forall|i: int| 0 <= i < d.len() ==> is_digit(#[trigger] d[i])) && digits_value(d) <= u32::MAX {
        Some(digits_value(d) as u32)
    } else {
        None
    }
}

/// The first field of a FEN string that is refused, in field order.
pub open spec fn fen_fault(s: Seq<char>) -> Option<FenField> {
    fields_fault(ws_tokens(s))
}

/// The first of a list of FEN fields that is refused, in field order.
pub open spec fn fields_fault(p: Seq<Seq<char>>) -> Option<FenField> {
    if p.len() != 6 { Some(FenField::Format) }
    else if !placement_ok(p[0]) { Some(FenField::Placement) }
    else if side_of(p[1]) is None { Some(FenField::Side) }
    else if castling_of(p[2]) is None { Some(FenField::Castling) }
    else if ep_of(p[3]) is None { Some(FenField::EnPassant) }
    else if u32_of(p[4]) is None { Some(FenField::Halfmove) }
    else if u32_of(p[5]) is None { Some(FenField::Fullmove) }
    else { None }
}

/// What an error says of the fields: the count of fields when there are
/// not six, and the faulty field's text for the side to move, en passant
/// square and move counters.
pub open spec fn fen_payload_ok(p: Seq<Seq<char>>, e: FenError) -> bool {
    match e {
        FenError::InvalidFormat(d) => d@ == "Expected 6 components, got "@ + decimal(p.len()),
        FenError::InvalidSideToMove(d) => d@ == p[1],
        FenError::InvalidEnPassant(d) => d@ == p[3],
        FenError::InvalidHalfmoveClock(d) => d@ == p[4],
        FenError::InvalidFullmoveNumber(d) => d@ == p[5],
        _ => true,
    }
}

/// The board a valid FEN string describes, with its hash computed from
/// scratch.
pub open spec fn fen_board(s: Seq<char>, b: Board) -> bool {
    fields_board(ws_tokens(s), b)
}

/// The board a list of valid FEN fields describes.
pub open spec fn fields_board(p: Seq<Seq<char>>, b: Board) -> bool {
    &&& b.wf()
    &&& forall|i: nat| i < 64 ==> #[trigger] b.piece_on(i) == placement_piece(p[0], i)
    &&& b.side() == side_of(p[1]).unwrap()
    &&& b.rights() == castling_of(p[2]).unwrap()
    &&& (match ep_of(p[3]).unwrap() { Some(e) => b.ep() matches Some(sq) && sq@ == e, None => b.ep() is None })
    &&& b.halfmove() == u32_of(p[4]).unwrap()
    &&& b.fullmove() == u32_of(p[5]).unwrap()
    &&& b.hash_value() == full_hash(b)
}

/// A prefix of a rank that reads is read the same way; the whole rank
/// then describes at least as many squares.
proof fn lemma_rank_cells_prefix(r: Seq<char>, j: int)
    requires
        0 <= j <= r.len(),
        rank_cells(r) is Some,
    ensures
        rank_cells(r.take(j)) is Some,
        rank_cells(r.take(j)).unwrap().len() <= rank_cells(r).unwrap().len(),
    decreases r.len(),
{
    if j < r.len() {
        assert(r.drop_last().take(j) == r.take(j));
        lemma_rank_cells_prefix(r.drop_last(), j);
    } else {
        assert(r.take(j) == r);
    }
}

/// A prefix's digit value is at most the value of the whole.
proof fn lemma_digits_prefix(d: Seq<char>, k: int)
    requires
        0 <= k <= d.len(),
    ensures
        digits_value(d.take(k)) <= digits_value(d),
    decreases d.len(),
{
    if k < d.len() {
        assert(d.drop_last().take(k) == d.take(k));
        lemma_digits_prefix(d.drop_last(), k);
    } else {
        assert(d.take(k) == d);
    }
}

/// A string made of a prefix and some characters.
fn message(prefix: &str, tail: &[char]) -> (r: String)
    ensures
        r@ == prefix@ + tail@,
{
    let mut s = String::new();
    push_str(&mut s, prefix);
    let t = string_of(tail);
    let mut i: usize = 0;
    let tc = chars_of(t.as_str());
    while i < tc.len()
        invariant
            i <= tc@.len(),
            tc@ == tail@,
            s@ == prefix@ + tail@.take(i as int),
        decreases tc@.len() - i,
    {
        push_char(&mut s, tc[i]);
        assert(tail@.take(i as int + 1) =~= tail@.take(i as int).push(tail@[i as int]));
        i += 1;
    }
    assert(tail@.take(tail@.len() as int) =~= tail@);
    s
}

/// Read a `u32` as `str::parse` does.
fn parse_u32(t: &[char]) -> (r: Option<u32>)
    ensures
        r == u32_of(t@),
{
    let plus = t.len() > 0 && t[0] == '+';
    let start: usize = if plus { 1 } else { 0 };
    let ghost d = unsigned_digits(t@);
    assert(d == t@.subrange(start as int, t@.len() as int));
    if start == t.len() {
        return None;
    }
    let mut acc: u64 = 0;
    let mut i = start;
    while i < t.len()
        invariant
            start <= i <= t@.len(),
            d == t@.subrange(start as int, t@.len() as int),
            d == unsigned_digits(t@),
            forall|k: int| 0 <= k < i - start ==> is_digit(#[trigger] d[k]),
            acc == digits_value(d.take(i - start)),
            acc <= u32::MAX,
        decreases t@.len() - i,
    {
        let c = t[i];
        if !('0' <= c && c <= '9') {
            proof {
                let k: int = i - start;
                assert(d[k] == c);
                assert(!is_digit(d[k]));
                assert(!(forall|j: int| 0 <= j < d.len() ==> is_digit(#[trigger] d[j])));
            }
            return None;
        }
        let v = (c as u32 - 48) as u64;
        proof {
            let k = i - start;
            assert(d.take(k + 1).drop_last() == d.take(k));
            assert(d.take(k + 1).last() == c);
        }
        acc = acc * 10 + v;
        if acc > 0xFFFF_FFFF {
            proof {
                lemma_digits_prefix(d, i - start + 1);
            }
            return None;
        }
        i += 1;
    }
    assert(d.take(d.len() as int) == d);
    Some(acc as u32)
}

/// Read the side to move field.
fn parse_side(t: &[char]) -> (r: Option<Color>)
    ensures
        r == side_of(t@),
{
    if t.len() == 1 && t[0] == 'w' {
        assert(t@ == seq!['w']);
        Some(Color::White)
    } else if t.len() == 1 && t[0] == 'b' {
        assert(t@ == seq!['b']);
        Some(Color::Black)
    } else {
        None
    }
}

/// Read the castling field; on a bad letter, that letter.
fn parse_castling(t: &[char]) -> (r: Result<CastlingRights, char>)
    ensures
        r matches Ok(c) ==> castling_of(t@) == Some(c@),
        r is Err <==> castling_of(t@) is None,
{
    if t.len() == 1 && t[0] == '-' {
        assert(t@ == seq!['-']);
        return Ok(CastlingRights::none());
    }
    assert(t@ != seq!['-']);
    let mut rights = CastlingRights::none();
    let mut i: usize = 0;
    while i < t.len()
        invariant
            i <= t@.len(),
            t@ != seq!['-'],
            castle_letters(t@.take(i as int)) == Some(rights@),
        decreases t@.len() - i,
    {
        let c = t[i];
        proof {
            assert(t@.take(i as int + 1).drop_last() == t@.take(i as int));
            assert(t@.take(i as int + 1).last() == c);
        }
        let before = rights;
        if c == 'K' {
            rights = rights.set_white_kingside();
        } else if c == 'Q' {
            rights = rights.set_white_queenside();
        } else if c == 'k' {
            rights = rights.set_black_kingside();
        } else if c == 'q' {
            rights = rights.set_black_queenside();
        } else {
            proof {
                lemma_castle_letters_prefix(t@, i as int + 1);
            }
            return Err(c);
        }
        i += 1;
    }
    assert(t@.take(t@.len() as int) == t@);
    Ok(rights)
}

/// Once a prefix of castling letters is refused, so is the whole.
proof fn lemma_castle_letters_prefix(t: Seq<char>, j: int)
    requires
        0 <= j <= t.len(),
        castle_letters(t.take(j)) is None,
    ensures
        castle_letters(t) is None,
    decreases t.len(),
{
    if j < t.len() {
        assert(t.drop_last().take(j) == t.take(j));
        lemma_castle_letters_prefix(t.drop_last(), j);
    } else {
        assert(t.take(j) == t);
    }
}

/// Read the en passant field.
fn parse_ep(t: &[char]) -> (r: Option<Option<Square>>)
    ensures
        match ep_of(t@) {
            None => r is None,
            Some(None) => r == Some(None::<Square>),
            Some(Some(e)) => r matches Some(Some(sq)) && sq@ == e,
        },
{
    if t.len() == 1 && t[0] == '-' {
        assert(t@ == seq!['-']);
        return Some(None);
    }
    assert(t@ != seq!['-']);
    if t.len() == 2 && 'a' <= t[0] && t[0] <= 'h' && '1' <= t[1] && t[1] <= '8' {
        let f = (t[0] as u32 - 97) as u8;
        let r = (t[1] as u32 - 49) as u8;
        Some(Some(Square::from_coords(f, r)))
    } else {
        None
    }
}

/// The message for a rank that does not describe eight squares.
fn rank_width_message(rank_number: u64, files: u64) -> String {
    let mut s = String::new();
    push_str(&mut s, "Rank ");
    push_decimal(&mut s, rank_number);
    push_str(&mut s, " has ");
    push_decimal(&mut s, files);
    push_str(&mut s, " files instead of 8");
    s
}

/// Read one rank of the placement onto `rank` of the board.
fn parse_rank(board: &mut Board, r: &[char], rank: u8, rank_number: u64) -> (res: Result<(), FenError>)
    requires
        old(board).wf(),
        rank < 8,
        forall|f: nat| f < 8 ==> #[trigger] old(board).piece_on(rank as nat * 8 + f) is None,
    ensures
        res is Ok <==> rank_ok(r@),
        res matches Err(e) ==> fen_error_field(e) == FenField::Placement,
        final(board).wf(),
        res is Ok ==> forall|i: nat| #[trigger] final(board).piece_on(i) == if i < 64 && rank_of(i) == rank {
            rank_cells(r@).unwrap()[file_of(i) as int] } else { old(board).piece_on(i) },
        final(board).side() == old(board).side(),
        final(board).rights() == old(board).rights(),
        final(board).ep() == old(board).ep(),
        final(board).halfmove() == old(board).halfmove(),
        final(board).fullmove() == old(board).fullmove(),
{
    let mut file: usize = 0;
    let mut j: usize = 0;
    let ghost mut cells: Seq<Option<Piece>> = Seq::empty();
    assert(r@.take(0) == Seq::<char>::empty());
    while j < r.len()
        invariant
            j <= r@.len(),
            rank < 8,
            file <= 8,
            rank_cells(r@.take(j as int)) == Some(cells),
            cells.len() == file,
            board.wf(),
            forall|f: nat| f < 8 ==> #[trigger] old(board).piece_on(rank as nat * 8 + f) is None,
            forall|i: nat| #[trigger] board.piece_on(i) == if i < 64 && rank_of(i) == rank && file_of(i) < file {
                cells[file_of(i) as int] } else { old(board).piece_on(i) },
            board.side() == old(board).side(),
            board.rights() == old(board).rights(),
            board.ep() == old(board).ep(),
            board.halfmove() == old(board).halfmove(),
            board.fullmove() == old(board).fullmove(),
        decreases r@.len() - j,
    {
        let c = r[j];
        proof {
            assert(r@.take(j as int + 1).drop_last() == r@.take(j as int));
            assert(r@.take(j as int + 1).last() == c);
        }
        if '0' <= c && c <= '9' {
            let d = (c as u32 - 48) as usize;
            if file + d > 8 {
                proof {
                    if rank_cells(r@) is Some {
                        lemma_rank_cells_prefix(r@, j as int + 1);
                    }
                }
                return Err(FenError::InvalidPiecePlacement(rank_width_message(rank_number, (file + d) as u64)));
            }
            proof {
                let added = Seq::new(digit_value(c), |k: int| None::<Piece>);
                let nc = cells + added;
                assert forall|i: nat| #[trigger] board.piece_on(i) == if i < 64 && rank_of(i) == rank && file_of(i) < file + d {
                    nc[file_of(i) as int] } else { old(board).piece_on(i) } by {
                    if i < 64 && rank_of(i) == rank && file <= file_of(i) < file + d {
                        assert(i == rank as nat * 8 + file_of(i));
                    }
                }
                cells = nc;
            }
            file = file + d;
        } else {
            match Piece::from_char(c) {
                None => {
                    proof {
                        if rank_cells(r@) is Some {
                            lemma_rank_cells_prefix(r@, j as int + 1);
                        }
                    }
                    let mut msg = String::new();
                    push_str(&mut msg, "Invalid piece character: ");
                    push_char(&mut msg, c);
                    return Err(FenError::InvalidPiecePlacement(msg));
                },
                Some(p) => {
                    if file >= 8 {
                        proof {
                            if rank_cells(r@) is Some {
                                lemma_rank_cells_prefix(r@, j as int + 1);
                            }
                        }
                        return Err(FenError::InvalidPiecePlacement(message("Too many pieces in rank: ", r)));
                    }
                    let sq = Square::from_coords(file as u8, rank);
                    board.set_piece(sq, p);
                    proof {
                        let nc = cells.push(Some(p));
                        assert forall|i: nat| #[trigger] board.piece_on(i) == if i < 64 && rank_of(i) == rank && file_of(i) < file + 1 {
                            nc[file_of(i) as int] } else { old(board).piece_on(i) } by {
                            if i < 64 && rank_of(i) == rank && file_of(i) == file {
                                assert(i == sq@);
                            }
                        }
                        cells = nc;
                    }
                    file = file + 1;
                },
            }
        }
        j += 1;
    }
    assert(r@.take(r@.len() as int) == r@);
    if file != 8 {
        return Err(FenError::InvalidPiecePlacement(rank_width_message(rank_number, file as u64)));
    }
    Ok(())
}

/// Read the placement field onto an empty board.
fn parse_piece_placement(board: &mut Board, placement: &[char]) -> (res: Result<(), FenError>)
    requires
        old(board).wf(),
        forall|i: nat| #[trigger] old(board).piece_on(i) is None,
    ensures
        res is Ok <==> placement_ok(placement@),
        res matches Err(e) ==> fen_error_field(e) == FenField::Placement,
        final(board).wf(),
        res is Ok ==> forall|i: nat| i < 64 ==> #[trigger] final(board).piece_on(i) == placement_piece(placement@, i),
        final(board).side() == old(board).side(),
        final(board).rights() == old(board).rights(),
        final(board).ep() == old(board).ep(),
        final(board).halfmove() == old(board).halfmove(),
        final(board).fullmove() == old(board).fullmove(),
{
    let ranks = split_on(placement, '/');
    if ranks.len() != 8 {
        let mut msg = String::new();
        push_str(&mut msg, "Expected 8 ranks, got ");
        push_decimal(&mut msg, ranks.len() as u64);
        return Err(FenError::InvalidPiecePlacement(msg));
    }
    let ghost rs = split_at_char(placement@, '/');
    let mut k: usize = 0;
    while k < 8
        invariant
            k <= 8,
            ranks@.len() == 8,
            rs == split_at_char(placement@, '/'),
            views(ranks@) == rs,
            board.wf(),
            forall|kk: int| 0 <= kk < k ==> rank_ok(#[trigger] rs[kk]),
            forall|i: nat| #[trigger] board.piece_on(i) == if i < 64 && 7 - rank_of(i) < k {
                rank_cells(rs[7 - rank_of(i)]).unwrap()[file_of(i) as int] } else { None },
            board.side() == old(board).side(),
            board.rights() == old(board).rights(),
            board.ep() == old(board).ep(),
            board.halfmove() == old(board).halfmove(),
            board.fullmove() == old(board).fullmove(),
        decreases 8 - k,
    {
        let rank = (7 - k) as u8;
        let ghost before = *board;
        proof {
            assert(views(ranks@)[k as int] == ranks@[k as int]@);
            assert forall|f: nat| f < 8 implies #[trigger] board.piece_on(rank as nat * 8 + f) is None by {
                let i = rank as nat * 8 + f;
                assert(rank_of(i) == rank);
            }
        }
        proof {
            assert(rs[k as int] == ranks@[k as int]@);
        }
        let res = parse_rank(board, ranks[k].as_slice(), rank, (k + 1) as u64);
        match res {
            Err(e) => {
                assert(!rank_ok(rs[k as int]));
                proof {
                    let kk: int = k as int;
                    assert(0 <= kk < 8);
                    assert(rs == split_at_char(placement@, '/'));
                    assert(!rank_ok(split_at_char(placement@, '/')[kk]));
                    assert(!placement_ok(placement@));
                }
                return Err(e);
            },
            Ok(()) => {},
        }
        k += 1;
    }
    Ok(())
}

/// Read a FEN string: piece placement, side to move, castling rights, en
/// passant square, halfmove clock and fullmove number, separated by
/// white space. The hash is computed from scratch.
pub fn parse_fen(fen: &str) -> (r: Result<Board, FenError>)
    ensures
        match r {
            Ok(b) => fen_fault(fen@) is None && fen_board(fen@, b),
            Err(e) => fen_fault(fen@) == Some(fen_error_field(e)) && fen_payload_ok(ws_tokens(fen@), e),
        },
{
    let cs = chars_of(fen);
    let parts = split_ws(cs.as_slice());
    parse_fen_fields(&parts)
}

/// Read a position from its FEN fields.
fn parse_fen_fields(parts: &Vec<Vec<char>>) -> (r: Result<Board, FenError>)
    ensures
        match r {
            Ok(b) => fields_fault(views(parts@)) is None && fields_board(views(parts@), b),
            Err(e) => fields_fault(views(parts@)) == Some(fen_error_field(e)) && fen_payload_ok(views(parts@), e),
        },
{
    let ghost p = views(parts@);
    if parts.len() != 6 {
        let mut msg = String::new();
        push_str(&mut msg, "Expected 6 components, got ");
        push_decimal(&mut msg, parts.len() as u64);
        return Err(FenError::InvalidFormat(msg));
    }
    proof {
        assert(forall|k: int| 0 <= k < 6 ==> #[trigger] parts@[k]@ == p[k]) by {
            assert(forall|k: int| 0 <= k < 6 ==> views(parts@)[k] == #[trigger] parts@[k]@);
        }
    }
    let mut board = Board::empty();
    let placement = parts[0].as_slice();
    assert(placement@ == p[0]);
    match parse_piece_placement(&mut board, placement) {
        Err(e) => {
            return Err(e);
        },
        Ok(()) => {},
    }
    assert(forall|i: nat| i < 64 ==> #[trigger] board.piece_on(i) == placement_piece(p[0], i));
    let side = match parse_side(parts[1].as_slice()) {
        Some(c) => c,
        None => {
            return Err(FenError::InvalidSideToMove(string_of(parts[1].as_slice())));
        },
    };
    let ghost pre_set_side_to_move = board;
    board.set_side_to_move(side);
    assert(forall|i: nat| #[trigger] board.piece_on(i) == pre_set_side_to_move.piece_on(i));
    let castling = match parse_castling(parts[2].as_slice()) {
        Ok(c) => c,
        Err(ch) => {
            let mut msg = String::new();
            push_str(&mut msg, "Invalid character: ");
            push_char(&mut msg, ch);
            return Err(FenError::InvalidCastlingRights(msg));
        },
    };
    let ghost pre_set_castling = board;
    board.set_castling(castling);
    assert(forall|i: nat| #[trigger] board.piece_on(i) == pre_set_castling.piece_on(i));
    let ep = match parse_ep(parts[3].as_slice()) {
        Some(e) => e,
        None => {
            return Err(FenError::InvalidEnPassant(string_of(parts[3].as_slice())));
        },
    };
    let ghost pre_set_ep_square = board;
    board.set_ep_square(ep);
    assert(forall|i: nat| #[trigger] board.piece_on(i) == pre_set_ep_square.piece_on(i));
    let halfmove = match parse_u32(parts[4].as_slice()) {
        Some(v) => v,
        None => {
            return Err(FenError::InvalidHalfmoveClock(string_of(parts[4].as_slice())));
        },
    };
    let ghost pre_set_halfmove_clock = board;
    board.set_halfmove_clock(halfmove);
    assert(forall|i: nat| #[trigger] board.piece_on(i) == pre_set_halfmove_clock.piece_on(i));
    let fullmove = match parse_u32(parts[5].as_slice()) {
        Some(v) => v,
        None => {
            return Err(FenError::InvalidFullmoveNumber(string_of(parts[5].as_slice())));
        },
    };
    let ghost pre_set_fullmove_number = board;
    board.set_fullmove_number(fullmove);
    assert(forall|i: nat| #[trigger] board.piece_on(i) == pre_set_fullmove_number.piece_on(i));
    let ghost before_hash = board;
    assert(forall|i: nat| #[trigger] board.piece_on(i) == pre_set_side_to_move.piece_on(i));
    let hash = zobrist_hash(&board);
    board.set_hash(hash);
    assert(forall|i: nat| #[trigger] board.piece_on(i) == before_hash.piece_on(i));
    proof {
        board.lemma_mailbox();
        before_hash.lemma_mailbox();
        assert(board.mailbox() =~= before_hash.mailbox());
        assert(board.wf());
        assert(forall|i: nat| i < 64 ==> #[trigger] board.piece_on(i) == placement_piece(p[0], i));
        assert(board.side() == side_of(p[1]).unwrap());
        assert(board.rights() == castling_of(p[2]).unwrap());
        assert(board.halfmove() == u32_of(p[4]).unwrap());
        assert(board.fullmove() == u32_of(p[5]).unwrap());
        assert(board.hash_value() == full_hash(board));
    }
    Ok(board)
}

/// Whether a string is a FEN that `parse_fen` accepts.
pub fn is_valid_fen(fen: &str) -> (r: bool)
    ensures
        r == (fen_fault(fen@) is None),
{
    match parse_fen(fen) {
        Ok(_) => true,
        Err(_) => false,
    }
}

/// The text of one rank read from file a over the first `f` files, and
/// the number of empty squares not yet written.
pub open spec fn rank_scan(b: Board, rank: nat, f: nat) -> (Seq<char>, nat)
    decreases f,
{
    if f == 0 {
        (Seq::empty(), 0)
    } else {
        let (t, e) = rank_scan(b, rank, (f - 1) as nat);
        match b.piece_on((rank * 8 + (f - 1)) as nat) {
            Some(p) => ((if e > 0 { t + decimal(e) } else { t }).push(piece_char(p)), 0),
            None => (t, e + 1),
        }
    }
}

/// The FEN text of one rank: pieces by letter, runs of empty squares by
/// their count.
pub open spec fn rank_text(b: Board, rank: nat) -> Seq<char> {
    let (t, e) = rank_scan(b, rank, 8);
    if e > 0 { t + decimal(e) } else { t }
}

/// The placement text of the top `k` ranks, from the eighth down, each
/// followed by `/` except the first rank.
pub open spec fn placement_text(b: Board, k: nat) -> Seq<char>
    decreases k,
{
    if k == 0 {
        Seq::empty()
    } else {
        let rank = (8 - k) as nat;
        placement_text(b, (k - 1) as nat) + rank_text(b, rank) + if rank > 0 { seq!['/'] } else { Seq::empty() }
    }
}

/// The castling field: `-` for none, else the letters of the rights held.
pub open spec fn castling_text(c: u8) -> Seq<char> {
    if c == 0 {
        seq!['-']
    } else {
        (if c & 1 != 0 { seq!['K'] } else { Seq::empty() })
            + (if c & 2 != 0 { seq!['Q'] } else { Seq::empty() })
            + (if c & 4 != 0 { seq!['k'] } else { Seq::empty() })
            + (if c & 8 != 0 { seq!['q'] } else { Seq::empty() })
    }
}

/// The FEN text of a position.
pub open spec fn fen_text(b: Board) -> Seq<char> {
    placement_text(b, 8) + seq![' ']
        + seq![if b.side() == Color::White { 'w' } else { 'b' }] + seq![' ']
        + castling_text(b.rights()) + seq![' ']
        + (match b.ep() { Some(e) => algebraic(e@), None => seq!['-'] }) + seq![' ']
        + decimal(b.halfmove() as nat) + seq![' ']
        + decimal(b.fullmove() as nat)
}

/// Append a string to a string.
fn append(s: &mut String, t: &String)
    ensures
        final(s)@ == old(s)@ + t@,
{
    push_str(s, t.as_str());
}

/// Append the FEN text of one rank.
fn push_rank(b: &Board, fen: &mut String, rank: u8)
    requires
        rank < 8,
    ensures
        final(fen)@ == old(fen)@ + rank_text(*b, rank as nat),
{
    let mut empty: u64 = 0;
    let mut file: u8 = 0;
    let ghost mut t: Seq<char> = Seq::empty();
    while file < 8
        invariant
            file <= 8,
            rank < 8,
            empty <= file,
            (t, empty as nat) == rank_scan(*b, rank as nat, file as nat),
            fen@ == old(fen)@ + t,
        decreases 8 - file,
    {
        let sq = Square::from_coords(file, rank);
        match b.piece_at(sq) {
            Some(p) => {
                let ghost before = fen@;
                if empty > 0 {
                    push_decimal(fen, empty);
                }
                push_char(fen, p.to_char());
                proof {
                    let t2 = (if empty > 0 { t + decimal(empty as nat) } else { t }).push(piece_char(p));
                    assert(fen@ =~= old(fen)@ + t2);
                    t = t2;
                }
                empty = 0;
            },
            None => {
                empty = empty + 1;
            },
        }
        file += 1;
    }
    if empty > 0 {
        push_decimal(fen, empty);
        assert(fen@ =~= old(fen)@ + (t + decimal(empty as nat)));
    }
}

/// Append the placement field.
fn push_placement(b: &Board, fen: &mut String)
    ensures
        final(fen)@ == old(fen)@ + placement_text(*b, 8),
{
    let mut k: u8 = 0;
    while k < 8
        invariant
            k <= 8,
            fen@ == old(fen)@ + placement_text(*b, k as nat),
        decreases 8 - k,
    {
        let rank = 7 - k;
        push_rank(b, fen, rank);
        if rank > 0 {
            push_char(fen, '/');
        }
        proof {
            assert(fen@ =~= old(fen)@ + placement_text(*b, (k + 1) as nat));
        }
        k += 1;
    }
}

/// Append the castling field.
pub(crate) fn push_castling(fen: &mut String, castling: CastlingRights)
    ensures
        final(fen)@ == old(fen)@ + castling_text(castling@),
{
    if castling.bits() == 0 {
        push_char(fen, '-');
    } else {
        let ghost s0 = fen@;
        if castling.white_kingside() {
            push_char(fen, 'K');
        }
        let ghost s1 = fen@;
        if castling.white_queenside() {
            push_char(fen, 'Q');
        }
        let ghost s2 = fen@;
        if castling.black_kingside() {
            push_char(fen, 'k');
        }
        let ghost s3 = fen@;
        if castling.black_queenside() {
            push_char(fen, 'q');
        }
        let ghost c = castling@;
        assert(s1 =~= s0 + (if c & 1 != 0 { seq!['K'] } else { Seq::empty() }));
        assert(s2 =~= s1 + (if c & 2 != 0 { seq!['Q'] } else { Seq::empty() }));
        assert(s3 =~= s2 + (if c & 4 != 0 { seq!['k'] } else { Seq::empty() }));
        assert(fen@ =~= s3 + (if c & 8 != 0 { seq!['q'] } else { Seq::empty() }));
        assert(fen@ =~= old(fen)@ + castling_text(c));
    }
}

/// Conversion of a position to FEN text.
pub trait ToFen {
    /// The FEN text of the position.
    fn to_fen(&self) -> String;
}

impl ToFen for Board {
    /// The FEN text: placement from the eighth rank down, side to move,
    /// castling rights, en passant square, halfmove clock, fullmove number.
    fn to_fen(&self) -> (r: String)
        ensures
            r@ == fen_text(*self),
    {
        let mut fen = String::new();
        push_placement(self, &mut fen);
        let ghost s0 = fen@;
        push_char(&mut fen, ' ');
        let side_char = match self.side_to_move() {
            Color::White => 'w',
            Color::Black => 'b',
        };
        push_char(&mut fen, side_char);
        push_char(&mut fen, ' ');
        let ghost s1 = fen@;
        push_castling(&mut fen, self.castling());
        push_char(&mut fen, ' ');
        let ghost s2 = fen@;
        match self.ep_square() {
            Some(ep) => {
                let text = ep.to_algebraic();
                append(&mut fen, &text);
            },
            None => {
                push_char(&mut fen, '-');
            },
        }
        let ghost s3 = fen@;
        push_char(&mut fen, ' ');
        push_decimal(&mut fen, self.halfmove_clock() as u64);
        push_char(&mut fen, ' ');
        push_decimal(&mut fen, self.fullmove_number() as u64);
        proof {
            let ep_text = match self.ep() { Some(e) => algebraic(e@), None => seq!['-'] };
            assert(s3 =~= s2 + ep_text);
            assert(s1 =~= s0 + seq![' '] + seq![if self.side() == Color::White { 'w' } else { 'b' }] + seq![' ']);
            assert(fen@ =~= fen_text(*self));
        }
        fen
    }
}

/// The text describing a FEN error.
pub open spec fn fen_error_text(e: FenError) -> Seq<char> {
    match e {
        FenError::InvalidFormat(d) => "Invalid FEN format: "@ + d@,
        FenError::InvalidPiecePlacement(d) => "Invalid piece placement: "@ + d@,
        FenError::InvalidSideToMove(d) => "Invalid side to move: "@ + d@,
        FenError::InvalidCastlingRights(d) => "Invalid castling rights: "@ + d@,
        FenError::InvalidEnPassant(d) => "Invalid en passant square: "@ + d@,
        FenError::InvalidHalfmoveClock(d) => "Invalid halfmove clock: "@ + d@,
        FenError::InvalidFullmoveNumber(d) => "Invalid fullmove number: "@ + d@,
    }
}

impl FenError {
    /// A description of the error.
    pub fn describe(&self) -> (r: String)
        ensures
            r@ == fen_error_text(*self),
    {
        let (prefix, detail) = match self {
            FenError::InvalidFormat(d) => ("Invalid FEN format: ", d),
            FenError::InvalidPiecePlacement(d) => ("Invalid piece placement: ", d),
            FenError::InvalidSideToMove(d) => ("Invalid side to move: ", d),
            FenError::InvalidCastlingRights(d) => ("Invalid castling rights: ", d),
            FenError::InvalidEnPassant(d) => ("Invalid en passant square: ", d),
            FenError::InvalidHalfmoveClock(d) => ("Invalid halfmove clock: ", d),
            FenError::InvalidFullmoveNumber(d) => ("Invalid fullmove number: ", d),
        };
        let mut s = String::new();
        push_str(&mut s, prefix);
        push_str(&mut s, detail.as_str());
        s
    }
}

/// A test position: a board, the acceptable best moves, an identifier and
/// an optional comment.
#[derive(Debug, Clone)]
pub struct EpdTestPosition {
    /// The position.
    pub board: Board,
    /// The acceptable best moves as written.
    pub best_moves: Vec<String>,
    /// The identifier (empty when none is given).
    pub id: String,
    /// The last comment given, if any.
    pub comment: Option<String>,
}

/// Why an EPD line was refused.
#[derive(Debug, Clone, PartialEq, Eq)]
pub enum EpdError {
    /// The position fields are not a valid FEN; with the FEN error's text.
    InvalidFen(String),
    /// No best move is given.
    MissingBestMoves,
    /// The line is empty or too short.
    InvalidFormat(String),
    /// A best move is not possible in the position.
    IllegalMove(String),
}

impl EpdError {
    /// A description of the error.
    pub fn describe(&self) -> (r: String)
        ensures
            r@ == epd_error_text(*self),
    {
        let mut s = String::new();
        match self {
            EpdError::InvalidFen(d) => {
                push_str(&mut s, "Invalid FEN in EPD: ");
                push_str(&mut s, d.as_str());
            },
            EpdError::MissingBestMoves => {
                push_str(&mut s, "EPD missing best move (bm) operation");
            },
            EpdError::InvalidFormat(d) => {
                push_str(&mut s, "Invalid EPD format: ");
                push_str(&mut s, d.as_str());
            },
            EpdError::IllegalMove(d) => {
                push_str(&mut s, "Best move is not legal: ");
                push_str(&mut s, d.as_str());
            },
        }
        s
    }
}

/// The text describing an EPD error.
pub open spec fn epd_error_text(e: EpdError) -> Seq<char> {
    match e {
        EpdError::InvalidFen(d) => "Invalid FEN in EPD: "@ + d@,
        EpdError::MissingBestMoves => "EPD missing best move (bm) operation"@,
        EpdError::InvalidFormat(d) => "Invalid EPD format: "@ + d@,
        EpdError::IllegalMove(d) => "Best move is not legal: "@ + d@,
    }
}

/// The non-empty pieces of a list.
pub open spec fn keep_nonempty(s: Seq<Seq<char>>) -> Seq<Seq<char>>
    decreases s.len(),
{
    if s.len() == 0 {
        Seq::empty()
    } else {
        keep_nonempty(s.drop_last()) + if s.last().len() > 0 { seq![s.last()] } else { Seq::empty() }
    }
}

/// The FEN fields of an EPD line's tokens: the first four without trailing
/// semicolons (empty ones dropped), with clocks `0` and `1`.
pub open spec fn epd_fen_fields(toks: Seq<Seq<char>>) -> Seq<Seq<char>> {
    keep_nonempty(seq![strip_end(toks[0], ';'), strip_end(toks[1], ';'), strip_end(toks[2], ';'), strip_end(toks[3], ';')])
        + seq![seq!['0'], seq!['1']]
}

/// The best moves named by the values of a `bm` operation, quotes and
/// commas trimmed, empty ones dropped.
pub open spec fn bm_values(vals: Seq<Seq<char>>) -> Seq<Seq<char>>
    decreases vals.len(),
{
    if vals.len() == 0 {
        Seq::empty()
    } else {
        let m = trimmed(trimmed(vals.last(), Some('"')), Some(','));
        bm_values(vals.drop_last()) + if m.len() > 0 { seq![m] } else { Seq::empty() }
    }
}

/// Whether an operation name is a comment (`c0` to `c9`).
pub open spec fn is_comment_name(n: Seq<char>) -> bool {
    n.len() == 2 && n[0] == 'c' && '0' <= n[1] <= '9'
}

/// What one operation adds to the best moves, identifier and comment read
/// so far; unknown operations change nothing.
pub open spec fn op_step(st: (Seq<Seq<char>>, Seq<char>, Option<Seq<char>>), op: Seq<char>)
    -> (Seq<Seq<char>>, Seq<char>, Option<Seq<char>>) {
    let t = ws_tokens(trimmed(op, None));
    if t.len() == 0 {
        st
    } else {
        let name = t[0];
        let vals = t.subrange(1, t.len() as int);
        if name == seq!['b', 'm'] {
            (st.0 + bm_values(vals), st.1, st.2)
        } else if name == seq!['i', 'd'] {
            (st.0, trimmed(joined(vals), Some('"')), st.2)
        } else if is_comment_name(name) {
            (st.0, st.1, Some(trimmed(joined(vals), Some('"'))))
        } else {
            st
        }
    }
}

/// The state after the first `n` operations.
pub open spec fn ops_scan(ops: Seq<Seq<char>>, n: nat) -> (Seq<Seq<char>>, Seq<char>, Option<Seq<char>>)
    decreases n,
{
    if n == 0 || n > ops.len() {
        (Seq::empty(), Seq::empty(), None)
    } else {
        op_step(ops_scan(ops, (n - 1) as nat), ops[n - 1])
    }
}

/// The operations of an EPD line: what follows its first four tokens,
/// rejoined and split at semicolons.
pub open spec fn epd_ops(toks: Seq<Seq<char>>) -> Seq<Seq<char>> {
    split_at_char(joined(toks.subrange(4, toks.len() as int)), ';')
}

/// The best moves, identifier and comment of an EPD line's tokens.
pub open spec fn epd_fields(toks: Seq<Seq<char>>) -> (Seq<Seq<char>>, Seq<char>, Option<Seq<char>>) {
    let ops = epd_ops(toks);
    ops_scan(ops, ops.len())
}

/// Why an EPD line is refused, if it is: an empty line or fewer than four
/// tokens, then a bad FEN, then no best move.
pub enum EpdFault {
    Format,
    Fen(FenField),
    NoBestMove,
}

/// The fault of an EPD line, if any.
pub open spec fn epd_fault(line: Seq<char>) -> Option<EpdFault> {
    let toks = ws_tokens(trimmed(line, None));
    if trimmed(line, None).len() == 0 || toks.len() < 4 {
        Some(EpdFault::Format)
    } else if fields_fault(epd_fen_fields(toks)) is Some {
        Some(EpdFault::Fen(fields_fault(epd_fen_fields(toks)).unwrap()))
    } else if epd_fields(toks).0.len() == 0 {
        Some(EpdFault::NoBestMove)
    } else {
        None
    }
}

/// Strip trailing semicolons from the first four tokens and keep the
/// non-empty ones, then add the clocks.
fn epd_fen_parts(toks: &Vec<Vec<char>>) -> (r: Vec<Vec<char>>)
    requires
        toks@.len() >= 4,
    ensures
        views(r@) == epd_fen_fields(views(toks@)),
{
    let ghost tv = views(toks@);
    let ghost four = seq![strip_end(tv[0], ';'), strip_end(tv[1], ';'), strip_end(tv[2], ';'), strip_end(tv[3], ';')];
    let mut out: Vec<Vec<char>> = Vec::new();
    let mut k: usize = 0;
    while k < 4
        invariant
            k <= 4,
            toks@.len() >= 4,
            tv == views(toks@),
            four == seq![strip_end(tv[0], ';'), strip_end(tv[1], ';'), strip_end(tv[2], ';'), strip_end(tv[3], ';')],
            views(out@) == keep_nonempty(four.take(k as int)),
        decreases 4 - k,
    {
        let t = strip_end_char(toks[k].as_slice(), ';');
        let ghost before = out@;
        proof {
            assert(tv[k as int] == toks@[k as int]@);
            assert(four.take(k as int + 1).drop_last() == four.take(k as int));
            assert(four.take(k as int + 1).last() == t@);
        }
        if t.len() > 0 {
            out.push(t);
            assert(views(out@) =~= views(before) + seq![t@]);
        } else {
            assert(views(out@) =~= views(before) + Seq::<Seq<char>>::empty());
        }
        k += 1;
    }
    let ghost before = out@;
    let mut zero: Vec<char> = Vec::new();
    zero.push('0');
    let mut one: Vec<char> = Vec::new();
    one.push('1');
    assert(zero@ == seq!['0']);
    assert(one@ == seq!['1']);
    out.push(zero);
    out.push(one);
    proof {
        assert(four.take(4) == four);
        assert(views(out@) =~= views(before) + seq![seq!['0'], seq!['1']]);
    }
    out
}

/// Read the best-move values of a `bm` operation.
fn push_bm_values(best: &mut Vec<String>, vals: &Vec<Vec<char>>, from: usize)
    requires
        from <= vals@.len(),
    ensures
        string_views(final(best)@) == string_views(old(best)@) + bm_values(views(vals@).subrange(from as int, vals@.len() as int)),
{
    let mut i = from;
    while i < vals.len()
        invariant
            from <= i <= vals@.len(),
            string_views(best@) == string_views(old(best)@) + bm_values(views(vals@).subrange(from as int, i as int)),
        decreases vals@.len() - i,
    {
        let unquoted = trim_chars(vals[i].as_slice(), Some('"'));
        let m = trim_chars(unquoted.as_slice(), Some(','));
        let ghost before = best@;
        proof {
            let sub = views(vals@).subrange(from as int, i as int + 1);
            assert(sub.drop_last() == views(vals@).subrange(from as int, i as int));
            assert(sub.last() == vals@[i as int]@);
        }
        if m.len() > 0 {
            let text = string_of(m.as_slice());
            best.push(text);
            assert(string_views(best@) =~= string_views(before) + seq![m@]);
        } else {
            assert(seq![m@].len() == 1);
        }
        i += 1;
    }
}

/// What parsing the EPD line `line` gives: on success the position its
/// fields describe, else the error of its first fault.
pub open spec fn epd_parsed(line: Seq<char>, r: Result<EpdTestPosition, EpdError>) -> bool {
    match r {
        Ok(pos) => {
            let toks = ws_tokens(trimmed(line, None));
            &&& epd_fault(line) is None
            &&& fields_board(epd_fen_fields(toks), pos.board)
            &&& string_views(pos.best_moves@) == epd_fields(toks).0
            &&& pos.id@ == epd_fields(toks).1
            &&& (match epd_fields(toks).2 { Some(c) => pos.comment matches Some(s) && s@ == c, None => pos.comment is None })
        },
        Err(EpdError::InvalidFormat(_)) => epd_fault(line) == Some(EpdFault::Format),
        Err(EpdError::InvalidFen(_)) => epd_fault(line) matches Some(EpdFault::Fen(_)),
        Err(EpdError::MissingBestMoves) => epd_fault(line) == Some(EpdFault::NoBestMove),
        Err(EpdError::IllegalMove(_)) => false,
    }
}

/// Parse an EPD line: a position given by its first four FEN fields, then
/// operations separated by semicolons (`bm` best moves, `id`, comments
/// `c0`-`c9`; others ignored).
pub fn parse_epd(epd_line: &str) -> (r: Result<EpdTestPosition, EpdError>)
    ensures
        epd_parsed(epd_line@, r),
{
    let all = chars_of(epd_line);
    let line = trim_chars(all.as_slice(), None);
    if line.len() == 0 {
        let mut msg = String::new();
        push_str(&mut msg, "Empty EPD line");
        return Err(EpdError::InvalidFormat(msg));
    }
    let tokens = split_ws(line.as_slice());
    if tokens.len() < 4 {
        let mut msg = String::new();
        push_str(&mut msg, "EPD requires at least 4 FEN fields, got ");
        push_decimal(&mut msg, tokens.len() as u64);
        return Err(EpdError::InvalidFormat(msg));
    }
    let fen_parts = epd_fen_parts(&tokens);
    let board = match parse_fen_fields(&fen_parts) {
        Ok(b) => b,
        Err(e) => {
            return Err(EpdError::InvalidFen(e.describe()));
        },
    };
    let rest = join_from(&tokens, 4);
    let operations = split_on(rest.as_slice(), ';');
    let ghost ops = views(operations@);
    let mut best_moves: Vec<String> = Vec::new();
    let mut id: Vec<char> = Vec::new();
    let mut comment: Option<Vec<char>> = None;
    let mut k: usize = 0;
    while k < operations.len()
        invariant
            k <= operations@.len(),
            ops == views(operations@),
            (string_views(best_moves@), id@, match comment { Some(c) => Some(c@), None => None::<Seq<char>> }) == ops_scan(ops, k as nat),
        decreases operations@.len() - k,
    {
        let op = trim_chars(operations[k].as_slice(), None);
        let op_tokens = split_ws(op.as_slice());
        proof {
            assert(ops[k as int] == operations@[k as int]@);
        }
        if op_tokens.len() > 0 {
            let name = &op_tokens[0];
            let ghost vals = views(op_tokens@).subrange(1, op_tokens@.len() as int);
            proof {
                assert(views(op_tokens@)[0] == name@);
            }
            if name.len() == 2 && name[0] == 'b' && name[1] == 'm' {
                assert(name@ == seq!['b', 'm']);
                push_bm_values(&mut best_moves, &op_tokens, 1);
            } else if name.len() == 2 && name[0] == 'i' && name[1] == 'd' {
                assert(name@ == seq!['i', 'd']);
                assert(name@ != seq!['b', 'm']);
                let joined_vals = join_from(&op_tokens, 1);
                id = trim_chars(joined_vals.as_slice(), Some('"'));
            } else if name.len() == 2 && name[0] == 'c' && '0' <= name[1] && name[1] <= '9' {
                assert(name@ != seq!['b', 'm']);
                assert(name@ != seq!['i', 'd']);
                let joined_vals = join_from(&op_tokens, 1);
                comment = Some(trim_chars(joined_vals.as_slice(), Some('"')));
            } else {
                proof {
                    if name@ == seq!['b', 'm'] { assert(name@[0] == 'b'); }
                    if name@ == seq!['i', 'd'] { assert(name@[0] == 'i'); }
                }
            }
        }
        k += 1;
    }
    if best_moves.len() == 0 {
        assert(string_views(best_moves@).len() == 0);
        return Err(EpdError::MissingBestMoves);
    }
    let comment_text = match comment {
        Some(c) => Some(string_of(c.as_slice())),
        None => None,
    };
    Ok(EpdTestPosition {
        board,
        best_moves,
        id: string_of(id.as_slice()),
        comment: comment_text,
    })
}

/// Whether a character is a check, mate or annotation mark.
pub open spec fn is_mark(c: char) -> bool {
    c == '+' || c == '#' || c == '!' || c == '?'
}

/// The number of trailing marks of a move text.
pub open spec fn trail_marks(s: Seq<char>) -> nat
    decreases s.len(),
{
    if s.len() > 0 && is_mark(s.last()) { 1 + trail_marks(s.drop_last()) } else { 0 }
}

/// Whether `s` ends with `t`.
pub open spec fn ends_with(s: Seq<char>, t: Seq<char>) -> bool {
    s.len() >= t.len() && s.subrange(s.len() - t.len(), s.len() as int) == t
}

/// A best-move text names move `m` when it is the move's UCI text, with
/// or without trailing marks, or when it ends (ignoring ASCII case) with
/// the move's destination square.
pub open spec fn names_move(text: Seq<char>, m: Move) -> bool {
    let uci = uci_text(m@);
    ||| uci == text
    ||| uci == text.take(text.len() - trail_marks(text))
    ||| ends_with(text.map_values(|c: char| lower(c)), algebraic(mv_to(m@)))
}

/// Some pseudo-legal move of the position is named by `text`.
pub open spec fn names_some_move(b: Board, text: Seq<char>) -> bool {
    exists|m: Move| pseudo_legal(b, m) && names_move(text, m)
}

/// Whether a best-move text names a move of a list.
fn names_any(text: &[char], moves: &crate::movelist::MoveList) -> (r: bool)
    ensures
        r == exists|k: int| 0 <= k < moves@.len() && names_move(text@, #[trigger] moves@[k]),
{
    let n = text.len();
    let mut b: usize = n;
    assert(text@.take(n as int) == text@);
    while b > 0 && (text[b - 1] == '+' || text[b - 1] == '#' || text[b - 1] == '!' || text[b - 1] == '?')
        invariant
            b <= n,
            n == text@.len(),
            trail_marks(text@) == (n - b) + trail_marks(text@.take(b as int)),
        decreases b,
    {
        proof {
            let t = text@.take(b as int);
            assert(t.drop_last() == text@.take(b as int - 1));
        }
        b -= 1;
    }
    proof {
        let t = text@.take(b as int);
        if b > 0 {
            assert(t.last() == text@[b as int - 1]);
        }
        assert(trail_marks(t) == 0);
    }
    let mut stripped: Vec<char> = Vec::new();
    let mut q: usize = 0;
    while q < b
        invariant
            q <= b <= n,
            n == text@.len(),
            stripped@ == text@.take(q as int),
        decreases b - q,
    {
        stripped.push(text[q]);
        assert(text@.take(q as int + 1) =~= text@.take(q as int).push(text@[q as int]));
        q += 1;
    }
    let mut lowered: Vec<char> = Vec::new();
    let mut i: usize = 0;
    while i < n
        invariant
            i <= n,
            n == text@.len(),
            lowered@ == text@.take(i as int).map_values(|c: char| lower(c)),
        decreases n - i,
    {
        lowered.push(ascii_lower(text[i]));
        assert(text@.take(i as int + 1).map_values(|c: char| lower(c)) =~= text@.take(i as int).map_values(|c: char| lower(c)).push(lower(text@[i as int])));
        i += 1;
    }
    assert(text@.take(n as int) == text@);
    let mut k: usize = 0;
    while k < moves.len()
        invariant
            k <= moves@.len(),
            stripped@ == text@.take(text@.len() - trail_marks(text@)),
            lowered@ == text@.map_values(|c: char| lower(c)),
            forall|j: int| 0 <= j < k ==> !names_move(text@, #[trigger] moves@[j]),
        decreases moves@.len() - k,
    {
        let m = moves.get(k);
        let uci_string = m.to_uci();
        let uci = chars_of(uci_string.as_str());
        if chars_eq(uci.as_slice(), text) || chars_eq(uci.as_slice(), stripped.as_slice()) {
            return true;
        }
        let dest = m.to().to_algebraic();
        let d = chars_of(dest.as_str());
        let ln = lowered.len();
        if ln >= 2 && lowered[ln - 2] == d[0] && lowered[ln - 1] == d[1] {
            proof {
                assert(lowered@.subrange(ln - 2, ln as int) =~= algebraic(mv_to(m@)));
            }
            return true;
        }
        proof {
            if ln >= 2 {
                assert(!(lowered@.subrange(ln - 2, ln as int) == algebraic(mv_to(m@)))) by {
                    if lowered@.subrange(ln - 2, ln as int) == algebraic(mv_to(m@)) {
                        assert(lowered@.subrange(ln - 2, ln as int)[0] == lowered@[ln - 2]);
                    }
                }
            }
        }
        k += 1;
    }
    false
}

/// Whether a line of an EPD file holds a position: it is not blank and,
/// leading whitespace aside, does not start with `#`.
pub open spec fn epd_entry_line(line: Seq<char>) -> bool {
    trimmed(line, None).len() > 0 && trimmed(line, None)[0] != '#'
}

/// One line of an EPD file: `None` for a blank line or a comment, else what
/// parsing it gives.
pub fn parse_epd_entry(line: &str) -> (r: Option<Result<EpdTestPosition, EpdError>>)
    ensures
        r is None <==> !epd_entry_line(line@),
        r matches Some(res) ==> epd_parsed(line@, res),
{
    let all = chars_of(line);
    let t = trim_chars(all.as_slice(), None);
    if t.len() == 0 || t[0] == '#' {
        None
    } else {
        Some(parse_epd(line))
    }
}

/// The first best move that names no pseudo-legal move of the position,
/// or `None` when every best move names one.
pub fn validate_epd_moves(epd: &EpdTestPosition) -> (r: Option<String>)
    requires
        epd.board.wf(),
    ensures
        match r {
            None => forall|i: int| 0 <= i < epd.best_moves@.len() ==> names_some_move(epd.board, #[trigger] epd.best_moves@[i]@),
            Some(s) => exists|i: int| 0 <= i < epd.best_moves@.len() && s@ == (#[trigger] epd.best_moves@[i])@
                && !names_some_move(epd.board, s@)
                && forall|j: int| 0 <= j < i ==> names_some_move(epd.board, #[trigger] epd.best_moves@[j]@),
        },
{
    let moves = generate_moves(&epd.board);
    let mut i: usize = 0;
    while i < epd.best_moves.len()
        invariant
            i <= epd.best_moves@.len(),
            forall|m: Move| #[trigger] moves@.contains(m) <==> pseudo_legal(epd.board, m),
            forall|j: int| 0 <= j < i ==> names_some_move(epd.board, #[trigger] epd.best_moves@[j]@),
        decreases epd.best_moves@.len() - i,
    {
        let text = chars_of(epd.best_moves[i].as_str());
        if !names_any(text.as_slice(), &moves) {
            proof {
                assert forall|m: Move| pseudo_legal(epd.board, m) implies !names_move(text@, m) by {
                    assert(moves@.contains(m));
                    let k = choose|k: int| 0 <= k < moves@.len() && moves@[k] == m;
                }
            }
            return Some(epd.best_moves[i].clone());
        }
        proof {
            let k = choose|k: int| 0 <= k < moves@.len() && names_move(text@, #[trigger] moves@[k]);
            assert(moves@.contains(moves@[k]));
        }
        i += 1;
    }
    None
}

} // verus!
