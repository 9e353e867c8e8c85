//! The UCI (Universal Chess Interface) protocol: commands in, responses
//! out.
use vstd::prelude::*;
use crate::board::Board;
use crate::chess_move::{Move, mv_from, mv_to, mv_code, uci_text, promo_kind};
use crate::io::{parse_fen, digits_value, unsigned_digits, is_digit};
use crate::perft::{legal_move, board_after, lemma_board_after};
use crate::piece::{Color, PieceType};
use crate::search::advanced::{Searcher, SearchResult, RootStep, root_outcome};
use crate::search::line::{searchable, legal_line, line_end, lemma_line_push, has_legal_move};
use crate::movegen::lemma_pseudo_legal_makeable;
use crate::square::Square;
use crate::text::{chars_of, chars_eq, split_ws, views, joined, push_str, push_char, string_of};
use crate::time::{TimeControl, time_control_fits, own_clock, allocation_fits, base_allocation, safety_margin};

verus! {

/// Options a GUI can set.
#[derive(Debug, Clone, Copy)]
pub struct UciOptions {
    /// Transposition table size in megabytes.
    pub hash_size_mb: usize,
    /// Search threads.
    pub threads: usize,
    /// Principal variations to report.
    pub multi_pv: usize,
}

impl Default for UciOptions {
    fn default() -> (r: UciOptions)
        ensures
            r.hash_size_mb == 64 && r.threads == 1 && r.multi_pv == 1,
    {
        UciOptions { hash_size_mb: 64, threads: 1, multi_pv: 1 }
    }
}

/// A number as `str::parse` reads an unsigned integer type whose largest
/// value is `max`: an optional `+`, then at least one digit, with a value
/// that fits.
pub open spec fn unsigned_of(t: Seq<char>, max: nat) -> Option<nat> {
    let d = unsigned_digits(t);
    if d.len() > 0 && (forall|i: int| 0 <= i < d.len() ==> is_digit(#[trigger] d[i])) && digits_value(d) <= max {
        Some(digits_value(d))
    } else {
        None
    }
}

proof fn lemma_digits_prefix(d: Seq<char>, k: int)
    requires
        0 <= k <= d.len(),
    ensures
        digits_value(d.take(k)) <= digits_value(d),
    decreases d.len(),
{
    if k < d.len() {
        assert(d.drop_last().take(k) == d.take(k));
        lemma_digits_prefix(d.drop_last(), k);
    } else {
        assert(d.take(k) == d);
    }
}

/// Read an unsigned number of at most `max` (see `unsigned_of`).
pub fn parse_bounded(t: &[char], max: u64) -> (r: Option<u64>)
    ensures
        r matches Some(v) ==> unsigned_of(t@, max as nat) == Some(v as nat),
        r is None ==> unsigned_of(t@, max as nat) is None,
{
    let plus = t.len() > 0 && t[0] == '+';
    let start: usize = if plus { 1 } else { 0 };
    let ghost d = unsigned_digits(t@);
    assert(d == t@.subrange(start as int, t@.len() as int));
    if start == t.len() {
        return None;
    }
    let mut acc: u128 = 0;
    let mut i = start;
    while i < t.len()
        invariant
            start <= i <= t@.len(),
            d == t@.subrange(start as int, t@.len() as int),
            d == unsigned_digits(t@),
            forall|k: int| 0 <= k < i - start ==> is_digit(#[trigger] d[k]),
            acc == digits_value(d.take(i - start)),
            acc <= max,
        decreases t@.len() - i,
    {
        let c = t[i];
        if !('0' <= c && c <= '9') {
            proof {
                let k: int = i - start;
                assert(d[k] == c);
                assert(!is_digit(d[k]));
            }
            return None;
        }
        let v = (c as u32 - 48) as u128;
        proof {
            let k = i - start;
            assert(d.take(k + 1).drop_last() == d.take(k));
            assert(d.take(k + 1).last() == c);
        }
        acc = acc * 10 + v;
        if acc > max as u128 {
            proof {
                lemma_digits_prefix(d, i - start + 1);
            }
            return None;
        }
        i += 1;
    }
    assert(d.take(d.len() as int) == d);
    Some(acc as u64)
}

/// The values a `go` command sets, each from the word after its keyword.
#[derive(Debug, Clone, Copy, PartialEq, Eq, Structural)]
pub struct GoParams {
    pub wtime: Option<u64>,
    pub btime: Option<u64>,
    pub winc: Option<u64>,
    pub binc: Option<u64>,
    pub movestogo: Option<u32>,
    pub movetime: Option<u64>,
    pub depth: Option<u32>,
    pub nodes: Option<u64>,
}

/// The `u64` the word at `i` holds, if there is such a word and it reads.
pub open spec fn u64_at(args: Seq<Seq<char>>, i: int) -> Option<u64> {
    if 0 <= i < args.len() {
        match unsigned_of(args[i], u64::MAX as nat) { Some(v) => Some(v as u64), None => None }
    } else {
        None
    }
}

/// The `u32` the word at `i` holds, if there is such a word and it reads.
pub open spec fn u32_at(args: Seq<Seq<char>>, i: int) -> Option<u32> {
    if 0 <= i < args.len() {
        match unsigned_of(args[i], u32::MAX as nat) { Some(v) => Some(v as u32), None => None }
    } else {
        None
    }
}

/// The index after the keyword at `i` and its value word (at most the
/// end), and the values with the keyword's value set from that word; any
/// other word is skipped alone.
pub open spec fn go_next(args: Seq<Seq<char>>, i: int, p: GoParams) -> (int, GoParams) {
    let w = args[i];
    let j = if i + 2 <= args.len() { i + 2 } else { args.len() as int };
    if w == "movetime"@ {
        (j, GoParams { movetime: u64_at(args, i + 1), ..p })
    } else if w == "depth"@ {
        (j, GoParams { depth: u32_at(args, i + 1), ..p })
    } else if w == "nodes"@ {
        (j, GoParams { nodes: u64_at(args, i + 1), ..p })
    } else if w == "wtime"@ {
        (j, GoParams { wtime: u64_at(args, i + 1), ..p })
    } else if w == "btime"@ {
        (j, GoParams { btime: u64_at(args, i + 1), ..p })
    } else if w == "winc"@ {
        (j, GoParams { winc: u64_at(args, i + 1), ..p })
    } else if w == "binc"@ {
        (j, GoParams { binc: u64_at(args, i + 1), ..p })
    } else if w == "movestogo"@ {
        (j, GoParams { movestogo: u32_at(args, i + 1), ..p })
    } else {
        (i + 1, p)
    }
}

/// Scan the arguments of `go` from `i`: a keyword sets its value from the
/// next word (or clears it when that does not read) and skips both; other
/// words are skipped; `infinite` ends the scan (`None`).
pub open spec fn go_scan(args: Seq<Seq<char>>, i: int, p: GoParams) -> Option<GoParams>
    decreases args.len() - i,
{
    if i >= args.len() || i < 0 {
        Some(p)
    } else if args[i] == "infinite"@ {
        None
    } else {
        let (j, q) = go_next(args, i, p);
        if j > i {
            go_scan(args, j, q)
        } else {
            Some(q)
        }
    }
}

/// No value set.
pub open spec fn no_params() -> GoParams {
    GoParams { wtime: None, btime: None, winc: None, binc: None, movestogo: None, movetime: None, depth: None, nodes: None }
}

/// The time control of a `go` command's arguments: infinite when
/// `infinite` appears; else a move time, a depth, a node count or a clock
/// (black's time defaulting to white's, increments to zero), the first of
/// these that is set; infinite when none is.
pub open spec fn time_control_of(args: Seq<Seq<char>>) -> TimeControl {
    match go_scan(args, 0, no_params()) {
        None => TimeControl::Infinite,
        Some(p) => {
            if p.movetime is Some {
                TimeControl::MoveTime { millis: p.movetime.unwrap() }
            } else if p.depth is Some {
                TimeControl::Depth { depth: p.depth.unwrap() }
            } else if p.nodes is Some {
                TimeControl::Nodes { nodes: p.nodes.unwrap() }
            } else if p.wtime is Some {
                let wt = p.wtime.unwrap();
                TimeControl::Clock {
                    wtime: wt,
                    btime: if p.btime is Some { p.btime.unwrap() } else { wt },
                    winc: if p.winc is Some { p.winc.unwrap() } else { 0 },
                    binc: if p.binc is Some { p.binc.unwrap() } else { 0 },
                    movestogo: p.movestogo,
                }
            } else {
                TimeControl::Infinite
            }
        },
    }
}

/// Whether a word is the given literal.
fn word_is(w: &Vec<char>, lit: &str) -> (r: bool)
    ensures
        r == (w@ == lit@),
{
    let l = chars_of(lit);
    chars_eq(w.as_slice(), l.as_slice())
}

/// The `u64` the word at `i` holds.
fn u64_word(args: &Vec<Vec<char>>, i: usize) -> (r: Option<u64>)
    ensures
        r == u64_at(views(args@), i as int),
{
    if i < args.len() {
        let v = parse_bounded(args[i].as_slice(), u64::MAX);
        proof {
            assert(views(args@)[i as int] == args@[i as int]@);
        }
        v
    } else {
        None
    }
}

/// The `u32` the word at `i` holds.
fn u32_word(args: &Vec<Vec<char>>, i: usize) -> (r: Option<u32>)
    ensures
        r == u32_at(views(args@), i as int),
{
    if i < args.len() {
        proof {
            assert(views(args@)[i as int] == args@[i as int]@);
        }
        match parse_bounded(args[i].as_slice(), 0xFFFF_FFFF) {
            Some(v) => Some(v as u32),
            None => None,
        }
    } else {
        None
    }
}

/// The index after a keyword at `i` and its value word: `i + 2`, or the
/// end when that passes it.
fn skip_value(i: usize, len: usize) -> (r: usize)
    requires
        i < len,
    ensures
        r == if i + 2 <= len { i + 2 } else { len as int },
        r > i,
        r <= len,
{
    if i + 1 < len { i + 2 } else { len }
}

/// One step of the scan (see `go_next`).
fn go_next_exec(args: &Vec<Vec<char>>, i: usize, p: GoParams) -> (r: (usize, GoParams))
    requires
        i < args@.len(),
    ensures
        (r.0 as int, r.1) == go_next(views(args@), i as int, p),
        i < r.0 <= args@.len(),
{
    proof {
        assert(views(args@)[i as int] == args@[i as int]@);
    }
    let w = &args[i];
    let j = skip_value(i, args.len());
    if word_is(w, "movetime") {
        (j, GoParams { movetime: u64_word(args, i + 1), ..p })
    } else if word_is(w, "depth") {
        (j, GoParams { depth: u32_word(args, i + 1), ..p })
    } else if word_is(w, "nodes") {
        (j, GoParams { nodes: u64_word(args, i + 1), ..p })
    } else if word_is(w, "wtime") {
        (j, GoParams { wtime: u64_word(args, i + 1), ..p })
    } else if word_is(w, "btime") {
        (j, GoParams { btime: u64_word(args, i + 1), ..p })
    } else if word_is(w, "winc") {
        (j, GoParams { winc: u64_word(args, i + 1), ..p })
    } else if word_is(w, "binc") {
        (j, GoParams { binc: u64_word(args, i + 1), ..p })
    } else if word_is(w, "movestogo") {
        (j, GoParams { movestogo: u32_word(args, i + 1), ..p })
    } else {
        (i + 1, p)
    }
}

/// The time control of a `go` command's arguments (see `time_control_of`).
pub fn time_control_words(args: &Vec<Vec<char>>) -> (r: TimeControl)
    ensures
        r == time_control_of(views(args@)),
{
    let ghost a = views(args@);
    let mut p = GoParams { wtime: None, btime: None, winc: None, binc: None, movestogo: None, movetime: None, depth: None, nodes: None };
    let mut i: usize = 0;
    while i < args.len()
        invariant
            a == views(args@),
            a.len() == args@.len(),
            go_scan(a, 0, no_params()) == go_scan(a, i as int, p),
            i <= args@.len(),
        decreases args@.len() - i,
    {
        proof {
            assert(a[i as int] == args@[i as int]@);
        }
        if word_is(&args[i], "infinite") {
            return TimeControl::Infinite;
        }
        let (ni, np) = go_next_exec(args, i, p);
        i = ni;
        p = np;
    }
    if let Some(mt) = p.movetime {
        TimeControl::MoveTime { millis: mt }
    } else if let Some(d) = p.depth {
        TimeControl::Depth { depth: d }
    } else if let Some(n) = p.nodes {
        TimeControl::Nodes { nodes: n }
    } else if let Some(wt) = p.wtime {
        let bt = match p.btime { Some(b) => b, None => wt };
        let wi = match p.winc { Some(x) => x, None => 0 };
        let bi = match p.binc { Some(x) => x, None => 0 };
        TimeControl::Clock { wtime: wt, btime: bt, winc: wi, binc: bi, movestogo: p.movestogo }
    } else {
        TimeControl::Infinite
    }
}

/// Whether a time control can be set up for the side to move without
/// overflow (see `time_control_fits`).
fn control_fits(tc: &TimeControl, is_white: bool) -> (r: bool)
    ensures
        r == time_control_fits(*tc, is_white),
{
    match *tc {
        TimeControl::Clock { wtime, btime, winc, binc, movestogo } => {
            let t: u64 = if is_white { wtime } else { btime };
            let inc: u64 = if is_white { winc } else { binc };
            let low: u64 = if t < 100 { t } else { 100 };
            let share: u64 = t / 50;
            let margin: u64 = if low < share { share } else { low };
            let available: u64 = t - margin;
            let base: u64 = match movestogo {
                Some(m) => if m > 0 { available / (m as u64) } else { available / 40 },
                None => available / 40,
            };
            let inc3 = inc as u128 * 3;
            let total = base as u128 + inc3 / 4;
            inc3 <= 0xFFFF_FFFF_FFFF_FFFF && total <= 0xFFFF_FFFF_FFFF_FFFF && total * 5 <= 0xFFFF_FFFF_FFFF_FFFF
        },
        _ => true,
    }
}

/// The square named by two characters (file a-h, rank 1-8), if any.
pub open spec fn square_named(f: char, r: char) -> Option<nat> {
    if 'a' <= f <= 'h' && '1' <= r <= '8' {
        Some(((r as nat - '1' as nat) * 8 + (f as nat - 'a' as nat)) as nat)
    } else {
        None
    }
}

/// The promotion piece named by a letter, if any.
pub open spec fn promotion_named(c: char) -> Option<PieceType> {
    if c == 'q' { Some(PieceType::Queen) }
    else if c == 'r' { Some(PieceType::Rook) }
    else if c == 'b' { Some(PieceType::Bishop) }
    else if c == 'n' { Some(PieceType::Knight) }
    else { None }
}

/// Whether a move matches a UCI word: the first four characters name its
/// squares and, when a fifth names a promotion piece, it promotes to that
/// piece.
pub open spec fn matches_word(w: Seq<char>, m: Move) -> bool {
    &&& w.len() >= 4
    &&& square_named(w[0], w[1]) == Some(mv_from(m@))
    &&& square_named(w[2], w[3]) == Some(mv_to(m@))
    &&& (w.len() >= 5 && promotion_named(w[4]) is Some ==>
            mv_code(m@) >= 8 && promo_kind(mv_code(m@)) == promotion_named(w[4]))
}

/// Whether the moves `ms` are what the words play in turn from `b`: a
/// word that names a legal move of the position reached (with move
/// counters to spare) plays one such move; any other word is skipped.
pub open spec fn plays(b: Board, words: Seq<Seq<char>>, ms: Seq<Move>) -> bool
    decreases words.len(),
{
    if words.len() == 0 {
        ms.len() == 0
    } else {
        let pre = words.drop_last();
        let w = words.last();
        ||| ms.len() > 0 && plays(b, pre, ms.drop_last()) && {
                let p = line_end(b, ms.drop_last());
                &&& legal_move(p, ms.last())
                &&& matches_word(w, ms.last())
                &&& p.halfmove() < u32::MAX
                &&& p.fullmove() < u32::MAX
            }
        ||| plays(b, pre, ms) && {
                let p = line_end(b, ms);
                !(p.halfmove() < u32::MAX && p.fullmove() < u32::MAX
                    && exists|m: Move| #[trigger] legal_move(p, m) && matches_word(w, m))
            }
    }
}

/// Whether `k` is the index of the first word `moves` (the number of words
/// when there is none).
pub open spec fn moves_index(words: Seq<Seq<char>>, k: int) -> bool {
    &&& 0 <= k <= words.len()
    &&& (k < words.len() ==> words[k] == "moves"@)
    &&& forall|i: int| 0 <= i < k ==> words[i] != "moves"@
}

/// The words after the first `moves` (none when there is no `moves`).
pub open spec fn move_words(words: Seq<Seq<char>>, k: int) -> Seq<Seq<char>> {
    if k < words.len() { words.subrange(k + 1, words.len() as int) } else { Seq::empty() }
}

/// Whether a board is the start position.
pub open spec fn is_start(b: Board) -> bool {
    &&& b.wf()
    &&& forall|i: nat| #[trigger] b.piece_on(i) == Board::start_piece(i)
    &&& b.side() == Color::White
    &&& b.rights() == 15
    &&& b.ep() is None
    &&& b.halfmove() == 0
    &&& b.fullmove() == 1
}

/// The UCI handler: a position, a searcher and the options.
pub struct UciHandler {
    board: Board,
    searcher: Searcher,
    options: UciOptions,
}

/// `acc` with the word `w` added, after a space unless `acc` is empty.
pub open spec fn joined_word(acc: Seq<char>, w: Seq<char>) -> Seq<char> {
    if acc.len() > 0 { acc.push(' ') + w } else { acc + w }
}

/// One word of the `setoption` arguments read. The state is the name so
/// far, the value so far and what is being read: 0 nothing yet, 1 the name
/// (up to the word `value`), 2 the value (every word to the end).
pub open spec fn setopt_step(st: (Seq<char>, Seq<char>, int), w: Seq<char>) -> (Seq<char>, Seq<char>, int) {
    if st.2 == 2 {
        (st.0, joined_word(st.1, w), 2)
    } else if st.2 == 1 {
        if w == "value"@ { (st.0, st.1, 2) } else { (joined_word(st.0, w), st.1, 1) }
    } else if w == "name"@ {
        (st.0, st.1, 1)
    } else if w == "value"@ {
        (st.0, st.1, 2)
    } else {
        st
    }
}

/// The state after reading the first `n` words of `setoption` arguments.
pub open spec fn setopt_scan(ws: Seq<Seq<char>>, n: nat) -> (Seq<char>, Seq<char>, int)
    decreases n,
{
    if n == 0 || n > ws.len() {
        (Seq::empty(), Seq::empty(), 0)
    } else {
        setopt_step(setopt_scan(ws, (n - 1) as nat), ws[n - 1])
    }
}

/// A text with its ASCII capitals made lower case.
pub open spec fn lowered_text(t: Seq<char>) -> Seq<char> {
    Seq::new(t.len(), |i: int| lower(t[i]))
}

/// `v` kept within `lo..=hi`.
pub open spec fn clamped(v: nat, lo: nat, hi: nat) -> nat {
    if v < lo { lo } else if v > hi { hi } else { v }
}

/// Whether `setoption` with the argument words `ws` sets the table size:
/// the option named is `Hash` (ignoring ASCII case) and its value reads as
/// a number; a fresh searcher is then made.
pub open spec fn sets_hash(ws: Seq<Seq<char>>) -> bool {
    lowered_text(setopt_scan(ws, ws.len()).0) == "hash"@ && unsigned_of(setopt_scan(ws, ws.len()).1, usize::MAX as nat) is Some
}

/// The options after `setoption` with the argument words `ws`: the option
/// named (ignoring ASCII case) `Hash` takes the value kept within 1 to
/// 1024, `MultiPV` within 1 to 10, `Threads` stays one; a value that does
/// not read as a number, or another name, changes nothing.
pub open spec fn options_after(o: UciOptions, ws: Seq<Seq<char>>) -> UciOptions {
    let st = setopt_scan(ws, ws.len());
    let name = lowered_text(st.0);
    let v = unsigned_of(st.1, usize::MAX as nat);
    if name == "hash"@ && v is Some {
        UciOptions { hash_size_mb: clamped(v.unwrap(), 1, 1024) as usize, ..o }
    } else if name == "threads"@ && v is Some {
        UciOptions { threads: 1, ..o }
    } else if name == "multipv"@ && v is Some {
        UciOptions { multi_pv: clamped(v.unwrap(), 1, 10) as usize, ..o }
    } else {
        o
    }
}

/// The commands the handler knows.
pub open spec fn known_command(w: Seq<char>) -> bool {
    w == "uci"@ || w == "isready"@ || w == "ucinewgame"@ || w == "position"@ || w == "go"@ || w == "stop"@
        || w == "setoption"@ || w == "quit"@
}

/// The depth a `go` with this time control searches to: its depth (at
/// most 0x0FFF_FFFF) for a depth search, else 64.
pub open spec fn go_depth(tc: TimeControl) -> int {
    match tc {
        TimeControl::Depth { depth } => if depth < 0x0FFF_FFFF { depth as int } else { 0x0FFF_FFFF },
        _ => 64,
    }
}

/// The response to `uci`: identification, options and `uciok`.
pub open spec fn uci_banner() -> Seq<char> {
    "id name ChessAI 0.1.0\nid author Chess Engine Developers\noption name Hash type spin default 64 min 1 max 1024\noption name Threads type spin default 1 min 1 max 1\noption name MultiPV type spin default 1 min 1 max 10\nuciok"@
}

/// The response to `go`: the best move, and the next move of the
/// principal variation to ponder on when there is one.
pub open spec fn bestmove_text(best: Move, pv: Seq<Move>) -> Seq<char> {
    if pv.len() > 1 {
        "bestmove "@ + uci_text(best@) + " ponder "@ + uci_text(pv[1]@)
    } else {
        "bestmove "@ + uci_text(best@)
    }
}

impl UciHandler {
    /// The position, searcher and options are usable.
    pub closed spec fn wf(&self) -> bool {
        &&& self.board.wf()
        &&& self.searcher.wf()
        &&& 1 <= self.options.hash_size_mb <= 1024
    }

    /// The current position.
    pub closed spec fn position(&self) -> Board {
        self.board
    }

    /// The searcher.
    pub closed spec fn engine(&self) -> Searcher {
        self.searcher
    }

    /// The current options.
    pub closed spec fn opts(&self) -> UciOptions {
        self.options
    }

    /// A handler at the start position with default options.
    pub fn new() -> (r: UciHandler)
        ensures
            r.wf(),
            is_start(r.position()),
    {
        UciHandler { board: Board::startpos(), searcher: Searcher::new(), options: UciOptions::default() }
    }

    /// Handle one command line; the response, if the command has one.
    /// `uci` answers the banner, `isready` answers `readyok`, `stop`
    /// answers `bestmove 0000`, `go` answers the best move found; the
    /// others (`ucinewgame`, `position`, `setoption`, `quit`, unknown
    /// words, an empty line) answer nothing.
    pub fn handle_command(&mut self, cmd: &str) -> (r: Option<String>)
        requires
            old(self).wf(),
        ensures
            final(self).wf(),
            crate::text::ws_tokens(cmd@).len() == 0 ==> r is None && final(self).position() == old(self).position(),
            crate::text::ws_tokens(cmd@).len() > 0 && crate::text::ws_tokens(cmd@)[0] == "uci"@ ==>
                (r matches Some(s) && s@ == uci_banner()),
            crate::text::ws_tokens(cmd@).len() > 0 && crate::text::ws_tokens(cmd@)[0] == "isready"@ ==>
                (r matches Some(s) && s@ == "readyok"@),
            crate::text::ws_tokens(cmd@).len() > 0 && crate::text::ws_tokens(cmd@)[0] == "stop"@ ==>
                (r matches Some(s) && s@ == "bestmove 0000"@),
            crate::text::ws_tokens(cmd@).len() > 0 && crate::text::ws_tokens(cmd@)[0] == "ucinewgame"@ ==>
                r is None && is_start(final(self).position()),
            crate::text::ws_tokens(cmd@).len() > 0 && (crate::text::ws_tokens(cmd@)[0] == "position"@
                || crate::text::ws_tokens(cmd@)[0] == "setoption"@ || crate::text::ws_tokens(cmd@)[0] == "quit"@) ==> r is None,
            crate::text::ws_tokens(cmd@).len() > 0 && crate::text::ws_tokens(cmd@)[0] == "position"@ ==> {
                let args = crate::text::ws_tokens(cmd@).drop_first();
                &&& final(self).opts() == old(self).opts()
                &&& args.len() > 0 && args[0] == "startpos"@ ==> exists|start: Board, ms: Seq<Move>|
                    is_start(start) && legal_line(start, ms) && final(self).position() == #[trigger] line_end(start, ms)
                &&& args.len() > 0 && args[0] == "startpos"@ ==> exists|start: Board, k: int, ms: Seq<Move>|
                    is_start(start) && moves_index(args, k) && #[trigger] plays(start, move_words(args, k), ms)
                    && final(self).position() == line_end(start, ms)
                &&& args.len() == 1 && args[0] == "startpos"@ ==> is_start(final(self).position())
                &&& args.len() == 0 || (args[0] != "startpos"@ && args[0] != "fen"@) ==> final(self).position() == old(self).position()
            },
            crate::text::ws_tokens(cmd@).len() > 0 && crate::text::ws_tokens(cmd@)[0] == "setoption"@ ==>
                final(self).opts() == options_after(old(self).opts(), crate::text::ws_tokens(cmd@).drop_first())
                && final(self).position() == old(self).position()
                && (sets_hash(crate::text::ws_tokens(cmd@).drop_first()) ==> final(self).engine().fresh(final(self).opts().hash_size_mb)),
            crate::text::ws_tokens(cmd@).len() > 0 && crate::text::ws_tokens(cmd@)[0] == "go"@
                && time_control_fits(time_control_of(crate::text::ws_tokens(cmd@).drop_first()), old(self).position().side() == Color::White)
                && searchable(old(self).position()) ==> r is Some,
            crate::text::ws_tokens(cmd@).len() > 0 && !known_command(crate::text::ws_tokens(cmd@)[0]) ==>
                r is None && final(self).position() == old(self).position() && final(self).opts() == old(self).opts(),
            crate::text::ws_tokens(cmd@).len() > 0 && crate::text::ws_tokens(cmd@)[0] == "go"@ ==>
                (r matches Some(s) ==> exists|best: Move, pv: Seq<Move>|
                    s@ == #[trigger] bestmove_text(best, pv) && legal_line(old(self).position(), pv)),
    {
        let cs = chars_of(cmd);
        let parts = split_ws(cs.as_slice());
        if parts.len() == 0 {
            return None;
        }
        let args = tail_words(&parts);
        proof {
            assert(views(parts@)[0] == parts@[0]@);
        }
        proof {
            reveal_strlit("uci");
            reveal_strlit("isready");
            reveal_strlit("ucinewgame");
            reveal_strlit("position");
            reveal_strlit("go");
            reveal_strlit("stop");
            reveal_strlit("setoption");
            reveal_strlit("quit");
            assert("quit"@[0] != "stop"@[0]);
        }

        let head = &parts[0];
        if word_is(head, "uci") {
            Some(Self::handle_uci())
        } else if word_is(head, "isready") {
            let mut s = String::new();
            push_str(&mut s, "readyok");
            Some(s)
        } else if word_is(head, "ucinewgame") {
            self.handle_new_game();
            None
        } else if word_is(head, "position") {
            self.handle_position(&args);
            None
        } else if word_is(head, "go") {
            self.handle_go(&args)
        } else if word_is(head, "stop") {
            let mut s = String::new();
            push_str(&mut s, "bestmove 0000");
            Some(s)
        } else if word_is(head, "setoption") {
            self.handle_setoption(&args);
            None
        } else {
            None
        }
    }

    /// The current position.
    pub fn current_board(&self) -> (r: Board)
        ensures
            r == self.position(),
    {
        self.board
    }

    /// The current options.
    pub fn current_options(&self) -> (r: UciOptions)
        ensures
            r == self.opts(),
    {
        self.options
    }

    /// The legal move a UCI move text names (see `move_of_word`).
    pub fn parse_uci_move(&self, move_str: &str) -> (r: Option<Move>)
        requires
            self.wf(),
        ensures
            r matches Some(m) ==> legal_move(self.position(), m) && matches_word(move_str@, m),
            (exists|m: Move| #[trigger] legal_move(self.position(), m) && matches_word(move_str@, m))
                && self.position().halfmove() < u32::MAX && self.position().fullmove() < u32::MAX ==> r is Some,
    {
        let w = chars_of(move_str);
        self.move_of_word(&w)
    }

    /// The time control of the arguments of a `go` command (see
    /// `time_control_of`).
    pub fn parse_time_control(&self, args: &[&str]) -> (r: TimeControl)
        ensures
            r == time_control_of(args@.map_values(|s: &str| s@)),
    {
        let mut words: Vec<Vec<char>> = Vec::new();
        let mut i: usize = 0;
        while i < args.len()
            invariant
                i <= args@.len(),
                words@.len() == i,
                forall|j: int| 0 <= j < i ==> #[trigger] words@[j]@ == args@[j]@,
            decreases args@.len() - i,
        {
            words.push(chars_of(args[i]));
            i += 1;
        }
        assert(views(words@) =~= args@.map_values(|s: &str| s@));
        time_control_words(&words)
    }

    /// The banner.
    fn handle_uci() -> (r: String)
        ensures
            r@ == uci_banner(),
    {
        let mut response = String::new();
        push_str(&mut response, "id name ChessAI 0.1.0\nid author Chess Engine Developers\noption name Hash type spin default 64 min 1 max 1024\noption name Threads type spin default 1 min 1 max 1\noption name MultiPV type spin default 1 min 1 max 10\nuciok");
        response
    }

    /// Back to the start position, with a fresh searcher of the set hash
    /// size.
    fn handle_new_game(&mut self)
        requires
            old(self).wf(),
        ensures
            final(self).wf(),
            is_start(final(self).position()),
            final(self).opts() == old(self).opts(),
    {
        self.board = Board::startpos();
        self.searcher = Searcher::with_tt_size(self.options.hash_size_mb);
    }

    /// `position startpos [moves ...]` or `position fen <fields> [moves
    /// ...]`: the new position, with the moves that can be read and are
    /// legal played in turn; an invalid FEN or another first word leaves
    /// the position as it was.
    fn handle_position(&mut self, args: &Vec<Vec<char>>)
        requires
            old(self).wf(),
        ensures
            final(self).wf(),
            final(self).opts() == old(self).opts(),
            final(self).position() == old(self).position()
                || exists|start: Board, ms: Seq<Move>| legal_line(start, ms) && final(self).position() == #[trigger] line_end(start, ms),
            args@.len() > 0 && args@[0]@ == "startpos"@ ==> exists|start: Board, ms: Seq<Move>|
                is_start(start) && legal_line(start, ms) && final(self).position() == #[trigger] line_end(start, ms),
            args@.len() > 0 && args@[0]@ == "startpos"@ ==> exists|start: Board, k: int, ms: Seq<Move>|
                is_start(start) && moves_index(views(args@), k) && #[trigger] plays(start, move_words(views(args@), k), ms)
                && final(self).position() == line_end(start, ms),
            args@.len() == 1 && args@[0]@ == "startpos"@ ==> is_start(final(self).position()),
            args@.len() == 0 || (args@[0]@ != "startpos"@ && args@[0]@ != "fen"@) ==> final(self).position() == old(self).position(),
    {
        if args.len() == 0 {
            return;
        }
        let mut moves_idx: usize = args.len();
        let mut j: usize = 0;
        while j < args.len()
            invariant_except_break
                moves_idx == args@.len(),
                forall|i: int| 0 <= i < j ==> views(args@)[i] != "moves"@,
            invariant
                j <= args@.len(),
            ensures
                moves_index(views(args@), moves_idx as int),
            decreases args@.len() - j,
        {
            if word_is(&args[j], "moves") {
                moves_idx = j;
                break;
            }
            j += 1;
        }
        if word_is(&args[0], "startpos") {
            let start = Board::startpos();
            self.board = start;
            let from: usize = if moves_idx < args.len() { moves_idx + 1 } else { moves_idx };
            proof {
                assert(legal_line(start, Seq::<Move>::empty()));
                assert(line_end(start, Seq::<Move>::empty()) == start);
            }
            self.apply_moves(args, from, Ghost(start), Ghost(Seq::<Move>::empty()));
            proof {
                assert(views(args@).subrange(from as int, args@.len() as int)
                    =~= move_words(views(args@), moves_idx as int));
            }
        } else if word_is(&args[0], "fen") {
            let fen_end = moves_idx;
            let mut fen: Vec<char> = Vec::new();
            let mut k: usize = 1;
            while k < fen_end
                invariant
                    1 <= k <= fen_end || fen_end < 1,
                    fen_end <= args@.len(),
                decreases fen_end - k,
            {
                if k > 1 {
                    fen.push(' ');
                }
                let w = &args[k];
                let mut c: usize = 0;
                while c < w.len()
                    invariant
                        c <= w@.len(),
                    decreases w@.len() - c,
                {
                    fen.push(w[c]);
                    c += 1;
                }
                k += 1;
            }
            let text = string_of(fen.as_slice());
            match parse_fen(text.as_str()) {
                Ok(board) => {
                    self.board = board;
                    proof {
                        assert(legal_line(board, Seq::<Move>::empty()));
                        assert(line_end(board, Seq::<Move>::empty()) == board);
                    }
                    let from: usize = if moves_idx < args.len() { moves_idx + 1 } else { moves_idx };
                    self.apply_moves(args, from, Ghost(board), Ghost(Seq::<Move>::empty()));
                },
                Err(_) => {},
            }
        }
    }

    /// Play the moves named by the words from `from` on that can be read
    /// and are legal, in turn.
    fn apply_moves(&mut self, args: &Vec<Vec<char>>, from: usize, Ghost(start): Ghost<Board>, Ghost(played): Ghost<Seq<Move>>)
        requires
            old(self).wf(),
            legal_line(start, played),
            old(self).position() == line_end(start, played),
        ensures
            final(self).wf(),
            final(self).opts() == old(self).opts(),
            exists|ms: Seq<Move>| legal_line(start, ms) && final(self).position() == #[trigger] line_end(start, ms),
            from >= args@.len() ==> final(self).position() == old(self).position(),
            from <= args@.len() ==> exists|ms: Seq<Move>| #[trigger] plays(old(self).position(),
                views(args@).subrange(from as int, args@.len() as int), ms)
                && final(self).position() == line_end(old(self).position(), ms),
    {
        let ghost p0 = self.position();
        if from >= args.len() {
            proof {
                if from == args@.len() {
                    assert(views(args@).subrange(from as int, args@.len() as int).len() == 0);
                    assert(plays(p0, views(args@).subrange(from as int, args@.len() as int), Seq::<Move>::empty()));
                    assert(line_end(p0, Seq::<Move>::empty()) == p0);
                }
            }
            return;
        }
        let ghost mut line = played;
        let ghost mut rel: Seq<Move> = Seq::empty();
        let mut i = from;
        proof {
            assert(views(args@).subrange(from as int, from as int).len() == 0);
            assert(legal_line(p0, rel));
            assert(line_end(p0, rel) == p0);
        }
        while i < args.len()
            invariant
                self.wf(),
                self.opts() == old(self).opts(),
                legal_line(start, line),
                self.position() == line_end(start, line),
                from <= i <= args@.len(),
                legal_line(p0, rel),
                self.position() == line_end(p0, rel),
                plays(p0, views(args@).subrange(from as int, i as int), rel),
            decreases args@.len() - i,
        {
            let ghost words = views(args@).subrange(from as int, i as int);
            let ghost next = views(args@).subrange(from as int, i as int + 1);
            proof {
                assert(next.drop_last() =~= words);
                assert(next.last() == args@[i as int]@);
            }
            match self.move_of_word(&args[i]) {
                Some(m) => {
                    proof {
                        lemma_pseudo_legal_makeable(self.board, m);
                    }
                    let ghost before = self.board;
                    let undo = self.board.make_move(m);
                    proof {
                        lemma_board_after(before, m, self.board, undo);
                        lemma_line_push(start, line, m);
                        line = line.push(m);
                        lemma_line_push(p0, rel, m);
                        let ghost prev = rel;
                        rel = rel.push(m);
                        assert(rel.drop_last() =~= prev);
                        assert(rel.last() == m);
                        assert(plays(p0, next, rel));
                    }
                },
                None => {
                    proof {
                        assert(plays(p0, next, rel));
                    }
                },
            }
            i += 1;
        }
    }

    /// The legal move a UCI word names (see `matches_word`), the first in
    /// generation order; none when the word names no legal move or the
    /// position's move counters are exhausted.
    fn move_of_word(&self, w: &Vec<char>) -> (r: Option<Move>)
        requires
            self.wf(),
        ensures
            r matches Some(m) ==> legal_move(self.position(), m) && matches_word(w@, m)
                && self.position().halfmove() < u32::MAX && self.position().fullmove() < u32::MAX,
            (exists|m: Move| #[trigger] legal_move(self.position(), m) && matches_word(w@, m))
                && self.position().halfmove() < u32::MAX && self.position().fullmove() < u32::MAX ==> r is Some,
    {
        if w.len() < 4 {
            return None;
        }
        let from = match square_of_chars(w[0], w[1]) {
            Some(s) => s,
            None => {
                return None;
            },
        };
        let to = match square_of_chars(w[2], w[3]) {
            Some(s) => s,
            None => {
                return None;
            },
        };
        let promotion = if w.len() >= 5 { promotion_of_char(w[4]) } else { None };
        if !(self.board.halfmove_clock() < u32::MAX && self.board.fullmove_number() < u32::MAX) {
            return None;
        }
        let legal_moves = self.board.generate_legal_moves();
        let n = legal_moves.len();
        let mut j: usize = 0;
        while j < n
            invariant
                j <= n,
                n == legal_moves@.len(),
                forall|m: Move| #[trigger] legal_moves@.contains(m) <==> legal_move(self.board, m),
                w@.len() >= 4,
                square_named(w@[0], w@[1]) == Some(from@),
                square_named(w@[2], w@[3]) == Some(to@),
                promotion == (if w@.len() >= 5 { promotion_named(w@[4]) } else { None }),
                self.board.halfmove() < u32::MAX,
                self.board.fullmove() < u32::MAX,
                forall|k: int| 0 <= k < j ==> !matches_word(w@, #[trigger] legal_moves@[k]),
            decreases n - j,
        {
            let m = legal_moves.get(j);
            proof {
                assert(legal_moves@.contains(m));
            }
            let mf = m.from();
            let mt = m.to();
            proof {
                if mf@ == from@ {
                    crate::square::lemma_square_view_injective(mf, from);
                }
                if mt@ == to@ {
                    crate::square::lemma_square_view_injective(mt, to);
                }
            }
            if mf == from && mt == to {
                match promotion {
                    Some(p) => {
                        let same = m.is_promotion() && match m.promotion_piece() {
                            Some(q) => q == p,
                            None => false,
                        };
                        if same {
                            return Some(m);
                        }
                    },
                    None => {
                        return Some(m);
                    },
                }
            }
            j += 1;
        }
        proof {
            assert forall|m: Move| #[trigger] legal_move(self.position(), m) implies !matches_word(w@, m) by {
                assert(legal_moves@.contains(m));
                let k = choose|k: int| 0 <= k < legal_moves@.len() && legal_moves@[k] == m;
                assert(!matches_word(w@, legal_moves@[k]));
            }
        }
        None
    }

    /// `go`: search under the time control of the arguments (to its depth
    /// for a depth search, else to depth 64) and answer the best move; no
    /// answer when the clock values would overflow or the position's move
    /// counters are exhausted.
    fn handle_go(&mut self, args: &Vec<Vec<char>>) -> (r: Option<String>)
        requires
            old(self).wf(),
        ensures
            final(self).wf(),
            final(self).position() == old(self).position(),
            final(self).opts() == old(self).opts(),
            r matches Some(s) ==> exists|best: Move, pv: Seq<Move>|
                s@ == #[trigger] bestmove_text(best, pv) && legal_line(old(self).position(), pv),
            time_control_fits(time_control_of(views(args@)), old(self).position().side() == Color::White)
                && searchable(old(self).position()) ==> r is Some,
            has_legal_move(old(self).position()) && go_depth(time_control_of(views(args@))) > 0
                && (time_control_of(views(args@)) is Infinite || time_control_of(views(args@)) is Depth) ==>
                (r matches Some(s) ==> exists|best: Move, pv: Seq<Move>, score: i32, trace: Seq<RootStep>|
                #![trigger bestmove_text(best, pv), root_outcome(old(self).position(), trace, score, best)]
                s@ == bestmove_text(best, pv) && legal_line(old(self).position(), pv)
                && pv.len() >= 1 && best == pv[0] && root_outcome(old(self).position(), trace, score, best)),
    {
        let time_control = time_control_words(args);
        let requested: u32 = match time_control {
            TimeControl::Depth { depth } => depth,
            _ => 64,
        };
        let max_depth: u32 = if requested < 0x0FFF_FFFF { requested } else { 0x0FFF_FFFF };
        let is_white = self.board.side_to_move() == Color::White;
        if !control_fits(&time_control, is_white) {
            return None;
        }
        if !(self.board.halfmove_clock() < u32::MAX && self.board.fullmove_number() < u32::MAX) {
            return None;
        }
        let result = self.searcher.search_with_limit(&self.board, max_depth, time_control);
        let text = Self::format_bestmove(&result);
        proof {
            if has_legal_move(self.board) && go_depth(time_control) > 0 && (time_control is Infinite || time_control is Depth) {
                assert(result.depth > 0);
                let trace = choose|trace: Seq<RootStep>| #[trigger] root_outcome(self.board, trace, result.score, result.best_move);
                assert(text@ == bestmove_text(result.best_move, result.pv@));
            }
        }
        Some(text)
    }

    /// The response to `go` for a search result.
    fn format_bestmove(result: &SearchResult) -> (r: String)
        ensures
            r@ == bestmove_text(result.best_move, result.pv@),
    {
        let mut s = String::new();
        push_str(&mut s, "bestmove ");
        let best = result.best_move.to_uci();
        push_str(&mut s, best.as_str());
        if result.pv.len() > 1 {
            push_str(&mut s, " ponder ");
            let ponder = result.pv[1].to_uci();
            push_str(&mut s, ponder.as_str());
        }
        s
    }

    /// `setoption name <id> [value <x>]`: `Hash` sets the table size
    /// (kept within 1 to 1024 MB, with a fresh searcher), `Threads` stays
    /// one, `MultiPV` is kept within 1 to 10; names are matched ignoring
    /// ASCII case, values must read as numbers; anything else is ignored.
    fn handle_setoption(&mut self, args: &Vec<Vec<char>>)
        requires
            old(self).wf(),
        ensures
            final(self).wf(),
            final(self).position() == old(self).position(),
            final(self).opts() == options_after(old(self).opts(), views(args@)),
            sets_hash(views(args@)) ==> final(self).engine().fresh(final(self).opts().hash_size_mb),
            !sets_hash(views(args@)) ==> final(self).engine() == old(self).engine(),
    {
        let mut name: Vec<char> = Vec::new();
        let mut value: Vec<char> = Vec::new();
        let mut mode: u8 = 0;
        let mut i: usize = 0;
        while i < args.len()
            invariant
                i <= args@.len(),
                (name@, value@, mode as int) == setopt_scan(views(args@), i as nat),
            decreases args@.len() - i,
        {
            let w = &args[i];
            proof {
                assert(views(args@)[i as int] == w@);
            }
            if mode == 2 {
                if value.len() > 0 {
                    value.push(' ');
                }
                append_chars(&mut value, w);
            } else if mode == 1 {
                if word_is(w, "value") {
                    mode = 2;
                } else {
                    if name.len() > 0 {
                        name.push(' ');
                    }
                    append_chars(&mut name, w);
                }
            } else if word_is(w, "name") {
                mode = 1;
            } else if word_is(w, "value") {
                mode = 2;
            }
            i += 1;
        }
        let lowered = ascii_lowercase(&name);
        proof {
            assert(lowered@ =~= lowered_text(name@));
        }
        if word_is(&lowered, "hash") {
            if let Some(size) = parse_bounded(value.as_slice(), usize::MAX as u64) {
                let clamped: usize = if size < 1 { 1 } else if size > 1024 { 1024 } else { size as usize };
                self.options.hash_size_mb = clamped;
                self.searcher = Searcher::with_tt_size(clamped);
            }
        } else if word_is(&lowered, "threads") {
            if let Some(_threads) = parse_bounded(value.as_slice(), usize::MAX as u64) {
                self.options.threads = 1;
            }
        } else if word_is(&lowered, "multipv") {
            if let Some(multi_pv) = parse_bounded(value.as_slice(), usize::MAX as u64) {
                self.options.multi_pv = if multi_pv < 1 { 1 } else if multi_pv > 10 { 10 } else { multi_pv as usize };
            }
        }
    }
}

impl Default for UciHandler {
    fn default() -> (r: UciHandler)
        ensures
            r.wf(),
    {
        UciHandler::new()
    }
}

/// All words but the first.
fn tail_words(parts: &Vec<Vec<char>>) -> (r: Vec<Vec<char>>)
    requires
        parts@.len() >= 1,
    ensures
        views(r@) == views(parts@).drop_first(),
{
    let mut r: Vec<Vec<char>> = Vec::new();
    let mut k: usize = 1;
    while k < parts.len()
        invariant
            1 <= k <= parts@.len(),
            r@.len() == k - 1,
            forall|j: int| 0 <= j < r@.len() ==> #[trigger] r@[j]@ == parts@[j + 1]@,
        decreases parts@.len() - k,
    {
        let mut w: Vec<char> = Vec::new();
        append_chars(&mut w, &parts[k]);
        r.push(w);
        k += 1;
    }
    assert(views(r@) =~= views(parts@).drop_first());
    r
}

/// Append the characters of `w` to `out`.
fn append_chars(out: &mut Vec<char>, w: &Vec<char>)
    ensures
        final(out)@ == old(out)@ + w@,
{
    let mut c: usize = 0;
    while c < w.len()
        invariant
            c <= w@.len(),
            out@ == old(out)@ + w@.subrange(0, c as int),
        decreases w@.len() - c,
    {
        out.push(w[c]);
        c += 1;
        assert(out@ =~= old(out)@ + w@.subrange(0, c as int));
    }
    assert(w@.subrange(0, w@.len() as int) =~= w@);
}

/// The ASCII lower case of a character.
pub open spec fn lower(c: char) -> char {
    if 'A' <= c <= 'Z' { ((c as u32) + 32) as char } else { c }
}

/// The characters with ASCII capitals made lower case (the option names
/// matched against are ASCII, and no other character lowers to one of
/// their letters).
fn ascii_lowercase(w: &Vec<char>) -> (r: Vec<char>)
    ensures
        r@.len() == w@.len(),
        forall|i: int| 0 <= i < w@.len() ==> #[trigger] r@[i] == lower(w@[i]),
{
    let mut out: Vec<char> = Vec::new();
    let mut i: usize = 0;
    while i < w.len()
        invariant
            i <= w@.len(),
            out@.len() == i,
            forall|j: int| 0 <= j < i ==> #[trigger] out@[j] == lower(w@[j]),
        decreases w@.len() - i,
    {
        let c = w[i];
        let l = if 'A' <= c && c <= 'Z' { ((c as u32) + 32) as u8 as char } else { c };
        out.push(l);
        i += 1;
    }
    out
}

/// The square named by two characters.
fn square_of_chars(f: char, r: char) -> (s: Option<Square>)
    ensures
        s matches Some(q) ==> square_named(f, r) == Some(q@),
        s is None ==> square_named(f, r) is None,
{
    if 'a' <= f && f <= 'h' && '1' <= r && r <= '8' {
        let file = (f as u32 - 97) as u8;
        let rank = (r as u32 - 49) as u8;
        Some(Square::from_coords(file, rank))
    } else {
        None
    }
}

/// The promotion piece a letter names.
fn promotion_of_char(c: char) -> (r: Option<PieceType>)
    ensures
        r == promotion_named(c),
{
    if c == 'q' {
        Some(PieceType::Queen)
    } else if c == 'r' {
        Some(PieceType::Rook)
    } else if c == 'b' {
        Some(PieceType::Bishop)
    } else if c == 'n' {
        Some(PieceType::Knight)
    } else {
        None
    }
}

} // verus!
