//! Polyglot opening books: 16-byte entries of a position hash (8 bytes),
//! a move (2 bytes), a weight (2 bytes) and learning data (4 bytes), all
//! big-endian.
use vstd::prelude::*;
use crate::board::Board;
use crate::chess_move::{Move, mv_from, mv_to, mv_code};
use crate::movegen::{generate_moves, pseudo_legal};
use crate::piece::PieceType;
use crate::square::Square;

verus! {

/// The big-endian value of `n` bytes of `b` from `start`.
pub open spec fn be_value(b: Seq<u8>, start: int, n: nat) -> nat
    decreases n,
{
    if n == 0 {
        0
    } else {
        be_value(b, start, (n - 1) as nat) * 256 + b[start + n - 1] as nat
    }
}

/// A book entry.
#[derive(Debug, Clone, Copy)]
pub struct BookEntry {
    /// The position hash.
    pub key: u64,
    /// The move: to file, to rank, from file, from rank (three bits each,
    /// from the lowest) and the promotion piece (three bits).
    pub move_data: u16,
    /// The weight of the move.
    pub weight: u16,
    /// Learning data.
    pub learn: u32,
}

/// The entry encoded by 16 bytes from `start`.
pub open spec fn entry_of(b: Seq<u8>, start: int) -> BookEntry {
    BookEntry {
        key: be_value(b, start, 8) as u64,
        move_data: be_value(b, start + 8, 2) as u16,
        weight: be_value(b, start + 10, 2) as u16,
        learn: be_value(b, start + 12, 4) as u32,
    }
}

/// The promotion piece of a Polyglot promotion code.
pub open spec fn promo_of(code: int) -> Option<PieceType> {
    if code == 1 {
        Some(PieceType::Knight)
    } else if code == 2 {
        Some(PieceType::Bishop)
    } else if code == 3 {
        Some(PieceType::Rook)
    } else if code == 4 {
        Some(PieceType::Queen)
    } else {
        None
    }
}

/// The origin square, target square and promotion piece of an entry's move.
pub open spec fn decoded(move_data: u16) -> (nat, nat, Option<PieceType>) {
    let d = move_data as int;
    let to_file = d % 8;
    let to_rank = (d / 8) % 8;
    let from_file = (d / 64) % 8;
    let from_rank = (d / 512) % 8;
    ((from_rank * 8 + from_file) as nat, (to_rank * 8 + to_file) as nat, promo_of((d / 4096) % 8))
}

/// 256 to the power `k`.
pub open spec fn pow256(k: nat) -> nat
    decreases k,
{
    if k == 0 { 1 } else { pow256((k - 1) as nat) * 256 }
}

proof fn lemma_pow256_mono(a: nat, b: nat)
    requires
        a <= b,
    ensures
        pow256(a) <= pow256(b),
    decreases b,
{
    if a < b {
        lemma_pow256_mono(a, (b - 1) as nat);
    }
}

proof fn lemma_pow256_values()
    ensures
        pow256(2) == 0x1_0000,
        pow256(4) == 0x1_0000_0000,
        pow256(8) == 0x1_0000_0000_0000_0000,
{
    reveal_with_fuel(pow256, 9);
}

/// Read `n` big-endian bytes of `bytes` from `start`.
fn read_be(bytes: &[u8], start: usize, n: usize) -> (r: u64)
    requires
        n <= 8,
        start + n <= bytes@.len(),
    ensures
        r == be_value(bytes@, start as int, n as nat),
        r < pow256(n as nat),
{
    let len = bytes.len();
    let mut v: u64 = 0;
    let mut k: usize = 0;
    proof {
        lemma_pow256_values();
    }
    while k < n
        invariant
            k <= n,
            n <= 8,
            len == bytes@.len(),
            start + n <= len,
            v == be_value(bytes@, start as int, k as nat),
            v < pow256(k as nat),
            pow256(8) == 0x1_0000_0000_0000_0000,
        decreases n - k,
    {
        proof {
            lemma_pow256_mono((k + 1) as nat, 8);
            assert(v * 256 + bytes@[start + k] < pow256((k + 1) as nat)) by (nonlinear_arith)
                requires
                    v < pow256(k as nat),
                    pow256((k + 1) as nat) == pow256(k as nat) * 256,
                    bytes@[start + k] < 256;
        }
        v = v * 256 + bytes[start + k] as u64;
        k += 1;
    }
    v
}

impl BookEntry {
    /// The entry encoded by 16 bytes.
    pub fn from_bytes(bytes: &[u8; 16]) -> (r: BookEntry)
        ensures
            r == entry_of(bytes@, 0),
    {
        let b = bytes.as_slice();
        let key = read_be(b, 0, 8);
        let move_data = read_be(b, 8, 2);
        let weight = read_be(b, 10, 2);
        let learn = read_be(b, 12, 4);
        proof {
            lemma_pow256_values();
        }
        BookEntry { key, move_data: move_data as u16, weight: weight as u16, learn: learn as u32 }
    }

    /// The origin, target and promotion piece of the entry's move.
    pub fn decode_move(&self) -> (r: (Square, Square, Option<PieceType>))
        ensures
            (r.0@, r.1@, r.2) == decoded(self.move_data),
    {
        let d = self.move_data;
        let to_file = (d % 8) as u8;
        let to_rank = ((d / 8) % 8) as u8;
        let from_file = ((d / 64) % 8) as u8;
        let from_rank = ((d / 512) % 8) as u8;
        let promo = (d / 4096) % 8;
        let from = Square::from_coords(from_file, from_rank);
        let to = Square::from_coords(to_file, to_rank);
        let promotion = if promo == 1 {
            Some(PieceType::Knight)
        } else if promo == 2 {
            Some(PieceType::Bishop)
        } else if promo == 3 {
            Some(PieceType::Rook)
        } else if promo == 4 {
            Some(PieceType::Queen)
        } else {
            None
        };
        (from, to, promotion)
    }
}

/// Whether entries are sorted by key.
pub open spec fn sorted_by_key(e: Seq<BookEntry>) -> bool {
    forall|i: int, j: int| 0 <= i <= j < e.len() ==> e[i].key <= e[j].key
}

/// Whether a generated move is the one an entry names: same squares, and
/// the same promotion piece (or no promotion when the entry names none).
pub open spec fn names_move(entry: BookEntry, m: Move) -> bool {
    let (from, to, promo) = decoded(entry.move_data);
    &&& mv_from(m@) == from
    &&& mv_to(m@) == to
    &&& match promo {
        Some(p) => mv_code(m@) >= 8 && crate::chess_move::promo_kind(mv_code(m@)) == Some(p),
        None => mv_code(m@) < 8,
    }
}

/// The first move of a list that an entry names, if any.
pub open spec fn first_named(l: Seq<Move>, entry: BookEntry) -> Option<Move>
    decreases l.len(),
{
    if l.len() == 0 {
        None
    } else if names_move(entry, l[0]) {
        Some(l[0])
    } else {
        first_named(l.drop_first(), entry)
    }
}

/// The (move, weight) pairs of a run of entries, for each entry the first
/// generated move it names (entries naming none are skipped).
pub open spec fn run_moves(l: Seq<Move>, run: Seq<BookEntry>) -> Seq<(Move, u16)>
    decreases run.len(),
{
    if run.len() == 0 {
        Seq::empty()
    } else {
        let rest = run_moves(l, run.drop_last());
        match first_named(l, run.last()) {
            Some(m) => rest.push((m, run.last().weight)),
            None => rest,
        }
    }
}

/// What a probe returns: `r` holds the moves named by the run of entries
/// `lo..hi`, all with the position's hash (all such entries, when the
/// entries are sorted), matched against the generated moves `l`.
pub open spec fn probe_ok(b: Board, e: Seq<BookEntry>, r: Seq<(Move, u16)>, l: Seq<Move>, lo: int, hi: int) -> bool {
    &&& forall|m: Move| #[trigger] l.contains(m) <==> pseudo_legal(b, m)
    &&& 0 <= lo <= hi <= e.len()
    &&& forall|i: int| lo <= i < hi ==> #[trigger] e[i].key == b.hash_value()
    &&& r == run_moves(l, e.subrange(lo, hi))
    &&& (sorted_by_key(e) ==> forall|i: int| 0 <= i < e.len() && #[trigger] e[i].key == b.hash_value() ==> lo <= i < hi)
}

/// The index of the heaviest of the first `k` book moves (the last of
/// equal weights).
pub open spec fn best_index(ms: Seq<(Move, u16)>, k: int) -> int
    decreases k,
{
    if k <= 1 {
        0
    } else if ms[k - 1].1 >= ms[best_index(ms, k - 1)].1 {
        k - 1
    } else {
        best_index(ms, k - 1)
    }
}

/// The heaviest book move, the last of equal weights; `None` for none.
pub open spec fn heaviest(ms: Seq<(Move, u16)>) -> Option<Move> {
    if ms.len() == 0 {
        None
    } else {
        Some(ms[best_index(ms, ms.len() as int)].0)
    }
}

/// A Polyglot opening book.
pub struct PolyglotBook {
    entries: Vec<BookEntry>,
}

impl PolyglotBook {
    /// The entries, in file order.
    pub closed spec fn entries(&self) -> Seq<BookEntry> {
        self.entries@
    }

    /// The book held by a file's bytes: one entry per whole 16 bytes, any
    /// bytes left over ignored.
    pub fn from_bytes(data: &[u8]) -> (r: PolyglotBook)
        ensures
            r.entries().len() == data@.len() / 16,
            forall|i: int| 0 <= i < r.entries().len() ==> #[trigger] r.entries()[i] == entry_of(data@, i * 16),
    {
        let mut entries: Vec<BookEntry> = Vec::new();
        let len = data.len();
        let count = len / 16;
        let mut i: usize = 0;
        while i < count
            invariant
                i <= count,
                count == data@.len() / 16,
                len == data@.len(),
                entries@.len() == i,
                forall|j: int| 0 <= j < i ==> #[trigger] entries@[j] == entry_of(data@, j * 16),
            decreases count - i,
        {
            assert(i * 16 + 16 <= len) by (nonlinear_arith)
                requires
                    i < count,
                    count == len / 16;
            let start = i * 16;
            let key = read_be(data, start, 8);
            let move_data = read_be(data, start + 8, 2);
            let weight = read_be(data, start + 10, 2);
            let learn = read_be(data, start + 12, 4);
            proof {
                lemma_pow256_values();
            }
            entries.push(BookEntry { key, move_data: move_data as u16, weight: weight as u16, learn: learn as u32 });
            i += 1;
        }
        PolyglotBook { entries }
    }

    /// The number of entries.
    pub fn size(&self) -> (r: usize)
        ensures
            r == self.entries().len(),
    {
        self.entries.len()
    }

    /// The hash a position is looked up by: its Zobrist hash.
    fn polyglot_hash(board: &Board) -> (r: u64)
        ensures
            r == board.hash_value(),
    {
        board.hash()
    }

    /// An index of an entry with `hash`, found by binary search; on sorted
    /// entries, none exactly when no entry has the hash.
    fn find(&self, hash: u64) -> (r: Option<usize>)
        ensures
            r matches Some(i) ==> i < self.entries().len() && self.entries()[i as int].key == hash,
            r is None && sorted_by_key(self.entries()) ==> forall|i: int| 0 <= i < self.entries().len() ==> #[trigger] self.entries()[i].key != hash,
    {
        let mut lo: usize = 0;
        let mut hi: usize = self.entries.len();
        while lo < hi
            invariant
                lo <= hi <= self.entries@.len(),
                sorted_by_key(self.entries@) ==> forall|i: int| 0 <= i < lo ==> #[trigger] self.entries@[i].key < hash,
                sorted_by_key(self.entries@) ==> forall|i: int| hi <= i < self.entries@.len() ==> #[trigger] self.entries@[i].key > hash,
            decreases hi - lo,
        {
            let mid = lo + (hi - lo) / 2;
            let k = self.entries[mid].key;
            if k == hash {
                return Some(mid);
            } else if k < hash {
                lo = mid + 1;
            } else {
                hi = mid;
            }
        }
        None
    }

    /// The book moves for a position: for each entry of the run of entries
    /// with its hash found by binary search, the first pseudo-legal move it
    /// names, with the entry's weight.
    pub fn probe(&self, board: &Board) -> (r: Vec<(Move, u16)>)
        requires
            board.wf(),
        ensures
            forall|i: int| 0 <= i < r@.len() ==> pseudo_legal(*board, (#[trigger] r@[i]).0),
            exists|l: Seq<Move>, lo: int, hi: int| #[trigger] probe_ok(*board, self.entries(), r@, l, lo, hi),
    {
        let hash = Self::polyglot_hash(board);
        let legal_moves = generate_moves(board);
        let mut book_moves: Vec<(Move, u16)> = Vec::new();
        let idx = match self.find(hash) {
            Some(i) => i,
            None => {
                proof {
                    assert(self.entries@.subrange(0, 0) =~= Seq::<BookEntry>::empty());
                    assert(probe_ok(*board, self.entries@, book_moves@, legal_moves@, 0, 0));
                }
                return book_moves;
            },
        };
        let mut i = idx;
        while i > 0 && self.entries[i - 1].key == hash
            invariant
                i <= idx < self.entries@.len(),
                forall|j: int| i <= j <= idx ==> #[trigger] self.entries@[j].key == hash,
            decreases i,
        {
            i -= 1;
        }
        let start = i;
        proof {
            if sorted_by_key(self.entries@) {
                assert forall|j: int| 0 <= j < start implies #[trigger] self.entries@[j].key != hash by {
                    if start > 0 {
                        assert(self.entries@[start - 1].key != hash);
                        assert(self.entries@[j].key <= self.entries@[start - 1].key);
                        assert(self.entries@[start - 1].key <= hash);
                    }
                }
            }
        }
        while i < self.entries.len() && self.entries[i].key == hash
            invariant
                start <= i <= self.entries@.len(),
                forall|j: int| start <= j < i ==> #[trigger] self.entries@[j].key == hash,
                forall|m: Move| #[trigger] legal_moves@.contains(m) <==> pseudo_legal(*board, m),
                book_moves@ == run_moves(legal_moves@, self.entries@.subrange(start as int, i as int)),
                forall|k: int| 0 <= k < book_moves@.len() ==> pseudo_legal(*board, (#[trigger] book_moves@[k]).0),
            decreases self.entries@.len() - i,
        {
            let entry = self.entries[i];
            let (from, to, promotion) = entry.decode_move();
            let n = legal_moves.len();
            let mut j: usize = 0;
            let mut found = false;
            let ghost before = book_moves@;
            proof {
                assert(legal_moves@.skip(0) =~= legal_moves@);
            }
            while j < n && !found
                invariant
                    j <= n,
                    n == legal_moves@.len(),
                    (from@, to@, promotion) == decoded(entry.move_data),
                    forall|m: Move| #[trigger] legal_moves@.contains(m) <==> pseudo_legal(*board, m),
                    !found ==> first_named(legal_moves@, entry) == first_named(legal_moves@.skip(j as int), entry),
                    !found ==> book_moves@ == before,
                    found ==> (first_named(legal_moves@, entry) matches Some(m) && book_moves@ == before.push((m, entry.weight))
                        && legal_moves@.contains(m)),
                decreases n - j,
            {
                let m = legal_moves.get(j);
                proof {
                    assert(legal_moves@.skip(j as int)[0] == m);
                    assert(legal_moves@.skip(j as int).drop_first() =~= legal_moves@.skip(j as int + 1));
                    assert(legal_moves@.contains(m));
                }
                let mf = m.from();
                let mt = m.to();
                proof {
                    if mf@ == from@ {
                        crate::square::lemma_square_view_injective(mf, from);
                    }
                    if mt@ == to@ {
                        crate::square::lemma_square_view_injective(mt, to);
                    }
                }
                let squares_match = mf == from && mt == to;
                if squares_match {
                    let matches = match promotion {
                        Some(p) => m.is_promotion() && match m.promotion_piece() {
                            Some(q) => q == p,
                            None => false,
                        },
                        None => !m.is_promotion(),
                    };
                    if matches {
                        book_moves.push((m, entry.weight));
                        found = true;
                    }
                }
                j += 1;
            }
            proof {
                let run = self.entries@.subrange(start as int, i as int + 1);
                assert(run.drop_last() =~= self.entries@.subrange(start as int, i as int));
                assert(run.last() == entry);
                if !found {
                    assert(legal_moves@.skip(j as int) =~= Seq::<Move>::empty());
                }
                assert forall|k: int| 0 <= k < book_moves@.len() implies pseudo_legal(*board, (#[trigger] book_moves@[k]).0) by {
                    if k < before.len() {
                        assert(book_moves@[k] == before[k]);
                    }
                }
            }
            i += 1;
        }
        proof {
            if sorted_by_key(self.entries@) {
                assert forall|j: int| 0 <= j < self.entries@.len() && #[trigger] self.entries@[j].key == hash implies start <= j < i by {
                    if j >= i {
                        assert(self.entries@[i as int].key != hash);
                        assert(self.entries@[i as int].key <= self.entries@[j].key);
                        assert(self.entries@[i as int].key >= hash);
                    }
                }
            }
            assert(probe_ok(*board, self.entries@, book_moves@, legal_moves@, start as int, i as int));
        }
        book_moves
    }

    /// The book move of highest weight (the last of equal weights), if the
    /// position has any: the heaviest of what `probe` gives.
    pub fn get_move(&self, board: &Board) -> (r: Option<Move>)
        requires
            board.wf(),
        ensures
            exists|ps: Seq<(Move, u16)>, l: Seq<Move>, lo: int, hi: int| #[trigger] probe_ok(*board, self.entries(), ps, l, lo, hi)
                && r == heaviest(ps),
            r matches Some(m) ==> pseudo_legal(*board, m),
    {
        let moves = self.probe(board);
        let ghost (l, lo, hi) = choose|l: Seq<Move>, lo: int, hi: int| #[trigger] probe_ok(*board, self.entries(), moves@, l, lo, hi);
        if moves.len() == 0 {
            proof {
                assert(probe_ok(*board, self.entries(), moves@, l, lo, hi));
            }
            return None;
        }
        let mut best = moves[0];
        let mut k: usize = 1;
        while k < moves.len()
            invariant
                1 <= k <= moves@.len(),
                best == moves@[best_index(moves@, k as int)],
                0 <= best_index(moves@, k as int) < k,
                forall|i: int| 0 <= i < moves@.len() ==> pseudo_legal(*board, (#[trigger] moves@[i]).0),
            decreases moves@.len() - k,
        {
            if moves[k].1 >= best.1 {
                best = moves[k];
            }
            k += 1;
        }
        proof {
            assert(probe_ok(*board, self.entries(), moves@, l, lo, hi));
        }
        Some(best.0)
    }

    /// Whether the binary search finds the position's hash; on sorted
    /// entries, whether some entry has it.
    pub fn contains(&self, board: &Board) -> (r: bool)
        ensures
            r ==> exists|i: int| 0 <= i < self.entries().len() && #[trigger] self.entries()[i].key == board.hash_value(),
            sorted_by_key(self.entries()) ==> (r <==> exists|i: int| 0 <= i < self.entries().len()
                && #[trigger] self.entries()[i].key == board.hash_value()),
    {
        let hash = Self::polyglot_hash(board);
        self.find(hash).is_some()
    }
}

} // verus!
