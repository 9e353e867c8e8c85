//! Transposition table: previously searched positions, found again by their
//! Zobrist hash.
use vstd::prelude::*;
use crate::chess_move::Move;
use crate::eval::pawns::lemma_and_le;

verus! {

/// Bytes taken by one entry when sizing a table from megabytes.
const ENTRY_SIZE: usize = 16;

/// What a stored score says of the true value.
#[derive(Debug, Copy, Clone, PartialEq, Eq, Structural)]
pub enum Bound {
    /// The exact score (a principal-variation node).
    Exact,
    /// A lower bound (the search failed high: score >= beta).
    Lower,
    /// An upper bound (the search failed low: score <= alpha).
    Upper,
}

/// One stored search result.
#[derive(Debug, Copy, Clone)]
pub struct TTEntry {
    /// Zobrist hash of the position, to tell positions in one slot apart.
    pub hash: u64,
    /// Best move found in the position.
    pub best_move: Move,
    /// The score.
    pub score: i32,
    /// The depth searched.
    pub depth: u8,
    /// What the score bounds.
    pub bound: Bound,
    /// The search generation that stored it.
    pub age: u8,
}

/// Whether an entry is the empty one: all zero, an exact bound and the null
/// move.
pub open spec fn is_empty_entry(e: TTEntry) -> bool {
    &&& e.hash == 0
    &&& e.best_move@ == 0
    &&& e.score == 0
    &&& e.depth == 0
    &&& e.bound == Bound::Exact
    &&& e.age == 0
}

impl TTEntry {
    /// The empty entry.
    pub fn empty() -> (r: TTEntry)
        ensures
            is_empty_entry(r),
    {
        TTEntry { hash: 0, best_move: Move::null(), score: 0, depth: 0, bound: Bound::Exact, age: 0 }
    }

    /// Whether this entry was stored for `hash`.
    pub fn is_valid(&self, hash: u64) -> (r: bool)
        ensures
            r == (self.hash == hash),
    {
        self.hash == hash
    }
}

impl Default for TTEntry {
    fn default() -> (r: TTEntry)
        ensures
            is_empty_entry(r),
    {
        TTEntry::empty()
    }
}

/// Whether `n` is a power of two.
pub open spec fn is_pow2(n: nat) -> bool
    decreases n,
{
    if n <= 1 {
        n == 1
    } else {
        n % 2 == 0 && is_pow2(n / 2)
    }
}

/// Whether an entry at depth `old_depth` and age `old_age` holding
/// `old_hash` gives way to a new result for `hash` at `depth`: an empty
/// slot, the same position, a search at least as deep, or an older
/// generation.
pub open spec fn replaces(e: TTEntry, hash: u64, depth: u8, generation: u8) -> bool {
    e.hash == 0 || e.hash == hash || depth >= e.depth || e.age != generation
}

/// What a probe of `hash` finds when its slot is `i`: the entry there if it
/// was stored for `hash`.
pub open spec fn found(slots: Seq<TTEntry>, i: int, hash: u64) -> Option<TTEntry> {
    if slots[i].hash == hash {
        Some(slots[i])
    } else {
        None
    }
}

/// The entries after storing a result for `hash` in slot `i` in generation
/// `generation`: the new entry replaces the old one if that gives way.
pub open spec fn stored(
    slots: Seq<TTEntry>,
    i: int,
    generation: u8,
    hash: u64,
    best_move: Move,
    score: i32,
    depth: u8,
    bound: Bound,
) -> Seq<TTEntry> {
    if replaces(slots[i], hash, depth, generation) {
        slots.update(i, TTEntry { hash, best_move, score, depth, bound, age: generation })
    } else {
        slots
    }
}

/// Number of entries among the first `n` with a nonzero hash.
pub open spec fn filled_count(s: Seq<TTEntry>, n: int) -> nat
    decreases n,
{
    if n <= 0 {
        0
    } else {
        filled_count(s, n - 1) + if s[n - 1].hash != 0 { 1nat } else { 0nat }
    }
}

proof fn lemma_filled_count_le(s: Seq<TTEntry>, n: int)
    requires
        0 <= n,
    ensures
        filled_count(s, n) <= n,
    decreases n,
{
    if n > 0 {
        lemma_filled_count_le(s, n - 1);
    }
}

/// A hash table of search results, indexed by the low bits of the hash.
pub struct TranspositionTable {
    entries: Vec<TTEntry>,
    mask: u64,
    generation: u8,
}

impl TranspositionTable {
    /// The number of entries is a power of two, one more than the mask.
    pub closed spec fn wf(self) -> bool {
        &&& self.entries@.len() == self.mask + 1
        &&& self.mask < 0x8000_0000
        &&& is_pow2(self.entries@.len())
    }

    /// The entries.
    pub closed spec fn slots(self) -> Seq<TTEntry> {
        self.entries@
    }

    /// The current search generation.
    pub closed spec fn gen(self) -> u8 {
        self.generation
    }

    /// The slot of a hash: its low bits.
    pub closed spec fn slot_of(self, hash: u64) -> int {
        (hash & self.mask) as int
    }

    /// The slot of a hash lies in the table.
    pub proof fn lemma_slot_in_range(self, hash: u64)
        requires
            self.wf(),
        ensures
            0 <= self.slot_of(hash) < self.slots().len(),
    {
        lemma_and_le(hash, self.mask);
    }

    /// A table of `size_mb` megabytes at 16 bytes an entry, rounded up to a
    /// power of two entries, all empty, at generation zero.
    pub fn new(size_mb: usize) -> (r: TranspositionTable)
        requires
            size_mb <= 0x4000,
            size_mb * 1048576 <= usize::MAX,
        ensures
            r.wf(),
            r.gen() == 0,
            r.slots().len() >= size_mb * 65536,
            r.slots().len() < 2 * size_mb * 65536 || r.slots().len() == 1,
            forall|i: int| 0 <= i < r.slots().len() ==> is_empty_entry(#[trigger] r.slots()[i]),
    {
        let num_entries: usize = (size_mb * 1024 * 1024) / ENTRY_SIZE;
        assert(num_entries == size_mb * 65536);
        let mut n: u64 = 1;
        while (n as usize) < num_entries
            invariant
                n <= 0x8000_0000,
                n >= 1,
                n == 1 || (n / 2) < num_entries,
                is_pow2(n as nat),
                num_entries <= 0x4000_0000,
            decreases 0x1_0000_0000 - n,
        {
            assert(is_pow2((n * 2) as nat)) by {
                assert((n * 2) as nat / 2 == n);
            }
            n = n * 2;
        }
        let mut entries: Vec<TTEntry> = Vec::new();
        let mut i: u64 = 0;
        while i < n
            invariant
                i <= n,
                entries@.len() == i,
                forall|j: int| 0 <= j < i ==> is_empty_entry(#[trigger] entries@[j]),
            decreases n - i,
        {
            entries.push(TTEntry::empty());
            i += 1;
        }
        TranspositionTable { entries, mask: n - 1, generation: 0 }
    }

    /// The entry in `hash`'s slot, when it was stored for that hash.
    pub fn probe(&self, hash: u64) -> (r: Option<&TTEntry>)
        requires
            self.wf(),
        ensures
            r.is_some() == found(self.slots(), self.slot_of(hash), hash).is_some(),
            r matches Some(e) ==> found(self.slots(), self.slot_of(hash), hash) == Some(*e),
    {
        proof {
            lemma_and_le(hash, self.mask);
        }
        let index = (hash & self.mask) as usize;
        let entry = &self.entries[index];
        if entry.is_valid(hash) {
            Some(entry)
        } else {
            None
        }
    }

    /// Store a search result in `hash`'s slot when the entry there gives way
    /// to it (see `replaces`); the new entry carries the current generation.
    pub fn store(&mut self, hash: u64, best_move: Move, score: i32, depth: u8, bound: Bound)
        requires
            old(self).wf(),
        ensures
            final(self).wf(),
            final(self).gen() == old(self).gen(),
            final(self).slot_of(hash) == old(self).slot_of(hash),
            forall|h: u64| #[trigger] final(self).slot_of(h) == old(self).slot_of(h),
            final(self).slots() == stored(old(self).slots(), old(self).slot_of(hash), old(self).gen(),
                hash, best_move, score, depth, bound),
    {
        proof {
            lemma_and_le(hash, self.mask);
        }
        let index = (hash & self.mask) as usize;
        let entry = self.entries[index];
        let should_replace = entry.hash == 0 || entry.hash == hash || depth >= entry.depth
            || entry.age != self.generation;
        if should_replace {
            self.entries.set(index, TTEntry { hash, best_move, score, depth, bound, age: self.generation });
        }
    }

    /// Empty every slot.
    pub fn clear(&mut self)
        requires
            old(self).wf(),
        ensures
            final(self).wf(),
            final(self).gen() == old(self).gen(),
            forall|h: u64| #[trigger] final(self).slot_of(h) == old(self).slot_of(h),
            final(self).slots().len() == old(self).slots().len(),
            forall|i: int| 0 <= i < final(self).slots().len() ==> is_empty_entry(#[trigger] final(self).slots()[i]),
    {
        let n = self.entries.len();
        let mut i: usize = 0;
        while i < n
            invariant
                i <= n,
                self.entries@.len() == n,
                n == self.mask + 1,
                self.mask < 0x8000_0000,
                is_pow2(n as nat),
                self.mask == old(self).mask,
                self.generation == old(self).generation,
                forall|j: int| 0 <= j < i ==> is_empty_entry(#[trigger] self.entries@[j]),
            decreases n - i,
        {
            self.entries.set(i, TTEntry::empty());
            i += 1;
        }
    }

    /// Start a new search: the generation advances, wrapping at 256.
    pub fn new_search(&mut self)
        requires
            old(self).wf(),
        ensures
            final(self).wf(),
            final(self).slots() == old(self).slots(),
            forall|h: u64| #[trigger] final(self).slot_of(h) == old(self).slot_of(h),
            final(self).gen() == (old(self).gen() + 1) % 256,
    {
        self.generation = self.generation.wrapping_add(1);
    }

    /// How full the table is, in permille, judged from its first 1000
    /// entries (all of them when it has fewer).
    pub fn hashfull(&self) -> (r: usize)
        requires
            self.wf(),
        ensures
            ({
                let n = if self.slots().len() < 1000 { self.slots().len() as int } else { 1000int };
                r == (filled_count(self.slots(), n) * 1000) as int / n
            }),
    {
        let sample_size: usize = if self.entries.len() < 1000 { self.entries.len() } else { 1000 };
        let mut filled: usize = 0;
        let mut i: usize = 0;
        while i < sample_size
            invariant
                i <= sample_size,
                sample_size <= 1000,
                sample_size <= self.entries@.len(),
                filled == filled_count(self.entries@, i as int),
            decreases sample_size - i,
        {
            proof {
                lemma_filled_count_le(self.entries@, i as int);
            }
            if self.entries[i].hash != 0 {
                filled += 1;
            }
            i += 1;
        }
        proof {
            lemma_filled_count_le(self.entries@, sample_size as int);
        }
        (filled * 1000) / sample_size
    }

    /// The number of entries.
    pub fn size(&self) -> (r: usize)
        requires
            self.wf(),
        ensures
            r == self.slots().len(),
            is_pow2(r as nat),
    {
        self.entries.len()
    }
}

/// A stored result is found again. After a result for `hash` is stored, a
/// probe of `hash` finds exactly that result, stamped with the current
/// generation, whenever the entry in its slot gave way, which it always does
/// when the slot was empty or already held `hash`; a probe of any hash of
/// another slot finds what it found before.
pub proof fn lemma_store_then_probe(
    t: TranspositionTable,
    hash: u64,
    best_move: Move,
    score: i32,
    depth: u8,
    bound: Bound,
)
    requires
        t.wf(),
    ensures
        ({
            let i = t.slot_of(hash);
            let after = stored(t.slots(), i, t.gen(), hash, best_move, score, depth, bound);
            &&& (t.slots()[i].hash == 0 || t.slots()[i].hash == hash) ==> replaces(t.slots()[i], hash, depth, t.gen())
            &&& replaces(t.slots()[i], hash, depth, t.gen()) ==> found(after, i, hash)
                == Some(TTEntry { hash, best_move, score, depth, bound, age: t.gen() })
            &&& forall|h: u64| t.slot_of(h) != i ==> #[trigger] found(after, t.slot_of(h), h) == found(t.slots(), t.slot_of(h), h)
        }),
{
    t.lemma_slot_in_range(hash);
    assert forall|h: u64| t.slot_of(h) != t.slot_of(hash) implies #[trigger] found(
        stored(t.slots(), t.slot_of(hash), t.gen(), hash, best_move, score, depth, bound), t.slot_of(h), h)
        == found(t.slots(), t.slot_of(h), h) by {
        t.lemma_slot_in_range(h);
    }
}

impl Default for TranspositionTable {
    /// A table of 16 megabytes.
    fn default() -> (r: TranspositionTable)
        ensures
            r.wf(),
            r.gen() == 0,
            1048576 <= r.slots().len() < 2097152,
            forall|i: int| 0 <= i < r.slots().len() ==> is_empty_entry(#[trigger] r.slots()[i]),
    {
        TranspositionTable::new(16)
    }
}

} // verus!
