use vstd::prelude::*;
use vstd::std_specs::bits::{u64_trailing_zeros, u64_leading_zeros, axiom_u64_trailing_zeros, axiom_u64_leading_zeros};
use crate::square::{Square, file_of, rank_of};

verus! {

/// Whether bit `i` (square index `i`) of a 64-bit word is set.
pub open spec fn bit(b: u64, i: u64) -> bool {
    i < 64 && (b >> i) & 1u64 == 1u64
}

/// Combining a word with zero by `^` or `|` leaves it unchanged.
pub proof fn lemma_word_identities()
    by (bit_vector)
    ensures
        forall|x: u64| #[trigger] (x ^ 0u64) == x,
        forall|x: u64| #[trigger] (0u64 ^ x) == x,
        forall|x: u64| #[trigger] (x | 0u64) == x,
        0u64 | 0u64 | 0u64 | 0u64 | 0u64 | 0u64 == 0u64,
{
}

/// Number of set bits of a word.
pub open spec fn popcount(x: u64) -> nat
    decreases x,
{
    if x == 0 {
        0
    } else {
        (x % 2) as nat + popcount(x / 2)
    }
}

/// Number of set bits: the lowest set bit is cleared until none is left.
fn count_ones(x: u64) -> (r: u32)
    ensures
        r == popcount(x),
{
    let mut rest = x;
    let mut n: u32 = 0;
    proof {
        lemma_popcount_bound(x);
    }
    while rest != 0
        invariant
            n + popcount(rest) == popcount(x),
            popcount(x) <= 64,
        decreases popcount(rest),
    {
        proof {
            lemma_popcount_clear_lowest(rest);
        }
        rest = rest & (rest - 1);
        n += 1;
    }
    n
}

/// The mask of the a-file.
pub open spec fn file_a_mask() -> u64 {
    0x0101010101010101u64
}

/// The mask of the h-file.
pub open spec fn file_h_mask() -> u64 {
    0x8080808080808080u64
}

pub proof fn lemma_bit_or(a: u64, b: u64)
    ensures
        forall|i: u64| #[trigger] bit(a | b, i) == (bit(a, i) || bit(b, i)),
{
    assert forall|i: u64| #[trigger] bit(a | b, i) == (bit(a, i) || bit(b, i)) by {
        assert(((a | b) >> i) & 1u64 == 1u64 <==> ((a >> i) & 1u64 == 1u64 || (b >> i) & 1u64 == 1u64)) by (bit_vector);
    }
}

pub proof fn lemma_bit_and(a: u64, b: u64)
    ensures
        forall|i: u64| #[trigger] bit(a & b, i) == (bit(a, i) && bit(b, i)),
{
    assert forall|i: u64| #[trigger] bit(a & b, i) == (bit(a, i) && bit(b, i)) by {
        assert(((a & b) >> i) & 1u64 == 1u64 <==> ((a >> i) & 1u64 == 1u64 && (b >> i) & 1u64 == 1u64)) by (bit_vector);
    }
}

pub proof fn lemma_bit_xor(a: u64, b: u64)
    ensures
        forall|i: u64| #[trigger] bit(a ^ b, i) == (i < 64 && bit(a, i) != bit(b, i)),
{
    assert forall|i: u64| #[trigger] bit(a ^ b, i) == (i < 64 && bit(a, i) != bit(b, i)) by {
        assert(i < 64 ==> (((a ^ b) >> i) & 1u64 == 1u64 <==> (((a >> i) & 1u64 == 1u64) != ((b >> i) & 1u64 == 1u64)))) by (bit_vector);
    }
}

pub proof fn lemma_bit_not(a: u64)
    ensures
        forall|i: u64| #[trigger] bit(!a, i) == (i < 64 && !bit(a, i)),
{
    assert forall|i: u64| #[trigger] bit(!a, i) == (i < 64 && !bit(a, i)) by {
        assert(i < 64 ==> (((!a) >> i) & 1u64 == 1u64 <==> !((a >> i) & 1u64 == 1u64))) by (bit_vector);
    }
}

pub proof fn lemma_bit_single(s: u64)
    requires
        s < 64,
    ensures
        forall|i: u64| #[trigger] bit(1u64 << s, i) == (i == s),
{
    assert forall|i: u64| #[trigger] bit(1u64 << s, i) == (i == s) by {
        assert(s < 64 ==> (i < 64 && ((1u64 << s) >> i) & 1u64 == 1u64 <==> i == s)) by (bit_vector);
    }
}

pub proof fn lemma_bit_zero()
    ensures
        forall|i: u64| !#[trigger] bit(0u64, i),
{
    assert forall|i: u64| !#[trigger] bit(0u64, i) by {
        assert((0u64 >> i) & 1u64 == 0u64) by (bit_vector);
    }
}

/// Two words with the same bits are equal.
pub proof fn lemma_eq_by_bits(a: u64, b: u64)
    requires
        forall|i: u64| i < 64 ==> #[trigger] bit(a, i) == bit(b, i),
    ensures
        a == b,
{
    if a != b {
        let x = a ^ b;
        assert(a != b ==> x != 0) by (bit_vector)
            requires x == a ^ b;
        axiom_u64_trailing_zeros(x);
        let t = u64_trailing_zeros(x) as u64;
        assert((x >> t) & 1u64 == 1u64);
        lemma_bit_xor(a, b);
        assert(bit(x, t));
        assert(bit(a, t) != bit(b, t));
    }
}

/// A word is zero exactly when it has no bit set.
pub proof fn lemma_zero_iff_no_bits(a: u64)
    ensures
        (a == 0) <==> (forall|i: u64| i < 64 ==> !#[trigger] bit(a, i)),
{
    lemma_bit_zero();
    if forall|i: u64| i < 64 ==> !#[trigger] bit(a, i) {
        lemma_eq_by_bits(a, 0);
    }
}

/// A bitboard: bit `i` is set when square `i` belongs to the set
/// (bit 0 = a1, bit 1 = b1, ..., bit 63 = h8).
#[derive(Debug, Copy, Clone, PartialEq, Eq, Structural, Hash)]
pub struct Bitboard(pub u64);

impl View for Bitboard {
    type V = Set<nat>;

    /// The set of square indices whose bit is set.
    open spec fn view(&self) -> Set<nat> {
        Set::new(|i: nat| i < 64 && bit(self.0, i as u64))
    }
}

impl Bitboard {
    /// The empty bitboard.
    #[allow(non_snake_case)]
    pub fn EMPTY() -> (r: Bitboard)
        ensures
            r.0 == 0,
            forall|i: u64| !#[trigger] bit(r.0, i),
    {
        proof {
            lemma_bit_zero();
        }
        Bitboard(0)
    }

    /// The full bitboard (all squares set).
    #[allow(non_snake_case)]
    pub fn FULL() -> (r: Bitboard)
        ensures
            r.0 == u64::MAX,
            forall|i: u64| #[trigger] bit(r.0, i) == (i < 64),
    {
        assert forall|i: u64| #[trigger] bit(u64::MAX, i) == (i < 64) by {
            assert(i < 64 ==> (0xffff_ffff_ffff_ffffu64 >> i) & 1u64 == 1u64) by (bit_vector);
        }
        Bitboard(u64::MAX)
    }

    /// Create a bitboard from a word.
    pub fn new(value: u64) -> (r: Bitboard)
        ensures
            r.0 == value,
    {
        Bitboard(value)
    }

    /// A bitboard holding one square.
    pub fn from_square(square: Square) -> (r: Bitboard)
        ensures
            r.0 == 1u64 << (square@ as u64),
            forall|i: u64| #[trigger] bit(r.0, i) == (i == square@),
    {
        let s = square.index() as u64;
        proof {
            lemma_bit_single(s);
        }
        Bitboard(1u64 << s)
    }

    /// Whether a square is set.
    pub fn contains(self, square: Square) -> (r: bool)
        ensures
            r == bit(self.0, square@ as u64),
            r == self@.contains(square@),
    {
        let s = square.index() as u64;
        let x = self.0;
        assert((x & (1u64 << s)) != 0 <==> (x >> s) & 1u64 == 1u64) by (bit_vector)
            requires s < 64;
        (self.0 & (1u64 << s)) != 0
    }

    /// The bitboard with a square added.
    pub fn set(self, square: Square) -> (r: Bitboard)
        ensures
            r.0 == self.0 | (1u64 << (square@ as u64)),
            forall|i: u64| #[trigger] bit(r.0, i) == (bit(self.0, i) || i == square@),
            r@ == self@.insert(square@),
    {
        let s = square.index() as u64;
        proof {
            lemma_bit_single(s);
            lemma_bit_or(self.0, 1u64 << s);
        }
        let r = Bitboard(self.0 | (1u64 << s));
        assert(r@ =~= self@.insert(square@));
        r
    }

    /// The bitboard with a square removed.
    pub fn clear(self, square: Square) -> (r: Bitboard)
        ensures
            r.0 == self.0 & !(1u64 << (square@ as u64)),
            forall|i: u64| #[trigger] bit(r.0, i) == (bit(self.0, i) && i != square@),
            r@ == self@.remove(square@),
    {
        let s = square.index() as u64;
        proof {
            lemma_bit_single(s);
            lemma_bit_not(1u64 << s);
            lemma_bit_and(self.0, !(1u64 << s));
        }
        let r = Bitboard(self.0 & !(1u64 << s));
        assert(r@ =~= self@.remove(square@));
        r
    }

    /// The bitboard with a square flipped.
    pub fn toggle(self, square: Square) -> (r: Bitboard)
        ensures
            r.0 == self.0 ^ (1u64 << (square@ as u64)),
            forall|i: u64| #[trigger] bit(r.0, i) == (i < 64 && (bit(self.0, i) != (i == square@))),
    {
        let s = square.index() as u64;
        proof {
            lemma_bit_single(s);
            lemma_bit_xor(self.0, 1u64 << s);
        }
        Bitboard(self.0 ^ (1u64 << s))
    }

    /// Whether no square is set.
    pub fn is_empty(self) -> (r: bool)
        ensures
            r == (self.0 == 0),
            r == (self@ == Set::<nat>::empty()),
    {
        proof {
            lemma_zero_iff_no_bits(self.0);
            if self.0 != 0 {
                let i = choose|i: u64| i < 64 && bit(self.0, i);
                assert(self@.contains(i as nat));
            } else {
                assert(self@ =~= Set::<nat>::empty());
            }
        }
        self.0 == 0
    }

    /// Whether some square is set.
    pub fn is_not_empty(self) -> (r: bool)
        ensures
            r == (self.0 != 0),
    {
        self.0 != 0
    }

    /// Number of set squares.
    pub fn count(self) -> (r: u32)
        ensures
            r == popcount(self.0),
    {
        count_ones(self.0)
    }

    /// The lowest set square, or `None` when empty.
    pub fn lsb(self) -> (r: Option<Square>)
        ensures
            r is None <==> self.0 == 0,
            r matches Some(sq) ==> sq@ == u64_trailing_zeros(self.0) && bit(self.0, sq@ as u64)
                && forall|j: u64| j < sq@ ==> !#[trigger] bit(self.0, j),
    {
        if self.0 == 0 {
            None
        } else {
            let t = self.0.trailing_zeros();
            proof {
                axiom_u64_trailing_zeros(self.0);
            }
            Some(Square::new(t as u8))
        }
    }

    /// The highest set square, or `None` when empty.
    pub fn msb(self) -> (r: Option<Square>)
        ensures
            r is None <==> self.0 == 0,
            r matches Some(sq) ==> sq@ == 63 - u64_leading_zeros(self.0) && bit(self.0, sq@ as u64)
                && forall|j: u64| sq@ < j ==> !#[trigger] bit(self.0, j),
    {
        if self.0 == 0 {
            None
        } else {
            let l = self.0.leading_zeros();
            proof {
                axiom_u64_leading_zeros(self.0);
            }
            let idx: u8 = 63u8 - (l as u8);
            proof {
                let x = self.0;
                let s = ((63u64 - l as u64) as u64);
                assert(s == idx);
                assert((x >> s) & 1u64 != 0u64 ==> (x >> s) & 1u64 == 1u64) by (bit_vector);
                assert forall|j: u64| idx < j implies !#[trigger] bit(self.0, j) by {
                    if j < 64 {
                        assert((x >> j) & 1u64 == 0u64);
                    }
                }
            }
            Some(Square::new(idx))
        }
    }

    /// Remove and return the lowest set square.
    pub fn pop_lsb(&mut self) -> (r: Option<Square>)
        ensures
            r is None <==> old(self).0 == 0,
            r is None ==> final(self).0 == 0,
            r matches Some(sq) ==> sq@ == u64_trailing_zeros(old(self).0) && bit(old(self).0, sq@ as u64)
                && (forall|j: u64| j < sq@ ==> !#[trigger] bit(old(self).0, j))
                && final(self).0 == old(self).0 & ((old(self).0 - 1u64) as u64)
                && (forall|i: u64| #[trigger] bit(final(self).0, i) == (bit(old(self).0, i) && i != sq@)),
    {
        let r = self.lsb();
        match r {
            None => None,
            Some(sq) => {
                let x = self.0;
                let t = sq.index() as u64;
                proof {
                    axiom_u64_trailing_zeros(x);
                    assert forall|i: u64| #[trigger] bit(x & ((x - 1u64) as u64), i) == (bit(x, i) && i != t) by {
                        assert((x >> t) & 1u64 == 1u64 && x << ((64u64 - t) as u64) == 0 && t < 64 ==>
                            (i < 64 && ((x & ((x - 1u64) as u64)) >> i) & 1u64 == 1u64 <==> (i < 64 && (x >> i) & 1u64 == 1u64 && i != t))) by (bit_vector);
                    }
                }
                self.0 = x & (x - 1);
                Some(sq)
            },
        }
    }

    /// An iterator over the set squares, lowest first.
    pub fn iter(self) -> (r: BitboardIterator)
        ensures
            r.rest() == self,
    {
        BitboardIterator { bb: self }
    }

    /// The set squares in increasing order.
    pub fn squares(self) -> (r: Vec<Square>)
        ensures
            forall|k: int| 0 <= k < r.len() ==> bit(self.0, #[trigger] r@[k]@ as u64),
            forall|i: u64| #[trigger] bit(self.0, i) ==> exists|k: int| 0 <= k < r.len() && r@[k]@ == i,
            forall|k1: int, k2: int| 0 <= k1 < k2 < r.len() ==> (#[trigger] r@[k1])@ < (#[trigger] r@[k2])@,
    {
        let mut v: Vec<Square> = Vec::new();
        let mut rest = self;
        while rest.0 != 0
            invariant
                forall|k: int| 0 <= k < v.len() ==> bit(self.0, #[trigger] v@[k]@ as u64),
                forall|i: u64| #[trigger] bit(self.0, i) ==> bit(rest.0, i) || exists|k: int| 0 <= k < v.len() && v@[k]@ == i,
                forall|i: u64| #[trigger] bit(rest.0, i) ==> bit(self.0, i),
                forall|k: int, i: u64| 0 <= k < v.len() && #[trigger] bit(rest.0, i) ==> (#[trigger] v@[k])@ < i,
                forall|k1: int, k2: int| 0 <= k1 < k2 < v.len() ==> (#[trigger] v@[k1])@ < (#[trigger] v@[k2])@,
            decreases popcount(rest.0),
        {
            let ghost old_rest = rest;
            let ghost old_v = v@;
            let sq = rest.pop_lsb().unwrap();
            proof {
                lemma_popcount_clear_lowest(old_rest.0);
            }
            v.push(sq);
            proof {
                assert(v@ == old_v.push(sq));
                assert forall|i: u64| #[trigger] bit(self.0, i) implies bit(rest.0, i) || exists|k: int| 0 <= k < v.len() && v@[k]@ == i by {
                    if !bit(rest.0, i) {
                        if bit(old_rest.0, i) {
                            assert(v@[old_v.len() as int]@ == i);
                        } else {
                            let k = choose|k: int| 0 <= k < old_v.len() && old_v[k]@ == i;
                            assert(v@[k] == old_v[k]);
                        }
                    }
                }
                assert forall|k: int| 0 <= k < v.len() implies bit(self.0, #[trigger] v@[k]@ as u64) by {
                    if k < old_v.len() {
                        assert(v@[k] == old_v[k]);
                    }
                }
                assert forall|k: int, i: u64| 0 <= k < v.len() && #[trigger] bit(rest.0, i) implies (#[trigger] v@[k])@ < i by {
                    assert(bit(old_rest.0, i));
                    if k < old_v.len() {
                        assert(v@[k] == old_v[k]);
                    } else {
                        assert(i != sq@);
                        if i < sq@ {
                            assert(!bit(old_rest.0, i));
                        }
                    }
                }
                assert forall|k1: int, k2: int| 0 <= k1 < k2 < v.len() implies (#[trigger] v@[k1])@ < (#[trigger] v@[k2])@ by {
                    assert(v@[k1] == old_v[k1]);
                    if k2 < old_v.len() {
                        assert(v@[k2] == old_v[k2]);
                    } else {
                        assert(bit(old_rest.0, sq@ as u64));
                    }
                }
            }
        }
        proof {
            lemma_zero_iff_no_bits(rest.0);
        }
        v
    }

    /// Shift toward rank 8.
    pub fn shift_north(self) -> (r: Bitboard)
        ensures
            r.0 == (self.0 << 8u64),
            forall|i: u64| #[trigger] bit(r.0, i) == (8 <= i && i < 64 && bit(self.0, (i - 8) as u64)),
    {
        let x = self.0;
        proof {
            assert forall|i: u64| #[trigger] bit((x << 8u64), i) == (8 <= i && i < 64 && bit(x, (i - 8) as u64)) by {
                assert((i < 64 && (((x << 8u64)) >> i) & 1u64 == 1u64) == (8u64 <= i && i < 64 && (x >> ((i - 8u64) as u64)) & 1u64 == 1u64)) by (bit_vector);
            }
        }
        Bitboard((x << 8u64))
    }

    /// Shift toward rank 1.
    pub fn shift_south(self) -> (r: Bitboard)
        ensures
            r.0 == (self.0 >> 8u64),
            forall|i: u64| #[trigger] bit(r.0, i) == (i + 8 < 64 && bit(self.0, (i + 8) as u64)),
    {
        let x = self.0;
        proof {
            assert forall|i: u64| #[trigger] bit((x >> 8u64), i) == (i + 8 < 64 && bit(x, (i + 8) as u64)) by {
                assert((i < 64 && (((x >> 8u64)) >> i) & 1u64 == 1u64) == (i < 56u64 && (x >> ((i + 8u64) as u64)) & 1u64 == 1u64)) by (bit_vector);
            }
        }
        Bitboard((x >> 8u64))
    }

    /// Shift toward the h-file.
    pub fn shift_east(self) -> (r: Bitboard)
        ensures
            r.0 == (self.0 << 1u64) & !file_a_mask(),
            forall|i: u64| #[trigger] bit(r.0, i) == (file_of(i as nat) != 0 && 1 <= i && i < 64 && bit(self.0, (i - 1) as u64)),
    {
        let x = self.0;
        proof {
            assert forall|i: u64| #[trigger] bit((x << 1u64) & !0x0101010101010101u64, i) == (file_of(i as nat) != 0 && 1 <= i && i < 64 && bit(x, (i - 1) as u64)) by {
                assert((i < 64 && (((x << 1u64) & !0x0101010101010101u64) >> i) & 1u64 == 1u64) == (i % 8 != 0 && 1u64 <= i && i < 64 && (x >> ((i - 1u64) as u64)) & 1u64 == 1u64)) by (bit_vector);
            }
        }
        Bitboard((x << 1u64) & !0x0101010101010101u64)
    }

    /// Shift toward the a-file.
    pub fn shift_west(self) -> (r: Bitboard)
        ensures
            r.0 == (self.0 >> 1u64) & !file_h_mask(),
            forall|i: u64| #[trigger] bit(r.0, i) == (file_of(i as nat) != 7 && i + 1 < 64 && bit(self.0, (i + 1) as u64)),
    {
        let x = self.0;
        proof {
            assert forall|i: u64| #[trigger] bit((x >> 1u64) & !0x8080808080808080u64, i) == (file_of(i as nat) != 7 && i + 1 < 64 && bit(x, (i + 1) as u64)) by {
                assert((i < 64 && (((x >> 1u64) & !0x8080808080808080u64) >> i) & 1u64 == 1u64) == (i % 8 != 7 && i < 63u64 && (x >> ((i + 1u64) as u64)) & 1u64 == 1u64)) by (bit_vector);
            }
        }
        Bitboard((x >> 1u64) & !0x8080808080808080u64)
    }

    /// Shift one step toward rank 8 and the h-file.
    pub fn shift_north_east(self) -> (r: Bitboard)
        ensures
            r.0 == (self.0 << 9u64) & !file_a_mask(),
            forall|i: u64| #[trigger] bit(r.0, i) == (file_of(i as nat) != 0 && 9 <= i && i < 64 && bit(self.0, (i - 9) as u64)),
    {
        let x = self.0;
        proof {
            assert forall|i: u64| #[trigger] bit((x << 9u64) & !0x0101010101010101u64, i) == (file_of(i as nat) != 0 && 9 <= i && i < 64 && bit(x, (i - 9) as u64)) by {
                assert((i < 64 && (((x << 9u64) & !0x0101010101010101u64) >> i) & 1u64 == 1u64) == (i % 8 != 0 && 9u64 <= i && i < 64 && (x >> ((i - 9u64) as u64)) & 1u64 == 1u64)) by (bit_vector);
            }
        }
        Bitboard((x << 9u64) & !0x0101010101010101u64)
    }

    /// Shift one step toward rank 8 and the a-file.
    pub fn shift_north_west(self) -> (r: Bitboard)
        ensures
            r.0 == (self.0 << 7u64) & !file_h_mask(),
            forall|i: u64| #[trigger] bit(r.0, i) == (file_of(i as nat) != 7 && 7 <= i && i < 64 && bit(self.0, (i - 7) as u64)),
    {
        let x = self.0;
        proof {
            assert forall|i: u64| #[trigger] bit((x << 7u64) & !0x8080808080808080u64, i) == (file_of(i as nat) != 7 && 7 <= i && i < 64 && bit(x, (i - 7) as u64)) by {
                assert((i < 64 && (((x << 7u64) & !0x8080808080808080u64) >> i) & 1u64 == 1u64) == (i % 8 != 7 && 7u64 <= i && i < 64 && (x >> ((i - 7u64) as u64)) & 1u64 == 1u64)) by (bit_vector);
            }
        }
        Bitboard((x << 7u64) & !0x8080808080808080u64)
    }

    /// Shift one step toward rank 1 and the h-file.
    pub fn shift_south_east(self) -> (r: Bitboard)
        ensures
            r.0 == (self.0 >> 7u64) & !file_a_mask(),
            forall|i: u64| #[trigger] bit(r.0, i) == (file_of(i as nat) != 0 && i + 7 < 64 && bit(self.0, (i + 7) as u64)),
    {
        let x = self.0;
        proof {
            assert forall|i: u64| #[trigger] bit((x >> 7u64) & !0x0101010101010101u64, i) == (file_of(i as nat) != 0 && i + 7 < 64 && bit(x, (i + 7) as u64)) by {
                assert((i < 64 && (((x >> 7u64) & !0x0101010101010101u64) >> i) & 1u64 == 1u64) == (i % 8 != 0 && i < 57u64 && (x >> ((i + 7u64) as u64)) & 1u64 == 1u64)) by (bit_vector);
            }
        }
        Bitboard((x >> 7u64) & !0x0101010101010101u64)
    }

    /// Shift one step toward rank 1 and the a-file.
    pub fn shift_south_west(self) -> (r: Bitboard)
        ensures
            r.0 == (self.0 >> 9u64) & !file_h_mask(),
            forall|i: u64| #[trigger] bit(r.0, i) == (file_of(i as nat) != 7 && i + 9 < 64 && bit(self.0, (i + 9) as u64)),
    {
        let x = self.0;
        proof {
            assert forall|i: u64| #[trigger] bit((x >> 9u64) & !0x8080808080808080u64, i) == (file_of(i as nat) != 7 && i + 9 < 64 && bit(x, (i + 9) as u64)) by {
                assert((i < 64 && (((x >> 9u64) & !0x8080808080808080u64) >> i) & 1u64 == 1u64) == (i % 8 != 7 && i < 55u64 && (x >> ((i + 9u64) as u64)) & 1u64 == 1u64)) by (bit_vector);
            }
        }
        Bitboard((x >> 9u64) & !0x8080808080808080u64)
    }

    /// Intersection.
    pub fn and(self, rhs: Bitboard) -> (r: Bitboard)
        ensures
            r.0 == self.0 & rhs.0,
            forall|i: u64| #[trigger] bit(r.0, i) == (bit(self.0, i) && bit(rhs.0, i)),
    {
        proof {
            lemma_bit_and(self.0, rhs.0);
        }
        Bitboard(self.0 & rhs.0)
    }

    /// Union.
    pub fn or(self, rhs: Bitboard) -> (r: Bitboard)
        ensures
            r.0 == self.0 | rhs.0,
            forall|i: u64| #[trigger] bit(r.0, i) == (bit(self.0, i) || bit(rhs.0, i)),
    {
        proof {
            lemma_bit_or(self.0, rhs.0);
        }
        Bitboard(self.0 | rhs.0)
    }

    /// Symmetric difference.
    pub fn xor(self, rhs: Bitboard) -> (r: Bitboard)
        ensures
            r.0 == self.0 ^ rhs.0,
            forall|i: u64| #[trigger] bit(r.0, i) == (i < 64 && bit(self.0, i) != bit(rhs.0, i)),
    {
        proof {
            lemma_bit_xor(self.0, rhs.0);
        }
        Bitboard(self.0 ^ rhs.0)
    }

    /// Complement.
    pub fn not(self) -> (r: Bitboard)
        ensures
            r.0 == !self.0,
            forall|i: u64| #[trigger] bit(r.0, i) == (i < 64 && !bit(self.0, i)),
    {
        proof {
            lemma_bit_not(self.0);
        }
        Bitboard(!self.0)
    }
}

/// Clearing the lowest set bit lowers the population count by one.
pub proof fn lemma_popcount_clear_lowest(x: u64)
    requires
        x != 0,
    ensures
        popcount(x & ((x - 1u64) as u64)) + 1 == popcount(x),
    decreases x,
{
    assert(x != 0 ==> x / 2 == x >> 1u64) by (bit_vector);
    if x % 2 == 1 {
        assert(x % 2 == 1 ==> x & ((x - 1u64) as u64) == x - 1) by (bit_vector);
        assert((x - 1) % 2 == 0);
        assert(x % 2 == 1 ==> (x - 1) / 2 == x / 2) by (bit_vector);
        assert(popcount((x - 1) as u64) == popcount(((x - 1) / 2) as u64));
    } else {
        let y = x / 2;
        assert(x % 2 == 0 && x != 0 ==> y != 0) by (bit_vector)
            requires y == x / 2;
        lemma_popcount_clear_lowest(y);
        assert(x % 2 == 0 && x != 0 ==> (x & ((x - 1u64) as u64)) % 2 == 0 && (x & ((x - 1u64) as u64)) / 2 == (y & ((y - 1u64) as u64))) by (bit_vector)
            requires y == x / 2;
        let z = x & ((x - 1u64) as u64);
        assert(z != 0 ==> popcount(z) == (z % 2) as nat + popcount(z / 2));
        assert(popcount(z) == popcount(y & ((y - 1u64) as u64)));
    }
}

/// Iterator over the set squares of a bitboard, lowest first.
pub struct BitboardIterator {
    bb: Bitboard,
}

impl BitboardIterator {
    /// The squares not yet produced.
    pub closed spec fn rest(self) -> Bitboard {
        self.bb
    }

    /// The next (lowest) remaining square, or `None` when done.
    pub fn next(&mut self) -> (r: Option<Square>)
        ensures
            r is None <==> old(self).rest().0 == 0,
            r matches Some(sq) ==> bit(old(self).rest().0, sq@ as u64)
                && (forall|j: u64| j < sq@ ==> !#[trigger] bit(old(self).rest().0, j))
                && (forall|i: u64| #[trigger] bit(final(self).rest().0, i) == (bit(old(self).rest().0, i) && i != sq@)),
            r is None ==> final(self).rest().0 == 0,
    {
        self.bb.pop_lsb()
    }

    /// Number of squares left.
    pub fn remaining(&self) -> (r: usize)
        ensures
            r == popcount(self.rest().0),
    {
        let c = self.bb.count();
        proof {
            lemma_popcount_bound(self.bb.0);
        }
        c as usize
    }
}

/// A word has at most 64 set bits.
pub proof fn lemma_popcount_bound(x: u64)
    ensures
        popcount(x) <= 64,
{
    assert(x >> 64u64 == 0) by (bit_vector);
    lemma_popcount_shift(x, 64);
}

proof fn lemma_popcount_shift(x: u64, n: u64)
    requires
        n <= 64,
        x >> n == 0,
    ensures
        popcount(x) <= n,
    decreases n,
{
    if x != 0 {
        assert(x >> 0u64 == x) by (bit_vector);
        assert(n > 0);
        let y = x / 2;
        assert(x >> n == 0 && n > 0 && n <= 64 ==> (x / 2) >> ((n - 1) as u64) == 0) by (bit_vector);
        lemma_popcount_shift(y, (n - 1) as u64);
    }
}

/// 2 to the power `n`.
pub open spec fn pow2_u64(n: nat) -> nat
    decreases n,
{
    if n == 0 {
        1
    } else {
        2 * pow2_u64((n - 1) as nat)
    }
}

impl core::ops::BitAnd for Bitboard {
    type Output = Bitboard;

    /// Intersection, as `and`.
    fn bitand(self, rhs: Bitboard) -> (r: Bitboard)
        ensures
            r.0 == self.0 & rhs.0,
    {
        self.and(rhs)
    }
}

impl core::ops::BitOr for Bitboard {
    type Output = Bitboard;

    /// Union, as `or`.
    fn bitor(self, rhs: Bitboard) -> (r: Bitboard)
        ensures
            r.0 == self.0 | rhs.0,
    {
        self.or(rhs)
    }
}

impl core::ops::BitXor for Bitboard {
    type Output = Bitboard;

    /// Symmetric difference, as `xor`.
    fn bitxor(self, rhs: Bitboard) -> (r: Bitboard)
        ensures
            r.0 == self.0 ^ rhs.0,
    {
        self.xor(rhs)
    }
}

impl core::ops::Not for Bitboard {
    type Output = Bitboard;

    /// Complement, as `not`.
    fn not(self) -> (r: Bitboard)
        ensures
            r.0 == !self.0,
    {
        Bitboard::not(self)
    }
}

impl vstd::std_specs::ops::BitAndSpecImpl for Bitboard {
    open spec fn obeys_bitand_spec() -> bool {
        true
    }

    open spec fn bitand_req(self, rhs: Bitboard) -> bool {
        true
    }

    open spec fn bitand_spec(self, rhs: Bitboard) -> Bitboard {
        Bitboard(self.0 & rhs.0)
    }
}

impl vstd::std_specs::ops::BitOrSpecImpl for Bitboard {
    open spec fn obeys_bitor_spec() -> bool {
        true
    }

    open spec fn bitor_req(self, rhs: Bitboard) -> bool {
        true
    }

    open spec fn bitor_spec(self, rhs: Bitboard) -> Bitboard {
        Bitboard(self.0 | rhs.0)
    }
}

impl vstd::std_specs::ops::BitXorSpecImpl for Bitboard {
    open spec fn obeys_bitxor_spec() -> bool {
        true
    }

    open spec fn bitxor_req(self, rhs: Bitboard) -> bool {
        true
    }

    open spec fn bitxor_spec(self, rhs: Bitboard) -> Bitboard {
        Bitboard(self.0 ^ rhs.0)
    }
}

impl vstd::std_specs::ops::NotSpecImpl for Bitboard {
    open spec fn obeys_not_spec() -> bool {
        true
    }

    open spec fn not_req(self) -> bool {
        true
    }

    open spec fn not_spec(self) -> Bitboard {
        Bitboard(!self.0)
    }
}

/// The sum of `f` over the set squares of `x`, lowest square first.
pub open spec fn bit_sum(x: u64, f: spec_fn(nat) -> int) -> int
    decreases popcount(x),
{
    if x == 0 {
        0
    } else {
        proof {
            lemma_popcount_clear_lowest(x);
        }
        f(u64_trailing_zeros(x) as nat) + bit_sum(x & ((x - 1u64) as u64), f)
    }
}

/// A sum over set squares of terms bounded by `m` is bounded by the count
/// times `m`.
pub proof fn lemma_bit_sum_bound(x: u64, f: spec_fn(nat) -> int, m: int)
    requires
        m >= 0,
        forall|s: nat| s < 64 ==> -m <= #[trigger] f(s) <= m,
    ensures
        -m * popcount(x) <= bit_sum(x, f) <= m * popcount(x),
    decreases popcount(x),
{
    if x != 0 {
        lemma_popcount_clear_lowest(x);
        axiom_u64_trailing_zeros(x);
        lemma_bit_sum_bound(x & ((x - 1u64) as u64), f, m);
        let p = popcount(x & ((x - 1u64) as u64));
        assert(m * popcount(x) == m * p + m) by (nonlinear_arith)
            requires popcount(x) == p + 1;
        assert(-m * popcount(x) == -m * p - m) by (nonlinear_arith)
            requires popcount(x) == p + 1;
    }
}

/// Two sums over the same squares agree when their terms agree on every
/// set square.
pub proof fn lemma_bit_sum_ext(x: u64, f: spec_fn(nat) -> int, g: spec_fn(nat) -> int)
    requires
        forall|s: nat| s < 64 && bit(x, s as u64) ==> #[trigger] f(s) == g(s),
    ensures
        bit_sum(x, f) == bit_sum(x, g),
    decreases popcount(x),
{
    if x != 0 {
        lemma_popcount_clear_lowest(x);
        axiom_u64_trailing_zeros(x);
        let t = u64_trailing_zeros(x);
        let y = x & ((x - 1u64) as u64);
        assert forall|i: u64| #[trigger] bit(y, i) ==> bit(x, i) by {
            assert(((x & ((x - 1u64) as u64)) >> i) & 1u64 == 1u64 ==> (x >> i) & 1u64 == 1u64) by (bit_vector);
        }
        assert(bit(x, t as u64)) by {
            assert((x >> t as u64) & 1u64 == 1u64);
        }
        lemma_bit_sum_ext(y, f, g);
    }
}

/// The number of squares below `n` satisfying `p`.
pub open spec fn square_count(n: nat, p: spec_fn(nat) -> bool) -> nat
    decreases n,
{
    if n == 0 { 0 } else { square_count((n - 1) as nat, p) + if p((n - 1) as nat) { 1nat } else { 0 } }
}

/// Counting squares below `n + 1` is counting square zero, then the squares
/// below `n` shifted by one (`ps` is `p` shifted).
proof fn lemma_square_count_shift(n: nat, p: spec_fn(nat) -> bool, ps: spec_fn(nat) -> bool)
    requires
        forall|t: nat| #[trigger] ps(t) == p(t + 1),
    ensures
        square_count(n + 1, p) == (if p(0) { 1nat } else { 0 }) + square_count(n, ps),
    decreases n,
{
    let m = (n - 1) as nat;
    if n > 0 {
        lemma_square_count_shift(m, p, ps);
        assert(ps(m) == p(n));
        assert(m + 1 == n);
        assert(square_count(n + 1, p) == square_count(n, p) + if p(n) { 1nat } else { 0 });
        assert(square_count(n, ps) == square_count(m, ps) + if ps(m) { 1nat } else { 0 });
    } else {
        assert(square_count(1, p) == square_count(0, p) + if p(0) { 1nat } else { 0 });
    }
}

/// Squares with the same membership are counted alike.
pub proof fn lemma_square_count_ext(n: nat, p: spec_fn(nat) -> bool, q: spec_fn(nat) -> bool)
    requires
        forall|t: nat| t < n ==> #[trigger] p(t) == q(t),
    ensures
        square_count(n, p) == square_count(n, q),
    decreases n,
{
    if n > 0 {
        lemma_square_count_ext((n - 1) as nat, p, q);
    }
}

/// The population count of a word is the number of its set squares.
pub proof fn lemma_popcount_squares(x: u64)
    ensures
        popcount(x) == square_count(64, |t: nat| bit(x, t as u64)),
    decreases x,
{
    let p = |t: nat| bit(x, t as u64);
    let y = x / 2;
    let q = |t: nat| bit(y, t as u64);
    let ps = |t: nat| p(t + 1);
    lemma_square_count_shift(63, p, ps);
    assert forall|t: nat| t < 63 implies #[trigger] ps(t) == q(t) by {
        let tt = t as u64;
        assert(((x >> ((tt + 1) as u64)) & 1u64 == 1u64) == (((x / 2) >> tt) & 1u64 == 1u64)) by (bit_vector)
            requires tt < 63;
    }
    lemma_square_count_ext(63, ps, q);
    assert(bit(x, 0) == (x % 2 == 1)) by {
        assert(((x >> 0u64) & 1u64 == 1u64) == (x % 2 == 1)) by (bit_vector);
    }
    if x == 0 {
        lemma_bit_zero();
        lemma_square_count_ext(64, p, |t: nat| false);
        lemma_square_count_zero(64);
    } else {
        lemma_popcount_squares(y);
        assert(!bit(y, 63)) by {
            assert(((x / 2) >> 63u64) & 1u64 == 0u64) by (bit_vector);
        }
        assert(square_count(64, q) == square_count(63, q) + 0);
    }
}

/// Nothing is counted when nothing holds.
proof fn lemma_square_count_zero(n: nat)
    ensures
        square_count(n, |t: nat| false) == 0,
    decreases n,
{
    if n > 0 {
        lemma_square_count_zero((n - 1) as nat);
    }
}

} // verus!
