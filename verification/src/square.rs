use vstd::prelude::*;
use crate::text::push_char;
use vstd::string::StringSliceAdditionalSpecFns;

verus! {

/// A square on the chessboard, indexed 0-63 rank by rank from a1
/// (a1 = 0, b1 = 1, ..., h1 = 7, a2 = 8, ..., h8 = 63).
#[derive(Debug, Copy, Clone, PartialEq, Eq, Structural, PartialOrd, Ord, Hash)]
pub struct Square(u8);

impl View for Square {
    type V = nat;

    closed spec fn view(&self) -> nat {
        self.0 as nat
    }
}

/// File (0 = a, ..., 7 = h) of a square index.
pub open spec fn file_of(i: nat) -> nat {
    i % 8
}

/// Rank (0 = rank 1, ..., 7 = rank 8) of a square index.
pub open spec fn rank_of(i: nat) -> nat {
    i / 8
}

/// Algebraic name of a square index, such as "e4".
pub open spec fn algebraic(i: nat) -> Seq<char> {
    seq![(('a' as nat) + file_of(i)) as char, (('1' as nat) + rank_of(i)) as char]
}

/// The square index named by two bytes of algebraic notation, if any.
pub open spec fn parse_algebraic(s: Seq<u8>) -> Option<nat> {
    if s.len() == 2 && 97 <= s[0] < 105 && 49 <= s[1] < 57 {
        Some(((s[1] - 49) * 8 + (s[0] - 97)) as nat)
    } else {
        None
    }
}

impl Square {
    #[verifier::type_invariant]
    spec fn in_board(self) -> bool {
        self.0 < 64
    }

    /// Every square index is below 64.
    pub fn index_bound(&self)
        ensures
            self@ < 64,
    {
        proof {
            use_type_invariant(self);
        }
    }

    /// Create a square from an index (0-63).
    pub fn new(index: u8) -> (r: Square)
        requires
            index < 64,
        ensures
            r@ == index,
    {
        Square(index)
    }

    /// Create a square from file (0-7) and rank (0-7).
    pub fn from_coords(file: u8, rank: u8) -> (r: Square)
        requires
            file < 8,
            rank < 8,
        ensures
            r@ == rank * 8 + file,
            file_of(r@) == file,
            rank_of(r@) == rank,
    {
        Square(rank * 8 + file)
    }

    /// The index (0-63).
    pub fn index(self) -> (r: u8)
        ensures
            r == self@,
            r < 64,
    {
        proof {
            use_type_invariant(self);
        }
        self.0
    }

    /// The file (0-7, where 0 = a).
    pub fn file(self) -> (r: u8)
        ensures
            r == file_of(self@),
            r < 8,
    {
        proof {
            use_type_invariant(self);
        }
        let v = self.0;
        let r = v & 7;
        assert(v & 7 == v % 8) by (bit_vector);
        r
    }

    /// The rank (0-7, where 0 = rank 1).
    pub fn rank(self) -> (r: u8)
        ensures
            r == rank_of(self@),
            r < 8,
    {
        proof {
            use_type_invariant(self);
        }
        let v = self.0;
        let r = v >> 3;
        assert(v >> 3 == v / 8) by (bit_vector);
        r
    }

    /// Algebraic notation of the square, such as "e4".
    pub fn to_algebraic(self) -> (r: String)
        ensures
            r@ == algebraic(self@),
    {
        let f = self.file();
        let rk = self.rank();
        let fc: u8 = 97u8 + f;
        let rc: u8 = 49u8 + rk;
        let mut s = String::new();
        push_char(&mut s, fc as char);
        push_char(&mut s, rc as char);
        assert(s@ =~= algebraic(self@));
        s
    }

    /// Parse algebraic notation such as "e4"; `None` unless the text is a
    /// file letter a-h followed by a rank digit 1-8.
    pub fn from_algebraic(s: &str) -> (r: Option<Square>)
        ensures
            r matches Some(sq) ==> parse_algebraic(s.spec_bytes()) == Some(sq@),
            r is None ==> parse_algebraic(s.spec_bytes()) is None,
    {
        let bytes = s.as_bytes();
        Self::from_algebraic_bytes(bytes)
    }

    /// Parse algebraic notation given as bytes.
    pub fn from_algebraic_bytes(bytes: &[u8]) -> (r: Option<Square>)
        ensures
            r matches Some(sq) ==> parse_algebraic(bytes@) == Some(sq@),
            r is None ==> parse_algebraic(bytes@) is None,
    {
        if bytes.len() != 2 {
            return None;
        }
        let f = bytes[0];
        let rk = bytes[1];
        if f < 97 || f >= 105 || rk < 49 || rk >= 57 {
            return None;
        }
        Some(Square::from_coords(f - 97, rk - 49))
    }

    /// All 64 squares in index order.
    pub fn all() -> (r: [Square; 64])
        ensures
            forall|i: int| 0 <= i < 64 ==> (#[trigger] r@[i])@ == i,
    {
        let mut squares = [Square(0); 64];
        let mut i: usize = 0;
        while i < 64
            invariant
                i <= 64,
                forall|j: int| 0 <= j < i ==> (#[trigger] squares@[j])@ == j,
            decreases 64 - i,
        {
            squares[i] = Square(i as u8);
            i += 1;
        }
        squares
    }

    /// The square a1.
    #[allow(non_snake_case)]
    pub fn A1() -> (r: Square)
        ensures
            r@ == 0,
    {
        Square(0)
    }

    /// The square b1.
    #[allow(non_snake_case)]
    pub fn B1() -> (r: Square)
        ensures
            r@ == 1,
    {
        Square(1)
    }

    /// The square c1.
    #[allow(non_snake_case)]
    pub fn C1() -> (r: Square)
        ensures
            r@ == 2,
    {
        Square(2)
    }

    /// The square d1.
    #[allow(non_snake_case)]
    pub fn D1() -> (r: Square)
        ensures
            r@ == 3,
    {
        Square(3)
    }

    /// The square e1.
    #[allow(non_snake_case)]
    pub fn E1() -> (r: Square)
        ensures
            r@ == 4,
    {
        Square(4)
    }

    /// The square f1.
    #[allow(non_snake_case)]
    pub fn F1() -> (r: Square)
        ensures
            r@ == 5,
    {
        Square(5)
    }

    /// The square g1.
    #[allow(non_snake_case)]
    pub fn G1() -> (r: Square)
        ensures
            r@ == 6,
    {
        Square(6)
    }

    /// The square h1.
    #[allow(non_snake_case)]
    pub fn H1() -> (r: Square)
        ensures
            r@ == 7,
    {
        Square(7)
    }

    /// The square a2.
    #[allow(non_snake_case)]
    pub fn A2() -> (r: Square)
        ensures
            r@ == 8,
    {
        Square(8)
    }

    /// The square b2.
    #[allow(non_snake_case)]
    pub fn B2() -> (r: Square)
        ensures
            r@ == 9,
    {
        Square(9)
    }

    /// The square c2.
    #[allow(non_snake_case)]
    pub fn C2() -> (r: Square)
        ensures
            r@ == 10,
    {
        Square(10)
    }

    /// The square d2.
    #[allow(non_snake_case)]
    pub fn D2() -> (r: Square)
        ensures
            r@ == 11,
    {
        Square(11)
    }

    /// The square e2.
    #[allow(non_snake_case)]
    pub fn E2() -> (r: Square)
        ensures
            r@ == 12,
    {
        Square(12)
    }

    /// The square f2.
    #[allow(non_snake_case)]
    pub fn F2() -> (r: Square)
        ensures
            r@ == 13,
    {
        Square(13)
    }

    /// The square g2.
    #[allow(non_snake_case)]
    pub fn G2() -> (r: Square)
        ensures
            r@ == 14,
    {
        Square(14)
    }

    /// The square h2.
    #[allow(non_snake_case)]
    pub fn H2() -> (r: Square)
        ensures
            r@ == 15,
    {
        Square(15)
    }

    /// The square a3.
    #[allow(non_snake_case)]
    pub fn A3() -> (r: Square)
        ensures
            r@ == 16,
    {
        Square(16)
    }

    /// The square b3.
    #[allow(non_snake_case)]
    pub fn B3() -> (r: Square)
        ensures
            r@ == 17,
    {
        Square(17)
    }

    /// The square c3.
    #[allow(non_snake_case)]
    pub fn C3() -> (r: Square)
        ensures
            r@ == 18,
    {
        Square(18)
    }

    /// The square d3.
    #[allow(non_snake_case)]
    pub fn D3() -> (r: Square)
        ensures
            r@ == 19,
    {
        Square(19)
    }

    /// The square e3.
    #[allow(non_snake_case)]
    pub fn E3() -> (r: Square)
        ensures
            r@ == 20,
    {
        Square(20)
    }

    /// The square f3.
    #[allow(non_snake_case)]
    pub fn F3() -> (r: Square)
        ensures
            r@ == 21,
    {
        Square(21)
    }

    /// The square g3.
    #[allow(non_snake_case)]
    pub fn G3() -> (r: Square)
        ensures
            r@ == 22,
    {
        Square(22)
    }

    /// The square h3.
    #[allow(non_snake_case)]
    pub fn H3() -> (r: Square)
        ensures
            r@ == 23,
    {
        Square(23)
    }

    /// The square a4.
    #[allow(non_snake_case)]
    pub fn A4() -> (r: Square)
        ensures
            r@ == 24,
    {
        Square(24)
    }

    /// The square b4.
    #[allow(non_snake_case)]
    pub fn B4() -> (r: Square)
        ensures
            r@ == 25,
    {
        Square(25)
    }

    /// The square c4.
    #[allow(non_snake_case)]
    pub fn C4() -> (r: Square)
        ensures
            r@ == 26,
    {
        Square(26)
    }

    /// The square d4.
    #[allow(non_snake_case)]
    pub fn D4() -> (r: Square)
        ensures
            r@ == 27,
    {
        Square(27)
    }

    /// The square e4.
    #[allow(non_snake_case)]
    pub fn E4() -> (r: Square)
        ensures
            r@ == 28,
    {
        Square(28)
    }

    /// The square f4.
    #[allow(non_snake_case)]
    pub fn F4() -> (r: Square)
        ensures
            r@ == 29,
    {
        Square(29)
    }

    /// The square g4.
    #[allow(non_snake_case)]
    pub fn G4() -> (r: Square)
        ensures
            r@ == 30,
    {
        Square(30)
    }

    /// The square h4.
    #[allow(non_snake_case)]
    pub fn H4() -> (r: Square)
        ensures
            r@ == 31,
    {
        Square(31)
    }

    /// The square a5.
    #[allow(non_snake_case)]
    pub fn A5() -> (r: Square)
        ensures
            r@ == 32,
    {
        Square(32)
    }

    /// The square b5.
    #[allow(non_snake_case)]
    pub fn B5() -> (r: Square)
        ensures
            r@ == 33,
    {
        Square(33)
    }

    /// The square c5.
    #[allow(non_snake_case)]
    pub fn C5() -> (r: Square)
        ensures
            r@ == 34,
    {
        Square(34)
    }

    /// The square d5.
    #[allow(non_snake_case)]
    pub fn D5() -> (r: Square)
        ensures
            r@ == 35,
    {
        Square(35)
    }

    /// The square e5.
    #[allow(non_snake_case)]
    pub fn E5() -> (r: Square)
        ensures
            r@ == 36,
    {
        Square(36)
    }

    /// The square f5.
    #[allow(non_snake_case)]
    pub fn F5() -> (r: Square)
        ensures
            r@ == 37,
    {
        Square(37)
    }

    /// The square g5.
    #[allow(non_snake_case)]
    pub fn G5() -> (r: Square)
        ensures
            r@ == 38,
    {
        Square(38)
    }

    /// The square h5.
    #[allow(non_snake_case)]
    pub fn H5() -> (r: Square)
        ensures
            r@ == 39,
    {
        Square(39)
    }

    /// The square a6.
    #[allow(non_snake_case)]
    pub fn A6() -> (r: Square)
        ensures
            r@ == 40,
    {
        Square(40)
    }

    /// The square b6.
    #[allow(non_snake_case)]
    pub fn B6() -> (r: Square)
        ensures
            r@ == 41,
    {
        Square(41)
    }

    /// The square c6.
    #[allow(non_snake_case)]
    pub fn C6() -> (r: Square)
        ensures
            r@ == 42,
    {
        Square(42)
    }

    /// The square d6.
    #[allow(non_snake_case)]
    pub fn D6() -> (r: Square)
        ensures
            r@ == 43,
    {
        Square(43)
    }

    /// The square e6.
    #[allow(non_snake_case)]
    pub fn E6() -> (r: Square)
        ensures
            r@ == 44,
    {
        Square(44)
    }

    /// The square f6.
    #[allow(non_snake_case)]
    pub fn F6() -> (r: Square)
        ensures
            r@ == 45,
    {
        Square(45)
    }

    /// The square g6.
    #[allow(non_snake_case)]
    pub fn G6() -> (r: Square)
        ensures
            r@ == 46,
    {
        Square(46)
    }

    /// The square h6.
    #[allow(non_snake_case)]
    pub fn H6() -> (r: Square)
        ensures
            r@ == 47,
    {
        Square(47)
    }

    /// The square a7.
    #[allow(non_snake_case)]
    pub fn A7() -> (r: Square)
        ensures
            r@ == 48,
    {
        Square(48)
    }

    /// The square b7.
    #[allow(non_snake_case)]
    pub fn B7() -> (r: Square)
        ensures
            r@ == 49,
    {
        Square(49)
    }

    /// The square c7.
    #[allow(non_snake_case)]
    pub fn C7() -> (r: Square)
        ensures
            r@ == 50,
    {
        Square(50)
    }

    /// The square d7.
    #[allow(non_snake_case)]
    pub fn D7() -> (r: Square)
        ensures
            r@ == 51,
    {
        Square(51)
    }

    /// The square e7.
    #[allow(non_snake_case)]
    pub fn E7() -> (r: Square)
        ensures
            r@ == 52,
    {
        Square(52)
    }

    /// The square f7.
    #[allow(non_snake_case)]
    pub fn F7() -> (r: Square)
        ensures
            r@ == 53,
    {
        Square(53)
    }

    /// The square g7.
    #[allow(non_snake_case)]
    pub fn G7() -> (r: Square)
        ensures
            r@ == 54,
    {
        Square(54)
    }

    /// The square h7.
    #[allow(non_snake_case)]
    pub fn H7() -> (r: Square)
        ensures
            r@ == 55,
    {
        Square(55)
    }

    /// The square a8.
    #[allow(non_snake_case)]
    pub fn A8() -> (r: Square)
        ensures
            r@ == 56,
    {
        Square(56)
    }

    /// The square b8.
    #[allow(non_snake_case)]
    pub fn B8() -> (r: Square)
        ensures
            r@ == 57,
    {
        Square(57)
    }

    /// The square c8.
    #[allow(non_snake_case)]
    pub fn C8() -> (r: Square)
        ensures
            r@ == 58,
    {
        Square(58)
    }

    /// The square d8.
    #[allow(non_snake_case)]
    pub fn D8() -> (r: Square)
        ensures
            r@ == 59,
    {
        Square(59)
    }

    /// The square e8.
    #[allow(non_snake_case)]
    pub fn E8() -> (r: Square)
        ensures
            r@ == 60,
    {
        Square(60)
    }

    /// The square f8.
    #[allow(non_snake_case)]
    pub fn F8() -> (r: Square)
        ensures
            r@ == 61,
    {
        Square(61)
    }

    /// The square g8.
    #[allow(non_snake_case)]
    pub fn G8() -> (r: Square)
        ensures
            r@ == 62,
    {
        Square(62)
    }

    /// The square h8.
    #[allow(non_snake_case)]
    pub fn H8() -> (r: Square)
        ensures
            r@ == 63,
    {
        Square(63)
    }
}

/// The name of a square reads back as that square.
pub proof fn lemma_algebraic_roundtrip(i: nat)
    requires
        i < 64,
    ensures
        parse_algebraic(algebraic(i).map_values(|c: char| c as u8)) == Some(i),
{
    let b = algebraic(i).map_values(|c: char| c as u8);
    assert(b.len() == 2);
    assert(b[0] == 97 + i % 8);
    assert(b[1] == 49 + i / 8);
}

/// A square is determined by its index.
pub proof fn lemma_square_view_injective(a: Square, b: Square)
    requires
        a@ == b@,
    ensures
        a == b,
{
}

} // verus!
