use vstd::prelude::*;

verus! {

/// Color of a chess piece.
#[derive(Debug, Copy, Clone, PartialEq, Eq, Structural, Hash)]
pub enum Color {
    White,
    Black,
}

/// Numeric index of a color: White is 0, Black is 1.
pub open spec fn color_index(c: Color) -> nat {
    match c {
        Color::White => 0,
        Color::Black => 1,
    }
}

/// The other color.
pub open spec fn opposite(c: Color) -> Color {
    match c {
        Color::White => Color::Black,
        Color::Black => Color::White,
    }
}

/// The name of a color.
pub open spec fn color_name(c: Color) -> Seq<char> {
    match c {
        Color::White => "white"@,
        Color::Black => "black"@,
    }
}

impl Color {
    /// The color's name: `white` or `black`.
    pub fn name(self) -> (r: &'static str)
        ensures
            r@ == color_name(self),
    {
        match self {
            Color::White => "white",
            Color::Black => "black",
        }
    }

    /// Get the opposite color.
    pub fn opponent(self) -> (r: Color)
        ensures
            r == opposite(self),
            r != self,
    {
        match self {
            Color::White => Color::Black,
            Color::Black => Color::White,
        }
    }

    /// Convert to index (0 or 1).
    pub fn index(self) -> (r: usize)
        ensures
            r == color_index(self),
            r < 2,
    {
        match self {
            Color::White => 0,
            Color::Black => 1,
        }
    }

    /// Convert from index (0 or 1).
    pub fn from_index(index: usize) -> (r: Color)
        requires
            index < 2,
        ensures
            color_index(r) == index,
    {
        if index == 0 {
            Color::White
        } else {
            Color::Black
        }
    }
}

/// Type of chess piece.
#[derive(Debug, Copy, Clone, PartialEq, Eq, Structural, Hash)]
pub enum PieceType {
    Pawn,
    Knight,
    Bishop,
    Rook,
    Queen,
    King,
}

/// Numeric index of a piece type, 0 (pawn) to 5 (king).
pub open spec fn kind_index(p: PieceType) -> nat {
    match p {
        PieceType::Pawn => 0,
        PieceType::Knight => 1,
        PieceType::Bishop => 2,
        PieceType::Rook => 3,
        PieceType::Queen => 4,
        PieceType::King => 5,
    }
}

/// The piece type with a given index, if the index is below 6.
pub open spec fn kind_of_index(i: int) -> Option<PieceType> {
    if i == 0 {
        Some(PieceType::Pawn)
    } else if i == 1 {
        Some(PieceType::Knight)
    } else if i == 2 {
        Some(PieceType::Bishop)
    } else if i == 3 {
        Some(PieceType::Rook)
    } else if i == 4 {
        Some(PieceType::Queen)
    } else if i == 5 {
        Some(PieceType::King)
    } else {
        None
    }
}

/// Lowercase FEN letter of a piece type.
pub open spec fn kind_char(p: PieceType) -> char {
    match p {
        PieceType::Pawn => 'p',
        PieceType::Knight => 'n',
        PieceType::Bishop => 'b',
        PieceType::Rook => 'r',
        PieceType::Queen => 'q',
        PieceType::King => 'k',
    }
}

/// The piece type whose lowercase letter is `c`.
pub open spec fn kind_of_lower(c: char) -> Option<PieceType> {
    if c == 'p' {
        Some(PieceType::Pawn)
    } else if c == 'n' {
        Some(PieceType::Knight)
    } else if c == 'b' {
        Some(PieceType::Bishop)
    } else if c == 'r' {
        Some(PieceType::Rook)
    } else if c == 'q' {
        Some(PieceType::Queen)
    } else if c == 'k' {
        Some(PieceType::King)
    } else {
        None
    }
}

/// ASCII lowercase of a character (other characters are unchanged).
pub open spec fn lower(c: char) -> char {
    if 'A' <= c <= 'Z' {
        ((c as u32) + 32) as char
    } else {
        c
    }
}

/// ASCII uppercase of a character (other characters are unchanged).
pub open spec fn upper(c: char) -> char {
    if 'a' <= c <= 'z' {
        ((c as u32) - 32) as char
    } else {
        c
    }
}

impl PieceType {
    /// All piece types, in index order.
    pub fn all() -> (r: [PieceType; 6])
        ensures
            forall|i: int| 0 <= i < 6 ==> kind_of_index(i) == Some(#[trigger] r@[i]),
    {
        [
            PieceType::Pawn,
            PieceType::Knight,
            PieceType::Bishop,
            PieceType::Rook,
            PieceType::Queen,
            PieceType::King,
        ]
    }

    /// Convert to index (0-5).
    pub fn index(self) -> (r: usize)
        ensures
            r == kind_index(self),
            r < 6,
            kind_of_index(r as int) == Some(self),
    {
        match self {
            PieceType::Pawn => 0,
            PieceType::Knight => 1,
            PieceType::Bishop => 2,
            PieceType::Rook => 3,
            PieceType::Queen => 4,
            PieceType::King => 5,
        }
    }

    /// Convert from index; `None` for indices of 6 and above.
    pub fn from_index(index: usize) -> (r: Option<PieceType>)
        ensures
            r == kind_of_index(index as int),
    {
        match index {
            0 => Some(PieceType::Pawn),
            1 => Some(PieceType::Knight),
            2 => Some(PieceType::Bishop),
            3 => Some(PieceType::Rook),
            4 => Some(PieceType::Queen),
            5 => Some(PieceType::King),
            _ => None,
        }
    }

    /// FEN character for this piece type (lowercase).
    pub fn to_char(self) -> (r: char)
        ensures
            r == kind_char(self),
    {
        match self {
            PieceType::Pawn => 'p',
            PieceType::Knight => 'n',
            PieceType::Bishop => 'b',
            PieceType::Rook => 'r',
            PieceType::Queen => 'q',
            PieceType::King => 'k',
        }
    }

    /// Parse from a FEN character, ignoring ASCII case.
    pub fn from_char(c: char) -> (r: Option<PieceType>)
        ensures
            r == kind_of_lower(lower(c)),
    {
        let l = ascii_lower(c);
        if l == 'p' {
            Some(PieceType::Pawn)
        } else if l == 'n' {
            Some(PieceType::Knight)
        } else if l == 'b' {
            Some(PieceType::Bishop)
        } else if l == 'r' {
            Some(PieceType::Rook)
        } else if l == 'q' {
            Some(PieceType::Queen)
        } else if l == 'k' {
            Some(PieceType::King)
        } else {
            None
        }
    }
}

/// ASCII lowercase of a character.
pub fn ascii_lower(c: char) -> (r: char)
    ensures
        r == lower(c),
{
    if 'A' <= c && c <= 'Z' {
        let v: u32 = (c as u32) + 32;
        char_from_ascii(v)
    } else {
        c
    }
}

/// ASCII uppercase of a character.
pub fn ascii_upper(c: char) -> (r: char)
    ensures
        r == upper(c),
{
    if 'a' <= c && c <= 'z' {
        let v: u32 = (c as u32) - 32;
        char_from_ascii(v)
    } else {
        c
    }
}

/// The character with an ASCII code.
fn char_from_ascii(v: u32) -> (r: char)
    requires
        v < 128,
    ensures
        r == v as char,
{
    let b: u8 = v as u8;
    b as char
}

/// A colored chess piece.
#[derive(Debug, Copy, Clone, PartialEq, Eq, Structural, Hash)]
pub struct Piece {
    pub piece_type: PieceType,
    pub color: Color,
}

/// FEN letter of a piece: uppercase for white, lowercase for black.
pub open spec fn piece_char(p: Piece) -> char {
    match p.color {
        Color::White => upper(kind_char(p.piece_type)),
        Color::Black => kind_char(p.piece_type),
    }
}

/// The piece whose FEN letter is `c`, if any.
pub open spec fn piece_of_char(c: char) -> Option<Piece> {
    match kind_of_lower(lower(c)) {
        Some(t) => Some(Piece { piece_type: t, color: if 'A' <= c <= 'Z' { Color::White } else { Color::Black } }),
        None => None,
    }
}

impl Piece {
    /// Create a new piece.
    pub fn new(piece_type: PieceType, color: Color) -> (r: Piece)
        ensures
            r.piece_type == piece_type,
            r.color == color,
    {
        Piece { piece_type, color }
    }

    /// FEN character for this piece (uppercase for white, lowercase for black).
    pub fn to_char(self) -> (r: char)
        ensures
            r == piece_char(self),
    {
        let c = self.piece_type.to_char();
        match self.color {
            Color::White => ascii_upper(c),
            Color::Black => c,
        }
    }

    /// Parse from a FEN character.
    pub fn from_char(c: char) -> (r: Option<Piece>)
        ensures
            r == piece_of_char(c),
    {
        match PieceType::from_char(c) {
            Some(t) => {
                let color = if 'A' <= c && c <= 'Z' {
                    Color::White
                } else {
                    Color::Black
                };
                Some(Piece::new(t, color))
            },
            None => None,
        }
    }
}

/// Reading the letter of a piece gives the piece back.
pub proof fn lemma_piece_char_roundtrip(p: Piece)
    ensures
        piece_of_char(piece_char(p)) == Some(p),
{
}

} // verus!
