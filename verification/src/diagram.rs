//! Text pictures of bitboards and positions, rank 8 at the top.
use vstd::prelude::*;
use crate::bitboard::Bitboard;
use crate::board::Board;
use crate::io::{castling_text, push_castling};
use crate::piece::{color_name, piece_char};
use crate::square::Square;
use crate::text::{decimal, push_char, push_decimal, push_str};

verus! {

/// The marks of rank `r`: per file `1` for a member square and `.` for
/// another, each followed by a space.
pub open spec fn grid_marks(squares: Set<nat>, r: nat, n: nat) -> Seq<char> {
    Seq::new(2 * n, |k: int| if k % 2 == 1 { ' ' } else if squares.contains((r * 8 + k / 2) as nat) { '1' } else { '.' })
}

/// The picture rows of the top `n` ranks, from the eighth down.
pub open spec fn grid_rows(squares: Set<nat>, n: nat) -> Seq<char>
    decreases n,
{
    if n == 0 {
        Seq::empty()
    } else {
        grid_rows(squares, (n - 1) as nat) + grid_marks(squares, (8 - n) as nat, 8).push('\n')
    }
}

/// The picture of a set of squares: a newline, then one row per rank.
pub open spec fn grid_text(squares: Set<nat>) -> Seq<char> {
    seq!['\n'] + grid_rows(squares, 8)
}

impl Bitboard {
    /// A picture of the set: a newline, then for each rank from the eighth
    /// down a `1` or `.` per file, each followed by a space, and a newline.
    pub fn diagram(&self) -> (r: String)
        ensures
            r@ == grid_text(self@),
    {
        let mut s = String::new();
        push_char(&mut s, '\n');
        let mut n: u8 = 0;
        while n < 8
            invariant
                n <= 8,
                s@ == seq!['\n'] + grid_rows(self@, n as nat),
            decreases 8 - n,
        {
            let r: u8 = 7 - n;
            let ghost before = s@;
            let mut f: u8 = 0;
            while f < 8
                invariant
                    f <= 8,
                    r < 8,
                    s@ == before + grid_marks(self@, r as nat, f as nat),
                decreases 8 - f,
            {
                let sq = Square::new(r * 8 + f);
                let c = if self.contains(sq) { '1' } else { '.' };
                push_char(&mut s, c);
                push_char(&mut s, ' ');
                proof {
                    assert(grid_marks(self@, r as nat, (f + 1) as nat) =~= grid_marks(self@, r as nat, f as nat).push(c).push(' '));
                }
                f += 1;
            }
            push_char(&mut s, '\n');
            proof {
                assert(s@ =~= seq!['\n'] + grid_rows(self@, (n + 1) as nat));
            }
            n += 1;
        }
        s
    }
}

/// The marks of rank `r` of a board over its first `n` files: the piece
/// letter or `.`, each followed by a space.
pub open spec fn board_marks(b: Board, r: nat, n: nat) -> Seq<char> {
    Seq::new(2 * n, |k: int| if k % 2 == 1 { ' ' } else {
        match b.piece_on((r * 8 + k / 2) as nat) {
            Some(p) => piece_char(p),
            None => '.',
        }
    })
}

/// The rows of the top `n` ranks of a board: the rank number, a space,
/// the marks and a newline.
pub open spec fn board_rows(b: Board, n: nat) -> Seq<char>
    decreases n,
{
    if n == 0 {
        Seq::empty()
    } else {
        board_rows(b, (n - 1) as nat) + decimal((9 - n) as nat) + seq![' '] + board_marks(b, (8 - n) as nat, 8).push('\n')
    }
}

/// The debug text of an optional square.
pub open spec fn square_option_text(s: Option<Square>) -> Seq<char> {
    match s {
        Some(q) => "Some(Square("@ + decimal(q@) + "))"@,
        None => "None"@,
    }
}

/// The picture of a position: the board with rank numbers and file
/// letters, then the side to move, castling rights, en passant square and
/// move counters, a line each.
pub open spec fn board_text(b: Board) -> Seq<char> {
    seq!['\n'] + board_rows(b, 8) + "  a b c d e f g h"@ + seq!['\n']
        + "Side to move: "@ + color_name(b.side()) + seq!['\n']
        + "Castling: "@ + castling_text(b.rights()) + seq!['\n']
        + "EP square: "@ + square_option_text(b.ep()) + seq!['\n']
        + "Halfmove: "@ + decimal(b.halfmove() as nat) + seq!['\n']
        + "Fullmove: "@ + decimal(b.fullmove() as nat) + seq!['\n']
}

impl Board {
    /// A picture of the position (see `board_text`).
    pub fn diagram(&self) -> (r: String)
        ensures
            r@ == board_text(*self),
    {
        let mut s = String::new();
        push_char(&mut s, '\n');
        let mut n: u8 = 0;
        while n < 8
            invariant
                n <= 8,
                s@ == seq!['\n'] + board_rows(*self, n as nat),
            decreases 8 - n,
        {
            let r: u8 = 7 - n;
            push_decimal(&mut s, (r + 1) as u64);
            push_char(&mut s, ' ');
            let ghost before = s@;
            let mut f: u8 = 0;
            while f < 8
                invariant
                    f <= 8,
                    r < 8,
                    s@ == before + board_marks(*self, r as nat, f as nat),
                decreases 8 - f,
            {
                let sq = Square::new(r * 8 + f);
                let c = match self.piece_at(sq) {
                    Some(p) => p.to_char(),
                    None => '.',
                };
                push_char(&mut s, c);
                push_char(&mut s, ' ');
                proof {
                    assert(board_marks(*self, r as nat, (f + 1) as nat) =~= board_marks(*self, r as nat, f as nat).push(c).push(' '));
                }
                f += 1;
            }
            push_char(&mut s, '\n');
            proof {
                assert(s@ =~= seq!['\n'] + board_rows(*self, (n + 1) as nat));
            }
            n += 1;
        }
        push_str(&mut s, "  a b c d e f g h");
        push_char(&mut s, '\n');
        push_str(&mut s, "Side to move: ");
        push_str(&mut s, self.side_to_move().name());
        push_char(&mut s, '\n');
        push_str(&mut s, "Castling: ");
        push_castling(&mut s, self.castling());
        push_char(&mut s, '\n');
        push_str(&mut s, "EP square: ");
        match self.ep_square() {
            Some(q) => {
                push_str(&mut s, "Some(Square(");
                push_decimal(&mut s, q.index() as u64);
                push_str(&mut s, "))");
            },
            None => push_str(&mut s, "None"),
        }
        push_char(&mut s, '\n');
        push_str(&mut s, "Halfmove: ");
        push_decimal(&mut s, self.halfmove_clock() as u64);
        push_char(&mut s, '\n');
        push_str(&mut s, "Fullmove: ");
        push_decimal(&mut s, self.fullmove_number() as u64);
        push_char(&mut s, '\n');
        proof {
            assert(s@ =~= board_text(*self));
        }
        s
    }
}

} // verus!
