//! A small opening book: for known positions (by Zobrist hash), a list of
//! sound moves to play.
use vstd::prelude::*;
use std::collections::HashMap;
use crate::board::Board;
use crate::chess_move::{Move, mv_from, mv_to};
use crate::io::{parse_fen, fen_board, fen_fault};
use crate::movegen::{generate_moves, pseudo_legal};
use crate::square::algebraic;
use crate::text::{chars_of, chars_eq};

verus! {

broadcast use vstd::std_specs::hash::group_hash_axioms;

/// The text of a move's origin and target squares, as a book names it.
pub open spec fn from_to_text(m: Move) -> Seq<char> {
    algebraic(mv_from(m@)) + algebraic(mv_to(m@))
}

/// The first move of a list whose squares are named `s`, if any.
pub open spec fn first_match(l: Seq<Move>, s: Seq<char>) -> Option<Move>
    decreases l.len(),
{
    if l.len() == 0 {
        None
    } else if from_to_text(l[0]) == s {
        Some(l[0])
    } else {
        first_match(l.drop_first(), s)
    }
}

/// The moves of a list named by the texts, in the texts' order, for each
/// text the first move of the list it names (texts naming none are
/// skipped).
pub open spec fn book_moves_of(l: Seq<Move>, texts: Seq<Seq<char>>) -> Seq<Move>
    decreases texts.len(),
{
    if texts.len() == 0 {
        Seq::empty()
    } else {
        let rest = book_moves_of(l, texts.drop_last());
        match first_match(l, texts.last()) {
            Some(m) => rest.push(m),
            None => rest,
        }
    }
}

/// A list holds exactly the pseudo-legal moves of a position, once each.
pub open spec fn lists_pseudo_legal(b: Board, l: Seq<Move>) -> bool {
    &&& forall|m: Move| #[trigger] l.contains(m) <==> pseudo_legal(b, m)
    &&& l.no_duplicates()
}

/// A book entry: a nonempty list of moves that are pseudo-legal in some
/// well-formed position with the entry's hash.
pub open spec fn entry_ok(k: u64, v: Seq<Move>) -> bool {
    &&& v.len() > 0
    &&& exists|b: Board| #[trigger] b.hash_value() == k && b.wf() && forall|i: int| 0 <= i < v.len() ==> pseudo_legal(b, v[i])
}

/// The texts of a list of string slices.
pub open spec fn texts_of(v: Seq<&str>) -> Seq<Seq<char>> {
    v.map_values(|s: &str| s@)
}

proof fn lemma_first_match_in(l: Seq<Move>, s: Seq<char>)
    ensures
        first_match(l, s) matches Some(m) ==> l.contains(m),
    decreases l.len(),
{
    if l.len() > 0 && from_to_text(l[0]) != s {
        lemma_first_match_in(l.drop_first(), s);
        if let Some(m) = first_match(l.drop_first(), s) {
            let k = choose|k: int| 0 <= k < l.drop_first().len() && l.drop_first()[k] == m;
            assert(l[k + 1] == m);
        }
    }
    if l.len() > 0 && from_to_text(l[0]) == s {
        assert(l[0] == l[0]);
        assert(l.contains(l[0]));
    }
}

proof fn lemma_book_moves_in(l: Seq<Move>, texts: Seq<Seq<char>>)
    ensures
        forall|i: int| 0 <= i < book_moves_of(l, texts).len() ==> l.contains(#[trigger] book_moves_of(l, texts)[i]),
    decreases texts.len(),
{
    if texts.len() > 0 {
        lemma_book_moves_in(l, texts.drop_last());
        lemma_first_match_in(l, texts.last());
        let rest = book_moves_of(l, texts.drop_last());
        let all = book_moves_of(l, texts);
        assert forall|i: int| 0 <= i < all.len() implies l.contains(#[trigger] all[i]) by {
            if i < rest.len() {
                assert(all[i] == rest[i]);
            }
        }
    }
}

/// The positions of the basic openings, by FEN, with the moves to play
/// named by origin and target square; `BOOK_LINES` of them.
pub open spec fn book_line(i: int) -> (Seq<char>, Seq<Seq<char>>) {
    if i == 0 {
        ("rnbqkbnr/pppppppp/8/8/8/8/PPPPPPPP/RNBQKBNR w KQkq - 0 1"@, seq!["e2e4"@, "d2d4"@, "g1f3"@, "c2c4"@])
    } else if i == 1 {
        ("rnbqkbnr/pppppppp/8/8/4P3/8/PPPP1PPP/RNBQKBNR b KQkq e3 0 1"@, seq!["e7e5"@, "c7c5"@, "e7e6"@, "c7c6"@])
    } else if i == 2 {
        ("rnbqkbnr/pppppppp/8/8/3P4/8/PPP1PPPP/RNBQKBNR b KQkq d3 0 1"@, seq!["d7d5"@, "g8f6"@, "e7e6"@])
    } else if i == 3 {
        ("rnbqkbnr/pppppppp/8/8/8/5N2/PPPPPPPP/RNBQKB1R b KQkq - 1 1"@, seq!["d7d5"@, "g8f6"@, "c7c5"@])
    } else if i == 4 {
        ("rnbqkbnr/ppp1pppp/8/3p4/8/5N2/PPPPPPPP/RNBQKB1R w KQkq d6 0 2"@, seq!["d2d4"@, "c2c4"@, "g2g3"@, "b1c3"@])
    } else if i == 5 {
        ("rnbqkbnr/pppp1ppp/8/4p3/4P3/5N2/PPPP1PPP/RNBQKB1R b KQkq - 1 2"@, seq!["b8c6"@, "g8f6"@])
    } else if i == 6 {
        ("r1bqkbnr/pppp1ppp/2n5/4p3/4P3/5N2/PPPP1PPP/RNBQKB1R w KQkq - 2 3"@, seq!["f1b5"@, "f1c4"@, "d2d4"@])
    } else if i == 7 {
        ("rnbqkbnr/ppp1pppp/8/3p4/2PP4/8/PP2PPPP/RNBQKBNR b KQkq c3 0 2"@, seq!["e7e6"@, "c7c6"@, "d5c4"@])
    } else if i == 8 {
        ("rnbqkbnr/pp1ppppp/8/2p5/4P3/8/PPPP1PPP/RNBQKBNR w KQkq c6 0 2"@, seq!["g1f3"@, "b1c3"@])
    } else if i == 9 {
        ("r1bqkbnr/pppp1ppp/2n5/1B2p3/4P3/5N2/PPPP1PPP/RNBQK2R b KQkq - 3 3"@, seq!["a7a6"@, "g8f6"@, "f8c5"@])
    } else if i == 10 {
        ("r1bqkbnr/pppp1ppp/2n5/4p3/2B1P3/5N2/PPPP1PPP/RNBQK2R b KQkq - 3 3"@, seq!["f8c5"@, "g8f6"@, "f8e7"@])
    } else if i == 11 {
        ("r1bqkbnr/pppp1ppp/2n5/4p3/3PP3/5N2/PPP2PPP/RNBQKB1R b KQkq d3 0 3"@, seq!["e5d4"@, "g8f6"@])
    } else if i == 12 {
        ("rnbqkbnr/pppp1ppp/4p3/8/3PP3/8/PPP2PPP/RNBQKBNR b KQkq d3 0 2"@, seq!["d7d5"@])
    } else if i == 13 {
        ("rnbqkbnr/ppp2ppp/4p3/3p4/3PP3/2N5/PPP2PPP/R1BQKBNR b KQkq - 1 3"@, seq!["f8b4"@, "g8f6"@, "d5e4"@])
    } else if i == 14 {
        ("rnbqkbnr/pp1ppppp/2p5/8/3PP3/8/PPP2PPP/RNBQKBNR b KQkq d3 0 2"@, seq!["d7d5"@])
    } else if i == 15 {
        ("rnbqkbnr/pp2pppp/2p5/3p4/3PP3/2N5/PPP2PPP/R1BQKBNR b KQkq - 1 3"@, seq!["d5e4"@, "g8f6"@])
    } else if i == 16 {
        ("rnbqkbnr/pp2pppp/3p4/2p5/4P3/5N2/PPPP1PPP/RNBQKB1R w KQkq - 0 3"@, seq!["d2d4"@, "f1c4"@])
    } else if i == 17 {
        ("rnbqkbnr/pp2pppp/3p4/8/3pP3/5N2/PPP2PPP/RNBQKB1R w KQkq - 0 4"@, seq!["f3d4"@, "d1d4"@])
    } else if i == 18 {
        ("r1bqkbnr/pp1ppppp/2n5/2p5/4P3/5N2/PPPP1PPP/RNBQKB1R w KQkq - 2 3"@, seq!["d2d4"@, "f1b5"@])
    } else if i == 19 {
        ("rnbqkbnr/ppp2ppp/4p3/3p4/2PP4/8/PP2PPPP/RNBQKBNR w KQkq - 0 3"@, seq!["b1c3"@, "g1f3"@])
    } else if i == 20 {
        ("rnbqkbnr/pp2pppp/2p5/3p4/2PP4/8/PP2PPPP/RNBQKBNR w KQkq - 0 3"@, seq!["g1f3"@, "b1c3"@])
    } else if i == 21 {
        ("rnbqkbnr/ppp1pppp/8/8/2pP4/8/PP2PPPP/RNBQKBNR w KQkq - 0 3"@, seq!["g1f3"@, "e2e3"@])
    } else if i == 22 {
        ("rnbqkb1r/pppppppp/5n2/8/2PP4/8/PP2PPPP/RNBQKBNR b KQkq c3 0 2"@, seq!["g7g6"@, "e7e6"@, "d7d5"@])
    } else if i == 23 {
        ("rnbqkb1r/pppppp1p/5np1/8/2PP4/2N5/PP2PPPP/R1BQKBNR b KQkq - 1 3"@, seq!["f8g7"@, "d7d5"@])
    } else if i == 24 {
        ("rnbqk2r/pppp1ppp/4pn2/8/1bPP4/2N5/PP2PPPP/R1BQKBNR w KQkq - 2 4"@, seq!["e2e3"@, "d1c2"@, "g1f3"@])
    } else if i == 25 {
        ("rnbqkb1r/ppp1pp1p/5np1/3p4/2PP4/2N5/PP2PPPP/R1BQKBNR w KQkq d6 0 4"@, seq!["c4d5"@, "g1f3"@])
    } else if i == 26 {
        ("rnbqkbnr/ppp1pppp/8/3p4/3P1B2/8/PPP1PPPP/RN1QKBNR b KQkq - 1 2"@, seq!["g8f6"@, "c7c5"@, "e7e6"@])
    } else if i == 27 {
        ("rnbqkb1r/pppppppp/5n2/8/3P1B2/8/PPP1PPPP/RN1QKBNR b KQkq - 1 2"@, seq!["c7c5"@, "e7e6"@, "d7d5"@])
    } else if i == 28 {
        ("rnbqkbnr/pppp1ppp/8/4p3/2P5/8/PP1PPPPP/RNBQKBNR w KQkq e6 0 2"@, seq!["b1c3"@, "g1f3"@])
    } else if i == 29 {
        ("rnbqkbnr/pp1ppppp/8/2p5/2P5/8/PP1PPPPP/RNBQKBNR w KQkq c6 0 2"@, seq!["g1f3"@, "b1c3"@, "g2g3"@])
    } else if i == 30 {
        ("rnbqkb1r/pppppppp/5n2/8/2P5/8/PP1PPPPP/RNBQKBNR w KQkq - 1 2"@, seq!["g1f3"@, "b1c3"@])
    } else if i == 31 {
        ("rnbqkbnr/ppp1pppp/8/3p4/2P5/5N2/PP1PPPPP/RNBQKB1R b KQkq c3 0 2"@, seq!["d5c4"@, "e7e6"@, "g8f6"@])
    } else if i == 32 {
        ("rnbqkb1r/pppppppp/5n2/8/2P5/5N2/PP1PPPPP/RNBQKB1R b KQkq c3 0 2"@, seq!["e7e6"@, "g7g6"@, "c7c5"@])
    } else if i == 33 {
        ("rnbqkb1r/pppp1ppp/5n2/4p3/4P3/5N2/PPPP1PPP/RNBQKB1R w KQkq - 2 3"@, seq!["f3e5"@, "d2d4"@])
    } else if i == 34 {
        ("rnbqkb1r/ppp2ppp/4pn2/3p4/2PP4/2N5/PP2PPPP/R1BQKBNR w KQkq - 1 4"@, seq!["g1f3"@, "c1g5"@])
    } else if i == 35 {
        ("r1bqkbnr/1ppp1ppp/p1n5/4p3/B3P3/5N2/PPPP1PPP/RNBQK2R b KQkq - 4 4"@, seq!["g8f6"@, "f8c5"@])
    } else if i == 36 {
        ("r1bqk1nr/pppp1ppp/2n5/2b1p3/2B1P3/5N2/PPPP1PPP/RNBQK2R w KQkq - 4 4"@, seq!["c2c3"@, "d2d3"@, "e1g1"@])
    } else {
        (Seq::empty(), Seq::empty())
    }
}

/// The number of basic opening positions.
pub const BOOK_LINES: usize = 37;

/// What adding a position, given by FEN, with the moves named by `texts`
/// does to a book: nothing when the FEN is invalid; else the position's
/// hash is mapped to the moves of the position the texts name, when there
/// are any.
pub open spec fn added(before: Map<u64, Seq<Move>>, after: Map<u64, Seq<Move>>, fen: Seq<char>, texts: Seq<Seq<char>>) -> bool {
    &&& fen_fault(fen) is Some ==> after == before
    &&& fen_fault(fen) is None ==> exists|b: Board, l: Seq<Move>| #[trigger] fen_board(fen, b) && #[trigger] lists_pseudo_legal(b, l)
        && after == if book_moves_of(l, texts).len() > 0 {
            before.insert(b.hash_value(), book_moves_of(l, texts))
        } else {
            before
        }
}

/// A run of books, each from the one before by adding the next basic
/// opening position.
pub open spec fn book_run(bs: Seq<Map<u64, Seq<Move>>>, n: int) -> bool {
    &&& bs.len() == n + 1
    &&& forall|j: int| 0 <= j < n ==> added(#[trigger] bs[j], bs[j + 1], book_line(j).0, book_line(j).1)
}

/// Opening positions and their book moves.
pub struct OpeningBook {
    positions: HashMap<u64, Vec<Move>>,
}

impl OpeningBook {
    /// The book: for each position hash, its moves.
    pub closed spec fn book(&self) -> Map<u64, Seq<Move>> {
        Map::new(|k: u64| self.positions@.contains_key(k), |k: u64| self.positions@[k]@)
    }

    /// Every entry is a nonempty list of moves pseudo-legal in a position
    /// with its hash.
    pub closed spec fn wf(&self) -> bool {
        forall|k: u64| self.positions@.contains_key(k) ==> entry_ok(k, #[trigger] self.positions@[k]@)
    }

    /// The book filled with the basic openings.
    pub fn new() -> (r: OpeningBook)
        ensures
            r.wf(),
            exists|bs: Seq<Map<u64, Seq<Move>>>| #[trigger] book_run(bs, BOOK_LINES as int) && bs[0] == Map::<u64, Seq<Move>>::empty()
                && bs[BOOK_LINES as int] == r.book(),
    {
        let mut book = OpeningBook { positions: HashMap::new() };
        proof {
            assert(book.book() =~= Map::<u64, Seq<Move>>::empty());
        }
        book.populate_basic_openings();
        book
    }

    /// The book moves of a move list named by texts (see `book_moves_of`).
    fn pick_moves(legal_moves: &crate::movelist::MoveList, moves: &Vec<&str>) -> (r: Vec<Move>)
        ensures
            r@ == book_moves_of(legal_moves@, texts_of(moves@)),
    {
        let mut book_moves: Vec<Move> = Vec::new();
        let n = legal_moves.len();
        let mut i: usize = 0;
        while i < moves.len()
            invariant
                i <= moves@.len(),
                n == legal_moves@.len(),
                book_moves@ == book_moves_of(legal_moves@, texts_of(moves@).take(i as int)),
            decreases moves@.len() - i,
        {
            let wanted = chars_of(moves[i]);
            let mut j: usize = 0;
            let mut found = false;
            proof {
                assert(legal_moves@.skip(0) =~= legal_moves@);
            }
            while j < n && !found
                invariant
                    j <= n,
                    n == legal_moves@.len(),
                    wanted@ == moves@[i as int]@,
                    !found ==> first_match(legal_moves@, wanted@) == first_match(legal_moves@.skip(j as int), wanted@),
                    found ==> first_match(legal_moves@, wanted@) == Some(book_moves@.last()),
                    found ==> book_moves@ == book_moves_of(legal_moves@, texts_of(moves@).take(i as int)).push(book_moves@.last()),
                    !found ==> book_moves@ == book_moves_of(legal_moves@, texts_of(moves@).take(i as int)),
                decreases n - j,
            {
                let m = legal_moves.get(j);
                let from_name = m.from().to_algebraic();
                let to_name = m.to().to_algebraic();
                let mut text: Vec<char> = chars_of(from_name.as_str());
                let to_text = chars_of(to_name.as_str());
                text.push(to_text[0]);
                text.push(to_text[1]);
                proof {
                    assert(text@ =~= from_to_text(m));
                }
                proof {
                    assert(legal_moves@.skip(j as int)[0] == m);
                    assert(legal_moves@.skip(j as int).drop_first() =~= legal_moves@.skip(j as int + 1));
                }
                if chars_eq(text.as_slice(), wanted.as_slice()) {
                    book_moves.push(m);
                    found = true;
                }
                j += 1;
            }
            proof {
                let t = texts_of(moves@).take(i as int + 1);
                assert(t.drop_last() =~= texts_of(moves@).take(i as int));
                assert(t.last() == wanted@);
                if !found {
                    assert(legal_moves@.skip(j as int) =~= Seq::<Move>::empty());
                }
            }
            i += 1;
        }
        proof {
            assert(texts_of(moves@).take(moves@.len() as int) =~= texts_of(moves@));
        }
        book_moves
    }

    /// Add a position, given by FEN, with the moves named (origin and target
    /// square); the position is skipped when the FEN is invalid or none of
    /// the names matches a pseudo-legal move.
    fn add_position(&mut self, fen: &str, moves: Vec<&str>)
        requires
            old(self).wf(),
        ensures
            final(self).wf(),
            added(old(self).book(), final(self).book(), fen@, texts_of(moves@)),
    {
        let board = match parse_fen(fen) {
            Ok(b) => b,
            Err(_) => {
                proof {
                    assert(self.book() =~= old(self).book());
                }
                return;
            },
        };
        let legal_moves = generate_moves(&board);
        let book_moves = Self::pick_moves(&legal_moves, &moves);
        proof {
            lemma_book_moves_in(legal_moves@, texts_of(moves@));
        }
        if book_moves.len() > 0 {
            let ghost picked = book_moves@;
            self.positions.insert(board.hash(), book_moves);
            proof {
                assert(entry_ok(board.hash_value(), picked)) by {
                    assert(forall|i: int| 0 <= i < picked.len() ==> legal_moves@.contains(#[trigger] picked[i]));
                }
                assert(self.book() =~= old(self).book().insert(board.hash_value(), picked));
            }
        } else {
            proof {
                assert(self.book() =~= old(self).book());
            }
        }
        proof {
            assert(fen_board(fen@, board) && lists_pseudo_legal(board, legal_moves@));
        }
    }

    /// Basic opening position `i`: its FEN and the moves to play.
    fn line_of(i: usize) -> (r: (&'static str, Vec<&'static str>))
        requires
            i < BOOK_LINES,
        ensures
            r.0@ == book_line(i as int).0,
            texts_of(r.1@) == book_line(i as int).1,
    {
        if i == 0 {
            ("rnbqkbnr/pppppppp/8/8/8/8/PPPPPPPP/RNBQKBNR w KQkq - 0 1", vec!["e2e4", "d2d4", "g1f3", "c2c4"])
        } else if i == 1 {
            ("rnbqkbnr/pppppppp/8/8/4P3/8/PPPP1PPP/RNBQKBNR b KQkq e3 0 1", vec!["e7e5", "c7c5", "e7e6", "c7c6"])
        } else if i == 2 {
            ("rnbqkbnr/pppppppp/8/8/3P4/8/PPP1PPPP/RNBQKBNR b KQkq d3 0 1", vec!["d7d5", "g8f6", "e7e6"])
        } else if i == 3 {
            ("rnbqkbnr/pppppppp/8/8/8/5N2/PPPPPPPP/RNBQKB1R b KQkq - 1 1", vec!["d7d5", "g8f6", "c7c5"])
        } else if i == 4 {
            ("rnbqkbnr/ppp1pppp/8/3p4/8/5N2/PPPPPPPP/RNBQKB1R w KQkq d6 0 2", vec!["d2d4", "c2c4", "g2g3", "b1c3"])
        } else if i == 5 {
            ("rnbqkbnr/pppp1ppp/8/4p3/4P3/5N2/PPPP1PPP/RNBQKB1R b KQkq - 1 2", vec!["b8c6", "g8f6"])
        } else if i == 6 {
            ("r1bqkbnr/pppp1ppp/2n5/4p3/4P3/5N2/PPPP1PPP/RNBQKB1R w KQkq - 2 3", vec!["f1b5", "f1c4", "d2d4"])
        } else if i == 7 {
            ("rnbqkbnr/ppp1pppp/8/3p4/2PP4/8/PP2PPPP/RNBQKBNR b KQkq c3 0 2", vec!["e7e6", "c7c6", "d5c4"])
        } else if i == 8 {
            ("rnbqkbnr/pp1ppppp/8/2p5/4P3/8/PPPP1PPP/RNBQKBNR w KQkq c6 0 2", vec!["g1f3", "b1c3"])
        } else if i == 9 {
            ("r1bqkbnr/pppp1ppp/2n5/1B2p3/4P3/5N2/PPPP1PPP/RNBQK2R b KQkq - 3 3", vec!["a7a6", "g8f6", "f8c5"])
        } else if i == 10 {
            ("r1bqkbnr/pppp1ppp/2n5/4p3/2B1P3/5N2/PPPP1PPP/RNBQK2R b KQkq - 3 3", vec!["f8c5", "g8f6", "f8e7"])
        } else if i == 11 {
            ("r1bqkbnr/pppp1ppp/2n5/4p3/3PP3/5N2/PPP2PPP/RNBQKB1R b KQkq d3 0 3", vec!["e5d4", "g8f6"])
        } else if i == 12 {
            ("rnbqkbnr/pppp1ppp/4p3/8/3PP3/8/PPP2PPP/RNBQKBNR b KQkq d3 0 2", vec!["d7d5"])
        } else if i == 13 {
            ("rnbqkbnr/ppp2ppp/4p3/3p4/3PP3/2N5/PPP2PPP/R1BQKBNR b KQkq - 1 3", vec!["f8b4", "g8f6", "d5e4"])
        } else if i == 14 {
            ("rnbqkbnr/pp1ppppp/2p5/8/3PP3/8/PPP2PPP/RNBQKBNR b KQkq d3 0 2", vec!["d7d5"])
        } else if i == 15 {
            ("rnbqkbnr/pp2pppp/2p5/3p4/3PP3/2N5/PPP2PPP/R1BQKBNR b KQkq - 1 3", vec!["d5e4", "g8f6"])
        } else if i == 16 {
            ("rnbqkbnr/pp2pppp/3p4/2p5/4P3/5N2/PPPP1PPP/RNBQKB1R w KQkq - 0 3", vec!["d2d4", "f1c4"])
        } else if i == 17 {
            ("rnbqkbnr/pp2pppp/3p4/8/3pP3/5N2/PPP2PPP/RNBQKB1R w KQkq - 0 4", vec!["f3d4", "d1d4"])
        } else if i == 18 {
            ("r1bqkbnr/pp1ppppp/2n5/2p5/4P3/5N2/PPPP1PPP/RNBQKB1R w KQkq - 2 3", vec!["d2d4", "f1b5"])
        } else if i == 19 {
            ("rnbqkbnr/ppp2ppp/4p3/3p4/2PP4/8/PP2PPPP/RNBQKBNR w KQkq - 0 3", vec!["b1c3", "g1f3"])
        } else if i == 20 {
            ("rnbqkbnr/pp2pppp/2p5/3p4/2PP4/8/PP2PPPP/RNBQKBNR w KQkq - 0 3", vec!["g1f3", "b1c3"])
        } else if i == 21 {
            ("rnbqkbnr/ppp1pppp/8/8/2pP4/8/PP2PPPP/RNBQKBNR w KQkq - 0 3", vec!["g1f3", "e2e3"])
        } else if i == 22 {
            ("rnbqkb1r/pppppppp/5n2/8/2PP4/8/PP2PPPP/RNBQKBNR b KQkq c3 0 2", vec!["g7g6", "e7e6", "d7d5"])
        } else if i == 23 {
            ("rnbqkb1r/pppppp1p/5np1/8/2PP4/2N5/PP2PPPP/R1BQKBNR b KQkq - 1 3", vec!["f8g7", "d7d5"])
        } else if i == 24 {
            ("rnbqk2r/pppp1ppp/4pn2/8/1bPP4/2N5/PP2PPPP/R1BQKBNR w KQkq - 2 4", vec!["e2e3", "d1c2", "g1f3"])
        } else if i == 25 {
            ("rnbqkb1r/ppp1pp1p/5np1/3p4/2PP4/2N5/PP2PPPP/R1BQKBNR w KQkq d6 0 4", vec!["c4d5", "g1f3"])
        } else if i == 26 {
            ("rnbqkbnr/ppp1pppp/8/3p4/3P1B2/8/PPP1PPPP/RN1QKBNR b KQkq - 1 2", vec!["g8f6", "c7c5", "e7e6"])
        } else if i == 27 {
            ("rnbqkb1r/pppppppp/5n2/8/3P1B2/8/PPP1PPPP/RN1QKBNR b KQkq - 1 2", vec!["c7c5", "e7e6", "d7d5"])
        } else if i == 28 {
            ("rnbqkbnr/pppp1ppp/8/4p3/2P5/8/PP1PPPPP/RNBQKBNR w KQkq e6 0 2", vec!["b1c3", "g1f3"])
        } else if i == 29 {
            ("rnbqkbnr/pp1ppppp/8/2p5/2P5/8/PP1PPPPP/RNBQKBNR w KQkq c6 0 2", vec!["g1f3", "b1c3", "g2g3"])
        } else if i == 30 {
            ("rnbqkb1r/pppppppp/5n2/8/2P5/8/PP1PPPPP/RNBQKBNR w KQkq - 1 2", vec!["g1f3", "b1c3"])
        } else if i == 31 {
            ("rnbqkbnr/ppp1pppp/8/3p4/2P5/5N2/PP1PPPPP/RNBQKB1R b KQkq c3 0 2", vec!["d5c4", "e7e6", "g8f6"])
        } else if i == 32 {
            ("rnbqkb1r/pppppppp/5n2/8/2P5/5N2/PP1PPPPP/RNBQKB1R b KQkq c3 0 2", vec!["e7e6", "g7g6", "c7c5"])
        } else if i == 33 {
            ("rnbqkb1r/pppp1ppp/5n2/4p3/4P3/5N2/PPPP1PPP/RNBQKB1R w KQkq - 2 3", vec!["f3e5", "d2d4"])
        } else if i == 34 {
            ("rnbqkb1r/ppp2ppp/4pn2/3p4/2PP4/2N5/PP2PPPP/R1BQKBNR w KQkq - 1 4", vec!["g1f3", "c1g5"])
        } else if i == 35 {
            ("r1bqkbnr/1ppp1ppp/p1n5/4p3/B3P3/5N2/PPPP1PPP/RNBQK2R b KQkq - 4 4", vec!["g8f6", "f8c5"])
        } else if i == 36 {
            ("r1bqk1nr/pppp1ppp/2n5/2b1p3/2B1P3/5N2/PPPP1PPP/RNBQK2R w KQkq - 4 4", vec!["c2c3", "d2d3", "e1g1"])
        } else {
            ("", vec![])
        }
    }

    /// Fill the book with sound replies in common openings: the basic
    /// opening positions added in turn.
    fn populate_basic_openings(&mut self)
        requires
            old(self).wf(),
        ensures
            final(self).wf(),
            exists|bs: Seq<Map<u64, Seq<Move>>>| #[trigger] book_run(bs, BOOK_LINES as int) && bs[0] == old(self).book()
                && bs[BOOK_LINES as int] == final(self).book(),
    {
        let ghost mut bs = seq![self.book()];
        let mut i: usize = 0;
        while i < BOOK_LINES
            invariant
                self.wf(),
                i <= BOOK_LINES,
                book_run(bs, i as int),
                bs[0] == old(self).book(),
                bs[i as int] == self.book(),
            decreases BOOK_LINES - i,
        {
            let (fen, moves) = Self::line_of(i);
            let ghost before = self.book();
            self.add_position(fen, moves);
            proof {
                let bs2 = bs.push(self.book());
                assert forall|j: int| 0 <= j < i + 1 implies added(#[trigger] bs2[j], bs2[j + 1], book_line(j).0, book_line(j).1) by {
                    if j < i {
                        assert(bs2[j] == bs[j] && bs2[j + 1] == bs[j + 1]);
                    } else {
                        assert(bs2[j] == before && bs2[j + 1] == self.book());
                    }
                }
                bs = bs2;
            }
            i += 1;
        }
    }

    /// The first book move for the position, if it is in the book.
    pub fn probe(&self, board: &Board) -> (r: Option<Move>)
        requires
            self.wf(),
        ensures
            r == if self.book().contains_key(board.hash_value()) {
                Some(self.book()[board.hash_value()][0])
            } else {
                None
            },
            r matches Some(m) ==> exists|b: Board| #[trigger] b.hash_value() == board.hash_value() && b.wf() && pseudo_legal(b, m),
    {
        let hash = board.hash();
        match self.positions.get(&hash) {
            Some(moves) => {
                if moves.len() > 0 {
                    Some(moves[0])
                } else {
                    None
                }
            },
            None => None,
        }
    }

    /// Whether the position is in the book.
    pub fn contains(&self, board: &Board) -> (r: bool)
        ensures
            r == self.book().contains_key(board.hash_value()),
    {
        self.positions.contains_key(&board.hash())
    }

    /// The number of positions in the book.
    pub fn size(&self) -> (r: usize)
        ensures
            r == self.book().len(),
    {
        proof {
            assert(self.book().dom() =~= self.positions@.dom());
        }
        self.positions.len()
    }
}

impl Default for OpeningBook {
    fn default() -> (r: OpeningBook)
        ensures
            r.wf(),
    {
        OpeningBook::new()
    }
}

} // verus!
