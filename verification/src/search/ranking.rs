//! Multi-PV lines put in order of score.
use vstd::prelude::*;
use crate::board::Board;
use crate::chess_move::Move;
use crate::search::advanced::{PVLine, copy_moves};
use crate::search::line::legal_line;

verus! {

/// Whether a line is a nonempty legal line of `b`.
pub open spec fn line_ok(b: Board, l: PVLine) -> bool {
    l.pv@.len() >= 1 && legal_line(b, l.pv@)
}

/// Whether some line of `ls` starts with `m`.
pub open spec fn starts_some(ls: Seq<PVLine>, m: Move) -> bool {
    exists|p: int| 0 <= p < ls.len() && (#[trigger] ls[p]).pv@[0] == m
}

/// The first place whose line scores lower than `score` (the end when
/// there is none).
fn first_lower(out: &Vec<PVLine>, score: i32) -> (pos: usize)
    ensures
        pos <= out@.len(),
        forall|p: int| 0 <= p < pos ==> (#[trigger] out@[p]).score >= score,
        pos < out@.len() ==> out@[pos as int].score < score,
{
    let mut pos: usize = 0;
    while pos < out.len() && out[pos].score >= score
        invariant
            pos <= out@.len(),
            forall|p: int| 0 <= p < pos ==> (#[trigger] out@[p]).score >= score,
        decreases out@.len() - pos,
    {
        pos += 1;
    }
    pos
}

/// The lines ordered by score, highest first, lines of equal score in
/// their old order; the lines and their first moves are kept.
pub fn sort_lines(b: Ghost<Board>, lines: &Vec<PVLine>) -> (r: Vec<PVLine>)
    requires
        forall|i: int| 0 <= i < lines@.len() ==> line_ok(b@, #[trigger] lines@[i]),
        forall|i: int, j: int| 0 <= i < j < lines@.len() ==> (#[trigger] lines@[i]).pv@[0] != (#[trigger] lines@[j]).pv@[0],
    ensures
        r@.len() == lines@.len(),
        forall|p: int, q: int| 0 <= p < q < r@.len() ==> (#[trigger] r@[p]).score >= (#[trigger] r@[q]).score,
        forall|p: int| 0 <= p < r@.len() ==> line_ok(b@, #[trigger] r@[p]),
        forall|p: int, q: int| 0 <= p < q < r@.len() ==> (#[trigger] r@[p]).pv@[0] != (#[trigger] r@[q]).pv@[0],
        forall|m: Move| starts_some(lines@, m) ==> #[trigger] starts_some(r@, m),
{
    let mut out: Vec<PVLine> = Vec::new();
    let mut i: usize = 0;
    while i < lines.len()
        invariant
            i <= lines@.len(),
            out@.len() == i,
            forall|k: int| 0 <= k < lines@.len() ==> line_ok(b@, #[trigger] lines@[k]),
            forall|k: int, j: int| 0 <= k < j < lines@.len() ==> (#[trigger] lines@[k]).pv@[0] != (#[trigger] lines@[j]).pv@[0],
            forall|p: int, q: int| 0 <= p < q < out@.len() ==> (#[trigger] out@[p]).score >= (#[trigger] out@[q]).score,
            forall|p: int| 0 <= p < out@.len() ==> line_ok(b@, #[trigger] out@[p]),
            forall|p: int| 0 <= p < out@.len() ==> exists|j: int| 0 <= j < i && (#[trigger] out@[p]).pv@[0] == lines@[j].pv@[0],
            forall|j: int| 0 <= j < i ==> starts_some(out@, (#[trigger] lines@[j]).pv@[0]),
            forall|p: int, q: int| 0 <= p < q < out@.len() ==> (#[trigger] out@[p]).pv@[0] != (#[trigger] out@[q]).pv@[0],
        decreases lines@.len() - i,
    {
        let x = PVLine { score: lines[i].score, pv: copy_moves(&lines[i].pv) };
        let pos = first_lower(&out, x.score);
        let ghost before = out@;
        proof {
            assert(line_ok(b@, lines@[i as int]));
            assert forall|p: int| 0 <= p < before.len() implies (#[trigger] before[p]).pv@[0] != x.pv@[0] by {
                let j = choose|j: int| 0 <= j < i && before[p].pv@[0] == lines@[j].pv@[0];
                assert(lines@[j].pv@[0] != lines@[i as int].pv@[0]);
            }
        }
        out.insert(pos, x);
        proof {
            before.insert_ensures(pos as int, x);
            let a = out@;
            assert forall|p: int| 0 <= p < a.len() implies line_ok(b@, #[trigger] a[p])
                && exists|j: int| 0 <= j < i + 1 && a[p].pv@[0] == lines@[j].pv@[0] by {
                if p < pos {
                    assert(a[p] == before[p]);
                } else if p == pos {
                    assert(a[p].pv@[0] == lines@[i as int].pv@[0]);
                } else {
                    assert(a[p] == before[p - 1]);
                }
            }
            assert forall|j: int| 0 <= j < i + 1 implies starts_some(a, (#[trigger] lines@[j]).pv@[0]) by {
                if j == i {
                    assert(a[pos as int].pv@[0] == lines@[j].pv@[0]);
                } else {
                    assert(starts_some(before, lines@[j].pv@[0]));
                    let p = choose|p: int| 0 <= p < before.len() && (#[trigger] before[p]).pv@[0] == lines@[j].pv@[0];
                    if p < pos {
                        assert(a[p] == before[p]);
                    } else {
                        assert(a[p + 1] == before[p]);
                    }
                }
            }
            assert forall|p: int, q: int| 0 <= p < q < a.len() implies (#[trigger] a[p]).score >= (#[trigger] a[q]).score by {
                if p < pos && q < pos {
                    assert(a[p] == before[p] && a[q] == before[q]);
                } else if p < pos && q == pos {
                    assert(a[p] == before[p]);
                } else if p < pos {
                    assert(a[p] == before[p] && a[q] == before[q - 1]);
                } else if p == pos {
                    assert(a[q] == before[q - 1]);
                } else {
                    assert(a[p] == before[p - 1] && a[q] == before[q - 1]);
                }
            }
            assert forall|p: int, q: int| 0 <= p < q < a.len() implies (#[trigger] a[p]).pv@[0] != (#[trigger] a[q]).pv@[0] by {
                if p < pos && q < pos {
                    assert(a[p] == before[p] && a[q] == before[q]);
                } else if p < pos && q == pos {
                    assert(a[p] == before[p]);
                } else if p < pos {
                    assert(a[p] == before[p] && a[q] == before[q - 1]);
                } else if p == pos {
                    assert(a[q] == before[q - 1]);
                } else {
                    assert(a[p] == before[p - 1] && a[q] == before[q - 1]);
                }
            }
        }
        i += 1;
    }
    proof {
        assert forall|m: Move| starts_some(lines@, m) implies #[trigger] starts_some(out@, m) by {
            let j = choose|j: int| 0 <= j < lines@.len() && (#[trigger] lines@[j]).pv@[0] == m;
            assert(starts_some(out@, lines@[j].pv@[0]));
        }
    }
    out
}

} // verus!
