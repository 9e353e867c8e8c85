use vstd::prelude::*;
use vstd::seq_lib::to_multiset_update;
use crate::chess_move::Move;

verus! {

/// An ordered list of moves.
#[derive(Debug)]
pub struct MoveList {
    moves: Vec<Move>,
}

impl View for MoveList {
    type V = Seq<Move>;

    closed spec fn view(&self) -> Seq<Move> {
        self.moves@
    }
}

/// Whether `keys` is sorted in non-decreasing order.
pub open spec fn sorted_keys(keys: Seq<i32>) -> bool {
    forall|i: int, j: int| 0 <= i < j < keys.len() ==> keys[i] <= keys[j]
}

/// Swapping two entries keeps the multiset of a sequence.
proof fn lemma_swap_multiset<A>(s: Seq<A>, i: int, j: int)
    requires
        0 <= i < s.len(),
        0 <= j < s.len(),
    ensures
        s.update(i, s[j]).update(j, s[i]).to_multiset() == s.to_multiset(),
{
    broadcast use vstd::multiset::group_multiset_axioms, vstd::multiset::group_multiset_properties;
    let s1 = s.update(i, s[j]);
    to_multiset_update(s, i, s[j]);
    to_multiset_update(s1, j, s[i]);
    if i == j {
        assert(s.update(i, s[j]).update(j, s[i]) =~= s);
    } else {
        assert(s1[j] == s[j]);
        let ms = s.to_multiset();
        let a = s[j];
        let b = s[i];
        s.to_multiset_ensures();
        assert(s.contains(b));
        assert(ms.count(b) > 0);
        let ms1 = ms.insert(a).remove(b);
        let ms2 = ms1.insert(b).remove(a);
        assert forall|x: A| ms2.count(x) == ms.count(x) by {
            if x == a && x == b {
            } else if x == a {
            } else if x == b {
            }
        }
        assert(ms2 =~= ms);
    }
}

impl MoveList {
    /// A new empty list.
    pub fn new() -> (r: MoveList)
        ensures
            r@ == Seq::<Move>::empty(),
    {
        MoveList { moves: Vec::new() }
    }

    /// Append a move.
    pub fn push(&mut self, m: Move)
        ensures
            final(self)@ == old(self)@.push(m),
    {
        self.moves.push(m);
    }

    /// Number of moves.
    pub fn len(&self) -> (r: usize)
        ensures
            r == self@.len(),
    {
        self.moves.len()
    }

    /// Whether the list is empty.
    pub fn is_empty(&self) -> (r: bool)
        ensures
            r == (self@.len() == 0),
    {
        self.moves.len() == 0
    }

    /// Remove all moves.
    pub fn clear(&mut self)
        ensures
            final(self)@ == Seq::<Move>::empty(),
    {
        self.moves.clear();
    }

    /// An iterator over the moves, in order.
    pub fn iter(&self) -> (r: std::slice::Iter<'_, Move>)
    {
        self.moves.as_slice().iter()
    }

    /// The move at an index.
    pub fn get(&self, index: usize) -> (r: Move)
        requires
            index < self@.len(),
        ensures
            r == self@[index as int],
    {
        self.moves[index]
    }

    /// Replace the move at an index.
    pub fn set(&mut self, index: usize, m: Move)
        requires
            index < old(self)@.len(),
        ensures
            final(self)@ == old(self)@.update(index as int, m),
    {
        self.moves.set(index, m);
    }

    /// Swap two moves.
    pub fn swap(&mut self, a: usize, b: usize)
        requires
            a < old(self)@.len(),
            b < old(self)@.len(),
        ensures
            final(self)@ == old(self)@.update(a as int, old(self)@[b as int]).update(b as int, old(self)@[a as int]),
            final(self)@.to_multiset() == old(self)@.to_multiset(),
    {
        let ma = self.moves[a];
        let mb = self.moves[b];
        self.moves.set(a, mb);
        self.moves.set(b, ma);
        proof {
            lemma_swap_multiset(old(self)@, a as int, b as int);
        }
    }

    /// An iterator that hands out the moves in order.
    pub fn into_iter(self) -> (r: MoveListIntoIter)
        ensures
            r.remaining_moves() == self@,
    {
        MoveListIntoIter::new(self)
    }

    /// The moves as a slice.
    pub fn as_slice(&self) -> (r: &[Move])
        ensures
            r@ == self@,
    {
        self.moves.as_slice()
    }

    /// The moves as a vector.
    pub fn to_vec(&self) -> (r: Vec<Move>)
        ensures
            r@ == self@,
    {
        let mut v: Vec<Move> = Vec::new();
        let mut i: usize = 0;
        while i < self.moves.len()
            invariant
                i <= self.moves.len(),
                v@ == self.moves@.subrange(0, i as int),
            decreases self.moves.len() - i,
        {
            v.push(self.moves[i]);
            i += 1;
            assert(v@ =~= self.moves@.subrange(0, i as int));
        }
        assert(self.moves@.subrange(0, self.moves.len() as int) =~= self.moves@);
        v
    }

    /// Stable sort by a key computed once per move: afterwards the list is a
    /// permutation of the old one and the keys it was sorted by are
    /// non-decreasing.
    pub fn sort_by_key<F: Fn(&Move) -> i32>(&mut self, key: F)
        requires
            forall|m: Move| #[trigger] key.requires((&m,)),
        ensures
            final(self)@.to_multiset() == old(self)@.to_multiset(),
            final(self)@.len() == old(self)@.len(),
            exists|ks: Seq<i32>| #![trigger ks.len()]
                ks.len() == final(self)@.len() && sorted_keys(ks)
                && forall|i: int| 0 <= i < ks.len() ==> key.ensures((&final(self)@[i],), #[trigger] ks[i]),
            exists|ks: Seq<i32>, perm: Seq<int>| #[trigger] stable_by(ks, perm, old(self)@, final(self)@)
                && ks.len() == final(self)@.len()
                && forall|i: int| 0 <= i < ks.len() ==> key.ensures((&final(self)@[i],), #[trigger] ks[i]),
    {
        let n = self.moves.len();
        let mut keys: Vec<i32> = Vec::new();
        let mut i: usize = 0;
        while i < n
            invariant
                n == self.moves.len(),
                i <= n,
                keys.len() == i,
                self@ == old(self)@,
                forall|m: Move| #[trigger] key.requires((&m,)),
                forall|k: int| 0 <= k < i ==> key.ensures((&self.moves@[k],), #[trigger] keys@[k]),
            decreases n - i,
        {
            let m = self.moves[i];
            let k = key(&m);
            keys.push(k);
            i += 1;
        }
        // insertion sort of (keys, moves) pairs
        let ghost mut perm: Seq<int> = Seq::new(n as nat, |k: int| k);
        let mut j: usize = 1;
        while j < n
            invariant
                perm.len() == n,
                forall|k: int| 0 <= k < n ==> 0 <= #[trigger] perm[k] < n && self@[k] == old(self)@[perm[k]],
                forall|k: int| j <= k < n ==> #[trigger] perm[k] == k,
                forall|k: int| 0 <= k < j && k < n ==> #[trigger] perm[k] < j,
                forall|a: int, b: int| 0 <= a < b < j && b < n && keys@[a] == keys@[b] ==> #[trigger] perm[a] < #[trigger] perm[b],
                n == self.moves.len(),
                n == keys.len(),
                1 <= j || n == 0,
                j <= n || n == 0,
                self@.to_multiset() == old(self)@.to_multiset(),
                self@.len() == old(self)@.len(),
                forall|k: int| 0 <= k < n ==> key.ensures((&self.moves@[k],), #[trigger] keys@[k]),
                forall|a: int, b: int| 0 <= a < b < j && b < n ==> keys@[a] <= keys@[b],
            decreases n - j,
        {
            let mut p: usize = j;
            while p > 0 && keys[p - 1] > keys[p]
                invariant
                    perm.len() == n,
                    forall|k: int| 0 <= k < n ==> 0 <= #[trigger] perm[k] < n && self@[k] == old(self)@[perm[k]],
                    perm[p as int] == j,
                    forall|k: int| j < k < n ==> #[trigger] perm[k] == k,
                    forall|k: int| 0 <= k <= j && k != p ==> #[trigger] perm[k] < j,
                    forall|a: int| p < a <= j ==> keys@[p as int] < #[trigger] keys@[a],
                    forall|a: int, b: int| 0 <= a < b <= j && a != p && b != p && keys@[a] == keys@[b] ==>
                        #[trigger] perm[a] < #[trigger] perm[b],
                    n == self.moves.len(),
                    n == keys.len(),
                    0 <= p <= j < n,
                    self@.to_multiset() == old(self)@.to_multiset(),
                    self@.len() == old(self)@.len(),
                    forall|k: int| 0 <= k < n ==> key.ensures((&self.moves@[k],), #[trigger] keys@[k]),
                    forall|a: int, b: int| 0 <= a < b <= j && a != p && b != p ==> keys@[a] <= keys@[b],
                    forall|a: int| p < a <= j ==> keys@[p as int] <= #[trigger] keys@[a],
                    p < j ==> forall|a: int| 0 <= a < p ==> #[trigger] keys@[a] <= keys@[p as int + 1],
                decreases p,
            {
                let ka = keys[p - 1];
                let kb = keys[p];
                keys.set(p - 1, kb);
                keys.set(p, ka);
                let ghost before = self@;
                self.swap(p - 1, p);
                proof {
                    let q = p as int;
                    perm = perm.update(q - 1, perm[q]).update(q, perm[q - 1]);
                }
                p -= 1;
            }
            j += 1;
        }
        proof {
            assert(sorted_keys(keys@));
            if n > 0 {
                assert(stable_by(keys@, perm, old(self)@, self@));
            } else {
                assert(stable_by(keys@, perm, old(self)@, self@));
            }
            let ks = keys@;
            assert(ks.len() == self@.len());
            assert(forall|i: int| 0 <= i < ks.len() ==> key.ensures((&self@[i],), #[trigger] ks[i]));
        }
    }
}

/// Whether `after` is `before` reordered by `perm` (`after[i]` is
/// `before[perm[i]]`) so that moves of equal key keep their old order.
pub open spec fn stable_by(ks: Seq<i32>, perm: Seq<int>, before: Seq<Move>, after: Seq<Move>) -> bool {
    &&& perm.len() == after.len() && after.len() == before.len()
    &&& forall|k: int| 0 <= k < after.len() ==> 0 <= #[trigger] perm[k] < before.len() && after[k] == before[perm[k]]
    &&& forall|a: int, b: int| 0 <= a < b < after.len() && ks[a] == ks[b] ==> #[trigger] perm[a] < #[trigger] perm[b]
}

impl Clone for MoveList {
    fn clone(&self) -> (r: Self)
        ensures
            r@ == self@,
    {
        MoveList { moves: self.to_vec() }
    }
}

/// An owning iterator over the moves of a list.
pub struct MoveListIntoIter {
    list: MoveList,
    index: usize,
}

impl MoveListIntoIter {
    /// The moves not yet produced.
    pub closed spec fn remaining_moves(&self) -> Seq<Move> {
        if self.index <= self.list@.len() {
            self.list@.subrange(self.index as int, self.list@.len() as int)
        } else {
            Seq::empty()
        }
    }

    /// Start iterating a list from its first move.
    pub fn new(list: MoveList) -> (r: MoveListIntoIter)
        ensures
            r.remaining_moves() == list@,
    {
        let r = MoveListIntoIter { list, index: 0 };
        assert(r.remaining_moves() =~= list@);
        r
    }

    /// The next move, or `None` when all were produced.
    pub fn next(&mut self) -> (r: Option<Move>)
        ensures
            old(self).remaining_moves().len() == 0 ==> r is None && final(self).remaining_moves().len() == 0,
            old(self).remaining_moves().len() > 0 ==> r == Some(old(self).remaining_moves()[0])
                && final(self).remaining_moves() == old(self).remaining_moves().drop_first(),
    {
        if self.index < self.list.moves.len() {
            let m = self.list.moves[self.index];
            self.index += 1;
            assert(self.remaining_moves() =~= old(self).remaining_moves().drop_first());
            Some(m)
        } else {
            None
        }
    }

    /// Number of moves left.
    pub fn len(&self) -> (r: usize)
        ensures
            r == self.remaining_moves().len(),
    {
        if self.index <= self.list.moves.len() {
            self.list.moves.len() - self.index
        } else {
            0
        }
    }
}

} // verus!
