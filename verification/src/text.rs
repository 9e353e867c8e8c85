use vstd::prelude::*;
use vstd::std_specs::iter::IteratorSpec;

verus! {

/// Appends a character to a string.
///
/// Trusted wrapper of `String::push`: the string afterwards holds the old
/// characters followed by `c`, as std documents.
#[verifier::external_body]
pub fn push_char(s: &mut String, c: char)
    ensures
        final(s)@ == old(s)@.push(c),
{
    s.push(c);
}

/// Appends a string slice to a string.
///
/// Trusted wrapper of `String::push_str`: the string afterwards holds the
/// old characters followed by those of `t`, as std documents.
#[verifier::external_body]
pub fn push_str(s: &mut String, t: &str)
    ensures
        final(s)@ == old(s)@ + t@,
{
    s.push_str(t);
}

/// Decimal digits of a natural number, most significant first, with no
/// leading zeros ("0" for zero).
pub open spec fn decimal(n: nat) -> Seq<char>
    decreases n,
{
    if n < 10 {
        seq![digit_char(n)]
    } else {
        decimal(n / 10).push(digit_char(n % 10))
    }
}

/// The ASCII character of a decimal digit.
pub open spec fn digit_char(d: nat) -> char {
    (('0' as nat) + d) as char
}

/// Appends the decimal digits of `n` to `s`.
pub fn push_decimal(s: &mut String, n: u64)
    ensures
        final(s)@ == old(s)@ + decimal(n as nat),
    decreases n,
{
    if n >= 10 {
        push_decimal(s, n / 10);
    }
    let d: u8 = (n % 10) as u8;
    let code: u8 = 48u8 + d;
    let c: char = code as char;
    push_char(s, c);
    proof {
        if n >= 10 {
            assert(decimal(n as nat) == decimal((n / 10) as nat).push(digit_char((n % 10) as nat)));
        }
        assert(old(s)@ + decimal(n as nat) =~= final(s)@);
    }
}

/// The decimal text of a number as a new string.
pub fn decimal_string(n: u64) -> (r: String)
    ensures
        r@ == decimal(n as nat),
{
    let mut s = String::new();
    push_decimal(&mut s, n);
    proof {
        assert(Seq::<char>::empty() + decimal(n as nat) =~= decimal(n as nat));
    }
    s
}

/// The characters of a string slice, in order.
pub fn chars_of(s: &str) -> (r: Vec<char>)
    ensures
        r@ == s@,
{
    broadcast use vstd::string::axiom_spec_iter, vstd::string::next_postcondition;
    let mut v: Vec<char> = Vec::new();
    let mut it = s.chars();
    loop
        invariant
            it.remaining() == s@.skip(v@.len() as int),
            v@ == s@.take(v@.len() as int),
            v@.len() <= s@.len(),
        ensures
            v@ == s@,
        decreases s@.len() - v@.len(),
    {
        match it.next() {
            Some(c) => {
                v.push(c);
                assert(s@.take(v@.len() as int) =~= s@.take(v@.len() - 1).push(c));
            },
            None => {
                assert(v@ =~= s@);
                break;
            },
        }
    }
    v
}

/// Unicode white space, as `char::is_whitespace` classifies it.
pub open spec fn is_ws(c: char) -> bool {
    let x = c as u32;
    ||| 9 <= x <= 13
    ||| x == 32 || x == 0x85 || x == 0xA0 || x == 0x1680
    ||| 0x2000 <= x <= 0x200A
    ||| x == 0x2028 || x == 0x2029 || x == 0x202F || x == 0x205F || x == 0x3000
}

/// Whether a character is white space.
pub fn is_whitespace(c: char) -> (r: bool)
    ensures
        r == is_ws(c),
{
    let x = c as u32;
    (9 <= x && x <= 13) || x == 32 || x == 0x85 || x == 0xA0 || x == 0x1680
        || (0x2000 <= x && x <= 0x200A)
        || x == 0x2028 || x == 0x2029 || x == 0x202F || x == 0x205F || x == 0x3000
}

/// One step of splitting at white space: the finished pieces and the piece
/// being read.
pub open spec fn ws_step(st: (Seq<Seq<char>>, Seq<char>), ch: char) -> (Seq<Seq<char>>, Seq<char>) {
    if is_ws(ch) {
        if st.1.len() > 0 { (st.0.push(st.1), Seq::empty()) } else { (st.0, Seq::empty()) }
    } else {
        (st.0, st.1.push(ch))
    }
}

/// The state after splitting the first `n` characters at white space.
pub open spec fn ws_scan(s: Seq<char>, n: nat) -> (Seq<Seq<char>>, Seq<char>)
    decreases n,
{
    if n == 0 || n > s.len() {
        (Seq::empty(), Seq::empty())
    } else {
        ws_step(ws_scan(s, (n - 1) as nat), s[n - 1])
    }
}

/// The maximal runs of non-white-space characters of `s`, in order.
pub open spec fn ws_tokens(s: Seq<char>) -> Seq<Seq<char>> {
    let st = ws_scan(s, s.len());
    if st.1.len() > 0 { st.0.push(st.1) } else { st.0 }
}

/// One step of splitting at a separator.
pub open spec fn sep_step(st: (Seq<Seq<char>>, Seq<char>), ch: char, sep: char) -> (Seq<Seq<char>>, Seq<char>) {
    if ch == sep { (st.0.push(st.1), Seq::empty()) } else { (st.0, st.1.push(ch)) }
}

/// The state after splitting the first `n` characters at `sep`.
pub open spec fn sep_scan(s: Seq<char>, sep: char, n: nat) -> (Seq<Seq<char>>, Seq<char>)
    decreases n,
{
    if n == 0 || n > s.len() {
        (Seq::empty(), Seq::empty())
    } else {
        sep_step(sep_scan(s, sep, (n - 1) as nat), s[n - 1], sep)
    }
}

/// The pieces of `s` between separators, empty pieces included (one piece
/// more than there are separators).
pub open spec fn split_at_char(s: Seq<char>, sep: char) -> Seq<Seq<char>> {
    let st = sep_scan(s, sep, s.len());
    st.0.push(st.1)
}

/// The character sequences of a list of character vectors.
pub open spec fn views(v: Seq<Vec<char>>) -> Seq<Seq<char>> {
    Seq::new(v.len(), |i: int| v[i]@)
}

/// Split at white space, dropping empty pieces.
pub fn split_ws(s: &[char]) -> (r: Vec<Vec<char>>)
    ensures
        views(r@) == ws_tokens(s@),
{
    let mut done: Vec<Vec<char>> = Vec::new();
    let mut cur: Vec<char> = Vec::new();
    let mut i: usize = 0;
    while i < s.len()
        invariant
            i <= s@.len(),
            views(done@) == ws_scan(s@, i as nat).0,
            cur@ == ws_scan(s@, i as nat).1,
        decreases s@.len() - i,
    {
        let ch = s[i];
        let ghost d0 = done@;
        if is_whitespace(ch) {
            if cur.len() > 0 {
                let piece = cur;
                done.push(piece);
                cur = Vec::new();
                assert(views(done@) =~= views(d0).push(piece@));
            } else {
                cur = Vec::new();
            }
        } else {
            cur.push(ch);
        }
        i += 1;
    }
    if cur.len() > 0 {
        let ghost d0 = done@;
        let piece = cur;
        done.push(piece);
        assert(views(done@) =~= views(d0).push(piece@));
    }
    done
}

/// Split at every occurrence of `sep`, keeping empty pieces.
pub fn split_on(s: &[char], sep: char) -> (r: Vec<Vec<char>>)
    ensures
        views(r@) == split_at_char(s@, sep),
{
    let mut done: Vec<Vec<char>> = Vec::new();
    let mut cur: Vec<char> = Vec::new();
    let mut i: usize = 0;
    while i < s.len()
        invariant
            i <= s@.len(),
            views(done@) == sep_scan(s@, sep, i as nat).0,
            cur@ == sep_scan(s@, sep, i as nat).1,
        decreases s@.len() - i,
    {
        let ch = s[i];
        let ghost d0 = done@;
        if ch == sep {
            let piece = cur;
            done.push(piece);
            cur = Vec::new();
            assert(views(done@) =~= views(d0).push(piece@));
        } else {
            cur.push(ch);
        }
        i += 1;
    }
    let ghost d0 = done@;
    let piece = cur;
    done.push(piece);
    assert(views(done@) =~= views(d0).push(piece@));
    done
}

/// A string holding the given characters.
pub fn string_of(cs: &[char]) -> (r: String)
    ensures
        r@ == cs@,
{
    let mut out = String::new();
    let mut i: usize = 0;
    while i < cs.len()
        invariant
            i <= cs@.len(),
            out@ == cs@.take(i as int),
        decreases cs@.len() - i,
    {
        push_char(&mut out, cs[i]);
        assert(cs@.take(i as int + 1) =~= cs@.take(i as int).push(cs@[i as int]));
        i += 1;
    }
    assert(cs@.take(cs@.len() as int) =~= cs@);
    out
}

/// Whether two character sequences are equal.
pub fn chars_eq(a: &[char], b: &[char]) -> (r: bool)
    ensures
        r == (a@ == b@),
{
    if a.len() != b.len() {
        return false;
    }
    let mut i: usize = 0;
    while i < a.len()
        invariant
            a@.len() == b@.len(),
            i <= a@.len(),
            forall|j: int| 0 <= j < i ==> a@[j] == b@[j],
        decreases a@.len() - i,
    {
        if a[i] != b[i] {
            return false;
        }
        i += 1;
    }
    assert(a@ =~= b@);
    true
}

/// The number of leading characters of `s` satisfying `is_ws`, or equal to
/// `c` when `c` is given.
pub open spec fn lead_count(s: Seq<char>, c: Option<char>) -> nat
    decreases s.len(),
{
    if s.len() == 0 {
        0
    } else if (match c { Some(x) => s[0] == x, None => is_ws(s[0]) }) {
        1 + lead_count(s.drop_first(), c)
    } else {
        0
    }
}

/// The number of trailing characters of `s` satisfying `is_ws`, or equal
/// to `c` when `c` is given.
pub open spec fn trail_count(s: Seq<char>, c: Option<char>) -> nat
    decreases s.len(),
{
    if s.len() == 0 {
        0
    } else if (match c { Some(x) => s.last() == x, None => is_ws(s.last()) }) {
        1 + trail_count(s.drop_last(), c)
    } else {
        0
    }
}

/// `s` without its leading and trailing white space (or copies of `c`
/// when given), as `str::trim` and `str::trim_matches` do.
pub open spec fn trimmed(s: Seq<char>, c: Option<char>) -> Seq<char> {
    let a = lead_count(s, c);
    if a == s.len() {
        Seq::empty()
    } else {
        s.subrange(a as int, s.len() - trail_count(s, c))
    }
}

/// Whether a character is stripped by a trim with `c`.
fn strips(ch: char, c: Option<char>) -> (r: bool)
    ensures
        r == (match c { Some(x) => ch == x, None => is_ws(ch) }),
{
    match c {
        Some(x) => ch == x,
        None => is_whitespace(ch),
    }
}

proof fn lemma_lead_count_bound(s: Seq<char>, c: Option<char>)
    ensures
        lead_count(s, c) <= s.len(),
        trail_count(s, c) <= s.len(),
    decreases s.len(),
{
    if s.len() > 0 {
        lemma_lead_count_bound(s.drop_first(), c);
        lemma_lead_count_bound(s.drop_last(), c);
    }
}

proof fn lemma_lead_count(s: Seq<char>, c: Option<char>, i: int)
    requires
        0 <= i <= s.len(),
        forall|j: int| 0 <= j < i ==> (match c { Some(x) => #[trigger] s[j] == x, None => is_ws(s[j]) }),
    ensures
        lead_count(s, c) >= i,
        i < s.len() && !(match c { Some(x) => s[i] == x, None => is_ws(s[i]) }) ==> lead_count(s, c) == i,
    decreases i,
{
    if i > 0 {
        let t = s.drop_first();
        assert forall|j: int| 0 <= j < i - 1 implies (match c { Some(x) => #[trigger] t[j] == x, None => is_ws(t[j]) }) by {
            assert(t[j] == s[j + 1]);
        }
        lemma_lead_count(t, c, i - 1);
    }
}

proof fn lemma_trail_count(s: Seq<char>, c: Option<char>, k: int)
    requires
        0 <= k <= s.len(),
        forall|j: int| s.len() - k <= j < s.len() ==> (match c { Some(x) => #[trigger] s[j] == x, None => is_ws(s[j]) }),
    ensures
        trail_count(s, c) >= k,
        k < s.len() && !(match c { Some(x) => s[s.len() - k - 1] == x, None => is_ws(s[s.len() - k - 1]) }) ==> trail_count(s, c) == k,
    decreases k,
{
    if k > 0 {
        let t = s.drop_last();
        assert forall|j: int| t.len() - (k - 1) <= j < t.len() implies (match c { Some(x) => #[trigger] t[j] == x, None => is_ws(t[j]) }) by {
            assert(t[j] == s[j]);
        }
        lemma_trail_count(t, c, k - 1);
    }
}

/// Strip leading and trailing white space (or copies of `c` when given).
pub fn trim_chars(s: &[char], c: Option<char>) -> (r: Vec<char>)
    ensures
        r@ == trimmed(s@, c),
{
    let n = s.len();
    let mut a: usize = 0;
    while a < n && strips(s[a], c)
        invariant
            a <= n,
            n == s@.len(),
            forall|j: int| 0 <= j < a ==> (match c { Some(x) => #[trigger] s@[j] == x, None => is_ws(s@[j]) }),
        decreases n - a,
    {
        a += 1;
    }
    proof {
        lemma_lead_count(s@, c, a as int);
        lemma_lead_count_bound(s@, c);
    }
    if a == n {
        return Vec::new();
    }
    let mut b: usize = n;
    while b > a && strips(s[b - 1], c)
        invariant
            a < n,
            a <= b <= n,
            n == s@.len(),
            !(match c { Some(x) => s@[a as int] == x, None => is_ws(s@[a as int]) }),
            forall|j: int| b <= j < n ==> (match c { Some(x) => #[trigger] s@[j] == x, None => is_ws(s@[j]) }),
        decreases b,
    {
        b -= 1;
    }
    proof {
        lemma_trail_count(s@, c, (n - b) as int);
    }
    let mut out: Vec<char> = Vec::new();
    let mut i = a;
    while i < b
        invariant
            a <= i <= b <= n,
            n == s@.len(),
            out@ == s@.subrange(a as int, i as int),
        decreases b - i,
    {
        out.push(s[i]);
        assert(s@.subrange(a as int, i as int + 1) =~= s@.subrange(a as int, i as int).push(s@[i as int]));
        i += 1;
    }
    out
}

/// Pieces joined with single spaces.
pub open spec fn joined(p: Seq<Seq<char>>) -> Seq<char>
    decreases p.len(),
{
    if p.len() == 0 {
        Seq::empty()
    } else if p.len() == 1 {
        p[0]
    } else {
        joined(p.drop_last()) + seq![' '] + p.last()
    }
}

/// Join the pieces `from..` of a list with single spaces.
pub fn join_from(p: &Vec<Vec<char>>, from: usize) -> (r: Vec<char>)
    requires
        from <= p@.len(),
    ensures
        r@ == joined(views(p@).subrange(from as int, p@.len() as int)),
{
    let mut out: Vec<char> = Vec::new();
    let mut i = from;
    while i < p.len()
        invariant
            from <= i <= p@.len(),
            out@ == joined(views(p@).subrange(from as int, i as int)),
        decreases p@.len() - i,
    {
        let ghost before = out@;
        if i > from {
            out.push(' ');
        }
        let piece = &p[i];
        let mut j: usize = 0;
        while j < piece.len()
            invariant
                j <= piece@.len(),
                out@ == (if i > from { before + seq![' '] } else { before }) + piece@.take(j as int),
            decreases piece@.len() - j,
        {
            out.push(piece[j]);
            assert(piece@.take(j as int + 1) =~= piece@.take(j as int).push(piece@[j as int]));
            j += 1;
        }
        proof {
            let q = views(p@).subrange(from as int, i as int + 1);
            assert(q.drop_last() =~= views(p@).subrange(from as int, i as int));
            assert(q.last() == piece@);
            assert(piece@.take(piece@.len() as int) =~= piece@);
            if i == from {
                assert(before =~= Seq::<char>::empty());
                assert(q.len() == 1);
                assert(out@ =~= q[0]);
            }
        }
        i += 1;
    }
    out
}

/// `s` without its trailing copies of `c`, as `str::trim_end_matches` does.
pub open spec fn strip_end(s: Seq<char>, c: char) -> Seq<char> {
    s.take(s.len() - trail_count(s, Some(c)))
}

/// Strip trailing copies of `c`.
pub fn strip_end_char(s: &[char], c: char) -> (r: Vec<char>)
    ensures
        r@ == strip_end(s@, c),
{
    let n = s.len();
    let mut b: usize = n;
    while b > 0 && s[b - 1] == c
        invariant
            b <= n,
            n == s@.len(),
            forall|j: int| b <= j < n ==> #[trigger] s@[j] == c,
        decreases b,
    {
        b -= 1;
    }
    proof {
        lemma_trail_count(s@, Some(c), (n - b) as int);
        lemma_lead_count_bound(s@, Some(c));
        if b > 0 {
            assert(s@[n - (n - b) - 1] != c);
        } else {
            assert(trail_count(s@, Some(c)) == n);
        }
    }
    let mut out: Vec<char> = Vec::new();
    let mut i: usize = 0;
    while i < b
        invariant
            i <= b <= n,
            n == s@.len(),
            out@ == s@.take(i as int),
        decreases b - i,
    {
        out.push(s[i]);
        assert(s@.take(i as int + 1) =~= s@.take(i as int).push(s@[i as int]));
        i += 1;
    }
    out
}

/// The characters of a list of strings.
pub open spec fn string_views(v: Seq<String>) -> Seq<Seq<char>> {
    Seq::new(v.len(), |i: int| v[i]@)
}

} // verus!
