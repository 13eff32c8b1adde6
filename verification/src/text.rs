//! Text primitives shared by the header and path logic: the whitespace trim,
//! the separator split and the first-occurrence search, each specified over
//! sequences the way `str::trim`, `str::split` and `str::split_once` behave.
use vstd::prelude::*;

verus! {

/// ASCII whitespace as `char::is_whitespace` sees it: tab, line feed,
/// vertical tab, form feed, carriage return and space.
pub open spec fn is_space(b: u8) -> bool {
    b == 32 || (9 <= b && b <= 13)
}

/// Number of leading whitespace bytes.
pub open spec fn lead(s: Seq<u8>) -> nat
    decreases s.len(),
{
    if s.len() > 0 && is_space(s[0]) {
        1 + lead(s.drop_first())
    } else {
        0
    }
}

/// Number of trailing whitespace bytes.
pub open spec fn trail(s: Seq<u8>) -> nat
    decreases s.len(),
{
    if s.len() > 0 && is_space(s.last()) {
        1 + trail(s.drop_last())
    } else {
        0
    }
}

/// `s` without leading and trailing whitespace.
pub open spec fn trim(s: Seq<u8>) -> Seq<u8> {
    if lead(s) == s.len() {
        Seq::empty()
    } else {
        s.subrange(lead(s) as int, s.len() - trail(s))
    }
}

/// Index of the first `b` in `s`, if any.
pub open spec fn find(s: Seq<u8>, b: u8) -> Option<int>
    decreases s.len(),
{
    if s.len() == 0 {
        None
    } else if s[0] == b {
        Some(0)
    } else {
        match find(s.drop_first(), b) {
            Some(i) => Some(i + 1),
            None => None,
        }
    }
}

/// The pieces of `s` between occurrences of `sep`, as `str::split` yields
/// them: `n` separators give `n + 1` pieces, empty ones included.
pub open spec fn split<A>(s: Seq<A>, sep: A) -> Seq<Seq<A>>
    decreases s.len(),
{
    if s.len() == 0 {
        seq![Seq::empty()]
    } else {
        let p = split(s.drop_last(), sep);
        if s.last() == sep {
            p.push(Seq::empty())
        } else {
            p.update(p.len() - 1, p.last().push(s.last()))
        }
    }
}

pub proof fn lemma_split_nonempty<A>(s: Seq<A>, sep: A)
    ensures
        split(s, sep).len() >= 1,
    decreases s.len(),
{
    if s.len() > 0 {
        lemma_split_nonempty(s.drop_last(), sep);
    }
}

/// A sequence without a separator is one piece.
pub proof fn lemma_split_no_sep<A>(s: Seq<A>, sep: A)
    requires
        !s.contains(sep),
    ensures
        split(s, sep) == seq![s],
    decreases s.len(),
{
    if s.len() > 0 {
        let t = s.drop_last();
        assert(!t.contains(sep)) by {
            if t.contains(sep) {
                let j = choose|j: int| 0 <= j < t.len() && t[j] == sep;
                assert(s[j] == sep);
            }
        }
        lemma_split_no_sep(t, sep);
        assert(s.last() != sep) by {
            assert(s[s.len() - 1] == s.last());
        }
        assert(t.push(s.last()) =~= s);
        assert(split(s, sep) =~= seq![s]);
    } else {
        assert(s =~= Seq::<A>::empty());
        assert(split(s, sep) =~= seq![s]);
    }
}

/// Appending a separator and a piece without one appends that piece.
pub proof fn lemma_split_append<A>(a: Seq<A>, sep: A, b: Seq<A>)
    requires
        !b.contains(sep),
    ensures
        split(a + seq![sep] + b, sep) == split(a, sep).push(b),
    decreases b.len(),
{
    let s = a + seq![sep] + b;
    if b.len() == 0 {
        assert(s.drop_last() =~= a);
        assert(s.last() == sep);
        assert(b =~= Seq::<A>::empty());
    } else {
        let t = b.drop_last();
        assert(!t.contains(sep)) by {
            if t.contains(sep) {
                let j = choose|j: int| 0 <= j < t.len() && t[j] == sep;
                assert(b[j] == sep);
            }
        }
        lemma_split_append(a, sep, t);
        assert(s.drop_last() =~= a + seq![sep] + t);
        assert(s.last() == b.last());
        assert(b.last() != sep) by {
            assert(b[b.len() - 1] == b.last());
        }
        let p = split(a, sep).push(t);
        assert(t.push(b.last()) =~= b);
        assert(p.update(p.len() - 1, p.last().push(b.last())) =~= split(a, sep).push(b));
    }
}

/// Joining two sequences with a separator joins their pieces.
pub proof fn lemma_split_concat<A>(a: Seq<A>, sep: A, b: Seq<A>)
    ensures
        split(a + seq![sep] + b, sep) == split(a, sep) + split(b, sep),
    decreases b.len(),
{
    let s = a + seq![sep] + b;
    if b.len() == 0 {
        assert(s.drop_last() =~= a);
        assert(s.last() == sep);
        assert(split(s, sep) =~= split(a, sep) + split(b, sep));
    } else {
        let t = b.drop_last();
        lemma_split_concat(a, sep, t);
        lemma_split_nonempty(t, sep);
        assert(s.drop_last() =~= a + seq![sep] + t);
        assert(s.last() == b.last());
        let x = split(a, sep);
        let y = split(t, sep);
        if b.last() == sep {
            assert((x + y).push(Seq::empty()) =~= x + y.push(Seq::empty()));
        } else {
            let p = x + y;
            assert(p.update(p.len() - 1, p.last().push(b.last())) =~= x + y.update(
                y.len() - 1,
                y.last().push(b.last()),
            ));
        }
    }
}

/// The pieces that `pre`, empty or ending with a separator, puts before
/// whatever follows it.
pub open spec fn pieces_before<A>(pre: Seq<A>, sep: A) -> Seq<Seq<A>> {
    if pre.len() == 0 {
        Seq::empty()
    } else {
        split(pre.drop_last(), sep)
    }
}

/// The pieces that `post`, empty or starting with a separator, puts after
/// whatever precedes it.
pub open spec fn pieces_after<A>(post: Seq<A>, sep: A) -> Seq<Seq<A>> {
    if post.len() == 0 {
        Seq::empty()
    } else {
        split(post.drop_first(), sep)
    }
}

/// The pieces of `pre + piece + post`, where `piece` holds no separator, `pre`
/// is empty or ends with one, and `post` is empty or starts with one: the
/// pieces before, `piece`, and the pieces after.
pub proof fn lemma_split_around<A>(pre: Seq<A>, piece: Seq<A>, post: Seq<A>, sep: A)
    requires
        !piece.contains(sep),
        pre.len() == 0 || pre.last() == sep,
        post.len() == 0 || post[0] == sep,
    ensures
        split(pre + piece + post, sep) == pieces_before(pre, sep) + seq![piece] + pieces_after(
            post,
            sep,
        ),
{
    lemma_split_no_sep(piece, sep);
    let mid = piece + post;
    assert(split(mid, sep) == seq![piece] + pieces_after(post, sep)) by {
        if post.len() == 0 {
            assert(mid =~= piece);
            assert(seq![piece] + Seq::<Seq<A>>::empty() =~= seq![piece]);
        } else {
            assert(mid =~= piece + seq![sep] + post.drop_first());
            lemma_split_concat(piece, sep, post.drop_first());
        }
    }
    if pre.len() == 0 {
        assert(pre + piece + post =~= mid);
        assert(Seq::<Seq<A>>::empty() + seq![piece] + pieces_after(post, sep) =~= seq![piece]
            + pieces_after(post, sep));
    } else {
        assert(pre + piece + post =~= pre.drop_last() + seq![sep] + mid);
        lemma_split_concat(pre.drop_last(), sep, mid);
        assert(split(pre.drop_last(), sep) + (seq![piece] + pieces_after(post, sep)) =~= split(
            pre.drop_last(),
            sep,
        ) + seq![piece] + pieces_after(post, sep));
    }
}

/// Whether piece `j` of `split(s, sep)` stands in `s` at `start`, preceded
/// by the start of `s` or a separator, and followed by the end of `s` (for
/// the last piece) or a separator (for any other).
pub open spec fn placed<A>(s: Seq<A>, sep: A, start: int, j: int) -> bool {
    let piece = split(s, sep)[j];
    &&& 0 <= start
    &&& start + piece.len() <= s.len()
    &&& s.subrange(start, start + piece.len()) == piece
    &&& (start == 0 || s[start - 1] == sep)
    &&& if j == split(s, sep).len() - 1 {
        start + piece.len() == s.len()
    } else {
        start + piece.len() < s.len() && s[start + piece.len()] == sep
    }
}

/// Whether piece `j` of `split(s, sep)` stands somewhere in `s`.
pub open spec fn piece_placed<A>(s: Seq<A>, sep: A, j: int) -> bool {
    exists|start: int| #[trigger] placed(s, sep, start, j)
}

/// Every piece of a split stands in the text between separators.
pub proof fn lemma_split_pieces_placed<A>(s: Seq<A>, sep: A)
    ensures
        forall|j: int| 0 <= j < split(s, sep).len() ==> #[trigger] piece_placed(s, sep, j),
    decreases s.len(),
{
    lemma_split_nonempty(s, sep);
    if s.len() == 0 {
        assert(split(s, sep) == seq![Seq::<A>::empty()]);
        assert(placed(s, sep, 0, 0)) by {
            assert(s.subrange(0, 0) =~= Seq::<A>::empty());
        }
        assert(piece_placed(s, sep, 0));
    } else {
        let t = s.drop_last();
        let p = split(t, sep);
        lemma_split_pieces_placed(t, sep);
        lemma_split_nonempty(t, sep);
        let c = s.last();
        let q = split(s, sep);
        assert forall|j: int| 0 <= j < q.len() implies #[trigger] piece_placed(s, sep, j) by {
            if j < p.len() - 1 || (j == p.len() - 1 && c == sep) {
                assert(piece_placed(t, sep, j));
                let st = choose|st: int| placed(t, sep, st, j);
                assert(q[j] == p[j]);
                assert(s.subrange(st, st + p[j].len()) =~= t.subrange(st, st + p[j].len()));
                if st > 0 {
                    assert(s[st - 1] == t[st - 1]);
                }
                if j < p.len() - 1 {
                    assert(s[st + p[j].len()] == t[st + p[j].len()]);
                } else {
                    assert(s[st + p[j].len()] == c);
                }
                assert(placed(s, sep, st, j));
            } else if j == p.len() && c == sep {
                assert(q[j] == Seq::<A>::empty());
                assert(s[s.len() - 1] == c);
                assert(s.subrange(s.len() as int, s.len() as int) =~= Seq::<A>::empty());
                assert(placed(s, sep, s.len() as int, j));
            } else {
                assert(j == p.len() - 1 && c != sep);
                assert(piece_placed(t, sep, j));
                let st = choose|st: int| placed(t, sep, st, j);
                assert(q[j] == p[j].push(c));
                assert(s.subrange(st, s.len() as int) =~= p[j].push(c)) by {
                    assert(t.subrange(st, t.len() as int) == p[j]);
                }
                if st > 0 {
                    assert(s[st - 1] == t[st - 1]);
                }
                assert(placed(s, sep, st, j));
            }
        }
    }
}

/// Whether `x` stands in `s` at `start` as a whole piece between separators.
pub open spec fn piece_at<A>(s: Seq<A>, sep: A, start: int, x: Seq<A>) -> bool {
    &&& 0 <= start
    &&& start + x.len() <= s.len()
    &&& s.subrange(start, start + x.len()) == x
    &&& (start == 0 || s[start - 1] == sep)
    &&& (start + x.len() == s.len() || s[start + x.len()] == sep)
}

/// A text without separators is one of the pieces of `s` exactly when it
/// stands in `s` between separators (or the ends of `s`).
pub proof fn lemma_split_contains<A>(s: Seq<A>, sep: A, x: Seq<A>)
    requires
        !x.contains(sep),
    ensures
        split(s, sep).contains(x) <==> exists|start: int| #[trigger] piece_at(s, sep, start, x),
{
    if split(s, sep).contains(x) {
        let j = choose|j: int| 0 <= j < split(s, sep).len() && split(s, sep)[j] == x;
        lemma_split_pieces_placed(s, sep);
        assert(piece_placed(s, sep, j));
        let st = choose|st: int| placed(s, sep, st, j);
        assert(piece_at(s, sep, st, x));
    }
    if exists|start: int| #[trigger] piece_at(s, sep, start, x) {
        let st = choose|start: int| #[trigger] piece_at(s, sep, start, x);
        let pre = s.take(st);
        let post = s.skip(st + x.len());
        assert(pre + x + post =~= s);
        if pre.len() > 0 {
            assert(pre.last() == s[st - 1]);
        }
        if post.len() > 0 {
            assert(post[0] == s[st + x.len()]);
        }
        lemma_split_around(pre, x, post, sep);
        let i = pieces_before(pre, sep).len() as int;
        assert(split(s, sep)[i] == x);
    }
}

/// `lead` counts exactly the whitespace prefix.
pub proof fn lemma_lead(s: Seq<u8>, k: int)
    requires
        0 <= k <= s.len(),
        forall|j: int| 0 <= j < k ==> is_space(#[trigger] s[j]),
        k == s.len() || !is_space(s[k]),
    ensures
        lead(s) == k,
    decreases s.len(),
{
    if k > 0 {
        assert forall|j: int| 0 <= j < k - 1 implies is_space(#[trigger] s.drop_first()[j]) by {
            assert(s.drop_first()[j] == s[j + 1]);
        }
        lemma_lead(s.drop_first(), k - 1);
    }
}

/// `trail` counts exactly the whitespace suffix.
pub proof fn lemma_trail(s: Seq<u8>, k: int)
    requires
        0 <= k <= s.len(),
        forall|j: int| s.len() - k <= j < s.len() ==> is_space(#[trigger] s[j]),
        k == s.len() || !is_space(s[s.len() - k - 1]),
    ensures
        trail(s) == k,
    decreases s.len(),
{
    if k > 0 {
        let t = s.drop_last();
        assert forall|j: int| t.len() - (k - 1) <= j < t.len() implies is_space(#[trigger] t[j]) by {
            assert(t[j] == s[j]);
        }
        if k - 1 < t.len() {
            assert(t[t.len() - (k - 1) - 1] == s[s.len() - k - 1]);
        }
        lemma_trail(t, k - 1);
    }
}

/// `find` is the first occurrence.
pub proof fn lemma_find(s: Seq<u8>, b: u8, k: int)
    requires
        0 <= k <= s.len(),
        forall|j: int| 0 <= j < k ==> #[trigger] s[j] != b,
        k == s.len() || s[k] == b,
    ensures
        find(s, b) == (if k == s.len() { None } else { Some(k) }),
    decreases s.len(),
{
    if s.len() > 0 && k > 0 {
        assert forall|j: int| 0 <= j < k - 1 implies #[trigger] s.drop_first()[j] != b by {
            assert(s.drop_first()[j] == s[j + 1]);
        }
        lemma_find(s.drop_first(), b, k - 1);
    }
}

/// Byte-wise equality of two slices.
pub fn bytes_eq(a: &[u8], b: &[u8]) -> (r: bool)
    ensures
        r == (a@ == b@),
{
    if a.len() != b.len() {
        return false;
    }
    let mut i: usize = 0;
    while i < a.len()
        invariant
            a@.len() == b@.len(),
            0 <= i <= a@.len(),
            forall|j: int| 0 <= j < i ==> a@[j] == b@[j],
        decreases a@.len() - i,
    {
        if a[i] != b[i] {
            return false;
        }
        i = i + 1;
    }
    assert(a@ =~= b@);
    true
}

/// Copy of `s[from..to]`.
pub fn copy_range(s: &[u8], from: usize, to: usize) -> (r: Vec<u8>)
    requires
        from <= to <= s@.len(),
    ensures
        r@ == s@.subrange(from as int, to as int),
{
    let mut r: Vec<u8> = Vec::new();
    let mut i: usize = from;
    while i < to
        invariant
            from <= i <= to <= s@.len(),
            r@ == s@.subrange(from as int, i as int),
        decreases to - i,
    {
        r.push(s[i]);
        i = i + 1;
    }
    r
}

/// `s` with surrounding whitespace removed (`str::trim` on ASCII text).
pub fn trim_bytes(s: &[u8]) -> (r: Vec<u8>)
    ensures
        r@ == trim(s@),
{
    let n = s.len();
    let mut a: usize = 0;
    while a < n && (s[a] == 32 || (9 <= s[a] && s[a] <= 13))
        invariant
            n == s@.len(),
            0 <= a <= n,
            forall|j: int| 0 <= j < a ==> is_space(#[trigger] s@[j]),
        decreases n - a,
    {
        a = a + 1;
    }
    proof {
        lemma_lead(s@, a as int);
    }
    if a == n {
        return Vec::new();
    }
    let mut b: usize = n;
    while b > a && (s[b - 1] == 32 || (9 <= s[b - 1] && s[b - 1] <= 13))
        invariant
            n == s@.len(),
            a < n,
            !is_space(s@[a as int]),
            a <= b <= n,
            forall|j: int| b <= j < n ==> is_space(#[trigger] s@[j]),
        decreases b,
    {
        b = b - 1;
    }
    proof {
        lemma_trail(s@, (n - b) as int);
    }
    copy_range(s, a, b)
}

/// Position of the first `target` byte in `s`.
pub fn find_byte(s: &[u8], target: u8) -> (r: Option<usize>)
    ensures
        match r {
            Some(k) => k < s@.len() && find(s@, target) == Some(k as int),
            None => find(s@, target) is None,
        },
{
    let mut i: usize = 0;
    while i < s.len()
        invariant
            0 <= i <= s@.len(),
            forall|j: int| 0 <= j < i ==> #[trigger] s@[j] != target,
        decreases s@.len() - i,
    {
        if s[i] == target {
            proof {
                lemma_find(s@, target, i as int);
            }
            return Some(i);
        }
        i = i + 1;
    }
    proof {
        lemma_find(s@, target, i as int);
    }
    None
}

} // verus!
