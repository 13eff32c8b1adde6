//! Unix path text: `/`-separated segments, the leading-slash trim of a
//! request path, `PathBuf::join` and the component-wise `Path::starts_with`.
use vstd::prelude::*;
use vstd::string::{StrSliceExecFns, StringExecFns};

use crate::text::{lemma_split_contains, lemma_split_nonempty, piece_at, split};

verus! {

pub open spec fn parent_dir() -> Seq<char> {
    seq!['.', '.']
}

pub open spec fn cur_dir() -> Seq<char> {
    seq!['.']
}

/// The component that stands for the root of an absolute path (no segment
/// can be `/`, so it cannot be mistaken for one).
pub open spec fn root_dir() -> Seq<char> {
    seq!['/']
}

pub open spec fn strings_view(v: Seq<String>) -> Seq<Seq<char>> {
    v.map_values(|x: String| x@)
}

/// The `/`-separated segments of a path.
pub open spec fn segments(path: Seq<char>) -> Seq<Seq<char>> {
    split(path, '/')
}

/// Whether some `/`-separated segment of `path` is `..`.
pub open spec fn has_parent_segment(path: Seq<char>) -> bool {
    segments(path).contains(parent_dir())
}

/// Number of leading `/` characters.
pub open spec fn leading_slashes(s: Seq<char>) -> nat
    decreases s.len(),
{
    if s.len() > 0 && s[0] == '/' {
        1 + leading_slashes(s.drop_first())
    } else {
        0
    }
}

/// `s` without its leading `/` characters (`str::trim_start_matches('/')`).
pub open spec fn trim_leading_slashes(s: Seq<char>) -> Seq<char> {
    s.skip(leading_slashes(s) as int)
}

/// `Path::new(base).join(rel)` on Unix: an absolute `rel` replaces `base`;
/// otherwise a `/` is put between them unless `base` is empty or already
/// ends with one.
pub open spec fn join(base: Seq<char>, rel: Seq<char>) -> Seq<char> {
    if rel.len() > 0 && rel[0] == '/' {
        rel
    } else if base.len() > 0 && base.last() != '/' {
        base + seq!['/'] + rel
    } else {
        base + rel
    }
}

/// Segments that stand for a normal component: not empty and not `.`.
pub open spec fn keeps(piece: Seq<char>) -> bool {
    piece.len() > 0 && piece != cur_dir()
}

pub open spec fn normal_pieces(ps: Seq<Seq<char>>) -> Seq<Seq<char>>
    decreases ps.len(),
{
    if ps.len() == 0 {
        Seq::empty()
    } else {
        let c = normal_pieces(ps.drop_last());
        if keeps(ps.last()) {
            c.push(ps.last())
        } else {
            c
        }
    }
}

/// `Path::components` on Unix: the root (for an absolute path) or a leading
/// `.` (for a path whose first segment is `.`), then every segment that is
/// neither empty nor `.`.
pub open spec fn components(path: Seq<char>) -> Seq<Seq<char>> {
    let ps = segments(path);
    let head = if path.len() > 0 && path[0] == '/' {
        seq![root_dir()]
    } else if ps[0] == cur_dir() {
        seq![cur_dir()]
    } else {
        Seq::empty()
    };
    head + normal_pieces(ps)
}

/// `Path::starts_with`: the components of `base` are a prefix of those of
/// `path`.
pub open spec fn path_starts_with(path: Seq<char>, base: Seq<char>) -> bool {
    components(base).is_prefix_of(components(path))
}

/// The `/`-separated segments of `s`, in order.
pub fn split_segments(s: &str) -> (r: Vec<String>)
    ensures
        strings_view(r@) == segments(s@),
{
    let n = s.unicode_len();
    let mut pieces: Vec<String> = Vec::new();
    let mut start: usize = 0;
    let mut i: usize = 0;
    while i < n
        invariant
            n == s@.len(),
            0 <= start <= i <= n,
            ({
                let p = split(s@.take(i as int), '/');
                &&& p.len() == pieces@.len() + 1
                &&& strings_view(pieces@) == p.drop_last()
                &&& p.last() == s@.subrange(start as int, i as int)
            }),
        decreases n - i,
    {
        proof {
            assert(s@.take(i + 1).drop_last() =~= s@.take(i as int));
            assert(s@.take(i + 1).last() == s@[i as int]);
        }
        if s.get_char(i) == '/' {
            let ghost old_pieces = pieces@;
            let piece = s.substring_char(start, i).to_owned();
            pieces.push(piece);
            proof {
                let p = split(s@.take(i as int), '/');
                let p2 = split(s@.take(i + 1), '/');
                assert(p2 == p.push(Seq::empty()));
                assert(p2.drop_last() =~= p);
                assert(p =~= p.drop_last().push(p.last()));
                assert(strings_view(pieces@) =~= strings_view(old_pieces).push(piece@));
                assert(p2.last() =~= s@.subrange(i + 1, i + 1));
            }
            start = i + 1;
        } else {
            proof {
                let p = split(s@.take(i as int), '/');
                let p2 = split(s@.take(i + 1), '/');
                assert(p2 == p.update(p.len() - 1, p.last().push(s@[i as int])));
                assert(p2.drop_last() =~= p.drop_last());
                assert(p2.last() =~= s@.subrange(start as int, i + 1));
            }
        }
        i = i + 1;
    }
    let ghost old_pieces = pieces@;
    let piece = s.substring_char(start, n).to_owned();
    pieces.push(piece);
    proof {
        let p = split(s@.take(n as int), '/');
        assert(s@.take(n as int) =~= s@);
        assert(p =~= p.drop_last().push(p.last()));
        assert(strings_view(pieces@) =~= strings_view(old_pieces).push(piece@));
    }
    pieces
}

/// Whether `s` is the two characters `..`.
fn is_parent_dir(s: &str) -> (r: bool)
    ensures
        r == (s@ == parent_dir()),
{
    if s.unicode_len() != 2 {
        return false;
    }
    let r = s.get_char(0) == '.' && s.get_char(1) == '.';
    proof {
        if r {
            assert(s@ =~= parent_dir());
        }
    }
    r
}

/// Whether `s` is the single character `.`.
fn is_cur_dir(s: &str) -> (r: bool)
    ensures
        r == (s@ == cur_dir()),
{
    if s.unicode_len() != 1 {
        return false;
    }
    let r = s.get_char(0) == '.';
    proof {
        if r {
            assert(s@ =~= cur_dir());
        }
    }
    r
}

/// Whether some `/`-separated segment of `path` is `..`.
pub fn contains_parent_segment(path: &str) -> (r: bool)
    ensures
        r == has_parent_segment(path@),
{
    let pieces = split_segments(path);
    let ghost ps = segments(path@);
    let mut i: usize = 0;
    while i < pieces.len()
        invariant
            strings_view(pieces@) == ps,
            ps == segments(path@),
            0 <= i <= pieces@.len(),
            forall|j: int| 0 <= j < i ==> ps[j] != parent_dir(),
        decreases pieces@.len() - i,
    {
        assert(ps[i as int] == pieces@[i as int]@);
        if is_parent_dir(pieces[i].as_str()) {
            assert(ps[i as int] == parent_dir());
            return true;
        }
        i = i + 1;
    }
    proof {
        if ps.contains(parent_dir()) {
            let j = choose|j: int| 0 <= j < ps.len() && ps[j] == parent_dir();
            assert(ps[j] != parent_dir());
        }
    }
    false
}

pub proof fn lemma_leading_slashes(s: Seq<char>, k: int)
    requires
        0 <= k <= s.len(),
        forall|j: int| 0 <= j < k ==> #[trigger] s[j] == '/',
        k == s.len() || s[k] != '/',
    ensures
        leading_slashes(s) == k,
    decreases s.len(),
{
    if k > 0 {
        assert forall|j: int| 0 <= j < k - 1 implies #[trigger] s.drop_first()[j] == '/' by {
            assert(s.drop_first()[j] == s[j + 1]);
        }
        lemma_leading_slashes(s.drop_first(), k - 1);
    }
}

/// Whether `..` stands in `path` at `i` as a whole segment: two dots, with
/// the start of the path or a `/` before them and the end of the path or a
/// `/` after them.
pub open spec fn dot_dot_at(path: Seq<char>, i: int) -> bool {
    &&& 0 <= i
    &&& i + 2 <= path.len()
    &&& path[i] == '.'
    &&& path[i + 1] == '.'
    &&& (i == 0 || path[i - 1] == '/')
    &&& (i + 2 == path.len() || path[i + 2] == '/')
}

/// A path has a `..` segment exactly when two dots stand in it between
/// slashes (or the ends of the path): `/a/../b`, `..` and `a/..` have one;
/// `/`, `/...`, `/a..b` and `/.` do not.
pub proof fn law_parent_segment_is_dot_dot_between_slashes(path: Seq<char>)
    ensures
        has_parent_segment(path) <==> exists|i: int| #[trigger] dot_dot_at(path, i),
{
    assert(!parent_dir().contains('/')) by {
        if parent_dir().contains('/') {
            let j = choose|j: int| 0 <= j < parent_dir().len() && parent_dir()[j] == '/';
            assert(parent_dir()[j] == '.');
        }
    }
    lemma_split_contains(path, '/', parent_dir());
    assert forall|i: int| #[trigger] piece_at(path, '/', i, parent_dir()) <==> dot_dot_at(path, i) by {
        if 0 <= i && i + 2 <= path.len() {
            let sub = path.subrange(i, i + 2);
            assert(sub[0] == path[i] && sub[1] == path[i + 1]);
            if path[i] == '.' && path[i + 1] == '.' {
                assert(sub =~= parent_dir());
            }
        }
    }
    if has_parent_segment(path) {
        let i = choose|i: int| #[trigger] piece_at(path, '/', i, parent_dir());
        assert(dot_dot_at(path, i));
    }
    if exists|i: int| #[trigger] dot_dot_at(path, i) {
        let i = choose|i: int| #[trigger] dot_dot_at(path, i);
        assert(piece_at(path, '/', i, parent_dir()));
    }
}

/// `Path::join` on Unix: a relative `rel` follows `base`, with one `/`
/// between them unless `base` is empty or already ends with one; an
/// absolute `rel` replaces `base`.
pub proof fn law_join(base: Seq<char>, rel: Seq<char>)
    ensures
        (rel.len() == 0 || rel[0] != '/') && base.len() > 0 && base.last() != '/' ==> join(
            base,
            rel,
        ) == base + seq!['/'] + rel,
        (rel.len() == 0 || rel[0] != '/') && (base.len() == 0 || base.last() == '/') ==> join(
            base,
            rel,
        ) == base + rel,
        rel.len() > 0 && rel[0] == '/' ==> join(base, rel) == rel,
        (rel.len() == 0 || rel[0] != '/') ==> join(base, rel).take(base.len() as int) == base,
{
    if rel.len() == 0 || rel[0] != '/' {
        if base.len() > 0 && base.last() != '/' {
            assert((base + seq!['/'] + rel).take(base.len() as int) =~= base);
        } else {
            assert((base + rel).take(base.len() as int) =~= base);
        }
    }
}

/// `s` without its leading `/` characters.
pub fn strip_leading_slashes(s: &str) -> (r: String)
    ensures
        r@ == trim_leading_slashes(s@),
{
    let n = s.unicode_len();
    let mut k: usize = 0;
    while k < n && s.get_char(k) == '/'
        invariant
            n == s@.len(),
            0 <= k <= n,
            forall|j: int| 0 <= j < k ==> #[trigger] s@[j] == '/',
        decreases n - k,
    {
        k = k + 1;
    }
    proof {
        lemma_leading_slashes(s@, k as int);
    }
    s.substring_char(k, n).to_owned()
}

/// `Path::new(base).join(rel)` on Unix, as text.
pub fn join_path(base: &str, rel: &str) -> (r: String)
    ensures
        r@ == join(base@, rel@),
{
    let rn = rel.unicode_len();
    if rn > 0 && rel.get_char(0) == '/' {
        return rel.to_owned();
    }
    let bn = base.unicode_len();
    let mut r = base.to_owned();
    if bn > 0 && base.get_char(bn - 1) != '/' {
        let slash = "/";
        proof {
            reveal_strlit("/");
        }
        r.append(slash);
    }
    r.append(rel);
    proof {
        if bn > 0 && base@.last() != '/' {
            assert(r@ =~= base@ + seq!['/'] + rel@);
        }
    }
    r
}

/// Whether a segment stands for a normal component.
fn keeps_piece(p: &String) -> (r: bool)
    ensures
        r == keeps(p@),
{
    p.as_str().unicode_len() > 0 && !is_cur_dir(p.as_str())
}

/// The components of a path, as text (see [`components`]).
fn components_of(path: &str) -> (r: Vec<String>)
    ensures
        strings_view(r@) == components(path@),
{
    let pieces = split_segments(path);
    let ghost ps = segments(path@);
    proof {
        lemma_split_nonempty(path@, '/');
    }
    let mut out: Vec<String> = Vec::new();
    let n = path.unicode_len();
    if n > 0 && path.get_char(0) == '/' {
        let root = "/";
        proof {
            reveal_strlit("/");
        }
        out.push(root.to_owned());
        assert(out@[0]@ =~= root_dir());
    } else if is_cur_dir(pieces[0].as_str()) {
        let cur = ".";
        proof {
            reveal_strlit(".");
        }
        out.push(cur.to_owned());
        assert(out@[0]@ =~= cur_dir());
    }
    let ghost head = strings_view(out@);
    proof {
        assert(ps[0] == pieces@[0]@);
        if path@.len() > 0 && path@[0] == '/' {
            assert(head =~~= seq![root_dir()]);
        } else if ps[0] == cur_dir() {
            assert(head =~~= seq![cur_dir()]);
        } else {
            assert(head =~= Seq::<Seq<char>>::empty());
        }
        assert(components(path@) =~= head + normal_pieces(ps));
    }
    let mut i: usize = 0;
    while i < pieces.len()
        invariant
            strings_view(pieces@) == ps,
            0 <= i <= pieces@.len(),
            strings_view(out@) == head + normal_pieces(ps.take(i as int)),
        decreases pieces@.len() - i,
    {
        proof {
            assert(ps.take(i + 1).drop_last() =~= ps.take(i as int));
            assert(ps.take(i + 1).last() == ps[i as int]);
            assert(ps[i as int] == pieces@[i as int]@);
        }
        if keeps_piece(&pieces[i]) {
            let ghost before = out@;
            out.push(pieces[i].clone());
            proof {
                assert(strings_view(out@) =~= strings_view(before).push(pieces@[i as int]@));
            }
        }
        i = i + 1;
    }
    proof {
        assert(ps.take(pieces@.len() as int) =~= ps);
    }
    out
}

/// `Path::new(path).starts_with(base)`: whether the components of `base` are
/// a prefix of those of `path`.
pub fn within(path: &str, base: &str) -> (r: bool)
    ensures
        r == path_starts_with(path@, base@),
{
    let pc = components_of(path);
    let bc = components_of(base);
    let ghost pv = strings_view(pc@);
    let ghost bv = strings_view(bc@);
    if bc.len() > pc.len() {
        return false;
    }
    let mut i: usize = 0;
    while i < bc.len()
        invariant
            pv == strings_view(pc@),
            bv == strings_view(bc@),
            pv == components(path@),
            bv == components(base@),
            bc@.len() <= pc@.len(),
            0 <= i <= bc@.len(),
            forall|j: int| 0 <= j < i ==> bv[j] == pv[j],
        decreases bc@.len() - i,
    {
        assert(bv[i as int] == bc@[i as int]@);
        assert(pv[i as int] == pc@[i as int]@);
        if !bc[i].eq(&pc[i]) {
            assert(bv[i as int] != pv[i as int]);
            assert(!bv.is_prefix_of(pv)) by {
                if bv.is_prefix_of(pv) {
                    assert(bv[i as int] == pv.subrange(0, bv.len() as int)[i as int]);
                }
            }
            return false;
        }
        i = i + 1;
    }
    assert(bv =~= pv.subrange(0, bv.len() as int));
    true
}

} // verus!
