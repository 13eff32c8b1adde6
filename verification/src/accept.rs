//! The `Accept-Encoding` request header and the choice of a response
//! encoding from a site's `encode` priorities.
//!
//! The header is split into comma-separated entries; an entry names a coding
//! (or `*`) and may carry parameters after a `;`. An entry accepts a coding
//! when it names its token or `*` and its weight is positive; an entry with no
//! parameters has the weight 1. The first configured algorithm that some entry
//! accepts is chosen.
use vstd::prelude::*;

use crate::text::{
    bytes_eq, copy_range, find, find_byte, is_space, lemma_find, lemma_lead, lemma_split_append,
    lemma_split_around, lemma_split_no_sep, lemma_split_nonempty, lemma_trail, pieces_before, split,
    trim, trim_bytes,
};
use crate::compress::{token_bytes, Algo, Encoding};

verus! {

/// One comma-separated entry of an `Accept-Encoding` value: the coding name
/// (trimmed) and, when the entry has a `;`, the untrimmed text after it.
#[derive(Debug, Clone, PartialEq, Eq)]
pub struct AcceptEntry {
    pub name: Vec<u8>,
    pub weight: Option<Vec<u8>>,
}

/// The mathematical value of an [`AcceptEntry`].
pub struct AcceptEntryView {
    pub name: Seq<u8>,
    pub weight: Option<Seq<u8>>,
}

impl View for AcceptEntry {
    type V = AcceptEntryView;

    open spec fn view(&self) -> AcceptEntryView {
        AcceptEntryView {
            name: self.name@,
            weight: match self.weight {
                Some(w) => Some(w@),
                None => None,
            },
        }
    }
}

pub open spec fn entries_view(v: Seq<AcceptEntry>) -> Seq<AcceptEntryView> {
    v.map_values(|e: AcceptEntry| e@)
}

/// A header byte that `HeaderValue::to_str` accepts: visible ASCII or tab.
pub open spec fn is_visible_ascii(b: u8) -> bool {
    (32 <= b && b < 127) || b == 9
}

pub open spec fn all_visible(s: Seq<u8>) -> bool {
    forall|i: int| 0 <= i < s.len() ==> is_visible_ascii(#[trigger] s[i])
}

/// How one piece between commas reads as an entry.
pub open spec fn parse_entry(piece: Seq<u8>) -> AcceptEntryView {
    let e = trim(piece);
    match find(e, 59) {
        Some(k) => AcceptEntryView { name: trim(e.take(k)), weight: Some(e.skip(k + 1)) },
        None => AcceptEntryView { name: e, weight: None },
    }
}

/// The entries of a header value, in order.
pub open spec fn header_entries(header: Seq<u8>) -> Seq<AcceptEntryView> {
    split(header, 44).map_values(|p: Seq<u8>| parse_entry(p))
}

/// The entries of an `Accept-Encoding` value, or `None` when the value holds
/// a byte other than visible ASCII or tab (such a value has no text form).
pub fn accept_entries(header: &[u8]) -> (r: Option<Vec<AcceptEntry>>)
    ensures
        match r {
            Some(v) => all_visible(header@) && entries_view(v@) == header_entries(header@),
            None => !all_visible(header@),
        },
{
    let n = header.len();
    let mut i: usize = 0;
    while i < n
        invariant
            n == header@.len(),
            0 <= i <= n,
            forall|j: int| 0 <= j < i ==> is_visible_ascii(#[trigger] header@[j]),
        decreases n - i,
    {
        let b = header[i];
        if !((32 <= b && b < 127) || b == 9) {
            return None;
        }
        i = i + 1;
    }
    let mut entries: Vec<AcceptEntry> = Vec::new();
    let mut start: usize = 0;
    let mut k: usize = 0;
    while k < n
        invariant
            n == header@.len(),
            0 <= start <= k <= n,
            ({
                let p = split(header@.take(k as int), 44);
                &&& p.len() == entries@.len() + 1
                &&& entries_view(entries@) == p.drop_last().map_values(
                    |q: Seq<u8>| parse_entry(q),
                )
                &&& p.last() == header@.subrange(start as int, k as int)
            }),
        decreases n - k,
    {
        proof {
            assert(header@.take(k + 1).drop_last() =~= header@.take(k as int));
            assert(header@.take(k + 1).last() == header@[k as int]);
        }
        if header[k] == 44 {
            let piece = copy_range(header, start, k);
            let entry = parse_piece(&piece);
            let ghost old_entries = entries@;
            entries.push(entry);
            proof {
                let p = split(header@.take(k as int), 44);
                let p2 = split(header@.take(k + 1), 44);
                assert(p2 == p.push(Seq::empty()));
                assert(p2.drop_last() =~= p);
                assert(p =~= p.drop_last().push(p.last()));
                assert(entries_view(entries@) =~= entries_view(old_entries).push(entry@));
                assert(p.map_values(|q: Seq<u8>| parse_entry(q)) =~= p.drop_last().map_values(
                    |q: Seq<u8>| parse_entry(q),
                ).push(parse_entry(p.last())));
                assert(p2.last() =~= header@.subrange(k + 1, k + 1));
            }
            start = k + 1;
        } else {
            proof {
                let p = split(header@.take(k as int), 44);
                let p2 = split(header@.take(k + 1), 44);
                assert(p2 == p.update(p.len() - 1, p.last().push(header@[k as int])));
                assert(p2.drop_last() =~= p.drop_last());
                assert(p2.last() =~= header@.subrange(start as int, k + 1));
            }
        }
        k = k + 1;
    }
    let piece = copy_range(header, start, n);
    let entry = parse_piece(&piece);
    let ghost old_entries = entries@;
    entries.push(entry);
    proof {
        let p = split(header@.take(n as int), 44);
        assert(header@.take(n as int) =~= header@);
        assert(p =~= p.drop_last().push(p.last()));
        assert(entries_view(entries@) =~= entries_view(old_entries).push(entry@));
        assert(p.map_values(|q: Seq<u8>| parse_entry(q)) =~= p.drop_last().map_values(
            |q: Seq<u8>| parse_entry(q),
        ).push(parse_entry(p.last())));
    }
    Some(entries)
}

/// The text of an optional header value.
pub open spec fn header_text(header: Option<&[u8]>) -> Option<Seq<u8>> {
    match header {
        Some(h) => Some(h@),
        None => None,
    }
}

/// The entries of the client's `Accept-Encoding` value whose weights are to
/// be read, or `None` when nothing can be chosen whatever the weights: the
/// site configures no algorithm, the request has no such header, or the
/// value has no text form. When it gives entries, [`choose_algo`] on them
/// and their weight flags makes the [`choice`].
pub fn entries_to_weigh(encode: &[Encoding], header: Option<&[u8]>) -> (r: Option<
    Vec<AcceptEntry>,
>)
    ensures
        match r {
            None => encode@.len() == 0 || match header_text(header) {
                None => true,
                Some(h) => !all_visible(h),
            },
            Some(v) => encode@.len() > 0 && (header_text(header) matches Some(h) && all_visible(h)
                && entries_view(v@) == header_entries(h)),
        },
{
    if encode.len() == 0 {
        return None;
    }
    match header {
        None => None,
        Some(h) => accept_entries(h),
    }
}

/// One piece between commas read as an entry.
fn parse_piece(piece: &Vec<u8>) -> (r: AcceptEntry)
    ensures
        r@ == parse_entry(piece@),
{
    let e = trim_bytes(piece.as_slice());
    let elen = e.len();
    match find_byte(e.as_slice(), 59) {
        Some(k) => {
            let head = copy_range(e.as_slice(), 0, k);
            let name = trim_bytes(head.as_slice());
            let weight = copy_range(e.as_slice(), k + 1, elen);
            proof {
                assert(head@ =~= e@.take(k as int));
                assert(weight@ =~= e@.skip(k + 1));
            }
            AcceptEntry { name, weight: Some(weight) }
        },
        None => AcceptEntry { name: e, weight: None },
    }
}

/// The name `*`, which accepts every coding.
pub open spec fn wildcard() -> Seq<u8> {
    seq![42u8]
}

/// The number text of an entry's weight: the text after the `;`, trimmed,
/// without its `q=` prefix; `None` when it does not start with `q=` (the
/// entry then has the weight 1).
pub open spec fn weight_number(weight: Seq<u8>) -> Option<Seq<u8>> {
    let t = trim(weight);
    if t.len() >= 2 && t[0] == 113u8 && t[1] == 61u8 {
        Some(t.skip(2))
    } else {
        None
    }
}

/// The number text of a weight, for the caller to read as a number.
pub fn q_number(weight: &[u8]) -> (r: Option<Vec<u8>>)
    ensures
        match r {
            Some(v) => weight_number(weight@) == Some(v@),
            None => weight_number(weight@) is None,
        },
{
    let t = trim_bytes(weight);
    let n = t.len();
    if n >= 2 && t[0] == 113u8 && t[1] == 61u8 {
        let v = copy_range(t.as_slice(), 2, n);
        assert(v@ =~= t@.skip(2));
        Some(v)
    } else {
        None
    }
}

/// Whether entry `e`, whose weight is positive exactly when `positive`
/// holds (an entry without a weight has the weight 1), accepts `token`.
pub open spec fn entry_accepts(e: AcceptEntryView, positive: bool, token: Seq<u8>) -> bool {
    &&& (e.weight is None || positive)
    &&& (e.name == token || e.name == wildcard())
}

/// Whether some entry accepts `token`.
pub open spec fn accepts(entries: Seq<AcceptEntryView>, positive: Seq<bool>, token: Seq<u8>) -> bool {
    exists|i: int| 0 <= i < entries.len() && #[trigger] entry_accepts(entries[i], positive[i], token)
}

/// The first algorithm, in priority order, that the entries accept.
pub open spec fn first_accepted(
    encode: Seq<Encoding>,
    entries: Seq<AcceptEntryView>,
    positive: Seq<bool>,
) -> Option<Algo>
    decreases encode.len(),
{
    if encode.len() == 0 {
        None
    } else if accepts(entries, positive, token_bytes(encode[0].algo())) {
        Some(encode[0].algo())
    } else {
        first_accepted(encode.drop_first(), entries, positive)
    }
}

/// The choice honours the site's priorities: a chosen algorithm is one the
/// site configured, some entry accepts it, and no algorithm configured before
/// it is accepted; when nothing is chosen, no configured algorithm is
/// accepted.
pub proof fn law_choice_is_first_accepted(
    encode: Seq<Encoding>,
    entries: Seq<AcceptEntryView>,
    positive: Seq<bool>,
)
    ensures
        first_accepted(encode, entries, positive) matches Some(a) ==> exists|k: int|
            0 <= k < encode.len() && #[trigger] encode[k].algo() == a && accepts(
                entries,
                positive,
                token_bytes(a),
            ) && forall|j: int|
                0 <= j < k ==> !accepts(entries, positive, token_bytes(#[trigger] encode[j].algo())),
        first_accepted(encode, entries, positive) is None ==> forall|k: int|
            0 <= k < encode.len() ==> !accepts(entries, positive, token_bytes(#[trigger] encode[k].algo())),
    decreases encode.len(),
{
    if encode.len() > 0 {
        let rest = encode.drop_first();
        law_choice_is_first_accepted(rest, entries, positive);
        if !accepts(entries, positive, token_bytes(encode[0].algo())) {
            if let Some(a) = first_accepted(rest, entries, positive) {
                let k = choose|k: int|
                    0 <= k < rest.len() && #[trigger] rest[k].algo() == a && accepts(
                        entries,
                        positive,
                        token_bytes(a),
                    ) && forall|j: int|
                        0 <= j < k ==> !accepts(entries, positive, token_bytes(#[trigger] rest[j].algo()));
                assert(encode[k + 1] == rest[k]);
                assert forall|j: int| 0 <= j < k + 1 implies !accepts(
                    entries,
                    positive,
                    token_bytes(#[trigger] encode[j].algo()),
                ) by {
                    if j > 0 {
                        assert(encode[j] == rest[j - 1]);
                    }
                }
            } else {
                assert forall|k: int| 0 <= k < encode.len() implies !accepts(
                    entries,
                    positive,
                    token_bytes(#[trigger] encode[k].algo()),
                ) by {
                    if k > 0 {
                        assert(encode[k] == rest[k - 1]);
                    }
                }
            }
        }
    }
}

/// Whether entry `e` has a positive weight, reading a weight's text with
/// `positive_weight`; an entry without a weight has the weight 1.
pub open spec fn weight_flag(e: AcceptEntryView, positive_weight: spec_fn(Seq<u8>) -> bool) -> bool {
    match e.weight {
        Some(w) => positive_weight(w),
        None => true,
    }
}

/// The weight flags of a list of entries.
pub open spec fn weight_flags(
    entries: Seq<AcceptEntryView>,
    positive_weight: spec_fn(Seq<u8>) -> bool,
) -> Seq<bool> {
    entries.map_values(|e: AcceptEntryView| weight_flag(e, positive_weight))
}

/// The encoding chosen for a site whose `encode` priorities are `encode`,
/// given the client's `Accept-Encoding` value (`None` when the request has
/// none) and a reading of weights: no compression without a header or with
/// a header that has no text form; otherwise the first configured algorithm
/// that some entry accepts. [`accept_entries`] and [`choose_algo`] compute
/// it, with `positive[i] == weight_flag(entries[i], positive_weight)`.
pub open spec fn choice(
    encode: Seq<Encoding>,
    header: Option<Seq<u8>>,
    positive_weight: spec_fn(Seq<u8>) -> bool,
) -> Option<Algo> {
    match header {
        None => None,
        Some(h) => if !all_visible(h) {
            None
        } else {
            first_accepted(
                encode,
                header_entries(h),
                weight_flags(header_entries(h), positive_weight),
            )
        },
    }
}

/// Two entry lists that accept the same tokens choose the same algorithm.
proof fn lemma_same_acceptance_same_choice(
    encode: Seq<Encoding>,
    es1: Seq<AcceptEntryView>,
    f1: Seq<bool>,
    es2: Seq<AcceptEntryView>,
    f2: Seq<bool>,
)
    requires
        accepts(es1, f1, token_bytes(Algo::Gzip)) == accepts(es2, f2, token_bytes(Algo::Gzip)),
        accepts(es1, f1, token_bytes(Algo::Zstd)) == accepts(es2, f2, token_bytes(Algo::Zstd)),
    ensures
        first_accepted(encode, es1, f1) == first_accepted(encode, es2, f2),
    decreases encode.len(),
{
    if encode.len() > 0 {
        lemma_same_acceptance_same_choice(encode.drop_first(), es1, f1, es2, f2);
    }
}

/// Whether an entry, its weight read with `positive_weight`, accepts `token`.
pub open spec fn entry_takes(
    e: AcceptEntryView,
    positive_weight: spec_fn(Seq<u8>) -> bool,
    token: Seq<u8>,
) -> bool {
    entry_accepts(e, weight_flag(e, positive_weight), token)
}

/// Whether some entry of `es` accepts `token`, weights read with
/// `positive_weight`.
pub open spec fn some_entry_takes(
    es: Seq<AcceptEntryView>,
    positive_weight: spec_fn(Seq<u8>) -> bool,
    token: Seq<u8>,
) -> bool {
    exists|e: AcceptEntryView| es.contains(e) && #[trigger] entry_takes(e, positive_weight, token)
}

/// With weights read by a function, acceptance depends only on which
/// entries occur.
proof fn lemma_accepts_by_contents(
    es: Seq<AcceptEntryView>,
    positive_weight: spec_fn(Seq<u8>) -> bool,
    token: Seq<u8>,
)
    ensures
        accepts(es, weight_flags(es, positive_weight), token) <==> some_entry_takes(
            es,
            positive_weight,
            token,
        ),
{
    let f = weight_flags(es, positive_weight);
    if accepts(es, f, token) {
        let i = choose|i: int| 0 <= i < es.len() && #[trigger] entry_accepts(es[i], f[i], token);
        assert(es.contains(es[i]));
        assert(entry_takes(es[i], positive_weight, token));
    }
    if exists|e: AcceptEntryView| es.contains(e) && #[trigger] entry_takes(e, positive_weight, token) {
        let e = choose|e: AcceptEntryView| es.contains(e) && #[trigger] entry_takes(e, positive_weight, token);
        let i = choose|i: int| 0 <= i < es.len() && es[i] == e;
        assert(entry_accepts(es[i], f[i], token));
    }
}

/// The order in which the client lists its encodings does not matter: two
/// header values whose entries are the same up to order choose the same
/// algorithm.
pub proof fn law_entry_order_does_not_matter(
    encode: Seq<Encoding>,
    h1: Seq<u8>,
    h2: Seq<u8>,
    positive_weight: spec_fn(Seq<u8>) -> bool,
)
    requires
        all_visible(h1),
        all_visible(h2),
        header_entries(h1).to_multiset() == header_entries(h2).to_multiset(),
    ensures
        choice(encode, Some(h1), positive_weight) == choice(encode, Some(h2), positive_weight),
{
    let es1 = header_entries(h1);
    let es2 = header_entries(h2);
    assert forall|e: AcceptEntryView| es1.contains(e) == es2.contains(e) by {
        vstd::seq_lib::to_multiset_contains(es1, e);
        vstd::seq_lib::to_multiset_contains(es2, e);
    }
    lemma_accepts_by_contents(es1, positive_weight, token_bytes(Algo::Gzip));
    lemma_accepts_by_contents(es2, positive_weight, token_bytes(Algo::Gzip));
    lemma_accepts_by_contents(es1, positive_weight, token_bytes(Algo::Zstd));
    lemma_accepts_by_contents(es2, positive_weight, token_bytes(Algo::Zstd));
    lemma_same_acceptance_same_choice(
        encode,
        es1,
        weight_flags(es1, positive_weight),
        es2,
        weight_flags(es2, positive_weight),
    );
}

/// A positive weight is ignored: giving one entry without a weight a
/// positive weight, its name unchanged, does not change the choice.
pub proof fn law_positive_weight_is_ignored(
    encode: Seq<Encoding>,
    h1: Seq<u8>,
    h2: Seq<u8>,
    positive_weight: spec_fn(Seq<u8>) -> bool,
    i: int,
    w: Seq<u8>,
)
    requires
        all_visible(h1),
        all_visible(h2),
        0 <= i < header_entries(h1).len(),
        header_entries(h1)[i].weight is None,
        positive_weight(w),
        header_entries(h2) == header_entries(h1).update(
            i,
            AcceptEntryView { name: header_entries(h1)[i].name, weight: Some(w) },
        ),
    ensures
        choice(encode, Some(h1), positive_weight) == choice(encode, Some(h2), positive_weight),
{
    let es1 = header_entries(h1);
    let es2 = header_entries(h2);
    assert forall|t: Seq<u8>| #[trigger] entry_takes(es1[i], positive_weight, t) == entry_takes(
        es2[i],
        positive_weight,
        t,
    ) by {}
    assert forall|t: Seq<u8>|
        #[trigger] some_entry_takes(es1, positive_weight, t) == some_entry_takes(es2, positive_weight, t) by {
        if exists|e: AcceptEntryView| es1.contains(e) && #[trigger] entry_takes(e, positive_weight, t) {
            let e = choose|e: AcceptEntryView| es1.contains(e) && #[trigger] entry_takes(e, positive_weight, t);
            let j = choose|j: int| 0 <= j < es1.len() && es1[j] == e;
            if j == i {
                assert(es2.contains(es2[i]) && entry_takes(es2[i], positive_weight, t));
            } else {
                assert(es2[j] == e);
                assert(es2.contains(e));
            }
        }
        if exists|e: AcceptEntryView| es2.contains(e) && #[trigger] entry_takes(e, positive_weight, t) {
            let e = choose|e: AcceptEntryView| es2.contains(e) && #[trigger] entry_takes(e, positive_weight, t);
            let j = choose|j: int| 0 <= j < es2.len() && es2[j] == e;
            if j == i {
                assert(es1.contains(es1[i]) && entry_takes(es1[i], positive_weight, t));
            } else {
                assert(es1[j] == e);
                assert(es1.contains(e));
            }
        }
    }
    lemma_accepts_by_contents(es1, positive_weight, token_bytes(Algo::Gzip));
    lemma_accepts_by_contents(es2, positive_weight, token_bytes(Algo::Gzip));
    lemma_accepts_by_contents(es1, positive_weight, token_bytes(Algo::Zstd));
    lemma_accepts_by_contents(es2, positive_weight, token_bytes(Algo::Zstd));
    lemma_same_acceptance_same_choice(
        encode,
        es1,
        weight_flags(es1, positive_weight),
        es2,
        weight_flags(es2, positive_weight),
    );
}

/// A positive weight is ignored, in the header text: two header values that
/// differ in one entry only, written without a weight in `h1` and with a
/// weight that reads as positive in `h2` (`gzip` and `gzip;q=0.5`, say), the
/// name the same, choose the same algorithm. The entry is `piece1` in
/// `pre + piece1 + post` and `piece2` in `pre + piece2 + post`.
pub proof fn law_positive_weight_is_ignored_in_text(
    encode: Seq<Encoding>,
    pre: Seq<u8>,
    piece1: Seq<u8>,
    piece2: Seq<u8>,
    post: Seq<u8>,
    positive_weight: spec_fn(Seq<u8>) -> bool,
    w: Seq<u8>,
)
    requires
        all_visible(pre + piece1 + post),
        all_visible(pre + piece2 + post),
        !piece1.contains(44u8),
        !piece2.contains(44u8),
        pre.len() == 0 || pre.last() == 44u8,
        post.len() == 0 || post[0] == 44u8,
        parse_entry(piece1).weight is None,
        parse_entry(piece2) == (AcceptEntryView { name: parse_entry(piece1).name, weight: Some(w) }),
        positive_weight(w),
    ensures
        choice(encode, Some(pre + piece1 + post), positive_weight) == choice(
            encode,
            Some(pre + piece2 + post),
            positive_weight,
        ),
{
    let h1 = pre + piece1 + post;
    let h2 = pre + piece2 + post;
    lemma_split_around(pre, piece1, post, 44u8);
    lemma_split_around(pre, piece2, post, 44u8);
    let i = pieces_before(pre, 44u8).len() as int;
    let es1 = header_entries(h1);
    assert(es1[i] == parse_entry(piece1));
    assert(header_entries(h2) =~= es1.update(
        i,
        AcceptEntryView { name: es1[i].name, weight: Some(w) },
    ));
    law_positive_weight_is_ignored(encode, h1, h2, positive_weight, i, w);
}

/// An entry whose weight is not positive never makes an algorithm
/// accepted: appending a comma and such an entry to a header value does not
/// change the choice.
pub proof fn law_zero_weight_entry_changes_nothing(
    encode: Seq<Encoding>,
    h: Seq<u8>,
    piece: Seq<u8>,
    positive_weight: spec_fn(Seq<u8>) -> bool,
)
    requires
        all_visible(piece),
        !piece.contains(44u8),
        parse_entry(piece).weight matches Some(w) && !positive_weight(w),
    ensures
        choice(encode, Some(h + seq![44u8] + piece), positive_weight) == choice(
            encode,
            Some(h),
            positive_weight,
        ),
{
    let h2 = h + seq![44u8] + piece;
    if all_visible(h) {
        assert(all_visible(h2)) by {
            assert forall|j: int| 0 <= j < h2.len() implies is_visible_ascii(#[trigger] h2[j]) by {
                if j < h.len() {
                    assert(h2[j] == h[j]);
                } else if j > h.len() {
                    assert(h2[j] == piece[j - h.len() - 1]);
                }
            }
        }
        lemma_split_append(h, 44u8, piece);
        let es1 = header_entries(h);
        let es2 = header_entries(h2);
        let e = parse_entry(piece);
        assert(es2 =~= es1.push(e));
        assert forall|t: Seq<u8>|
            #[trigger] some_entry_takes(es1, positive_weight, t) == some_entry_takes(es2, positive_weight, t) by {
            if exists|x: AcceptEntryView| es1.contains(x) && #[trigger] entry_takes(x, positive_weight, t) {
                let x = choose|x: AcceptEntryView| es1.contains(x) && #[trigger] entry_takes(x, positive_weight, t);
                let j = choose|j: int| 0 <= j < es1.len() && es1[j] == x;
                assert(es2[j] == x);
                assert(es2.contains(x));
            }
            if exists|x: AcceptEntryView| es2.contains(x) && #[trigger] entry_takes(x, positive_weight, t) {
                let x = choose|x: AcceptEntryView| es2.contains(x) && #[trigger] entry_takes(x, positive_weight, t);
                let j = choose|j: int| 0 <= j < es2.len() && es2[j] == x;
                assert(j != es1.len());
                assert(es1[j] == x);
                assert(es1.contains(x));
            }
        }
        lemma_accepts_by_contents(es1, positive_weight, token_bytes(Algo::Gzip));
        lemma_accepts_by_contents(es2, positive_weight, token_bytes(Algo::Gzip));
        lemma_accepts_by_contents(es1, positive_weight, token_bytes(Algo::Zstd));
        lemma_accepts_by_contents(es2, positive_weight, token_bytes(Algo::Zstd));
        lemma_same_acceptance_same_choice(
            encode,
            es1,
            weight_flags(es1, positive_weight),
            es2,
            weight_flags(es2, positive_weight),
        );
    } else {
        let j = choose|j: int| 0 <= j < h.len() && !is_visible_ascii(#[trigger] h[j]);
        assert(h2[j] == h[j]);
    }
}

/// A header value that is a single bare name reads as one entry with that
/// name and no weight.
proof fn lemma_bare_name_header(t: Seq<u8>)
    requires
        t.len() > 0,
        !is_space(t[0]),
        !is_space(t[t.len() - 1]),
        forall|j: int| 0 <= j < t.len() ==> #[trigger] t[j] != 44u8 && t[j] != 59u8,
    ensures
        header_entries(t) == seq![AcceptEntryView { name: t, weight: None }],
{
    assert(!t.contains(44u8)) by {
        if t.contains(44u8) {
            let j = choose|j: int| 0 <= j < t.len() && t[j] == 44u8;
            assert(t[j] != 44u8);
        }
    }
    lemma_split_no_sep(t, 44u8);
    lemma_lead(t, 0);
    lemma_trail(t, 0);
    assert(trim(t) =~= t);
    lemma_find(t, 59u8, t.len() as int);
    assert(parse_entry(t) == AcceptEntryView { name: t, weight: None });
    assert(header_entries(t) =~= seq![AcceptEntryView { name: t, weight: None }]);
}

/// A site with one configured algorithm compresses with it for a client
/// whose `Accept-Encoding` value is just that algorithm's token, or just
/// `*`.
pub proof fn law_single_entry_header(e: Encoding, positive_weight: spec_fn(Seq<u8>) -> bool)
    ensures
        choice(seq![e], Some(token_bytes(e.algo())), positive_weight) == Some(e.algo()),
        choice(seq![e], Some(wildcard()), positive_weight) == Some(e.algo()),
{
    let tok = token_bytes(e.algo());
    let encode = seq![e];
    match e.algo() {
        Algo::Gzip => {
            assert(tok =~= seq![103u8, 122u8, 105u8, 112u8]);
        },
        Algo::Zstd => {
            assert(tok =~= seq![122u8, 115u8, 116u8, 100u8]);
        },
    }
    assert(all_visible(tok));
    assert(all_visible(wildcard()));
    lemma_bare_name_header(tok);
    lemma_bare_name_header(wildcard());
    let es1 = header_entries(tok);
    let f1 = weight_flags(es1, positive_weight);
    assert(entry_accepts(es1[0], f1[0], tok));
    assert(accepts(es1, f1, tok));
    let es2 = header_entries(wildcard());
    let f2 = weight_flags(es2, positive_weight);
    assert(entry_accepts(es2[0], f2[0], tok));
    assert(accepts(es2, f2, tok));
    assert(encode[0] == e);
}

/// Whether some entry accepts `algo`.
fn accepted(entries: &Vec<AcceptEntry>, positive: &Vec<bool>, algo: Algo) -> (r: bool)
    requires
        entries@.len() == positive@.len(),
    ensures
        r == accepts(entries_view(entries@), positive@, token_bytes(algo)),
{
    let token = algo.token_bytes();
    let star: Vec<u8> = vec![42u8];
    let ghost ev = entries_view(entries@);
    let mut i: usize = 0;
    while i < entries.len()
        invariant
            entries@.len() == positive@.len(),
            ev == entries_view(entries@),
            token@ == token_bytes(algo),
            star@ == wildcard(),
            0 <= i <= entries@.len(),
            forall|j: int| 0 <= j < i ==> !#[trigger] entry_accepts(ev[j], positive@[j], token@),
        decreases entries@.len() - i,
    {
        let e = &entries[i];
        assert(ev[i as int] == e@);
        let weight_ok = match &e.weight {
            None => true,
            Some(_) => positive[i],
        };
        if weight_ok && (bytes_eq(e.name.as_slice(), token.as_slice()) || bytes_eq(
            e.name.as_slice(),
            star.as_slice(),
        )) {
            assert(entry_accepts(ev[i as int], positive@[i as int], token@));
            return true;
        }
        i = i + 1;
    }
    false
}

/// The response encoding for a site whose `encode` priorities are `encode`,
/// given the entries of the client's `Accept-Encoding` value and, for each
/// entry, whether its weight is positive (`positive[i]` is read only when
/// entry `i` has a weight). `None` means no compression.
pub fn choose_algo(encode: &[Encoding], entries: &Vec<AcceptEntry>, positive: &Vec<bool>) -> (r:
    Option<Algo>)
    requires
        entries@.len() == positive@.len(),
    ensures
        r == first_accepted(encode@, entries_view(entries@), positive@),
{
    let ghost ev = entries_view(entries@);
    assert(encode@.skip(0) =~= encode@);
    let mut k: usize = 0;
    while k < encode.len()
        invariant
            entries@.len() == positive@.len(),
            ev == entries_view(entries@),
            0 <= k <= encode@.len(),
            first_accepted(encode@, ev, positive@) == first_accepted(
                encode@.skip(k as int),
                ev,
                positive@,
            ),
        decreases encode@.len() - k,
    {
        proof {
            assert(encode@.skip(k as int).drop_first() =~= encode@.skip(k + 1));
            assert(encode@.skip(k as int)[0] == encode@[k as int]);
        }
        let algo = encode[k].algo();
        if accepted(entries, positive, algo) {
            return Some(algo);
        }
        k = k + 1;
    }
    None
}

} // verus!
