//! Upstream round-robin selection.
//!
//! Every (site, terminal) pair that serves requests has its own counter,
//! created at zero on first use and kept for the selector's lifetime, so a
//! configuration reload that swaps the upstream lists keeps the round-robin
//! sequence. A pick returns the upstream at `counter % len` and advances the
//! counter by one, wrapping at `usize::MAX` as an atomic `fetch_add` does.
use vstd::prelude::*;

verus! {

/// Identifies a site block of the configuration: the catch-all site of a
/// port, or a site bound to a host name on a port.
#[derive(Debug, Clone, PartialEq, Eq, Hash)]
pub enum SiteKey {
    CatchAll { port: u16 },
    Named { host: String, port: u16 },
}

/// The mathematical value of a [`SiteKey`].
pub enum SiteKeyView {
    CatchAll { port: u16 },
    Named { host: Seq<char>, port: u16 },
}

impl View for SiteKey {
    type V = SiteKeyView;

    open spec fn view(&self) -> SiteKeyView {
        match self {
            SiteKey::CatchAll { port } => SiteKeyView::CatchAll { port: *port },
            SiteKey::Named { host, port } => SiteKeyView::Named { host: host@, port: *port },
        }
    }
}

impl SiteKey {
    /// Whether two keys name the same site.
    pub fn same_site(&self, other: &SiteKey) -> (r: bool)
        ensures
            r == (self@ == other@),
    {
        match (self, other) {
            (SiteKey::CatchAll { port: a }, SiteKey::CatchAll { port: b }) => *a == *b,
            (SiteKey::Named { host: h1, port: p1 }, SiteKey::Named { host: h2, port: p2 }) => {
                *p1 == *p2 && *h1 == *h2
            },
            _ => false,
        }
    }

    /// A copy of the key.
    pub fn duplicate(&self) -> (r: SiteKey)
        ensures
            r@ == self@,
    {
        match self {
            SiteKey::CatchAll { port } => SiteKey::CatchAll { port: *port },
            SiteKey::Named { host, port } => SiteKey::Named { host: host.clone(), port: *port },
        }
    }
}

/// The counter value after one more pick: `fetch_add(1)` on a `usize`.
pub open spec fn advance(count: usize) -> usize {
    if count == usize::MAX {
        0
    } else {
        (count + 1) as usize
    }
}

/// The index a pick with counter `count` takes in a list of `len` upstreams.
pub open spec fn pick_index(count: usize, len: nat) -> int {
    count as int % len as int
}

/// The counter value after `picks` picks from `count`.
pub open spec fn advance_n(count: usize, picks: nat) -> usize
    decreases picks,
{
    if picks == 0 {
        count
    } else {
        advance(advance_n(count, (picks - 1) as nat))
    }
}

/// A per-terminal round-robin counter.
struct Counter(usize);

impl Counter {
    /// The next index into an upstream list of `len` entries.
    fn next(&mut self, len: usize) -> (r: usize)
        requires
            len > 0,
        ensures
            r == pick_index(old(self).0, len as nat),
            final(self).0 == advance(old(self).0),
    {
        let r = self.0 % len;
        self.0 = self.0.wrapping_add(1);
        r
    }
}

struct Slot {
    site: SiteKey,
    terminal: usize,
}

/// Round-robin state for every (site, terminal) pair that serves requests.
///
/// Counters are created lazily and retained across reloads (entries for
/// removed sites are simply unused).
///
/// The counters sit in a vector of slots, found by a linear search on the
/// key, rather than in a hash map: the key holds a `String`, and a map keyed
/// by it would come with no specification of its lookups to prove the
/// round-robin laws from. The invariant [`UpstreamSelector::wf`] states what
/// a map has by construction, that no key has two slots.
pub struct UpstreamSelector {
    slots: Vec<Slot>,
    counters: Vec<Counter>,
}

impl UpstreamSelector {
    spec fn key_at(self, i: int) -> (SiteKeyView, usize) {
        (self.slots@[i].site@, self.slots@[i].terminal)
    }

    spec fn has_key(self, k: (SiteKeyView, usize)) -> bool {
        exists|i: int| 0 <= i < self.slots@.len() && #[trigger] self.key_at(i) == k
    }

    /// One counter per slot, and no (site, terminal) pair has two slots.
    pub closed spec fn wf(&self) -> bool {
        &&& self.slots@.len() == self.counters@.len()
        &&& forall|i: int, j: int|
            0 <= i < self.slots@.len() && 0 <= j < self.slots@.len() && i != j
                ==> #[trigger] self.key_at(i) != #[trigger] self.key_at(j)
    }

    /// The counters, by (site, terminal).
    pub closed spec fn view(&self) -> Map<(SiteKeyView, usize), usize> {
        Map::new(
            |k: (SiteKeyView, usize)| self.has_key(k),
            |k: (SiteKeyView, usize)|
                self.counters@[choose|i: int| 0 <= i < self.slots@.len() && #[trigger] self.key_at(i) == k].0,
        )
    }

    proof fn lemma_view_at(self, i: int)
        requires
            self.wf(),
            0 <= i < self.slots@.len(),
        ensures
            self.view().contains_key(self.key_at(i)),
            self.view()[self.key_at(i)] == self.counters@[i].0,
    {
        let k = self.key_at(i);
        assert(self.has_key(k));
        let j = choose|j: int| 0 <= j < self.slots@.len() && #[trigger] self.key_at(j) == k;
        assert(j == i);
    }

    /// The counter of a (site, terminal) pair: zero until its first pick.
    pub open spec fn count(&self, site: SiteKeyView, terminal: usize) -> usize {
        if self.view().contains_key((site, terminal)) {
            self.view()[(site, terminal)]
        } else {
            0
        }
    }

    /// Create an empty selector.
    pub fn new() -> (r: Self)
        ensures
            r.wf(),
            r.view() == Map::<(SiteKeyView, usize), usize>::empty(),
    {
        let r = UpstreamSelector { slots: Vec::new(), counters: Vec::new() };
        assert(r.view() =~= Map::<(SiteKeyView, usize), usize>::empty());
        r
    }

    /// Position of the slot of (site, terminal), if it has one.
    fn find_slot(&self, site: &SiteKey, terminal: usize) -> (r: Option<usize>)
        requires
            self.wf(),
        ensures
            match r {
                Some(i) => i < self.slots@.len() && self.key_at(i as int) == (site@, terminal),
                None => !self.has_key((site@, terminal)),
            },
    {
        let mut i: usize = 0;
        while i < self.slots.len()
            invariant
                0 <= i <= self.slots@.len(),
                forall|j: int| 0 <= j < i ==> #[trigger] self.key_at(j) != (site@, terminal),
            decreases self.slots@.len() - i,
        {
            let s = &self.slots[i];
            if s.terminal == terminal && s.site.same_site(site) {
                return Some(i);
            }
            i = i + 1;
        }
        None
    }

    /// Pick the upstream for a site's terminal, round-robin.
    ///
    /// `terminal_index` is the position of the terminal within its site, so two
    /// terminals in the same site keep independent round-robin sequences.
    pub fn pick<A: Copy>(&mut self, site_key: &SiteKey, terminal_index: usize, upstreams: &[A]) -> (r:
        A)
        requires
            old(self).wf(),
            upstreams@.len() > 0,
        ensures
            final(self).wf(),
            r == upstreams@[pick_index(
                old(self).count(site_key@, terminal_index),
                upstreams@.len(),
            )],
            final(self).view() == old(self).view().insert(
                (site_key@, terminal_index),
                advance(old(self).count(site_key@, terminal_index)),
            ),
    {
        let ghost key = (site_key@, terminal_index);
        let ghost c0 = old(self).count(site_key@, terminal_index);
        let len = upstreams.len();
        let pos = match self.find_slot(site_key, terminal_index) {
            Some(i) => {
                proof {
                    self.lemma_view_at(i as int);
                }
                i
            },
            None => {
                let ghost before = *self;
                self.slots.push(Slot { site: site_key.duplicate(), terminal: terminal_index });
                self.counters.push(Counter(0));
                proof {
                    assert(forall|i: int| 0 <= i < before.slots@.len() ==> self.slots@[i] == before.slots@[i]);
                    assert(forall|i: int| 0 <= i < before.slots@.len() ==> self.key_at(i) == before.key_at(i));
                    assert(self.key_at(before.slots@.len() as int) == key);
                    assert(!before.view().contains_key(key));
                    assert(c0 == 0);
                    assert forall|i: int, j: int|
                        0 <= i < self.slots@.len() && 0 <= j < self.slots@.len() && i != j
                        implies #[trigger] self.key_at(i) != #[trigger] self.key_at(j) by {
                        let n = before.slots@.len() as int;
                        if i == n {
                            if before.key_at(j) == key {
                                assert(before.has_key(key));
                            }
                        } else if j == n {
                            if before.key_at(i) == key {
                                assert(before.has_key(key));
                            }
                        } else {
                            assert(before.key_at(i) != before.key_at(j));
                        }
                    }
                    assert(self.wf());
                    self.lemma_view_at(before.slots@.len() as int);
                    assert forall|k: (SiteKeyView, usize)| #[trigger] self.view().contains_key(k) == before.view().insert(key, 0).contains_key(k) by {
                        if self.has_key(k) && k != key {
                            let j = choose|j: int| 0 <= j < self.slots@.len() && #[trigger] self.key_at(j) == k;
                            assert(before.key_at(j) == k);
                        }
                        if before.has_key(k) {
                            let j = choose|j: int| 0 <= j < before.slots@.len() && #[trigger] before.key_at(j) == k;
                            assert(self.key_at(j) == k);
                        }
                    }
                    assert forall|k: (SiteKeyView, usize)| #[trigger] before.view().contains_key(k) implies self.view()[k] == before.view()[k] by {
                        let j = choose|j: int| 0 <= j < before.slots@.len() && #[trigger] before.key_at(j) == k;
                        before.lemma_view_at(j);
                        assert(self.key_at(j) == k);
                        self.lemma_view_at(j);
                    }
                    assert(self.view() =~= before.view().insert(key, 0));
                }
                self.slots.len() - 1
            },
        };
        proof {
            self.lemma_view_at(pos as int);
        }
        let ghost mid = *self;
        let mut counter = Counter(self.counters[pos].0);
        let idx = counter.next(len);
        self.counters.set(pos, counter);
        proof {
            assert(self.slots@ == mid.slots@);
            assert(forall|i: int| 0 <= i < self.slots@.len() ==> self.key_at(i) == mid.key_at(i));
            assert forall|i: int, j: int|
                0 <= i < self.slots@.len() && 0 <= j < self.slots@.len() && i != j
                implies #[trigger] self.key_at(i) != #[trigger] self.key_at(j) by {
                assert(mid.key_at(i) != mid.key_at(j));
            }
            assert(self.wf());
            assert forall|k: (SiteKeyView, usize)| #[trigger] self.view().contains_key(k) == mid.view().contains_key(k) by {
                if self.has_key(k) {
                    let j = choose|j: int| 0 <= j < self.slots@.len() && #[trigger] self.key_at(j) == k;
                    assert(mid.key_at(j) == k);
                }
                if mid.has_key(k) {
                    let j = choose|j: int| 0 <= j < mid.slots@.len() && #[trigger] mid.key_at(j) == k;
                    assert(self.key_at(j) == k);
                }
            }
            assert forall|k: (SiteKeyView, usize)| #[trigger] mid.view().contains_key(k) && k != key implies self.view()[k] == mid.view()[k] by {
                let j = choose|j: int| 0 <= j < mid.slots@.len() && #[trigger] mid.key_at(j) == k;
                mid.lemma_view_at(j);
                assert(self.key_at(j) == k);
                self.lemma_view_at(j);
            }
            self.lemma_view_at(pos as int);
            assert(self.view() =~= old(self).view().insert(key, advance(c0)));
        }
        upstreams[idx]
    }
}

impl Default for UpstreamSelector {
    fn default() -> (r: Self)
        ensures
            r.wf(),
            r.view() == Map::<(SiteKeyView, usize), usize>::empty(),
    {
        UpstreamSelector::new()
    }
}

/// Terminals do not disturb one another: a pick on one (site, terminal)
/// pair leaves the counter of every other pair as it was.
pub proof fn law_other_terminals_unaffected(
    before: UpstreamSelector,
    after: UpstreamSelector,
    site: SiteKeyView,
    terminal: usize,
    other_site: SiteKeyView,
    other_terminal: usize,
)
    requires
        after.view() == before.view().insert(
            (site, terminal),
            advance(before.count(site, terminal)),
        ),
        (other_site, other_terminal) != (site, terminal),
    ensures
        after.count(other_site, other_terminal) == before.count(other_site, other_terminal),
        after.count(site, terminal) == advance(before.count(site, terminal)),
{
}

/// After one pick, the next pick takes the next upstream in the list: as
/// long as the counter has not reached `usize::MAX`, index `c % len` is
/// followed by `(c % len + 1) % len`.
pub proof fn law_next_pick_is_next_upstream(count: usize, len: nat)
    requires
        len > 0,
        count < usize::MAX,
    ensures
        pick_index(advance(count), len) == (pick_index(count, len) + 1) % (len as int),
{
    let c = count as int;
    let l = len as int;
    assert((c + 1) % l == (c % l + 1) % l) by (nonlinear_arith)
        requires
            l > 0,
            c >= 0,
    {
        vstd::arithmetic::div_mod::lemma_add_mod_noop(c, 1, l);
        if l > 1 {
            vstd::arithmetic::div_mod::lemma_small_mod(1, l as nat);
        }
    }
}

/// `picks` picks advance a counter by `picks`, modulo `usize::MAX + 1`.
pub proof fn law_counter_after_picks(count: usize, picks: nat)
    ensures
        advance_n(count, picks) as int == (count as int + picks as int) % (usize::MAX as int + 1),
    decreases picks,
{
    let m = usize::MAX as int + 1;
    if picks == 0 {
        vstd::arithmetic::div_mod::lemma_small_mod(count as nat, m as nat);
    } else {
        law_counter_after_picks(count, (picks - 1) as nat);
        let prev = advance_n(count, (picks - 1) as nat) as int;
        let total = count as int + picks as int;
        assert(prev == (total - 1) % m);
        vstd::arithmetic::div_mod::lemma_add_mod_noop(total - 1, 1, m);
        vstd::arithmetic::div_mod::lemma_small_mod(1, m as nat);
        if prev == usize::MAX as int {
            vstd::arithmetic::div_mod::lemma_mod_self_0(m);
            assert((prev + 1) % m == 0);
        } else {
            vstd::arithmetic::div_mod::lemma_small_mod((prev + 1) as nat, m as nat);
        }
    }
}

/// A terminal's picks go round the list: starting from a fresh counter, the
/// `i`-th pick (counting from zero) takes upstream `i % len`, for every
/// `i <= usize::MAX`; in particular pick `i + len` takes the same upstream
/// as pick `i`.
pub proof fn law_round_robin_from_fresh(picks: nat, len: nat)
    requires
        len > 0,
        picks <= usize::MAX,
    ensures
        pick_index(advance_n(0, picks), len) == picks as int % len as int,
{
    law_counter_after_picks(0, picks);
    vstd::arithmetic::div_mod::lemma_small_mod(picks, usize::MAX as nat + 1);
}


/// The counter a run of picks on one (site, terminal) pair reaches: with no
/// wrap-around, `i` picks after the first state the counter has grown by `i`.
proof fn lemma_run_counts(states: Seq<UpstreamSelector>, site: SiteKeyView, terminal: usize, i: int)
    requires
        0 <= i < states.len(),
        forall|j: int|
            0 <= j < states.len() - 1 ==> (#[trigger] states[j + 1]).view() == states[j].view().insert(
                (site, terminal),
                advance(states[j].count(site, terminal)),
            ),
        states[0].count(site, terminal) as int + states.len() - 1 <= usize::MAX,
    ensures
        states[i].count(site, terminal) as int == states[0].count(site, terminal) as int + i,
    decreases i,
{
    if i > 0 {
        lemma_run_counts(states, site, terminal, i - 1);
        let prev = states[i - 1];
        assert(states[(i - 1) + 1].view() == prev.view().insert(
            (site, terminal),
            advance(prev.count(site, terminal)),
        ));
    }
}

/// Whether one of the first `len` states of a run of picks on (site,
/// terminal) takes index `k` of a list of `len` upstreams.
pub open spec fn run_takes(
    states: Seq<UpstreamSelector>,
    site: SiteKeyView,
    terminal: usize,
    len: nat,
    k: int,
) -> bool {
    exists|i: int| 0 <= i < len && #[trigger] pick_index(states[i].count(site, terminal), len) == k
}

/// A run of `len` consecutive picks on one (site, terminal) pair, with no
/// other pick on that pair in between and no wrap-around of its counter,
/// takes every upstream of a list of `len` exactly once, in list order from
/// where the counter stood: pick `i` (counting from zero) takes index
/// `(c % len + i) % len`, where `c` is the counter before the run. Each
/// state of `states` is the selector before a pick, and the next state is
/// what that pick leaves, as [`UpstreamSelector::pick`] states.
pub proof fn law_consecutive_picks_take_each_upstream_once(
    states: Seq<UpstreamSelector>,
    site: SiteKeyView,
    terminal: usize,
    len: nat,
)
    requires
        len > 0,
        states.len() == len + 1,
        forall|j: int|
            0 <= j < len ==> (#[trigger] states[j + 1]).view() == states[j].view().insert(
                (site, terminal),
                advance(states[j].count(site, terminal)),
            ),
        states[0].count(site, terminal) as int + len <= usize::MAX,
    ensures
        forall|i: int|
            0 <= i < len ==> #[trigger] pick_index(states[i].count(site, terminal), len) == (
            pick_index(states[0].count(site, terminal), len) + i) % (len as int),
        forall|i1: int, i2: int|
            0 <= i1 < len && 0 <= i2 < len && i1 != i2 ==> #[trigger] pick_index(
                states[i1].count(site, terminal),
                len,
            ) != #[trigger] pick_index(states[i2].count(site, terminal), len),
        forall|k: int| 0 <= k < len ==> #[trigger] run_takes(states, site, terminal, len, k),
{
    let c = states[0].count(site, terminal) as int;
    let m = len as int;
    assert forall|i: int| 0 <= i < len implies #[trigger] pick_index(
        states[i].count(site, terminal),
        len,
    ) == (pick_index(states[0].count(site, terminal), len) + i) % m by {
        lemma_run_counts(states, site, terminal, i);
        vstd::arithmetic::div_mod::lemma_add_mod_noop(c, i, m);
        vstd::arithmetic::div_mod::lemma_small_mod(i as nat, m as nat);
    }
    assert forall|i1: int, i2: int|
        0 <= i1 < len && 0 <= i2 < len && i1 != i2 implies #[trigger] pick_index(
            states[i1].count(site, terminal),
            len,
        ) != #[trigger] pick_index(states[i2].count(site, terminal), len) by {
        lemma_run_counts(states, site, terminal, i1);
        lemma_run_counts(states, site, terminal, i2);
        if (c + i1) % m == (c + i2) % m {
            // Then m divides |i1 - i2|, which lies strictly between 0 and m.
            if i1 < i2 {
                vstd::arithmetic::div_mod::lemma_mod_equivalence(c + i2, c + i1, m);
                vstd::arithmetic::div_mod::lemma_small_mod((i2 - i1) as nat, m as nat);
            } else {
                vstd::arithmetic::div_mod::lemma_mod_equivalence(c + i1, c + i2, m);
                vstd::arithmetic::div_mod::lemma_small_mod((i1 - i2) as nat, m as nat);
            }
        }
    }
    assert forall|k: int| 0 <= k < len implies #[trigger] run_takes(states, site, terminal, len, k) by {
        let r = c % m;
        vstd::arithmetic::div_mod::lemma_mod_bound(c, m);
        let i = if k >= r { k - r } else { k - r + m };
        lemma_run_counts(states, site, terminal, i);
        vstd::arithmetic::div_mod::lemma_add_mod_noop(c, i, m);
        vstd::arithmetic::div_mod::lemma_small_mod(i as nat, m as nat);
        if k >= r {
            vstd::arithmetic::div_mod::lemma_small_mod(k as nat, m as nat);
        } else {
            vstd::arithmetic::div_mod::lemma_mod_add_multiples_vanish(k, m);
            vstd::arithmetic::div_mod::lemma_small_mod(k as nat, m as nat);
        }
        assert(pick_index(states[i].count(site, terminal), len) == k);
    }
}

} // verus!
