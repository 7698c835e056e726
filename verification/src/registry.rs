//! The registry: an index of the services that are known for each account.
//!
//! The registry is kept as pairs of account and service in ascending order,
//! so an account is in it only while at least one service is listed for it.

use crate::lexical::{
    lemma_precedes_asymmetric, lemma_precedes_irreflexive, lemma_precedes_total,
    lemma_precedes_transitive, precedes, rank, Rank,
};
use crate::records::{
    lemma_records_push, lemma_rendered_push, parse_line, parsed, record_text, records, rendered,
};
use crate::text::{append_chars, rows, split_lines, to_chars, to_text};
use vstd::prelude::*;

verus! {

/// An account and one of its services, as texts.
pub type Pair = (Seq<char>, Seq<char>);

/// Whether `p` stands before `q`: by account first, by service among the
/// pairs of one account.
pub open spec fn pair_precedes(p: Pair, q: Pair) -> bool {
    precedes(p.0, q.0) || (p.0 == q.0 && precedes(p.1, q.1))
}

/// Whether each pair of `s` stands before all that follow it.
pub open spec fn ascending(s: Seq<Pair>) -> bool {
    forall|i: int, j: int| 0 <= i < j < s.len() ==> pair_precedes(#[trigger] s[i], #[trigger] s[j])
}

/// No pair stands before itself, and no two stand before each other.
pub proof fn lemma_pair_asymmetric(p: Pair, q: Pair)
    ensures
        !pair_precedes(p, p),
        !(pair_precedes(p, q) && pair_precedes(q, p)),
{
    lemma_precedes_irreflexive(p.0);
    lemma_precedes_irreflexive(p.1);
    lemma_precedes_asymmetric(p.0, q.0);
    lemma_precedes_asymmetric(p.1, q.1);
}

/// Of two different pairs one stands before the other.
pub proof fn lemma_pair_total(p: Pair, q: Pair)
    ensures
        p == q || pair_precedes(p, q) || pair_precedes(q, p),
{
    lemma_precedes_total(p.0, q.0);
    lemma_precedes_total(p.1, q.1);
}

/// What stands before a pair stands before all that the pair stands before.
pub proof fn lemma_pair_transitive(p: Pair, q: Pair, r: Pair)
    requires
        pair_precedes(p, q),
        pair_precedes(q, r),
    ensures
        pair_precedes(p, r),
{
    if precedes(p.0, q.0) && precedes(q.0, r.0) {
        lemma_precedes_transitive(p.0, q.0, r.0);
    } else if p.0 == q.0 && q.0 == r.0 {
        lemma_precedes_transitive(p.1, q.1, r.1);
    }
}

/// The mapping that a set of pairs stands for: each account that occurs in a
/// pair, with the services that it is paired with.
pub open spec fn mapping(pairs: Set<Pair>) -> Map<Seq<char>, Set<Seq<char>>> {
    Map::new(
        |a: Seq<char>| exists|s: Seq<char>| pairs.contains((a, s)),
        |a: Seq<char>| Set::new(|s: Seq<char>| pairs.contains((a, s))),
    )
}

/// The services listed for `account` in `m`; none where the account is not in it.
pub open spec fn services_in(m: Map<Seq<char>, Set<Seq<char>>>, account: Seq<char>) -> Set<
    Seq<char>,
> {
    if m.contains_key(account) {
        m[account]
    } else {
        Set::empty()
    }
}

/// `m` with `service` listed for `account`.
pub open spec fn with_service(
    m: Map<Seq<char>, Set<Seq<char>>>,
    account: Seq<char>,
    service: Seq<char>,
) -> Map<Seq<char>, Set<Seq<char>>> {
    m.insert(account, services_in(m, account).insert(service))
}

/// `m` without `service` for `account`, and without the account where no
/// other service is listed for it.
pub open spec fn without_service(
    m: Map<Seq<char>, Set<Seq<char>>>,
    account: Seq<char>,
    service: Seq<char>,
) -> Map<Seq<char>, Set<Seq<char>>> {
    if !m.contains_key(account) {
        m
    } else if m[account].remove(service) =~= Set::empty() {
        m.remove(account)
    } else {
        m.insert(account, m[account].remove(service))
    }
}

/// No account of a mapping made from pairs has an empty set of services.
pub proof fn lemma_mapping_no_empty(pairs: Set<Pair>, account: Seq<char>)
    requires
        mapping(pairs).contains_key(account),
    ensures
        exists|s: Seq<char>| mapping(pairs)[account].contains(s),
{
    let s = choose|s: Seq<char>| pairs.contains((account, s));
    assert(mapping(pairs)[account].contains(s));
}

/// Adding a pair lists its service for its account.
pub proof fn lemma_mapping_insert(pairs: Set<Pair>, account: Seq<char>, service: Seq<char>)
    ensures
        mapping(pairs.insert((account, service))) == with_service(
            mapping(pairs),
            account,
            service,
        ),
{
    let after = mapping(pairs.insert((account, service)));
    let want = with_service(mapping(pairs), account, service);
    assert(pairs.insert((account, service)).contains((account, service)));
    assert forall|a: Seq<char>| after.contains_key(a) <==> want.contains_key(a) by {
        if after.contains_key(a) {
            let s = choose|s: Seq<char>| pairs.insert((account, service)).contains((a, s));
            if a != account {
                assert(pairs.contains((a, s)));
            }
        }
        if want.contains_key(a) && a != account {
            let s = choose|s: Seq<char>| pairs.contains((a, s));
            assert(pairs.insert((account, service)).contains((a, s)));
        }
    }
    assert forall|a: Seq<char>| after.contains_key(a) implies after[a] =~= want[a] by {
        assert forall|s: Seq<char>| after[a].contains(s) <==> want[a].contains(s) by {
            if a == account && s != service && pairs.contains((a, s)) {
                assert(mapping(pairs).contains_key(a));
            }
        }
    }
    assert(after =~= want);
}

/// Taking a pair away unlists its service, and its account with the last service.
pub proof fn lemma_mapping_remove(pairs: Set<Pair>, account: Seq<char>, service: Seq<char>)
    ensures
        mapping(pairs.remove((account, service))) == without_service(
            mapping(pairs),
            account,
            service,
        ),
{
    let before = mapping(pairs);
    let after = mapping(pairs.remove((account, service)));
    let want = without_service(before, account, service);
    if !before.contains_key(account) {
        assert(!pairs.contains((account, service)));
        assert(pairs.remove((account, service)) =~= pairs);
    } else {
        let rest = before[account].remove(service);
        assert forall|a: Seq<char>| after.contains_key(a) <==> want.contains_key(a) by {
            if after.contains_key(a) {
                let s = choose|s: Seq<char>| pairs.remove((account, service)).contains((a, s));
                assert(pairs.contains((a, s)));
                if a == account {
                    assert(rest.contains(s));
                }
            }
            if want.contains_key(a) {
                if a == account {
                    assert(!(rest =~= Set::empty()));
                    let s = choose|s: Seq<char>| rest.contains(s);
                    assert(pairs.remove((account, service)).contains((a, s)));
                } else {
                    let s = choose|s: Seq<char>| pairs.contains((a, s));
                    assert(pairs.remove((account, service)).contains((a, s)));
                }
            }
        }
        assert forall|a: Seq<char>| after.contains_key(a) implies after[a] =~= want[a] by {
        }
        assert(after =~= want);
    }
}

/// Ascending sequences that hold the same pairs are the same sequence.
pub proof fn lemma_ascending_unique(s: Seq<Pair>, t: Seq<Pair>)
    requires
        ascending(s),
        ascending(t),
        s.to_set() == t.to_set(),
    ensures
        s == t,
    decreases s.len(),
{
    if s.len() == 0 {
        if t.len() > 0 {
            assert(t.contains(t[0]));
            assert(s.to_set().contains(t[0]));
        }
        assert(s =~= t);
    } else {
        assert(s.contains(s.last()));
        assert(t.to_set().contains(s.last()));
        let j = choose|j: int| 0 <= j < t.len() && t[j] == s.last();
        assert(t.contains(t.last()));
        assert(s.to_set().contains(t.last()));
        let i = choose|i: int| 0 <= i < s.len() && s[i] == t.last();
        lemma_pair_asymmetric(s.last(), t.last());
        if i < s.len() - 1 && j < t.len() - 1 {
            lemma_pair_transitive(s[i], s.last(), t.last());
        }
        assert(s.last() == t.last());
        let s0 = s.drop_last();
        let t0 = t.drop_last();
        assert forall|p: Pair| s0.contains(p) <==> t0.contains(p) by {
            if s0.contains(p) {
                let k = choose|k: int| 0 <= k < s0.len() && s0[k] == p;
                assert(pair_precedes(s[k], s.last()));
                lemma_pair_asymmetric(p, s.last());
                assert(s.contains(p));
                assert(t.to_set().contains(p));
                let m = choose|m: int| 0 <= m < t.len() && t[m] == p;
                assert(t0[m] == p);
            }
            if t0.contains(p) {
                let k = choose|k: int| 0 <= k < t0.len() && t0[k] == p;
                assert(pair_precedes(t[k], t.last()));
                lemma_pair_asymmetric(p, t.last());
                assert(t.contains(p));
                assert(s.to_set().contains(p));
                let m = choose|m: int| 0 <= m < s.len() && s[m] == p;
                assert(s0[m] == p);
            }
        }
        assert(s0.to_set() =~= t0.to_set());
        assert forall|a: int, b: int| 0 <= a < b < s0.len() implies pair_precedes(
            #[trigger] s0[a],
            #[trigger] s0[b],
        ) by {
            assert(s0[a] == s[a] && s0[b] == s[b]);
        }
        assert forall|a: int, b: int| 0 <= a < b < t0.len() implies pair_precedes(
            #[trigger] t0[a],
            #[trigger] t0[b],
        ) by {
            assert(t0[a] == t[a] && t0[b] == t[b]);
        }
        lemma_ascending_unique(s0, t0);
        assert(s =~= s0.push(s.last()));
        assert(t =~= t0.push(t.last()));
    }
}

/// The pairs of a set in ascending order.
pub open spec fn in_order(pairs: Set<Pair>) -> Seq<Pair> {
    choose|s: Seq<Pair>| ascending(s) && s.to_set() == pairs
}

/// Whether the pairs of a set can be put in ascending order, which holds of
/// every set with finitely many pairs.
pub open spec fn orderable(pairs: Set<Pair>) -> bool {
    exists|s: Seq<Pair>| ascending(s) && s.to_set() == pairs
}

/// The pairs of an orderable set in order are ascending and are the set's pairs.
pub proof fn lemma_in_order(pairs: Set<Pair>)
    requires
        orderable(pairs),
    ensures
        ascending(in_order(pairs)),
        in_order(pairs).to_set() == pairs,
{
}

/// A set without a pair is orderable, and in order it is the empty sequence.
pub proof fn lemma_orderable_empty()
    ensures
        orderable(Set::<Pair>::empty()),
        in_order(Set::<Pair>::empty()) == Seq::<Pair>::empty(),
{
    let e = Seq::<Pair>::empty();
    assert(e.to_set() =~= Set::<Pair>::empty());
    assert(ascending(e));
    lemma_ascending_unique(e, in_order(Set::<Pair>::empty()));
}

/// An ascending sequence with one more pair in its place.
proof fn lemma_ascending_insert(s: Seq<Pair>, p: Pair) -> (r: Seq<Pair>)
    requires
        ascending(s),
    ensures
        ascending(r),
        r.to_set() == s.to_set().insert(p),
    decreases s.len(),
{
    if s.len() == 0 {
        let r = seq![p];
        assert forall|q: Pair| r.contains(q) <==> q == p by {
            if q == p {
                assert(r[0] == q);
            }
        }
        assert(r.to_set() =~= s.to_set().insert(p));
        r
    } else if s.last() == p {
        assert(s.contains(p));
        assert(s.to_set() =~= s.to_set().insert(p));
        s
    } else if pair_precedes(s.last(), p) {
        let r = s.push(p);
        assert forall|i: int, j: int| 0 <= i < j < r.len() implies pair_precedes(
            #[trigger] r[i],
            #[trigger] r[j],
        ) by {
            if j == s.len() && i < s.len() - 1 {
                lemma_pair_transitive(s[i], s.last(), p);
            }
        }
        assert forall|q: Pair| r.contains(q) <==> s.contains(q) || q == p by {
            if r.contains(q) {
                let k = choose|k: int| 0 <= k < r.len() && r[k] == q;
                if k < s.len() {
                    assert(s[k] == q);
                }
            }
            if s.contains(q) {
                let k = choose|k: int| 0 <= k < s.len() && s[k] == q;
                assert(r[k] == q);
            }
            if q == p {
                assert(r[s.len() as int] == q);
            }
        }
        assert(r.to_set() =~= s.to_set().insert(p));
        r
    } else {
        lemma_pair_total(s.last(), p);
        let head = s.drop_last();
        assert forall|i: int, j: int| 0 <= i < j < head.len() implies pair_precedes(
            #[trigger] head[i],
            #[trigger] head[j],
        ) by {
            assert(head[i] == s[i] && head[j] == s[j]);
        }
        let u = lemma_ascending_insert(head, p);
        let r = u.push(s.last());
        assert forall|i: int, j: int| 0 <= i < j < r.len() implies pair_precedes(
            #[trigger] r[i],
            #[trigger] r[j],
        ) by {
            if j == u.len() {
                assert(u.contains(u[i]));
                assert(u.to_set().contains(u[i]));
                if u[i] != p {
                    assert(head.contains(u[i]));
                    let k = choose|k: int| 0 <= k < head.len() && head[k] == u[i];
                    assert(s[k] == u[i]);
                }
            } else {
                assert(r[i] == u[i] && r[j] == u[j]);
            }
        }
        assert forall|q: Pair| r.contains(q) <==> s.contains(q) || q == p by {
            if r.contains(q) {
                let k = choose|k: int| 0 <= k < r.len() && r[k] == q;
                if k < u.len() {
                    assert(u.contains(q));
                    assert(u.to_set().contains(q));
                    if q != p {
                        assert(head.contains(q));
                        let m = choose|m: int| 0 <= m < head.len() && head[m] == q;
                        assert(s[m] == q);
                    }
                } else {
                    assert(s[s.len() - 1] == q);
                }
            }
            if s.contains(q) {
                let k = choose|k: int| 0 <= k < s.len() && s[k] == q;
                if k < head.len() {
                    assert(head[k] == q);
                    assert(head.contains(q));
                    assert(u.to_set().contains(q));
                    let m = choose|m: int| 0 <= m < u.len() && u[m] == q;
                    assert(r[m] == q);
                } else {
                    assert(r[u.len() as int] == q);
                }
            }
            if q == p {
                assert(u.to_set().contains(p));
                let m = choose|m: int| 0 <= m < u.len() && u[m] == p;
                assert(r[m] == q);
            }
        }
        assert(r.to_set() =~= s.to_set().insert(p));
        r
    }
}

/// An orderable set with one more pair is orderable.
pub proof fn lemma_orderable_insert(pairs: Set<Pair>, p: Pair)
    requires
        orderable(pairs),
    ensures
        orderable(pairs.insert(p)),
{
    let s = choose|s: Seq<Pair>| ascending(s) && s.to_set() == pairs;
    let r = lemma_ascending_insert(s, p);
    assert(ascending(r) && r.to_set() == pairs.insert(p));
}

/// An orderable set without one of its pairs is orderable.
pub proof fn lemma_orderable_remove(pairs: Set<Pair>, p: Pair)
    requires
        orderable(pairs),
    ensures
        orderable(pairs.remove(p)),
{
    let s = choose|s: Seq<Pair>| ascending(s) && s.to_set() == pairs;
    if s.contains(p) {
        let at = choose|k: int| 0 <= k < s.len() && s[k] == p;
        let r = s.remove(at);
        assert forall|i: int, j: int| 0 <= i < j < r.len() implies pair_precedes(
            #[trigger] r[i],
            #[trigger] r[j],
        ) by {
            let bi = if i < at { i } else { i + 1 };
            let bj = if j < at { j } else { j + 1 };
            assert(r[i] == s[bi] && r[j] == s[bj]);
        }
        assert forall|q: Pair| r.contains(q) <==> s.contains(q) && q != p by {
            if r.contains(q) {
                let k = choose|k: int| 0 <= k < r.len() && r[k] == q;
                let bk = if k < at { k } else { k + 1 };
                assert(s[bk] == q);
                lemma_pair_asymmetric(p, q);
            }
            if s.contains(q) && q != p {
                let k = choose|k: int| 0 <= k < s.len() && s[k] == q;
                if k < at {
                    assert(r[k] == q);
                } else {
                    assert(r[k - 1] == q);
                }
            }
        }
        assert(r.to_set() =~= pairs.remove(p));
        assert(ascending(r) && r.to_set() == pairs.remove(p));
    } else {
        assert(pairs.remove(p) =~= pairs);
    }
}

/// The texts that the strings of `v` hold, in order.
pub open spec fn names(v: Seq<String>) -> Seq<Seq<char>> {
    Seq::new(v.len(), |i: int| v[i]@)
}

/// Whether each text of `s` stands before all that follow it.
pub open spec fn ascending_names(s: Seq<Seq<char>>) -> bool {
    forall|i: int, j: int| 0 <= i < j < s.len() ==> precedes(#[trigger] s[i], #[trigger] s[j])
}

/// The services that `o` pairs with `account`, in the order of `o`.
pub open spec fn listed(o: Seq<Pair>, account: Seq<char>) -> Seq<Seq<char>>
    decreases o.len(),
{
    if o.len() == 0 {
        Seq::empty()
    } else if o.last().0 == account {
        listed(o.drop_last(), account).push(o.last().1)
    } else {
        listed(o.drop_last(), account)
    }
}

/// From ascending pairs the services of one account come out ascending, and
/// they are the services that the pairs list for it.
pub proof fn lemma_listed(o: Seq<Pair>, account: Seq<char>)
    requires
        ascending(o),
    ensures
        ascending_names(listed(o, account)),
        listed(o, account).to_set() == services_in(mapping(o.to_set()), account),
        forall|s: Seq<char>| listed(o, account).contains(s) <==> o.contains((account, s)),
    decreases o.len(),
{
    let l = listed(o, account);
    if o.len() > 0 {
        let head = o.drop_last();
        let h = listed(head, account);
        lemma_listed(head, account);
        assert forall|s: Seq<char>| l.contains(s) <==> o.contains((account, s)) by {
            if l.contains(s) {
                let k = choose|k: int| 0 <= k < l.len() && l[k] == s;
                if k < h.len() {
                    assert(h[k] == s);
                    assert(h.contains(s));
                    let m = choose|m: int| 0 <= m < head.len() && head[m] == (account, s);
                    assert(o[m] == (account, s));
                } else {
                    assert(o[o.len() - 1] == (account, s));
                }
            }
            if o.contains((account, s)) {
                let m = choose|m: int| 0 <= m < o.len() && o[m] == (account, s);
                if m < head.len() {
                    assert(head[m] == (account, s));
                    assert(head.contains((account, s)));
                    assert(h.contains(s));
                    let k = choose|k: int| 0 <= k < h.len() && h[k] == s;
                    assert(l.len() >= h.len());
                    assert(l[k] == h[k]);
                } else {
                    assert(l[l.len() - 1] == s);
                }
            }
        }
        assert forall|i: int, j: int| 0 <= i < j < l.len() implies precedes(
            #[trigger] l[i],
            #[trigger] l[j],
        ) by {
            if j < h.len() {
                assert(l[i] == h[i] && l[j] == h[j]);
            } else {
                assert(h[i] == l[i]);
                assert(h.contains(l[i]));
                let m = choose|m: int| 0 <= m < head.len() && head[m] == (account, l[i]);
                assert(pair_precedes(o[m], o[o.len() - 1]));
                lemma_precedes_irreflexive(account);
            }
        }
    }
    let want = services_in(mapping(o.to_set()), account);
    assert forall|s: Seq<char>| l.to_set().contains(s) <==> want.contains(s) by {
        if o.contains((account, s)) {
            assert(o.to_set().contains((account, s)));
        }
    }
    assert(l.to_set() =~= want);
}

/// One line of the registry: an account and a service listed for it.
struct Entry {
    account: Vec<char>,
    service: Vec<char>,
}

impl Entry {
    /// The pair of texts that the entry holds.
    pub closed spec fn pair(&self) -> Pair {
        (self.account@, self.service@)
    }
}

/// The rank of `p` relative to `q` in the order of pairs.
pub open spec fn pair_rank_of(p: Pair, q: Pair) -> Rank {
    if p == q {
        Rank::Same
    } else if pair_precedes(p, q) {
        Rank::Before
    } else {
        Rank::After
    }
}

/// Finds where the entry stands relative to the pair of `account` and `service`.
fn entry_rank(e: &Entry, account: &[char], service: &[char]) -> (r: Rank)
    ensures
        r == pair_rank_of(e.pair(), (account@, service@)),
{
    proof {
        lemma_precedes_asymmetric(e.account@, account@);
        lemma_precedes_irreflexive(account@);
    }
    match rank(e.account.as_slice(), account) {
        Rank::Before => Rank::Before,
        Rank::After => Rank::After,
        Rank::Same => rank(e.service.as_slice(), service),
    }
}

/// The services known for each account.
pub struct Registry {
    entries: Vec<Entry>,
}

impl View for Registry {
    type V = Map<Seq<char>, Set<Seq<char>>>;

    /// The registry as a mapping from each account to its services.
    open spec fn view(&self) -> Map<Seq<char>, Set<Seq<char>>> {
        mapping(self.pairs())
    }
}

impl Registry {
    /// The pairs of the registry in the order in which they are kept.
    pub closed spec fn ordered(&self) -> Seq<Pair> {
        Seq::new(self.entries@.len(), |i: int| self.entries@[i].pair())
    }

    /// The registry's invariant: its pairs ascend, so none occurs twice.
    pub open spec fn well_formed(&self) -> bool {
        ascending(self.ordered())
    }

    /// The pairs of the registry as a set.
    pub open spec fn pairs(&self) -> Set<Pair> {
        self.ordered().to_set()
    }

    /// A registry without a pair.
    pub fn new() -> (r: Registry)
        ensures
            r.well_formed(),
            r.ordered() == Seq::<Pair>::empty(),
            r.pairs() == Set::<Pair>::empty(),
            r@ == Map::<Seq<char>, Set<Seq<char>>>::empty(),
    {
        let r = Registry { entries: Vec::new() };
        assert(r.ordered() =~= Seq::<Pair>::empty());
        assert(r.pairs() =~= Set::<Pair>::empty());
        assert(r@ =~= Map::<Seq<char>, Set<Seq<char>>>::empty());
        r
    }

    /// The number of pairs in the registry.
    pub fn len(&self) -> (n: usize)
        ensures
            n == self.ordered().len(),
    {
        self.entries.len()
    }

    /// The index of the first pair that does not stand before the pair of
    /// `account` and `service`, and whether that pair is the one looked for.
    fn locate(&self, account: &[char], service: &[char]) -> (r: (usize, bool))
        requires
            self.well_formed(),
        ensures
            r.0 <= self.ordered().len(),
            forall|k: int|
                0 <= k < r.0 ==> pair_precedes(#[trigger] self.ordered()[k], (account@, service@)),
            forall|k: int|
                r.0 < k < self.ordered().len() ==> pair_precedes(
                    (account@, service@),
                    #[trigger] self.ordered()[k],
                ),
            r.1 ==> r.0 < self.ordered().len() && self.ordered()[r.0 as int] == (
                account@,
                service@,
            ),
            !r.1 ==> forall|k: int|
                r.0 <= k < self.ordered().len() ==> pair_precedes(
                    (account@, service@),
                    #[trigger] self.ordered()[k],
                ),
            r.1 == self.pairs().contains((account@, service@)),
    {
        let ghost target = (account@, service@);
        let ghost o = self.ordered();
        let mut i: usize = 0;
        let mut found = false;
        while i < self.entries.len()
            invariant_except_break
                !found,
            invariant
                i <= o.len(),
                o == self.ordered(),
                o.len() == self.entries@.len(),
                target == (account@, service@),
                forall|k: int| 0 <= k < i ==> pair_precedes(#[trigger] o[k], target),
            ensures
                found ==> i < o.len() && o[i as int] == target,
                !found && i < o.len() ==> pair_precedes(target, o[i as int]),
            decreases o.len() - i,
        {
            assert(o[i as int] == self.entries@[i as int].pair());
            match entry_rank(&self.entries[i], account, service) {
                Rank::Before => {
                    i += 1;
                },
                Rank::Same => {
                    found = true;
                    break ;
                },
                Rank::After => {
                    proof {
                        lemma_pair_total(o[i as int], target);
                    }
                    break ;
                },
            }
        }
        proof {
            assert forall|k: int| i < k < o.len() implies pair_precedes(target, #[trigger] o[k]) by {
                if !found {
                    lemma_pair_transitive(target, o[i as int], o[k]);
                }
            }
            if found {
                assert(o.contains(target));
            } else {
                assert forall|k: int| 0 <= k < o.len() implies o[k] != target by {
                    lemma_pair_asymmetric(target, o[k]);
                }
            }
        }
        (i, found)
    }

    /// Lists `service` for `account`, given as characters.
    fn insert_chars(&mut self, account: Vec<char>, service: Vec<char>)
        requires
            old(self).well_formed(),
        ensures
            final(self).well_formed(),
            final(self).pairs() == old(self).pairs().insert((account@, service@)),
    {
        let (at, found) = self.locate(account.as_slice(), service.as_slice());
        let ghost target = (account@, service@);
        let ghost before = self.ordered();
        if found {
            assert(before.to_set().insert(target) =~= before.to_set());
        } else {
            self.entries.insert(at, Entry { account, service });
            proof {
                let after = self.ordered();
                assert(after =~= before.insert(at as int, target));
                assert forall|i: int, j: int| 0 <= i < j < after.len() implies pair_precedes(
                    #[trigger] after[i],
                    #[trigger] after[j],
                ) by {
                    if j < at {
                        assert(after[i] == before[i] && after[j] == before[j]);
                    } else if j == at {
                        assert(after[i] == before[i]);
                    } else if i < at {
                        assert(after[i] == before[i] && after[j] == before[j - 1]);
                    } else if i == at {
                        assert(after[j] == before[j - 1]);
                    } else {
                        assert(after[i] == before[i - 1] && after[j] == before[j - 1]);
                    }
                }
                assert forall|p: Pair| after.contains(p) <==> before.contains(p) || p == target by {
                    if after.contains(p) {
                        let k = choose|k: int| 0 <= k < after.len() && after[k] == p;
                        if k < at {
                            assert(before[k] == p);
                        } else if k > at {
                            assert(before[k - 1] == p);
                        }
                    }
                    if before.contains(p) {
                        let k = choose|k: int| 0 <= k < before.len() && before[k] == p;
                        if k < at {
                            assert(after[k] == p);
                        } else {
                            assert(after[k + 1] == p);
                        }
                    }
                    if p == target {
                        assert(after[at as int] == p);
                    }
                }
                assert(after.to_set() =~= before.to_set().insert(target));
            }
        }
    }

    /// Lists `service` for `account`. The account is added where it was not
    /// known; a service that is listed already stays listed once.
    pub fn insert(&mut self, account: &str, service: &str)
        requires
            old(self).well_formed(),
        ensures
            final(self).well_formed(),
            final(self).pairs() == old(self).pairs().insert((account@, service@)),
            final(self)@ == with_service(old(self)@, account@, service@),
    {
        proof {
            lemma_mapping_insert(self.pairs(), account@, service@);
        }
        self.insert_chars(to_chars(account), to_chars(service));
    }

    /// Tests whether a service is listed for `account`.
    fn tracks_chars(&self, account: &[char]) -> (r: bool)
        ensures
            r == self@.contains_key(account@),
    {
        let ghost o = self.ordered();
        let mut i: usize = 0;
        while i < self.entries.len()
            invariant
                i <= o.len(),
                o == self.ordered(),
                o.len() == self.entries@.len(),
                forall|k: int| 0 <= k < i ==> (#[trigger] o[k]).0 != account@,
            decreases o.len() - i,
        {
            assert(o[i as int] == self.entries@[i as int].pair());
            match rank(self.entries[i].account.as_slice(), account) {
                Rank::Same => {
                    assert(o.contains(o[i as int]));
                    assert(self.pairs().contains((account@, o[i as int].1)));
                    return true;
                },
                _ => {
                    i += 1;
                },
            }
        }
        proof {
            if self@.contains_key(account@) {
                let s = choose|s: Seq<char>| self.pairs().contains((account@, s));
                let k = choose|k: int| 0 <= k < o.len() && o[k] == (account@, s);
                assert(o[k].0 == account@);
            }
        }
        false
    }

    /// Tests whether `account` is in the registry, that is whether a service
    /// is listed for it.
    pub fn tracks(&self, account: &str) -> (r: bool)
        ensures
            r == self@.contains_key(account@),
    {
        let a = to_chars(account);
        self.tracks_chars(a.as_slice())
    }

    /// Takes `service` away from `account`, and the account with its last
    /// service. Returns whether the account was in the registry before.
    pub fn remove(&mut self, account: &str, service: &str) -> (known: bool)
        requires
            old(self).well_formed(),
        ensures
            final(self).well_formed(),
            known == old(self)@.contains_key(account@),
            final(self).pairs() == old(self).pairs().remove((account@, service@)),
            final(self)@ == without_service(old(self)@, account@, service@),
    {
        let a = to_chars(account);
        let s = to_chars(service);
        let known = self.tracks_chars(a.as_slice());
        let (at, found) = self.locate(a.as_slice(), s.as_slice());
        let ghost target = (account@, service@);
        let ghost before = self.ordered();
        proof {
            lemma_mapping_remove(self.pairs(), account@, service@);
        }
        if found {
            self.entries.remove(at);
            proof {
                let after = self.ordered();
                assert(after =~= before.remove(at as int));
                assert forall|i: int, j: int| 0 <= i < j < after.len() implies pair_precedes(
                    #[trigger] after[i],
                    #[trigger] after[j],
                ) by {
                    let bi = if i < at { i } else { i + 1 };
                    let bj = if j < at { j } else { j + 1 };
                    assert(after[i] == before[bi] && after[j] == before[bj]);
                }
                assert forall|p: Pair| after.contains(p) <==> before.contains(p) && p
                    != target by {
                    if after.contains(p) {
                        let k = choose|k: int| 0 <= k < after.len() && after[k] == p;
                        let bk = if k < at { k } else { k + 1 };
                        assert(before[bk] == p);
                        lemma_pair_asymmetric(target, p);
                    }
                    if before.contains(p) && p != target {
                        let k = choose|k: int| 0 <= k < before.len() && before[k] == p;
                        if k < at {
                            assert(after[k] == p);
                        } else {
                            assert(after[k - 1] == p);
                        }
                    }
                }
                assert(after.to_set() =~= before.to_set().remove(target));
            }
        } else {
            assert(before.to_set().remove(target) =~= before.to_set());
        }
        known
    }

    /// The services listed for `account`, in ascending order; none where the
    /// account is not in the registry.
    pub fn services(&self, account: &str) -> (r: Vec<String>)
        requires
            self.well_formed(),
        ensures
            ascending_names(names(r@)),
            names(r@).to_set() == services_in(self@, account@),
            names(r@) == listed(self.ordered(), account@),
            !self@.contains_key(account@) ==> r@.len() == 0,
    {
        let a = to_chars(account);
        let ghost o = self.ordered();
        let mut out: Vec<String> = Vec::new();
        let mut i: usize = 0;
        assert(names(out@) =~= listed(o.take(0), account@));
        while i < self.entries.len()
            invariant
                i <= o.len(),
                o == self.ordered(),
                o.len() == self.entries@.len(),
                a@ == account@,
                names(out@) == listed(o.take(i as int), account@),
            decreases o.len() - i,
        {
            let ghost before = names(out@);
            assert(o[i as int] == self.entries@[i as int].pair());
            assert(o.take(i + 1).drop_last() == o.take(i as int));
            assert(o.take(i + 1).last() == o[i as int]);
            match rank(self.entries[i].account.as_slice(), a.as_slice()) {
                Rank::Same => {
                    out.push(to_text(self.entries[i].service.as_slice()));
                    assert(names(out@) =~= before.push(o[i as int].1));
                },
                _ => {},
            }
            i += 1;
        }
        proof {
            assert(o.take(i as int) == o);
            lemma_listed(o, account@);
            if out@.len() > 0 {
                assert(names(out@).to_set().contains(names(out@)[0]));
            }
        }
        out
    }

    /// The registry keeps its pairs in ascending order.
    pub proof fn lemma_ordered(&self)
        requires
            self.well_formed(),
        ensures
            orderable(self.pairs()),
            self.ordered() == in_order(self.pairs()),
    {
        let o = self.ordered();
        let c = in_order(self.pairs());
        assert(ascending(o) && o.to_set() == self.pairs());
        lemma_ascending_unique(o, c);
    }

    /// Reads a registry from the contents of its file. Lines that hold no
    /// record are passed over; a record that occurs twice counts once.
    pub fn parse(text: &str) -> (r: Registry)
        ensures
            r.well_formed(),
            r.pairs() == parsed(text@),
    {
        let v = to_chars(text);
        let ls = split_lines(v.as_slice());
        let mut reg = Registry::new();
        let mut i: usize = 0;
        assert(records(rows(ls@).take(0)) =~= Set::<Pair>::empty());
        while i < ls.len()
            invariant
                i <= ls@.len(),
                reg.well_formed(),
                reg.pairs() == records(rows(ls@).take(i as int)),
            decreases ls@.len() - i,
        {
            proof {
                lemma_records_push(rows(ls@).take(i as int), ls@[i as int]@);
                assert(rows(ls@).take(i + 1) == rows(ls@).take(i as int).push(ls@[i as int]@));
            }
            match parse_line(ls[i].as_slice()) {
                Some((account, service)) => {
                    reg.insert_chars(account, service);
                },
                None => {},
            }
            i += 1;
        }
        assert(rows(ls@).take(i as int) == rows(ls@));
        reg
    }

    /// The contents of the file that holds the registry: a line for each
    /// pair, in ascending order.
    pub fn render(&self) -> (r: String)
        ensures
            r@ == rendered(self.ordered()),
    {
        let ghost o = self.ordered();
        let mut out: Vec<char> = Vec::new();
        let mut i: usize = 0;
        assert(o.take(0) =~= Seq::<Pair>::empty());
        while i < self.entries.len()
            invariant
                i <= o.len(),
                o == self.ordered(),
                o.len() == self.entries@.len(),
                out@ == rendered(o.take(i as int)),
            decreases o.len() - i,
        {
            proof {
                assert(o[i as int] == self.entries@[i as int].pair());
                lemma_rendered_push(o.take(i as int), o[i as int]);
                assert(o.take(i + 1) == o.take(i as int).push(o[i as int]));
            }
            let ghost before = out@;
            append_chars(&mut out, self.entries[i].account.as_slice());
            out.push('\t');
            append_chars(&mut out, self.entries[i].service.as_slice());
            out.push('\n');
            assert(out@ =~= before + record_text(o[i as int]) + seq!['\n']);
            i += 1;
        }
        assert(o.take(i as int) == o);
        to_text(out.as_slice())
    }
}

} // verus!
