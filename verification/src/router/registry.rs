//! Subscription registry on the topic trie.

use vstd::prelude::*;

use vstd::laws_eq::obeys_concrete_eq;

use crate::codec::types::{qos_value, QoS};
use crate::strings::str_equal;
use crate::topic_matcher::filter::TopicFilter;
use crate::topic_matcher::trie::{derefs, same_slot, strings_view, TopicTrie};
use crate::topic_matcher::validation::{
    levels_match, spec_validate_topic_filter, split_levels, TopicError,
};

verus! {

/// The clients subscribed at one filter, each with its QoS; a client occurs
/// at most once.
#[derive(Debug, Clone, PartialEq)]
pub struct SubscriberSet {
    entries: Vec<(String, QoS)>,
}

/// The entries of a subscriber list, as plain values.
pub open spec fn entries_view(e: Seq<(String, QoS)>) -> Seq<(Seq<char>, QoS)> {
    e.map_values(|x: (String, QoS)| (x.0@, x.1))
}

/// `s` without the entries of client `c`.
pub open spec fn without_client(s: Seq<(Seq<char>, QoS)>, c: Seq<char>) -> Seq<(Seq<char>, QoS)>
    decreases s.len(),
{
    if s.len() == 0 {
        s
    } else if s.last().0 == c {
        without_client(s.drop_last(), c)
    } else {
        without_client(s.drop_last(), c).push(s.last())
    }
}

/// Every client occurs at most once.
pub open spec fn clients_unique(s: Seq<(Seq<char>, QoS)>) -> bool {
    forall|i: int, j: int| 0 <= i < j < s.len() ==> s[i].0 != s[j].0
}

/// Whether client `c` occurs.
pub open spec fn has_client(s: Seq<(Seq<char>, QoS)>, c: Seq<char>) -> bool {
    exists|i: int| 0 <= i < s.len() && s[i].0 == c
}

/// What `without_client` keeps: exactly the entries of other clients.
pub proof fn lemma_without_client(s: Seq<(Seq<char>, QoS)>, c: Seq<char>)
    ensures
        without_client(s, c).len() <= s.len(),
        forall|i: int|
            0 <= i < without_client(s, c).len() ==> #[trigger] without_client(s, c)[i].0 != c,
        forall|x: (Seq<char>, QoS)| without_client(s, c).contains(x) <==> s.contains(x) && x.0 != c,
        clients_unique(s) ==> clients_unique(without_client(s, c)),
        !has_client(s, c) ==> without_client(s, c) == s,
        has_client(s, c) ==> without_client(s, c).len() < s.len(),
        !has_client(without_client(s, c), c),
    decreases s.len(),
{
    if s.len() > 0 {
        let p = s.drop_last();
        lemma_without_client(p, c);
        let w = without_client(p, c);
        assert forall|x: (Seq<char>, QoS)| without_client(s, c).contains(x) <==> s.contains(x) && x.0 != c by {
            if s.contains(x) && x.0 != c {
                let i = choose|i: int| 0 <= i < s.len() && s[i] == x;
                if i < s.len() - 1 {
                    assert(p[i] == x);
                    assert(p.contains(x));
                    assert(w.contains(x));
                    let j = choose|j: int| 0 <= j < w.len() && w[j] == x;
                    assert(without_client(s, c)[j] == x);
                } else {
                    assert(without_client(s, c).last() == x);
                }
            }
            if without_client(s, c).contains(x) {
                let j = choose|j: int| 0 <= j < without_client(s, c).len() && without_client(s, c)[j] == x;
                if j < w.len() {
                    assert(w[j] == x);
                    assert(w.contains(x));
                    assert(p.contains(x));
                    let i = choose|i: int| 0 <= i < p.len() && p[i] == x;
                    assert(s[i] == x);
                } else {
                    assert(s.last() == x);
                    assert(s[s.len() - 1] == x);
                }
            }
        }
        if clients_unique(s) {
            assert(clients_unique(p));
            assert forall|i: int, j: int| 0 <= i < j < without_client(s, c).len() implies without_client(s, c)[i].0 != without_client(s, c)[j].0 by {
                if j == w.len() && s.last().0 != c {
                    assert(w.contains(w[i]));
                    assert(p.contains(w[i]));
                    let a = choose|a: int| 0 <= a < p.len() && p[a] == w[i];
                    assert(s[a].0 != s[s.len() - 1].0);
                }
            }
        }
        if has_client(s, c) {
            let i = choose|i: int| 0 <= i < s.len() && s[i].0 == c;
            if i < s.len() - 1 {
                assert(p[i].0 == c);
                assert(has_client(p, c));
            }
        }
        if has_client(without_client(s, c), c) {
            let i = choose|i: int| 0 <= i < without_client(s, c).len() && without_client(s, c)[i].0 == c;
            assert(false);
        }
        if !has_client(s, c) {
            assert(!has_client(p, c)) by {
                if has_client(p, c) {
                    let i = choose|i: int| 0 <= i < p.len() && p[i].0 == c;
                    assert(s[i].0 == c);
                }
            }
            assert(s.last().0 != c) by {
                assert(s[s.len() - 1].0 != c);
            }
            assert(without_client(s, c) =~= s);
        }
    }
}

impl SubscriberSet {
    /// The entries, as plain values.
    pub closed spec fn view_entries(&self) -> Seq<(Seq<char>, QoS)> {
        entries_view(self.entries@)
    }

    /// A set with one entry.
    pub fn single(client_id: &str, qos: QoS) -> (r: Self)
        ensures
            r.view_entries() == seq![(client_id@, qos)],
    {
        let mut entries = Vec::new();
        entries.push((client_id.to_string(), qos));
        let r = SubscriberSet { entries };
        assert(r.view_entries() =~= seq![(client_id@, qos)]);
        r
    }

    /// The number of entries.
    pub fn len(&self) -> (r: usize)
        ensures
            r == self.view_entries().len(),
    {
        self.entries.len()
    }

    /// Whether there is no entry.
    pub fn is_empty(&self) -> (r: bool)
        ensures
            r == (self.view_entries().len() == 0),
    {
        self.entries.len() == 0
    }

    /// Entry `i`: the client and its QoS.
    pub fn entry(&self, i: usize) -> (r: (&str, QoS))
        requires
            i < self.view_entries().len(),
        ensures
            r.0@ == self.view_entries()[i as int].0,
            r.1 == self.view_entries()[i as int].1,
    {
        (self.entries[i].0.as_str(), self.entries[i].1)
    }

    /// The entries of all clients but `client_id`, in order.
    pub fn without(&self, client_id: &str) -> (r: Self)
        ensures
            r.view_entries() == without_client(self.view_entries(), client_id@),
    {
        let mut entries: Vec<(String, QoS)> = Vec::new();
        let mut i: usize = 0;
        let ghost s = self.view_entries();
        assert(s.take(0) =~= Seq::<(Seq<char>, QoS)>::empty());
        while i < self.entries.len()
            invariant
                i <= self.entries@.len(),
                s == self.view_entries(),
                s.len() == self.entries@.len(),
                entries_view(entries@) == without_client(s.take(i as int), client_id@),
            decreases self.entries@.len() - i,
        {
            assert(s.take(i as int + 1).drop_last() =~= s.take(i as int));
            assert(s[i as int] == (self.entries@[i as int].0@, self.entries@[i as int].1));
            if !str_equal(self.entries[i].0.as_str(), client_id) {
                let ghost before = entries@;
                entries.push((self.entries[i].0.clone(), self.entries[i].1));
                assert(entries_view(entries@) =~= entries_view(before).push(s[i as int]));
            }
            i = i + 1;
        }
        assert(s.take(s.len() as int) =~= s);
        SubscriberSet { entries }
    }

    /// Add an entry at the end.
    pub fn push(&mut self, client_id: &str, qos: QoS)
        ensures
            final(self).view_entries() == old(self).view_entries().push((client_id@, qos)),
    {
        self.entries.push((client_id.to_string(), qos));
        assert(final(self).view_entries() =~= old(self).view_entries().push((client_id@, qos)));
    }
}

/// A subscription entry: a client's subscription to a topic filter.
#[derive(Debug, Clone, PartialEq)]
pub struct Subscription {
    /// The client that owns this subscription.
    pub client_id: String,
    /// The subscribed topic filter.
    pub filter: String,
    /// The maximum QoS level for this subscription.
    pub qos: QoS,
}

/// The index of the last entry keyed `c`, or -1.
pub open spec fn key_index<X>(s: Seq<(Seq<char>, X)>, c: Seq<char>) -> int
    decreases s.len(),
{
    if s.len() == 0 {
        -1
    } else if s.last().0 == c {
        s.len() - 1
    } else {
        key_index(s.drop_last(), c)
    }
}

/// What `key_index` gives: an entry keyed `c`, or -1 when there is none.
pub proof fn lemma_key_index<X>(s: Seq<(Seq<char>, X)>, c: Seq<char>)
    ensures
        -1 <= key_index(s, c) < s.len(),
        key_index(s, c) >= 0 ==> s[key_index(s, c)].0 == c,
        key_index(s, c) < 0 ==> forall|i: int| 0 <= i < s.len() ==> #[trigger] s[i].0 != c,
        forall|i: int| key_index(s, c) < i < s.len() ==> #[trigger] s[i].0 != c,
    decreases s.len(),
{
    if s.len() > 0 {
        lemma_key_index(s.drop_last(), c);
        assert forall|i: int| 0 <= i < s.len() - 1 implies #[trigger] s[i] == s.drop_last()[i] by {}
    }
}

/// Keys are distinct.
pub open spec fn keys_unique<X>(s: Seq<(Seq<char>, X)>) -> bool {
    forall|i: int, j: int| 0 <= i < j < s.len() ==> s[i].0 != s[j].0
}

/// With distinct keys, the entry keyed like entry `i` is entry `i`.
pub(crate) proof fn lemma_key_index_unique<X>(s: Seq<(Seq<char>, X)>, i: int)
    requires
        keys_unique(s),
        0 <= i < s.len(),
    ensures
        key_index(s, s[i].0) == i,
{
    lemma_key_index(s, s[i].0);
}

/// The client table, as plain values.
pub open spec fn clients_view(v: Seq<(String, Vec<String>)>) -> Seq<(Seq<char>, Seq<Seq<char>>)> {
    v.map_values(|x: (String, Vec<String>)| (x.0@, strings_view(x.1@)))
}

/// The filters recorded for client `c` (none when it has no entry).
pub open spec fn recorded_filters(cs: Seq<(Seq<char>, Seq<Seq<char>>)>, c: Seq<char>) -> Seq<Seq<char>> {
    if key_index(cs, c) >= 0 {
        cs[key_index(cs, c)].1
    } else {
        Seq::empty()
    }
}

/// The entries of `matched` sets merged: each client once, where it first
/// occurs, with the highest QoS of its entries.
pub open spec fn merge_highest(e: Seq<(Seq<char>, QoS)>) -> Seq<(Seq<char>, QoS)>
    decreases e.len(),
{
    if e.len() == 0 {
        e
    } else {
        let m = merge_highest(e.drop_last());
        let x = e.last();
        let i = key_index(m, x.0);
        if i < 0 {
            m.push(x)
        } else if qos_value(x.1) > qos_value(m[i].1) {
            m.update(i, (x.0, x.1))
        } else {
            m
        }
    }
}

/// All entries of a list of subscriber sets, in order.
pub open spec fn flatten_sets(sets: Seq<SubscriberSet>) -> Seq<(Seq<char>, QoS)>
    decreases sets.len(),
{
    if sets.len() == 0 {
        Seq::empty()
    } else {
        flatten_sets(sets.drop_last()) + sets.last().view_entries()
    }
}

/// Registry of client subscriptions, with topic matching by the trie.
pub struct SubscriptionRegistry {
    /// Topic trie from filters to the clients subscribed there with their QoS.
    trie: TopicTrie<SubscriberSet>,
    /// Client ID to the filters it subscribed to (for cleanup).
    client_subs: Vec<(String, Vec<String>)>,
}

impl SubscriptionRegistry {
    /// The clients subscribed at the filter levels `k`, with their QoS.
    pub closed spec fn subscribers_at(&self, k: Seq<Seq<char>>) -> Seq<(Seq<char>, QoS)> {
        if self.trie.at(k).len() > 0 {
            self.trie.at(k)[0].view_entries()
        } else {
            Seq::empty()
        }
    }

    /// The subscriber sets that matching the topic levels `t` finds, in the
    /// trie's order.
    pub closed spec fn matched_sets(&self, t: Seq<Seq<char>>) -> Seq<SubscriberSet> {
        self.trie.matched(t)
    }

    /// All stored subscriber sets.
    pub closed spec fn stored_sets(&self) -> Seq<SubscriberSet> {
        self.trie.values()
    }

    /// The client table: each client with the filters it subscribed to.
    pub closed spec fn clients(&self) -> Seq<(Seq<char>, Seq<Seq<char>>)> {
        clients_view(self.client_subs@)
    }

    /// The registry's invariant: a sound trie with at most one subscriber
    /// set per filter, each client once per set, and each client once in the
    /// client table.
    pub closed spec fn wf(&self) -> bool {
        &&& self.trie.wf()
        &&& forall|k: Seq<Seq<char>>| #[trigger] self.trie.at(k).len() <= 1
        &&& forall|k: Seq<Seq<char>>|
            self.trie.at(k).len() == 1 ==> clients_unique(#[trigger] self.trie.at(k)[0].view_entries())
        &&& keys_unique(self.clients())
    }

    /// An empty registry.
    pub fn new() -> (r: Self)
        ensures
            r.wf(),
            forall|k: Seq<Seq<char>>| r.subscribers_at(k).len() == 0,
            r.clients().len() == 0,
    {
        let r = SubscriptionRegistry { trie: TopicTrie::new(), client_subs: Vec::new() };
        assert(r.clients() =~= Seq::<(Seq<char>, Seq<Seq<char>>)>::empty());
        r
    }

    /// The index of client `c` in the client table.
    fn find_client(&self, c: &str) -> (r: Option<usize>)
        ensures
            r matches Some(i) ==> i == key_index(self.clients(), c@),
            r is None ==> key_index(self.clients(), c@) == -1,
    {
        proof {
            lemma_key_index(self.clients(), c@);
        }
        let mut i = self.client_subs.len();
        while i > 0
            invariant
                i <= self.client_subs@.len(),
                forall|j: int| i <= j < self.client_subs@.len() ==> #[trigger] self.clients()[j].0 != c@,
            decreases i,
        {
            if str_equal(self.client_subs[i - 1].0.as_str(), c) {
                proof {
                    lemma_key_index(self.clients(), c@);
                    assert(self.clients()[i - 1].0 == c@);
                }
                return Some(i - 1);
            }
            i = i - 1;
        }
        proof {
            lemma_key_index(self.clients(), c@);
        }
        None
    }

    /// Replace the subscriber set at a filter (whose slot holds at most one
    /// set) by `set`, or clear the slot when `set` is empty.
    fn put_set(&mut self, filter: &str, set: SubscriberSet)
        requires
            old(self).wf(),
            clients_unique(set.view_entries()),
        ensures
            final(self).wf(),
            final(self).clients() == old(self).clients(),
            forall|q: Seq<Seq<char>>| #[trigger] final(self).subscribers_at(q) == if same_slot(q, split_levels(filter@)) {
                set.view_entries()
            } else {
                old(self).subscribers_at(q)
            },
    {
        let ghost k = split_levels(filter@);
        let ghost before = self.trie;
        self.trie.remove_filter(filter);
        let ghost mid = self.trie;
        if !set.is_empty() {
            proof {
                crate::topic_matcher::trie::lemma_same_slot_refl(k);
            }
            self.trie.insert(filter, set);
        }
        proof {
            assert forall|q: Seq<Seq<char>>| #[trigger] self.trie.at(q).len() <= 1 && (self.trie.at(q).len() == 1 ==> clients_unique(self.trie.at(q)[0].view_entries())) by {
                assert(mid.at(q).len() <= 1);
                assert(before.at(q).len() <= 1);
            }
            assert forall|q: Seq<Seq<char>>| #[trigger] self.subscribers_at(q) == if same_slot(q, k) {
                set.view_entries()
            } else {
                old(self).subscribers_at(q)
            } by {
                if same_slot(q, k) && set.view_entries().len() > 0 {
                    assert(self.trie.at(q) == mid.at(q).push(set));
                }
            }
        }
    }
}

/// `fs` with `f` added at the end unless it is there.
pub open spec fn add_unique(fs: Seq<Seq<char>>, f: Seq<char>) -> Seq<Seq<char>> {
    if fs.contains(f) {
        fs
    } else {
        fs.push(f)
    }
}

/// The client table after recording filter `f` for client `c`.
pub open spec fn record(cs: Seq<(Seq<char>, Seq<Seq<char>>)>, c: Seq<char>, f: Seq<char>) -> Seq<(Seq<char>, Seq<Seq<char>>)> {
    let i = key_index(cs, c);
    if i >= 0 {
        cs.update(i, (c, add_unique(cs[i].1, f)))
    } else {
        cs.push((c, seq![f]))
    }
}

/// `fs` without `f`.
pub open spec fn without_text(fs: Seq<Seq<char>>, f: Seq<char>) -> Seq<Seq<char>>
    decreases fs.len(),
{
    if fs.len() == 0 {
        fs
    } else if fs.last() == f {
        without_text(fs.drop_last(), f)
    } else {
        without_text(fs.drop_last(), f).push(fs.last())
    }
}

/// The client table after forgetting filter `f` of client `c`; a client left
/// without filters leaves the table.
pub open spec fn forget(cs: Seq<(Seq<char>, Seq<Seq<char>>)>, c: Seq<char>, f: Seq<char>) -> Seq<(Seq<char>, Seq<Seq<char>>)> {
    let i = key_index(cs, c);
    if i < 0 {
        cs
    } else if without_text(cs[i].1, f).len() == 0 {
        cs.remove(i)
    } else {
        cs.update(i, (c, without_text(cs[i].1, f)))
    }
}

/// The client table without client `c`.
pub open spec fn drop_key(cs: Seq<(Seq<char>, Seq<Seq<char>>)>, c: Seq<char>) -> Seq<(Seq<char>, Seq<Seq<char>>)> {
    let i = key_index(cs, c);
    if i < 0 {
        cs
    } else {
        cs.remove(i)
    }
}

/// Removing an entry keeps keys distinct.
pub(crate) proof fn lemma_remove_keeps_unique<X>(s: Seq<(Seq<char>, X)>, i: int)
    requires
        keys_unique(s),
        0 <= i < s.len(),
    ensures
        keys_unique(s.remove(i)),
{
    assert forall|a: int, b: int| 0 <= a < b < s.remove(i).len() implies s.remove(i)[a].0 != s.remove(i)[b].0 by {
        let a2 = if a < i { a } else { a + 1 };
        let b2 = if b < i { b } else { b + 1 };
        assert(s.remove(i)[a] == s[a2]);
        assert(s.remove(i)[b] == s[b2]);
    }
}

/// True when `fs` holds `f`.
fn texts_contain(fs: &Vec<String>, f: &str) -> (r: bool)
    ensures
        r == strings_view(fs@).contains(f@),
{
    let mut i: usize = 0;
    while i < fs.len()
        invariant
            i <= fs@.len(),
            forall|j: int| 0 <= j < i ==> #[trigger] strings_view(fs@)[j] != f@,
        decreases fs@.len() - i,
    {
        if str_equal(fs[i].as_str(), f) {
            assert(strings_view(fs@)[i as int] == f@);
            return true;
        }
        i = i + 1;
    }
    false
}

/// `fs` without `f`, in order.
fn texts_without(fs: &Vec<String>, f: &str) -> (r: Vec<String>)
    ensures
        strings_view(r@) == without_text(strings_view(fs@), f@),
{
    let ghost s = strings_view(fs@);
    let mut r: Vec<String> = Vec::new();
    let mut i: usize = 0;
    assert(s.take(0) =~= Seq::<Seq<char>>::empty());
    while i < fs.len()
        invariant
            i <= fs@.len(),
            s == strings_view(fs@),
            strings_view(r@) == without_text(s.take(i as int), f@),
        decreases fs@.len() - i,
    {
        assert(s.take(i as int + 1).drop_last() =~= s.take(i as int));
        if !str_equal(fs[i].as_str(), f) {
            let ghost before = r@;
            r.push(fs[i].clone());
            assert(strings_view(r@) =~= strings_view(before).push(s[i as int]));
        }
        i = i + 1;
    }
    assert(s.take(s.len() as int) =~= s);
    r
}

impl SubscriptionRegistry {
    /// Record filter `filter` for client `client_id`.
    fn record_filter(&mut self, client_id: &str, filter: &str)
        requires
            keys_unique(old(self).clients()),
        ensures
            final(self).trie == old(self).trie,
            final(self).clients() == record(old(self).clients(), client_id@, filter@),
            keys_unique(final(self).clients()),
    {
        let ghost cs = self.clients();
        proof {
            lemma_key_index(cs, client_id@);
        }
        match self.find_client(client_id) {
            Some(i) => {
                let (c, mut fs) = self.client_subs.remove(i);
                if !texts_contain(&fs, filter) {
                    fs.push(filter.to_string());
                    assert(strings_view(fs@) =~= strings_view(old(self).client_subs@[i as int].1@).push(filter@));
                }
                self.client_subs.insert(i, (c, fs));
                assert(self.clients() =~= record(cs, client_id@, filter@));
                assert forall|a: int, b: int| 0 <= a < b < self.clients().len() implies self.clients()[a].0 != self.clients()[b].0 by {
                    assert(cs[a].0 != cs[b].0);
                }
            },
            None => {
                let mut fs: Vec<String> = Vec::new();
                fs.push(filter.to_string());
                self.client_subs.push((client_id.to_string(), fs));
                assert(strings_view(fs@) =~= seq![filter@]);
                assert(self.clients() =~= record(cs, client_id@, filter@));
                assert forall|a: int, b: int| 0 <= a < b < self.clients().len() implies self.clients()[a].0 != self.clients()[b].0 by {
                    if b < cs.len() {
                        assert(cs[a].0 != cs[b].0);
                    }
                }
            },
        }
    }

    /// Forget filter `filter` of client `client_id`; the client leaves the
    /// table when it has no filter left.
    fn forget_filter(&mut self, client_id: &str, filter: &str)
        requires
            keys_unique(old(self).clients()),
        ensures
            final(self).trie == old(self).trie,
            final(self).clients() == forget(old(self).clients(), client_id@, filter@),
            keys_unique(final(self).clients()),
    {
        let ghost cs = self.clients();
        proof {
            lemma_key_index(cs, client_id@);
        }
        match self.find_client(client_id) {
            Some(i) => {
                let (c, fs) = self.client_subs.remove(i);
                let rest = texts_without(&fs, filter);
                if rest.len() == 0 {
                    assert(self.clients() =~= cs.remove(i as int));
                    proof {
                        lemma_remove_keeps_unique(cs, i as int);
                    }
                } else {
                    self.client_subs.insert(i, (c, rest));
                    assert(self.clients() =~= cs.update(i as int, (client_id@, without_text(cs[i as int].1, filter@))));
                    assert forall|a: int, b: int| 0 <= a < b < self.clients().len() implies self.clients()[a].0 != self.clients()[b].0 by {
                        assert(cs[a].0 != cs[b].0);
                    }
                }
            },
            None => {},
        }
    }

    /// Remove client `client_id` from the table, returning its filters.
    fn take_client(&mut self, client_id: &str) -> (r: Vec<String>)
        requires
            keys_unique(old(self).clients()),
        ensures
            final(self).trie == old(self).trie,
            final(self).clients() == drop_key(old(self).clients(), client_id@),
            strings_view(r@) == recorded_filters(old(self).clients(), client_id@),
            keys_unique(final(self).clients()),
    {
        let ghost cs = self.clients();
        proof {
            lemma_key_index(cs, client_id@);
        }
        match self.find_client(client_id) {
            Some(i) => {
                let (_c, fs) = self.client_subs.remove(i);
                assert(self.clients() =~= cs.remove(i as int));
                proof {
                    lemma_remove_keeps_unique(cs, i as int);
                }
                fs
            },
            None => Vec::new(),
        }
    }
}

/// The subscriptions of client `c` at filter `f`, from the entries `s`: one
/// per entry of `c`.
pub open spec fn entries_for(s: Seq<(Seq<char>, QoS)>, c: Seq<char>, f: Seq<char>) -> Seq<(Seq<char>, Seq<char>, QoS)>
    decreases s.len(),
{
    if s.len() == 0 {
        Seq::empty()
    } else if s.last().0 == c {
        entries_for(s.drop_last(), c, f).push((c, f, s.last().1))
    } else {
        entries_for(s.drop_last(), c, f)
    }
}

/// A list of subscriptions, as plain values.
pub open spec fn subscriptions_view(v: Seq<Subscription>) -> Seq<(Seq<char>, Seq<char>, QoS)> {
    v.map_values(|x: Subscription| (x.client_id@, x.filter@, x.qos))
}

/// The sum of the sizes of subscriber sets.
pub open spec fn total_entries(sets: Seq<SubscriberSet>) -> nat
    decreases sets.len(),
{
    if sets.len() == 0 {
        0
    } else {
        total_entries(sets.drop_last()) + sets.last().view_entries().len()
    }
}

/// The entry keyed `c` in a list of (client, QoS) results.
pub(crate) fn find_entry(v: &Vec<(String, QoS)>, c: &str) -> (r: Option<usize>)
    ensures
        r matches Some(i) ==> i == key_index(entries_view(v@), c@),
        r is None ==> key_index(entries_view(v@), c@) == -1,
{
    let ghost e = entries_view(v@);
    let mut i = v.len();
    while i > 0
        invariant
            i <= v@.len(),
            e == entries_view(v@),
            forall|j: int| i <= j < v@.len() ==> #[trigger] e[j].0 != c@,
        decreases i,
    {
        if str_equal(v[i - 1].0.as_str(), c) {
            proof {
                lemma_key_index(e, c@);
                assert(e[i - 1].0 == c@);
            }
            return Some(i - 1);
        }
        i = i - 1;
    }
    proof {
        lemma_key_index(e, c@);
    }
    None
}

impl SubscriptionRegistry {
    /// Subscribe a client to a topic filter with the given QoS, replacing the
    /// client's QoS there if it was subscribed already. Returns the granted
    /// QoS (the requested one); an invalid filter is refused.
    pub fn subscribe(&mut self, client_id: &str, filter: &str, qos: QoS) -> (r: Result<QoS, TopicError>)
        requires
            old(self).wf(),
        ensures
            final(self).wf(),
            match spec_validate_topic_filter(filter@) {
                Err(e) => r matches Err(x) && x@ == e && *final(self) == *old(self),
                Ok(()) => r == Ok::<QoS, TopicError>(qos) && subscribe_effect(
                    *old(self),
                    *final(self),
                    client_id@,
                    filter@,
                    qos,
                ),
            },
    {
        // Validate the filter
        let topic_filter = match TopicFilter::new(filter) {
            Err(e) => return Err(e),
            Ok(f) => f,
        };
        let filter_str = topic_filter.as_str();
        let ghost k = split_levels(filter@);
        // The subscribers there, without any earlier entry of this client
        let mut set = match self.trie.get(filter_str) {
            Some(current) => current.without(client_id),
            None => SubscriberSet { entries: Vec::new() },
        };
        proof {
            if self.trie.at(k).len() > 0 {
                lemma_without_client(self.subscribers_at(k), client_id@);
            } else {
                assert(set.view_entries() =~= without_client(self.subscribers_at(k), client_id@));
            }
        }
        set.push(client_id, qos);
        proof {
            let w = without_client(self.subscribers_at(k), client_id@);
            assert forall|i: int, j: int| 0 <= i < j < set.view_entries().len() implies set.view_entries()[i].0 != set.view_entries()[j].0 by {
                if j == w.len() {
                    assert(w[i].0 != client_id@);
                }
            }
        }
        self.put_set(filter_str, set);
        let ghost mid = *self;
        // Track the client's subscriptions
        self.record_filter(client_id, filter_str);
        assert forall|q: Seq<Seq<char>>| #[trigger] self.subscribers_at(q) == mid.subscribers_at(q) by {}
        Ok(qos)
    }

    /// Drop client `client_id` from the subscriber set at `filter`; returns
    /// whether it was there.
    fn drop_from_filter(&mut self, client_id: &str, filter: &str) -> (r: bool)
        requires
            old(self).wf(),
        ensures
            final(self).wf(),
            final(self).clients() == old(self).clients(),
            r == has_client(old(self).subscribers_at(split_levels(filter@)), client_id@),
            forall|q: Seq<Seq<char>>| #[trigger] final(self).subscribers_at(q) == if same_slot(q, split_levels(filter@)) {
                without_client(old(self).subscribers_at(split_levels(filter@)), client_id@)
            } else {
                old(self).subscribers_at(q)
            },
    {
        let ghost k = split_levels(filter@);
        let found = match self.trie.get(filter) {
            Some(current) => Some((current.without(client_id), current.len())),
            None => None,
        };
        proof {
            lemma_without_client(self.subscribers_at(k), client_id@);
        }
        match found {
            Some((rest, before)) => {
                let removed = rest.len() < before;
                self.put_set(filter, rest);
                removed
            },
            None => {
                proof {
                    assert forall|q: Seq<Seq<char>>| #[trigger] self.subscribers_at(q) == if same_slot(q, k) {
                        without_client(self.subscribers_at(k), client_id@)
                    } else {
                        self.subscribers_at(q)
                    } by {
                        if same_slot(q, k) {
                            self.trie.lemma_same_slot_at(q, k);
                        }
                    }
                }
                false
            },
        }
    }

    /// Unsubscribe a client from a topic filter. Returns true if the
    /// subscription existed and was removed.
    pub fn unsubscribe(&mut self, client_id: &str, filter: &str) -> (r: bool)
        requires
            old(self).wf(),
        ensures
            final(self).wf(),
            unsubscribe_effect(*old(self), *final(self), client_id@, filter@, r),
    {
        let removed = self.drop_from_filter(client_id, filter);
        let ghost mid = *self;
        // Remove from client tracking
        if removed {
            self.forget_filter(client_id, filter);
        }
        assert forall|q: Seq<Seq<char>>| #[trigger] self.subscribers_at(q) == mid.subscribers_at(q) by {}
        removed
    }

    /// Remove all subscriptions of a client. Returns the filters it was
    /// subscribed to.
    pub fn remove_client(&mut self, client_id: &str) -> (r: Vec<String>)
        requires
            old(self).wf(),
        ensures
            final(self).wf(),
            remove_client_effect(*old(self), *final(self), client_id@, strings_view(r@)),
    {
        let filters = self.take_client(client_id);
        let ghost mid = *self;
        let ghost fs = strings_view(filters@);
        assert forall|q: Seq<Seq<char>>| #[trigger] self.subscribers_at(q) == old(self).subscribers_at(q) by {}
        let mut i: usize = 0;
        while i < filters.len()
            invariant
                i <= filters@.len(),
                fs == strings_view(filters@),
                self.wf(),
                self.clients() == mid.clients(),
                mid.wf(),
                forall|q: Seq<Seq<char>>| #[trigger] self.subscribers_at(q) == if covered(q, fs, i as int) {
                    without_client(mid.subscribers_at(q), client_id@)
                } else {
                    mid.subscribers_at(q)
                },
            decreases filters@.len() - i,
        {
            let ghost before = *self;
            let ghost k = split_levels(fs[i as int]);
            self.drop_from_filter(client_id, filters[i].as_str());
            proof {
                assert forall|q: Seq<Seq<char>>| #[trigger] self.subscribers_at(q) == if covered(q, fs, i + 1) {
                    without_client(mid.subscribers_at(q), client_id@)
                } else {
                    mid.subscribers_at(q)
                } by {
                    lemma_covered_step(q, fs, i as int);
                    if same_slot(q, k) {
                        mid.trie.lemma_same_slot_at(q, k);
                        lemma_without_client(mid.subscribers_at(q), client_id@);
                        lemma_without_client(without_client(mid.subscribers_at(q), client_id@), client_id@);
                        assert(mid.subscribers_at(q) == mid.subscribers_at(k));
                    }
                }
            }
            i = i + 1;
        }
        filters
    }

    /// All subscribers matching a topic name: each client once, in the order
    /// first matched, with its highest QoS over the matching subscriptions.
    pub fn get_subscribers(&self, topic: &str) -> (r: Vec<(String, QoS)>)
        ensures
            entries_view(r@) == merge_highest(flatten_sets(self.matched_sets(split_levels(topic@)))),
    {
        let matches = self.trie.get_matching(topic);
        let ghost sets = derefs(matches@);
        let mut result: Vec<(String, QoS)> = Vec::new();
        let mut i: usize = 0;
        assert(sets.take(0) =~= Seq::<SubscriberSet>::empty());
        while i < matches.len()
            invariant
                i <= matches@.len(),
                sets == derefs(matches@),
                sets.len() == matches@.len(),
                entries_view(result@) == merge_highest(flatten_sets(sets.take(i as int))),
            decreases matches@.len() - i,
        {
            let set = matches[i];
            let ghost base = flatten_sets(sets.take(i as int));
            assert(*set == sets[i as int]);
            let mut j: usize = 0;
            assert(base + set.view_entries().take(0) =~= base);
            while j < set.len()
                invariant
                    j <= set.view_entries().len(),
                    entries_view(result@) == merge_highest(base + set.view_entries().take(j as int)),
                decreases set.view_entries().len() - j,
            {
                let (client_id, qos) = set.entry(j);
                let ghost e = base + set.view_entries().take(j as int);
                assert((base + set.view_entries().take(j as int + 1)).drop_last() =~= e);
                assert((base + set.view_entries().take(j as int + 1)).last() == (client_id@, qos));
                let ghost m = entries_view(result@);
                match find_entry(&result, client_id) {
                    None => {
                        result.push((client_id.to_string(), qos));
                        assert(entries_view(result@) =~= m.push((client_id@, qos)));
                    },
                    Some(k) => {
                        proof {
                            lemma_key_index(m, client_id@);
                        }
                        if qos.value() > result[k].1.value() {
                            let (c, _old) = result.remove(k);
                            result.insert(k, (c, qos));
                            assert(entries_view(result@) =~= m.update(k as int, (client_id@, qos)));
                        }
                    },
                }
                j = j + 1;
            }
            assert(set.view_entries().take(set.view_entries().len() as int) =~= set.view_entries());
            assert(sets.take(i as int + 1).drop_last() =~= sets.take(i as int));
            i = i + 1;
        }
        assert(sets.take(sets.len() as int) =~= sets);
        result
    }

    /// All subscriptions of a client: for each filter recorded for it, in
    /// order, its entries in the subscriber set there.
    pub fn get_client_subscriptions(&self, client_id: &str) -> (r: Vec<Subscription>)
        ensures
            subscriptions_view(r@) == self.listed(
                client_id@,
                recorded_filters(self.clients(), client_id@),
            ),
    {
        let mut subs: Vec<Subscription> = Vec::new();
        let idx = match self.find_client(client_id) {
            Some(i) => i,
            None => {
                assert(subscriptions_view(subs@) =~= self.listed(client_id@, Seq::empty()));
                return subs;
            },
        };
        proof {
            lemma_key_index(self.clients(), client_id@);
        }
        let filters = &self.client_subs[idx].1;
        let ghost fs = strings_view(filters@);
        assert(fs == recorded_filters(self.clients(), client_id@));
        let mut i: usize = 0;
        assert(fs.take(0) =~= Seq::<Seq<char>>::empty());
        assert(subscriptions_view(subs@) =~= self.listed(client_id@, fs.take(0)));
        while i < filters.len()
            invariant
                i <= filters@.len(),
                fs == strings_view(filters@),
                subscriptions_view(subs@) == self.listed(client_id@, fs.take(i as int)),
            decreases filters@.len() - i,
        {
            let filter = &filters[i];
            assert(fs.take(i as int + 1).drop_last() =~= fs.take(i as int));
            assert(fs.take(i as int + 1).last() == filter@);
            let ghost base = subscriptions_view(subs@);
            match self.trie.get(filter.as_str()) {
                Some(set) => {
                    let ghost s = set.view_entries();
                    let mut j: usize = 0;
                    assert(s.take(0) =~= Seq::<(Seq<char>, QoS)>::empty());
                    while j < set.len()
                        invariant
                            j <= s.len(),
                            s == set.view_entries(),
                            subscriptions_view(subs@) == base + entries_for(s.take(j as int), client_id@, filter@),
                        decreases s.len() - j,
                    {
                        let (id, qos) = set.entry(j);
                        assert(s.take(j as int + 1).drop_last() =~= s.take(j as int));
                        if str_equal(id, client_id) {
                            let ghost before = subs@;
                            subs.push(Subscription { client_id: client_id.to_string(), filter: filter.clone(), qos });
                            assert(subscriptions_view(subs@) =~= subscriptions_view(before).push((client_id@, filter@, qos)));
                        }
                        j = j + 1;
                    }
                    assert(s.take(s.len() as int) =~= s);
                },
                None => {
                    assert(entries_for(Seq::empty(), client_id@, filter@) =~= Seq::<(Seq<char>, Seq<char>, QoS)>::empty());
                    assert(subscriptions_view(subs@) =~= base + entries_for(Seq::empty(), client_id@, filter@));
                },
            }
            i = i + 1;
        }
        assert(fs.take(fs.len() as int) =~= fs);
        subs
    }

    /// The subscriptions of client `c` at the filters `fs`, filter by filter.
    pub closed spec fn listed(&self, c: Seq<char>, fs: Seq<Seq<char>>) -> Seq<(Seq<char>, Seq<char>, QoS)>
        decreases fs.len(),
    {
        if fs.len() == 0 {
            Seq::empty()
        } else {
            self.listed(c, fs.drop_last()) + entries_for(self.subscribers_at(split_levels(fs.last())), c, fs.last())
        }
    }

    /// The total number of subscriptions (entries of all subscriber sets),
    /// capped at `usize::MAX`.
    pub fn subscription_count(&self) -> (r: usize)
        ensures
            r == crate::topic_matcher::trie::capped_usize(total_entries(self.stored_sets())),
    {
        let values = self.trie.iter_values();
        let ghost sets = derefs(values@);
        let mut count: usize = 0;
        let mut i: usize = 0;
        assert(sets.take(0) =~= Seq::<SubscriberSet>::empty());
        while i < values.len()
            invariant
                i <= values@.len(),
                sets == derefs(values@),
                count == crate::topic_matcher::trie::capped_usize(total_entries(sets.take(i as int))),
            decreases values@.len() - i,
        {
            assert(sets.take(i as int + 1).drop_last() =~= sets.take(i as int));
            count = count.saturating_add(values[i].len());
            i = i + 1;
        }
        assert(sets.take(sets.len() as int) =~= sets);
        count
    }

    /// The number of clients with subscriptions.
    pub fn client_count(&self) -> (r: usize)
        ensures
            r == self.clients().len(),
    {
        self.client_subs.len()
    }

    /// Whether a client has any subscriptions.
    pub fn has_subscriptions(&self, client_id: &str) -> (r: bool)
        ensures
            r == (key_index(self.clients(), client_id@) >= 0),
    {
        self.find_client(client_id).is_some()
    }
}

impl Default for SubscriptionRegistry {
    fn default() -> (r: Self)
        ensures
            r.wf(),
            forall|k: Seq<Seq<char>>| r.subscribers_at(k).len() == 0,
            r.clients().len() == 0,
    {
        SubscriptionRegistry::new()
    }
}

/// Some of the first `n` filters of `fs` addresses the same list as `q`.
pub open spec fn covered(q: Seq<Seq<char>>, fs: Seq<Seq<char>>, n: int) -> bool {
    exists|j: int| 0 <= j < n && same_slot(q, #[trigger] split_levels(fs[j]))
}

proof fn lemma_covered_step(q: Seq<Seq<char>>, fs: Seq<Seq<char>>, n: int)
    requires
        0 <= n,
    ensures
        covered(q, fs, n + 1) == (covered(q, fs, n) || same_slot(q, split_levels(fs[n]))),
{
    if covered(q, fs, n + 1) {
        let j = choose|j: int| 0 <= j < n + 1 && same_slot(q, #[trigger] split_levels(fs[j]));
        if j < n {
            assert(covered(q, fs, n));
        }
    }
    if covered(q, fs, n) {
        let j = choose|j: int| 0 <= j < n && same_slot(q, #[trigger] split_levels(fs[j]));
        assert(0 <= j < n + 1 && same_slot(q, split_levels(fs[j])));
    }
    if same_slot(q, split_levels(fs[n])) {
        assert(0 <= n < n + 1 && same_slot(q, split_levels(fs[n])));
    }
}

/// The highest QoS of client `c` among the entries `e` (0 when absent).
pub open spec fn highest_qos(e: Seq<(Seq<char>, QoS)>, c: Seq<char>) -> u8
    decreases e.len(),
{
    if e.len() == 0 {
        0
    } else {
        let h = highest_qos(e.drop_last(), c);
        if e.last().0 == c && qos_value(e.last().1) > h {
            qos_value(e.last().1)
        } else {
            h
        }
    }
}

/// Merging keeps each client once, keeps exactly the clients of the
/// entries, and gives each its highest QoS.
pub proof fn lemma_merge_highest(e: Seq<(Seq<char>, QoS)>, c: Seq<char>)
    ensures
        keys_unique(merge_highest(e)),
        has_client(merge_highest(e), c) <==> has_client(e, c),
        has_client(e, c) ==> qos_value(merge_highest(e)[key_index(merge_highest(e), c)].1) == highest_qos(e, c),
    decreases e.len(),
{
    if e.len() > 0 {
        let p = e.drop_last();
        let x = e.last();
        let m = merge_highest(p);
        lemma_merge_highest(p, c);
        lemma_merge_highest(p, x.0);
        lemma_key_index(m, x.0);
        lemma_key_index(m, c);
        let i = key_index(m, x.0);
        let m2 = merge_highest(e);
        assert(e.drop_last() == p);
        // the keys stay distinct
        assert forall|a: int, b: int| 0 <= a < b < m2.len() implies m2[a].0 != m2[b].0 by {
            if i < 0 && b == m.len() {
                assert(m[a].0 != x.0);
            } else {
                assert(m2[a].0 == m[a].0);
                assert(m2[b].0 == m[b].0);
            }
        }
        // the clients are those of the entries
        if has_client(m2, c) {
            let j = choose|j: int| 0 <= j < m2.len() && m2[j].0 == c;
            if j < m.len() && m2[j].0 == m[j].0 {
                assert(has_client(m, c));
                let k = choose|k: int| 0 <= k < p.len() && p[k].0 == c;
                assert(e[k].0 == c);
            } else {
                assert(e[e.len() - 1].0 == c);
            }
        }
        if has_client(e, c) {
            let k = choose|k: int| 0 <= k < e.len() && e[k].0 == c;
            if k < p.len() {
                assert(p[k].0 == c);
                assert(has_client(m, c));
                let j = choose|j: int| 0 <= j < m.len() && m[j].0 == c;
                assert(m2[j].0 == c);
            } else {
                if i < 0 {
                    assert(m2[m.len() as int].0 == c);
                } else {
                    assert(m2[i].0 == c);
                }
            }
            // the QoS is the highest
            lemma_key_index(m2, c);
            let h = highest_qos(p, c);
            if has_client(p, c) {
                if x.0 == c {
                    assert(key_index(m2, c) == i) by {
                        lemma_key_index_unique(m2, i);
                    }
                } else {
                    let ic = key_index(m, c);
                    assert(m2[ic] == m[ic]);
                    assert(key_index(m2, c) == ic) by {
                        lemma_key_index_unique(m2, ic);
                    }
                }
            } else {
                assert(x.0 == c);
                assert(h == 0) by {
                    lemma_highest_absent(p, c);
                }
                if i >= 0 {
                    assert(m[i].0 == c);
                    assert(has_client(m, c));
                }
                assert(key_index(m2, c) == m.len()) by {
                    lemma_key_index_unique(m2, m.len() as int);
                }
            }
        }
    }
}

/// Without entries of `c`, its highest QoS is 0.
proof fn lemma_highest_absent(e: Seq<(Seq<char>, QoS)>, c: Seq<char>)
    requires
        !has_client(e, c),
    ensures
        highest_qos(e, c) == 0,
    decreases e.len(),
{
    if e.len() > 0 {
        assert(!has_client(e.drop_last(), c)) by {
            if has_client(e.drop_last(), c) {
                let k = choose|k: int| 0 <= k < e.drop_last().len() && e.drop_last()[k].0 == c;
                assert(e[k].0 == c);
            }
        }
        lemma_highest_absent(e.drop_last(), c);
        assert(e[e.len() - 1].0 != c);
    }
}

/// A client occurs in the entries of a list of sets exactly when it occurs
/// in one of the sets.
proof fn lemma_flatten_has_client(sets: Seq<SubscriberSet>, c: Seq<char>)
    ensures
        has_client(flatten_sets(sets), c) <==> exists|i: int|
            0 <= i < sets.len() && has_client(#[trigger] sets[i].view_entries(), c),
    decreases sets.len(),
{
    if sets.len() > 0 {
        let p = sets.drop_last();
        lemma_flatten_has_client(p, c);
        let a = flatten_sets(p);
        let b = sets.last().view_entries();
        let f = flatten_sets(sets);
        assert(f == a + b);
        if has_client(f, c) {
            let k = choose|k: int| 0 <= k < f.len() && f[k].0 == c;
            if k < a.len() {
                assert(a[k].0 == c);
                assert(has_client(a, c));
                let i = choose|i: int| 0 <= i < p.len() && has_client(#[trigger] p[i].view_entries(), c);
                assert(sets[i] == p[i]);
            } else {
                assert(b[k - a.len()].0 == c);
                assert(has_client(sets[sets.len() - 1].view_entries(), c));
            }
        }
        if exists|i: int| 0 <= i < sets.len() && has_client(#[trigger] sets[i].view_entries(), c) {
            let i = choose|i: int| 0 <= i < sets.len() && has_client(#[trigger] sets[i].view_entries(), c);
            if i < p.len() {
                assert(p[i] == sets[i]);
                assert(has_client(a, c));
                let k = choose|k: int| 0 <= k < a.len() && a[k].0 == c;
                assert(f[k].0 == c);
            } else {
                let k = choose|k: int| 0 <= k < b.len() && b[k].0 == c;
                assert(f[a.len() + k].0 == c);
            }
        }
    }
}

impl SubscriptionRegistry {
    /// The subscribers of a topic are each client once, exactly the clients
    /// subscribed under a filter that matches the topic, each with its
    /// highest QoS among the matching subscriptions.
    pub proof fn lemma_get_subscribers(&self, t: Seq<Seq<char>>, c: Seq<char>)
        requires
            self.wf(),
        ensures
            keys_unique(merge_highest(flatten_sets(self.matched_sets(t)))),
            has_client(merge_highest(flatten_sets(self.matched_sets(t))), c) <==> exists|k: Seq<Seq<char>>|
                levels_match(k, t) && has_client(#[trigger] self.subscribers_at(k), c),
            has_client(flatten_sets(self.matched_sets(t)), c) ==> qos_value(
                merge_highest(flatten_sets(self.matched_sets(t)))[key_index(
                    merge_highest(flatten_sets(self.matched_sets(t))),
                    c,
                )].1,
            ) == highest_qos(flatten_sets(self.matched_sets(t)), c),
    {
        let sets = self.matched_sets(t);
        lemma_merge_highest(flatten_sets(sets), c);
        lemma_flatten_has_client(sets, c);
        if has_client(flatten_sets(sets), c) {
            let i = choose|i: int| 0 <= i < sets.len() && has_client(#[trigger] sets[i].view_entries(), c);
            assert(sets.contains(sets[i]));
            self.trie.lemma_matches(t, sets[i]);
            let k = choose|k: Seq<Seq<char>>| levels_match(k, t) && #[trigger] self.trie.at(k).contains(sets[i]);
            assert(self.trie.at(k).len() <= 1);
            let j = choose|j: int| 0 <= j < self.trie.at(k).len() && self.trie.at(k)[j] == sets[i];
            assert(self.subscribers_at(k) == sets[i].view_entries());
        }
        if exists|k: Seq<Seq<char>>| levels_match(k, t) && has_client(#[trigger] self.subscribers_at(k), c) {
            let k = choose|k: Seq<Seq<char>>| levels_match(k, t) && has_client(#[trigger] self.subscribers_at(k), c);
            let set = self.trie.at(k)[0];
            assert(self.trie.at(k).contains(set));
            self.trie.lemma_matches(t, set);
            assert(sets.contains(set));
            let i = choose|i: int| 0 <= i < sets.len() && sets[i] == set;
            assert(has_client(sets[i].view_entries(), c));
        }
    }
}

/// What subscribing client `c` to filter `f` at `qos` does: at the filter,
/// the client's earlier entry (if any) gives way to `(c, qos)` at the end;
/// the filter is recorded for the client.
pub open spec fn subscribe_effect(
    old: SubscriptionRegistry,
    new: SubscriptionRegistry,
    c: Seq<char>,
    f: Seq<char>,
    qos: QoS,
) -> bool {
    &&& forall|q: Seq<Seq<char>>| #[trigger] new.subscribers_at(q) == if same_slot(q, split_levels(f)) {
        without_client(old.subscribers_at(split_levels(f)), c).push((c, qos))
    } else {
        old.subscribers_at(q)
    }
    &&& new.clients() == record(old.clients(), c, f)
}

/// What unsubscribing client `c` from filter `f` does (`r`: whether it was
/// subscribed there): its entry at the filter goes, and when it was there
/// the filter is forgotten for the client.
pub open spec fn unsubscribe_effect(
    old: SubscriptionRegistry,
    new: SubscriptionRegistry,
    c: Seq<char>,
    f: Seq<char>,
    r: bool,
) -> bool {
    &&& r == has_client(old.subscribers_at(split_levels(f)), c)
    &&& forall|q: Seq<Seq<char>>| #[trigger] new.subscribers_at(q) == if same_slot(q, split_levels(f)) {
        without_client(old.subscribers_at(split_levels(f)), c)
    } else {
        old.subscribers_at(q)
    }
    &&& new.clients() == if r {
        forget(old.clients(), c, f)
    } else {
        old.clients()
    }
}

/// What removing client `c` does (`fs`: the filters returned): its filters
/// are those recorded for it, it leaves the client table, and its entries go
/// at every one of those filters.
pub open spec fn remove_client_effect(
    old: SubscriptionRegistry,
    new: SubscriptionRegistry,
    c: Seq<char>,
    fs: Seq<Seq<char>>,
) -> bool {
    &&& fs == recorded_filters(old.clients(), c)
    &&& new.clients() == drop_key(old.clients(), c)
    &&& forall|q: Seq<Seq<char>>| #[trigger] new.subscribers_at(q) == if covered(q, fs, fs.len() as int) {
        without_client(old.subscribers_at(q), c)
    } else {
        old.subscribers_at(q)
    }
}

} // verus!
