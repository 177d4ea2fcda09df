//! Topic trie for subscription matching.
//!
//! Each node holds the subscribers whose filter ends at it, those whose
//! filter ends with `+` below it and those whose filter ends with `#` below
//! it, and its children by topic level. Matching a topic visits one path per
//! way of matching its levels, so the work grows with the topic's depth, not
//! with the number of subscriptions.

use vstd::prelude::*;
use vstd::multiset::Multiset;
use vstd::seq_lib::lemma_flatten_concat;

use vstd::laws_eq::obeys_concrete_eq;

use crate::topic_matcher::validation::{
    chars_of, hash_level, level_is, levels_match, plus_level, split_levels, strs_view,
    topic_levels,
};

verus! {

/// A trie node.
pub struct TrieNode<V> {
    /// Subscribers whose filter ends at this node.
    subscribers: Vec<V>,
    /// Subscribers whose filter ends with `+` one level below.
    single_wild_subscribers: Vec<V>,
    /// Subscribers whose filter ends with `#` one level below.
    multi_wild_subscribers: Vec<V>,
    /// Children by topic level.
    children: Vec<(String, TrieNode<V>)>,
}

/// The index of the first of the first `n` children labelled `level`, or -1.
pub open spec fn index_in<V>(ch: Seq<(String, TrieNode<V>)>, level: Seq<char>, n: nat) -> int
    decreases n,
{
    if n == 0 {
        -1
    } else {
        let j = index_in(ch, level, (n - 1) as nat);
        if j >= 0 {
            j
        } else if ch[n - 1].0@ == level {
            n - 1
        } else {
            -1
        }
    }
}

/// The number of values stored below the first `n` children.
spec fn child_sum<V>(ch: Seq<(String, TrieNode<V>)>, n: int) -> int
    decreases n,
{
    if n <= 0 {
        0
    } else {
        child_sum(ch, n - 1) + ch[n - 1].1.all_values().len()
    }
}

/// Replacing child `j` changes the sum by the difference of the two.
proof fn lemma_child_sum_update<V>(ch: Seq<(String, TrieNode<V>)>, j: int, x: (String, TrieNode<V>), n: int)
    requires
        0 <= j < ch.len(),
        0 <= n <= ch.len(),
    ensures
        child_sum(ch.update(j, x), n) == child_sum(ch, n) + (if j < n {
            x.1.all_values().len() - ch[j].1.all_values().len()
        } else {
            0
        }),
    decreases n,
{
    if n > 0 {
        lemma_child_sum_update(ch, j, x, n - 1);
    }
}

/// The sum over a prefix only depends on that prefix.
proof fn lemma_child_sum_prefix<V>(a: Seq<(String, TrieNode<V>)>, b: Seq<(String, TrieNode<V>)>, n: int)
    requires
        0 <= n <= a.len(),
        n <= b.len(),
        forall|i: int| 0 <= i < n ==> #[trigger] a[i] == b[i],
    ensures
        child_sum(a, n) == child_sum(b, n),
    decreases n,
{
    if n > 0 {
        lemma_child_sum_prefix(a, b, n - 1);
    }
}

/// Removing child `j` takes its values out of the sum.
proof fn lemma_child_sum_remove<V>(ch: Seq<(String, TrieNode<V>)>, j: int, n: int)
    requires
        0 <= j < n <= ch.len(),
    ensures
        child_sum(ch.remove(j), n - 1) == child_sum(ch, n) - ch[j].1.all_values().len(),
    decreases n,
{
    if n - 1 > j {
        lemma_child_sum_remove(ch, j, n - 1);
        assert(ch.remove(j)[n - 2] == ch[n - 1]);
    } else {
        lemma_child_sum_prefix(ch.remove(j), ch, j);
    }
}

/// The filter levels `ks`, each under the level `l`.
pub open spec fn prefixed(l: Seq<char>, ks: Seq<Seq<Seq<char>>>) -> Seq<Seq<Seq<char>>> {
    ks.map_values(|k: Seq<Seq<char>>| seq![l] + k)
}

/// The index of the first child labelled `level`, or -1.
pub open spec fn child_index<V>(ch: Seq<(String, TrieNode<V>)>, level: Seq<char>) -> int {
    index_in(ch, level, ch.len())
}

impl<V> TrieNode<V> {
    /// The subscribers stored for the filter levels `k` below this node.
    /// Levels after a `#` do not count: `#` ends a filter.
    pub closed spec fn lookup(self, k: Seq<Seq<char>>) -> Seq<V>
        decreases self, k.len(),
    {
        if k.len() == 0 {
            self.subscribers@
        } else if k[0] == hash_level() {
            self.multi_wild_subscribers@
        } else if k[0] == plus_level() && k.len() == 1 {
            self.single_wild_subscribers@
        } else {
            let j = child_index(self.children@, k[0]);
            if 0 <= j < self.children@.len() {
                proof {
                    assert(decreases_to!(self => self.children@[j].1));
                }
                self.children@[j].1.lookup(k.drop_first())
            } else {
                Seq::empty()
            }
        }
    }

    /// The subscribers that matching the topic levels `t` collects below this
    /// node, in the order the matching visits them.
    pub closed spec fn collect(self, t: Seq<Seq<char>>) -> Seq<V>
        decreases self, t.len(),
    {
        let ch = self.children@;
        let wild = child_index(ch, plus_level());
        let exact = if t.len() > 0 {
            child_index(ch, t[0])
        } else {
            -1
        };
        self.multi_wild_subscribers@ + if t.len() == 0 {
            self.subscribers@
        } else {
            (if t.len() == 1 {
                self.single_wild_subscribers@
            } else {
                Seq::empty()
            }) + (if 0 <= wild < ch.len() {
                proof {
                    assert(decreases_to!(self => ch[wild].1));
                }
                ch[wild].1.collect(t.drop_first())
            } else {
                Seq::empty()
            }) + (if 0 <= exact < ch.len() {
                proof {
                    assert(decreases_to!(self => ch[exact].1));
                }
                ch[exact].1.collect(t.drop_first())
            } else {
                Seq::empty()
            })
        }
    }

    /// This node's own lists, then the values below its first `n` children.
    pub closed spec fn values_upto(self, n: int) -> Seq<V>
        decreases self, n,
    {
        if n <= 0 {
            self.subscribers@ + self.single_wild_subscribers@ + self.multi_wild_subscribers@
        } else if n - 1 < self.children@.len() {
            proof {
                assert(decreases_to!(self => self.children@[n - 1].1));
            }
            self.values_upto(n - 1) + self.children@[n - 1].1.values_upto(
                self.children@[n - 1].1.children@.len() as int,
            )
        } else {
            self.values_upto(n - 1)
        }
    }

    /// Every value stored at or below this node, this node's lists first,
    /// then each child's in order.
    pub closed spec fn all_values(self) -> Seq<V> {
        self.values_upto(self.children@.len() as int)
    }

    /// The number of values in this node's own lists.
    spec fn own_len(self) -> nat {
        self.subscribers@.len() + self.single_wild_subscribers@.len() + self.multi_wild_subscribers@.len()
    }

    /// The values up to child `n`: the own lists' and the first `n`
    /// children's.
    proof fn lemma_values_upto_len(self, n: int)
        requires
            0 <= n <= self.children@.len(),
        ensures
            self.values_upto(n).len() == self.own_len() + child_sum(self.children@, n),
        decreases n,
    {
        if n > 0 {
            self.lemma_values_upto_len(n - 1);
        }
    }

    /// The number of values at or below this node.
    proof fn lemma_all_values_len(self)
        ensures
            self.all_values().len() == self.own_len() + child_sum(self.children@, self.children@.len() as int),
    {
        self.lemma_values_upto_len(self.children@.len() as int);
    }

    /// Replacing child `j` by `c` changes the number of values by the
    /// difference of the two children's.
    proof fn lemma_len_child_update(a: Self, b: Self, j: int, c: Self)
        requires
            0 <= j < a.children@.len(),
            b.own_len() == a.own_len(),
            b.children@ == a.children@.update(j, (a.children@[j].0, c)),
        ensures
            b.all_values().len() == a.all_values().len() - a.children@[j].1.all_values().len()
                + c.all_values().len(),
    {
        a.lemma_all_values_len();
        b.lemma_all_values_len();
        lemma_child_sum_update(a.children@, j, (a.children@[j].0, c), a.children@.len() as int);
    }

    /// Removing child `j` takes its values away.
    proof fn lemma_len_child_remove(a: Self, b: Self, j: int)
        requires
            0 <= j < a.children@.len(),
            b.own_len() == a.own_len(),
            b.children@ == a.children@.remove(j),
        ensures
            b.all_values().len() == a.all_values().len() - a.children@[j].1.all_values().len(),
    {
        a.lemma_all_values_len();
        b.lemma_all_values_len();
        lemma_child_sum_remove(a.children@, j, a.children@.len() as int);
    }

    /// Adding a child adds its values.
    proof fn lemma_len_child_push(a: Self, b: Self, x: (String, Self))
        requires
            b.own_len() == a.own_len(),
            b.children@ == a.children@.push(x),
        ensures
            b.all_values().len() == a.all_values().len() + x.1.all_values().len(),
    {
        a.lemma_all_values_len();
        b.lemma_all_values_len();
        lemma_child_sum_prefix(a.children@, b.children@, a.children@.len() as int);
    }

    /// Nodes with the same children and own lists as long as `o`'s hold as
    /// many values; so do nodes that differ from `o` only in child `ci`,
    /// which holds as many values.
    proof fn lemma_same_shape_len(o: Self, ci: int)
        ensures
            forall|n: Self|
                #![trigger n.all_values()]
                n.children@ == o.children@ && n.own_len() == o.own_len() ==> n.all_values().len()
                    == o.all_values().len(),
            0 <= ci < o.children@.len() ==> forall|n: Self|
                #![trigger n.all_values()]
                n.own_len() == o.own_len() && n.children@ == o.children@.update(
                    ci,
                    (o.children@[ci].0, n.children@[ci].1),
                ) && n.children@[ci].1.all_values().len() == o.children@[ci].1.all_values().len()
                    ==> n.all_values().len() == o.all_values().len(),
    {
        assert forall|n: Self|
            n.children@ == o.children@ && n.own_len() == o.own_len() implies #[trigger] n.all_values().len()
                == o.all_values().len() by {
            n.lemma_all_values_len();
            o.lemma_all_values_len();
        }
        if 0 <= ci < o.children@.len() {
            assert forall|n: Self|
                n.own_len() == o.own_len() && n.children@ == o.children@.update(
                    ci,
                    (o.children@[ci].0, n.children@[ci].1),
                ) && n.children@[ci].1.all_values().len() == o.children@[ci].1.all_values().len()
                implies #[trigger] n.all_values().len() == o.all_values().len() by {
                TrieNode::lemma_len_child_update(o, n, ci, n.children@[ci].1);
            }
        }
    }

    /// A node that holds nothing holds no value.
    proof fn lemma_nothing_no_values(self)
        requires
            self.subscribers@.len() == 0,
            self.single_wild_subscribers@.len() == 0,
            self.multi_wild_subscribers@.len() == 0,
            self.children@.len() == 0,
        ensures
            self.all_values().len() == 0,
    {
        self.lemma_all_values_len();
    }

    /// Children carry distinct labels, none of them `#`; a `+` child holds
    /// no subscribers of its own; and so on down.
    pub closed spec fn wf(self) -> bool
        decreases self,
    {
        &&& forall|i: int, j: int|
            0 <= i < j < self.children@.len() ==> self.children@[i].0@ != self.children@[j].0@
        &&& forall|i: int|
            0 <= i < self.children@.len() ==> #[trigger] self.children@[i].0@ != hash_level()
        &&& forall|i: int|
            0 <= i < self.children@.len() && self.children@[i].0@ == plus_level()
                ==> self.children@[i].1.subscribers@.len() == 0
        &&& forall|i: int|
            0 <= i < self.children@.len() ==> (#[trigger] self.children@[i]).1.wf()
    }

    /// An empty node.
    fn new() -> (r: Self)
        ensures
            r.wf(),
            forall|k: Seq<Seq<char>>| r.lookup(k).len() == 0,
            r.all_values().len() == 0,
    {
        let r = TrieNode {
            subscribers: Vec::new(),
            single_wild_subscribers: Vec::new(),
            multi_wild_subscribers: Vec::new(),
            children: Vec::new(),
        };
        assert forall|k: Seq<Seq<char>>| r.lookup(k).len() == 0 by {
            assert(child_index(r.children@, k[0]) == -1) by {
                reveal_with_fuel(index_in, 1);
            }
        }
        proof {
            r.lemma_nothing_no_values();
        }
        r
    }
}

/// What `index_in` gives: the first index below `n` with the label, or -1
/// when there is none.
proof fn lemma_index_in<V>(ch: Seq<(String, TrieNode<V>)>, level: Seq<char>, n: nat)
    requires
        n <= ch.len(),
    ensures
        -1 <= index_in(ch, level, n) < n,
        index_in(ch, level, n) >= 0 ==> ch[index_in(ch, level, n)].0@ == level,
        forall|i: int|
            0 <= i < n && (index_in(ch, level, n) < 0 || i < index_in(ch, level, n))
                ==> #[trigger] ch[i].0@ != level,
    decreases n,
{
    if n > 0 {
        lemma_index_in(ch, level, (n - 1) as nat);
    }
}

/// The first child labelled `level`, from the labels alone.
proof fn lemma_child_index<V>(ch: Seq<(String, TrieNode<V>)>, level: Seq<char>)
    ensures
        -1 <= child_index(ch, level) < ch.len(),
        child_index(ch, level) >= 0 ==> ch[child_index(ch, level)].0@ == level,
        forall|i: int|
            0 <= i < ch.len() && (child_index(ch, level) < 0 || i < child_index(ch, level))
                ==> #[trigger] ch[i].0@ != level,
{
    lemma_index_in(ch, level, ch.len());
}

/// Two child lists with the same labels find the same child.
proof fn lemma_child_index_labels<V>(
    a: Seq<(String, TrieNode<V>)>,
    b: Seq<(String, TrieNode<V>)>,
    level: Seq<char>,
)
    requires
        a.len() == b.len(),
        forall|i: int| 0 <= i < a.len() ==> #[trigger] a[i].0@ == b[i].0@,
    ensures
        child_index(a, level) == child_index(b, level),
{
    lemma_child_index(a, level);
    lemma_child_index(b, level);
    let ia = child_index(a, level);
    let ib = child_index(b, level);
    if ia >= 0 && ib >= 0 {
        if ia < ib {
            assert(b[ia].0@ == level);
        } else if ib < ia {
            assert(a[ib].0@ == level);
        }
    } else if ia >= 0 {
        assert(b[ia].0@ == level);
    } else if ib >= 0 {
        assert(a[ib].0@ == level);
    }
}

/// With distinct labels, the child labelled like child `j` is child `j`.
proof fn lemma_child_index_unique<V>(ch: Seq<(String, TrieNode<V>)>, j: int)
    requires
        0 <= j < ch.len(),
        forall|a: int, b: int| 0 <= a < b < ch.len() ==> ch[a].0@ != ch[b].0@,
    ensures
        child_index(ch, ch[j].0@) == j,
{
    lemma_child_index(ch, ch[j].0@);
    let i = child_index(ch, ch[j].0@);
    if i != j {
        if i >= 0 && i < j {
            assert(ch[i].0@ == ch[j].0@);
        }
    }
}

/// The filter levels `q` and `k` address the same subscriber list.
pub open spec fn same_slot(q: Seq<Seq<char>>, k: Seq<Seq<char>>) -> bool
    decreases q.len(),
{
    if q.len() == 0 || k.len() == 0 {
        q.len() == 0 && k.len() == 0
    } else if q[0] == hash_level() || k[0] == hash_level() {
        q[0] == hash_level() && k[0] == hash_level()
    } else if (q[0] == plus_level() && q.len() == 1) || (k[0] == plus_level() && k.len() == 1) {
        q[0] == plus_level() && q.len() == 1 && k[0] == plus_level() && k.len() == 1
    } else {
        q[0] == k[0] && same_slot(q.drop_first(), k.drop_first())
    }
}

/// Every filter addresses its own list.
pub proof fn lemma_same_slot_refl(k: Seq<Seq<char>>)
    ensures
        same_slot(k, k),
    decreases k.len(),
{
    if k.len() > 0 {
        lemma_same_slot_refl(k.drop_first());
    }
}

/// True when `v` holds `x`; exact when `==` on `V` is equality.
fn vec_contains<V: PartialEq>(v: &Vec<V>, x: &V) -> (r: bool)
    ensures
        obeys_concrete_eq::<V>() ==> r == v@.contains(*x),
        v@.len() == 0 ==> !r,
{
    let mut i: usize = 0;
    while i < v.len()
        invariant
            i <= v@.len(),
            obeys_concrete_eq::<V>() ==> forall|j: int| 0 <= j < i ==> v@[j] != *x,
        decreases v@.len() - i,
    {
        proof {
            reveal(obeys_concrete_eq);
        }
        if v[i] == *x {
            return true;
        }
        i = i + 1;
    }
    false
}

/// Add `x` to `v` unless `v` holds it already; true when added.
fn push_new<V: PartialEq>(v: &mut Vec<V>, x: V) -> (r: bool)
    ensures
        r ==> final(v)@ == old(v)@.push(x),
        !r ==> final(v)@ == old(v)@,
        old(v)@.len() == 0 ==> r,
        obeys_concrete_eq::<V>() ==> r == !old(v)@.contains(x),
{
    if vec_contains(v, &x) {
        return false;
    }
    v.push(x);
    true
}

impl<V: PartialEq> TrieNode<V> {
    /// The index of the first child labelled `level`.
    fn find_child(&self, level: &str) -> (r: Option<usize>)
        ensures
            r matches Some(j) ==> j == child_index(self.children@, level@),
            r is None ==> child_index(self.children@, level@) == -1,
    {
        let mut i: usize = 0;
        while i < self.children.len()
            invariant
                i <= self.children@.len(),
                index_in(self.children@, level@, i as nat) == -1,
            decreases self.children@.len() - i,
        {
            if crate::strings::str_equal(self.children[i].0.as_str(), level) {
                proof {
                    lemma_index_in(self.children@, level@, i as nat);
                    lemma_child_index(self.children@, level@);
                }
                return Some(i);
            }
            i = i + 1;
        }
        proof {
            lemma_child_index(self.children@, level@);
        }
        None
    }
}

/// `new` is `old` with `v` added to the list of the filter levels `k` when
/// `r` (and only then): when that list was empty, or (where `==` on `V` is
/// equality) when it did not hold `v`.
pub open spec fn inserted<V: PartialEq>(old: TrieNode<V>, new: TrieNode<V>, k: Seq<Seq<char>>, v: V, r: bool) -> bool {
    &&& forall|q: Seq<Seq<char>>|
        #[trigger] new.lookup(q) == (if same_slot(q, k) && r {
            old.lookup(q).push(v)
        } else {
            old.lookup(q)
        })
    &&& (old.lookup(k).len() == 0 ==> r)
    &&& (obeys_concrete_eq::<V>() ==> r == !old.lookup(k).contains(v))
}

impl<V: PartialEq> TrieNode<V> {
    /// Adding an empty child with a new label changes no list.
    proof fn lemma_push_child(old: Self, new: Self, level: Seq<char>)
        requires
            old.wf(),
            child_index(old.children@, level) == -1,
            level != hash_level(),
            new.subscribers@ == old.subscribers@,
            new.single_wild_subscribers@ == old.single_wild_subscribers@,
            new.multi_wild_subscribers@ == old.multi_wild_subscribers@,
            new.children@.len() == old.children@.len() + 1,
            new.children@.drop_last() == old.children@,
            new.children@.last().0@ == level,
            new.children@.last().1.wf(),
            forall|k: Seq<Seq<char>>| new.children@.last().1.lookup(k).len() == 0,
        ensures
            new.wf(),
            forall|q: Seq<Seq<char>>| #[trigger] new.lookup(q) == old.lookup(q),
            child_index(new.children@, level) == old.children@.len(),
    {
        let n = old.children@.len();
        lemma_child_index(old.children@, level);
        assert forall|i: int| 0 <= i < n implies #[trigger] new.children@[i] == old.children@[i] by {
            assert(new.children@.drop_last()[i] == old.children@[i]);
        }
        lemma_child_index(new.children@, level);
        assert(new.children@.last().1.lookup(Seq::empty()).len() == 0);
        assert forall|a: int, b: int| 0 <= a < b < new.children@.len() implies new.children@[a].0@
            != new.children@[b].0@ by {
            if b == n {
                assert(old.children@[a].0@ != level);
            }
        }
        assert forall|i: int| 0 <= i < new.children@.len() implies (#[trigger] new.children@[i]).1.wf() by {
            if i < n {
                assert(old.children@[i].1.wf());
            }
        }
        assert(new.wf());
        assert forall|q: Seq<Seq<char>>| #[trigger] new.lookup(q) == old.lookup(q) by {
            if q.len() > 0 && q[0] != hash_level() && !(q[0] == plus_level() && q.len() == 1) {
                lemma_child_index(new.children@, q[0]);
                lemma_child_index(old.children@, q[0]);
                if q[0] == level {
                    assert(new.children@.last().1.lookup(q.drop_first()).len() == 0);
                } else {
                    let a = child_index(new.children@, q[0]);
                    let b = child_index(old.children@, q[0]);
                    if a >= 0 && a < n {
                        assert(new.children@[a].0@ == q[0]);
                    }
                    if b >= 0 {
                        assert(new.children@[b].0@ == q[0]);
                    }
                    assert(a == b);
                }
            }
        }
    }

    /// Replacing child `j` by one with the same label, into which `v` was
    /// inserted under the rest of `k`, inserts `v` under `k`.
    proof fn lemma_replace_child(
        old: Self,
        new: Self,
        j: int,
        c2: Self,
        k: Seq<Seq<char>>,
        v: V,
        r: bool,
    )
        requires
            old.wf(),
            0 <= j < old.children@.len(),
            new.subscribers@ == old.subscribers@,
            new.single_wild_subscribers@ == old.single_wild_subscribers@,
            new.multi_wild_subscribers@ == old.multi_wild_subscribers@,
            new.children@ == old.children@.update(j, (old.children@[j].0, c2)),
            k.len() > 0,
            old.children@[j].0@ == k[0],
            k[0] != hash_level(),
            !(k[0] == plus_level() && k.len() == 1),
            c2.wf(),
            inserted(old.children@[j].1, c2, k.drop_first(), v, r),
        ensures
            new.wf(),
            inserted(old, new, k, v, r),
    {
        let oc = old.children@;
        let nc = new.children@;
        assert forall|i: int| 0 <= i < oc.len() implies #[trigger] nc[i].0@ == oc[i].0@ by {}
        lemma_child_index_unique(oc, j);
        // the `+` child keeps no subscribers of its own
        if k[0] == plus_level() {
            assert(k.drop_first().len() > 0);
            assert(!same_slot(Seq::<Seq<char>>::empty(), k.drop_first()));
            assert(c2.lookup(Seq::empty()) == old.children@[j].1.lookup(Seq::empty()));
        }
        assert forall|i: int| 0 <= i < nc.len() implies (#[trigger] nc[i]).1.wf() by {
            if i != j {
                assert(nc[i] == oc[i]);
            }
        }
        assert(new.wf());
        assert forall|q: Seq<Seq<char>>| #[trigger] new.lookup(q) == (if same_slot(q, k) && r {
            old.lookup(q).push(v)
        } else {
            old.lookup(q)
        }) by {
            if q.len() > 0 && q[0] != hash_level() && !(q[0] == plus_level() && q.len() == 1) {
                lemma_child_index_labels(nc, oc, q[0]);
                lemma_child_index(oc, q[0]);
                let a = child_index(oc, q[0]);
                if a == j {
                    assert(c2.lookup(q.drop_first()) == (if same_slot(q.drop_first(), k.drop_first()) && r {
                        oc[j].1.lookup(q.drop_first()).push(v)
                    } else {
                        oc[j].1.lookup(q.drop_first())
                    }));
                } else if a >= 0 {
                    assert(nc[a] == oc[a]);
                    assert(q[0] != k[0]);
                }
            }
        }
        assert(old.lookup(k) == oc[j].1.lookup(k.drop_first()));
    }
}

/// `new` is `old` with the first value stored for the filter levels `k`
/// replaced by `v`; every other list is unchanged.
pub open spec fn replaced_first<V>(old: TrieNode<V>, new: TrieNode<V>, k: Seq<Seq<char>>, v: V) -> bool {
    forall|q: Seq<Seq<char>>|
        #[trigger] new.lookup(q) == (if same_slot(q, k) {
            old.lookup(q).update(0, v)
        } else {
            old.lookup(q)
        })
}

/// `new` stores the same lists as `old`.
pub open spec fn same_lists<V>(old: TrieNode<V>, new: TrieNode<V>) -> bool {
    forall|q: Seq<Seq<char>>| #[trigger] new.lookup(q) == old.lookup(q)
}

/// `new` is `old` with child `j` replaced by a well-formed node under the
/// same label.
spec fn child_updated<V>(old: TrieNode<V>, new: TrieNode<V>, j: int) -> bool {
    &&& new.subscribers@ == old.subscribers@
    &&& new.single_wild_subscribers@ == old.single_wild_subscribers@
    &&& new.multi_wild_subscribers@ == old.multi_wild_subscribers@
    &&& new.children@ == old.children@.update(j, (old.children@[j].0, new.children@[j].1))
    &&& new.children@[j].1.wf()
}

/// The first element of a vector, mutably.
fn first_mut<V>(v: &mut Vec<V>) -> (r: Option<&mut V>)
    ensures
        r is Some ==> old(v)@.len() > 0 && *r->0 == old(v)@[0] && final(v)@ == old(v)@.update(
            0,
            *final(r->0),
        ),
        r is None ==> old(v)@.len() == 0 && *final(v) == *old(v),
{
    if v.len() == 0 {
        None
    } else {
        Some(&mut v[0])
    }
}

impl<V: PartialEq> TrieNode<V> {
    /// Replacing the first value at `k` in child `j` replaces it at the
    /// child's label and `k` here.
    proof fn lemma_replace_child_first(old: Self, new: Self, j: int, c2: Self, k: Seq<Seq<char>>, v: V)
        requires
            old.wf(),
            0 <= j < old.children@.len(),
            new.subscribers@ == old.subscribers@,
            new.single_wild_subscribers@ == old.single_wild_subscribers@,
            new.multi_wild_subscribers@ == old.multi_wild_subscribers@,
            new.children@ == old.children@.update(j, (old.children@[j].0, c2)),
            k.len() > 0,
            old.children@[j].0@ == k[0],
            k[0] != hash_level(),
            !(k[0] == plus_level() && k.len() == 1),
            c2.wf(),
            replaced_first(old.children@[j].1, c2, k.drop_first(), v),
        ensures
            new.wf(),
            replaced_first(old, new, k, v),
    {
        let oc = old.children@;
        let nc = new.children@;
        assert forall|i: int| 0 <= i < oc.len() implies #[trigger] nc[i].0@ == oc[i].0@ by {}
        lemma_child_index_unique(oc, j);
        // the `+` child keeps no subscribers of its own
        if k[0] == plus_level() {
            assert(k.drop_first().len() > 0);
            assert(!same_slot(Seq::<Seq<char>>::empty(), k.drop_first()));
            assert(c2.lookup(Seq::empty()) == old.children@[j].1.lookup(Seq::empty()));
        }
        assert forall|i: int| 0 <= i < nc.len() implies (#[trigger] nc[i]).1.wf() by {
            if i != j {
                assert(nc[i] == oc[i]);
            }
        }
        assert(new.wf());
        assert forall|q: Seq<Seq<char>>| #[trigger] new.lookup(q) == (if same_slot(q, k) {
            old.lookup(q).update(0, v)
        } else {
            old.lookup(q)
        }) by {
            if q.len() > 0 && q[0] != hash_level() && !(q[0] == plus_level() && q.len() == 1) {
                lemma_child_index_labels(nc, oc, q[0]);
                lemma_child_index(oc, q[0]);
                let a = child_index(oc, q[0]);
                if a == j {
                    assert(c2.lookup(q.drop_first()) == (if same_slot(q.drop_first(), k.drop_first()) {
                        oc[j].1.lookup(q.drop_first()).update(0, v)
                    } else {
                        oc[j].1.lookup(q.drop_first())
                    }));
                } else if a >= 0 {
                    assert(nc[a] == oc[a]);
                    assert(q[0] != k[0]);
                }
            }
        }
    }

    /// Replacing the first value of one of this node's own lists replaces
    /// the first value at the filter levels `k` that lead to that list.
    proof fn lemma_replace_own_first(old: Self, k: Seq<Seq<char>>)
        requires
            k.len() == 0 || k[0] == hash_level() || (k[0] == plus_level() && k.len() == 1),
        ensures
            forall|new: Self, v: V|
                #![trigger replaced_first(old, new, k, v)]
                new.children@ == old.children@ && (if k.len() == 0 {
                    new.subscribers@ == old.subscribers@.update(0, v)
                        && new.multi_wild_subscribers@ == old.multi_wild_subscribers@
                        && new.single_wild_subscribers@ == old.single_wild_subscribers@
                } else if k[0] == hash_level() {
                    new.multi_wild_subscribers@ == old.multi_wild_subscribers@.update(0, v)
                        && new.subscribers@ == old.subscribers@
                        && new.single_wild_subscribers@ == old.single_wild_subscribers@
                } else {
                    new.single_wild_subscribers@ == old.single_wild_subscribers@.update(0, v)
                        && new.subscribers@ == old.subscribers@
                        && new.multi_wild_subscribers@ == old.multi_wild_subscribers@
                }) ==> replaced_first(old, new, k, v),
    {
        assert forall|new: Self, v: V|
            new.children@ == old.children@ && (if k.len() == 0 {
                new.subscribers@ == old.subscribers@.update(0, v)
                    && new.multi_wild_subscribers@ == old.multi_wild_subscribers@
                    && new.single_wild_subscribers@ == old.single_wild_subscribers@
            } else if k[0] == hash_level() {
                new.multi_wild_subscribers@ == old.multi_wild_subscribers@.update(0, v)
                    && new.subscribers@ == old.subscribers@
                    && new.single_wild_subscribers@ == old.single_wild_subscribers@
            } else {
                new.single_wild_subscribers@ == old.single_wild_subscribers@.update(0, v)
                    && new.subscribers@ == old.subscribers@
                    && new.multi_wild_subscribers@ == old.multi_wild_subscribers@
            }) implies replaced_first(old, new, k, v) by {
            assert forall|q: Seq<Seq<char>>| #[trigger] new.lookup(q) == (if same_slot(q, k) {
                old.lookup(q).update(0, v)
            } else {
                old.lookup(q)
            }) by {
                if q.len() > 0 && q[0] != hash_level() && !(q[0] == plus_level() && q.len() == 1) {
                    assert(new.lookup(q) == old.lookup(q));
                }
            }
        }
    }

    /// Through child `j`: what the child's first value replacement (or no
    /// change) does, seen from this node.
    proof fn lemma_child_first_all(o: Self, ci: int, k: Seq<Seq<char>>)
        requires
            o.wf(),
            0 <= ci < o.children@.len(),
            k.len() > 0,
            o.children@[ci].0@ == k[0],
            k[0] != hash_level(),
            !(k[0] == plus_level() && k.len() == 1),
        ensures
            forall|n: TrieNode<V>, v: V|
                #![trigger replaced_first(o, n, k, v)]
                child_updated(o, n, ci) && replaced_first(o.children@[ci].1, n.children@[ci].1, k.drop_first(), v)
                    ==> replaced_first(o, n, k, v),
            forall|n: TrieNode<V>|
                #![trigger same_lists(o, n)]
                child_updated(o, n, ci) && same_lists(o.children@[ci].1, n.children@[ci].1)
                    ==> same_lists(o, n),
    {
        assert forall|n: TrieNode<V>, v: V|
            child_updated(o, n, ci) && replaced_first(o.children@[ci].1, n.children@[ci].1, k.drop_first(), v)
            implies #[trigger] replaced_first(o, n, k, v) by {
            TrieNode::lemma_replace_child_first(o, n, ci, n.children@[ci].1, k, v);
        }
        assert forall|n: TrieNode<V>|
            #![trigger same_lists(o, n)]
            child_updated(o, n, ci) && same_lists(o.children@[ci].1, n.children@[ci].1)
            implies same_lists(o, n) by {
            let oc = o.children@;
            let nc = n.children@;
            let c2 = nc[ci].1;
            assert forall|i: int| 0 <= i < oc.len() implies #[trigger] nc[i].0@ == oc[i].0@ by {}
            lemma_child_index_unique(oc, ci);
            if k[0] == plus_level() {
                assert(c2.lookup(Seq::empty()) == oc[ci].1.lookup(Seq::empty()));
            }
            assert forall|i: int| 0 <= i < nc.len() implies (#[trigger] nc[i]).1.wf() by {
                if i != ci {
                    assert(nc[i] == oc[i]);
                }
            }
            assert forall|q: Seq<Seq<char>>| #[trigger] n.lookup(q) == o.lookup(q) by {
                if q.len() > 0 && q[0] != hash_level() && !(q[0] == plus_level() && q.len() == 1) {
                    lemma_child_index_labels(nc, oc, q[0]);
                    lemma_child_index(oc, q[0]);
                    let a = child_index(oc, q[0]);
                    if a == ci {
                        assert(c2.lookup(q.drop_first()) == oc[ci].1.lookup(q.drop_first()));
                    } else if a >= 0 {
                        assert(nc[a] == oc[a]);
                    }
                }
            }
        }
    }

    /// The first value stored under the filter levels from `index` on,
    /// mutably.
    fn get_mut_recursive<'a>(&'a mut self, levels: &Vec<&str>, index: usize) -> (r: Option<&'a mut V>)
        requires
            old(self).wf(),
            index <= levels@.len(),
        ensures
            ({
                let k = strs_view(levels@).skip(index as int);
                if r is Some {
                    &&& old(self).lookup(k).len() > 0
                    &&& *r->0 == old(self).lookup(k)[0]
                    &&& replaced_first(*old(self), *final(self), k, *final(r->0))
                    &&& final(self).wf()
                } else {
                    &&& old(self).lookup(k).len() == 0
                    &&& same_lists(*old(self), *final(self))
                    &&& final(self).wf()
                }
            }),
            final(self).subscribers@.len() == old(self).subscribers@.len(),
            final(self).all_values().len() == old(self).all_values().len(),
        decreases levels@.len() - index,
    {
        let ghost k = strs_view(levels@).skip(index as int);
        proof {
            reveal_strlit("#");
            reveal_strlit("+");
            assert("#"@ =~= seq!['#']);
            assert("+"@ =~= seq!['+']);
        }
        if index >= levels.len() {
            proof {
                TrieNode::lemma_replace_own_first(*self, k);
                TrieNode::lemma_same_shape_len(*self, 0);
            }
            return first_mut(&mut self.subscribers);
        }
        let level = levels[index];
        assert(k[0] == level@);
        if level_is(level, "#", '#') {
            proof {
                TrieNode::lemma_replace_own_first(*self, k);
                TrieNode::lemma_same_shape_len(*self, 0);
            }
            return first_mut(&mut self.multi_wild_subscribers);
        }
        if level_is(level, "+", '+') && index == levels.len() - 1 {
            proof {
                TrieNode::lemma_replace_own_first(*self, k);
                TrieNode::lemma_same_shape_len(*self, 0);
            }
            return first_mut(&mut self.single_wild_subscribers);
        }
        proof {
            lemma_child_index(self.children@, level@);
        }
        match self.find_child(level) {
            None => None,
            Some(j) => {
                proof {
                    assert(strs_view(levels@).skip(index as int + 1) =~= k.drop_first());
                }
                proof {
                    TrieNode::lemma_child_first_all(*self, j as int, k);
                    TrieNode::lemma_same_shape_len(*self, j as int);
                }
                let child = &mut self.children[j].1;
                child.get_mut_recursive(levels, index + 1)
            },
        }
    }
}

impl<V: PartialEq> TrieNode<V> {
    /// Insert `subscriber` under the filter levels from `index` on.
    fn insert_recursive(&mut self, levels: &Vec<&str>, index: usize, subscriber: V) -> (r: bool)
        requires
            old(self).wf(),
            index <= levels@.len(),
        ensures
            final(self).wf(),
            inserted(*old(self), *final(self), strs_view(levels@).skip(index as int), subscriber, r),
            final(self).all_values().len() == old(self).all_values().len() + (if r {
                1int
            } else {
                0int
            }),
        decreases levels@.len() - index,
    {
        let ghost k = strs_view(levels@).skip(index as int);
        let ghost old_node = *self;
        proof {
            reveal_strlit("#");
            reveal_strlit("+");
            assert("#"@ =~= seq!['#']);
            assert("+"@ =~= seq!['+']);
        }
        // Reached the end of the filter
        if index >= levels.len() {
            let r = push_new(&mut self.subscribers, subscriber);
            assert(inserted(old_node, *self, k, subscriber, r));
            proof {
                old_node.lemma_all_values_len();
                self.lemma_all_values_len();
            }
            return r;
        }
        let level = levels[index];
        assert(k[0] == level@);
        if level_is(level, "#", '#') {
            // Multi-level wildcard: stored here, it ends the filter
            let r = push_new(&mut self.multi_wild_subscribers, subscriber);
            assert(inserted(old_node, *self, k, subscriber, r));
            proof {
                old_node.lemma_all_values_len();
                self.lemma_all_values_len();
            }
            return r;
        }
        if level_is(level, "+", '+') && index == levels.len() - 1 {
            // Single-level wildcard as the last level
            let r = push_new(&mut self.single_wild_subscribers, subscriber);
            assert(inserted(old_node, *self, k, subscriber, r));
            proof {
                old_node.lemma_all_values_len();
                self.lemma_all_values_len();
            }
            return r;
        }
        // Exact level, or `+` with more levels after it: into the child
        let j: usize = match self.find_child(level) {
            Some(j) => {
                proof {
                    lemma_child_index(self.children@, level@);
                }
                j
            },
            None => {
                let ghost before = *self;
                self.children.push((level.to_string(), TrieNode::new()));
                proof {
                    assert(self.children@.drop_last() =~= before.children@);
                    TrieNode::lemma_push_child(before, *self, level@);
                    assert(self.children@ =~= before.children@.push(self.children@.last()));
                    TrieNode::lemma_len_child_push(before, *self, self.children@.last());
                }
                self.children.len() - 1
            },
        };
        let ghost mid = *self;
        assert(mid.children@[j as int].0@ == level@);
        let (label, mut child) = self.children.remove(j);
        let r = child.insert_recursive(levels, index + 1, subscriber);
        self.children.insert(j, (label, child));
        proof {
            assert(strs_view(levels@).skip(index as int + 1) =~= k.drop_first());
            assert(self.children@ =~= mid.children@.update(j as int, (mid.children@[j as int].0, child)));
            TrieNode::lemma_replace_child(mid, *self, j as int, child, k, subscriber, r);
            TrieNode::lemma_len_child_update(mid, *self, j as int, child);
        }
        r
    }
}

/// Topic trie for subscription matching.
pub struct TopicTrie<V> {
    root: TrieNode<V>,
    /// The number of subscriptions added and not removed (it stays at
    /// `usize::MAX` once there).
    subscription_count: usize,
    /// Whether the count has never stopped at `usize::MAX`, so that it is
    /// the number of stored subscriptions.
    counting: Ghost<bool>,
}

impl<V: PartialEq> TopicTrie<V> {
    /// The subscribers stored for the filter levels `k`.
    pub closed spec fn at(&self, k: Seq<Seq<char>>) -> Seq<V> {
        self.root.lookup(k)
    }

    /// The trie's structure is sound, and while the count has never stopped
    /// at `usize::MAX` it is the number of stored subscriptions.
    pub closed spec fn wf(&self) -> bool {
        &&& self.root.wf()
        &&& self.counting@ ==> self.subscription_count == self.root.all_values().len()
    }

    /// The count has never stopped at `usize::MAX`: no insertion found it
    /// there.
    pub closed spec fn counts_all(&self) -> bool {
        self.counting@
    }

    /// The filter levels of every list in the trie, in the trie's order.
    pub closed spec fn slots(&self) -> Seq<Seq<Seq<char>>> {
        self.root.all_slots()
    }

    /// The lists at the trie's slots, in order.
    pub open spec fn lists(&self) -> Seq<Seq<V>> {
        self.slots().map_values(|k: Seq<Seq<char>>| self.at(k))
    }

    /// The trie's lists are those at its slots: no two slots address the
    /// same list, every list that holds something is at a slot, and the
    /// stored values are the contents of those lists in order, each stored
    /// subscription once.
    pub proof fn lemma_slots(&self)
        requires
            self.wf(),
        ensures
            forall|a: int, b: int|
                0 <= a < b < self.slots().len() ==> !same_slot(#[trigger] self.slots()[a], #[trigger] self.slots()[b]),
            forall|k: Seq<Seq<char>>|
                #[trigger] self.at(k).len() > 0 ==> exists|i: int|
                    0 <= i < self.slots().len() && same_slot(k, #[trigger] self.slots()[i]),
            self.values() == self.lists().flatten(),
    {
        let n = self.root.children@.len() as int;
        self.root.lemma_slots_distinct(n);
        assert forall|k: Seq<Seq<char>>| #[trigger] self.at(k).len() > 0 implies exists|i: int|
            0 <= i < self.slots().len() && same_slot(k, #[trigger] self.slots()[i]) by {
            self.root.lemma_slots_cover(k);
            let i = choose|i: int| 0 <= i < self.root.all_slots().len() && same_slot(k, #[trigger] self.root.all_slots()[i]);
            assert(same_slot(k, self.slots()[i]));
        }
        self.root.lemma_values_are_lists_upto(n);
        assert(self.lists() =~= self.root.lists_at(self.slots()));
    }

    /// Matching topic levels without wildcards collects, as a multiset,
    /// exactly the contents of the lists whose filter matches them: each
    /// matching subscription once, and nothing else.
    pub proof fn lemma_matches_once(&self, t: Seq<Seq<char>>)
        requires
            self.wf(),
            plain_levels(t),
        ensures
            self.matched(t).to_multiset() == matching_lists(self.lists(), self.slots(), t).flatten().to_multiset(),
    {
        self.root.lemma_matching_all(t);
        assert(self.lists() =~= self.root.lists_at(self.slots()));
    }

    /// The filters reported for `v` are, in the order of the slots, the
    /// texts of the slots whose lists hold `v`.
    pub proof fn lemma_filters_holding(&self, v: V)
        requires
            self.wf(),
        ensures
            self.filters_holding(v) == filters_at(self.lists(), self.slots(), v, Seq::empty()),
    {
        self.root.lemma_filters_are_texts(v, Seq::empty(), self.root.children@.len() as int);
        assert(self.lists() =~= self.root.lists_at(self.slots()));
    }

    /// The stored values are the values of the stored lists: `v` is among
    /// them exactly when some filter's list holds it.
    pub proof fn lemma_values(&self, v: V)
        requires
            self.wf(),
        ensures
            self.values().contains(v) <==> exists|k: Seq<Seq<char>>| #[trigger] self.at(k).contains(v),
    {
        self.root.lemma_all_values_contains(v);
        if self.values().contains(v) {
            let k = choose|k: Seq<Seq<char>>| #[trigger] self.root.lookup(k).contains(v);
            assert(self.at(k).contains(v));
        }
        if exists|k: Seq<Seq<char>>| #[trigger] self.at(k).contains(v) {
            let k = choose|k: Seq<Seq<char>>| #[trigger] self.at(k).contains(v);
            assert(self.root.lookup(k).contains(v));
        }
    }

    /// `v` is in some list exactly when it is among the stored values, and
    /// the filters reported for `v` are one for each list that holds it.
    pub proof fn lemma_lists_holding(&self, v: V)
        requires
            self.wf(),
        ensures
            (self.lists_holding(v) > 0) == self.values().contains(v),
            (self.lists_holding(v) > 0) == exists|k: Seq<Seq<char>>| #[trigger] self.at(k).contains(v),
            self.filters_holding(v).len() == self.lists_holding(v),
    {
        self.root.lemma_holders_upto_contains(v, self.root.children@.len() as int);
        self.lemma_values(v);
        self.root.lemma_filters_upto_len(v, Seq::empty(), self.root.children@.len() as int);
    }

    /// While the count has never stopped at `usize::MAX`, it is the number
    /// of stored subscriptions.
    pub proof fn lemma_count(&self)
        requires
            self.wf(),
            self.counts_all(),
        ensures
            self.count() == self.values().len(),
    {
    }

    /// The subscription count.
    pub closed spec fn count(&self) -> nat {
        self.subscription_count as nat
    }

    /// An empty topic trie.
    pub fn new() -> (r: Self)
        ensures
            r.wf(),
            r.count() == 0,
            r.counts_all(),
            r.values().len() == 0,
            forall|k: Seq<Seq<char>>| r.at(k).len() == 0,
    {
        TopicTrie { root: TrieNode::new(), subscription_count: 0, counting: Ghost(true) }
    }

    /// Insert a subscription. Returns true if this was a new subscription,
    /// false if the subscriber was already stored under the filter.
    pub fn insert(&mut self, filter: &str, subscriber: V) -> (r: bool)
        requires
            old(self).wf(),
        ensures
            final(self).wf(),
            forall|q: Seq<Seq<char>>|
                #[trigger] final(self).at(q) == (if same_slot(q, split_levels(filter@)) && r {
                    old(self).at(q).push(subscriber)
                } else {
                    old(self).at(q)
                }),
            old(self).at(split_levels(filter@)).len() == 0 ==> r,
            obeys_concrete_eq::<V>() ==> r == !old(self).at(split_levels(filter@)).contains(
                subscriber,
            ),
            final(self).count() == if r {
                capped_inc(old(self).count())
            } else {
                old(self).count()
            },
            final(self).values().len() == old(self).values().len() + (if r {
                1int
            } else {
                0int
            }),
            final(self).counts_all() == (old(self).counts_all() && !(r && old(self).count() == usize::MAX)),
    {
        let levels = topic_levels(filter);
        assert(strs_view(levels@).skip(0) =~= split_levels(filter@));
        let is_new = self.root.insert_recursive(&levels, 0, subscriber);
        if is_new {
            let ghost still = self.counting@ && self.subscription_count < usize::MAX;
            self.counting = Ghost(still);
            self.subscription_count = self.subscription_count.saturating_add(1);
        }
        is_new
    }

    /// The number of subscriptions.
    pub fn len(&self) -> (r: usize)
        ensures
            r == self.count(),
    {
        self.subscription_count
    }

    /// Whether the trie holds no subscription.
    pub fn is_empty(&self) -> (r: bool)
        ensures
            r == (self.count() == 0),
    {
        self.subscription_count == 0
    }
}

/// One more, stopping at `usize::MAX`.
pub open spec fn capped_inc(n: nat) -> nat {
    if n < usize::MAX {
        n + 1
    } else {
        n
    }
}

/// The values that a list of references points to.
pub open spec fn derefs<V>(s: Seq<&V>) -> Seq<V> {
    s.map_values(|r: &V| *r)
}

/// Append references to the elements of `src`.
fn extend_refs<'a, V>(results: &mut Vec<&'a V>, src: &'a Vec<V>)
    ensures
        derefs(final(results)@) == derefs(old(results)@) + src@,
{
    let mut i: usize = 0;
    while i < src.len()
        invariant
            i <= src@.len(),
            derefs(results@) == derefs(old(results)@) + src@.take(i as int),
        decreases src@.len() - i,
    {
        let ghost before = results@;
        let r = &src[i];
        results.push(r);
        assert(derefs(results@) =~= derefs(before).push(*r));
        assert(src@.take(i as int + 1) =~= src@.take(i as int).push(src@[i as int]));
        assert(derefs(results@) =~= derefs(old(results)@) + src@.take(i as int + 1));
        i = i + 1;
    }
    assert(src@.take(src@.len() as int) =~= src@);
}

impl<V: PartialEq> TrieNode<V> {
    /// Collect the subscribers matching the topic levels from `index` on.
    fn matches_recursive<'a>(&'a self, levels: &Vec<&str>, index: usize, results: &mut Vec<&'a V>)
        requires
            index <= levels@.len(),
        ensures
            derefs(final(results)@) == derefs(old(results)@) + self.collect(
                strs_view(levels@).skip(index as int),
            ),
        decreases self, levels@.len() - index,
    {
        let ghost t = strs_view(levels@).skip(index as int);
        let ghost start = derefs(results@);
        // Multi-level wildcard matches everything from here down
        extend_refs(results, &self.multi_wild_subscribers);
        // All topic levels consumed: the exact-match subscribers
        if index >= levels.len() {
            extend_refs(results, &self.subscribers);
            assert(derefs(results@) =~= start + self.collect(t));
            return;
        }
        let current_level = levels[index];
        assert(t[0] == current_level@);
        assert(strs_view(levels@).skip(index as int + 1) =~= t.drop_first());
        let ghost after_multi = derefs(results@);
        // Single-level wildcard as the last level
        if index == levels.len() - 1 {
            extend_refs(results, &self.single_wild_subscribers);
        }
        let ghost after_single = derefs(results@);
        // The single-level wildcard child
        proof {
            reveal_strlit("+");
            assert("+"@ =~= seq!['+']);
            lemma_child_index(self.children@, plus_level());
            lemma_child_index(self.children@, current_level@);
        }
        match self.find_child("+") {
            Some(j) => {
                proof {
                    assert(decreases_to!(self => self.children@[j as int].1));
                }
                self.children[j].1.matches_recursive(levels, index + 1, results);
            },
            None => {},
        }
        let ghost after_wild = derefs(results@);
        // The exact-match child
        match self.find_child(current_level) {
            Some(j) => {
                proof {
                    assert(decreases_to!(self => self.children@[j as int].1));
                }
                self.children[j].1.matches_recursive(levels, index + 1, results);
            },
            None => {},
        }
        assert(derefs(results@) =~= start + self.collect(t));
    }
}

/// A concatenation holds what either part holds.
pub proof fn lemma_concat_contains<V>(a: Seq<V>, b: Seq<V>, v: V)
    ensures
        (a + b).contains(v) <==> a.contains(v) || b.contains(v),
{
    if (a + b).contains(v) {
        let i = choose|i: int| 0 <= i < (a + b).len() && (a + b)[i] == v;
        if i < a.len() {
            assert(a[i] == v);
        } else {
            assert(b[i - a.len()] == v);
        }
    }
    if a.contains(v) {
        let i = choose|i: int| 0 <= i < a.len() && a[i] == v;
        assert((a + b)[i] == v);
    }
    if b.contains(v) {
        let i = choose|i: int| 0 <= i < b.len() && b[i] == v;
        assert((a + b)[a.len() + i] == v);
    }
}

/// The two wildcard levels differ.
proof fn lemma_wildcards_differ()
    ensures
        plus_level() != hash_level(),
{
    assert(plus_level()[0] != hash_level()[0]);
}

impl<V: PartialEq> TrieNode<V> {
    /// Matching collects exactly the subscribers of the filters that match.
    proof fn lemma_collect(self, t: Seq<Seq<char>>, v: V)
        requires
            self.wf(),
        ensures
            self.collect(t).contains(v) <==> exists|k: Seq<Seq<char>>|
                levels_match(k, t) && #[trigger] self.lookup(k).contains(v),
        decreases self, t.len(),
    {
        let ch = self.children@;
        lemma_wildcards_differ();
        lemma_child_index(ch, plus_level());
        let wild = child_index(ch, plus_level());
        let multi = self.multi_wild_subscribers@;
        let hash_k = seq![hash_level()];
        assert(hash_k[0] == hash_level());
        assert(levels_match(hash_k, t));
        assert(self.lookup(hash_k) == multi);
        if t.len() == 0 {
            let empty_k = Seq::<Seq<char>>::empty();
            assert(self.lookup(empty_k) == self.subscribers@);
            assert(levels_match(empty_k, t));
            if exists|k: Seq<Seq<char>>| levels_match(k, t) && #[trigger] self.lookup(k).contains(v) {
                let k = choose|k: Seq<Seq<char>>| levels_match(k, t) && #[trigger] self.lookup(k).contains(v);
                if k.len() > 0 && k[0] != hash_level() {
                    assert(!levels_match(k, t));
                }
            }
            assert(self.collect(t) == multi + self.subscribers@);
            lemma_concat_contains(multi, self.subscribers@, v);
            if self.collect(t).contains(v) {
                if multi.contains(v) {
                    assert(self.lookup(hash_k).contains(v));
                } else {
                    assert(self.lookup(empty_k).contains(v));
                }
            }
        } else {
            let t2 = t.drop_first();
            lemma_child_index(ch, t[0]);
            let exact = child_index(ch, t[0]);
            let single: Seq<V> = if t.len() == 1 { self.single_wild_subscribers@ } else { Seq::empty() };
            let from_wild: Seq<V> = if wild >= 0 { ch[wild].1.collect(t2) } else { Seq::empty() };
            let from_exact: Seq<V> = if exact >= 0 { ch[exact].1.collect(t2) } else { Seq::empty() };
            assert(self.collect(t) == multi + (single + from_wild + from_exact));
            lemma_concat_contains(multi, single + from_wild + from_exact, v);
            lemma_concat_contains(single + from_wild, from_exact, v);
            lemma_concat_contains(single, from_wild, v);
            if wild >= 0 {
                assert(decreases_to!(self => ch[wild].1));
                ch[wild].1.lemma_collect(t2, v);
            }
            if exact >= 0 {
                assert(decreases_to!(self => ch[exact].1));
                ch[exact].1.lemma_collect(t2, v);
            }
            let plus_k = seq![plus_level()];
            assert(plus_k[0] == plus_level());
            assert(self.lookup(plus_k) == self.single_wild_subscribers@);
            // every collected subscriber is stored under a matching filter
            if self.collect(t).contains(v) {
                if multi.contains(v) {
                    assert(self.lookup(hash_k).contains(v));
                } else if single.contains(v) {
                    assert(levels_match(plus_k.drop_first(), t.drop_first()));
                    assert(levels_match(plus_k, t));
                    assert(self.lookup(plus_k).contains(v));
                } else if from_wild.contains(v) {
                    let k2 = choose|k: Seq<Seq<char>>| levels_match(k, t2) && #[trigger] ch[wild].1.lookup(k).contains(v);
                    let k = seq![plus_level()] + k2;
                    assert(k[0] == plus_level());
                    assert(k.drop_first() =~= k2);
                    if k2.len() == 0 {
                        assert(ch[wild].1.lookup(k2) == ch[wild].1.subscribers@);
                    }
                    assert(self.lookup(k) == ch[wild].1.lookup(k2));
                    assert(levels_match(k, t));
                    assert(self.lookup(k).contains(v));
                } else {
                    assert(from_exact.contains(v));
                    let k2 = choose|k: Seq<Seq<char>>| levels_match(k, t2) && #[trigger] ch[exact].1.lookup(k).contains(v);
                    let k = seq![t[0]] + k2;
                    assert(k[0] == t[0]);
                    assert(k.drop_first() =~= k2);
                    assert(t[0] != hash_level());
                    if t[0] == plus_level() && k2.len() == 0 {
                        assert(ch[exact].1.lookup(k2) == ch[exact].1.subscribers@);
                    }
                    assert(self.lookup(k) == ch[exact].1.lookup(k2));
                    assert(levels_match(k, t));
                    assert(self.lookup(k).contains(v));
                }
            }
            // every subscriber stored under a matching filter is collected
            if exists|k: Seq<Seq<char>>| levels_match(k, t) && #[trigger] self.lookup(k).contains(v) {
                let k = choose|k: Seq<Seq<char>>| levels_match(k, t) && #[trigger] self.lookup(k).contains(v);
                assert(k.len() > 0);
                if k[0] == hash_level() {
                    assert(multi.contains(v));
                } else if k[0] == plus_level() && k.len() == 1 {
                    assert(levels_match(k.drop_first(), t.drop_first()));
                    assert(t.len() == 1);
                    assert(single.contains(v));
                } else {
                    let j = child_index(ch, k[0]);
                    assert(j >= 0);
                    assert(ch[j].1.lookup(k.drop_first()).contains(v));
                    assert(levels_match(k.drop_first(), t2));
                    if k[0] == plus_level() {
                        assert(j == wild);
                        assert(from_wild.contains(v));
                    } else {
                        assert(k[0] == t[0]);
                        assert(j == exact);
                        assert(from_exact.contains(v));
                    }
                }
            }
        }
    }
}

/// `s` without its first `x`, the last element taking its place (as
/// `Vec::swap_remove` leaves it).
pub open spec fn swap_remove_first<V>(s: Seq<V>, x: V) -> Seq<V> {
    match s.index_of_first(x) {
        Some(i) => s.update(i, s.last()).drop_last(),
        None => s,
    }
}

/// Remove the first `x` from `v`, the last element taking its place; true
/// when one was removed.
fn remove_first<V: PartialEq>(v: &mut Vec<V>, x: &V) -> (r: bool)
    ensures
        obeys_concrete_eq::<V>() ==> r == old(v)@.contains(*x) && final(v)@ == swap_remove_first(
            old(v)@,
            *x,
        ),
        !r ==> final(v)@ == old(v)@,
        r ==> final(v)@.len() == old(v)@.len() - 1,
        old(v)@.len() == 0 ==> !r,
{
    proof {
        old(v)@.index_of_first_ensures(*x);
    }
    let mut i: usize = 0;
    while i < v.len()
        invariant
            i <= v@.len(),
            v@ == old(v)@,
            obeys_concrete_eq::<V>() ==> forall|j: int| 0 <= j < i ==> v@[j] != *x,
        decreases v@.len() - i,
    {
        proof {
            reveal(obeys_concrete_eq);
        }
        if v[i] == *x {
            proof {
                if obeys_concrete_eq::<V>() {
                    v@.index_of_first_ensures(*x);
                    assert(v@[i as int] == *x);
                    assert(v@.contains(*x));
                    let idx = v@.index_of_first(*x).unwrap();
                    assert(idx == i as int);
                }
            }
            v.swap_remove(i);
            return true;
        }
        i = i + 1;
    }
    false
}

impl<V> TrieNode<V> {
    /// The node holds nothing: no subscriber and no child.
    pub closed spec fn holds_nothing(self) -> bool {
        &&& self.subscribers@.len() == 0
        &&& self.single_wild_subscribers@.len() == 0
        &&& self.multi_wild_subscribers@.len() == 0
        &&& self.children@.len() == 0
    }

    /// A node that holds nothing has empty lists under every filter.
    proof fn lemma_nothing_lookup(self, q: Seq<Seq<char>>)
        requires
            self.holds_nothing(),
        ensures
            self.lookup(q).len() == 0,
    {
        if q.len() > 0 {
            lemma_child_index(self.children@, q[0]);
        }
    }

    /// Filters that address the same list see the same list.
    proof fn lemma_same_slot_lookup(self, q: Seq<Seq<char>>, k: Seq<Seq<char>>)
        requires
            same_slot(q, k),
        ensures
            self.lookup(q) == self.lookup(k),
        decreases self, q.len(),
    {
        if q.len() > 0 && k.len() > 0 && q[0] != hash_level() && !(q[0] == plus_level() && q.len() == 1) {
            let j = child_index(self.children@, q[0]);
            lemma_child_index(self.children@, q[0]);
            if 0 <= j < self.children@.len() {
                assert(decreases_to!(self => self.children@[j].1));
                self.children@[j].1.lemma_same_slot_lookup(q.drop_first(), k.drop_first());
            }
        }
    }

    /// Check if this node and all children are empty.
    fn is_empty(&self) -> (r: bool)
        ensures
            r == self.holds_nothing(),
    {
        self.subscribers.len() == 0 && self.single_wild_subscribers.len() == 0
            && self.multi_wild_subscribers.len() == 0 && self.children.len() == 0
    }
}

/// The children that hold something, in order.
spec fn pruned<V>(s: Seq<(String, TrieNode<V>)>) -> Seq<(String, TrieNode<V>)>
    decreases s.len(),
{
    if s.len() == 0 {
        s
    } else if s.last().1.holds_nothing() {
        pruned(s.drop_last())
    } else {
        pruned(s.drop_last()).push(s.last())
    }
}

/// `new` is `old` with the list of the filter levels `k` (and of the filters
/// that address the same list) changed to `new.lookup(k)`; nothing else
/// changed.
pub open spec fn only_slot_changed<V>(old: TrieNode<V>, new: TrieNode<V>, k: Seq<Seq<char>>) -> bool {
    forall|q: Seq<Seq<char>>|
        #[trigger] new.lookup(q) == (if same_slot(q, k) {
            new.lookup(k)
        } else {
            old.lookup(q)
        })
}

impl<V: PartialEq> TrieNode<V> {
    /// Replacing child `j` by a changed child with the same label changes
    /// only the slot that goes through it; a child that holds nothing may be
    /// dropped instead.
    proof fn lemma_child_changed(old: Self, new: Self, j: int, c2: Self, k: Seq<Seq<char>>)
        requires
            old.wf(),
            0 <= j < old.children@.len(),
            new.subscribers@ == old.subscribers@,
            new.single_wild_subscribers@ == old.single_wild_subscribers@,
            new.multi_wild_subscribers@ == old.multi_wild_subscribers@,
            new.children@ == old.children@.update(j, (old.children@[j].0, c2)) || (
            c2.holds_nothing() && new.children@ == old.children@.remove(j)),
            k.len() > 0,
            old.children@[j].0@ == k[0],
            k[0] != hash_level(),
            !(k[0] == plus_level() && k.len() == 1),
            c2.wf(),
            only_slot_changed(old.children@[j].1, c2, k.drop_first()),
            k[0] == plus_level() ==> c2.subscribers@.len() == 0,
        ensures
            new.wf(),
            only_slot_changed(old, new, k),
            new.lookup(k) == c2.lookup(k.drop_first()),
    {
        let oc = old.children@;
        let nc = new.children@;
        lemma_child_index_unique(oc, j);
        if nc == oc.update(j, (oc[j].0, c2)) {
            assert forall|i: int| 0 <= i < oc.len() implies #[trigger] nc[i].0@ == oc[i].0@ by {}
            assert forall|i: int| 0 <= i < nc.len() implies (#[trigger] nc[i]).1.wf() by {
                if i != j {
                    assert(nc[i] == oc[i]);
                }
            }
            assert(new.wf());
            assert forall|q: Seq<Seq<char>>| #[trigger] new.lookup(q) == (if same_slot(q, k) {
                new.lookup(k)
            } else {
                old.lookup(q)
            }) by {
                if q.len() > 0 && q[0] != hash_level() && !(q[0] == plus_level() && q.len() == 1) {
                    lemma_child_index_labels(nc, oc, q[0]);
                    lemma_child_index(oc, q[0]);
                    let a = child_index(oc, q[0]);
                    if a == j {
                        assert(c2.lookup(q.drop_first()) == (if same_slot(q.drop_first(), k.drop_first()) {
                            c2.lookup(k.drop_first())
                        } else {
                            oc[j].1.lookup(q.drop_first())
                        }));
                    } else if a >= 0 {
                        assert(nc[a] == oc[a]);
                    }
                }
            }
            lemma_child_index_labels(nc, oc, k[0]);
        } else {
            assert(nc == oc.remove(j));
            assert forall|a: int, b: int| 0 <= a < b < nc.len() implies nc[a].0@ != nc[b].0@ by {
                let a2 = if a < j { a } else { a + 1 };
                let b2 = if b < j { b } else { b + 1 };
                assert(nc[a] == oc[a2]);
                assert(nc[b] == oc[b2]);
            }
            assert forall|i: int| 0 <= i < nc.len() implies #[trigger] nc[i].0@ != hash_level() && (nc[i].0@ == plus_level() ==> nc[i].1.subscribers@.len() == 0) && nc[i].1.wf() by {
                let i2 = if i < j { i } else { i + 1 };
                assert(nc[i] == oc[i2]);
            }
            assert(new.wf());
            lemma_child_index(nc, k[0]);
            assert(child_index(nc, k[0]) == -1) by {
                if child_index(nc, k[0]) >= 0 {
                    let a = child_index(nc, k[0]);
                    let a2 = if a < j { a } else { a + 1 };
                    assert(nc[a] == oc[a2]);
                    assert(a2 != j);
                }
            }
            c2.lemma_nothing_lookup(k.drop_first());
            assert forall|q: Seq<Seq<char>>| #[trigger] new.lookup(q) == (if same_slot(q, k) {
                new.lookup(k)
            } else {
                old.lookup(q)
            }) by {
                if q.len() > 0 && q[0] != hash_level() && !(q[0] == plus_level() && q.len() == 1) {
                    lemma_child_index(oc, q[0]);
                    lemma_child_index(nc, q[0]);
                    let a = child_index(oc, q[0]);
                    if a == j {
                        c2.lemma_nothing_lookup(q.drop_first());
                        assert(child_index(nc, q[0]) == -1);
                        if !same_slot(q, k) {
                            assert(!same_slot(q.drop_first(), k.drop_first()));
                            assert(c2.lookup(q.drop_first()) == oc[j].1.lookup(q.drop_first()));
                        }
                    } else if a >= 0 {
                        let a1 = if a < j { a } else { a - 1 };
                        assert(nc[a1] == oc[a]);
                        assert(child_index(nc, q[0]) == a1) by {
                            let b = child_index(nc, q[0]);
                            if b >= 0 && b != a1 {
                                let b2 = if b < j { b } else { b + 1 };
                                assert(nc[b] == oc[b2]);
                            }
                        }
                    } else {
                        assert(child_index(nc, q[0]) == -1) by {
                            let b = child_index(nc, q[0]);
                            if b >= 0 {
                                let b2 = if b < j { b } else { b + 1 };
                                assert(nc[b] == oc[b2]);
                            }
                        }
                    }
                }
            }
        }
    }
}

impl<V: PartialEq> TrieNode<V> {
    /// Remove `subscriber` from the list of the filter levels from `index` on.
    fn remove_recursive(&mut self, levels: &Vec<&str>, index: usize, subscriber: &V) -> (r: bool)
        requires
            old(self).wf(),
            index <= levels@.len(),
        ensures
            final(self).wf(),
            only_slot_changed(*old(self), *final(self), strs_view(levels@).skip(index as int)),
            obeys_concrete_eq::<V>() ==> r == old(self).lookup(strs_view(levels@).skip(index as int)).contains(*subscriber)
                && final(self).lookup(strs_view(levels@).skip(index as int)) == swap_remove_first(
                old(self).lookup(strs_view(levels@).skip(index as int)),
                *subscriber,
            ),
            !r ==> final(self).lookup(strs_view(levels@).skip(index as int)) == old(self).lookup(
                strs_view(levels@).skip(index as int),
            ),
            old(self).lookup(strs_view(levels@).skip(index as int)).len() == 0 ==> !r,
            final(self).all_values().len() == old(self).all_values().len() - (if r {
                1int
            } else {
                0int
            }),
        decreases levels@.len() - index,
    {
        let ghost k = strs_view(levels@).skip(index as int);
        proof {
            reveal_strlit("#");
            reveal_strlit("+");
            assert("#"@ =~= seq!['#']);
            assert("+"@ =~= seq!['+']);
            lemma_same_slot_refl(k);
            old(self).lemma_all_values_len();
        }
        if index >= levels.len() {
            // At the target node
            let r = remove_first(&mut self.subscribers, subscriber);
            proof {
                self.lemma_all_values_len();
            }
            return r;
        }
        let level = levels[index];
        assert(k[0] == level@);
        if level_is(level, "#", '#') {
            let r = remove_first(&mut self.multi_wild_subscribers, subscriber);
            proof {
                self.lemma_all_values_len();
            }
            return r;
        }
        if level_is(level, "+", '+') && index == levels.len() - 1 {
            let r = remove_first(&mut self.single_wild_subscribers, subscriber);
            proof {
                self.lemma_all_values_len();
            }
            return r;
        }
        // Recurse into the child; clean up a child left empty
        match self.find_child(level) {
            None => {
                proof {
                    lemma_child_index(self.children@, level@);
                    self.lookup(k).index_of_first_ensures(*subscriber);
                }
                false
            },
            Some(j) => {
                proof {
                    lemma_child_index(self.children@, level@);
                }
                let ghost mid = *self;
                let (label, mut child) = self.children.remove(j);
                let ghost old_child = child;
                let removed = child.remove_recursive(levels, index + 1, subscriber);
                proof {
                    assert(mid.lookup(k) == old_child.lookup(k.drop_first()));
                    assert(strs_view(levels@).skip(index as int + 1) =~= k.drop_first());
                    if level@ == plus_level() {
                        assert(child.lookup(Seq::empty()) == old_child.lookup(Seq::empty()));
                    }
                }
                if child.is_empty() {
                    proof {
                        assert(self.children@ == mid.children@.remove(j as int));
                        child.lemma_nothing_no_values();
                        TrieNode::lemma_len_child_remove(mid, *self, j as int);
                    }
                } else {
                    self.children.insert(j, (label, child));
                    proof {
                        assert(self.children@ =~= mid.children@.update(j as int, (mid.children@[j as int].0, child)));
                        TrieNode::lemma_len_child_update(mid, *self, j as int, child);
                    }
                }
                proof {
                    TrieNode::lemma_child_changed(mid, *self, j as int, child, k);
                }
                removed
            },
        }
    }

    /// Clear the list of the filter levels from `index` on; returns how many
    /// subscribers it held.
    fn remove_filter_recursive(&mut self, levels: &Vec<&str>, index: usize) -> (r: usize)
        requires
            old(self).wf(),
            index <= levels@.len(),
        ensures
            final(self).wf(),
            only_slot_changed(*old(self), *final(self), strs_view(levels@).skip(index as int)),
            final(self).lookup(strs_view(levels@).skip(index as int)).len() == 0,
            r == old(self).lookup(strs_view(levels@).skip(index as int)).len(),
            final(self).all_values().len() == old(self).all_values().len() - r,
        decreases levels@.len() - index,
    {
        let ghost k = strs_view(levels@).skip(index as int);
        proof {
            reveal_strlit("#");
            reveal_strlit("+");
            assert("#"@ =~= seq!['#']);
            assert("+"@ =~= seq!['+']);
            lemma_same_slot_refl(k);
            old(self).lemma_all_values_len();
        }
        if index >= levels.len() {
            let count = self.subscribers.len();
            self.subscribers.clear();
            proof {
                self.lemma_all_values_len();
            }
            return count;
        }
        let level = levels[index];
        assert(k[0] == level@);
        if level_is(level, "#", '#') {
            let count = self.multi_wild_subscribers.len();
            self.multi_wild_subscribers.clear();
            proof {
                self.lemma_all_values_len();
            }
            return count;
        }
        if level_is(level, "+", '+') && index == levels.len() - 1 {
            let count = self.single_wild_subscribers.len();
            self.single_wild_subscribers.clear();
            proof {
                self.lemma_all_values_len();
            }
            return count;
        }
        match self.find_child(level) {
            None => {
                proof {
                    lemma_child_index(self.children@, level@);
                }
                0
            },
            Some(j) => {
                proof {
                    lemma_child_index(self.children@, level@);
                }
                let ghost mid = *self;
                let (label, mut child) = self.children.remove(j);
                let ghost old_child = child;
                let removed = child.remove_filter_recursive(levels, index + 1);
                proof {
                    assert(strs_view(levels@).skip(index as int + 1) =~= k.drop_first());
                    if level@ == plus_level() {
                        assert(child.lookup(Seq::empty()) == old_child.lookup(Seq::empty()));
                    }
                }
                if child.is_empty() {
                    proof {
                        assert(self.children@ == mid.children@.remove(j as int));
                        child.lemma_nothing_no_values();
                        TrieNode::lemma_len_child_remove(mid, *self, j as int);
                    }
                } else {
                    self.children.insert(j, (label, child));
                    proof {
                        assert(self.children@ =~= mid.children@.update(j as int, (mid.children@[j as int].0, child)));
                        TrieNode::lemma_len_child_update(mid, *self, j as int, child);
                    }
                }
                proof {
                    TrieNode::lemma_child_changed(mid, *self, j as int, child, k);
                }
                removed
            },
        }
    }
}

/// How many of the three lists hold `v`.
pub open spec fn own_holders<V>(node_lists: (Seq<V>, Seq<V>, Seq<V>), v: V) -> nat {
    (if node_lists.0.contains(v) { 1nat } else { 0nat }) + (if node_lists.1.contains(v) {
        1nat
    } else {
        0nat
    }) + (if node_lists.2.contains(v) {
        1nat
    } else {
        0nat
    })
}

impl<V> TrieNode<V> {
    /// How many lists at or below this node hold `v`, counting the first `n`
    /// children.
    pub closed spec fn holders_upto(self, v: V, n: int) -> nat
        decreases self, n,
    {
        if n <= 0 {
            own_holders(
                (self.subscribers@, self.single_wild_subscribers@, self.multi_wild_subscribers@),
                v,
            )
        } else if n - 1 < self.children@.len() {
            proof {
                assert(decreases_to!(self => self.children@[n - 1].1));
            }
            self.holders_upto(v, n - 1) + self.children@[n - 1].1.holders_upto(
                v,
                self.children@[n - 1].1.children@.len() as int,
            )
        } else {
            self.holders_upto(v, n - 1)
        }
    }

    /// How many lists at or below this node hold `v`.
    pub closed spec fn holders(self, v: V) -> nat {
        self.holders_upto(v, self.children@.len() as int)
    }
}

/// `n`, or `usize::MAX` when it does not fit.
pub open spec fn capped_usize(n: nat) -> nat {
    if n <= usize::MAX {
        n
    } else {
        usize::MAX as nat
    }
}

impl<V: PartialEq> TrieNode<V> {
    /// The first subscriber in the list of the filter levels from `index` on.
    fn get_recursive<'a>(&'a self, levels: &Vec<&str>, index: usize) -> (r: Option<&'a V>)
        requires
            index <= levels@.len(),
        ensures
            match r {
                Some(x) => self.lookup(strs_view(levels@).skip(index as int)).len() > 0 && *x
                    == self.lookup(strs_view(levels@).skip(index as int))[0],
                None => self.lookup(strs_view(levels@).skip(index as int)).len() == 0,
            },
        decreases self, levels@.len() - index,
    {
        let ghost k = strs_view(levels@).skip(index as int);
        proof {
            reveal_strlit("#");
            reveal_strlit("+");
            assert("#"@ =~= seq!['#']);
            assert("+"@ =~= seq!['+']);
        }
        if index >= levels.len() {
            return first_of(&self.subscribers);
        }
        let level = levels[index];
        assert(k[0] == level@);
        if level_is(level, "#", '#') {
            return first_of(&self.multi_wild_subscribers);
        }
        if level_is(level, "+", '+') && index == levels.len() - 1 {
            return first_of(&self.single_wild_subscribers);
        }
        proof {
            lemma_child_index(self.children@, level@);
        }
        match self.find_child(level) {
            None => None,
            Some(j) => {
                proof {
                    assert(decreases_to!(self => self.children@[j as int].1));
                    assert(strs_view(levels@).skip(index as int + 1) =~= k.drop_first());
                }
                self.children[j].1.get_recursive(levels, index + 1)
            },
        }
    }

    /// Append references to every value at or below this node.
    fn collect_values<'a>(&'a self, values: &mut Vec<&'a V>)
        ensures
            derefs(final(values)@) == derefs(old(values)@) + self.all_values(),
        decreases self,
    {
        extend_refs(values, &self.subscribers);
        extend_refs(values, &self.single_wild_subscribers);
        extend_refs(values, &self.multi_wild_subscribers);
        assert(derefs(values@) =~= derefs(old(values)@) + self.values_upto(0));
        let mut i: usize = 0;
        while i < self.children.len()
            invariant
                i <= self.children@.len(),
                derefs(values@) == derefs(old(values)@) + self.values_upto(i as int),
            decreases self.children@.len() - i,
        {
            proof {
                assert(decreases_to!(self => self.children@[i as int].1));
            }
            self.children[i].1.collect_values(values);
            assert(derefs(values@) =~= derefs(old(values)@) + self.values_upto(i as int + 1));
            i = i + 1;
        }
    }
}

/// The first element of a vector, by reference.
fn first_of<V>(v: &Vec<V>) -> (r: Option<&V>)
    ensures
        match r {
            Some(x) => v@.len() > 0 && *x == v@[0],
            None => v@.len() == 0,
        },
{
    if v.len() == 0 {
        None
    } else {
        Some(&v[0])
    }
}

impl<V: PartialEq> TrieNode<V> {
    /// Dropping a child that holds nothing changes no list.
    proof fn lemma_drop_empty_child(old: Self, new: Self, j: int)
        requires
            old.wf(),
            0 <= j < old.children@.len(),
            old.children@[j].1.holds_nothing(),
            new.subscribers@ == old.subscribers@,
            new.single_wild_subscribers@ == old.single_wild_subscribers@,
            new.multi_wild_subscribers@ == old.multi_wild_subscribers@,
            new.children@ == old.children@.remove(j),
        ensures
            new.wf(),
            forall|q: Seq<Seq<char>>| #[trigger] new.lookup(q) == old.lookup(q),
    {
        let oc = old.children@;
        let nc = new.children@;
        assert forall|a: int, b: int| 0 <= a < b < nc.len() implies nc[a].0@ != nc[b].0@ by {
            let a2 = if a < j { a } else { a + 1 };
            let b2 = if b < j { b } else { b + 1 };
            assert(nc[a] == oc[a2]);
            assert(nc[b] == oc[b2]);
        }
        assert forall|i: int| 0 <= i < nc.len() implies #[trigger] nc[i].0@ != hash_level() && (
        nc[i].0@ == plus_level() ==> nc[i].1.subscribers@.len() == 0) && nc[i].1.wf() by {
            let i2 = if i < j { i } else { i + 1 };
            assert(nc[i] == oc[i2]);
        }
        assert(new.wf());
        assert forall|q: Seq<Seq<char>>| #[trigger] new.lookup(q) == old.lookup(q) by {
            if q.len() > 0 && q[0] != hash_level() && !(q[0] == plus_level() && q.len() == 1) {
                lemma_child_index(oc, q[0]);
                lemma_child_index(nc, q[0]);
                let a = child_index(oc, q[0]);
                if a == j {
                    oc[j].1.lemma_nothing_lookup(q.drop_first());
                    assert(child_index(nc, q[0]) == -1) by {
                        let b = child_index(nc, q[0]);
                        if b >= 0 {
                            let b2 = if b < j { b } else { b + 1 };
                            assert(nc[b] == oc[b2]);
                            lemma_child_index_unique(oc, j);
                        }
                    }
                } else if a >= 0 {
                    let a1 = if a < j { a } else { a - 1 };
                    assert(nc[a1] == oc[a]);
                    assert(child_index(nc, q[0]) == a1) by {
                        let b = child_index(nc, q[0]);
                        if b >= 0 && b != a1 {
                            let b2 = if b < j { b } else { b + 1 };
                            assert(nc[b] == oc[b2]);
                        }
                    }
                } else {
                    assert(child_index(nc, q[0]) == -1) by {
                        let b = child_index(nc, q[0]);
                        if b >= 0 {
                            let b2 = if b < j { b } else { b + 1 };
                            assert(nc[b] == oc[b2]);
                        }
                    }
                }
            }
        }
    }

    /// Drop the children that hold nothing.
    fn prune_children(&mut self)
        requires
            old(self).wf(),
        ensures
            final(self).wf(),
            final(self).children@ == pruned(old(self).children@),
            final(self).all_values().len() == old(self).all_values().len(),
            forall|q: Seq<Seq<char>>| #[trigger] final(self).lookup(q) == old(self).lookup(q),
            final(self).subscribers@ == old(self).subscribers@,
            final(self).single_wild_subscribers@ == old(self).single_wild_subscribers@,
            final(self).multi_wild_subscribers@ == old(self).multi_wild_subscribers@,
    {
        let ghost oc = self.children@;
        let ghost mut j: int = 0;
        let mut i: usize = 0;
        while i < self.children.len()
            invariant
                i <= self.children@.len(),
                0 <= j <= oc.len(),
                self.children@.take(i as int) == pruned(oc.take(j)),
                self.children@.skip(i as int) == oc.skip(j),
                self.all_values().len() == old(self).all_values().len(),
                self.wf(),
                forall|q: Seq<Seq<char>>| #[trigger] self.lookup(q) == old(self).lookup(q),
                self.subscribers@ == old(self).subscribers@,
                self.single_wild_subscribers@ == old(self).single_wild_subscribers@,
                self.multi_wild_subscribers@ == old(self).multi_wild_subscribers@,
            decreases self.children@.len() - i,
        {
            let ghost before = self.children@;
            proof {
                assert(before.skip(i as int).len() == oc.skip(j).len());
                assert(j < oc.len());
                assert(oc.take(j + 1).drop_last() =~= oc.take(j));
                assert(before[i as int] == oc[j]) by {
                    assert(before.skip(i as int)[0] == oc.skip(j)[0]);
                }
                assert(oc.take(j + 1).last() == oc[j]);
            }
            if self.children[i].1.is_empty() {
                let ghost node = *self;
                self.children.remove(i);
                proof {
                    TrieNode::lemma_drop_empty_child(node, *self, i as int);
                node.children@[i as int].1.lemma_nothing_no_values();
                TrieNode::lemma_len_child_remove(node, *self, i as int);
                    assert(self.children@.take(i as int) =~= before.take(i as int));
                    assert forall|x: int| 0 <= x < self.children@.skip(i as int).len() implies #[trigger] self.children@.skip(i as int)[x] == oc.skip(j + 1)[x] by {
                        assert(before.skip(i as int)[x + 1] == oc.skip(j)[x + 1]);
                    }
                    assert(self.children@.skip(i as int) =~= oc.skip(j + 1));
                    j = j + 1;
                }
            } else {
                proof {
                    assert(self.children@.take(i as int + 1) =~= before.take(i as int).push(oc[j]));
                    assert forall|x: int| 0 <= x < self.children@.skip(i as int + 1).len() implies #[trigger] self.children@.skip(i as int + 1)[x] == oc.skip(j + 1)[x] by {
                        assert(before.skip(i as int)[x + 1] == oc.skip(j)[x + 1]);
                    }
                    assert(self.children@.skip(i as int + 1) =~= oc.skip(j + 1));
                    j = j + 1;
                }
                i = i + 1;
            }
        }
        proof {
            assert(self.children@.take(i as int) =~= self.children@);
            assert(oc.skip(j).len() == 0);
            assert(oc.take(j) =~= oc);
        }
    }

    /// Remove `subscriber` from every list at or below this node; returns
    /// how many lists held it.
    fn remove_subscriber_recursive(&mut self, subscriber: &V) -> (r: usize)
        requires
            old(self).wf(),
        ensures
            final(self).wf(),
            old(self).subscribers@.len() == 0 ==> final(self).subscribers@.len() == 0,
            obeys_concrete_eq::<V>() ==> r == capped_usize(old(self).holders(*subscriber)),
            obeys_concrete_eq::<V>() ==> forall|q: Seq<Seq<char>>| #[trigger] final(self).lookup(q)
                == swap_remove_first(old(self).lookup(q), *subscriber),
            final(self).all_values().len() <= old(self).all_values().len(),
            old(self).all_values().len() <= usize::MAX ==> final(self).all_values().len() + r
                == old(self).all_values().len(),
        decreases *old(self),
    {
        let ghost old_node = *self;
        let ghost oc = self.children@;
        let mut removed: usize = 0;
        // This node's lists
        if remove_first(&mut self.subscribers, subscriber) {
            removed = removed + 1;
        }
        if remove_first(&mut self.single_wild_subscribers, subscriber) {
            removed = removed + 1;
        }
        if remove_first(&mut self.multi_wild_subscribers, subscriber) {
            removed = removed + 1;
        }
        assert(obeys_concrete_eq::<V>() ==> removed == old_node.holders_upto(*subscriber, 0));
        let ghost mut gone: int = removed as int;
        proof {
            old_node.lemma_all_values_len();
            self.lemma_all_values_len();
        }
        // Each child
        let n = self.children.len();
        let mut i: usize = 0;
        while i < n
            invariant
                n == oc.len(),
                i <= n,
                self.children@.len() == n,
                old_node.wf(),
                old_node == *old(self),
                oc == old_node.children@,
                forall|a: int| 0 <= a < n ==> #[trigger] self.children@[a].0 == oc[a].0,
                forall|a: int| i <= a < n ==> #[trigger] self.children@[a] == oc[a],
                forall|a: int| 0 <= a < i ==> (#[trigger] self.children@[a]).1.wf(),
                forall|a: int|
                    0 <= a < i && oc[a].1.subscribers@.len() == 0 ==> (
                    #[trigger] self.children@[a]).1.subscribers@.len() == 0,
                obeys_concrete_eq::<V>() ==> forall|a: int, q: Seq<Seq<char>>|
                    0 <= a < i ==> #[trigger] self.children@[a].1.lookup(q) == swap_remove_first(
                        oc[a].1.lookup(q),
                        *subscriber,
                    ),
                obeys_concrete_eq::<V>() ==> removed == capped_usize(
                    old_node.holders_upto(*subscriber, i as int),
                ),
                old_node.subscribers@.len() == 0 ==> self.subscribers@.len() == 0,
                obeys_concrete_eq::<V>() ==> self.subscribers@ == swap_remove_first(old_node.subscribers@, *subscriber),
                obeys_concrete_eq::<V>() ==> self.single_wild_subscribers@ == swap_remove_first(old_node.single_wild_subscribers@, *subscriber),
                obeys_concrete_eq::<V>() ==> self.multi_wild_subscribers@ == swap_remove_first(old_node.multi_wild_subscribers@, *subscriber),
                gone >= 0,
                self.all_values().len() + gone == old_node.all_values().len(),
                old_node.all_values().len() <= usize::MAX ==> removed == gone,
            decreases n - i,
        {
            let ghost before = self.children@;
            let ghost before_node = *self;
            let (label, mut child) = self.children.remove(i);
            proof {
                assert(child == oc[i as int].1);
                assert(decreases_to!(*old(self) => old(self).children@[i as int].1));
                TrieNode::lemma_len_child_remove(before_node, *self, i as int);
            }
            let ghost old_child = child;
            let c = child.remove_subscriber_recursive(subscriber);
            removed = removed.saturating_add(c);
            self.children.insert(i, (label, child));
            proof {
                assert(self.children@ =~= before.update(i as int, (before[i as int].0, child)));
                TrieNode::lemma_len_child_update(before_node, *self, i as int, child);
                if old_node.all_values().len() <= usize::MAX {
                    assert(old_child.all_values().len() <= usize::MAX);
                }
                gone = gone + (old_child.all_values().len() - child.all_values().len());
            }
            i = i + 1;
        }
        proof {
            assert(forall|a: int| 0 <= a < n ==> #[trigger] self.children@[a].0@ == oc[a].0@);
            assert forall|a: int, b: int| 0 <= a < b < self.children@.len() implies self.children@[a].0@ != self.children@[b].0@ by {
                assert(oc[a].0@ != oc[b].0@);
            }
            assert forall|a: int| 0 <= a < self.children@.len() implies #[trigger] self.children@[a].0@ != hash_level() by {
                assert(oc[a].0@ != hash_level());
            }
            assert forall|a: int| 0 <= a < self.children@.len() && self.children@[a].0@ == plus_level() implies self.children@[a].1.subscribers@.len() == 0 by {
                assert(oc[a].0@ == plus_level());
                assert(oc[a].1.subscribers@.len() == 0);
            }
            assert(self.wf());
            if obeys_concrete_eq::<V>() {
                assert forall|q: Seq<Seq<char>>| #[trigger] self.lookup(q) == swap_remove_first(old_node.lookup(q), *subscriber) by {
                    if q.len() > 0 && q[0] != hash_level() && !(q[0] == plus_level() && q.len() == 1) {
                        lemma_child_index_labels(self.children@, oc, q[0]);
                        lemma_child_index(oc, q[0]);
                        let a = child_index(oc, q[0]);
                        if a < 0 {
                            Seq::<V>::empty().index_of_first_ensures(*subscriber);
                        } else {
                            assert(self.children@[a].1.lookup(q.drop_first()) == swap_remove_first(
                                oc[a].1.lookup(q.drop_first()),
                                *subscriber,
                            ));
                        }
                    }
                }
            }
        }
        self.prune_children();
        removed
    }
}

/// `s` without its trailing `/` characters.
pub open spec fn trim_slashes(s: Seq<char>) -> Seq<char>
    decreases s.len(),
{
    if s.len() > 0 && s.last() == '/' {
        trim_slashes(s.drop_last())
    } else {
        s
    }
}

/// Each level followed by `/`.
pub open spec fn joined_levels(k: Seq<Seq<char>>) -> Seq<char>
    decreases k.len(),
{
    if k.len() == 0 {
        Seq::empty()
    } else {
        k[0] + seq!['/'] + joined_levels(k.drop_first())
    }
}

/// The filter text reported for the list at the filter levels `k`, under
/// the text `p` of the levels above: the levels joined by `/`, without
/// trailing `/` (so a list under trailing empty levels is reported without
/// them), ending in `+` or `#` for the wildcard lists.
pub open spec fn filter_text(p: Seq<char>, k: Seq<Seq<char>>) -> Seq<char> {
    if k.len() > 0 && (k.last() == plus_level() || k.last() == hash_level()) {
        (p + joined_levels(k)).drop_last()
    } else {
        trim_slashes(p + joined_levels(k))
    }
}

/// The filter texts of the lists (at the levels `ks`) that hold `v`, in
/// order.
pub open spec fn filters_at<V>(lists: Seq<Seq<V>>, ks: Seq<Seq<Seq<char>>>, v: V, p: Seq<char>) -> Seq<Seq<char>>
    decreases ks.len(),
{
    if ks.len() == 0 || lists.len() == 0 {
        Seq::empty()
    } else {
        (if lists[0].contains(v) {
            seq![filter_text(p, ks[0])]
        } else {
            Seq::empty()
        }) + filters_at(lists.drop_first(), ks.drop_first(), v, p)
    }
}

/// The texts of two runs of lists, one after the other.
proof fn lemma_filters_at_concat<V>(
    la: Seq<Seq<V>>,
    ka: Seq<Seq<Seq<char>>>,
    lb: Seq<Seq<V>>,
    kb: Seq<Seq<Seq<char>>>,
    v: V,
    p: Seq<char>,
)
    requires
        la.len() == ka.len(),
        lb.len() == kb.len(),
    ensures
        filters_at(la + lb, ka + kb, v, p) == filters_at(la, ka, v, p) + filters_at(lb, kb, v, p),
    decreases ka.len(),
{
    if ka.len() == 0 {
        assert(la + lb =~= lb);
        assert(ka + kb =~= kb);
    } else {
        assert((la + lb).drop_first() =~= la.drop_first() + lb);
        assert((ka + kb).drop_first() =~= ka.drop_first() + kb);
        lemma_filters_at_concat(la.drop_first(), ka.drop_first(), lb, kb, v, p);
        assert((la + lb)[0] == la[0]);
        assert((ka + kb)[0] == ka[0]);
    }
}

/// The text of levels under `l` is the text of the rest under `l/`.
proof fn lemma_filter_text_prefixed(p: Seq<char>, l: Seq<char>, k: Seq<Seq<char>>)
    requires
        k.len() == 0 ==> l != plus_level() && l != hash_level(),
    ensures
        filter_text(p, seq![l] + k) == filter_text(p + l + seq!['/'], k),
{
    let lk = seq![l] + k;
    assert(lk[0] == l);
    assert(lk.drop_first() =~= k);
    assert(joined_levels(lk) == l + seq!['/'] + joined_levels(k));
    assert(p + joined_levels(lk) =~= (p + l + seq!['/']) + joined_levels(k));
    if k.len() > 0 {
        assert(lk.last() == k.last());
    } else {
        assert(lk.last() == l);
    }
}

/// The texts of lists under `l` are the texts under `l/` of the rest.
proof fn lemma_filters_at_prefixed<V>(lists: Seq<Seq<V>>, l: Seq<char>, ks: Seq<Seq<Seq<char>>>, v: V, p: Seq<char>)
    requires
        lists.len() == ks.len(),
        forall|x: int| 0 <= x < ks.len() && (#[trigger] ks[x]).len() == 0 ==> l != plus_level() && l != hash_level(),
    ensures
        filters_at(lists, prefixed(l, ks), v, p) == filters_at(lists, ks, v, p + l + seq!['/']),
    decreases ks.len(),
{
    if ks.len() > 0 {
        let pk = prefixed(l, ks);
        assert(pk.drop_first() =~= prefixed(l, ks.drop_first()));
        assert forall|x: int| 0 <= x < ks.drop_first().len() && (#[trigger] ks.drop_first()[x]).len() == 0 implies l
            != plus_level() && l != hash_level() by {
            assert(ks.drop_first()[x] == ks[x + 1]);
        }
        lemma_filters_at_prefixed(lists.drop_first(), l, ks.drop_first(), v, p);
        lemma_filter_text_prefixed(p, l, ks[0]);
        assert(pk[0] == seq![l] + ks[0]);
    }
}

/// The lists (at the levels `ks`) whose filter matches the topic levels
/// `t`, in order.
pub open spec fn matching_lists<V>(lists: Seq<Seq<V>>, ks: Seq<Seq<Seq<char>>>, t: Seq<Seq<char>>) -> Seq<Seq<V>>
    decreases ks.len(),
{
    if ks.len() == 0 || lists.len() == 0 {
        Seq::empty()
    } else {
        (if levels_match(ks[0], t) {
            seq![lists[0]]
        } else {
            Seq::empty()
        }) + matching_lists(lists.drop_first(), ks.drop_first(), t)
    }
}

/// Topic levels without wildcards.
pub open spec fn plain_levels(t: Seq<Seq<char>>) -> bool {
    forall|i: int| 0 <= i < t.len() ==> #[trigger] t[i] != plus_level() && t[i] != hash_level()
}

/// The matching lists of two runs of lists, one after the other.
proof fn lemma_matching_concat<V>(
    la: Seq<Seq<V>>,
    ka: Seq<Seq<Seq<char>>>,
    lb: Seq<Seq<V>>,
    kb: Seq<Seq<Seq<char>>>,
    t: Seq<Seq<char>>,
)
    requires
        la.len() == ka.len(),
        lb.len() == kb.len(),
    ensures
        matching_lists(la + lb, ka + kb, t) == matching_lists(la, ka, t) + matching_lists(lb, kb, t),
    decreases ka.len(),
{
    if ka.len() == 0 {
        assert(la + lb =~= lb);
        assert(ka + kb =~= kb);
    } else {
        assert((la + lb).drop_first() =~= la.drop_first() + lb);
        assert((ka + kb).drop_first() =~= ka.drop_first() + kb);
        lemma_matching_concat(la.drop_first(), ka.drop_first(), lb, kb, t);
        assert((la + lb)[0] == la[0]);
        assert((ka + kb)[0] == ka[0]);
    }
}

/// Lists under the level `l` match `t` when `l` matches its first level and
/// the rest matches the rest.
proof fn lemma_matching_prefixed<V>(lists: Seq<Seq<V>>, l: Seq<char>, ks: Seq<Seq<Seq<char>>>, t: Seq<Seq<char>>)
    requires
        lists.len() == ks.len(),
        l != hash_level(),
    ensures
        matching_lists(lists, prefixed(l, ks), t) == (if t.len() > 0 && (l == plus_level() || l == t[0]) {
            matching_lists(lists, ks, t.drop_first())
        } else {
            Seq::<Seq<V>>::empty()
        }),
    decreases ks.len(),
{
    if ks.len() > 0 {
        let pk = prefixed(l, ks);
        assert(pk.drop_first() =~= prefixed(l, ks.drop_first()));
        lemma_matching_prefixed(lists.drop_first(), l, ks.drop_first(), t);
        let f = pk[0];
        assert(f == seq![l] + ks[0]);
        assert(f[0] == l);
        assert(f.drop_first() =~= ks[0]);
    }
}

/// The texts of a list of strings.
pub open spec fn strings_view(v: Seq<String>) -> Seq<Seq<char>> {
    v.map_values(|s: String| s@)
}

/// The filters under which this node's own lists hold `v`, the node being
/// reached by `prefix` (its levels, each followed by `/`).
pub open spec fn own_filters<V>(lists: (Seq<V>, Seq<V>, Seq<V>), v: V, prefix: Seq<char>) -> Seq<Seq<char>> {
    (if lists.0.contains(v) {
        seq![trim_slashes(prefix)]
    } else {
        Seq::empty()
    }) + (if lists.1.contains(v) {
        seq![prefix + seq!['+']]
    } else {
        Seq::empty()
    }) + (if lists.2.contains(v) {
        seq![prefix + seq!['#']]
    } else {
        Seq::empty()
    })
}

impl<V> TrieNode<V> {
    /// The filters under which `v` is stored at or below this node, counting
    /// the first `n` children.
    pub closed spec fn filters_upto(self, v: V, prefix: Seq<char>, n: int) -> Seq<Seq<char>>
        decreases self, n,
    {
        if n <= 0 {
            own_filters(
                (self.subscribers@, self.single_wild_subscribers@, self.multi_wild_subscribers@),
                v,
                prefix,
            )
        } else if n - 1 < self.children@.len() {
            proof {
                assert(decreases_to!(self => self.children@[n - 1].1));
            }
            self.filters_upto(v, prefix, n - 1) + self.children@[n - 1].1.filters_upto(
                v,
                prefix + self.children@[n - 1].0@ + seq!['/'],
                self.children@[n - 1].1.children@.len() as int,
            )
        } else {
            self.filters_upto(v, prefix, n - 1)
        }
    }

    /// The filters under which `v` is stored at or below this node.
    pub closed spec fn filters_of(self, v: V, prefix: Seq<char>) -> Seq<Seq<char>> {
        self.filters_upto(v, prefix, self.children@.len() as int)
    }

    /// The values up to child `n` hold `v` exactly when one of this node's
    /// lists or one of the first `n` children does.
    proof fn lemma_values_upto_contains(self, v: V, n: int)
        requires
            0 <= n <= self.children@.len(),
        ensures
            self.values_upto(n).contains(v) <==> (self.subscribers@.contains(v)
                || self.single_wild_subscribers@.contains(v) || self.multi_wild_subscribers@.contains(v)
                || exists|i: int| 0 <= i < n && #[trigger] self.children@[i].1.all_values().contains(v)),
        decreases n,
    {
        if n > 0 {
            self.lemma_values_upto_contains(v, n - 1);
            lemma_concat_contains(self.values_upto(n - 1), self.children@[n - 1].1.all_values(), v);
            if self.children@[n - 1].1.all_values().contains(v) {
                assert(exists|i: int| 0 <= i < n && #[trigger] self.children@[i].1.all_values().contains(v));
            }
        } else {
            let a = self.subscribers@;
            let b = self.single_wild_subscribers@;
            let c = self.multi_wild_subscribers@;
            lemma_concat_contains(a, b, v);
            lemma_concat_contains(a + b, c, v);
        }
    }

    /// The values at or below this node hold `v` exactly when some list does.
    proof fn lemma_all_values_contains(self, v: V)
        requires
            self.wf(),
        ensures
            self.all_values().contains(v) <==> exists|k: Seq<Seq<char>>| #[trigger] self.lookup(k).contains(v),
        decreases self,
    {
        let ch = self.children@;
        self.lemma_values_upto_contains(v, ch.len() as int);
        if self.all_values().contains(v) {
            if self.subscribers@.contains(v) {
                assert(self.lookup(Seq::empty()).contains(v));
            } else if self.single_wild_subscribers@.contains(v) {
                lemma_wildcards_differ();
                assert(self.lookup(seq![plus_level()]).contains(v));
            } else if self.multi_wild_subscribers@.contains(v) {
                assert(self.lookup(seq![hash_level()]).contains(v));
            } else {
                let i = choose|i: int| 0 <= i < ch.len() && #[trigger] ch[i].1.all_values().contains(v);
                assert(decreases_to!(self => ch[i].1));
                ch[i].1.lemma_all_values_contains(v);
                let k2 = choose|k: Seq<Seq<char>>| #[trigger] ch[i].1.lookup(k).contains(v);
                let k = seq![ch[i].0@] + k2;
                assert(k.drop_first() =~= k2);
                lemma_child_index_unique(ch, i);
                assert(ch[i].0@ != hash_level());
                if ch[i].0@ == plus_level() && k2.len() == 0 {
                    assert(ch[i].1.subscribers@.len() == 0);
                    assert(false);
                }
                assert(self.lookup(k) == ch[i].1.lookup(k2));
            }
        }
        if exists|k: Seq<Seq<char>>| #[trigger] self.lookup(k).contains(v) {
            let k = choose|k: Seq<Seq<char>>| #[trigger] self.lookup(k).contains(v);
            if k.len() > 0 && k[0] != hash_level() && !(k[0] == plus_level() && k.len() == 1) {
                let j = child_index(ch, k[0]);
                lemma_child_index(ch, k[0]);
                if 0 <= j < ch.len() {
                    assert(decreases_to!(self => ch[j].1));
                    ch[j].1.lemma_all_values_contains(v);
                    assert(ch[j].1.lookup(k.drop_first()).contains(v));
                    assert(ch[j].1.all_values().contains(v));
                }
            }
        }
    }

    /// Some list up to child `n` holds `v` exactly when the values up to
    /// child `n` hold it.
    proof fn lemma_holders_upto_contains(self, v: V, n: int)
        requires
            0 <= n <= self.children@.len(),
        ensures
            (self.holders_upto(v, n) > 0) == self.values_upto(n).contains(v),
        decreases self, n,
    {
        if n > 0 {
            self.lemma_holders_upto_contains(v, n - 1);
            let c = self.children@[n - 1].1;
            assert(decreases_to!(self => c));
            c.lemma_holders_upto_contains(v, c.children@.len() as int);
            lemma_concat_contains(self.values_upto(n - 1), c.all_values(), v);
        } else {
            let a = self.subscribers@;
            let b = self.single_wild_subscribers@;
            let d = self.multi_wild_subscribers@;
            lemma_concat_contains(a, b, v);
            lemma_concat_contains(a + b, d, v);
        }
    }

    /// One filter for each list that holds `v`.
    proof fn lemma_filters_upto_len(self, v: V, prefix: Seq<char>, n: int)
        ensures
            self.filters_upto(v, prefix, n).len() == self.holders_upto(v, n),
        decreases self, n,
    {
        if n > 0 {
            self.lemma_filters_upto_len(v, prefix, n - 1);
            if n - 1 < self.children@.len() {
                let c = self.children@[n - 1];
                assert(decreases_to!(self => c.1));
                c.1.lemma_filters_upto_len(v, prefix + c.0@ + seq!['/'], c.1.children@.len() as int);
            }
        }
    }

    /// The filter levels of the lists at or below this node, counting the
    /// first `n` children: this node's three lists, then each child's, under
    /// the child's label (a `+` child's own subscriber list, always empty,
    /// is left out: its levels address this node's `+` list).
    pub closed spec fn slots_upto(self, n: int) -> Seq<Seq<Seq<char>>>
        decreases self, n,
    {
        if n <= 0 {
            seq![Seq::<Seq<char>>::empty(), seq![plus_level()], seq![hash_level()]]
        } else if n - 1 < self.children@.len() {
            let c = self.children@[n - 1];
            proof {
                assert(decreases_to!(self => c.1));
            }
            let cs = c.1.slots_upto(c.1.children@.len() as int);
            self.slots_upto(n - 1) + prefixed(c.0@, if c.0@ == plus_level() {
                cs.drop_first()
            } else {
                cs
            })
        } else {
            self.slots_upto(n - 1)
        }
    }

    /// The filter levels of every list at or below this node.
    pub closed spec fn all_slots(self) -> Seq<Seq<Seq<char>>> {
        self.slots_upto(self.children@.len() as int)
    }

    /// The lists at the filter levels `ks`.
    spec fn lists_at(self, ks: Seq<Seq<Seq<char>>>) -> Seq<Seq<V>> {
        ks.map_values(|k: Seq<Seq<char>>| self.lookup(k))
    }

    /// The first levels are this node's own list's; all the others are
    /// longer.
    proof fn lemma_slots_shape(self, n: int)
        requires
            0 <= n <= self.children@.len(),
        ensures
            self.slots_upto(n).len() >= 3,
            self.slots_upto(n)[0] == Seq::<Seq<char>>::empty(),
            forall|i: int| 1 <= i < self.slots_upto(n).len() ==> #[trigger] self.slots_upto(n)[i].len() > 0,
        decreases n,
    {
        if n > 0 {
            self.lemma_slots_shape(n - 1);
        }
    }

    /// The values up to child `n` are the lists at the slots up to child
    /// `n`, in order.
    proof fn lemma_values_are_lists_upto(self, n: int)
        requires
            self.wf(),
            0 <= n <= self.children@.len(),
        ensures
            self.values_upto(n) == self.lists_at(self.slots_upto(n)).flatten(),
        decreases self, n,
    {
        lemma_wildcards_differ();
        if n == 0 {
            let l = self.lists_at(self.slots_upto(0));
            assert(self.lookup(seq![plus_level()]) == self.single_wild_subscribers@);
            assert(l =~= seq![self.subscribers@, self.single_wild_subscribers@, self.multi_wild_subscribers@]);
            reveal_with_fuel(Seq::flatten, 4);
            assert(l.flatten() =~= self.subscribers@ + self.single_wild_subscribers@ + self.multi_wild_subscribers@);
        } else {
            self.lemma_values_are_lists_upto(n - 1);
            let ch = self.children@;
            let c = ch[n - 1];
            assert(decreases_to!(self => c.1));
            let cn = c.1.children@.len() as int;
            c.1.lemma_values_are_lists_upto(cn);
            c.1.lemma_slots_shape(cn);
            let cs = c.1.slots_upto(cn);
            let ks = if c.0@ == plus_level() { cs.drop_first() } else { cs };
            let a = self.slots_upto(n - 1);
            let b = prefixed(c.0@, ks);
            assert(self.slots_upto(n) == a + b);
            assert(self.lists_at(a + b) =~= self.lists_at(a) + self.lists_at(b));
            lemma_flatten_concat(self.lists_at(a), self.lists_at(b));
            lemma_child_index_unique(ch, n - 1);
            assert(c.0@ != hash_level());
            assert(self.lists_at(b) =~= c.1.lists_at(ks)) by {
                assert forall|x: int| 0 <= x < ks.len() implies self.lookup(#[trigger] b[x]) == c.1.lookup(ks[x]) by {
                    let q = b[x];
                    assert(q == seq![c.0@] + ks[x]);
                    assert(q.drop_first() =~= ks[x]);
                    if c.0@ == plus_level() {
                        assert(ks[x] == cs[x + 1]);
                        assert(ks[x].len() > 0);
                    }
                }
            }
            if c.0@ == plus_level() {
                let lc = c.1.lists_at(cs);
                assert(c.1.subscribers@.len() == 0);
                assert(lc[0] == c.1.lookup(Seq::empty()));
                assert(c.1.lists_at(ks) =~= lc.drop_first());
                assert(lc.flatten() == lc.first() + lc.drop_first().flatten());
                assert(lc.flatten() =~= lc.drop_first().flatten());
            }
        }
    }


    /// Slots up to child `m` come first among those up to child `n`.
    proof fn lemma_slots_prefix(self, m: int, n: int)
        requires
            0 <= m <= n <= self.children@.len(),
        ensures
            self.slots_upto(m).len() <= self.slots_upto(n).len(),
            forall|i: int| 0 <= i < self.slots_upto(m).len() ==> #[trigger] self.slots_upto(n)[i] == self.slots_upto(m)[i],
        decreases n,
    {
        if n > m {
            self.lemma_slots_prefix(m, n - 1);
        }
    }

    /// No two slots address the same list.
    proof fn lemma_slots_distinct(self, n: int)
        requires
            self.wf(),
            0 <= n <= self.children@.len(),
        ensures
            forall|a: int, b: int|
                0 <= a < b < self.slots_upto(n).len() ==> !same_slot(
                    #[trigger] self.slots_upto(n)[a],
                    #[trigger] self.slots_upto(n)[b],
                ),
        decreases self, n,
    {
        lemma_wildcards_differ();
        if n == 0 {
            let sl = self.slots_upto(0);
            assert(plus_level()[0] != hash_level()[0]);
            assert forall|a: int, b: int| 0 <= a < b < sl.len() implies !same_slot(#[trigger] sl[a], #[trigger] sl[b]) by {
                if a == 1 && b == 2 {
                    assert(sl[a][0] == plus_level());
                    assert(sl[b][0] == hash_level());
                }
            }
        } else {
            self.lemma_slots_distinct(n - 1);
            self.lemma_slots_shape(n - 1);
            let ch = self.children@;
            let c = ch[n - 1];
            assert(decreases_to!(self => c.1));
            let cn = c.1.children@.len() as int;
            c.1.lemma_slots_distinct(cn);
            c.1.lemma_slots_shape(cn);
            let cs = c.1.slots_upto(cn);
            let ks = if c.0@ == plus_level() { cs.drop_first() } else { cs };
            let a0 = self.slots_upto(n - 1);
            let b0 = prefixed(c.0@, ks);
            let sl = self.slots_upto(n);
            assert(sl == a0 + b0);
            assert(c.0@ != hash_level());
            assert forall|x: int| 0 <= x < ks.len() implies (#[trigger] ks[x]).len() > 0 || c.0@ != plus_level() by {
                if c.0@ == plus_level() {
                    assert(ks[x] == cs[x + 1]);
                }
            }
            assert forall|a: int, b: int| 0 <= a < b < sl.len() implies !same_slot(#[trigger] sl[a], #[trigger] sl[b]) by {
                if b >= a0.len() {
                    let y = b - a0.len();
                    let q = sl[b];
                    assert(q == seq![c.0@] + ks[y]);
                    assert(q[0] == c.0@);
                    assert(q.drop_first() =~= ks[y]);
                    if a >= a0.len() {
                        let x = a - a0.len();
                        let p = sl[a];
                        assert(p == seq![c.0@] + ks[x]);
                        assert(p.drop_first() =~= ks[x]);
                        if c.0@ == plus_level() {
                            assert(ks[x] == cs[x + 1]);
                            assert(ks[y] == cs[y + 1]);
                        }
                    } else if a == 0 {
                    } else if a == 1 || a == 2 {
                        assert(a0[a] == self.slots_upto(0)[a]) by {
                            self.lemma_slots_prefix(0, n - 1);
                        }
                    } else {
                        // a slot of an earlier child, under another label
                        let p = sl[a];
                        self.lemma_slot_label(n - 1, a);
                        assert(p[0] != c.0@) by {
                            let i = choose|i: int| 0 <= i < n - 1 && p[0] == #[trigger] ch[i].0@;
                            assert(ch[i].0@ != ch[n - 1].0@);
                        }
                    }
                }
            }
        }
    }

    /// A slot past this node's own lists starts with the label of one of the
    /// first `n` children, which is neither `#` nor, alone, `+`.
    proof fn lemma_slot_label(self, n: int, a: int)
        requires
            self.wf(),
            0 <= n <= self.children@.len(),
            3 <= a < self.slots_upto(n).len(),
        ensures
            exists|i: int| 0 <= i < n && self.slots_upto(n)[a][0] == #[trigger] self.children@[i].0@,
            self.slots_upto(n)[a][0] != hash_level(),
            !(self.slots_upto(n)[a][0] == plus_level() && self.slots_upto(n)[a].len() == 1),
        decreases n,
    {
        if n > 0 {
            self.lemma_slots_shape(n - 1);
            let a0 = self.slots_upto(n - 1);
            if a < a0.len() {
                self.lemma_slot_label(n - 1, a);
                let i = choose|i: int| 0 <= i < n - 1 && a0[a][0] == #[trigger] self.children@[i].0@;
                assert(self.slots_upto(n)[a] == a0[a]);
            } else {
                let c = self.children@[n - 1];
                let cn = c.1.children@.len() as int;
                c.1.lemma_slots_shape(cn);
                let cs = c.1.slots_upto(cn);
                let ks = if c.0@ == plus_level() { cs.drop_first() } else { cs };
                let x = a - a0.len();
                assert(self.slots_upto(n)[a] == seq![c.0@] + ks[x]);
                assert(self.slots_upto(n)[a][0] == self.children@[n - 1].0@);
                if c.0@ == plus_level() {
                    assert(ks[x] == cs[x + 1]);
                }
            }
        }
    }


    /// Every list that holds something is at one of the slots.
    proof fn lemma_slots_cover(self, k: Seq<Seq<char>>)
        requires
            self.wf(),
            self.lookup(k).len() > 0,
        ensures
            exists|i: int| 0 <= i < self.all_slots().len() && same_slot(k, #[trigger] self.all_slots()[i]),
        decreases self,
    {
        lemma_wildcards_differ();
        let ch = self.children@;
        let n = ch.len() as int;
        let sl = self.all_slots();
        self.lemma_slots_shape(n);
        self.lemma_slots_prefix(0, n);
        if k.len() == 0 {
            assert(same_slot(k, sl[0]));
        } else if k[0] == hash_level() {
            assert(sl[2] == seq![hash_level()]);
            assert(same_slot(k, sl[2]));
        } else if k[0] == plus_level() && k.len() == 1 {
            assert(sl[1] == seq![plus_level()]);
            assert(same_slot(k, sl[1]));
        } else {
            let j = child_index(ch, k[0]);
            lemma_child_index(ch, k[0]);
            assert(0 <= j < n);
            let c = ch[j];
            assert(decreases_to!(self => c.1));
            let k2 = k.drop_first();
            c.1.lemma_slots_cover(k2);
            let cn = c.1.children@.len() as int;
            c.1.lemma_slots_shape(cn);
            let cs = c.1.slots_upto(cn);
            let x = choose|x: int| 0 <= x < cs.len() && same_slot(k2, #[trigger] cs[x]);
            let ks = if c.0@ == plus_level() { cs.drop_first() } else { cs };
            let y = if c.0@ == plus_level() { x - 1 } else { x };
            if c.0@ == plus_level() {
                if x == 0 {
                    assert(k2.len() == 0);
                    assert(false);
                }
                assert(ks[y] == cs[x]);
            }
            let a0 = self.slots_upto(j);
            self.lemma_slots_prefix(j + 1, n);
            let idx = a0.len() + y;
            assert(self.slots_upto(j + 1) == a0 + prefixed(c.0@, ks));
            let q = self.slots_upto(j + 1)[idx];
            assert(q == seq![c.0@] + ks[y]);
            assert(sl[idx] == q);
            assert(q.drop_first() =~= ks[y]);
            assert(q[0] == k[0]);
            if c.0@ == plus_level() {
                assert(ks[y].len() > 0);
            }
            assert(same_slot(k, sl[idx]));
        }
    }


    /// The filters under which `v` is stored, counting the first `n`
    /// children, are the texts of the lists at the slots that hold `v`.
    proof fn lemma_filters_are_texts(self, v: V, p: Seq<char>, n: int)
        requires
            self.wf(),
            0 <= n <= self.children@.len(),
        ensures
            self.filters_upto(v, p, n) == filters_at(self.lists_at(self.slots_upto(n)), self.slots_upto(n), v, p),
        decreases self, n,
    {
        lemma_wildcards_differ();
        if n == 0 {
            let ks = self.slots_upto(0);
            let l = self.lists_at(ks);
            assert(self.lookup(seq![plus_level()]) == self.single_wild_subscribers@);
            assert(l =~= seq![self.subscribers@, self.single_wild_subscribers@, self.multi_wild_subscribers@]);
            assert(joined_levels(Seq::<Seq<char>>::empty()) =~= Seq::<char>::empty());
            assert(p + joined_levels(Seq::<Seq<char>>::empty()) =~= p);
            assert(seq![plus_level()].drop_first() =~= Seq::<Seq<char>>::empty());
            assert(joined_levels(seq![plus_level()]) =~= seq!['+', '/']);
            assert(seq![hash_level()].drop_first() =~= Seq::<Seq<char>>::empty());
            assert(joined_levels(seq![hash_level()]) =~= seq!['#', '/']);
            assert((p + seq!['+', '/']).drop_last() =~= p + seq!['+']);
            assert((p + seq!['#', '/']).drop_last() =~= p + seq!['#']);
            assert(l.drop_first() =~= seq![self.single_wild_subscribers@, self.multi_wild_subscribers@]);
            assert(ks.drop_first() =~= seq![seq![plus_level()], seq![hash_level()]]);
            assert(l.drop_first().drop_first() =~= seq![self.multi_wild_subscribers@]);
            assert(ks.drop_first().drop_first() =~= seq![seq![hash_level()]]);
            assert(l.drop_first().drop_first().drop_first() =~= Seq::<Seq<V>>::empty());
            assert(filter_text(p, Seq::<Seq<char>>::empty()) == trim_slashes(p));
            assert(seq![plus_level()].last() == plus_level());
            assert(filter_text(p, seq![plus_level()]) == p + seq!['+']);
            assert(seq![hash_level()].last() == hash_level());
            assert(filter_text(p, seq![hash_level()]) == p + seq!['#']);
            reveal_with_fuel(filters_at, 4);
            assert(filters_at(l, ks, v, p) =~= own_filters(
                (self.subscribers@, self.single_wild_subscribers@, self.multi_wild_subscribers@),
                v,
                p,
            ));
        } else {
            self.lemma_filters_are_texts(v, p, n - 1);
            self.lemma_slots_shape(n - 1);
            let ch = self.children@;
            let c = ch[n - 1];
            assert(decreases_to!(self => c.1));
            let cn = c.1.children@.len() as int;
            let p2 = p + c.0@ + seq!['/'];
            c.1.lemma_filters_are_texts(v, p2, cn);
            c.1.lemma_slots_shape(cn);
            let cs = c.1.slots_upto(cn);
            let ks = if c.0@ == plus_level() { cs.drop_first() } else { cs };
            let a = self.slots_upto(n - 1);
            let b = prefixed(c.0@, ks);
            assert(self.slots_upto(n) == a + b);
            assert(self.lists_at(a + b) =~= self.lists_at(a) + self.lists_at(b));
            lemma_filters_at_concat(self.lists_at(a), a, self.lists_at(b), b, v, p);
            lemma_child_index_unique(ch, n - 1);
            assert(c.0@ != hash_level());
            assert forall|x: int| 0 <= x < ks.len() && (#[trigger] ks[x]).len() == 0 implies c.0@ != plus_level()
                && c.0@ != hash_level() by {
                if c.0@ == plus_level() {
                    assert(ks[x] == cs[x + 1]);
                }
            }
            assert(self.lists_at(b) =~= c.1.lists_at(ks)) by {
                assert forall|x: int| 0 <= x < ks.len() implies self.lookup(#[trigger] b[x]) == c.1.lookup(ks[x]) by {
                    let q = b[x];
                    assert(q == seq![c.0@] + ks[x]);
                    assert(q.drop_first() =~= ks[x]);
                    if c.0@ == plus_level() {
                        assert(ks[x] == cs[x + 1]);
                        assert(ks[x].len() > 0);
                    }
                }
            }
            lemma_filters_at_prefixed(c.1.lists_at(ks), c.0@, ks, v, p);
            if c.0@ == plus_level() {
                let lc = c.1.lists_at(cs);
                assert(c.1.subscribers@.len() == 0);
                assert(lc[0] == c.1.lookup(Seq::empty()));
                assert(!lc[0].contains(v));
                assert(c.1.lists_at(ks) =~= lc.drop_first());
            }
        }
    }


    /// This node's own lists that match the topic levels `t`.
    spec fn own_matching(self, t: Seq<Seq<char>>) -> Seq<V> {
        (if t.len() == 0 {
            self.subscribers@
        } else if t.len() == 1 {
            self.single_wild_subscribers@
        } else {
            Seq::empty()
        }) + self.multi_wild_subscribers@
    }

    /// What matching collects below child `i` when it is among the first
    /// `n` and its label is `label`.
    spec fn below_child(self, label: Seq<char>, t: Seq<Seq<char>>, n: int) -> Multiset<V> {
        let i = child_index(self.children@, label);
        if t.len() > 0 && 0 <= i < n && i < self.children@.len() {
            self.children@[i].1.collect(t.drop_first()).to_multiset()
        } else {
            Multiset::empty()
        }
    }

    /// The matching lists at the slots up to child `n`: this node's own,
    /// and what matching collects below the `+` child and the child of the
    /// first level, where they are among the first `n`.
    proof fn lemma_matching_upto(self, t: Seq<Seq<char>>, n: int)
        requires
            self.wf(),
            plain_levels(t),
            0 <= n <= self.children@.len(),
        ensures
            matching_lists(self.lists_at(self.slots_upto(n)), self.slots_upto(n), t).flatten().to_multiset()
                == self.own_matching(t).to_multiset().add(self.below_child(plus_level(), t, n)).add(
                self.below_child(if t.len() > 0 { t[0] } else { Seq::empty() }, t, n),
            ),
        decreases self, n,
    {
        lemma_wildcards_differ();
        let ch = self.children@;
        let first = if t.len() > 0 { t[0] } else { Seq::<char>::empty() };
        if n == 0 {
            let ks = self.slots_upto(0);
            let l = self.lists_at(ks);
            assert(self.lookup(seq![plus_level()]) == self.single_wild_subscribers@);
            assert(l =~= seq![self.subscribers@, self.single_wild_subscribers@, self.multi_wild_subscribers@]);
            assert(seq![plus_level()].drop_first() =~= Seq::<Seq<char>>::empty());
            assert(levels_match(seq![hash_level()], t));
            assert(levels_match(Seq::<Seq<char>>::empty(), t) == (t.len() == 0));
            if t.len() > 0 {
                assert(seq![plus_level()][0] == plus_level());
                assert(levels_match(seq![plus_level()], t) == levels_match(
                    Seq::<Seq<char>>::empty(),
                    t.drop_first(),
                ));
            }
            assert(levels_match(seq![plus_level()], t) == (t.len() == 1));
            assert(l.drop_first() =~= seq![self.single_wild_subscribers@, self.multi_wild_subscribers@]);
            assert(ks.drop_first() =~= seq![seq![plus_level()], seq![hash_level()]]);
            assert(l.drop_first().drop_first() =~= seq![self.multi_wild_subscribers@]);
            assert(ks.drop_first().drop_first() =~= seq![seq![hash_level()]]);
            reveal_with_fuel(matching_lists, 4);
            let m = matching_lists(l, ks, t);
            reveal_with_fuel(Seq::flatten, 3);
            if t.len() == 0 {
                assert(m =~= seq![self.subscribers@, self.multi_wild_subscribers@]);
            } else if t.len() == 1 {
                assert(m =~= seq![self.single_wild_subscribers@, self.multi_wild_subscribers@]);
            } else {
                assert(m =~= seq![self.multi_wild_subscribers@]);
            }
            assert(m.flatten() =~= self.own_matching(t));
            assert(self.below_child(plus_level(), t, 0) =~= Multiset::empty());
            assert(self.below_child(first, t, 0) =~= Multiset::empty());
            assert(self.own_matching(t).to_multiset().add(Multiset::empty()).add(Multiset::empty())
                =~= self.own_matching(t).to_multiset());
        } else {
            self.lemma_matching_upto(t, n - 1);
            self.lemma_slots_shape(n - 1);
            let c = ch[n - 1];
            assert(decreases_to!(self => c.1));
            let cn = c.1.children@.len() as int;
            c.1.lemma_slots_shape(cn);
            let cs = c.1.slots_upto(cn);
            let ks = if c.0@ == plus_level() { cs.drop_first() } else { cs };
            let a = self.slots_upto(n - 1);
            let b = prefixed(c.0@, ks);
            assert(self.slots_upto(n) == a + b);
            assert(self.lists_at(a + b) =~= self.lists_at(a) + self.lists_at(b));
            lemma_matching_concat(self.lists_at(a), a, self.lists_at(b), b, t);
            lemma_child_index_unique(ch, n - 1);
            assert(c.0@ != hash_level());
            assert(self.lists_at(b) =~= c.1.lists_at(ks)) by {
                assert forall|x: int| 0 <= x < ks.len() implies self.lookup(#[trigger] b[x]) == c.1.lookup(ks[x]) by {
                    let q = b[x];
                    assert(q == seq![c.0@] + ks[x]);
                    assert(q.drop_first() =~= ks[x]);
                    if c.0@ == plus_level() {
                        assert(ks[x] == cs[x + 1]);
                        assert(ks[x].len() > 0);
                    }
                }
            }
            lemma_matching_prefixed(c.1.lists_at(ks), c.0@, ks, t);
            let ma = matching_lists(self.lists_at(a), a, t);
            let mb = matching_lists(self.lists_at(b), b, t);
            lemma_flatten_concat(ma, mb);
            vstd::seq_lib::lemma_multiset_commutative(ma.flatten(), mb.flatten());
            lemma_child_index(ch, plus_level());
            lemma_child_index(ch, first);
            let wild = child_index(ch, plus_level());
            let exact = child_index(ch, first);
            if t.len() > 0 && (c.0@ == plus_level() || c.0@ == t[0]) {
                let t2 = t.drop_first();
                assert(plain_levels(t2)) by {
                    assert forall|x: int| 0 <= x < t2.len() implies #[trigger] t2[x] != plus_level() && t2[x] != hash_level() by {
                        assert(t2[x] == t[x + 1]);
                    }
                }
                c.1.lemma_matching_all(t2);
                assert(t[0] != plus_level());
                let lc = c.1.lists_at(cs);
                if c.0@ == plus_level() {
                    assert(wild == n - 1);
                    assert(exact != n - 1);
                    assert(c.1.subscribers@.len() == 0);
                    assert(lc[0] == c.1.lookup(Seq::empty()));
                    assert(c.1.lists_at(ks) =~= lc.drop_first());
                    let mc = matching_lists(lc, cs, t2);
                    let md = matching_lists(lc.drop_first(), cs.drop_first(), t2);
                    if levels_match(cs[0], t2) {
                        assert(mc == seq![lc[0]] + md);
                        assert(mc.flatten() =~= md.flatten()) by {
                            assert((seq![lc[0]] + md).drop_first() =~= md);
                            assert(lc[0] =~= Seq::<V>::empty());
                        }
                    } else {
                        assert(mc == Seq::<Seq<V>>::empty() + md);
                        assert(mc =~= md);
                    }
                } else {
                    assert(exact == n - 1);
                    assert(wild != n - 1);
                }
            } else {
                assert(mb =~= Seq::<Seq<V>>::empty());
                assert(mb.flatten() =~= Seq::<V>::empty());
                assert(t.len() > 0 ==> wild != n - 1);
                assert(t.len() > 0 ==> exact != n - 1);
            }
            assert(self.below_child(plus_level(), t, n) =~= (if wild == n - 1 && t.len() > 0 {
                c.1.collect(t.drop_first()).to_multiset()
            } else {
                self.below_child(plus_level(), t, n - 1)
            }));
            assert(self.below_child(first, t, n) =~= (if exact == n - 1 && t.len() > 0 {
                c.1.collect(t.drop_first()).to_multiset()
            } else {
                self.below_child(first, t, n - 1)
            }));
            if wild == n - 1 && t.len() > 0 {
                assert(self.below_child(plus_level(), t, n - 1) =~= Multiset::empty());
            }
            if exact == n - 1 && t.len() > 0 {
                assert(self.below_child(first, t, n - 1) =~= Multiset::empty());
            }
            broadcast use vstd::multiset::group_multiset_axioms;
        }
    }

    /// What matching collects at or below this node is, as a multiset, the
    /// contents of the lists at the slots whose filter matches.
    proof fn lemma_matching_all(self, t: Seq<Seq<char>>)
        requires
            self.wf(),
            plain_levels(t),
        ensures
            self.collect(t).to_multiset() == matching_lists(self.lists_at(self.all_slots()), self.all_slots(), t).flatten().to_multiset(),
        decreases self, self.children@.len() + 1,
    {
        let n = self.children@.len() as int;
        self.lemma_matching_upto(t, n);
        let ch = self.children@;
        let first = if t.len() > 0 { t[0] } else { Seq::<char>::empty() };
        lemma_child_index(ch, plus_level());
        lemma_child_index(ch, first);
        let multi = self.multi_wild_subscribers@;
        let wild_c = if t.len() > 0 && 0 <= child_index(ch, plus_level()) < n {
            ch[child_index(ch, plus_level())].1.collect(t.drop_first())
        } else {
            Seq::empty()
        };
        let exact_c = if t.len() > 0 && 0 <= child_index(ch, first) < n {
            ch[child_index(ch, first)].1.collect(t.drop_first())
        } else {
            Seq::empty()
        };
        broadcast use vstd::seq_lib::lemma_multiset_commutative;
        broadcast use vstd::multiset::group_multiset_axioms;
        broadcast use vstd::seq_lib::group_to_multiset_ensures;
        assert(Seq::<V>::empty().to_multiset() =~= Multiset::<V>::empty());
        if t.len() == 0 {
            assert(self.collect(t) == multi + self.subscribers@);
            assert(self.own_matching(t) == self.subscribers@ + multi);
        } else {
            let own = if t.len() == 1 { self.single_wild_subscribers@ } else { Seq::empty() };
            assert(self.collect(t) == multi + (own + wild_c + exact_c));
            assert(self.own_matching(t) == own + multi);
            assert(wild_c.to_multiset() == self.below_child(plus_level(), t, n));
            assert(exact_c.to_multiset() == self.below_child(first, t, n));
        }
    }

}

/// `s` without its trailing `/` characters.
fn trim_trailing_slashes(s: &str) -> (r: String)
    ensures
        r@ == trim_slashes(s@),
{
    let chars = chars_of(s);
    let mut end = chars.len();
    assert(s@.take(end as int) =~= s@);
    while end > 0 && chars[end - 1] == '/'
        invariant
            end <= chars@.len(),
            chars@ == s@,
            trim_slashes(s@) == trim_slashes(s@.take(end as int)),
        decreases end,
    {
        assert(s@.take(end as int - 1) =~= s@.take(end as int).drop_last());
        end = end - 1;
    }
    assert(trim_slashes(s@.take(end as int)) == s@.take(end as int));
    s.substring_char(0, end).to_string()
}

/// `prefix` followed by `suffix`.
fn joined(prefix: &String, suffix: &str) -> (r: String)
    ensures
        r@ == prefix@ + suffix@,
{
    let mut r = prefix.clone();
    r.append(suffix);
    r
}

impl<V: PartialEq> TrieNode<V> {
    /// Append the filters under which `subscriber` is stored at or below
    /// this node, reached by `prefix`.
    fn get_subscriptions_recursive(&self, subscriber: &V, prefix: &String, results: &mut Vec<String>)
        ensures
            obeys_concrete_eq::<V>() ==> strings_view(final(results)@) == strings_view(old(results)@)
                + self.filters_of(*subscriber, prefix@),
        decreases self,
    {
        proof {
            reveal_strlit("+");
            reveal_strlit("#");
            reveal_strlit("/");
            assert("+"@ =~= seq!['+']);
            assert("#"@ =~= seq!['#']);
            assert("/"@ =~= seq!['/']);
        }
        let ghost start = strings_view(results@);
        let ghost lists = (self.subscribers@, self.single_wild_subscribers@, self.multi_wild_subscribers@);
        // This node
        let in_subscribers = vec_contains(&self.subscribers, subscriber);
        if in_subscribers {
            results.push(trim_trailing_slashes(prefix.as_str()));
        }
        let ghost after_own = strings_view(results@);
        if vec_contains(&self.single_wild_subscribers, subscriber) {
            results.push(joined(prefix, "+"));
        }
        if vec_contains(&self.multi_wild_subscribers, subscriber) {
            results.push(joined(prefix, "#"));
        }
        proof {
            if obeys_concrete_eq::<V>() {
                assert(strings_view(results@) =~= start + own_filters(lists, *subscriber, prefix@));
            }
        }
        // The children
        let mut i: usize = 0;
        while i < self.children.len()
            invariant
                i <= self.children@.len(),
                "/"@ == seq!['/'],
                obeys_concrete_eq::<V>() ==> strings_view(results@) == start + self.filters_upto(
                    *subscriber,
                    prefix@,
                    i as int,
                ),
            decreases self.children@.len() - i,
        {
            let level = &self.children[i].0;
            let mut new_prefix = joined(prefix, level.as_str());
            new_prefix.append("/");
            proof {
                assert(decreases_to!(self => self.children@[i as int].1));
            }
            self.children[i].1.get_subscriptions_recursive(subscriber, &new_prefix, results);
            proof {
                if obeys_concrete_eq::<V>() {
                    assert(strings_view(results@) =~= start + self.filters_upto(
                        *subscriber,
                        prefix@,
                        i as int + 1,
                    ));
                }
            }
            i = i + 1;
        }
    }
}

impl<V: PartialEq> TopicTrie<V> {
    /// The subscribers that matching the topic levels `t` collects, in order.
    pub closed spec fn matched(&self, t: Seq<Seq<char>>) -> Seq<V> {
        self.root.collect(t)
    }

    /// Every stored value, in the trie's order.
    pub closed spec fn values(&self) -> Seq<V> {
        self.root.all_values()
    }

    /// How many subscriber lists hold `v`.
    pub closed spec fn lists_holding(&self, v: V) -> nat {
        self.root.holders(v)
    }

    /// The filters under which `v` is stored, in the trie's order.
    pub closed spec fn filters_holding(&self, v: V) -> Seq<Seq<char>> {
        self.root.filters_of(v, Seq::empty())
    }

    /// Remove a subscription. Returns true if it was found and removed.
    pub fn remove(&mut self, filter: &str, subscriber: &V) -> (r: bool)
        requires
            old(self).wf(),
        ensures
            final(self).wf(),
            forall|q: Seq<Seq<char>>|
                #[trigger] final(self).at(q) == (if same_slot(q, split_levels(filter@)) {
                    final(self).at(split_levels(filter@))
                } else {
                    old(self).at(q)
                }),
            obeys_concrete_eq::<V>() ==> r == old(self).at(split_levels(filter@)).contains(
                *subscriber,
            ) && final(self).at(split_levels(filter@)) == swap_remove_first(
                old(self).at(split_levels(filter@)),
                *subscriber,
            ),
            !r ==> final(self).at(split_levels(filter@)) == old(self).at(split_levels(filter@)),
            old(self).at(split_levels(filter@)).len() == 0 ==> !r,
            final(self).count() == if r && old(self).count() > 0 {
                (old(self).count() - 1) as nat
            } else {
                old(self).count()
            },
            final(self).values().len() == old(self).values().len() - (if r {
                1int
            } else {
                0int
            }),
            final(self).counts_all() == old(self).counts_all(),
    {
        let levels = topic_levels(filter);
        assert(strs_view(levels@).skip(0) =~= split_levels(filter@));
        let removed = self.root.remove_recursive(&levels, 0, subscriber);
        if removed {
            self.subscription_count = self.subscription_count.saturating_sub(1);
        }
        removed
    }

    /// Find all subscribers matching a topic name.
    pub fn matches(&self, topic: &str) -> (r: Vec<&V>)
        ensures
            derefs(r@) == self.matched(split_levels(topic@)),
    {
        let mut results: Vec<&V> = Vec::new();
        let levels = topic_levels(topic);
        assert(strs_view(levels@).skip(0) =~= split_levels(topic@));
        self.root.matches_recursive(&levels, 0, &mut results);
        assert(derefs(results@) =~= self.matched(split_levels(topic@)));
        results
    }

    /// All values matching a topic (the same as `matches`).
    pub fn get_matching(&self, topic: &str) -> (r: Vec<&V>)
        ensures
            derefs(r@) == self.matched(split_levels(topic@)),
    {
        self.matches(topic)
    }

    /// Remove a subscriber from every list. Returns how many lists held it.
    pub fn remove_subscriber(&mut self, subscriber: &V) -> (r: usize)
        requires
            old(self).wf(),
        ensures
            final(self).wf(),
            obeys_concrete_eq::<V>() ==> r == capped_usize(old(self).lists_holding(*subscriber)),
            obeys_concrete_eq::<V>() ==> forall|q: Seq<Seq<char>>| #[trigger] final(self).at(q)
                == swap_remove_first(old(self).at(q), *subscriber),
            final(self).count() == if old(self).count() >= r {
                (old(self).count() - r) as nat
            } else {
                0
            },
            final(self).counts_all() == old(self).counts_all(),
            old(self).counts_all() ==> final(self).values().len() == old(self).values().len() - r,
    {
        let removed = self.root.remove_subscriber_recursive(subscriber);
        self.subscription_count = self.subscription_count.saturating_sub(removed);
        removed
    }

    /// All topic filters under which a subscriber is stored.
    pub fn get_subscriptions(&self, subscriber: &V) -> (r: Vec<String>)
        ensures
            obeys_concrete_eq::<V>() ==> strings_view(r@) == self.filters_holding(*subscriber),
            obeys_concrete_eq::<V>() && self.wf() ==> strings_view(r@) == filters_at(
                self.lists(),
                self.slots(),
                *subscriber,
                Seq::empty(),
            ),
    {
        let mut results: Vec<String> = Vec::new();
        let prefix = String::new();
        self.root.get_subscriptions_recursive(subscriber, &prefix, &mut results);
        proof {
            if self.wf() {
                self.lemma_filters_holding(*subscriber);
            }
            if obeys_concrete_eq::<V>() {
                assert(strings_view(results@) =~= self.filters_holding(*subscriber));
            }
        }
        results
    }

    /// The first value stored under an exact filter (no wildcard matching).
    pub fn get(&self, filter: &str) -> (r: Option<&V>)
        ensures
            match r {
                Some(x) => self.at(split_levels(filter@)).len() > 0 && *x == self.at(
                    split_levels(filter@),
                )[0],
                None => self.at(split_levels(filter@)).len() == 0,
            },
    {
        let levels = topic_levels(filter);
        assert(strs_view(levels@).skip(0) =~= split_levels(filter@));
        self.root.get_recursive(&levels, 0)
    }

    /// The first value stored under an exact filter, mutably. Writing
    /// through it replaces that value and leaves every other list as it was.
    pub fn get_mut(&mut self, filter: &str) -> (r: Option<&mut V>)
        requires
            old(self).wf(),
        ensures
            final(self).wf(),
            final(self).count() == old(self).count(),
            final(self).values().len() == old(self).values().len(),
            final(self).counts_all() == old(self).counts_all(),
            match r {
                Some(x) => {
                    &&& old(self).at(split_levels(filter@)).len() > 0
                    &&& *x == old(self).at(split_levels(filter@))[0]
                    &&& forall|q: Seq<Seq<char>>|
                        #[trigger] final(self).at(q) == (if same_slot(q, split_levels(filter@)) {
                            old(self).at(q).update(0, *final(x))
                        } else {
                            old(self).at(q)
                        })
                },
                None => {
                    &&& old(self).at(split_levels(filter@)).len() == 0
                    &&& forall|q: Seq<Seq<char>>| #[trigger] final(self).at(q) == old(self).at(q)
                },
            },
    {
        let levels = topic_levels(filter);
        assert(strs_view(levels@).skip(0) =~= split_levels(filter@));
        self.root.get_mut_recursive(&levels, 0)
    }

    /// Remove every subscriber stored under an exact filter. Returns true if
    /// something was removed.
    pub fn remove_filter(&mut self, filter: &str) -> (r: bool)
        requires
            old(self).wf(),
        ensures
            final(self).wf(),
            forall|q: Seq<Seq<char>>|
                #[trigger] final(self).at(q) == (if same_slot(q, split_levels(filter@)) {
                    Seq::<V>::empty()
                } else {
                    old(self).at(q)
                }),
            r == (old(self).at(split_levels(filter@)).len() > 0),
            final(self).count() == if old(self).count() >= old(self).at(split_levels(filter@)).len() {
                (old(self).count() - old(self).at(split_levels(filter@)).len()) as nat
            } else {
                0
            },
            final(self).values().len() == old(self).values().len() - old(self).at(split_levels(filter@)).len(),
            final(self).counts_all() == old(self).counts_all(),
    {
        let levels = topic_levels(filter);
        assert(strs_view(levels@).skip(0) =~= split_levels(filter@));
        let removed = self.root.remove_filter_recursive(&levels, 0);
        if removed > 0 {
            self.subscription_count = self.subscription_count.saturating_sub(removed);
        }
        proof {
            assert forall|q: Seq<Seq<char>>| #[trigger] self.at(q) == (if same_slot(q, split_levels(filter@)) {
                Seq::<V>::empty()
            } else {
                old(self).at(q)
            }) by {
                if same_slot(q, split_levels(filter@)) {
                    assert(self.root.lookup(split_levels(filter@)) =~= Seq::<V>::empty());
                }
            }
        }
        removed > 0
    }

    /// All values in the trie.
    pub fn iter_values(&self) -> (r: Vec<&V>)
        ensures
            derefs(r@) == self.values(),
    {
        let mut values: Vec<&V> = Vec::new();
        self.root.collect_values(&mut values);
        assert(derefs(values@) =~= self.values());
        values
    }

    /// Filters that address the same list see the same list.
    pub proof fn lemma_same_slot_at(&self, q: Seq<Seq<char>>, k: Seq<Seq<char>>)
        requires
            same_slot(q, k),
        ensures
            self.at(q) == self.at(k),
    {
        self.root.lemma_same_slot_lookup(q, k);
    }

    /// The subscribers that matching collects are exactly those stored under
    /// a filter that matches the topic levels.
    pub proof fn lemma_matches(&self, t: Seq<Seq<char>>, v: V)
        requires
            self.wf(),
        ensures
            self.matched(t).contains(v) <==> exists|k: Seq<Seq<char>>|
                levels_match(k, t) && #[trigger] self.at(k).contains(v),
    {
        self.root.lemma_collect(t, v);
        if self.matched(t).contains(v) {
            let k = choose|k: Seq<Seq<char>>| levels_match(k, t) && #[trigger] self.root.lookup(k).contains(v);
            assert(self.at(k).contains(v));
        }
        if exists|k: Seq<Seq<char>>| levels_match(k, t) && #[trigger] self.at(k).contains(v) {
            let k = choose|k: Seq<Seq<char>>| levels_match(k, t) && #[trigger] self.at(k).contains(v);
            assert(self.root.lookup(k).contains(v));
        }
    }

    /// Removing a subscription that an insert has just added gives back
    /// every list the trie held before the insert.
    pub proof fn lemma_insert_then_remove(t0: &Self, t1: &Self, t2: &Self, filter: Seq<char>, s: V)
        requires
            obeys_concrete_eq::<V>(),
            !t0.at(split_levels(filter)).contains(s),
            forall|q: Seq<Seq<char>>|
                #[trigger] t1.at(q) == (if same_slot(q, split_levels(filter)) {
                    t0.at(q).push(s)
                } else {
                    t0.at(q)
                }),
            forall|q: Seq<Seq<char>>|
                #[trigger] t2.at(q) == (if same_slot(q, split_levels(filter)) {
                    t2.at(split_levels(filter))
                } else {
                    t1.at(q)
                }),
            t2.at(split_levels(filter)) == swap_remove_first(t1.at(split_levels(filter)), s),
        ensures
            forall|q: Seq<Seq<char>>| #[trigger] t2.at(q) == t0.at(q),
    {
        let k = split_levels(filter);
        lemma_same_slot_refl(k);
        let a = t0.at(k);
        let b = a.push(s);
        assert(t1.at(k) == b);
        b.index_of_first_ensures(s);
        assert(b[a.len() as int] == s);
        assert(b.contains(s));
        let i = b.index_of_first(s).unwrap();
        assert(i == a.len()) by {
            if i < a.len() {
                assert(a[i] == s);
                assert(a.contains(s));
            }
        }
        assert(swap_remove_first(b, s) =~= a);
        assert forall|q: Seq<Seq<char>>| #[trigger] t2.at(q) == t0.at(q) by {
            if same_slot(q, k) {
                t0.lemma_same_slot_at(q, k);
            }
        }
    }
}

impl<V: PartialEq> Default for TopicTrie<V> {
    fn default() -> (r: Self)
        ensures
            r.wf(),
            r.count() == 0,
            r.counts_all(),
            r.values().len() == 0,
            forall|k: Seq<Seq<char>>| r.at(k).len() == 0,
    {
        TopicTrie::new()
    }
}

} // verus!
