//! Packet identifier allocation for QoS 1 and 2 flows.

use vstd::prelude::*;

use std::collections::HashSet;

verus! {

broadcast use vstd::std_specs::hash::group_hash_axioms;

/// The identifier after `n`: 1 to 65535 in a cycle (0 goes to 1).
pub open spec fn next_after(n: u16) -> u16 {
    if n == 65535 {
        1
    } else {
        (n + 1) as u16
    }
}

/// The identifier `j` steps after `s`.
pub open spec fn advance(s: u16, j: nat) -> u16
    decreases j,
{
    if j == 0 {
        s
    } else {
        next_after(advance(s, (j - 1) as nat))
    }
}

/// `j` steps (at least one) after `s` land at `((s + j - 1) mod 65535) + 1`.
proof fn lemma_advance(s: u16, j: nat)
    requires
        j >= 1,
    ensures
        advance(s, j) as int == ((s + j - 1) % 65535) + 1,
    decreases j,
{
    if j > 1 {
        lemma_advance(s, (j - 1) as nat);
        let x = s + j - 2;
        let v = advance(s, (j - 1) as nat);
        assert(x >= 0);
        assert((x + 1) % 65535 == if x % 65535 == 65534 { 0 } else { x % 65535 + 1 }) by (nonlinear_arith)
            requires
                x >= 0,
        ;
        assert(advance(s, j) == next_after(v));
        if v == 65535 {
            assert(x % 65535 == 65534);
        } else {
            assert(next_after(v) as int == v + 1);
        }
    } else {
        assert(advance(s, 0) == s);
        assert(advance(s, 1) == next_after(s));
        if s < 65535 {
            assert(s % 65535 == s);
        }
    }
}

/// Stepping from a valid identifier stays among the valid ones, 1 to 65535.
proof fn lemma_advance_valid(s: u16, j: nat)
    requires
        s >= 1,
    ensures
        advance(s, j) >= 1,
    decreases j,
{
    if j > 0 {
        lemma_advance_valid(s, (j - 1) as nat);
    }
}

/// What an allocation does, from allocator `a` to `b` with result `r`: it
/// hands out the first identifier not in use from `a.next()` on (wrapping
/// from 65535 to 1), marks it used and moves on past it; it gives `None`,
/// changing nothing, exactly when every identifier from 1 to 65535 is used.
pub open spec fn allocation(a: PacketIdAllocator, b: PacketIdAllocator, r: Option<u16>) -> bool {
    &&& match r {
        Some(id) => {
            &&& !a.used().contains(id)
            &&& b.used() == a.used().insert(id)
            &&& b.next() == next_after(id)
            &&& exists|i: nat|
                i <= 65535 && id == advance(a.next(), i) && forall|j: nat|
                    j < i ==> a.used().contains(#[trigger] advance(a.next(), j))
        },
        None => {
            &&& forall|n: u16| 1 <= n ==> a.used().contains(n)
            &&& b.used() == a.used()
            &&& b.next() == a.next()
        },
    }
    &&& (r is None <==> (a.next() != 0 && forall|n: u16| 1 <= n ==> a.used().contains(n)))
}

/// The valid packet identifiers, 1 to 65535: a finite set of 65535.
proof fn lemma_valid_ids()
    ensures
        Set::new(|n: u16| 1 <= n).finite(),
        Set::new(|n: u16| 1 <= n).len() == 65535,
{
    let r = vstd::set_lib::set_int_range(1, 65536);
    vstd::set_lib::lemma_int_range(1, 65536);
    let f = |i: int| i as u16;
    let full = Set::new(|n: u16| 1 <= n);
    assert(vstd::relations::injective_on(f, r)) by {
        assert forall|x: int, y: int| r.contains(x) && r.contains(y) && #[trigger] f(x) == #[trigger] f(y) implies x == y by {
            assert(x as u16 == x);
            assert(y as u16 == y);
        }
    }
    assert(r.map(f) =~= full) by {
        assert forall|n: u16| full.contains(n) implies r.map(f).contains(n) by {
            assert(r.contains(n as int) && f(n as int) == n);
        }
        assert forall|n: u16| r.map(f).contains(n) implies full.contains(n) by {
            let i = choose|i: int| r.contains(i) && f(i) == n;
            assert(i as u16 == i);
        }
    }
    vstd::set_lib::lemma_map_size(r, full, f);
}

/// With identifier 0 not in use, there is room for an identifier (fewer
/// than 65535 in use) exactly when an allocation succeeds.
pub proof fn lemma_capacity(a: PacketIdAllocator, b: PacketIdAllocator, r: Option<u16>)
    requires
        a.wf(),
        !a.used().contains(0),
        allocation(a, b, r),
    ensures
        (a.used().len() < 65535) == (r is Some),
{
    let full = Set::new(|n: u16| 1 <= n);
    lemma_valid_ids();
    assert(a.used().subset_of(full));
    vstd::set_lib::lemma_len_subset(a.used(), full);
    if r is None {
        assert(full.subset_of(a.used()));
        vstd::set_lib::lemma_len_subset(full, a.used());
    } else if a.used().len() >= 65535 {
        vstd::set_lib::lemma_subset_equality(a.used(), full);
        assert(forall|n: u16| 1 <= n ==> a.used().contains(n));
    }
}

/// Allocator of packet identifiers: it hands out identifiers not in use,
/// searching from `next_id` on, 1 to 65535 in a cycle.
#[derive(Debug)]
pub struct PacketIdAllocator {
    /// Identifiers in use.
    in_use: HashSet<u16>,
    /// The identifier to try first.
    next_id: u16,
}

impl PacketIdAllocator {
    /// The identifiers in use.
    pub closed spec fn used(&self) -> Set<u16> {
        self.in_use@
    }

    /// The identifier to try first.
    pub closed spec fn next(&self) -> u16 {
        self.next_id
    }

    /// The identifier to try first is a valid one, 1 to 65535 (0 is never
    /// a packet identifier).
    pub open spec fn wf(&self) -> bool {
        self.next() >= 1
    }

    /// A new allocator: nothing in use, starting at 1.
    pub fn new() -> (r: Self)
        ensures
            r.used() == Set::<u16>::empty(),
            r.next() == 1,
    {
        PacketIdAllocator { in_use: HashSet::new(), next_id: 1 }
    }

    /// Allocate the first identifier not in use, from `next_id` on; `None`
    /// when every identifier from 1 to 65535 is in use.
    pub fn allocate(&mut self) -> (r: Option<u16>)
        requires
            old(self).wf(),
        ensures
            final(self).wf(),
            allocation(*old(self), *final(self), r),
            r matches Some(id) ==> id >= 1,
    {
        let r = self.allocate_from_next();
        proof {
            if let Some(id) = r {
                let i = choose|i: nat|
                    i <= 65535 && id == advance(old(self).next(), i) && forall|j: nat|
                        j < i ==> old(self).used().contains(#[trigger] advance(old(self).next(), j));
                lemma_advance_valid(old(self).next(), i);
            }
        }
        r
    }

    /// The search of `allocate`.
    fn allocate_from_next(&mut self) -> (r: Option<u16>)
        requires
            !(old(self).next() == 0 && forall|n: u16| old(self).used().contains(n)),
        ensures
            allocation(*old(self), *final(self), r),
    {
        let start = self.next_id;
        if !self.in_use.contains(&self.next_id) {
            let id = self.next_id;
            self.in_use.insert(id);
            self.next_id = if self.next_id == 65535 { 1 } else { self.next_id + 1 };
            proof {
                assert(id == advance(start, 0));
                assert(!old(self).used().contains(id));
            }
            return Some(id);
        }
        let mut steps: u32 = 0;
        loop
            invariant
                steps < 65535,
                self.in_use@ == old(self).in_use@,
                start == old(self).next(),
                self.next_id == advance(start, steps as nat),
                !(start == 0 && forall|n: u16| self.in_use@.contains(n)),
                forall|j: nat| j <= steps ==> self.in_use@.contains(#[trigger] advance(start, j)),
                steps > 0 ==> forall|j: nat| 1 <= j <= steps ==> #[trigger] advance(start, j) != start,
            decreases 65535 - steps,
        {
            let ghost before = self.next_id;
            self.next_id = if self.next_id == 65535 { 1 } else { self.next_id + 1 };
            proof {
                assert(self.next_id == advance(start, (steps + 1) as nat));
            }
            if !self.in_use.contains(&self.next_id) {
                let id = self.next_id;
                self.in_use.insert(id);
                self.next_id = if self.next_id == 65535 { 1 } else { self.next_id + 1 };
                proof {
                    let i = (steps + 1) as nat;
                    assert(id == advance(start, i));
                    assert forall|j: nat| j < i implies old(self).used().contains(#[trigger] advance(start, j)) by {}
                    assert(old(self).in_use@.contains(advance(start, steps as nat)));
                    assert(i <= 65535);
                    assert(!old(self).used().contains(id));
                }
                return Some(id);
            }
            if self.next_id == start {
                proof {
                    // every identifier from 1 to 65535 was visited
                    lemma_advance(start, (steps + 1) as nat);
                    assert(start >= 1);
                    assert((start + steps) % 65535 == start - 1);
                    assert(steps == 65534) by {
                        if start + steps < 65535 {
                            assert((start + steps) % 65535 == start + steps);
                        } else {
                            assert((start + steps) % 65535 == start + steps - 65535);
                        }
                    }
                    assert forall|n: u16| 1 <= n implies old(self).used().contains(n) by {
                        let j: nat = if n as int >= start as int {
                            (n - start) as nat
                        } else {
                            (n + 65535 - start) as nat
                        };
                        assert(j <= steps);
                        if j >= 1 {
                            lemma_advance(start, j);
                            if n as int >= start as int {
                                assert((start + j - 1) % 65535 == n - 1);
                            } else {
                                assert((start + j - 1) % 65535 == n - 1);
                            }
                        }
                        assert(advance(start, j) == n);
                    }
                }
                return None;
            }
            proof {
                lemma_advance(start, (steps + 1) as nat);
                if steps + 1 == 65535 {
                    if start != 0 {
                        assert((start + 65534) % 65535 == start - 1);
                        assert(advance(start, 65535) == start);
                    } else {
                        assert forall|n: u16| self.in_use@.contains(n) by {
                            if n == 0 {
                                assert(advance(start, 0) == 0);
                            } else {
                                lemma_advance(start, n as nat);
                                assert((n - 1) % 65535 == n - 1);
                                assert(advance(start, n as nat) == n);
                            }
                        }
                    }
                }
            }
            steps = steps + 1;
        }
    }

    /// Release an identifier.
    pub fn release(&mut self, id: u16)
        ensures
            final(self).used() == old(self).used().remove(id),
            final(self).next() == old(self).next(),
    {
        self.in_use.remove(&id);
    }

    /// Whether an identifier is in use.
    pub fn is_in_use(&self, id: u16) -> (r: bool)
        ensures
            r == self.used().contains(id),
    {
        self.in_use.contains(&id)
    }

    /// Mark an identifier in use (for restored sessions). Returns true if it
    /// was not in use before.
    pub fn mark_in_use(&mut self, id: u16) -> (r: bool)
        ensures
            final(self).used() == old(self).used().insert(id),
            r == !old(self).used().contains(id),
            final(self).next() == old(self).next(),
    {
        self.in_use.insert(id)
    }

    /// The number of identifiers in use.
    pub fn in_use_count(&self) -> (r: usize)
        ensures
            r == self.used().len(),
    {
        self.in_use.len()
    }

    /// Whether an identifier can still be allocated (fewer than 65535 in
    /// use).
    pub fn has_capacity(&self) -> (r: bool)
        ensures
            r == (self.used().len() < 65535),
    {
        self.in_use.len() < 65535
    }

    /// Release all identifiers and start again at 1.
    pub fn clear(&mut self)
        ensures
            final(self).used() == Set::<u16>::empty(),
            final(self).next() == 1,
    {
        self.in_use.clear();
        self.next_id = 1;
    }
}

impl Default for PacketIdAllocator {
    fn default() -> (r: Self)
        ensures
            r.used() == Set::<u16>::empty(),
            r.next() == 1,
    {
        PacketIdAllocator::new()
    }
}

} // verus!
