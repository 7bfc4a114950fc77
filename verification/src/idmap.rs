//! Dense, append-only index maps.
//!
//! The intermediate representation hands out small dense integer ids
//! (temporaries, variables, blocks, functions).  `IdMap` exploits that:
//! a growable array of optional slots, indexed directly by the id, with
//! `reserve`/`clear` semantics that let one map be reused across many
//! functions without giving its capacity back.

use vstd::prelude::*;

verus! {

/// A key that is a dense, zero-based index.
pub trait IndexOf: Sized + Copy {
    /// The index, as a mathematical value.
    spec fn key(self) -> nat;

    /// The index, as a machine value.
    fn index(self) -> (r: usize)
        ensures
            r as nat == self.key(),
    ;
}

/// A map from a dense id type `K` to values `V`, backed by an array of
/// optional slots sized to the largest index reserved so far.
///
/// Reading an unset slot is a programmer error (an id referencing a slot
/// nothing has set); `get` therefore demands a set slot up front.
pub struct IdMap<K, V> {
    vals: Vec<Option<V>>,
    _key: core::marker::PhantomData<K>,
}

impl<K, V> IdMap<K, V> {
    /// The slot array: one optional value per reserved index.
    pub closed spec fn slots(&self) -> Seq<Option<V>> {
        self.vals@
    }

    /// How many indices the map can currently hold.
    pub open spec fn cap(&self) -> nat {
        self.slots().len()
    }
}

impl<K, V: Copy> IdMap<K, V> {
    /// An empty map with no capacity.
    pub fn new() -> (r: Self)
        ensures
            r.cap() == 0,
    {
        Self { vals: Vec::new(), _key: core::marker::PhantomData }
    }

    /// Grows the capacity to at least `new_len`, never shrinking: the
    /// capacity afterwards is the larger of the old capacity and
    /// `new_len`.  Existing slots are untouched; new slots are unset.
    pub fn reserve(&mut self, new_len: usize)
        ensures
            final(self).cap() == if new_len as nat > old(self).cap() {
                new_len as nat
            } else {
                old(self).cap()
            },
            forall|i: int| 0 <= i < old(self).cap() ==> final(self).slots()[i] == old(self).slots()[i],
            forall|i: int|
                old(self).cap() <= i < final(self).cap() ==> final(self).slots()[i] is None,
    {
        while self.vals.len() < new_len
            invariant
                self.vals@.len() <= new_len || self.vals@.len() == old(self).cap(),
                self.vals@.len() >= old(self).cap(),
                forall|i: int| 0 <= i < old(self).cap() ==> self.vals@[i] == old(self).slots()[i],
                forall|i: int| old(self).cap() <= i < self.vals@.len() ==> self.vals@[i] is None,
            decreases new_len - self.vals.len(),
        {
            self.vals.push(None);
        }
    }

    /// Discards every value while keeping the capacity, so the map can be
    /// reused without reallocating.
    pub fn clear(&mut self)
        ensures
            final(self).cap() == old(self).cap(),
            forall|i: int| 0 <= i < final(self).cap() ==> final(self).slots()[i] is None,
    {
        let n = self.vals.len();
        self.vals.clear();
        while self.vals.len() < n
            invariant
                self.vals@.len() <= n,
                forall|i: int| 0 <= i < self.vals@.len() ==> self.vals@[i] is None,
            decreases n - self.vals.len(),
        {
            self.vals.push(None);
        }
    }

    /// The current capacity, as a machine value.
    pub fn capacity(&self) -> (n: usize)
        ensures
            n as nat == self.cap(),
    {
        self.vals.len()
    }
}

impl<K, V: Copy> Default for IdMap<K, V> {
    fn default() -> (r: Self)
        ensures
            r.cap() == 0,
    {
        Self::new()
    }
}

impl<K: Copy + IndexOf, V> IdMap<K, V> {
    /// Looks the value for `k` up.  The slot must have been set: reading
    /// an unset slot indicates an id contract violation upstream, never a
    /// recoverable condition.
    pub fn get(&self, k: K) -> (r: &V)
        requires
            k.key() < self.cap(),
            self.slots()[k.key() as int] is Some,
        ensures
            Some(*r) == self.slots()[k.key() as int],
    {
        match &self.vals[k.index()] {
            Some(v) => v,
            None => vstd::pervasive::unreached(),
        }
    }

    /// Stores `v` at `k`'s index, which must lie inside the reserved
    /// capacity.
    pub fn set(&mut self, k: K, v: V)
        requires
            k.key() < old(self).cap(),
        ensures
            final(self).slots() == old(self).slots().update(k.key() as int, Some(v)),
            final(self).cap() == old(self).cap(),
    {
        let i = k.index();
        self.vals[i] = Some(v);
    }
}

/// The capacity an `IdMap` reaches after a sequence of `reserve` requests:
/// the running maximum of the requests over the starting capacity.
pub open spec fn cap_after(start: nat, requests: Seq<nat>) -> nat
    decreases requests.len(),
{
    if requests.len() == 0 {
        start
    } else {
        let prev = cap_after(start, requests.drop_last());
        if requests.last() > prev {
            requests.last()
        } else {
            prev
        }
    }
}

/// Capacity is monotone: after any sequence of `reserve(n1), reserve(n2), ...`
/// the capacity is at least every request seen so far and at least the
/// starting capacity; together with `cap_after`'s definition it is exactly
/// their maximum.  `clear` keeps the capacity, so it never drops below the
/// last reserved value either.
pub proof fn lemma_capacity_running_max(start: nat, requests: Seq<nat>)
    ensures
        cap_after(start, requests) >= start,
        forall|j: int| 0 <= j < requests.len() ==> cap_after(start, requests) >= requests[j],
        cap_after(start, requests) == start || exists|j: int|
            0 <= j < requests.len() && cap_after(start, requests) == requests[j],
    decreases requests.len(),
{
    if requests.len() > 0 {
        lemma_capacity_running_max(start, requests.drop_last());
        let prev = cap_after(start, requests.drop_last());
        assert(forall|j: int| 0 <= j < requests.len() - 1 ==> requests[j] == requests.drop_last()[j]);
        if requests.last() > prev {
            assert(cap_after(start, requests) == requests[requests.len() - 1]);
        } else {
            if prev != start {
                let j = choose|j: int|
                    0 <= j < requests.drop_last().len() && prev == requests.drop_last()[j];
                assert(cap_after(start, requests) == requests[j]);
            }
        }
    }
}

} // verus!
