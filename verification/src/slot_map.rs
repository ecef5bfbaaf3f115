//! A map from slot numbers to values, kept in the order of the numbers.

use vstd::prelude::*;

verus! {

/// A map from slot numbers to values.
#[derive(Debug)]
pub struct SlotMap<V> {
    pub items: Vec<(u32, V)>,
}

/// Whether some entry has the number.
pub open spec fn has_slot<V>(items: Seq<(u32, V)>, n: u32) -> bool {
    exists|i: int| 0 <= i < items.len() && (#[trigger] items[i]).0 == n
}

/// The position of a number.
pub open spec fn slot_index<V>(items: Seq<(u32, V)>, n: u32) -> int {
    choose|i: int| 0 <= i < items.len() && (#[trigger] items[i]).0 == n
}

/// Whether the numbers rise.
pub open spec fn rising<V>(items: Seq<(u32, V)>) -> bool {
    forall|i: int, j: int|
        0 <= i < j < items.len() ==> (#[trigger] items[i]).0 < (#[trigger] items[j]).0
}

/// The map that the entries make.
#[verifier::opaque]
pub open spec fn slots_map<V>(items: Seq<(u32, V)>) -> Map<u32, V> {
    Map::new(|n: u32| has_slot(items, n), |n: u32| items[slot_index(items, n)].1)
}

impl<V> View for SlotMap<V> {
    type V = Map<u32, V>;

    open spec fn view(&self) -> Map<u32, V> {
        slots_map(self.items@)
    }
}

impl<V> SlotMap<V> {
    /// The numbers rise, so each stands once.
    pub open spec fn wf(&self) -> bool {
        rising(self.items@)
    }

    /// The numbers, from the least on.
    pub open spec fn numbers(&self) -> Seq<u32> {
        self.items@.map_values(|p: (u32, V)| p.0)
    }

    /// The entry at a position is what the map holds under its number.
    pub proof fn lemma_entry(&self, i: int)
        requires
            self.wf(),
            0 <= i < self.items@.len(),
        ensures
            self@.contains_key(self.items@[i].0),
            self@[self.items@[i].0] == self.items@[i].1,
    {
        reveal(slots_map);
        let n = self.items@[i].0;
        assert(has_slot(self.items@, n));
        let j = slot_index(self.items@, n);
        assert(self.items@[j].0 == n);
    }

    /// A number of the map has a position.
    pub proof fn lemma_position(&self, n: u32) -> (i: int)
        requires
            self.wf(),
            self@.contains_key(n),
        ensures
            0 <= i < self.items@.len(),
            self.items@[i].0 == n,
            self.items@[i].1 == self@[n],
    {
        reveal(slots_map);
        slot_index(self.items@, n)
    }

    /// The empty map.
    pub fn new() -> (r: SlotMap<V>)
        ensures
            r.wf(),
            r@ == Map::<u32, V>::empty(),
            r.items@.len() == 0,
    {
        let r: SlotMap<V> = SlotMap { items: Vec::new() };
        proof {
            reveal(slots_map);
        }
        assert(r@ =~= Map::<u32, V>::empty());
        r
    }

    /// The first position whose number is not below `n`.
    fn seek(&self, n: u32) -> (p: usize)
        requires
            self.wf(),
        ensures
            p <= self.items@.len(),
            forall|i: int| 0 <= i < p ==> (#[trigger] self.items@[i]).0 < n,
            forall|i: int| p <= i < self.items@.len() ==> (#[trigger] self.items@[i]).0 >= n,
    {
        let mut p: usize = 0;
        while p < self.items.len()
            invariant
                self.wf(),
                p <= self.items@.len(),
                forall|i: int| 0 <= i < p ==> (#[trigger] self.items@[i]).0 < n,
            decreases self.items.len() - p,
        {
            if self.items[p].0 >= n {
                return p;
            }
            p += 1;
        }
        p
    }

    /// The position of a number, if the map has it.
    pub fn position(&self, n: u32) -> (r: Option<usize>)
        requires
            self.wf(),
        ensures
            r is Some == self@.contains_key(n),
            r matches Some(i) ==> i < self.items@.len() && self.items@[i as int].0 == n && self@[n]
                == self.items@[i as int].1,
    {
        let p: usize = self.seek(n);
        if p < self.items.len() && self.items[p].0 == n {
            proof {
                self.lemma_entry(p as int);
            }
            return Some(p);
        }
        proof {
            if self@.contains_key(n) {
                let i = self.lemma_position(n);
                assert(i >= p);
            }
        }
        None
    }

    /// The value under a number.
    pub fn get(&self, n: u32) -> (r: Option<&V>)
        requires
            self.wf(),
        ensures
            r is Some == self@.contains_key(n),
            r matches Some(v) ==> *v == self@[n],
    {
        match self.position(n) {
            Some(i) => Some(&self.items[i].1),
            None => None,
        }
    }

    /// Whether the map has a number.
    pub fn contains_key(&self, n: u32) -> (r: bool)
        requires
            self.wf(),
        ensures
            r == self@.contains_key(n),
    {
        self.position(n).is_some()
    }

    /// Puts a value under a number, in place of the one that stood there.
    pub fn insert(&mut self, n: u32, value: V)
        requires
            old(self).wf(),
        ensures
            final(self).wf(),
            final(self)@ == old(self)@.insert(n, value),
    {
        let ghost was = self.items@;
        let p: usize = self.seek(n);
        if p < self.items.len() && self.items[p].0 == n {
            self.items.set(p, (n, value));
            proof {
                let now = self.items@;
                assert forall|i: int, j: int| 0 <= i < j < now.len() implies (#[trigger] now[i]).0
                    < (#[trigger] now[j]).0 by {
                    assert(now[i].0 == was[i].0 && now[j].0 == was[j].0);
                }
                self.lemma_is_insert(old(self), n, value, p as int);
            }
        } else {
            self.items.insert(p, (n, value));
            proof {
                let now = self.items@;
                assert forall|i: int, j: int| 0 <= i < j < now.len() implies (#[trigger] now[i]).0
                    < (#[trigger] now[j]).0 by {
                    let a = if i < p { i } else { i - 1 };
                    let b = if j < p { j } else { j - 1 };
                    if i != p {
                        assert(now[i] == was[a]);
                    }
                    if j != p {
                        assert(now[j] == was[b]);
                    }
                    if i == p {
                        assert(was[b].0 >= n);
                        if was[b].0 == n {
                            assert(was[p as int].0 >= n);
                        }
                    }
                }
                self.lemma_is_insert(old(self), n, value, p as int);
            }
        }
    }

    proof fn lemma_is_insert(&self, was: &SlotMap<V>, n: u32, value: V, p: int)
        requires
            self.wf(),
            was.wf(),
            0 <= p < self.items@.len(),
            self.items@[p].0 == n,
            self.items@[p].1 == value,
            ({
                ||| {
                    &&& p < was.items@.len()
                    &&& was.items@[p].0 == n
                    &&& self.items@ == was.items@.update(p, self.items@[p])
                }
                ||| {
                    &&& p <= was.items@.len()
                    &&& self.items@ == was.items@.insert(p, self.items@[p])
                }
            }),
        ensures
            self@ == was@.insert(n, value),
    {
        let grew = self.items@.len() > was.items@.len();
        self.lemma_entry(p);
        let goal = was@.insert(n, value);
        assert forall|k: u32| #[trigger] self@.dom().contains(k) implies goal.dom().contains(k)
            && self@[k] == goal[k] by {
            if k != n {
                let i = self.lemma_position(k);
                let a = if grew && i > p { i - 1 } else { i };
                assert(was.items@[a] == self.items@[i]);
                was.lemma_entry(a);
            }
        }
        assert forall|k: u32| #[trigger] goal.dom().contains(k) implies self@.dom().contains(k) by {
            if k != n {
                let a = was.lemma_position(k);
                let i = if grew && a >= p { a + 1 } else { a };
                assert(self.items@[i] == was.items@[a]);
                self.lemma_entry(i);
            }
        }
        assert(self@.dom() =~= goal.dom());
        assert(self@ =~= was@.insert(n, value));
    }

    /// Takes a number out of the map, with its value.
    pub fn remove(&mut self, n: u32) -> (r: Option<V>)
        requires
            old(self).wf(),
        ensures
            final(self).wf(),
            final(self)@ == old(self)@.remove(n),
            r is Some == old(self)@.contains_key(n),
            r matches Some(v) ==> v == old(self)@[n],
    {
        match self.position(n) {
            Some(p) => {
                let ghost was = *self;
                let pair: (u32, V) = self.items.remove(p);
                proof {
                    let now = self.items@;
                    assert forall|i: int, j: int|
                        0 <= i < j < now.len() implies (#[trigger] now[i]).0 < (
                    #[trigger] now[j]).0 by {
                        let a = if i < p { i } else { i + 1 };
                        let b = if j < p { j } else { j + 1 };
                        assert(now[i] == was.items@[a] && now[j] == was.items@[b]);
                    }
                    let goal = was@.remove(n);
                    assert forall|k: u32| #[trigger]
                        self@.dom().contains(k) implies goal.dom().contains(k) && self@[k]
                        == goal[k] by {
                        let i = self.lemma_position(k);
                        let a = if i < p { i } else { i + 1 };
                        assert(was.items@[a] == now[i]);
                        was.lemma_entry(a);
                    }
                    assert forall|k: u32| #[trigger] goal.dom().contains(k) implies self@.dom().contains(
                        k,
                    ) by {
                        let a = was.lemma_position(k);
                        let i = if a < p { a } else { a - 1 };
                        assert(now[i] == was.items@[a]);
                        self.lemma_entry(i);
                    }
                    assert(self@.dom() =~= goal.dom());
                    assert(self@ =~= was@.remove(n));
                }
                Some(pair.1)
            },
            None => {
                assert(self@ =~= old(self)@.remove(n));
                None
            },
        }
    }
}

/// The map of a prefix with one entry more.
pub proof fn lemma_prefix<V>(items: Seq<(u32, V)>, k: int)
    requires
        rising(items),
        0 <= k < items.len(),
    ensures
        slots_map(items.take(k + 1)) == slots_map(items.take(k)).insert(items[k].0, items[k].1),
        !slots_map(items.take(k)).contains_key(items[k].0),
{
    reveal(slots_map);
    let a = items.take(k);
    let b = items.take(k + 1);
    let goal = slots_map(a).insert(items[k].0, items[k].1);
    assert(b[k].0 == items[k].0);
    assert(!has_slot(a, items[k].0)) by {
        if has_slot(a, items[k].0) {
            let i = slot_index(a, items[k].0);
            assert(items[i].0 < items[k].0);
        }
    }
    assert forall|n: u32| #[trigger] slots_map(b).dom().contains(n) implies goal.dom().contains(n)
        && slots_map(b)[n] == goal[n] by {
        let i = slot_index(b, n);
        if n != items[k].0 {
            assert(a[i].0 == n);
            let j = slot_index(a, n);
            assert(items[i].0 == items[j].0);
            assert(i == j);
        } else {
            assert(items[i].0 == items[k].0);
        }
    }
    assert forall|n: u32| #[trigger] goal.dom().contains(n) implies slots_map(b).dom().contains(
        n,
    ) by {
        if n != items[k].0 {
            let j = slot_index(a, n);
            assert(b[j].0 == n);
        }
    }
    assert(slots_map(b).dom() =~= goal.dom());
    assert(slots_map(b) =~= goal);
}

/// The map of nothing.
pub proof fn lemma_no_entries<V>(items: Seq<(u32, V)>)
    requires
        items.len() == 0,
    ensures
        slots_map(items) == Map::<u32, V>::empty(),
{
    reveal(slots_map);
    assert(slots_map(items) =~= Map::<u32, V>::empty());
}

} // verus!
