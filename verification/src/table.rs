//! A map from texts to values, kept in the order of its keys.

use vstd::prelude::*;

use crate::text::{chars_of, same};

verus! {

/// Whether `a` comes before `b`, by code points.
pub open spec fn before(a: Seq<char>, b: Seq<char>) -> bool
    decreases a.len(),
{
    if b.len() == 0 {
        false
    } else if a.len() == 0 {
        true
    } else if a[0] == b[0] {
        before(a.drop_first(), b.drop_first())
    } else {
        (a[0] as u32) < (b[0] as u32)
    }
}

/// Nothing comes before itself.
pub proof fn law_before_is_irreflexive(a: Seq<char>)
    ensures
        !before(a, a),
    decreases a.len(),
{
    if a.len() > 0 {
        law_before_is_irreflexive(a.drop_first());
    }
}

proof fn lemma_code_points(x: char, y: char)
    ensures
        x == y || (x as u32) < (y as u32) || (y as u32) < (x as u32),
{
}

/// Of two different texts, one comes before the other.
pub proof fn law_before_is_total(a: Seq<char>, b: Seq<char>)
    ensures
        a == b || before(a, b) || before(b, a),
    decreases a.len(),
{
    if a.len() == 0 || b.len() == 0 {
        if a.len() == 0 && b.len() == 0 {
            assert(a =~= b);
        }
    } else if a[0] == b[0] {
        law_before_is_total(a.drop_first(), b.drop_first());
        if a.drop_first() == b.drop_first() {
            assert(a =~= seq![a[0]] + a.drop_first());
            assert(b =~= seq![b[0]] + b.drop_first());
        }
    } else {
        lemma_code_points(a[0], b[0]);
    }
}

/// What comes before a text comes before all that follow it.
pub proof fn law_before_is_transitive(a: Seq<char>, b: Seq<char>, c: Seq<char>)
    requires
        before(a, b),
        before(b, c),
    ensures
        before(a, c),
    decreases a.len(),
{
    if a.len() > 0 && b.len() > 0 && c.len() > 0 && a[0] == b[0] && b[0] == c[0] {
        law_before_is_transitive(a.drop_first(), b.drop_first(), c.drop_first());
    }
}

/// Whether `a` comes before `b`.
pub fn comes_before(a: &str, b: &str) -> (r: bool)
    ensures
        r == before(a@, b@),
{
    let x: Vec<char> = chars_of(a);
    let y: Vec<char> = chars_of(b);
    let mut i: usize = 0;
    assert(x@.skip(0) =~= a@);
    assert(y@.skip(0) =~= b@);
    while i < x.len() && i < y.len()
        invariant
            i <= x.len(),
            i <= y.len(),
            before(a@, b@) == before(x@.skip(i as int), y@.skip(i as int)),
        decreases x.len() - i,
    {
        let ghost s = x@.skip(i as int);
        let ghost t = y@.skip(i as int);
        assert(s[0] == x@[i as int] && t[0] == y@[i as int]);
        if x[i] != y[i] {
            return (x[i] as u32) < (y[i] as u32);
        }
        assert(s.drop_first() =~= x@.skip(i + 1));
        assert(t.drop_first() =~= y@.skip(i + 1));
        i += 1;
    }
    i < y.len()
}

/// A map from texts to values.
#[derive(Debug)]
pub struct Table<V> {
    pub items: Vec<(String, V)>,
}

/// Whether some entry has the key.
pub open spec fn has_key<V>(items: Seq<(String, V)>, key: Seq<char>) -> bool {
    exists|i: int| 0 <= i < items.len() && (#[trigger] items[i]).0@ == key
}

/// The position of a key.
pub open spec fn key_index<V>(items: Seq<(String, V)>, key: Seq<char>) -> int {
    choose|i: int| 0 <= i < items.len() && (#[trigger] items[i]).0@ == key
}

/// Whether the entries stand in the order of their keys, each key once.
pub open spec fn ordered<V>(items: Seq<(String, V)>) -> bool {
    forall|i: int, j: int|
        0 <= i < j < items.len() ==> before((#[trigger] items[i]).0@, (#[trigger] items[j]).0@)
}

/// The map that the entries make.
#[verifier::opaque]
pub open spec fn entries_map<V>(items: Seq<(String, V)>) -> Map<Seq<char>, V> {
    Map::new(|k: Seq<char>| has_key(items, k), |k: Seq<char>| items[key_index(items, k)].1)
}

impl<V> View for Table<V> {
    type V = Map<Seq<char>, V>;

    open spec fn view(&self) -> Map<Seq<char>, V> {
        entries_map(self.items@)
    }
}

proof fn lemma_key_once<V>(items: Seq<(String, V)>, i: int, j: int)
    requires
        ordered(items),
        0 <= i < items.len(),
        0 <= j < items.len(),
        items[i].0@ == items[j].0@,
    ensures
        i == j,
{
    law_before_is_irreflexive(items[i].0@);
}

impl<V> Table<V> {
    /// The keys stand in order, each once.
    pub open spec fn wf(&self) -> bool {
        ordered(self.items@)
    }

    /// The entry at a position is what the map holds under its key.
    pub proof fn lemma_entry(&self, i: int)
        requires
            self.wf(),
            0 <= i < self.items@.len(),
        ensures
            self@.contains_key(self.items@[i].0@),
            self@[self.items@[i].0@] == self.items@[i].1,
    {
        reveal(entries_map);
        let k = self.items@[i].0@;
        assert(has_key(self.items@, k));
        lemma_key_once(self.items@, i, key_index(self.items@, k));
    }

    /// A key of the map has a position.
    pub proof fn lemma_position(&self, key: Seq<char>) -> (i: int)
        requires
            self.wf(),
            self@.contains_key(key),
        ensures
            0 <= i < self.items@.len(),
            self.items@[i].0@ == key,
            self.items@[i].1 == self@[key],
    {
        reveal(entries_map);
        key_index(self.items@, key)
    }

    /// The empty map.
    pub fn new() -> (r: Table<V>)
        ensures
            r.wf(),
            r@ == Map::<Seq<char>, V>::empty(),
            r.items@.len() == 0,
    {
        let r: Table<V> = Table { items: Vec::new() };
        proof {
            reveal(entries_map);
        }
        assert(r@ =~= Map::<Seq<char>, V>::empty());
        r
    }

    /// The first position whose key does not come before `key`.
    fn seek(&self, key: &str) -> (p: usize)
        requires
            self.wf(),
        ensures
            p <= self.items@.len(),
            forall|i: int| 0 <= i < p ==> before((#[trigger] self.items@[i]).0@, key@),
            forall|i: int| p <= i < self.items@.len() ==> !before((#[trigger] self.items@[i]).0@, key@),
    {
        let mut p: usize = 0;
        while p < self.items.len()
            invariant
                self.wf(),
                p <= self.items@.len(),
                forall|i: int| 0 <= i < p ==> before((#[trigger] self.items@[i]).0@, key@),
            decreases self.items.len() - p,
        {
            if !comes_before(self.items[p].0.as_str(), key) {
                assert forall|i: int| p <= i < self.items@.len() implies !before(
                    (#[trigger] self.items@[i]).0@,
                    key@,
                ) by {
                    if i > p && before(self.items@[i].0@, key@) {
                        law_before_is_transitive(
                            self.items@[p as int].0@,
                            self.items@[i].0@,
                            key@,
                        );
                    }
                }
                return p;
            }
            p += 1;
        }
        p
    }

    /// The position of a key, if the map has it.
    pub fn position(&self, key: &str) -> (r: Option<usize>)
        requires
            self.wf(),
        ensures
            r is Some == self@.contains_key(key@),
            r matches Some(i) ==> i < self.items@.len() && self.items@[i as int].0@ == key@
                && self@[key@] == self.items@[i as int].1,
    {
        let p: usize = self.seek(key);
        if p < self.items.len() && same(self.items[p].0.as_str(), key) {
            proof {
                self.lemma_entry(p as int);
            }
            return Some(p);
        }
        proof {
            if self@.contains_key(key@) {
                let i = self.lemma_position(key@);
                law_before_is_irreflexive(key@);
                assert(i >= p);
                if i > p {
                    assert(before(self.items@[p as int].0@, self.items@[i].0@));
                }
            }
        }
        None
    }

    /// The value under a key.
    pub fn get(&self, key: &str) -> (r: Option<&V>)
        requires
            self.wf(),
        ensures
            r is Some == self@.contains_key(key@),
            r matches Some(v) ==> *v == self@[key@],
    {
        match self.position(key) {
            Some(i) => Some(&self.items[i].1),
            None => None,
        }
    }

    /// Whether the map has a key.
    pub fn contains_key(&self, key: &str) -> (r: bool)
        requires
            self.wf(),
        ensures
            r == self@.contains_key(key@),
    {
        self.position(key).is_some()
    }

    /// Puts a value under a key, in place of the one that stood there.
    pub fn insert(&mut self, key: String, value: V)
        requires
            old(self).wf(),
        ensures
            final(self).wf(),
            final(self)@ == old(self)@.insert(key@, value),
    {
        let ghost was = self.items@;
        let ghost map = self@;
        let p: usize = self.seek(key.as_str());
        if p < self.items.len() && same(self.items[p].0.as_str(), key.as_str()) {
            self.items.set(p, (key, value));
            proof {
                let now = self.items@;
                assert forall|i: int, j: int| 0 <= i < j < now.len() implies before(
                    (#[trigger] now[i]).0@,
                    (#[trigger] now[j]).0@,
                ) by {
                    assert(now[i].0@ == was[i].0@ && now[j].0@ == was[j].0@);
                }
                self.lemma_is_insert(old(self), key@, value, p as int);
            }
        } else {
            proof {
                law_before_is_irreflexive(key@);
                assert forall|i: int| p <= i < was.len() implies before(
                    key@,
                    (#[trigger] was[i]).0@,
                ) by {
                    law_before_is_total(key@, was[i].0@);
                    if was[i].0@ == key@ && i > p {
                        assert(before(was[p as int].0@, was[i].0@));
                    }
                }
            }
            self.items.insert(p, (key, value));
            proof {
                let now = self.items@;
                assert forall|i: int, j: int| 0 <= i < j < now.len() implies before(
                    (#[trigger] now[i]).0@,
                    (#[trigger] now[j]).0@,
                ) by {
                    let a = if i < p { i } else { i - 1 };
                    let b = if j < p { j } else { j - 1 };
                    if i != p {
                        assert(now[i] == was[a]);
                    }
                    if j != p {
                        assert(now[j] == was[b]);
                    }
                }
                self.lemma_is_insert(old(self), key@, value, p as int);
            }
        }
    }

    proof fn lemma_is_insert(&self, was: &Table<V>, key: Seq<char>, value: V, p: int)
        requires
            self.wf(),
            was.wf(),
            0 <= p < self.items@.len(),
            self.items@[p].0@ == key,
            self.items@[p].1 == value,
            ({
                ||| {
                    &&& p < was.items@.len()
                    &&& was.items@[p].0@ == key
                    &&& self.items@ == was.items@.update(p, self.items@[p])
                }
                ||| {
                    &&& p <= was.items@.len()
                    &&& self.items@ == was.items@.insert(p, self.items@[p])
                }
            }),
        ensures
            self@ == was@.insert(key, value),
    {
        let grew = self.items@.len() > was.items@.len();
        self.lemma_entry(p);
        let goal = was@.insert(key, value);
        assert forall|k: Seq<char>| #[trigger] self@.dom().contains(k) implies goal.dom().contains(k)
            && self@[k] == goal[k] by {
            if k != key {
                let i = self.lemma_position(k);
                let a = if grew && i > p { i - 1 } else { i };
                assert(was.items@[a] == self.items@[i]);
                was.lemma_entry(a);
            }
        }
        assert forall|k: Seq<char>| #[trigger] goal.dom().contains(k) implies self@.dom().contains(
            k,
        ) by {
            if k != key {
                let a = was.lemma_position(k);
                let i = if grew && a >= p { a + 1 } else { a };
                assert(self.items@[i] == was.items@[a]);
                self.lemma_entry(i);
            }
        }
        assert(self@.dom() =~= goal.dom());
        assert(self@ =~= was@.insert(key, value));
    }

    /// Takes a key out of the map, with its value.
    pub fn remove(&mut self, key: &str) -> (r: Option<V>)
        requires
            old(self).wf(),
        ensures
            final(self).wf(),
            final(self)@ == old(self)@.remove(key@),
            r is Some == old(self)@.contains_key(key@),
            r matches Some(v) ==> v == old(self)@[key@],
    {
        match self.position(key) {
            Some(p) => {
                let ghost was = *self;
                let pair: (String, V) = self.items.remove(p);
                proof {
                    let now = self.items@;
                    assert forall|i: int, j: int| 0 <= i < j < now.len() implies before(
                        (#[trigger] now[i]).0@,
                        (#[trigger] now[j]).0@,
                    ) by {
                        let a = if i < p { i } else { i + 1 };
                        let b = if j < p { j } else { j + 1 };
                        assert(now[i] == was.items@[a] && now[j] == was.items@[b]);
                    }
                    let goal = was@.remove(key@);
                    assert forall|k: Seq<char>| #[trigger]
                        self@.dom().contains(k) implies goal.dom().contains(k) && self@[k]
                        == goal[k] by {
                        let i = self.lemma_position(k);
                        let a = if i < p { i } else { i + 1 };
                        assert(was.items@[a] == now[i]);
                        was.lemma_entry(a);
                        if k == key@ {
                            lemma_key_once(was.items@, a, p as int);
                        }
                    }
                    assert forall|k: Seq<char>| #[trigger]
                        goal.dom().contains(k) implies self@.dom().contains(k) by {
                        let a = was.lemma_position(k);
                        let i = if a < p { a } else { a - 1 };
                        assert(now[i] == was.items@[a]);
                        self.lemma_entry(i);
                    }
                    assert(self@.dom() =~= goal.dom());
                    assert(self@ =~= was@.remove(key@));
                }
                Some(pair.1)
            },
            None => {
                assert(self@ =~= old(self)@.remove(key@));
                None
            },
        }
    }
}

} // verus!
