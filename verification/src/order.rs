//! Keys that candidates are ranked by, and lists kept in their order.

use vstd::prelude::*;

verus! {

/// A sort key of four parts, compared one after the other; the least comes first.
#[derive(Clone, Copy, Debug, PartialEq, Eq, Structural)]
pub struct Key {
    pub a: i128,
    pub b: i128,
    pub c: i128,
    pub d: i128,
}

/// What stands for "never" among instants: later than all of them.
pub const NEVER: i128 = 0x1_0000_0000_0000_0000;

/// An instant as part of a key; an unknown one comes last.
pub open spec fn when_key(at: Option<i64>) -> i128 {
    match at {
        Some(t) => t as i128,
        None => NEVER,
    }
}

/// An instant as part of a key; an unknown one comes last.
pub fn instant_key(at: Option<i64>) -> (r: i128)
    ensures
        r == when_key(at),
{
    match at {
        Some(t) => t as i128,
        None => NEVER,
    }
}

impl Key {
    /// Whether this key comes strictly before another.
    pub open spec fn less(self, other: Key) -> bool {
        ||| self.a < other.a
        ||| self.a == other.a && self.b < other.b
        ||| self.a == other.a && self.b == other.b && self.c < other.c
        ||| self.a == other.a && self.b == other.b && self.c == other.c && self.d < other.d
    }

    /// Whether this key comes strictly before another.
    pub fn precedes(&self, other: &Key) -> (r: bool)
        ensures
            r == self.less(*other),
    {
        if self.a != other.a {
            self.a < other.a
        } else if self.b != other.b {
            self.b < other.b
        } else if self.c != other.c {
            self.c < other.c
        } else {
            self.d < other.d
        }
    }
}

/// `list` with `e` behind everything that does not come after it.
pub open spec fn placed(list: Seq<(Key, u32)>, e: (Key, u32)) -> Seq<(Key, u32)>
    decreases list.len(),
{
    if list.len() > 0 && e.0.less(list.last().0) {
        placed(list.drop_last(), e).push(list.last())
    } else {
        list.push(e)
    }
}

/// Whether a list stands in the order of its keys.
pub open spec fn in_order(list: Seq<(Key, u32)>) -> bool {
    forall|i: int, j: int|
        0 <= i < j < list.len() ==> !(#[trigger] list[j]).0.less((#[trigger] list[i]).0)
}

/// The slots of a list.
pub open spec fn slots_of(list: Seq<(Key, u32)>) -> Seq<u32> {
    list.map_values(|e: (Key, u32)| e.1)
}

proof fn lemma_placed_at(list: Seq<(Key, u32)>, e: (Key, u32), p: int)
    requires
        0 <= p <= list.len(),
        forall|i: int| p <= i < list.len() ==> e.0.less((#[trigger] list[i]).0),
        p > 0 ==> !e.0.less(list[p - 1].0),
    ensures
        placed(list, e) == list.insert(p, e),
    decreases list.len(),
{
    if p < list.len() {
        lemma_placed_at(list.drop_last(), e, p);
        assert(list.drop_last().insert(p, e).push(list.last()) =~= list.insert(p, e));
    } else {
        assert(list.insert(p, e) =~= list.push(e));
    }
}

/// Puts `e` into its place in `list`.
pub fn place(list: &mut Vec<(Key, u32)>, e: (Key, u32))
    ensures
        final(list)@ == placed(old(list)@, e),
{
    let mut p: usize = list.len();
    while p > 0 && e.0.precedes(&list[p - 1].0)
        invariant
            p <= list.len(),
            list@ == old(list)@,
            forall|i: int| p <= i < list.len() ==> e.0.less((#[trigger] list@[i]).0),
        decreases p,
    {
        p -= 1;
    }
    proof {
        lemma_placed_at(list@, e, p as int);
    }
    list.insert(p, e);
}

/// The slots of a list.
pub fn take_slots(list: &Vec<(Key, u32)>) -> (r: Vec<u32>)
    ensures
        r@ == slots_of(list@),
{
    let mut r: Vec<u32> = Vec::new();
    let mut i: usize = 0;
    while i < list.len()
        invariant
            i <= list.len(),
            r@ =~= slots_of(list@).take(i as int),
        decreases list.len() - i,
    {
        r.push(list[i].1);
        i += 1;
    }
    assert(slots_of(list@).take(list@.len() as int) =~= slots_of(list@));
    r
}

/// A list with one entry more in its place is still in order, and holds what it
/// held and that entry.
pub proof fn lemma_placed(list: Seq<(Key, u32)>, e: (Key, u32))
    ensures
        in_order(list) ==> in_order(placed(list, e)),
        placed(list, e).len() == list.len() + 1,
        forall|x: (Key, u32)| #[trigger] placed(list, e).contains(x) <==> list.contains(x) || x == e,
    decreases list.len(),
{
    let out = placed(list, e);
    if list.len() > 0 && e.0.less(list.last().0) {
        let rest = list.drop_last();
        let last = list.last();
        lemma_placed(rest, e);
        let short = placed(rest, e);
        assert forall|x: (Key, u32)| #[trigger] out.contains(x) <==> list.contains(x) || x == e by {
            assert(short.contains(x) <==> rest.contains(x) || x == e);
            if out.contains(x) {
                let i = choose|i: int| 0 <= i < out.len() && out[i] == x;
                if i < short.len() {
                    assert(short[i] == x);
                    if rest.contains(x) {
                        let j = choose|j: int| 0 <= j < rest.len() && rest[j] == x;
                        assert(list[j] == x);
                    }
                } else {
                    assert(list[list.len() - 1] == x);
                }
            }
            if list.contains(x) {
                let j = choose|j: int| 0 <= j < list.len() && list[j] == x;
                if j < rest.len() {
                    assert(rest[j] == x);
                    let i = choose|i: int| 0 <= i < short.len() && short[i] == x;
                    assert(out[i] == x);
                } else {
                    assert(out[out.len() - 1] == x);
                }
            }
            if x == e {
                let i = choose|i: int| 0 <= i < short.len() && short[i] == x;
                assert(out[i] == x);
            }
        }
        if in_order(list) {
            assert(in_order(rest));
            assert forall|i: int, j: int| 0 <= i < j < out.len() implies !(
            #[trigger] out[j]).0.less((#[trigger] out[i]).0) by {
                if j == out.len() - 1 {
                    assert(short.contains(short[i]));
                    if short[i] != e {
                        let k = choose|k: int| 0 <= k < rest.len() && rest[k] == short[i];
                        assert(list[k] == short[i]);
                        assert(!list[list.len() - 1].0.less(list[k].0));
                    }
                } else {
                    assert(!short[j].0.less(short[i].0));
                }
            }
        }
    } else {
        assert forall|x: (Key, u32)| #[trigger] out.contains(x) <==> list.contains(x) || x == e by {
            if list.contains(x) {
                let j = choose|j: int| 0 <= j < list.len() && list[j] == x;
                assert(out[j] == x);
            }
            if x == e {
                assert(out[list.len() as int] == x);
            }
            if out.contains(x) && x != e {
                let i = choose|i: int| 0 <= i < out.len() && out[i] == x;
                assert(list[i] == x);
            }
        }
        if in_order(list) {
            assert forall|i: int, j: int| 0 <= i < j < out.len() implies !(
            #[trigger] out[j]).0.less((#[trigger] out[i]).0) by {
                if j < list.len() {
                    assert(!list[j].0.less(list[i].0));
                } else if i < list.len() - 1 {
                    assert(!list[list.len() - 1].0.less(list[i].0));
                }
            }
        }
    }
}

} // verus!
