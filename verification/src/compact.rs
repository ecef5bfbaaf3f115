//! Renumbering a provider's slots from 1 on.
//!
//! Every move goes down and they are made in ascending order, so a slot always moves
//! into a number that is vacant. A move carries everything that is kept under the
//! number. A slot whose profile is in use cannot move, and stops the renumbering
//! there; what is left is finished another time.

use vstd::prelude::*;
use vstd::string::*;

use crate::errors::ErrorCode;
use crate::slot_map::{rising, slots_map, SlotMap};
use crate::slots::{lists, lists_all, ProviderSlots, Slot};
use crate::text::{decimal, number32, parse_u32, show, texts};

verus! {

/// One slot that takes another number.
#[derive(Clone, Copy, Debug, PartialEq, Eq, Structural)]
pub struct Move {
    pub from: u32,
    pub to: u32,
}

/// What a renumbering did.
#[derive(Debug)]
pub struct Compacted {
    pub moves: Vec<Move>,
    /// Where it stopped, if it did: every slot from there up kept its number.
    pub stopped_at: Option<Stop>,
}

/// Where and why a renumbering stopped.
#[derive(Debug)]
pub struct Stop {
    pub slot: u32,
    pub reason: String,
}

/// The moves that close every gap, ascending.
pub open spec fn closing(items: Seq<(u32, Slot)>) -> Seq<Move>
    decreases items.len(),
{
    if items.len() == 0 {
        Seq::empty()
    } else {
        let rest = closing(items.drop_last());
        let from = items.last().0;
        let to = items.len() as u32;
        if from != to {
            rest.push(Move { from, to })
        } else {
            rest
        }
    }
}

/// Where some number is free, there are fewer slots than numbers.
proof fn lemma_there_is_room(slots: SlotMap<Slot>, free: u32)
    requires
        slots.wf(),
        !slots@.contains_key(free),
    ensures
        slots.items@.len() <= u32::MAX,
{
    let items = slots.items@;
    let count = items.len() as int;
    if count > u32::MAX {
        lemma_gaps(items, 0, free as int);
        lemma_gaps(items, free as int, u32::MAX as int);
        slots.lemma_entry(free as int);
    }
}

proof fn lemma_gaps(items: Seq<(u32, Slot)>, i: int, j: int)
    requires
        rising(items),
        0 <= i <= j < items.len(),
    ensures
        items[j].0 - items[i].0 >= j - i,
    decreases j - i,
{
    if i < j {
        lemma_gaps(items, i, j - 1);
        assert(items[j - 1].0 < items[j].0);
    }
}

/// The moves that close every gap, ascending: the `i`th occupied slot goes to `i`.
pub fn plan(provider: &ProviderSlots) -> (r: Vec<Move>)
    requires
        provider.wf(),
        exists|n: u32| !#[trigger] provider.slots@.contains_key(n),
    ensures
        r@ == closing(provider.slots.items@),
{
    let ghost items = provider.slots.items@;
    proof {
        let free = choose|n: u32| !#[trigger] provider.slots@.contains_key(n);
        lemma_there_is_room(provider.slots, free);
    }
    let mut r: Vec<Move> = Vec::new();
    let mut i: usize = 0;
    assert(items.take(0) =~= Seq::empty());
    while i < provider.slots.items.len()
        invariant
            i <= items.len(),
            items == provider.slots.items@,
            items.len() <= u32::MAX,
            r@ == closing(items.take(i as int)),
        decreases items.len() - i,
    {
        assert(items.take(i + 1).drop_last() =~= items.take(i as int));
        let from: u32 = provider.slots.items[i].0;
        let to: u32 = i as u32 + 1;
        if from != to {
            r.push(Move { from, to });
        }
        i += 1;
    }
    assert(items.take(items.len() as int) =~= items);
    r
}

/// An order in which one number is replaced by another.
pub open spec fn renamed(order: Seq<u32>, from: u32, to: u32) -> Seq<u32> {
    order.map_values(
        |n: u32|
            if n == from {
                to
            } else {
                n
            },
    )
}

/// The slots after a move.
pub open spec fn moved(slots: Map<u32, Slot>, m: Move) -> Map<u32, Slot> {
    slots.remove(m.from).insert(m.to, slots[m.from])
}

/// Moves a row to another number, with its place in the order and whether it is
/// active.
pub fn move_slot(provider: &mut ProviderSlots, m: Move)
    requires
        old(provider).wf(),
        old(provider).slots@.contains_key(m.from),
    ensures
        final(provider).wf(),
        final(provider).slots@ == moved(old(provider).slots@, m),
        final(provider).order@ == renamed(old(provider).order@, m.from, m.to),
        final(provider).active_slot == if old(provider).active_slot == Some(m.from) {
            Some(m.to)
        } else {
            old(provider).active_slot
        },
{
    if let Some(row) = provider.slots.remove(m.from) {
        provider.slots.insert(m.to, row);
    }
    let mut i: usize = 0;
    let ghost order = provider.order@;
    let ghost goal = renamed(order, m.from, m.to);
    while i < provider.order.len()
        invariant
            i <= provider.order@.len(),
            provider.order@.len() == order.len(),
            goal == renamed(order, m.from, m.to),
            forall|k: int| 0 <= k < i ==> provider.order@[k] == goal[k],
            forall|k: int| i <= k < order.len() ==> provider.order@[k] == order[k],
            provider.slots@ == moved(old(provider).slots@, m),
            provider.wf(),
            provider.active_slot == old(provider).active_slot,
        decreases order.len() - i,
    {
        assert(goal[i as int] == if order[i as int] == m.from {
            m.to
        } else {
            order[i as int]
        });
        if provider.order[i] == m.from {
            provider.order.set(i, m.to);
        }
        i += 1;
    }
    assert(provider.order@ =~= goal);
    if let Some(a) = provider.active_slot {
        if a == m.from {
            provider.active_slot = Some(m.to);
        }
    }
}

/// The slots after some moves.
pub open spec fn run_moves(slots: Map<u32, Slot>, moves: Seq<Move>) -> Map<u32, Slot>
    decreases moves.len(),
{
    if moves.len() == 0 {
        slots
    } else {
        moved(run_moves(slots, moves.drop_last()), moves.last())
    }
}

/// A renumbering that goes on.
#[derive(Debug)]
pub struct Renumbering {
    pub plan: Vec<Move>,
    /// The position of the move that is made next.
    pub at: usize,
    pub stopped_at: Option<Stop>,
}

impl Renumbering {
    /// The position lies in the plan.
    pub open spec fn wf(&self) -> bool {
        self.at <= self.plan@.len()
    }

    /// The moves that were made.
    pub open spec fn done(&self) -> Seq<Move> {
        self.plan@.take(self.at as int)
    }

    /// A renumbering that has made no move.
    pub fn new(plan: Vec<Move>) -> (r: Renumbering)
        ensures
            r.wf(),
            r.plan == plan,
            r.at == 0,
            r.stopped_at is None,
    {
        Renumbering { plan, at: 0, stopped_at: None }
    }

    /// The move that is made next, if any.
    pub fn next(&self) -> (r: Option<Move>)
        requires
            self.wf(),
        ensures
            r == (if self.stopped_at is None && self.at < self.plan@.len() {
                Some(self.plan@[self.at as int])
            } else {
                None
            }),
    {
        if self.stopped_at.is_none() && self.at < self.plan.len() {
            Some(self.plan[self.at])
        } else {
            None
        }
    }

    /// Makes the next move in the table.
    pub fn advance(&mut self, provider: &mut ProviderSlots)
        requires
            old(self).wf(),
            old(self).at < old(self).plan@.len(),
            old(provider).wf(),
            old(provider).slots@.contains_key(old(self).plan@[old(self).at as int].from),
        ensures
            final(self).wf(),
            final(self).plan == old(self).plan,
            final(self).at == old(self).at + 1,
            final(self).stopped_at == old(self).stopped_at,
            ({
                let m = old(self).plan@[old(self).at as int];
                &&& final(provider).wf()
                &&& final(provider).slots@ == moved(old(provider).slots@, m)
                &&& final(provider).order@ == renamed(old(provider).order@, m.from, m.to)
                &&& final(provider).active_slot == if old(provider).active_slot == Some(m.from) {
                    Some(m.to)
                } else {
                    old(provider).active_slot
                }
            }),
    {
        let count: usize = self.plan.len();
        let m: Move = self.plan[self.at];
        move_slot(provider, m);
        assert(self.at < count);
        self.at = self.at + 1;
    }

    /// Stops where it is: the slot of the next move keeps its number.
    pub fn stop(&mut self, reason: String)
        requires
            old(self).wf(),
            old(self).at < old(self).plan@.len(),
        ensures
            final(self).wf(),
            final(self).plan == old(self).plan,
            final(self).at == old(self).at,
            final(self).stopped_at == Some(
                Stop { slot: old(self).plan@[old(self).at as int].from, reason },
            ),
    {
        self.stopped_at = Some(Stop { slot: self.plan[self.at].from, reason });
    }

    /// What the renumbering did.
    pub fn finish(self) -> (r: Compacted)
        requires
            self.wf(),
        ensures
            r.moves@ == self.done(),
            r.stopped_at == self.stopped_at,
    {
        let mut moves: Vec<Move> = Vec::new();
        let mut i: usize = 0;
        while i < self.at
            invariant
                i <= self.at <= self.plan@.len(),
                moves@ =~= self.plan@.take(i as int),
            decreases self.at - i,
        {
            moves.push(self.plan[i]);
            i += 1;
        }
        Compacted { moves, stopped_at: self.stopped_at }
    }
}

/// Whether some move goes to a number.
pub open spec fn lands_on(moves: Seq<Move>, n: u32) -> bool {
    exists|i: int| 0 <= i < moves.len() && (#[trigger] moves[i]).to == n
}

/// The numbers that were moved out of, and that nothing moved into.
pub open spec fn vacated_by(moves: Seq<Move>, all: Seq<Move>) -> Seq<u32>
    decreases moves.len(),
{
    if moves.len() == 0 {
        Seq::empty()
    } else {
        let rest = vacated_by(moves.drop_last(), all);
        if lands_on(all, moves.last().from) {
            rest
        } else {
            rest.push(moves.last().from)
        }
    }
}

/// The numbers that were moved out of, and that nothing moved into: what is kept
/// under them is no longer referred to.
pub fn vacated(moves: &Vec<Move>) -> (r: Vec<u32>)
    ensures
        r@ == vacated_by(moves@, moves@),
{
    let mut landed: Vec<u32> = Vec::new();
    let mut k: usize = 0;
    while k < moves.len()
        invariant
            k <= moves.len(),
            landed@.len() == k,
            forall|j: int| 0 <= j < k ==> landed@[j] == (#[trigger] moves@[j]).to,
        decreases moves.len() - k,
    {
        landed.push(moves[k].to);
        k += 1;
    }
    let mut r: Vec<u32> = Vec::new();
    let mut i: usize = 0;
    assert(moves@.take(0) =~= Seq::empty());
    while i < moves.len()
        invariant
            i <= moves.len(),
            landed@.len() == moves@.len(),
            forall|j: int| 0 <= j < moves@.len() ==> landed@[j] == (#[trigger] moves@[j]).to,
            r@ == vacated_by(moves@.take(i as int), moves@),
        decreases moves.len() - i,
    {
        assert(moves@.take(i + 1).drop_last() =~= moves@.take(i as int));
        let n: u32 = moves[i].from;
        let taken: bool = lists(&landed, n);
        proof {
            if taken {
                let j = choose|j: int| 0 <= j < landed@.len() && landed@[j] == n;
                assert(moves@[j].to == n);
            }
            if lands_on(moves@, n) {
                let j = choose|j: int| 0 <= j < moves@.len() && (#[trigger] moves@[j]).to == n;
                assert(landed@[j] == n);
            }
        }
        if !taken {
            r.push(n);
        }
        i += 1;
    }
    assert(moves@.take(moves@.len() as int) =~= moves@);
    r
}

/// The number that a slot has after some moves: that of the first move out of it.
pub open spec fn renumbered(moves: Seq<Move>, n: u32) -> u32
    decreases moves.len(),
{
    if moves.len() == 0 {
        n
    } else if moves[0].from == n {
        moves[0].to
    } else {
        renumbered(moves.drop_first(), n)
    }
}

/// The number that a slot has after some moves.
pub fn renumber(moves: &Vec<Move>, n: u32) -> (r: u32)
    ensures
        r == renumbered(moves@, n),
{
    let mut i: usize = 0;
    assert(moves@.skip(0) =~= moves@);
    while i < moves.len()
        invariant
            i <= moves.len(),
            renumbered(moves@, n) == renumbered(moves@.skip(i as int), n),
        decreases moves.len() - i,
    {
        assert(moves@.skip(i as int)[0] == moves@[i as int]);
        assert(moves@.skip(i as int).drop_first() =~= moves@.skip(i + 1));
        if moves[i].from == n {
            return moves[i].to;
        }
        i += 1;
    }
    n
}

/// A preferred name after some moves: a number follows its slot.
pub open spec fn renamed_pin(moves: Seq<Move>, name: Seq<char>) -> Seq<char> {
    match number32(name) {
        Some(n) => decimal(renumbered(moves, n) as nat),
        None => name,
    }
}

/// A preferred name after some moves: a number follows its slot.
pub fn rename_pin(moves: &Vec<Move>, name: &str) -> (r: String)
    ensures
        r@ == renamed_pin(moves@, name@),
{
    match parse_u32(name) {
        Some(n) => show(renumber(moves, n) as u64),
        None => name.to_owned(),
    }
}

/// Preferred names after some moves.
pub open spec fn renamed_pins(moves: Seq<Move>, names: Seq<Seq<char>>) -> Seq<Seq<char>> {
    names.map_values(|name: Seq<char>| renamed_pin(moves, name))
}

/// Preferred names after some moves: a number follows its slot.
pub fn rename_pins(moves: &Vec<Move>, names: &Vec<String>) -> (r: Vec<String>)
    ensures
        texts(r@) == renamed_pins(moves@, texts(names@)),
{
    let ghost goal = renamed_pins(moves@, texts(names@));
    let mut r: Vec<String> = Vec::new();
    let mut i: usize = 0;
    assert(texts(r@) =~= goal.take(0));
    while i < names.len()
        invariant
            i <= names.len(),
            goal == renamed_pins(moves@, texts(names@)),
            texts(r@) == goal.take(i as int),
        decreases names.len() - i,
    {
        broadcast use crate::text::lemma_texts_push;

        assert(texts(names@)[i as int] == names@[i as int]@);
        r.push(rename_pin(moves, names[i].as_str()));
        assert(texts(r@) =~= goal.take(i + 1));
        i += 1;
    }
    assert(goal.take(goal.len() as int) =~= goal);
    r
}

/// Preferred names but for those that name a slot by its number.
pub open spec fn unpinned(names: Seq<Seq<char>>, n: u32) -> Seq<Seq<char>>
    decreases names.len(),
{
    if names.len() == 0 {
        Seq::empty()
    } else {
        let rest = unpinned(names.drop_last(), n);
        if number32(names.last()) == Some(n) {
            rest
        } else {
            rest.push(names.last())
        }
    }
}

/// Preferred names without those that name a slot by its number, which would name
/// another account once the slot is taken away.
pub fn drop_pins(names: &Vec<String>, n: u32) -> (r: Vec<String>)
    ensures
        texts(r@) == unpinned(texts(names@), n),
{
    let ghost all = texts(names@);
    let mut r: Vec<String> = Vec::new();
    let mut i: usize = 0;
    assert(all.take(0) =~= Seq::empty());
    assert(texts(r@) =~= Seq::empty());
    while i < names.len()
        invariant
            i <= names.len(),
            all == texts(names@),
            texts(r@) == unpinned(all.take(i as int), n),
        decreases names.len() - i,
    {
        broadcast use crate::text::lemma_texts_push;

        assert(all.take(i + 1).drop_last() =~= all.take(i as int));
        assert(all[i as int] == names@[i as int]@);
        let named: bool = match parse_u32(names[i].as_str()) {
            Some(m) => m == n,
            None => false,
        };
        if !named {
            r.push(names[i].clone());
        }
        i += 1;
    }
    assert(all.take(all.len() as int) =~= all);
    r
}

/// Why a slot keeps its number: a run holds the lock of its profile, or what went wrong.
pub fn stop_reason(code: ErrorCode, message: String) -> (r: String)
    ensures
        r@ == if code == ErrorCode::Locked {
            "a live session is using its profile"@
        } else {
            message@
        },
{
    if code == ErrorCode::Locked {
        "a live session is using its profile".to_owned()
    } else {
        message
    }
}

/// How a stop is described.
pub fn stopped_note(stop: &Stop) -> (r: String)
    ensures
        r@ == "slot "@ + decimal(stop.slot as nat) + " kept its number ("@ + stop.reason@
            + "), as did every slot above it; `swapd compact` finishes the renumber"@,
{
    "slot ".to_owned().concat(show(stop.slot as u64).as_str()).concat(" kept its number (").concat(
        stop.reason.as_str(),
    ).concat("), as did every slot above it; `swapd compact` finishes the renumber")
}

proof fn lemma_numbers_grow(items: Seq<(u32, Slot)>, i: int)
    requires
        rising(items),
        items.len() > 0 ==> items[0].0 >= 1,
        0 <= i < items.len(),
    ensures
        items[i].0 >= i + 1,
    decreases i,
{
    if i > 0 {
        lemma_numbers_grow(items, i - 1);
        assert(items[i - 1].0 < items[i].0);
    }
}

/// Where the slots start at 1, every move that is planned goes down, and the moves
/// are made in ascending order of where they come from and where they go.
pub proof fn law_moves_go_down(items: Seq<(u32, Slot)>)
    requires
        rising(items),
        items.len() > 0 ==> items[0].0 >= 1,
    ensures
        forall|i: int| 0 <= i < closing(items).len() ==> (#[trigger] closing(items)[i]).to < closing(
            items,
        )[i].from,
        forall|i: int, j: int|
            0 <= i < j < closing(items).len() ==> (#[trigger] closing(items)[i]).from < (
            #[trigger] closing(items)[j]).from && closing(items)[i].to < closing(items)[j].to,
        forall|i: int|
            0 <= i < closing(items).len() ==> (#[trigger] closing(items)[i]).to <= items.len(),
        forall|i: int|
            0 <= i < closing(items).len() ==> (#[trigger] closing(items)[i]).from
                <= items.last().0,
    decreases items.len(),
{
    if items.len() > 0 {
        let rest = items.drop_last();
        assert(rising(rest)) by {
            assert forall|i: int, j: int| 0 <= i < j < rest.len() implies (#[trigger] rest[i]).0 < (
            #[trigger] rest[j]).0 by {
                assert(items[i].0 < items[j].0);
            }
        }
        if rest.len() > 0 {
            assert(rest[0] == items[0]);
            assert(items[rest.len() - 1].0 < items[items.len() - 1].0);
        }
        law_moves_go_down(rest);
        lemma_numbers_grow(items, items.len() - 1);
        let a = closing(rest);
        let b = closing(items);
        assert forall|i: int| 0 <= i < b.len() implies (#[trigger] b[i]).to < b[i].from && b[i].to
            <= items.len() && b[i].from <= items.last().0 by {
            if i < a.len() {
                assert(b[i] == a[i]);
            }
        }
        assert forall|i: int, j: int| 0 <= i < j < b.len() implies (#[trigger] b[i]).from < (
        #[trigger] b[j]).from && b[i].to < b[j].to by {
            assert(b[i] == a[i]);
            if j < a.len() {
                assert(b[j] == a[j]);
            }
        }
    }
}

/// The table when the first `k` slots stand at their new numbers.
pub open spec fn partly(items: Seq<(u32, Slot)>, k: int) -> Map<u32, Slot> {
    Map::new(
        |n: u32| 1 <= n <= k || exists|j: int| k <= j < items.len() && (#[trigger] items[j]).0 == n,
        |n: u32|
            if 1 <= n <= k {
                items[n - 1].1
            } else {
                slots_map(items)[n]
            },
    )
}

proof fn lemma_partly_step(provider: ProviderSlots, k: int)
    requires
        provider.wf(),
        provider.slots.items@.len() <= u32::MAX,
        provider.slots.items@[0].0 >= 1,
        0 <= k < provider.slots.items@.len(),
    ensures
        ({
            let items = provider.slots.items@;
            let m = Move { from: items[k].0, to: (k + 1) as u32 };
            &&& partly(items, k).contains_key(items[k].0)
            &&& partly(items, k)[items[k].0] == items[k].1
            &&& partly(items, k + 1) == moved(partly(items, k), m)
            &&& m.from == m.to ==> partly(items, k + 1) == partly(items, k)
        }),
{
    let items = provider.slots.items@;
    let a = partly(items, k);
    let b = partly(items, k + 1);
    let m = Move { from: items[k].0, to: (k + 1) as u32 };
    lemma_numbers_grow(items, k);
    provider.slots.lemma_entry(k);
    assert(a.contains_key(items[k].0));
    assert(a[items[k].0] == items[k].1);
    let goal = moved(a, m);
    assert forall|n: u32| #[trigger] b.dom().contains(n) implies goal.dom().contains(n) && b[n]
        == goal[n] by {
        if 1 <= n <= k + 1 {
        } else {
            let j = choose|j: int| k + 1 <= j < items.len() && (#[trigger] items[j]).0 == n;
            assert(items[k].0 < items[j].0);
            assert(k <= j < items.len() && items[j].0 == n);
        }
    }
    assert forall|n: u32| #[trigger] goal.dom().contains(n) implies b.dom().contains(n) by {
        if n != m.to {
            if !(1 <= n <= k) {
                let j = choose|j: int| k <= j < items.len() && (#[trigger] items[j]).0 == n;
                assert(k + 1 <= j < items.len() && items[j].0 == n);
            }
        }
    }
    assert(b.dom() =~= goal.dom());
    assert(b =~= goal);
    if m.from == m.to {
        assert(goal =~= a);
    }
}

proof fn lemma_run_is_partly(provider: ProviderSlots, k: int)
    requires
        provider.wf(),
        provider.slots.items@.len() > 0 ==> provider.slots.items@[0].0 >= 1,
        0 <= k <= provider.slots.items@.len(),
    ensures
        run_moves(provider.slots@, closing(provider.slots.items@.take(k))) == partly(
            provider.slots.items@,
            k,
        ),
    decreases k,
{
    let items = provider.slots.items@;
    if items.len() > 0 {
        lemma_numbers_grow(items, items.len() - 1);
    }
    if k == 0 {
        assert(closing(items.take(0)) =~= Seq::empty());
        let a = partly(items, 0);
        assert forall|n: u32| #[trigger] a.dom().contains(n) implies provider.slots@.dom().contains(
            n,
        ) && a[n] == provider.slots@[n] by {
            let j = choose|j: int| 0 <= j < items.len() && (#[trigger] items[j]).0 == n;
            provider.slots.lemma_entry(j);
        }
        assert forall|n: u32| #[trigger] provider.slots@.dom().contains(n) implies a.dom().contains(
            n,
        ) by {
            let j = provider.slots.lemma_position(n);
            assert(items[j].0 == n);
        }
        assert(a.dom() =~= provider.slots@.dom());
        assert(a =~= provider.slots@);
    } else {
        lemma_run_is_partly(provider, k - 1);
        lemma_partly_step(provider, k - 1);
        let part = items.take(k);
        assert(part.drop_last() =~= items.take(k - 1));
        assert(part.last() == items[k - 1]);
        let m = Move { from: items[k - 1].0, to: k as u32 };
        if m.from != m.to {
            assert(closing(part).drop_last() =~= closing(items.take(k - 1)));
            assert(closing(part).last() == m);
        }
    }
}

/// The planned moves close every gap: after them the slots are numbered from 1 to
/// their count, and the accounts stand in the order in which they stood.
pub proof fn law_compaction_is_dense(provider: ProviderSlots)
    requires
        provider.wf(),
        provider.slots.items@.len() > 0 ==> provider.slots.items@[0].0 >= 1,
    ensures
        ({
            let items = provider.slots.items@;
            let after = run_moves(provider.slots@, closing(items));
            &&& forall|n: u32| #[trigger] after.contains_key(n) <==> 1 <= n <= items.len()
            &&& forall|i: int|
                0 <= i < items.len() ==> after[(i + 1) as u32] == (#[trigger] items[i]).1
        }),
{
    let items = provider.slots.items@;
    if items.len() > 0 {
        lemma_numbers_grow(items, items.len() - 1);
    }
    lemma_run_is_partly(provider, items.len() as int);
    assert(items.take(items.len() as int) =~= items);
    let after = run_moves(provider.slots@, closing(items));
    assert(after == partly(items, items.len() as int));
    assert forall|i: int| 0 <= i < items.len() implies after[(i + 1) as u32] == (
    #[trigger] items[i]).1 by {
        assert(after.contains_key((i + 1) as u32));
    }
}

/// A move keeps an order that names every slot once, where the number moved to was
/// vacant.
pub proof fn law_move_keeps_the_order(order: Seq<u32>, slots: Map<u32, Slot>, m: Move)
    requires
        lists_all(order, slots),
        slots.contains_key(m.from),
        !slots.contains_key(m.to),
    ensures
        lists_all(renamed(order, m.from, m.to), moved(slots, m)),
{
    let out = renamed(order, m.from, m.to);
    let after = moved(slots, m);
    assert forall|i: int, j: int| 0 <= i < out.len() && 0 <= j < out.len() && i != j implies out[i]
        != out[j] by {
        assert(order[i] != order[j]);
        assert(order.contains(order[i]) && order.contains(order[j]));
    }
    assert(out.no_duplicates());
    assert forall|n: u32| #[trigger] out.contains(n) <==> after.contains_key(n) by {
        if out.contains(n) {
            let i = choose|i: int| 0 <= i < out.len() && out[i] == n;
            assert(order.contains(order[i]));
        }
        if after.contains_key(n) {
            let want = if n == m.to {
                m.from
            } else {
                n
            };
            assert(order.contains(want));
            let i = choose|i: int| 0 <= i < order.len() && order[i] == want;
            assert(out[i] == n);
        }
    }
}

/// A slot without a move keeps its number.
proof fn lemma_unmoved(moves: Seq<Move>, n: u32)
    requires
        forall|i: int| 0 <= i < moves.len() ==> (#[trigger] moves[i]).from != n,
    ensures
        renumbered(moves, n) == n,
    decreases moves.len(),
{
    if moves.len() > 0 {
        assert(moves[0].from != n);
        assert forall|i: int| 0 <= i < moves.drop_first().len() implies (
        #[trigger] moves.drop_first()[i]).from != n by {
            assert(moves[i + 1].from != n);
        }
        lemma_unmoved(moves.drop_first(), n);
    }
}

/// A move that is added at the end moves its slot, where none did before.
proof fn lemma_added_move(moves: Seq<Move>, m: Move, n: u32)
    ensures
        renumbered(moves.push(m), n) == if exists|i: int|
            0 <= i < moves.len() && (#[trigger] moves[i]).from == n {
            renumbered(moves, n)
        } else if m.from == n {
            m.to
        } else {
            n
        },
    decreases moves.len(),
{
    let all = moves.push(m);
    if moves.len() == 0 {
        assert(all.drop_first() =~= Seq::empty());
        assert(renumbered(all.drop_first(), n) == n);
        assert(all[0] == m);
    } else if moves[0].from == n {
        assert(all[0] == moves[0]);
    } else {
        let rest = moves.drop_first();
        assert(all.drop_first() =~= rest.push(m));
        assert(all[0] == moves[0]);
        lemma_added_move(rest, m, n);
        if exists|i: int| 0 <= i < moves.len() && (#[trigger] moves[i]).from == n {
            let i = choose|i: int| 0 <= i < moves.len() && (#[trigger] moves[i]).from == n;
            assert(rest[i - 1].from == n);
        } else {
            assert forall|i: int| 0 <= i < rest.len() implies (#[trigger] rest[i]).from != n by {
                assert(moves[i + 1].from != n);
            }
        }
    }
}

/// The `i`th slot takes the number after `i`.
proof fn lemma_renumbered_in_order(items: Seq<(u32, Slot)>, i: int)
    requires
        rising(items),
        items.len() <= u32::MAX,
        0 <= i < items.len(),
    ensures
        renumbered(closing(items), items[i].0) == i + 1,
        forall|k: int|
            0 <= k < closing(items).len() ==> exists|j: int|
                0 <= j < items.len() && (#[trigger] items[j]).0 == (#[trigger] closing(
                    items,
                )[k]).from,
    decreases items.len(),
{
    let rest = items.drop_last();
    let last = items.last();
    let n = items[i].0;
    assert(rising(rest)) by {
        assert forall|a: int, b: int| 0 <= a < b < rest.len() implies (#[trigger] rest[a]).0 < (
        #[trigger] rest[b]).0 by {
            assert(items[a].0 < items[b].0);
        }
    }
    let short = closing(rest);
    if rest.len() > 0 {
        lemma_renumbered_in_order(
            rest,
            if i < rest.len() {
                i
            } else {
                0
            },
        );
    }
    let m = Move { from: last.0, to: items.len() as u32 };
    let out = closing(items);
    assert forall|k: int| 0 <= k < out.len() implies exists|j: int|
        0 <= j < items.len() && (#[trigger] items[j]).0 == (#[trigger] out[k]).from by {
        if k < short.len() {
            assert(out[k] == short[k]);
            let j = choose|j: int| 0 <= j < rest.len() && (#[trigger] rest[j]).0 == short[k].from;
            assert(items[j].0 == out[k].from);
        } else {
            assert(items[items.len() - 1].0 == out[k].from);
        }
    }
    if i < rest.len() {
        assert(rest[i] == items[i]);
        if m.from != m.to {
            lemma_added_move(short, m, n);
            assert(items[i].0 < items[items.len() - 1].0);
            if !exists|k: int| 0 <= k < short.len() && (#[trigger] short[k]).from == n {
                lemma_unmoved(short, n);
            }
        }
    } else {
        assert forall|k: int| 0 <= k < short.len() implies (#[trigger] short[k]).from != n by {
            let j = choose|j: int| 0 <= j < rest.len() && (#[trigger] rest[j]).0 == short[k].from;
            assert(items[j].0 < items[i].0);
        }
        if m.from != m.to {
            lemma_added_move(short, m, n);
        } else {
            lemma_unmoved(short, n);
        }
    }
}

/// What names an account by its number follows it: after the planned moves, the new
/// number of a slot holds the account that the old one held.
pub proof fn law_numbers_follow_their_accounts(provider: ProviderSlots, n: u32)
    requires
        provider.wf(),
        provider.slots.items@.len() > 0 ==> provider.slots.items@[0].0 >= 1,
        provider.slots@.contains_key(n),
    ensures
        ({
            let moves = closing(provider.slots.items@);
            let after = run_moves(provider.slots@, moves);
            after.contains_key(renumbered(moves, n)) && after[renumbered(moves, n)]
                == provider.slots@[n]
        }),
{
    let items = provider.slots.items@;
    let i = provider.slots.lemma_position(n);
    lemma_numbers_grow(items, items.len() - 1);
    law_compaction_is_dense(provider);
    lemma_renumbered_in_order(items, i);
    assert(items[i].1 == provider.slots@[n]);
}

} // verus!
