//! The slots of each provider: which accounts there are, and in what order they
//! are used.

use vstd::prelude::*;
use vstd::string::*;

use crate::slot_map::SlotMap;
use crate::table::Table;
use crate::text::{
    copy_opt, decimal, law_decimal_is_injective, lower, lowercase, number32, parse_u32, same, show,
};

verus! {

/// The slots of every provider.
#[derive(Debug)]
pub struct SlotsFile {
    pub schema_version: u32,
    pub providers: Table<ProviderSlots>,
}

/// The slots of one provider.
#[derive(Debug)]
pub struct ProviderSlots {
    pub active_slot: Option<u32>,
    /// Rotation order, every slot once.
    pub order: Vec<u32>,
    pub slots: SlotMap<Slot>,
}

/// One account.
#[derive(Debug)]
pub struct Slot {
    pub email: String,
    pub organization_uuid: String,
    pub organization_name: String,
    pub plan: Option<String>,
    pub alias: Option<String>,
    pub icon: Option<String>,
    pub disabled: bool,
    pub preferred: bool,
    /// Whether its windows are opened ahead of use.
    pub auto_ignite: bool,
    /// When it was added, in RFC 3339.
    pub added: Option<String>,
    /// The fingerprint of the stored login.
    pub fingerprint: Option<String>,
}

impl Clone for Slot {
    fn clone(&self) -> (r: Slot)
        ensures
            r == *self,
    {
        Slot {
            email: self.email.clone(),
            organization_uuid: self.organization_uuid.clone(),
            organization_name: self.organization_name.clone(),
            plan: copy_opt(&self.plan),
            alias: copy_opt(&self.alias),
            icon: copy_opt(&self.icon),
            disabled: self.disabled,
            preferred: self.preferred,
            auto_ignite: self.auto_ignite,
            added: copy_opt(&self.added),
            fingerprint: copy_opt(&self.fingerprint),
        }
    }
}

/// Whether an order names every slot once and nothing else.
pub open spec fn lists_all(order: Seq<u32>, slots: Map<u32, Slot>) -> bool {
    order.no_duplicates() && forall|n: u32| #[trigger] order.contains(n) <==> slots.contains_key(n)
}

/// The first slot, by number, with a property.
pub open spec fn first_with(items: Seq<(u32, Slot)>, has: spec_fn(Slot) -> bool) -> Option<u32>
    decreases items.len(),
{
    if items.len() == 0 {
        None
    } else {
        match first_with(items.drop_last(), has) {
            Some(n) => Some(n),
            None => if has(items.last().1) {
                Some(items.last().0)
            } else {
                None
            },
        }
    }
}

/// A slot that was found first in a part is found first in the whole.
pub proof fn lemma_first_with_stays(items: Seq<(u32, Slot)>, has: spec_fn(Slot) -> bool, n: int)
    requires
        0 <= n <= items.len(),
        first_with(items.take(n), has) is Some,
    ensures
        first_with(items, has) == first_with(items.take(n), has),
    decreases items.len() - n,
{
    if n == items.len() {
        assert(items.take(n) =~= items);
    } else {
        assert(items.take(n + 1).drop_last() =~= items.take(n));
        lemma_first_with_stays(items, has, n + 1);
    }
}

/// Whether a slot's email is a text, but for case.
pub open spec fn email_is(s: Slot, l: Seq<char>) -> bool {
    lowercase(s.email@) == l
}

/// Whether a slot's alias is a text, but for case.
pub open spec fn alias_is(s: Slot, l: Seq<char>) -> bool {
    s.alias matches Some(a) && lowercase(a@) == l
}

/// The slots whose email is a text, but for case.
pub open spec fn by_email(l: Seq<char>) -> spec_fn(Slot) -> bool {
    |s: Slot| email_is(s, l)
}

/// The slots whose alias is a text, but for case.
pub open spec fn by_alias(l: Seq<char>) -> spec_fn(Slot) -> bool {
    |s: Slot| alias_is(s, l)
}

/// Whether a slot's email is a text, but for case.
pub fn has_email(s: &Slot, l: &str) -> (r: bool)
    ensures
        r == email_is(*s, l@),
{
    same(lower(s.email.as_str()).as_str(), l)
}

/// Whether a slot's alias is a text, but for case.
pub fn has_alias(s: &Slot, l: &str) -> (r: bool)
    ensures
        r == alias_is(*s, l@),
{
    match &s.alias {
        Some(a) => same(lower(a.as_str()).as_str(), l),
        None => false,
    }
}

/// Whether a list of numbers holds one.
pub fn lists(order: &Vec<u32>, n: u32) -> (r: bool)
    ensures
        r == order@.contains(n),
{
    let mut i: usize = 0;
    while i < order.len()
        invariant
            i <= order.len(),
            forall|j: int| 0 <= j < i ==> order@[j] != n,
        decreases order.len() - i,
    {
        if order[i] == n {
            assert(order@[i as int] == n);
            return true;
        }
        i += 1;
    }
    false
}

/// A list of numbers without one.
pub open spec fn without(order: Seq<u32>, n: u32) -> Seq<u32>
    decreases order.len(),
{
    if order.len() == 0 {
        order
    } else if order.last() == n {
        without(order.drop_last(), n)
    } else {
        without(order.drop_last(), n).push(order.last())
    }
}

/// A list of numbers without one.
pub fn drop_slot(order: &Vec<u32>, n: u32) -> (r: Vec<u32>)
    ensures
        r@ == without(order@, n),
{
    let mut kept: Vec<u32> = Vec::new();
    let mut i: usize = 0;
    assert(without(order@.take(0), n) =~= Seq::<u32>::empty());
    while i < order.len()
        invariant
            i <= order.len(),
            kept@ == without(order@.take(i as int), n),
        decreases order.len() - i,
    {
        assert(order@.take(i + 1).drop_last() =~= order@.take(i as int));
        if order[i] != n {
            kept.push(order[i]);
        }
        i += 1;
    }
    assert(order@.take(order@.len() as int) =~= order@);
    kept
}

/// The text of the key that a slot is stored under.
pub open spec fn slot_key_text(provider: Seq<char>, slot: u32) -> Seq<char> {
    provider + ":"@ + decimal(slot as nat)
}

/// The key that a slot is stored under.
pub fn slot_key(provider: &str, slot: u32) -> (r: String)
    ensures
        r@ == slot_key_text(provider@, slot),
{
    provider.to_owned().concat(":").concat(show(slot as u64).as_str())
}

/// Two slots of a provider are stored under different keys.
pub proof fn law_slot_keys_differ(provider: Seq<char>, a: u32, b: u32)
    requires
        slot_key_text(provider, a) == slot_key_text(provider, b),
    ensures
        a == b,
{
    let n = (provider + ":"@).len() as int;
    assert(slot_key_text(provider, a).skip(n) =~= decimal(a as nat));
    assert(slot_key_text(provider, b).skip(n) =~= decimal(b as nat));
    law_decimal_is_injective(a as nat, b as nat);
}

impl ProviderSlots {
    /// The slots stand in the order of their numbers.
    pub open spec fn wf(&self) -> bool {
        self.slots.wf()
    }

    /// No slots at all.
    pub fn new() -> (r: ProviderSlots)
        ensures
            r.wf(),
            r.active_slot is None,
            r.order@.len() == 0,
            r.slots@ == Map::<u32, Slot>::empty(),
            r.slots.items@.len() == 0,
            lists_all(r.order@, r.slots@),
    {
        ProviderSlots { active_slot: None, order: Vec::new(), slots: SlotMap::new() }
    }

    /// The least number from 1 on that no slot has.
    pub fn next_free(&self) -> (r: u32)
        requires
            self.wf(),
            exists|n: u32| n >= 1 && !#[trigger] self.slots@.contains_key(n),
        ensures
            r >= 1,
            !self.slots@.contains_key(r),
            forall|n: u32| 1 <= n < r ==> #[trigger] self.slots@.contains_key(n),
    {
        let mut n: u32 = 1;
        while self.slots.contains_key(n)
            invariant
                self.wf(),
                n >= 1,
                exists|m: u32| m >= 1 && !#[trigger] self.slots@.contains_key(m),
                forall|m: u32| 1 <= m < n ==> #[trigger] self.slots@.contains_key(m),
            decreases u32::MAX - n,
        {
            n += 1;
        }
        n
    }

    /// The slot that a text names by number, else by email, else by alias.
    pub open spec fn named(&self, ident: Seq<char>) -> Option<u32> {
        match number32(ident) {
            Some(n) => if self.slots@.contains_key(n) {
                Some(n)
            } else {
                None
            },
            None => {
                let l = lowercase(ident);
                match first_with(self.slots.items@, by_email(l)) {
                    Some(n) => Some(n),
                    None => first_with(self.slots.items@, by_alias(l)),
                }
            },
        }
    }

    /// The slot that a text names: a number, then an email, then an alias, the
    /// last two without regard to case.
    pub fn resolve(&self, ident: &str) -> (r: Option<u32>)
        requires
            self.wf(),
        ensures
            r == self.named(ident@),
    {
        if let Some(n) = parse_u32(ident) {
            return if self.slots.contains_key(n) {
                Some(n)
            } else {
                None
            };
        }
        let l: String = lower(ident);
        let ghost items = self.slots.items@;
        let mut i: usize = 0;
        while i < self.slots.items.len()
            invariant
                i <= items.len(),
                items == self.slots.items@,
                number32(ident@) is None,
                l@ == lowercase(ident@),
                first_with(items.take(i as int), by_email(l@)) is None,
            decreases items.len() - i,
        {
            assert(items.take(i + 1).drop_last() =~= items.take(i as int));
            if has_email(&self.slots.items[i].1, l.as_str()) {
                proof {
                    lemma_first_with_stays(items, by_email(l@), i + 1);
                }
                return Some(self.slots.items[i].0);
            }
            i += 1;
        }
        assert(items.take(items.len() as int) =~= items);
        let mut k: usize = 0;
        while k < self.slots.items.len()
            invariant
                k <= items.len(),
                items == self.slots.items@,
                number32(ident@) is None,
                l@ == lowercase(ident@),
                first_with(items, by_email(l@)) is None,
                first_with(items.take(k as int), by_alias(l@)) is None,
            decreases items.len() - k,
        {
            assert(items.take(k + 1).drop_last() =~= items.take(k as int));
            if has_alias(&self.slots.items[k].1, l.as_str()) {
                proof {
                    lemma_first_with_stays(items, by_alias(l@), k + 1);
                }
                return Some(self.slots.items[k].0);
            }
            k += 1;
        }
        assert(items.take(items.len() as int) =~= items);
        None
    }

    /// Puts an account into a slot; a new slot comes last in the rotation.
    pub fn insert(&mut self, n: u32, slot: Slot)
        requires
            old(self).wf(),
        ensures
            final(self).wf(),
            final(self).slots@ == old(self).slots@.insert(n, slot),
            final(self).order@ == if old(self).order@.contains(n) {
                old(self).order@
            } else {
                old(self).order@.push(n)
            },
            final(self).active_slot == old(self).active_slot,
    {
        self.slots.insert(n, slot);
        if !lists(&self.order, n) {
            self.order.push(n);
        }
    }

    /// Takes a slot away, out of the rotation too; it is no longer active.
    pub fn remove(&mut self, n: u32)
        requires
            old(self).wf(),
        ensures
            final(self).wf(),
            final(self).slots@ == old(self).slots@.remove(n),
            final(self).order@ == without(old(self).order@, n),
            final(self).active_slot == if old(self).active_slot == Some(n) {
                None
            } else {
                old(self).active_slot
            },
    {
        self.slots.remove(n);
        self.order = drop_slot(&self.order, n);
        if let Some(a) = self.active_slot {
            if a == n {
                self.active_slot = None;
            }
        }
    }
}

/// A rotation that names every slot once still does after an account is put in.
pub proof fn law_insert_keeps_the_order(order: Seq<u32>, slots: Map<u32, Slot>, n: u32, slot: Slot)
    requires
        lists_all(order, slots),
    ensures
        lists_all(
            if order.contains(n) {
                order
            } else {
                order.push(n)
            },
            slots.insert(n, slot),
        ),
{
    if !order.contains(n) {
        let grown = order.push(n);
        assert forall|m: u32| #[trigger] grown.contains(m) <==> slots.insert(n, slot).contains_key(m) by {
            if order.contains(m) {
                let i = choose|i: int| 0 <= i < order.len() && order[i] == m;
                assert(grown[i] == m);
            }
            if m == n {
                assert(grown[order.len() as int] == n);
            }
            if grown.contains(m) && m != n {
                let i = choose|i: int| 0 <= i < grown.len() && grown[i] == m;
                assert(order[i] == m);
            }
        }
    }
}

/// A filtered list holds exactly what passes, each as often as before where once.
pub proof fn lemma_without(order: Seq<u32>, n: u32)
    ensures
        forall|m: u32| #[trigger] without(order, n).contains(m) <==> order.contains(m) && m != n,
        order.no_duplicates() ==> without(order, n).no_duplicates(),
    decreases order.len(),
{
    if order.len() > 0 {
        let rest = order.drop_last();
        let last = order.last();
        lemma_without(rest, n);
        let out = without(order, n);
        let short = without(rest, n);
        assert(out == if last != n { short.push(last) } else { short });
        assert forall|m: u32| #[trigger] out.contains(m) <==> order.contains(m) && m != n by {
            assert(short.contains(m) <==> rest.contains(m) && m != n);
            if out.contains(m) {
                let i = choose|i: int| 0 <= i < out.len() && out[i] == m;
                if i < short.len() {
                    assert(short[i] == m);
                    let j = choose|j: int| 0 <= j < rest.len() && rest[j] == m;
                    assert(order[j] == m);
                } else {
                    assert(order[order.len() - 1] == m);
                }
            }
            if order.contains(m) && m != n {
                let j = choose|j: int| 0 <= j < order.len() && order[j] == m;
                if j < rest.len() {
                    assert(rest[j] == m);
                    let i = choose|i: int| 0 <= i < short.len() && short[i] == m;
                    assert(out[i] == m);
                } else {
                    assert(out[out.len() - 1] == m);
                }
            }
        }
        if order.no_duplicates() {
            assert(rest.no_duplicates());
            if last != n && short.contains(last) {
                let j = choose|j: int| 0 <= j < rest.len() && rest[j] == last;
                assert(order[j] == order[order.len() - 1]);
            }
        }
    }
}

/// A rotation that names every slot once still does after a slot is taken away.
pub proof fn law_remove_keeps_the_order(order: Seq<u32>, slots: Map<u32, Slot>, n: u32)
    requires
        lists_all(order, slots),
    ensures
        lists_all(without(order, n), slots.remove(n)),
{
    lemma_without(order, n);
}

} // verus!
