//! One collection pass over a provider's slots: what each account's usage is, who
//! is active, who is next.
//!
//! The order matters. The slots and the live login are read once; marks that need
//! no network are set; the table says who is struck and who may be fetched; the
//! fetches run; the table is read again and the views are made of it.

use vstd::prelude::*;
use vstd::string::*;

use crate::contract::UsageStatus;
use crate::fetch::DriverError;
use crate::slots::{lists, slot_key, slot_key_text, ProviderSlots, Slot};
use crate::table::Table;
use crate::text::{copy_opt, lower, lowercase, opt_text, same, trim, trimmed};
use crate::usage_store::{blank_entry, entry_at, Entry};

verus! {

/// Who a login belongs to.
#[derive(Debug)]
pub struct Identity {
    pub email: String,
    pub organization_uuid: String,
    pub organization_name: String,
    pub plan: Option<String>,
}

/// A login, with what the provider's driver reads from it.
#[derive(Debug)]
pub struct Credential {
    pub bytes: String,
    pub fingerprint: String,
    /// Who it belongs to, where it says so.
    pub identity: Option<Identity>,
    pub expires_at: Option<i64>,
    /// Whether it is a managed API key.
    pub api_key: bool,
}

impl Clone for Identity {
    fn clone(&self) -> (r: Identity)
        ensures
            r == *self,
    {
        Identity {
            email: self.email.clone(),
            organization_uuid: self.organization_uuid.clone(),
            organization_name: self.organization_name.clone(),
            plan: copy_opt(&self.plan),
        }
    }
}

impl Clone for Credential {
    fn clone(&self) -> (r: Credential)
        ensures
            r == *self,
    {
        Credential {
            bytes: self.bytes.clone(),
            fingerprint: self.fingerprint.clone(),
            identity: match &self.identity {
                Some(i) => Some(i.clone()),
                None => None,
            },
            expires_at: self.expires_at,
            api_key: self.api_key,
        }
    }
}

/// What is stored for a slot.
#[derive(Debug)]
pub struct Stored {
    pub login: Option<Credential>,
    /// Whether the live login is provably an older generation than this one.
    pub live_is_older: bool,
}

impl Stored {
    /// The stored login, unless it is blank.
    pub open spec fn usable(&self) -> Option<Credential> {
        match self.login {
            Some(c) => if trimmed(c.bytes@).len() == 0 {
                None
            } else {
                Some(c)
            },
            None => None,
        }
    }

    /// The stored login, unless it is blank.
    pub fn take_usable(&self) -> (r: Option<Credential>)
        ensures
            r == self.usable(),
    {
        match &self.login {
            Some(c) => if trim(c.bytes.as_str()).as_str().is_empty() {
                None
            } else {
                Some(c.clone())
            },
            None => None,
        }
    }
}

/// What a caller wants fetched, on top of what the plans say.
#[derive(Debug)]
pub struct CollectOpts {
    /// Slots to fetch regardless of freshness or plan.
    pub force_slots: Vec<u32>,
    /// Fetch every account that is due or stale, rather than stale and due.
    pub all_stale: bool,
    /// Fetch none but these.
    pub only: Option<Vec<u32>>,
}

impl Default for CollectOpts {
    fn default() -> (r: CollectOpts)
        ensures
            r.force_slots@.len() == 0,
            !r.all_stale,
            r.only is None,
    {
        CollectOpts { force_slots: Vec::new(), all_stale: false, only: None }
    }
}

/// One slot's state in a pass.
#[derive(Debug)]
pub struct SlotState {
    pub slot: u32,
    pub meta: Slot,
    /// The key of the account's row and of its stored login.
    pub key: String,
    /// The login that this pass uses: the live one for the active slot, the stored
    /// one for every other.
    pub login: Option<Credential>,
    pub active: bool,
    /// The live store holds an older generation than the slot: it is healed before
    /// the login is used.
    pub heal_live: bool,
    /// The live login replaces the stored one.
    pub adopt: bool,
    /// Why the slot is not fetched.
    pub sentinel: Option<UsageStatus>,
}

/// The numbers of `order` that are slots.
pub open spec fn known_in(order: Seq<u32>, slots: Map<u32, Slot>) -> Seq<u32>
    decreases order.len(),
{
    if order.len() == 0 {
        Seq::empty()
    } else {
        let rest = known_in(order.drop_last(), slots);
        if slots.contains_key(order.last()) {
            rest.push(order.last())
        } else {
            rest
        }
    }
}

/// `out` and, behind it, the slots that it does not name.
pub open spec fn completed(out: Seq<u32>, items: Seq<(u32, Slot)>) -> Seq<u32>
    decreases items.len(),
{
    if items.len() == 0 {
        out
    } else {
        let rest = completed(out, items.drop_last());
        let n = items.last().0;
        if out.contains(n) {
            rest
        } else {
            rest.push(n)
        }
    }
}

/// Every slot, those of the rotation order first.
pub open spec fn full_order(slots: ProviderSlots) -> Seq<u32> {
    completed(known_in(slots.order@, slots.slots@), slots.slots.items@)
}

/// Every slot, rotation order first; a slot that the order does not name still gets
/// collected.
pub fn rotation_order(slots: &ProviderSlots) -> (r: Vec<u32>)
    requires
        slots.wf(),
    ensures
        r@ == full_order(*slots),
{
    let mut known: Vec<u32> = Vec::new();
    let mut i: usize = 0;
    assert(slots.order@.take(0) =~= Seq::empty());
    while i < slots.order.len()
        invariant
            i <= slots.order.len(),
            slots.wf(),
            known@ == known_in(slots.order@.take(i as int), slots.slots@),
        decreases slots.order.len() - i,
    {
        assert(slots.order@.take(i + 1).drop_last() =~= slots.order@.take(i as int));
        if slots.slots.contains_key(slots.order[i]) {
            known.push(slots.order[i]);
        }
        i += 1;
    }
    assert(slots.order@.take(slots.order@.len() as int) =~= slots.order@);
    let ghost items = slots.slots.items@;
    let mut out: Vec<u32> = known.clone();
    assert(out@ =~= known@);
    let mut k: usize = 0;
    assert(items.take(0) =~= Seq::empty());
    while k < slots.slots.items.len()
        invariant
            k <= items.len(),
            items == slots.slots.items@,
            out@ == completed(known@, items.take(k as int)),
        decreases items.len() - k,
    {
        assert(items.take(k + 1).drop_last() =~= items.take(k as int));
        let n: u32 = slots.slots.items[k].0;
        if !lists(&known, n) {
            out.push(n);
        }
        k += 1;
    }
    assert(items.take(items.len() as int) =~= items);
    out
}

proof fn lemma_known_in(order: Seq<u32>, slots: Map<u32, Slot>)
    ensures
        forall|n: u32| #[trigger] known_in(order, slots).contains(n) <==> order.contains(n)
            && slots.contains_key(n),
        order.no_duplicates() ==> known_in(order, slots).no_duplicates(),
    decreases order.len(),
{
    if order.len() > 0 {
        let rest = order.drop_last();
        let last = order.last();
        lemma_known_in(rest, slots);
        let short = known_in(rest, slots);
        let out = known_in(order, slots);
        assert forall|n: u32| #[trigger] out.contains(n) <==> order.contains(n)
            && slots.contains_key(n) by {
            assert(short.contains(n) <==> rest.contains(n) && slots.contains_key(n));
            if out.contains(n) {
                let i = choose|i: int| 0 <= i < out.len() && out[i] == n;
                if i < short.len() {
                    assert(short[i] == n);
                    let j = choose|j: int| 0 <= j < rest.len() && rest[j] == n;
                    assert(order[j] == n);
                } else {
                    assert(order[order.len() - 1] == n);
                }
            }
            if order.contains(n) && slots.contains_key(n) {
                let j = choose|j: int| 0 <= j < order.len() && order[j] == n;
                if j < rest.len() {
                    assert(rest[j] == n);
                    let i = choose|i: int| 0 <= i < short.len() && short[i] == n;
                    assert(out[i] == n);
                } else {
                    assert(out[out.len() - 1] == n);
                }
            }
        }
        if order.no_duplicates() {
            assert(rest.no_duplicates());
            if short.contains(last) {
                let j = choose|j: int| 0 <= j < rest.len() && rest[j] == last;
                assert(order[j] == order[order.len() - 1]);
            }
        }
    }
}

proof fn lemma_completed(out: Seq<u32>, items: Seq<(u32, Slot)>)
    requires
        crate::slot_map::rising(items),
    ensures
        forall|n: u32| #[trigger] completed(out, items).contains(n) <==> out.contains(n) || (exists|
            i: int,
        |
            0 <= i < items.len() && (#[trigger] items[i]).0 == n),
        out.no_duplicates() ==> completed(out, items).no_duplicates(),
    decreases items.len(),
{
    if items.len() > 0 {
        let rest = items.drop_last();
        let last = items.last().0;
        assert(crate::slot_map::rising(rest)) by {
            assert forall|i: int, j: int| 0 <= i < j < rest.len() implies (#[trigger] rest[i]).0 < (
            #[trigger] rest[j]).0 by {
                assert(items[i].0 < items[j].0);
            }
        }
        lemma_completed(out, rest);
        let short = completed(out, rest);
        let full = completed(out, items);
        assert forall|n: u32| #[trigger] full.contains(n) <==> out.contains(n) || (exists|i: int|
            0 <= i < items.len() && (#[trigger] items[i]).0 == n) by {
            assert(short.contains(n) <==> out.contains(n) || (exists|i: int|
                0 <= i < rest.len() && (#[trigger] rest[i]).0 == n));
            if full.contains(n) {
                let i = choose|i: int| 0 <= i < full.len() && full[i] == n;
                if i < short.len() {
                    assert(short[i] == n);
                    if !out.contains(n) {
                        let j = choose|j: int| 0 <= j < rest.len() && (#[trigger] rest[j]).0 == n;
                        assert(items[j].0 == n);
                    }
                } else {
                    assert(items[items.len() - 1].0 == n);
                }
            }
            if out.contains(n) {
                let i = choose|i: int| 0 <= i < short.len() && short[i] == n;
                assert(full[i] == n);
            }
            if exists|i: int| 0 <= i < items.len() && (#[trigger] items[i]).0 == n {
                let j = choose|j: int| 0 <= j < items.len() && (#[trigger] items[j]).0 == n;
                if j < rest.len() {
                    assert(rest[j].0 == n);
                    let i = choose|i: int| 0 <= i < short.len() && short[i] == n;
                    assert(full[i] == n);
                } else if !out.contains(n) {
                    assert(full[full.len() - 1] == n);
                }
            }
        }
        if out.no_duplicates() && !out.contains(last) {
            if short.contains(last) {
                let j = choose|j: int| 0 <= j < rest.len() && (#[trigger] rest[j]).0 == last;
                assert(items[j].0 < items[items.len() - 1].0);
            }
        }
    } else {
        assert forall|n: u32| #[trigger] completed(out, items).contains(n) <==> out.contains(n)
            || (exists|i: int| 0 <= i < items.len() && (#[trigger] items[i]).0 == n) by {
        }
    }
}

/// The order of a pass names every slot, and nothing else; each once where the
/// rotation names none twice.
pub proof fn law_rotation_names_every_slot(slots: ProviderSlots)
    requires
        slots.wf(),
    ensures
        forall|n: u32| #[trigger] full_order(slots).contains(n) <==> slots.slots@.contains_key(n),
        slots.order@.no_duplicates() ==> full_order(slots).no_duplicates(),
{
    let known = known_in(slots.order@, slots.slots@);
    lemma_known_in(slots.order@, slots.slots@);
    lemma_completed(known, slots.slots.items@);
    assert forall|n: u32| #[trigger] full_order(slots).contains(n) <==> slots.slots@.contains_key(
        n,
    ) by {
        let items = slots.slots.items@;
        if slots.slots@.contains_key(n) {
            let i = slots.slots.lemma_position(n);
            assert(items[i].0 == n);
        }
        if exists|i: int| 0 <= i < items.len() && (#[trigger] items[i]).0 == n {
            let i = choose|i: int| 0 <= i < items.len() && (#[trigger] items[i]).0 == n;
            slots.slots.lemma_entry(i);
        }
        assert(known.contains(n) ==> slots.slots@.contains_key(n));
    }
}

/// Whether a slot belongs to an identity: the same email but for case, and the same
/// organization where one is named.
pub open spec fn owned_by(s: Slot, i: Identity) -> bool {
    lowercase(s.email@) == lowercase(i.email@) && (i.organization_uuid@.len() == 0
        || s.organization_uuid@ == i.organization_uuid@)
}

/// Whether a slot belongs to an identity.
pub fn is_owned_by(s: &Slot, i: &Identity) -> (r: bool)
    ensures
        r == owned_by(*s, *i),
{
    same(lower(s.email.as_str()).as_str(), lower(i.email.as_str()).as_str()) && (
    i.organization_uuid.as_str().is_empty() || same(
        s.organization_uuid.as_str(),
        i.organization_uuid.as_str(),
    ))
}

/// The first slot of an order that belongs to an identity.
pub open spec fn first_owned(order: Seq<u32>, slots: Map<u32, Slot>, i: Identity) -> Option<u32>
    decreases order.len(),
{
    if order.len() == 0 {
        None
    } else {
        match first_owned(order.drop_last(), slots, i) {
            Some(n) => Some(n),
            None => if slots.contains_key(order.last()) && owned_by(slots[order.last()], i) {
                Some(order.last())
            } else {
                None
            },
        }
    }
}

proof fn lemma_first_owned_stays(order: Seq<u32>, slots: Map<u32, Slot>, i: Identity, n: int)
    requires
        0 <= n <= order.len(),
        first_owned(order.take(n), slots, i) is Some,
    ensures
        first_owned(order, slots, i) == first_owned(order.take(n), slots, i),
    decreases order.len() - n,
{
    if n == order.len() {
        assert(order.take(n) =~= order);
    } else {
        assert(order.take(n + 1).drop_last() =~= order.take(n));
        lemma_first_owned_stays(order, slots, i, n + 1);
    }
}

/// The slot that the live login's identity names, where it has one.
pub open spec fn identified(order: Seq<u32>, slots: Map<u32, Slot>, live: Option<Credential>) -> Option<
    u32,
> {
    match live {
        Some(c) => match c.identity {
            Some(i) => first_owned(order, slots, i),
            None => None,
        },
        None => None,
    }
}

/// The slot that the live login's identity names. The identity counts before the
/// fingerprint: the tool rotates its own login, and a fingerprint alone would lose
/// the slot.
pub fn identify(order: &Vec<u32>, slots: &ProviderSlots, live: &Option<Credential>) -> (r: Option<
    u32,
>)
    requires
        slots.wf(),
    ensures
        r == identified(order@, slots.slots@, *live),
{
    let who: &Identity = match live {
        Some(c) => match &c.identity {
            Some(i) => i,
            None => {
                return None;
            },
        },
        None => {
            return None;
        },
    };
    let mut k: usize = 0;
    assert(order@.take(0) =~= Seq::empty());
    while k < order.len()
        invariant
            k <= order.len(),
            slots.wf(),
            live matches Some(c) && c.identity == Some(*who),
            first_owned(order@.take(k as int), slots.slots@, *who) is None,
        decreases order.len() - k,
    {
        assert(order@.take(k + 1).drop_last() =~= order@.take(k as int));
        let owned: bool = match slots.slots.get(order[k]) {
            Some(s) => is_owned_by(s, who),
            None => false,
        };
        if owned {
            proof {
                lemma_first_owned_stays(order@, slots.slots@, *who, k + 1);
            }
            return Some(order[k]);
        }
        k += 1;
    }
    assert(order@.take(order@.len() as int) =~= order@);
    None
}

/// Whether a slot is the one of the live login: the one that its identity names, or,
/// where it names none, one that stores the same fingerprint.
pub open spec fn matches_live(
    slot: u32,
    named: Option<u32>,
    stored: Option<Credential>,
    live: Credential,
) -> bool {
    named == Some(slot) || (named is None && (stored matches Some(c) && c.fingerprint@
        == live.fingerprint@))
}

/// Whether the live login was claimed by one of the first `n` slots: two slots that
/// hold one login are not both active.
pub open spec fn claimed_before(
    order: Seq<u32>,
    named: Option<u32>,
    stored: Seq<Stored>,
    live: Option<Credential>,
    n: int,
) -> bool {
    live is Some && exists|i: int|
        0 <= i < n && matches_live(#[trigger] order[i], named, stored[i].usable(), live->0)
}

/// Whether the `i`th slot of a pass is active.
pub open spec fn is_active(
    order: Seq<u32>,
    named: Option<u32>,
    stored: Seq<Stored>,
    live: Option<Credential>,
    i: int,
) -> bool {
    live is Some && matches_live(order[i], named, stored[i].usable(), live->0) && !claimed_before(
        order,
        named,
        stored,
        live,
        i,
    )
}

/// The mark that needs no network: the slot's login cannot be seen, is missing, or
/// is an API key.
pub open spec fn static_mark(slot: u32, login: Option<Credential>, unreadable: Option<u32>) -> Option<
    UsageStatus,
> {
    if unreadable == Some(slot) {
        Some(UsageStatus::Stale)
    } else {
        match login {
            None => Some(UsageStatus::NoCredentials),
            Some(c) => if c.api_key {
                Some(UsageStatus::ApiKey)
            } else {
                None
            },
        }
    }
}

/// Whether a state is that of the `i`th slot of a pass.
///
/// The active slot uses the live login, unless that is provably an older generation
/// than the stored one: then the stored one is used, and written back. A live login
/// that differs from the stored one replaces it.
pub open spec fn is_state(
    st: SlotState,
    slots: ProviderSlots,
    provider: Seq<char>,
    order: Seq<u32>,
    named: Option<u32>,
    stored: Seq<Stored>,
    live: Option<Credential>,
    unreadable: Option<u32>,
    i: int,
) -> bool {
    let active = is_active(order, named, stored, live, i);
    let own = stored[i].usable();
    let heal = active && own is Some && stored[i].live_is_older;
    &&& st.slot == order[i]
    &&& st.meta == slots.slots@[order[i]]
    &&& st.key@ == slot_key_text(provider, order[i])
    &&& st.active == active
    &&& st.heal_live == heal
    &&& st.adopt == (active && !heal && !(own matches Some(c) && c.fingerprint@
        == live->0.fingerprint@))
    &&& st.login == if active && !heal {
        live
    } else {
        own
    }
    &&& st.sentinel == static_mark(order[i], st.login, unreadable)
}

/// The states of a pass before anything is fetched: one for each slot of `order`,
/// given what is stored for each, the live login, and the slot whose live login
/// cannot be read.
pub fn prepare(
    slots: &ProviderSlots,
    provider: &str,
    order: &Vec<u32>,
    stored: &Vec<Stored>,
    live: &Option<Credential>,
    unreadable: Option<u32>,
) -> (states: Vec<SlotState>)
    requires
        slots.wf(),
        stored@.len() == order@.len(),
        forall|i: int| 0 <= i < order@.len() ==> slots.slots@.contains_key(#[trigger] order@[i]),
    ensures
        states@.len() == order@.len(),
        forall|i: int|
            0 <= i < order@.len() ==> is_state(
                #[trigger] states@[i],
                *slots,
                provider@,
                order@,
                identified(order@, slots.slots@, *live),
                stored@,
                *live,
                unreadable,
                i,
            ),
{
    let named: Option<u32> = identify(order, slots, live);
    let mut states: Vec<SlotState> = Vec::new();
    let mut taken: bool = false;
    let mut i: usize = 0;
    while i < order.len()
        invariant
            i <= order.len(),
            slots.wf(),
            stored@.len() == order@.len(),
            forall|k: int|
                0 <= k < order@.len() ==> slots.slots@.contains_key(#[trigger] order@[k]),
            named == identified(order@, slots.slots@, *live),
            taken == claimed_before(order@, named, stored@, *live, i as int),
            states@.len() == i,
            forall|k: int|
                0 <= k < i ==> is_state(
                    #[trigger] states@[k],
                    *slots,
                    provider@,
                    order@,
                    named,
                    stored@,
                    *live,
                    unreadable,
                    k,
                ),
        decreases order.len() - i,
    {
        let slot: u32 = order[i];
        let own: Option<Credential> = stored[i].take_usable();
        let by_name: bool = match named {
            Some(n) => n == slot,
            None => false,
        };
        let same_print: bool = match (live, &own) {
            (Some(l), Some(c)) => same(c.fingerprint.as_str(), l.fingerprint.as_str()),
            _ => false,
        };
        let matching: bool = live.is_some() && (by_name || (named.is_none() && same_print));
        let active: bool = matching && !taken;
        let heal_live: bool = active && own.is_some() && stored[i].live_is_older;
        let adopt: bool = active && !heal_live && !same_print;
        let login: Option<Credential> = if active && !heal_live {
            match live {
                Some(l) => Some(l.clone()),
                None => None,
            }
        } else {
            own
        };
        let hidden: bool = match unreadable {
            Some(n) => n == slot,
            None => false,
        };
        let sentinel: Option<UsageStatus> = if hidden {
            Some(UsageStatus::Stale)
        } else {
            match &login {
                None => Some(UsageStatus::NoCredentials),
                Some(c) => if c.api_key {
                    Some(UsageStatus::ApiKey)
                } else {
                    None
                },
            }
        };
        let ghost before = taken;
        proof {
            assert(live is Some ==> matching == matches_live(
                slot,
                named,
                stored@[i as int].usable(),
                live->0,
            ));
            assert(claimed_before(order@, named, stored@, *live, i + 1) == (before || matching)) by {
                if claimed_before(order@, named, stored@, *live, i + 1) {
                    let k = choose|k: int|
                        0 <= k < i + 1 && matches_live(
                            #[trigger] order@[k],
                            named,
                            stored@[k].usable(),
                            live->0,
                        );
                    if k < i {
                        assert(before);
                    }
                }
                if before {
                    let k = choose|k: int|
                        0 <= k < i && matches_live(
                            #[trigger] order@[k],
                            named,
                            stored@[k].usable(),
                            live->0,
                        );
                    assert(0 <= k < i + 1 && matches_live(
                        order@[k],
                        named,
                        stored@[k].usable(),
                        live->0,
                    ));
                }
                if matching {
                    assert(matches_live(
                        order@[i as int],
                        named,
                        stored@[i as int].usable(),
                        live->0,
                    ));
                }
            }
        }
        let meta: Slot = slots.slots.get(slot).unwrap().clone();
        states.push(
            SlotState {
                slot,
                meta,
                key: slot_key(provider, slot),
                login,
                active,
                heal_live,
                adopt,
                sentinel,
            },
        );
        taken = taken || matching;
        i += 1;
    }
    states
}

/// At most one slot of a pass is active.
pub proof fn law_one_slot_is_active(
    order: Seq<u32>,
    named: Option<u32>,
    stored: Seq<Stored>,
    live: Option<Credential>,
    i: int,
    j: int,
)
    requires
        0 <= i < order.len(),
        0 <= j < order.len(),
        is_active(order, named, stored, live, i),
        is_active(order, named, stored, live, j),
    ensures
        i == j,
{
    if i < j {
        assert(claimed_before(order, named, stored, live, j));
    }
    if j < i {
        assert(claimed_before(order, named, stored, live, i));
    }
}

/// A stored login that is newer than the live one is never replaced by it.
pub proof fn law_no_older_login_is_adopted(
    st: SlotState,
    slots: ProviderSlots,
    provider: Seq<char>,
    order: Seq<u32>,
    named: Option<u32>,
    stored: Seq<Stored>,
    live: Option<Credential>,
    unreadable: Option<u32>,
    i: int,
)
    requires
        is_state(st, slots, provider, order, named, stored, live, unreadable, i),
        stored[i].live_is_older,
        stored[i].usable() is Some,
    ensures
        !st.adopt,
        st.login == stored[i].usable(),
{
}

/// The entry under a key, blank where there is none.
pub open spec fn entry_or_blank(entries: Map<Seq<char>, Entry>, key: Seq<char>) -> Entry {
    match entry_at(entries, key) {
        Some(e) => e,
        None => blank_entry(),
    }
}

/// The fingerprint of the login in hand.
pub open spec fn print_of(login: Option<Credential>) -> Option<Seq<char>> {
    match login {
        Some(c) => Some(c.fingerprint@),
        None => None,
    }
}

/// A mark, or that of a dead token where there is none.
pub open spec fn dead_mark(st: SlotState, entries: Map<Seq<char>, Entry>) -> Option<UsageStatus> {
    if st.sentinel is None && entry_or_blank(entries, st.key@).dead(print_of(st.login)) {
        Some(UsageStatus::ReloginRequired)
    } else {
        st.sentinel
    }
}

/// Marks the slots whose token is dead.
pub fn mark_dead(states: &mut Vec<SlotState>, entries: &Table<Entry>)
    requires
        entries.wf(),
    ensures
        final(states)@.len() == old(states)@.len(),
        forall|i: int|
            0 <= i < old(states)@.len() ==> #[trigger] final(states)@[i] == (SlotState {
                sentinel: dead_mark(old(states)@[i], entries@),
                ..old(states)@[i]
            }),
{
    let mut i: usize = 0;
    while i < states.len()
        invariant
            i <= states.len(),
            entries.wf(),
            states@.len() == old(states)@.len(),
            forall|k: int|
                0 <= k < i ==> #[trigger] states@[k] == (SlotState {
                    sentinel: dead_mark(old(states)@[k], entries@),
                    ..old(states)@[k]
                }),
            forall|k: int| i <= k < states@.len() ==> #[trigger] states@[k] == old(states)@[k],
        decreases states.len() - i,
    {
        let print: Option<&str> = match &states[i].login {
            Some(c) => Some(c.fingerprint.as_str()),
            None => None,
        };
        let dead: bool = match entries.get(states[i].key.as_str()) {
            Some(e) => e.token_dead(print),
            None => false,
        };
        if states[i].sentinel.is_none() && dead {
            states[i].sentinel = Some(UsageStatus::ReloginRequired);
        }
        i += 1;
    }
}

/// Whether a caller asks for a slot to be fetched.
pub open spec fn asked_for(opts: CollectOpts, slot: u32) -> bool {
    (opts.force_slots@.len() == 0 || opts.force_slots@.contains(slot)) && (
    opts.only matches Some(only) ==> only@.contains(slot))
}

/// The accounts that may be fetched: those without a mark that are asked for.
pub open spec fn fetchable(states: Seq<SlotState>, opts: CollectOpts) -> Seq<SlotState>
    decreases states.len(),
{
    if states.len() == 0 {
        Seq::empty()
    } else {
        let rest = fetchable(states.drop_last(), opts);
        let st = states.last();
        if st.sentinel is None && asked_for(opts, st.slot) {
            rest.push(st)
        } else {
            rest
        }
    }
}

/// Whether triples are the keys and identities of some states.
pub open spec fn keyed_for(keys: Seq<(String, String, String)>, states: Seq<SlotState>) -> bool {
    keys.len() == states.len() && forall|i: int|
        0 <= i < states.len() ==> (#[trigger] keys[i]).0 == states[i].key && keys[i].1
            == states[i].meta.email && keys[i].2 == states[i].meta.organization_uuid
}

/// The keys and identities of the accounts that may be fetched.
pub fn fetch_candidates(states: &Vec<SlotState>, opts: &CollectOpts) -> (r: Vec<
    (String, String, String),
>)
    ensures
        keyed_for(r@, fetchable(states@, *opts)),
{
    let mut r: Vec<(String, String, String)> = Vec::new();
    let mut i: usize = 0;
    assert(states@.take(0) =~= Seq::empty());
    while i < states.len()
        invariant
            i <= states.len(),
            keyed_for(r@, fetchable(states@.take(i as int), *opts)),
        decreases states.len() - i,
    {
        assert(states@.take(i + 1).drop_last() =~= states@.take(i as int));
        let st: &SlotState = &states[i];
        let wanted: bool = match &opts.only {
            Some(only) => lists(only, st.slot),
            None => true,
        };
        if st.sentinel.is_none() && (opts.force_slots.len() == 0 || lists(
            &opts.force_slots,
            st.slot,
        )) && wanted {
            r.push((st.key.clone(), st.meta.email.clone(), st.meta.organization_uuid.clone()));
        }
        i += 1;
    }
    assert(states@.take(states@.len() as int) =~= states@);
    r
}

/// The keys and identities of all accounts of a pass.
pub fn all_keys(states: &Vec<SlotState>) -> (r: Vec<(String, String, String)>)
    ensures
        keyed_for(r@, states@),
{
    let mut r: Vec<(String, String, String)> = Vec::new();
    let mut i: usize = 0;
    while i < states.len()
        invariant
            i <= states.len(),
            keyed_for(r@, states@.take(i as int)),
        decreases states.len() - i,
    {
        let st: &SlotState = &states[i];
        r.push((st.key.clone(), st.meta.email.clone(), st.meta.organization_uuid.clone()));
        i += 1;
    }
    assert(states@.take(states@.len() as int) =~= states@);
    r
}

/// A mark, or that of an expired token: an active login that nothing fetches in this
/// pass, and that has expired or is to be healed, is shown as expired.
pub open spec fn expired_mark(st: SlotState, won: Map<Seq<char>, String>, now: i64) -> Option<
    UsageStatus,
> {
    let expired = st.login matches Some(c) && (c.expires_at matches Some(t) && t < now);
    if st.sentinel is None && st.active && !won.contains_key(st.key@) && (expired || st.heal_live) {
        Some(UsageStatus::TokenExpired)
    } else {
        st.sentinel
    }
}

/// Marks an expired active login that nothing fetches in this pass.
pub fn mark_expired(states: &mut Vec<SlotState>, won: &Table<String>, now: i64)
    requires
        won.wf(),
    ensures
        final(states)@.len() == old(states)@.len(),
        forall|i: int|
            0 <= i < old(states)@.len() ==> #[trigger] final(states)@[i] == (SlotState {
                sentinel: expired_mark(old(states)@[i], won@, now),
                ..old(states)@[i]
            }),
{
    let mut i: usize = 0;
    while i < states.len()
        invariant
            i <= states.len(),
            won.wf(),
            states@.len() == old(states)@.len(),
            forall|k: int|
                0 <= k < i ==> #[trigger] states@[k] == (SlotState {
                    sentinel: expired_mark(old(states)@[k], won@, now),
                    ..old(states)@[k]
                }),
            forall|k: int| i <= k < states@.len() ==> #[trigger] states@[k] == old(states)@[k],
        decreases states.len() - i,
    {
        let expired: bool = match &states[i].login {
            Some(c) => match c.expires_at {
                Some(t) => t < now,
                None => false,
            },
            None => false,
        };
        if states[i].sentinel.is_none() && states[i].active && !won.contains_key(
            states[i].key.as_str(),
        ) && (expired || states[i].heal_live) {
            states[i].sentinel = Some(UsageStatus::TokenExpired);
        }
        i += 1;
    }
}

/// Reads what came of looking at the live login for a pass: the login, where there is
/// one, or why it cannot be known now. Another process holds the store while it switches;
/// a keychain that cannot be read, or a tool in the middle of a write, says nothing of
/// the accounts. Any other error is a fault.
pub fn live_for_pass(fenced: bool, read: Result<Credential, DriverError>) -> (r: Result<
    (Option<Credential>, Option<String>),
    DriverError,
>)
    ensures
        if fenced {
            r matches Ok(x) && x.0 is None && opt_text(x.1) == Some("switch-in-progress"@)
        } else {
            match read {
                Ok(login) => r matches Ok(x) && x.0 == Some(login) && x.1 is None,
                Err(DriverError::NoLogin) => r matches Ok(x) && x.0 is None && x.1 is None,
                Err(DriverError::KeychainUnavailable) => r matches Ok(x) && x.0 is None && opt_text(
                    x.1,
                ) == Some("keychain-unavailable"@),
                Err(DriverError::Locked(_)) => r matches Ok(x) && x.0 is None && opt_text(x.1)
                    == Some("cli-busy"@),
                Err(e) => r == Err::<(Option<Credential>, Option<String>), DriverError>(e),
            }
        },
{
    if fenced {
        return Ok((None, Some("switch-in-progress".to_owned())));
    }
    match read {
        Ok(login) => Ok((Some(login), None)),
        Err(e) => match e {
            DriverError::NoLogin => Ok((None, None)),
            DriverError::KeychainUnavailable => Ok(
                (None, Some("keychain-unavailable".to_owned())),
            ),
            DriverError::Locked(_) => Ok((None, Some("cli-busy".to_owned()))),
            _ => Err(e),
        },
    }
}

/// Whether there is a live login: one of blank bytes is none.
pub fn has_live_login(live: &Option<Credential>) -> (r: bool)
    ensures
        r == (live matches Some(l) && trimmed(l.bytes@).len() > 0),
{
    match live {
        Some(l) => !trim(l.bytes.as_str()).as_str().is_empty(),
        None => false,
    }
}

/// The slot whose live login cannot be read is not fetched: it is served from what was
/// measured before.
pub proof fn law_an_unreadable_login_is_not_fetched(
    states: Seq<SlotState>,
    slots: ProviderSlots,
    provider: Seq<char>,
    order: Seq<u32>,
    named: Option<u32>,
    stored: Seq<Stored>,
    live: Option<Credential>,
    n: u32,
    opts: CollectOpts,
)
    requires
        states.len() == order.len(),
        forall|i: int|
            0 <= i < order.len() ==> is_state(
                #[trigger] states[i],
                slots,
                provider,
                order,
                named,
                stored,
                live,
                Some(n),
                i,
            ),
    ensures
        forall|k: int|
            0 <= k < fetchable(states, opts).len() ==> (#[trigger] fetchable(states, opts)[k]).slot
                != n,
{
    assert forall|i: int|
        0 <= i < states.len() && (#[trigger] states[i]).slot == n implies states[i].sentinel is Some by {
        assert(states[i].slot == order[i]);
    }
    lemma_marked_is_not_fetched(states, opts, n);
}

proof fn lemma_marked_is_not_fetched(states: Seq<SlotState>, opts: CollectOpts, n: u32)
    requires
        forall|i: int|
            0 <= i < states.len() && (#[trigger] states[i]).slot == n ==> states[i].sentinel is Some,
    ensures
        forall|k: int|
            0 <= k < fetchable(states, opts).len() ==> (#[trigger] fetchable(states, opts)[k]).slot
                != n,
    decreases states.len(),
{
    if states.len() > 0 {
        let short = states.drop_last();
        assert forall|i: int|
            0 <= i < short.len() && (#[trigger] short[i]).slot == n implies short[i].sentinel is Some by {
            assert(states[i] == short[i]);
        }
        lemma_marked_is_not_fetched(short, opts, n);
        let rest = fetchable(short, opts);
        let out = fetchable(states, opts);
        assert(states[states.len() - 1] == states.last());
        assert forall|k: int| 0 <= k < out.len() implies (#[trigger] out[k]).slot != n by {
            if k < rest.len() {
                assert(out[k] == rest[k]);
            }
        }
    }
}

} // verus!
