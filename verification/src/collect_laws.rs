//! What holds of the start of a pass: which slots it goes through, which one is active,
//! which login each of them uses, and what the table remembers of a login.

use vstd::prelude::*;

use crate::add::{find_owner, settle, Placement};
use crate::collect::{
    has_live_login, prepare, rotation_order, Credential, Identity, SlotState, Stored,
};
use crate::contract::{UsageStatus, Window};
use crate::pass::heal_adopted;
use crate::poll_policy::window_reset;
use crate::slots::{first_with, ProviderSlots, Slot};
use crate::switch_laws::{is_owner, lemma_first_with};
use crate::text::{opt_str, opt_text, trimmed};
use crate::timefmt::{rfc3339_text, whole_seconds};
use crate::usage_store::{carry_weekly_reset, Entry, UsageStore};

verus! {

/// A pass goes through every slot and through nothing else. Two slots that the rotation
/// names come in its order.
pub proof fn law_a_pass_goes_in_the_order_of_the_rotation(
    slots: ProviderSlots,
    r: Vec<u32>,
    i: int,
    j: int,
)
    requires
        slots.wf(),
        call_ensures(rotation_order, (&slots,), r),
        forall|a: int, b: int| 0 <= a < b < slots.order@.len() ==> slots.order@[a] != slots.order@[b],
    ensures
        forall|n: u32| #[trigger] r@.contains(n) <==> slots.slots@.contains_key(n),
        0 <= i < j < slots.order@.len() && slots.slots@.contains_key(slots.order@[i])
            && slots.slots@.contains_key(slots.order@[j]) ==> exists|a: int, b: int|
            0 <= a < b < r@.len() && #[trigger] r@[a] == slots.order@[i] && #[trigger] r@[b]
                == slots.order@[j],
{
    crate::collect::law_rotation_names_every_slot(slots);
    if 0 <= i < j < slots.order@.len() && slots.slots@.contains_key(slots.order@[i])
        && slots.slots@.contains_key(slots.order@[j]) {
        lemma_in_order(slots.order@, slots.slots@, i, j);
        let known = crate::collect::known_in(slots.order@, slots.slots@);
        let (a, b) = choose|a: int, b: int|
            0 <= a < b < known.len() && #[trigger] known[a] == slots.order@[i]
                && #[trigger] known[b] == slots.order@[j];
        lemma_completed(known, slots.slots.items@);
        assert(r@[a] == known[a] && r@[b] == known[b]);
    }
}

proof fn lemma_in_order(order: Seq<u32>, slots: Map<u32, Slot>, i: int, j: int)
    requires
        0 <= i < j < order.len(),
        slots.contains_key(order[i]),
        slots.contains_key(order[j]),
        forall|a: int, b: int| 0 <= a < b < order.len() ==> order[a] != order[b],
    ensures
        exists|a: int, b: int|
            0 <= a < b < crate::collect::known_in(order, slots).len()
                && #[trigger] crate::collect::known_in(order, slots)[a] == order[i]
                && #[trigger] crate::collect::known_in(order, slots)[b] == order[j],
    decreases order.len(),
{
    let short = order.drop_last();
    let rest = crate::collect::known_in(short, slots);
    let out = crate::collect::known_in(order, slots);
    if j < short.len() {
        lemma_in_order(short, slots, i, j);
        let (a, b) = choose|a: int, b: int|
            0 <= a < b < rest.len() && #[trigger] rest[a] == order[i] && #[trigger] rest[b]
                == order[j];
        assert(out[a] == order[i] && out[b] == order[j]);
    } else {
        lemma_is_known(short, slots, i);
        let a = choose|a: int| 0 <= a < rest.len() && #[trigger] rest[a] == order[i];
        if rest.contains(order[j]) {
            lemma_known_is_listed(short, slots, order[j]);
            let k = choose|k: int| 0 <= k < short.len() && short[k] == order[j];
            assert(order[k] != order[j]);
        }
        assert(out[a] == order[i] && out[rest.len() as int] == order[j]);
    }
}

proof fn lemma_is_known(order: Seq<u32>, slots: Map<u32, Slot>, i: int)
    requires
        0 <= i < order.len(),
        slots.contains_key(order[i]),
    ensures
        exists|a: int|
            0 <= a < crate::collect::known_in(order, slots).len()
                && #[trigger] crate::collect::known_in(order, slots)[a] == order[i],
    decreases order.len(),
{
    let short = order.drop_last();
    let rest = crate::collect::known_in(short, slots);
    let out = crate::collect::known_in(order, slots);
    if i < short.len() {
        lemma_is_known(short, slots, i);
        let a = choose|a: int| 0 <= a < rest.len() && #[trigger] rest[a] == order[i];
        assert(out[a] == order[i]);
    } else if rest.contains(order[i]) {
        let a = choose|a: int| 0 <= a < rest.len() && rest[a] == order[i];
        assert(out[a] == order[i]);
    } else {
        assert(out[rest.len() as int] == order[i]);
    }
}

proof fn lemma_known_is_listed(order: Seq<u32>, slots: Map<u32, Slot>, n: u32)
    requires
        crate::collect::known_in(order, slots).contains(n),
    ensures
        order.contains(n),
    decreases order.len(),
{
    if order.len() > 0 {
        let short = order.drop_last();
        let rest = crate::collect::known_in(short, slots);
        let out = crate::collect::known_in(order, slots);
        let k = choose|k: int| 0 <= k < out.len() && out[k] == n;
        if k < rest.len() {
            assert(rest[k] == n);
            lemma_known_is_listed(short, slots, n);
            let j = choose|j: int| 0 <= j < short.len() && short[j] == n;
            assert(order[j] == n);
        } else {
            assert(order[order.len() - 1] == n);
        }
    }
}

proof fn lemma_completed(out: Seq<u32>, items: Seq<(u32, Slot)>)
    ensures
        crate::collect::completed(out, items).len() >= out.len(),
        forall|k: int|
            0 <= k < out.len() ==> #[trigger] crate::collect::completed(out, items)[k] == out[k],
    decreases items.len(),
{
    if items.len() > 0 {
        lemma_completed(out, items.drop_last());
    }
}

/// Whether a stored login is one that can be used: it is there, and not blank.
pub open spec fn can_be_used(s: Stored) -> bool {
    s.login is Some && trimmed(s.login->0.bytes@).len() > 0
}

/// Whether a stored login carries the fingerprint of another.
pub open spec fn is_the_same(s: Stored, live: Credential) -> bool {
    can_be_used(s) && s.login->0.fingerprint@ == live.fingerprint@
}

/// Which slot of a pass is active: none without a live login, and one at the most. A login
/// that says whose it is makes the first slot of that account active, whatever is stored
/// there. One that names no account here makes the first slot active that stores the same
/// login.
pub proof fn law_which_slot_is_active(
    slots: ProviderSlots,
    provider: &str,
    order: Vec<u32>,
    stored: Vec<Stored>,
    live: Option<Credential>,
    unreadable: Option<u32>,
    states: Vec<SlotState>,
    i: int,
    j: int,
)
    requires
        slots.wf(),
        stored@.len() == order@.len(),
        forall|k: int| 0 <= k < order@.len() ==> slots.slots@.contains_key(#[trigger] order@[k]),
        forall|a: int, b: int| 0 <= a < b < order@.len() ==> order@[a] != order@[b],
        call_ensures(prepare, (&slots, provider, &order, &stored, &live, unreadable), states),
        0 <= i < order@.len(),
        0 <= j < order@.len(),
    ensures
        states@.len() == order@.len(),
        states@[i].active ==> live is Some,
        states@[i].active && states@[j].active ==> i == j,
        live is Some && live->0.identity is Some && is_owner(
            slots.slots@[order@[i]],
            live->0.identity->0,
        ) && (forall|k: int|
            0 <= k < i ==> !is_owner(slots.slots@[#[trigger] order@[k]], live->0.identity->0))
            ==> states@[i].active,
        live is Some && (live->0.identity is None || (forall|k: int|
            0 <= k < order@.len() ==> !is_owner(
                slots.slots@[#[trigger] order@[k]],
                live->0.identity->0,
            ))) ==> (states@[i].active <==> is_the_same(stored@[i], live->0) && (forall|k: int|
            0 <= k < i ==> !is_the_same(#[trigger] stored@[k], live->0))),
{
    let named = crate::collect::identified(order@, slots.slots@, live);
    let s_i = states@[i];
    let s_j = states@[j];
    if s_i.active && s_j.active {
        crate::collect::law_one_slot_is_active(order@, named, stored@, live, i, j);
    }
    if live is Some {
        let l = live->0;
        if l.identity is Some {
            lemma_first_owned(order@, slots.slots@, l.identity->0, i);
        }
        assert(crate::collect::matches_live(order@[i], named, stored@[i].usable(), l) <==> (named
            == Some(order@[i]) || (named is None && is_the_same(stored@[i], l))));
        if named is Some && named->0 == order@[i] {
            if crate::collect::claimed_before(order@, named, stored@, live, i) {
                let k = choose|k: int|
                    0 <= k < i && crate::collect::matches_live(
                        #[trigger] order@[k],
                        named,
                        stored@[k].usable(),
                        l,
                    );
                assert(order@[k] != order@[i]);
            }
        }
        if named is None {
            if crate::collect::claimed_before(order@, named, stored@, live, i) {
                let k = choose|k: int|
                    0 <= k < i && crate::collect::matches_live(
                        #[trigger] order@[k],
                        named,
                        stored@[k].usable(),
                        l,
                    );
                assert(is_the_same(stored@[k], l));
            } else {
                assert forall|k: int| 0 <= k < i implies !is_the_same(#[trigger] stored@[k], l) by {
                    assert(!crate::collect::matches_live(
                        order@[k],
                        named,
                        stored@[k].usable(),
                        l,
                    ));
                }
            }
        }
    }
}

proof fn lemma_first_owned(order: Seq<u32>, slots: Map<u32, Slot>, who: Identity, i: int)
    ensures
        0 <= i < order.len() && slots.contains_key(order[i]) && is_owner(slots[order[i]], who) && (
        forall|k: int| 0 <= k < i ==> !is_owner(slots[#[trigger] order[k]], who))
            ==> crate::collect::first_owned(order, slots, who) == Some(order[i]),
        (forall|k: int| 0 <= k < order.len() ==> !is_owner(slots[#[trigger] order[k]], who))
            ==> crate::collect::first_owned(order, slots, who) is None,
    decreases order.len(),
{
    if order.len() > 0 {
        let short = order.drop_last();
        lemma_first_owned(short, slots, who, i);
        assert forall|k: int| 0 <= k < short.len() implies #[trigger] short[k] == order[k] by {}
        if forall|k: int| 0 <= k < order.len() ==> !is_owner(slots[#[trigger] order[k]], who) {
            assert(!is_owner(slots[order[order.len() - 1]], who));
            assert forall|k: int| 0 <= k < short.len() implies !is_owner(
                slots[#[trigger] short[k]],
                who,
            ) by {
                assert(!is_owner(slots[order[k]], who));
            }
        }
        if i == order.len() - 1 && (forall|k: int|
            0 <= k < i ==> !is_owner(slots[#[trigger] order[k]], who)) {
            assert forall|k: int| 0 <= k < short.len() implies !is_owner(
                slots[#[trigger] short[k]],
                who,
            ) by {
                assert(!is_owner(slots[order[k]], who));
            }
        }
        if 0 <= i < short.len() && (forall|k: int|
            0 <= k < i ==> !is_owner(slots[#[trigger] order[k]], who)) {
            assert forall|k: int| 0 <= k < i implies !is_owner(slots[#[trigger] short[k]], who) by {
                assert(!is_owner(slots[order[k]], who));
            }
        }
    }
}

/// Which login a slot of a pass uses: its stored one, unless that is blank; the active slot
/// the live one, unless that is older than the stored one. An older live login is written
/// over; one that differs from what is stored is taken over.
pub proof fn law_which_login_a_slot_uses(
    slots: ProviderSlots,
    provider: &str,
    order: Vec<u32>,
    stored: Vec<Stored>,
    live: Option<Credential>,
    unreadable: Option<u32>,
    states: Vec<SlotState>,
    i: int,
)
    requires
        slots.wf(),
        stored@.len() == order@.len(),
        forall|k: int| 0 <= k < order@.len() ==> slots.slots@.contains_key(#[trigger] order@[k]),
        call_ensures(prepare, (&slots, provider, &order, &stored, &live, unreadable), states),
        0 <= i < order@.len(),
    ensures
        ({
            let st = states@[i];
            let old = can_be_used(stored@[i]) && stored@[i].live_is_older;
            &&& st.slot == order@[i]
            &&& st.meta == slots.slots@[order@[i]]
            &&& st.active && !old ==> st.login == live
            &&& !(st.active && !old) && can_be_used(stored@[i]) ==> st.login == stored@[i].login
            &&& !(st.active && !old) && !can_be_used(stored@[i]) ==> st.login is None
            &&& st.heal_live <==> st.active && old
            &&& st.adopt <==> st.active && !old && !is_the_same(stored@[i], live->0)
        }),
{
    let st = states@[i];
    assert(st.slot == order@[i]);
}

/// The mark that a slot has before anything is asked: one whose live login cannot be read is
/// stale, one without a login has none, and a managed key is one. No other slot has a mark.
pub proof fn law_which_mark_a_slot_starts_with(
    slots: ProviderSlots,
    provider: &str,
    order: Vec<u32>,
    stored: Vec<Stored>,
    live: Option<Credential>,
    unreadable: Option<u32>,
    states: Vec<SlotState>,
    i: int,
)
    requires
        slots.wf(),
        stored@.len() == order@.len(),
        forall|k: int| 0 <= k < order@.len() ==> slots.slots@.contains_key(#[trigger] order@[k]),
        call_ensures(prepare, (&slots, provider, &order, &stored, &live, unreadable), states),
        0 <= i < order@.len(),
    ensures
        unreadable == Some(order@[i]) ==> states@[i].sentinel == Some(UsageStatus::Stale),
        unreadable != Some(order@[i]) && states@[i].login is None ==> states@[i].sentinel == Some(
            UsageStatus::NoCredentials,
        ),
        unreadable != Some(order@[i]) && states@[i].login is Some && states@[i].login->0.api_key
            ==> states@[i].sentinel == Some(UsageStatus::ApiKey),
        unreadable != Some(order@[i]) && states@[i].login is Some && !states@[i].login->0.api_key
            ==> states@[i].sentinel is None,
{
    let st = states@[i];
    assert(st.slot == order@[i]);
}

/// A login of blank bytes is no live login.
pub proof fn law_a_blank_login_is_none(live: Option<Credential>, r: bool)
    requires
        call_ensures(has_live_login, (&live,), r),
    ensures
        r <==> live is Some && trimmed(live->0.bytes@).len() > 0,
{
}

/// A login that was replaced is not condemned by what befell the one before it: the strikes
/// of its row are lifted, and the row may be fetched again. A row that no replaced login
/// stands for is left as it is.
pub proof fn law_a_replaced_login_is_not_condemned(states: Vec<SlotState>, i: int, k: Seq<char>)
    ensures
        forall|s: &mut UsageStore, r: ()|
            s.wf() && #[trigger] call_ensures(heal_adopted, (s, &states), r) ==> {
                &&& 0 <= i < states@.len() && states@[i].adopt && s.rows@.contains_key(
                    states@[i].key@,
                ) && s.rows@[states@[i].key@].email@ == states@[i].meta.email@
                    && s.rows@[states@[i].key@].org@ == states@[i].meta.organization_uuid@
                    ==> final(s).rows@.contains_key(states@[i].key@)
                    && final(s).rows@[states@[i].key@].auth_dead_strikes == 0
                &&& (forall|a: int|
                    0 <= a < states@.len() ==> !((#[trigger] states@[a]).adopt && states@[a].key@
                        == k)) && s.rows@.contains_key(k) ==> final(s).rows@.contains_key(k)
                    && final(s).rows@[k] == s.rows@[k]
            },
{
    assert forall|s: &mut UsageStore, r: ()|
        s.wf() && #[trigger] call_ensures(heal_adopted, (s, &states), r) implies (0 <= i
        < states@.len() && states@[i].adopt && s.rows@.contains_key(states@[i].key@)
        && s.rows@[states@[i].key@].email@ == states@[i].meta.email@
        && s.rows@[states@[i].key@].org@ == states@[i].meta.organization_uuid@
        ==> final(s).rows@.contains_key(states@[i].key@)
        && final(s).rows@[states@[i].key@].auth_dead_strikes == 0) && ((forall|a: int|
        0 <= a < states@.len() ==> !((#[trigger] states@[a]).adopt && states@[a].key@ == k))
        && s.rows@.contains_key(k) ==> final(s).rows@.contains_key(k) && final(s).rows@[k]
        == s.rows@[k]) by {
        lemma_healed(s.rows@, states@, i, k);
    }
}

proof fn lemma_healed(
    rows: Map<Seq<char>, crate::usage_store::Row>,
    states: Seq<SlotState>,
    i: int,
    k: Seq<char>,
)
    ensures
        ({
            let out = crate::pass::healed_rows(rows, states);
            &&& forall|key: Seq<char>| #[trigger] out.contains_key(key) <==> rows.contains_key(key)
            &&& forall|key: Seq<char>|
                rows.contains_key(key) ==> (#[trigger] out[key]).email == rows[key].email
                    && out[key].org == rows[key].org && (out[key].auth_dead_strikes == 0 || out[key]
                    == rows[key])
            &&& 0 <= i < states.len() && states[i].adopt && rows.contains_key(states[i].key@)
                && rows[states[i].key@].email@ == states[i].meta.email@
                && rows[states[i].key@].org@ == states[i].meta.organization_uuid@
                ==> out[states[i].key@].auth_dead_strikes == 0
            &&& (forall|a: int|
                0 <= a < states.len() ==> !((#[trigger] states[a]).adopt && states[a].key@ == k))
                ==> out[k] == rows[k]
        }),
    decreases states.len(),
{
    if states.len() > 0 {
        let short = states.drop_last();
        lemma_healed(rows, short, i, k);
        assert forall|a: int| 0 <= a < short.len() implies #[trigger] short[a] == states[a] by {}
        if forall|a: int|
            0 <= a < states.len() ==> !((#[trigger] states[a]).adopt && states[a].key@ == k) {
            assert forall|a: int| 0 <= a < short.len() implies !((#[trigger] short[a]).adopt
                && short[a].key@ == k) by {
                assert(!(states[a].adopt && states[a].key@ == k));
            }
            assert(!(states[states.len() - 1].adopt && states[states.len() - 1].key@ == k));
        }
    }
}

/// A new login lifts everything that kept its row from being fetched, and touches no other
/// row.
pub proof fn law_a_new_login_clears_its_row(key: &str, k: Seq<char>)
    ensures
        forall|s: &mut UsageStore, r: ()|
            s.wf() && #[trigger] call_ensures(UsageStore::clear_dead, (s, key), r) ==> {
                &&& s.rows@.contains_key(key@) ==> final(s).rows@.contains_key(key@) && ({
                    let row = final(s).rows@[key@];
                    row.auth_dead_strikes == 0 && row.dead_fingerprint is None
                        && row.consecutive_failures == 0 && row.backoff_until is None
                        && row.claim_id is None && row.last_good == s.rows@[key@].last_good
                        && row.fetched_at == s.rows@[key@].fetched_at
                })
                &&& k != key@ ==> (final(s).rows@.contains_key(k) <==> s.rows@.contains_key(k))
                &&& k != key@ && s.rows@.contains_key(k) ==> final(s).rows@[k] == s.rows@[k]
            },
{
}

/// A row that moves stands under its new key as it was, and no longer under the old one; no
/// third row changes.
pub proof fn law_a_row_moves_whole(from: &str, to: &str, k: Seq<char>)
    ensures
        forall|s: &mut UsageStore, r: ()|
            s.wf() && #[trigger] call_ensures(UsageStore::relocate, (s, from, to), r) ==> {
                &&& s.rows@.contains_key(from@) ==> final(s).rows@.contains_key(to@)
                    && final(s).rows@[to@] == s.rows@[from@]
                &&& from@ != to@ ==> !final(s).rows@.contains_key(from@)
                &&& k != from@ && k != to@ ==> (final(s).rows@.contains_key(k)
                    <==> s.rows@.contains_key(k))
                &&& k != from@ && k != to@ && s.rows@.contains_key(k) ==> final(s).rows@[k]
                    == s.rows@[k]
                &&& !s.rows@.contains_key(from@) ==> final(s).rows@ == s.rows@
            },
{
}

/// What an entry says of now: it is fresh for three minutes, backs off and is claimed until
/// the instants that it names, and was refused recently within an hour of the refusal.
pub proof fn law_what_an_entry_says_of_now(
    e: Entry,
    now: i64,
    fresh: bool,
    backing: bool,
    claimed: bool,
    refused: bool,
)
    requires
        call_ensures(Entry::fresh, (&e, now), fresh),
        call_ensures(Entry::in_backoff, (&e, now), backing),
        call_ensures(Entry::claimed, (&e, now), claimed),
        call_ensures(Entry::recent_429, (&e, now), refused),
    ensures
        fresh <==> e.fetched_at is Some && now - e.fetched_at->0 <= 180_000_000,
        backing <==> e.backoff_until is Some && now < e.backoff_until->0,
        claimed <==> e.claim_until is Some && now < e.claim_until->0,
        e.last_429_at is None ==> !refused,
        e.last_429_at is Some && now - e.last_429_at->0 < 3_600_000_000 ==> refused,
        refused && !backing && now - e.last_429_at->0 >= 3_600_000_000 ==> e.backoff_until is Some
            && now - e.backoff_until->0 < 3_600_000_000,
{
}

/// A login is dead where its row carries a strike, unless the strike fell on another login:
/// both fingerprints are known, and they differ.
pub proof fn law_which_login_is_dead(e: Entry, print: Option<&str>, r: bool)
    requires
        call_ensures(Entry::token_dead, (&e, print), r),
    ensures
        e.auth_dead_strikes == 0 ==> !r,
        e.auth_dead_strikes > 0 && print is Some && e.dead_fingerprint is Some ==> (r <==> print->0@
            == e.dead_fingerprint->0@),
        e.auth_dead_strikes > 0 && (print is None || e.dead_fingerprint is None) ==> r,
{
    assert(opt_str(print) == match print {
        Some(s) => Some(s@),
        None => None,
    });
    assert(opt_text(e.dead_fingerprint) == match e.dead_fingerprint {
        Some(s) => Some(s@),
        None => None,
    });
}

/// A weekly window without a reset takes the one that was measured before, in whole weeks
/// after that and ahead of now; a reset that lies ahead is taken as it is. Nothing else of
/// the windows changes.
pub proof fn law_a_weekly_reset_is_carried_on(
    previous: Vec<Window>,
    now: i64,
    i: int,
    j: int,
    t: i64,
)
    requires
        0 <= now <= 0x1000_0000_0000_0000,
        0 <= t <= 0x1000_0000_0000_0000,
        0 <= j < previous@.len(),
        previous@[j].kind is SevenDay,
        forall|k: int| 0 <= k < j ==> !((#[trigger] previous@[k]).kind is SevenDay),
        window_reset(previous@[j]) == Some(t),
    ensures
        forall|new: &mut Vec<Window>, r: ()| #[trigger]
            call_ensures(carry_weekly_reset, (new, &previous, now), r) ==> {
                &&& final(new)@.len() == new@.len()
                &&& 0 <= i < new@.len() && new@[i].kind is SevenDay && new@[i].resets_at is None && (
                forall|k: int|
                    0 <= k < i ==> !((#[trigger] new@[k]).kind is SevenDay && new@[k].resets_at
                        is None)) ==> final(new)@[i].pct == new@[i].pct && exists|at: i64|
                    at > now && (at - t) % 604_800_000_000 == 0 && (t > now ==> at == t) && (t <= now
                        ==> at <= now + 604_800_000_000) && opt_text(final(new)@[i].resets_at)
                        == #[trigger] rfc3339_text(whole_seconds(at))
                &&& 0 <= i < new@.len() && !(new@[i].kind is SevenDay && new@[i].resets_at is None)
                    ==> final(new)@[i] == new@[i]
            },
{
    lemma_weekly(previous@, false, j);
    crate::usage_store::law_weekly_reset_lies_ahead(t, now);
    let at = crate::usage_store::next_weekly(t, now) as i64;
    assert forall|new: &mut Vec<Window>, r: ()| #[trigger]
        call_ensures(carry_weekly_reset, (new, &previous, now), r) && 0 <= i < new@.len()
            && new@[i].kind is SevenDay && new@[i].resets_at is None && (forall|k: int|
            0 <= k < i ==> !((#[trigger] new@[k]).kind is SevenDay && new@[k].resets_at is None)) implies
        final(new)@[i].pct == new@[i].pct && exists|at: i64|
        at > now && (at - t) % 604_800_000_000 == 0 && (t > now ==> at == t) && (t <= now ==> at
            <= now + 604_800_000_000) && opt_text(final(new)@[i].resets_at)
            == #[trigger] rfc3339_text(whole_seconds(at)) by {
        lemma_weekly(new@, true, i);
        assert(opt_text(final(new)@[i].resets_at) == rfc3339_text(whole_seconds(at)));
    }
    assert forall|new: &mut Vec<Window>, r: ()| #[trigger]
        call_ensures(carry_weekly_reset, (new, &previous, now), r) && 0 <= i < new@.len() && !(
        new@[i].kind is SevenDay && new@[i].resets_at is None) implies final(new)@[i] == new@[i] by {
        lemma_unset(new@);
    }
}

proof fn lemma_weekly(windows: Seq<Window>, unset: bool, i: int)
    requires
        0 <= i < windows.len(),
        windows[i].kind is SevenDay && (unset ==> windows[i].resets_at is None),
        forall|k: int|
            0 <= k < i ==> !((#[trigger] windows[k]).kind is SevenDay && (unset
                ==> windows[k].resets_at is None)),
    ensures
        crate::usage_store::first_weekly(windows, unset) == Some(i),
    decreases windows.len(),
{
    let short = windows.drop_last();
    assert forall|k: int| 0 <= k < short.len() implies #[trigger] short[k] == windows[k] by {}
    if i < short.len() {
        assert forall|k: int| 0 <= k < i implies !((#[trigger] short[k]).kind is SevenDay && (unset
            ==> short[k].resets_at is None)) by {
            assert(short[k] == windows[k]);
        }
        lemma_weekly(short, unset, i);
    } else {
        assert forall|k: int| 0 <= k < short.len() implies !((#[trigger] short[k]).kind is SevenDay
            && (unset ==> short[k].resets_at is None)) by {
            assert(short[k] == windows[k]);
        }
        lemma_no_weekly(short, unset);
    }
}

proof fn lemma_no_weekly(windows: Seq<Window>, unset: bool)
    requires
        forall|k: int|
            0 <= k < windows.len() ==> !((#[trigger] windows[k]).kind is SevenDay && (unset
                ==> windows[k].resets_at is None)),
    ensures
        crate::usage_store::first_weekly(windows, unset) is None,
    decreases windows.len(),
{
    if windows.len() > 0 {
        let short = windows.drop_last();
        assert forall|k: int| 0 <= k < short.len() implies !((#[trigger] short[k]).kind is SevenDay
            && (unset ==> short[k].resets_at is None)) by {
            assert(short[k] == windows[k]);
        }
        lemma_no_weekly(short, unset);
        assert(windows.last() == windows[windows.len() - 1]);
    }
}

proof fn lemma_unset(windows: Seq<Window>)
    ensures
        crate::usage_store::first_weekly(windows, true) matches Some(i) ==> 0 <= i < windows.len()
            && windows[i].kind is SevenDay && windows[i].resets_at is None,
    decreases windows.len(),
{
    if windows.len() > 0 {
        lemma_unset(windows.drop_last());
    }
}

/// The slot of an account is the least that has its address, without regard to case, and its
/// organization where one is named.
pub proof fn law_the_slot_of_an_account(
    slots: ProviderSlots,
    who: Identity,
    r: Option<u32>,
    n: u32,
)
    requires
        slots.wf(),
        call_ensures(find_owner, (&slots, &who), r),
    ensures
        r is Some ==> slots.slots@.contains_key(r->0) && is_owner(slots.slots@[r->0], who),
        slots.slots@.contains_key(n) && is_owner(slots.slots@[n], who) ==> r is Some && r->0 <= n,
{
    let items = slots.slots.items@;
    let own = crate::switch::by_owner(who);
    let mut at: int = -1;
    if slots.slots@.contains_key(n) {
        at = slots.slots.lemma_position(n);
    }
    if first_with(items, own) is Some || (0 <= at && own(items[at].1)) {
        let i = lemma_first_with(items, own, at);
        slots.slots.lemma_entry(i);
        if 0 <= at && own(items[at].1) && i < at {
            assert(items[i].0 < items[at].0);
        }
    }
}

/// An account that is put down stands in its slot, and no longer in the one that it leaves.
/// No third account changes. It becomes the active one where that is asked, and a slot that
/// it leaves is not active any more.
pub proof fn law_an_account_is_put_down_once(p: Placement, row: Slot, activate: bool, n: u32)
    requires
        p.moved_from != Some(p.slot),
    ensures
        forall|s: &mut ProviderSlots, r: ()|
            s.wf() && #[trigger] call_ensures(settle, (s, &p, row, activate), r) ==> {
                &&& final(s).slots@.contains_key(p.slot) && final(s).slots@[p.slot] == row
                &&& p.moved_from is Some ==> !final(s).slots@.contains_key(p.moved_from->0)
                &&& n != p.slot && p.moved_from != Some(n) ==> (final(s).slots@.contains_key(n)
                    <==> s.slots@.contains_key(n))
                &&& n != p.slot && p.moved_from != Some(n) && s.slots@.contains_key(n)
                    ==> final(s).slots@[n] == s.slots@[n]
                &&& activate ==> final(s).active_slot == Some(p.slot)
                &&& !activate && p.moved_from is Some && s.active_slot == p.moved_from
                    ==> final(s).active_slot is None
                &&& !activate && (p.moved_from is None || s.active_slot != p.moved_from)
                    ==> final(s).active_slot == s.active_slot
            },
{
}

} // verus!
