//! What holds of the loop round a decision: which accounts a tick measures, what it then
//! knows of each, how it carries the decision out, and how long it waits.

use vstd::prelude::*;

use crate::auto::{AutoEngine, AutoState, Decision, Quarantine, Reason, Step, TickInput, TickOutcome};
use crate::auto_rank::{Reading, Snapshot, Trigger};
use crate::auto_report::{check_model_names, ended, ModelCheck};
use crate::auto_schedule::{
    active_is_due, escalation, nominate, parked_exhausted, plan_opts, snapshot,
};
use crate::auto_tick::{tried_of, Attempt, Move, Tried};
use crate::collect::CollectOpts;
use crate::contract::{AccountView, Window};
use crate::errors::ErrorCode;
use crate::events::Event;
use crate::gating::{gating, highest};
use crate::history::SlotRef;
use crate::slots::slot_key_text;
use crate::table::Table;
use crate::text::{decimal, lowercase, number32, opt_text};
use crate::usage_store::Entry;

verus! {

/// When the active account is measured: always where it never was, or where its plan says
/// so; without a plan from three minutes on. One that was measured less than three minutes
/// ago, and whose plan lies ahead but not beyond what a plan can be, is left alone.
pub proof fn law_when_the_active_account_is_measured(
    entry: Option<&Entry>,
    now: i64,
    models: Vec<String>,
    r: bool,
)
    requires
        call_ensures(active_is_due, (entry, now, &models), r),
    ensures
        entry is None ==> r,
        entry is Some && entry->0.age_s is None ==> r,
        entry is Some && entry->0.next_poll_at is Some && entry->0.next_poll_at->0 <= now ==> r,
        entry is Some && entry->0.age_s is Some && entry->0.next_poll_at is None
            && entry->0.age_s->0 >= 180_000_000 ==> r,
        entry is Some && entry->0.age_s is Some && entry->0.next_poll_at is None
            && entry->0.age_s->0 < 180_000_000 ==> !r,
        entry is Some && entry->0.age_s is Some && entry->0.age_s->0 < 300_000_000
            && entry->0.next_poll_at is Some && now < entry->0.next_poll_at->0
            && entry->0.next_poll_at->0 - now <= 600_000_000 ==> !r,
{
}

/// An active account that still carries the slower plan of a candidate is measured after
/// five minutes, whatever that plan says, unless it is at its limit. One whose plan is no
/// slower waits for it, where it lies ahead but not beyond what a plan can be.
pub proof fn law_a_slow_plan_does_not_hold_the_active_account(
    e: Entry,
    now: i64,
    models: Vec<String>,
    windows: Vec<Window>,
    used: Option<i64>,
    r: bool,
)
    requires
        call_ensures(active_is_due, (Some(&e), now, &models), r),
        e.last_good == Some(windows),
        call_ensures(highest, (&windows, &models), used),
        e.age_s is Some && e.age_s->0 >= 300_000_000,
        e.interval_s is Some,
    ensures
        e.interval_s->0 > 300_000_000 && (used is None || used->0 < 100_000_000) ==> r,
        e.interval_s->0 <= 300_000_000 && e.next_poll_at is Some && now < e.next_poll_at->0
            && e.next_poll_at->0 - now <= 600_000_000 ==> !r,
        used is Some && used->0 >= 100_000_000 && e.next_poll_at is Some && now
            < e.next_poll_at->0 && e.next_poll_at->0 - now <= 600_000_000 ==> !r,
{
}

/// A spent account rests while its plan lies ahead and is wider than ten minutes; no other
/// does.
pub proof fn law_when_a_spent_account_rests(
    entry: Option<&Entry>,
    headroom: Option<i64>,
    now: i64,
    r: bool,
)
    requires
        call_ensures(parked_exhausted, (entry, headroom, now), r),
    ensures
        r <==> entry is Some && headroom is Some && headroom->0 <= 0
            && entry->0.next_poll_at is Some && now < entry->0.next_poll_at->0
            && entry->0.interval_s is Some && entry->0.interval_s->0 > 600_000_000,
{
}

/// Whether an account may be measured now: nothing is known of it, or its login is not
/// condemned, no backoff runs, and its plan does not lie ahead.
pub open spec fn is_open(entries: Map<Seq<char>, Entry>, key: Seq<char>, now: i64) -> bool {
    entries.contains_key(key) ==> entries[key].auth_dead_strikes == 0 && (
    entries[key].backoff_until is None || entries[key].backoff_until->0 <= now) && (
    entries[key].next_poll_at is None || entries[key].next_poll_at->0 <= now)
}

/// When an account was last measured, if it ever was.
pub open spec fn seen_at(entries: Map<Seq<char>, Entry>, key: Seq<char>) -> Option<i64> {
    if entries.contains_key(key) {
        entries[key].fetched_at
    } else {
        None
    }
}

/// A tick measures the active account at the most and one candidate. In an idle-hold it
/// measures no candidate; else one, where any may be measured, and none of those was
/// measured longer ago.
pub proof fn law_a_tick_measures_the_stalest_candidate(
    provider: &str,
    current: u32,
    candidates: Vec<u32>,
    entries: Table<Entry>,
    idle_hold: bool,
    models: Vec<String>,
    now: i64,
    plan: Vec<u32>,
    i: int,
)
    requires
        entries.wf(),
        call_ensures(
            nominate,
            (provider, current, &candidates, &entries, idle_hold, &models, now),
            plan,
        ),
    ensures
        plan@.len() <= 2,
        forall|n: u32| #[trigger] plan@.contains(n) ==> n == current || candidates@.contains(n),
        idle_hold && plan@.len() > 0 ==> plan@ == seq![current],
        !entries@.contains_key(slot_key_text(provider@, current)) ==> plan@.len() > 0 && plan@[0]
            == current,
        !idle_hold && 0 <= i < candidates@.len() && is_open(
            entries@,
            slot_key_text(provider@, candidates@[i]),
            now,
        ) ==> plan@.len() > 0 && candidates@.contains(plan@.last()) && ({
            let mine = seen_at(entries@, slot_key_text(provider@, candidates@[i]));
            let other = seen_at(entries@, slot_key_text(provider@, plan@.last()));
            &&& mine is None ==> other is None
            &&& mine is Some && other is Some ==> other->0 <= mine->0
        }),
{
    let first: Seq<u32> = if crate::auto_schedule::active_due(
        crate::usage_store::entry_at(entries@, slot_key_text(provider@, current)),
        now,
        models@,
    ) {
        seq![current]
    } else {
        Seq::empty()
    };
    let none_due = forall|k: int|
        0 <= k < candidates@.len() ==> !crate::usage_store::is_due(
            crate::usage_store::entry_at(
                entries@,
                slot_key_text(provider@, #[trigger] candidates@[k]),
            ),
            now,
        );
    if idle_hold || none_due {
        assert(plan@ == first);
        assert forall|n: u32| #[trigger] plan@.contains(n) implies n == current by {
            let k = choose|k: int| 0 <= k < plan@.len() && plan@[k] == n;
        }
        if !idle_hold && 0 <= i < candidates@.len() {
            assert(!crate::usage_store::is_due(
                crate::usage_store::entry_at(entries@, slot_key_text(provider@, candidates@[i])),
                now,
            ));
        }
    } else {
        let keys = crate::auto_schedule::keys_of(provider@, candidates@);
        let slot = choose|slot: u32|
            plan@ == first.push(slot) && candidates@.contains(slot)
                && crate::usage_store::is_first_due(
                keys,
                entries@,
                now,
                #[trigger] slot_key_text(provider@, slot),
            );
        assert(plan@ == first.push(slot) && candidates@.contains(slot));
        assert(plan@.last() == slot);
        assert forall|n: u32| #[trigger] plan@.contains(n) implies n == current
            || candidates@.contains(n) by {
            let k = choose|k: int| 0 <= k < plan@.len() && plan@[k] == n;
            if k < first.len() {
                assert(first[k] == n);
            }
        }
        if 0 <= i < candidates@.len() {
            let k = slot_key_text(provider@, candidates@[i]);
            assert(keys[i] == k);
            if is_open(entries@, k, now) {
                assert(crate::usage_store::is_due(
                    crate::usage_store::entry_at(entries@, keys[i]),
                    now,
                ));
                assert(!crate::usage_store::polled_before(
                    crate::usage_store::measured_at(
                        crate::usage_store::entry_at(entries@, keys[i]),
                    ),
                    keys[i],
                    crate::usage_store::measured_at(
                        crate::usage_store::entry_at(entries@, slot_key_text(provider@, slot)),
                    ),
                    slot_key_text(provider@, slot),
                ));
            }
        }
    }
}

/// A plan is measured as it stands: those slots alone, and an empty one not at all.
pub proof fn law_a_plan_is_measured_as_it_stands(plan: Vec<u32>, r: Option<CollectOpts>)
    requires
        call_ensures(plan_opts, (plan,), r),
    ensures
        r is Some <==> plan@.len() > 0,
        r is Some ==> r->0.only is Some && r->0.only->0@ == plan@ && r->0.force_slots@.len() == 0,
{
}

/// The headroom that a picture shows of a slot, if any.
pub open spec fn room_of(snap: Snapshot, n: u32) -> Option<i64> {
    if snap.readings@.contains_key(n) {
        snap.readings@[n].headroom
    } else {
        None
    }
}

/// Whether a slot rests: it has no room, and its plan lies ahead and is wider than ten
/// minutes.
pub open spec fn rests(
    provider: Seq<char>,
    entries: Map<Seq<char>, Entry>,
    snap: Snapshot,
    n: u32,
    now: i64,
) -> bool {
    let key = slot_key_text(provider, n);
    &&& entries.contains_key(key)
    &&& room_of(snap, n) is Some && room_of(snap, n)->0 <= 0
    &&& entries[key].next_poll_at is Some && now < entries[key].next_poll_at->0
    &&& entries[key].interval_s is Some && entries[key].interval_s->0 > 600_000_000
}

/// When every account is measured: where there is a candidate, and the active account is
/// within 15 points of the threshold, or cannot be read for another reason than an idle
/// login. Then the active account and every candidate are measured, but those that rest.
pub proof fn law_when_every_account_is_measured(
    provider: &str,
    current: u32,
    candidates: Vec<u32>,
    entries: Table<Entry>,
    snap: Snapshot,
    expired: bool,
    threshold: i64,
    now: i64,
    r: Option<Vec<u32>>,
    n: u32,
)
    requires
        entries.wf(),
        snap.wf(),
        call_ensures(
            escalation,
            (provider, current, &candidates, &entries, &snap, expired, threshold, now),
            r,
        ),
    ensures
        r is Some <==> candidates@.len() > 0 && (if room_of(snap, current) is Some {
            100_000_000 - room_of(snap, current)->0 >= threshold - 15_000_000
        } else {
            !expired
        }),
        r is Some ==> (r->0@.contains(n) <==> (n == current || candidates@.contains(n)) && !rests(
            provider@,
            entries@,
            snap,
            n,
            now,
        )),
{
    if r is Some {
        let all = seq![current] + candidates@;
        lemma_awake(all, provider@, entries@, snap, now, n);
        if n == current {
            assert(all[0] == n);
        }
        if candidates@.contains(n) {
            let k = choose|k: int| 0 <= k < candidates@.len() && candidates@[k] == n;
            assert(all[k + 1] == n);
        }
        if all.contains(n) && n != current {
            let k = choose|k: int| 0 <= k < all.len() && all[k] == n;
            assert(candidates@[k - 1] == n);
        }
    }
}

proof fn lemma_awake(
    slots: Seq<u32>,
    provider: Seq<char>,
    entries: Map<Seq<char>, Entry>,
    snap: Snapshot,
    now: i64,
    n: u32,
)
    ensures
        crate::auto_schedule::awake(slots, provider, entries, snap.readings@, now).contains(n)
            <==> slots.contains(n) && !rests(provider, entries, snap, n, now),
    decreases slots.len(),
{
    if slots.len() > 0 {
        let short = slots.drop_last();
        let rest = crate::auto_schedule::awake(short, provider, entries, snap.readings@, now);
        let out = crate::auto_schedule::awake(slots, provider, entries, snap.readings@, now);
        lemma_awake(short, provider, entries, snap, now, n);
        if rest.contains(n) {
            let k = choose|k: int| 0 <= k < rest.len() && rest[k] == n;
            assert(out[k] == n);
        }
        if short.contains(n) {
            let k = choose|k: int| 0 <= k < short.len() && short[k] == n;
            assert(slots[k] == n);
        }
        if slots.contains(n) && !short.contains(n) {
            let k = choose|k: int| 0 <= k < slots.len() && slots[k] == n;
            if k < short.len() {
                assert(short[k] == n);
            }
            assert(slots.last() == n);
            if !rests(provider, entries, snap, n, now) {
                assert(out[rest.len() as int] == n);
            }
        }
        if out.contains(n) && !rest.contains(n) {
            let k = choose|k: int| 0 <= k < out.len() && out[k] == n;
            if k < rest.len() {
                assert(rest[k] == n);
            }
            assert(slots[slots.len() - 1] == n);
        }
    }
}

/// What a tick knows of an account: nothing where it carries a mark, or where its
/// measurement is older than five minutes and not trusted on purpose; else the windows that
/// were measured. The headroom is what the fullest window that counts leaves. A measurement
/// is fresh for three minutes.
pub proof fn law_what_a_tick_knows_of_an_account(
    provider: &str,
    accounts: Vec<AccountView>,
    entries: Table<Entry>,
    models: Vec<String>,
    now: i64,
    r: Snapshot,
    i: int,
)
    requires
        entries.wf(),
        call_ensures(snapshot, (provider, &accounts, &entries, &models, now), r),
        0 <= i < accounts@.len(),
        forall|a: int, b: int|
            0 <= a < b < accounts@.len() ==> (#[trigger] accounts@[a]).slot != (
            #[trigger] accounts@[b]).slot,
    ensures
        r.readings@.contains_key(accounts@[i].slot),
        ({
            let got = r.readings@[accounts@[i].slot];
            let key = slot_key_text(provider@, accounts@[i].slot);
            let e = entries@[key];
            let marked = !(accounts@[i].usage_status is Okay || accounts@[i].usage_status is Stale);
            let known = !marked && entries@.contains_key(key) && e.last_good is Some
                && e.age_s is Some && (e.age_s->0 <= 300_000_000 || e.trust_extended);
            &&& known ==> got.windows@ == e.last_good->0@
            &&& !known ==> got.windows@.len() == 0 && got.headroom is None
            &&& got.fresh <==> entries@.contains_key(key) && e.fetched_at is Some && now
                - e.fetched_at->0 <= 180_000_000
            &&& got.headroom is None <==> gating(got.windows@, models@).len() == 0
            &&& forall|w: Window| #[trigger]
                gating(got.windows@, models@).contains(w) && 0 <= w.pct <= 100_000_000
                    ==> got.headroom->0 <= 100_000_000 - w.pct
            &&& got.headroom is Some ==> exists|w: Window| #[trigger]
                gating(got.windows@, models@).contains(w) && (0 <= w.pct <= 100_000_000
                    ==> got.headroom->0 == 100_000_000 - w.pct)
        }),
        forall|n: u32| #[trigger]
            r.readings@.contains_key(n) ==> exists|k: int|
                0 <= k < accounts@.len() && (#[trigger] accounts@[k]).slot == n,
{
    let a = accounts@[i];
    assert(crate::auto_schedule::last_on_slot(accounts@, i));
    assert(crate::auto_schedule::has_account(accounts@, a.slot));
    let got = r.readings@[a.slot];
    let list = gating(got.windows@, models@);
    crate::gating::law_peak_is_the_maximum(list);
    if !(got.windows@.len() > 0) {
        assert(got.windows@ =~= Seq::empty());
        assert(list.len() == 0) by {
            if list.len() > 0 {
                assert(list.contains(list[0]));
                crate::measure_laws::law_which_windows_count(got.windows@, models@, list[0]);
            }
        }
    }
    assert forall|w: Window| #[trigger] list.contains(w) && 0 <= w.pct <= 100_000_000 implies
        got.headroom->0 <= 100_000_000 - w.pct by {
        let k = choose|k: int| 0 <= k < list.len() && list[k] == w;
        assert(list[k].pct <= crate::gating::peak(list)->0);
    }
    if got.headroom is Some {
        let k = choose|k: int|
            0 <= k < list.len() && #[trigger] list[k].pct == crate::gating::peak(list)->0;
        assert(list.contains(list[k]));
    }
}

/// What an error of an attempt means: a dead token, a failure that another target may
/// escape, or a target that cannot be made live. Anything else is a fault, which ends the
/// tick.
pub proof fn law_what_an_error_means(code: ErrorCode, message: String, r: Tried)
    requires
        call_ensures(tried_of, (code, message), r),
    ensures
        r is TokenDead <==> code is TokenDead,
        r is Transient <==> code is RefreshDenied || code is Http,
        r is Unsupported <==> code is Unsupported,
        r is Fault <==> !(code is TokenDead || code is RefreshDenied || code is Http
            || code is Unsupported),
        r matches Tried::Unsupported(m) ==> m@ == message@,
{
}

/// The targets are tried in turn. Only a move to consume first looks at how fresh the
/// measurement of its target is: it is measured again once, and then given up. After the
/// last target it is said why none took it.
pub proof fn law_targets_are_tried_in_turn(a: Attempt, snap: Snapshot, r: Move)
    requires
        snap.wf(),
        call_ensures(Attempt::next, (&a, &snap), r),
    ensures
        a.at < a.ordered@.len() ==> ({
            let n = a.ordered@[a.at as int];
            let fresh = snap.readings@.contains_key(n) && snap.readings@[n].fresh;
            &&& !(a.trigger is ConsumeFirst) || fresh ==> r == Move::Switch(n)
            &&& a.trigger is ConsumeFirst && !fresh && !a.remeasured ==> r == Move::Remeasure(n)
            &&& a.trigger is ConsumeFirst && !fresh && a.remeasured ==> r == Move::Stale(n)
        }),
        a.at >= a.ordered@.len() && a.transient ==> r is Network,
        a.at >= a.ordered@.len() && !a.transient && a.unsupported is Some ==> r is Unsupported,
        a.at >= a.ordered@.len() && !a.transient && a.unsupported is None ==> r is NoViableTarget,
{
}

/// A switch that landed ends the tick, and so does a fault; any other failure goes on to the
/// next target, and remembers why.
pub proof fn law_a_failed_target_is_passed_over(outcome: Tried)
    ensures
        forall|a: &mut Attempt, r: Option<TickOutcome>|
            a.at < a.ordered.len() && #[trigger] call_ensures(Attempt::tried, (a, outcome), r) ==> {
                &&& outcome is Switched ==> r is Some && r->0 is Switched
                &&& outcome is AlreadyActive ==> r is Some && r->0 is NoAction
                &&& outcome is Fault ==> r is Some && r->0 is Error
                &&& outcome is TokenDead || outcome is Transient || outcome is Unsupported
                    ==> r is None && final(a).at == a.at + 1 && final(a).ordered == a.ordered
                &&& outcome is Transient ==> final(a).transient
                &&& outcome is Unsupported ==> final(a).unsupported is Some
                &&& outcome is TokenDead ==> final(a).transient == a.transient
                    && final(a).unsupported == a.unsupported
            },
{
}

/// How a tick ends that found no target: a network that failed is an error, a stale pick is
/// no action, anything else is blocked.
pub proof fn law_how_a_tick_ends(
    next: Move,
    refused: Option<String>,
    failed: bool,
    r: Option<(Event, TickOutcome)>,
)
    requires
        call_ensures(ended, (next, &refused, failed), r),
    ensures
        next is Switch || next is Remeasure ==> r is None,
        next is Stale ==> r is Some && r.unwrap().1 is NoAction && r.unwrap().0 is NoSwitch,
        next is Network ==> r is Some && r.unwrap().1 is Error && r.unwrap().0 is Error,
        next is Unsupported || next is NoViableTarget ==> r is Some && r.unwrap().1 is Blocked
            && r.unwrap().0 is NoSwitch,
{
}

/// A switch that landed starts the cooldown, and remembers where it came from, where to, and
/// how the account that it left stood then. One from a login of no slot remembers none.
pub proof fn law_a_switch_is_remembered(
    target: u32,
    from: Option<&SlotRef>,
    trigger: Trigger,
    left: (Option<i64>, Option<i64>),
    cooldown: i64,
    now: i64,
)
    requires
        0 <= now <= 0x1000_0000_0000_0000,
        0 <= cooldown <= 0x1000_0000_0000_0000,
    ensures
        forall|s: &mut AutoState, r: ()|
            s.wf() && #[trigger] call_ensures(
                AutoState::record_switch,
                (s, target, from, trigger, left, cooldown, now),
                r,
            ) ==> {
                &&& final(s).cooldown_until is Some && final(s).cooldown_until->0 - now == cooldown
                &&& final(s).quarantine == s.quarantine
                &&& from is Some && from->0.slot is Some ==> final(s).left_at_limit is Some && ({
                    let d = final(s).left_at_limit->0;
                    d.from == from->0.slot->0 && d.to == target && d.headroom == left.0
                        && d.recovery_at == left.1
                })
                &&& from is None || from->0.slot is None ==> final(s).left_at_limit is None
            },
{
}

/// A slot that is taken out of the rotation is quarantined under its own number with the
/// fingerprint of the login that failed, and no other slot is touched.
pub proof fn law_a_failing_slot_is_quarantined(
    slot: u32,
    reason: String,
    fingerprint: Option<String>,
    now: i64,
    k: Seq<char>,
)
    ensures
        forall|s: &mut AutoState, r: ()|
            s.wf() && #[trigger] call_ensures(
                AutoState::quarantine,
                (s, slot, reason, fingerprint, now),
                r,
            ) ==> {
                &&& final(s).quarantine@.contains_key(decimal(slot as nat))
                &&& final(s).quarantine@[decimal(slot as nat)].fingerprint == fingerprint
                &&& final(s).quarantine@[decimal(slot as nat)].reason == reason
                &&& k != decimal(slot as nat) ==> (final(s).quarantine@.contains_key(k)
                    <==> s.quarantine@.contains_key(k))
                &&& k != decimal(slot as nat) && s.quarantine@.contains_key(k)
                    ==> final(s).quarantine@[k] == s.quarantine@[k]
                &&& final(s).cooldown_until == s.cooldown_until
            },
{
}

/// A slot is let back exactly where the login that is stored for it now is another than the
/// one that failed.
pub proof fn law_a_new_login_lifts_a_quarantine(
    state: AutoState,
    stored: Vec<Option<String>>,
    r: Vec<u32>,
    n: u32,
)
    requires
        stored@.len() == state.quarantine.items@.len(),
        call_ensures(AutoState::replaced, (&state, &stored), r),
    ensures
        r@.contains(n) <==> exists|i: int|
            0 <= i < stored@.len() && number32((#[trigger] state.quarantine.items@[i]).0@) == Some(n)
                && opt_text(stored@[i]) != opt_text(state.quarantine.items@[i].1.fingerprint),
{
    lemma_replaced(state.quarantine.items@, stored@, n);
}

proof fn lemma_replaced(items: Seq<(String, Quarantine)>, stored: Seq<Option<String>>, n: u32)
    ensures
        crate::auto_tick::replaced_in(items, stored).contains(n) <==> exists|i: int|
            0 <= i < items.len() && number32((#[trigger] items[i]).0@) == Some(n) && opt_text(
                stored[i],
            ) != opt_text(items[i].1.fingerprint),
    decreases items.len(),
{
    if items.len() > 0 {
        let short = items.drop_last();
        let rest = crate::auto_tick::replaced_in(short, stored);
        let out = crate::auto_tick::replaced_in(items, stored);
        lemma_replaced(short, stored, n);
        assert forall|i: int| 0 <= i < short.len() implies #[trigger] short[i] == items[i] by {}
        if rest.contains(n) {
            let k = choose|k: int| 0 <= k < rest.len() && rest[k] == n;
            assert(out[k] == n);
            let i = choose|i: int|
                0 <= i < short.len() && number32((#[trigger] short[i]).0@) == Some(n) && opt_text(
                    stored[i],
                ) != opt_text(short[i].1.fingerprint);
            assert(number32(items[i].0@) == Some(n));
        } else {
            if out.contains(n) {
                let k = choose|k: int| 0 <= k < out.len() && out[k] == n;
                if k < rest.len() {
                    assert(rest[k] == n);
                }
                assert(number32(items[items.len() - 1].0@) == Some(n));
            }
            if exists|i: int|
                0 <= i < items.len() && number32((#[trigger] items[i]).0@) == Some(n) && opt_text(
                    stored[i],
                ) != opt_text(items[i].1.fingerprint) {
                let i = choose|i: int|
                    0 <= i < items.len() && number32((#[trigger] items[i]).0@) == Some(n)
                        && opt_text(stored[i]) != opt_text(items[i].1.fingerprint);
                if i < short.len() {
                    assert(number32(short[i].0@) == Some(n));
                }
                assert(out[rest.len() as int] == n);
            }
        }
    }
}

/// Without an active account nothing is done, and what is said is why it is not known.
/// While switching is off nothing is done either, nor on a managed key, unless those are
/// allowed.
pub proof fn law_nothing_is_done_without_leave(t: TickInput)
    requires
        t.wf(),
    ensures
        forall|e: &mut AutoEngine, d: Decision|
            e.unhealthy_ticks < u32::MAX && #[trigger] call_ensures(AutoEngine::decide, (e, &t), d)
                ==> {
                &&& t.view.active_slot is None || !t.settings.enabled ==> d.step is Hold
                    && d.ordered@.len() == 0
                &&& t.view.active_slot is None && t.view.active_unreadable is None
                    && t.has_live_login ==> d.step == Step::Hold(
                    Reason::UnmanagedActive,
                    TickOutcome::NoAction,
                )
                &&& t.view.active_slot is None && t.view.active_unreadable is None
                    && !t.has_live_login ==> d.step == Step::Hold(
                    Reason::NoActive,
                    TickOutcome::NoAction,
                )
                &&& t.view.active_slot is Some && !t.settings.enabled ==> d.step == Step::Hold(
                    Reason::Disabled,
                    TickOutcome::NoAction,
                )
                &&& d.step is Try && t.state.cooldown_until is Some && t.now
                    < t.state.cooldown_until->0 ==> d.step == Step::Try(Trigger::AtLimit) || d.step
                    == Step::Try(Trigger::Failover)
            },
{
}

/// How long a loop waits that is not blocked: an idle-hold for five minutes at the least,
/// else the interval, moved by a tenth of it at the most, and the more the higher the roll.
pub proof fn law_a_loop_waits_about_the_interval(
    e: AutoEngine,
    outcome: TickOutcome,
    interval: i64,
    now: i64,
    roll: u32,
    r: i64,
    higher: u32,
    s: i64,
)
    requires
        0 <= interval <= 86_400_000_000,
        roll <= higher <= 1_000_000,
        !(outcome is Blocked),
        call_ensures(AutoEngine::schedule, (&e, outcome, interval, now, roll), r),
        call_ensures(AutoEngine::schedule, (&e, outcome, interval, now, higher), s),
    ensures
        outcome is NoAction && e.idle_hold_slow ==> r == (if interval < 300_000_000 {
            300_000_000
        } else {
            interval as int
        }),
        !(outcome is NoAction && e.idle_hold_slow) ==> interval * 9 / 10 <= r <= interval * 11 / 10,
        r <= s,
{
    let a = interval * (9_000_000 + 2 * roll);
    let b = interval * (9_000_000 + 2 * higher);
    assert(interval * 9_000_000 <= a <= b <= interval * 11_000_000) by (nonlinear_arith)
        requires
            interval >= 0,
            roll <= higher <= 1_000_000,
            a == interval * (9_000_000 + 2 * roll),
            b == interval * (9_000_000 + 2 * higher),
    ;
}

/// Whether an account shows which models there are: it is in the rotation, has a login that
/// can be used, and is no managed key.
pub open spec fn tells_models(a: AccountView, quarantined: Seq<u32>) -> bool {
    !quarantined.contains(a.slot) && !a.disabled && !(a.usage_status is NoCredentials
        || a.usage_status is ReloginRequired || a.usage_status is Unsupported
        || a.usage_status is ApiKey)
}

/// Whether a slot shows a window of a name, without regard to case.
pub open spec fn shows_model(snap: Snapshot, n: u32, l: Seq<char>) -> bool {
    snap.readings@.contains_key(n) && exists|k: int|
        0 <= k < snap.readings@[n].windows@.len() && ((
        #[trigger] snap.readings@[n].windows@[k]).name is Some && lowercase(
            snap.readings@[n].windows@[k].name->0@,
        ) == l)
}

/// A model is reported as misspelt only where it is configured, is not the word for all, and
/// no account that counts shows a window of its name; and nothing is reported before each of
/// those accounts has been measured.
pub proof fn law_a_misspelt_model_is_reported(
    accounts: Vec<AccountView>,
    snap: Snapshot,
    quarantined: Vec<u32>,
    models: Vec<String>,
    r: ModelCheck,
    m: String,
    i: int,
)
    requires
        snap.wf(),
        call_ensures(check_model_names, (&accounts, &snap, &quarantined, &models), r),
        0 <= i < accounts@.len(),
        tells_models(accounts@[i], quarantined@),
    ensures
        r.missing@.contains(m) ==> models@.contains(m) && lowercase(m@) != "all"@
            && !shows_model(snap, accounts@[i].slot, lowercase(m@)),
        !(snap.readings@.contains_key(accounts@[i].slot)
            && snap.readings@[accounts@[i].slot].windows@.len() > 0) ==> r.missing@.len() == 0,
{
    let names = crate::auto_report::named_models(models@);
    let slots = crate::auto_report::watched(accounts@, quarantined@);
    let n = accounts@[i].slot;
    lemma_watched(accounts@, quarantined@, i);
    let at = choose|at: int| 0 <= at < slots.len() && slots[at] == n;
    assert(slots[at] == n);
    if r.missing@.contains(m) {
        assert(r.missing@.len() > 0);
        lemma_unseen(names, slots, snap.readings@, m);
        lemma_named_models(models@, m);
        if shows_model(snap, n, lowercase(m@)) {
            let w = snap.readings@[n].windows@;
            let k = choose|k: int|
                0 <= k < w.len() && ((#[trigger] w[k]).name is Some && lowercase(w[k].name->0@)
                    == lowercase(m@));
            assert(w[k].name is Some);
            assert(crate::auto_report::has_model(w, lowercase(m@)));
            assert(crate::auto_rank::windows_in(snap.readings@, slots[at]) == w);
        }
    }
    if names.len() > 0 && crate::auto_report::all_observed(slots, snap.readings@) {
        assert(crate::auto_rank::windows_in(snap.readings@, slots[at]).len() > 0);
    }
}

proof fn lemma_watched(accounts: Seq<AccountView>, quarantined: Seq<u32>, i: int)
    requires
        0 <= i < accounts.len(),
        tells_models(accounts[i], quarantined),
    ensures
        crate::auto_report::watched(accounts, quarantined).contains(accounts[i].slot),
    decreases accounts.len(),
{
    let short = accounts.drop_last();
    let rest = crate::auto_report::watched(short, quarantined);
    let out = crate::auto_report::watched(accounts, quarantined);
    if i < short.len() {
        assert(short[i] == accounts[i]);
        lemma_watched(short, quarantined, i);
        let k = choose|k: int| 0 <= k < rest.len() && rest[k] == accounts[i].slot;
        assert(out[k] == accounts[i].slot);
    } else {
        assert(out[rest.len() as int] == accounts[i].slot);
    }
}

proof fn lemma_unseen(names: Seq<String>, slots: Seq<u32>, readings: Map<u32, Reading>, m: String)
    requires
        crate::auto_report::unseen(names, slots, readings).contains(m),
    ensures
        names.contains(m),
        !crate::auto_report::model_seen(slots, readings, lowercase(m@)),
    decreases names.len(),
{
    let short = names.drop_last();
    let rest = crate::auto_report::unseen(short, slots, readings);
    let out = crate::auto_report::unseen(names, slots, readings);
    let k = choose|k: int| 0 <= k < out.len() && out[k] == m;
    if names.len() > 0 {
        if k < rest.len() {
            assert(rest[k] == m);
            lemma_unseen(short, slots, readings, m);
            let j = choose|j: int| 0 <= j < short.len() && short[j] == m;
            assert(names[j] == m);
        } else {
            assert(names[names.len() - 1] == m);
        }
    }
}

proof fn lemma_named_models(models: Seq<String>, m: String)
    requires
        crate::auto_report::named_models(models).contains(m),
    ensures
        models.contains(m),
        lowercase(m@) != "all"@,
    decreases models.len(),
{
    let short = models.drop_last();
    let rest = crate::auto_report::named_models(short);
    let out = crate::auto_report::named_models(models);
    let k = choose|k: int| 0 <= k < out.len() && out[k] == m;
    if models.len() > 0 {
        if k < rest.len() {
            assert(rest[k] == m);
            lemma_named_models(short, m);
            let j = choose|j: int| 0 <= j < short.len() && short[j] == m;
            assert(models[j] == m);
        } else {
            assert(models[models.len() - 1] == m);
        }
    }
}

} // verus!
