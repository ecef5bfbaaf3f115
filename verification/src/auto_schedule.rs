//! Which accounts a tick has measured, and the picture that comes of it.

use vstd::prelude::*;
use vstd::string::*;

use crate::auto::{account_at, account_of, candidates_of, census};
use crate::auto_rank::{headroom_in, Reading, Snapshot};
use crate::collect::CollectOpts;
use crate::contract::{copy_windows, AccountView, ProviderView, UsageStatus, Window};
use crate::gating::{bound_pct, highest};
use crate::poll_policy::{
    ACTIVE_MAX_INTERVAL_S, ESCALATION_MARGIN_PCT, EXHAUSTED_INTERVAL_S, MIN_INTERVAL_S,
};
use crate::settings::Settings;
use crate::slot_map::SlotMap;
use crate::slots::{slot_key, slot_key_text};
use crate::table::Table;
use crate::text::{copy_opt, same, texts};
use crate::units::{clip, clipped, FULL_PCT};
use crate::usage_store::{
    due_candidate, entry_at, is_due, is_first_due, is_fresh, oversleeps, plan_oversleeps_interval,
    Entry,
};

verus! {

/// Whether the active account is measured in this tick: it never was, its plan is
/// due or obsolete, it has none and is past the floor, or it still carries the
/// slower plan of a candidate and is not exhausted.
pub open spec fn active_due(entry: Option<Entry>, now: i64, models: Seq<String>) -> bool {
    match entry {
        None => true,
        Some(e) => match e.age_s {
            None => true,
            Some(age) => {
                let pct = match e.last_good {
                    Some(w) => bound_pct(w@, models),
                    None => bound_pct(Seq::empty(), models),
                };
                ||| age >= ACTIVE_MAX_INTERVAL_S && (e.interval_s matches Some(i) && i
                    > ACTIVE_MAX_INTERVAL_S) && !(pct matches Some(p) && p >= FULL_PCT)
                ||| oversleeps(e.next_poll_at, e.interval_s, now)
                ||| match e.next_poll_at {
                    Some(next) => now >= next,
                    None => age >= MIN_INTERVAL_S,
                }
            },
        },
    }
}

/// Whether the active account is measured in this tick.
pub fn active_is_due(entry: Option<&Entry>, now: i64, models: &Vec<String>) -> (r: bool)
    ensures
        r == active_due(
            match entry {
                Some(e) => Some(*e),
                None => None,
            },
            now,
            models@,
        ),
{
    let e: &Entry = match entry {
        Some(e) => e,
        None => {
            return true;
        },
    };
    let age: i64 = match e.age_s {
        Some(age) => age,
        None => {
            return true;
        },
    };
    let slow: bool = match e.interval_s {
        Some(i) => i > ACTIVE_MAX_INTERVAL_S,
        None => false,
    };
    let pct: Option<i64> = match &e.last_good {
        Some(w) => highest(w, models),
        None => {
            let none: Vec<Window> = Vec::new();
            assert(none@ =~= Seq::<Window>::empty());
            highest(&none, models)
        },
    };
    let full: bool = match pct {
        Some(p) => p >= FULL_PCT,
        None => false,
    };
    if age >= ACTIVE_MAX_INTERVAL_S && slow && !full {
        return true;
    }
    if plan_oversleeps_interval(e, now) {
        return true;
    }
    match e.next_poll_at {
        Some(next) => now >= next,
        None => age >= MIN_INTERVAL_S,
    }
}

/// Whether a spent account rests on a plan wider than the exhausted cadence.
pub open spec fn parked(entry: Option<Entry>, headroom: Option<i64>, now: i64) -> bool {
    entry matches Some(e) && (e.next_poll_at matches Some(next) && now < next) && (
    e.interval_s matches Some(i) && i > EXHAUSTED_INTERVAL_S) && (headroom matches Some(h) && h
        <= 0)
}

/// Whether a spent account rests on a plan wider than the exhausted cadence: it is
/// left alone even when all others are measured.
pub fn parked_exhausted(entry: Option<&Entry>, headroom: Option<i64>, now: i64) -> (r: bool)
    ensures
        r == parked(
            match entry {
                Some(e) => Some(*e),
                None => None,
            },
            headroom,
            now,
        ),
{
    match entry {
        Some(e) => {
            let planned: bool = match e.next_poll_at {
                Some(next) => now < next,
                None => false,
            };
            let wide: bool = match e.interval_s {
                Some(i) => i > EXHAUSTED_INTERVAL_S,
                None => false,
            };
            let spent: bool = match headroom {
                Some(h) => h <= 0,
                None => false,
            };
            planned && wide && spent
        },
        None => false,
    }
}

/// The keys of some slots.
pub open spec fn keys_of(provider: Seq<char>, slots: Seq<u32>) -> Seq<Seq<char>> {
    slots.map_values(|n: u32| slot_key_text(provider, n))
}

fn make_keys(provider: &str, slots: &Vec<u32>) -> (r: Vec<String>)
    ensures
        texts(r@) == keys_of(provider@, slots@),
{
    let ghost goal = keys_of(provider@, slots@);
    let mut r: Vec<String> = Vec::new();
    let mut i: usize = 0;
    while i < slots.len()
        invariant
            i <= slots.len(),
            goal == keys_of(provider@, slots@),
            texts(r@) =~= goal.take(i as int),
        decreases slots.len() - i,
    {
        broadcast use crate::text::lemma_texts_push;

        r.push(slot_key(provider, slots[i]));
        assert(goal[i as int] == slot_key_text(provider@, slots@[i as int]));
        i += 1;
    }
    assert(goal.take(goal.len() as int) =~= goal);
    r
}

/// The first position of a key that is among them.
fn find_key(keys: &Vec<String>, key: &str) -> (i: usize)
    requires
        texts(keys@).contains(key@),
    ensures
        i < keys@.len(),
        texts(keys@)[i as int] == key@,
{
    let ghost all = texts(keys@);
    let mut i: usize = 0;
    while i < keys.len()
        invariant
            i <= keys.len(),
            all == texts(keys@),
            all.contains(key@),
            forall|j: int| 0 <= j < i ==> all[j] != key@,
        decreases keys.len() - i,
    {
        assert(all[i as int] == keys@[i as int]@);
        if same(keys[i].as_str(), key) {
            return i;
        }
        i += 1;
    }
    proof {
        let j = choose|j: int| 0 <= j < all.len() && all[j] == key@;
        assert(all[j] != key@);
    }
    0
}

/// Whether a plan is the baseline of a tick: the active account when it is due,
/// and, outside an idle-hold, the one candidate that is due first.
pub open spec fn is_baseline(
    plan: Seq<u32>,
    provider: Seq<char>,
    current: u32,
    candidates: Seq<u32>,
    entries: Map<Seq<char>, Entry>,
    idle_hold: bool,
    models: Seq<String>,
    now: i64,
) -> bool {
    let first: Seq<u32> = if active_due(
        entry_at(entries, slot_key_text(provider, current)),
        now,
        models,
    ) {
        seq![current]
    } else {
        Seq::empty()
    };
    if idle_hold || (forall|i: int|
        0 <= i < candidates.len() ==> !is_due(
            entry_at(entries, slot_key_text(provider, #[trigger] candidates[i])),
            now,
        )) {
        plan == first
    } else {
        exists|slot: u32|
            plan == first.push(slot) && candidates.contains(slot) && is_first_due(
                keys_of(provider, candidates),
                entries,
                now,
                #[trigger] slot_key_text(provider, slot),
            )
    }
}

/// The baseline of a tick: the active account when it is due, and the one stalest
/// due candidate. A tick thus costs at most two requests, however many accounts
/// there are. No candidate is measured during an idle-hold.
pub fn nominate(
    provider: &str,
    current: u32,
    candidates: &Vec<u32>,
    entries: &Table<Entry>,
    idle_hold: bool,
    models: &Vec<String>,
    now: i64,
) -> (plan: Vec<u32>)
    requires
        entries.wf(),
    ensures
        is_baseline(
            plan@,
            provider@,
            current,
            candidates@,
            entries@,
            idle_hold,
            models@,
            now,
        ),
        plan@.len() <= 2,
{
    let mut plan: Vec<u32> = Vec::new();
    if active_is_due(entries.get(slot_key(provider, current).as_str()), now, models) {
        plan.push(current);
    }
    let ghost first = plan@;
    assert(first =~= if active_due(
        entry_at(entries@, slot_key_text(provider@, current)),
        now,
        models@,
    ) {
        seq![current]
    } else {
        Seq::empty()
    });
    if idle_hold {
        return plan;
    }
    let keys: Vec<String> = make_keys(provider, candidates);
    let ghost all = keys_of(provider@, candidates@);
    match due_candidate(&keys, entries, now) {
        Some(pick) => {
            let i: usize = find_key(&keys, pick.as_str());
            assert(all.len() == keys@.len());
            assert(all.len() == candidates@.len());
            let slot: u32 = candidates[i];
            plan.push(slot);
            proof {
                assert(slot_key_text(provider@, slot) == all[i as int]);
                assert(candidates@.contains(slot));
                assert(is_due(
                    entry_at(entries@, slot_key_text(provider@, candidates@[i as int])),
                    now,
                ));
            }
            plan
        },
        None => {
            assert forall|i: int| 0 <= i < candidates@.len() implies !is_due(
                entry_at(entries@, slot_key_text(provider@, #[trigger] candidates@[i])),
                now,
            ) by {
                assert(all[i] == slot_key_text(provider@, candidates@[i]));
                assert(texts(keys@)[i] == keys@[i]@);
            }
            plan
        },
    }
}

/// The first phase of a tick's measuring.
#[derive(Debug)]
pub struct Baseline {
    /// The active slot.
    pub current: u32,
    /// The candidates with usage to compare.
    pub candidates: Vec<u32>,
    /// The slots to measure.
    pub plan: Vec<u32>,
}

/// The first phase of a tick's measuring: `None` without an active account, since there
/// is then nothing to plan around.
pub fn baseline(
    provider: &str,
    view: &ProviderView,
    entries: &Table<Entry>,
    quarantined: &Vec<u32>,
    settings: &Settings,
    idle_hold: bool,
    now: i64,
) -> (r: Option<Baseline>)
    requires
        entries.wf(),
    ensures
        r is Some == view.active_slot is Some,
        r matches Some(b) ==> Some(b.current) == view.active_slot && b.candidates@ == census(
            view.accounts@,
            b.current,
            quarantined@,
            settings.include_api_key_accounts,
            false,
        ) && is_baseline(
            b.plan@,
            provider@,
            b.current,
            b.candidates@,
            entries@,
            idle_hold,
            settings.models@,
            now,
        ),
{
    let current: u32 = match view.active_slot {
        Some(n) => n,
        None => {
            return None;
        },
    };
    let candidates: Vec<u32> = candidates_of(
        &view.accounts,
        current,
        quarantined,
        settings.include_api_key_accounts,
        false,
    );
    let plan: Vec<u32> = nominate(
        provider,
        current,
        &candidates,
        entries,
        idle_hold,
        &settings.models,
        now,
    );
    Some(Baseline { current, candidates, plan })
}

/// How a plan is measured: those slots that are due or stale, and nothing else. An empty
/// plan is no pass at all.
pub fn plan_opts(plan: Vec<u32>) -> (r: Option<CollectOpts>)
    ensures
        r is Some <==> plan@.len() > 0,
        r matches Some(o) ==> o.all_stale && o.force_slots@.len() == 0 && o.only == Some(plan),
{
    if plan.len() == 0 {
        return None;
    }
    Some(CollectOpts { force_slots: Vec::new(), all_stale: true, only: Some(plan) })
}

/// How the picture is served that a plan is made on: nothing is measured.
pub fn serve_opts() -> (r: CollectOpts)
    ensures
        !r.all_stale,
        r.force_slots@.len() == 0,
        r.only matches Some(slots) && slots@.len() == 0,
{
    CollectOpts { force_slots: Vec::new(), all_stale: false, only: Some(Vec::new()) }
}

/// How a pick is measured again: it alone, whatever its plan says.
pub fn remeasure_opts(slot: u32) -> (r: CollectOpts)
    ensures
        r.all_stale,
        r.force_slots@ == seq![slot],
        r.only matches Some(slots) && slots@ == seq![slot],
{
    let mut force_slots: Vec<u32> = Vec::new();
    force_slots.push(slot);
    let mut only: Vec<u32> = Vec::new();
    only.push(slot);
    assert(force_slots@ =~= seq![slot] && only@ =~= seq![slot]);
    CollectOpts { force_slots, all_stale: true, only: Some(only) }
}

/// Whether the whole fleet is measured again: there are candidates, and the active
/// account is close to the threshold, or unreadable for another reason than an
/// expired token.
pub open spec fn escalates(
    candidates: Seq<u32>,
    active_headroom: Option<i64>,
    expired: bool,
    threshold: i64,
) -> bool {
    candidates.len() > 0 && match active_headroom {
        None => !expired,
        Some(h) => FULL_PCT - h >= threshold - ESCALATION_MARGIN_PCT,
    }
}

/// The slots that are not parked.
pub open spec fn awake(
    slots: Seq<u32>,
    provider: Seq<char>,
    entries: Map<Seq<char>, Entry>,
    readings: Map<u32, Reading>,
    now: i64,
) -> Seq<u32>
    decreases slots.len(),
{
    if slots.len() == 0 {
        Seq::empty()
    } else {
        let rest = awake(slots.drop_last(), provider, entries, readings, now);
        let n = slots.last();
        if parked(
            entry_at(entries, slot_key_text(provider, n)),
            headroom_in(readings, n),
            now,
        ) {
            rest
        } else {
            rest.push(n)
        }
    }
}

/// The slots that are measured when a switch could be near: the active account and
/// every candidate, but those that are parked; `None` where none could.
pub fn escalation(
    provider: &str,
    current: u32,
    candidates: &Vec<u32>,
    entries: &Table<Entry>,
    snap: &Snapshot,
    expired: bool,
    threshold: i64,
    now: i64,
) -> (r: Option<Vec<u32>>)
    requires
        entries.wf(),
        snap.wf(),
    ensures
        r is Some == escalates(
            candidates@,
            headroom_in(snap.readings@, current),
            expired,
            threshold,
        ),
        r matches Some(plan) ==> plan@ == awake(
            seq![current] + candidates@,
            provider@,
            entries@,
            snap.readings@,
            now,
        ),
{
    if candidates.len() == 0 {
        return None;
    }
    let near: bool = match snap.headroom(current) {
        None => !expired,
        Some(h) => FULL_PCT as i128 - h as i128 >= threshold as i128
            - ESCALATION_MARGIN_PCT as i128,
    };
    if !near {
        return None;
    }
    let mut slots: Vec<u32> = Vec::new();
    slots.push(current);
    let mut k: usize = 0;
    while k < candidates.len()
        invariant
            k <= candidates.len(),
            slots@ =~= seq![current] + candidates@.take(k as int),
        decreases candidates.len() - k,
    {
        slots.push(candidates[k]);
        k += 1;
    }
    assert(candidates@.take(candidates@.len() as int) =~= candidates@);
    let mut plan: Vec<u32> = Vec::new();
    let mut i: usize = 0;
    assert(slots@.take(0) =~= Seq::empty());
    while i < slots.len()
        invariant
            i <= slots.len(),
            entries.wf(),
            snap.wf(),
            plan@ == awake(slots@.take(i as int), provider@, entries@, snap.readings@, now),
        decreases slots.len() - i,
    {
        assert(slots@.take(i + 1).drop_last() =~= slots@.take(i as int));
        let n: u32 = slots[i];
        if !parked_exhausted(entries.get(slot_key(provider, n).as_str()), snap.headroom(n), now) {
            plan.push(n);
        }
        i += 1;
    }
    assert(slots@.take(slots@.len() as int) =~= slots@);
    Some(plan)
}

/// Whether an account can have a measurement: it carries no mark.
pub open spec fn measurable(a: AccountView) -> bool {
    a.usage_status is Okay || a.usage_status is Stale
}

/// Whether a reading is what is known of an account: the windows that the usage
/// table still trusts, the headroom in them, why there is none, and whether it is
/// fresh.
pub open spec fn reads(r: Reading, a: AccountView, entry: Option<Entry>, models: Seq<String>, now: i64) -> bool {
    let w = if measurable(a) {
        match entry {
            Some(e) => match e.decided_on() {
                Some(w) => w,
                None => Seq::empty(),
            },
            None => Seq::empty(),
        }
    } else {
        Seq::empty()
    };
    &&& r.windows@ == w
    &&& r.headroom == (match bound_pct(w, models) {
        Some(p) => Some(clip(FULL_PCT - p)),
        None => None,
    })
    &&& r.fetch_error == (if r.headroom is None {
        match entry {
            Some(e) => e.last_error,
            None => None,
        }
    } else {
        None
    })
    &&& r.fresh == (entry matches Some(e) && is_fresh(e.fetched_at, now))
}

fn read_account(a: &AccountView, entry: Option<&Entry>, models: &Vec<String>, now: i64) -> (r:
    Reading)
    ensures
        reads(
            r,
            *a,
            match entry {
                Some(e) => Some(*e),
                None => None,
            },
            models@,
            now,
        ),
{
    let readable: bool = match a.usage_status {
        UsageStatus::Okay | UsageStatus::Stale => true,
        _ => false,
    };
    let windows: Vec<Window> = if readable {
        match entry {
            Some(e) => match e.decision_windows() {
                Some(w) => copy_windows(w),
                None => Vec::new(),
            },
            None => Vec::new(),
        }
    } else {
        Vec::new()
    };
    let headroom: Option<i64> = match highest(&windows, models) {
        Some(p) => Some(clipped(FULL_PCT as i128 - p as i128)),
        None => None,
    };
    let fetch_error: Option<String> = if headroom.is_none() {
        match entry {
            Some(e) => copy_opt(&e.last_error),
            None => None,
        }
    } else {
        None
    };
    let fresh: bool = match entry {
        Some(e) => e.fresh(now),
        None => false,
    };
    assert(windows@.len() == 0 ==> windows@ =~= Seq::<Window>::empty());
    Reading { headroom, windows, fetch_error, fresh }
}

/// Whether a slot is that of some account.
pub open spec fn has_account(accounts: Seq<AccountView>, slot: u32) -> bool {
    exists|i: int| 0 <= i < accounts.len() && (#[trigger] accounts[i]).slot == slot
}

/// Whether a slot is named for the last time at a position.
pub open spec fn last_on_slot(accounts: Seq<AccountView>, i: int) -> bool {
    forall|j: int| i < j < accounts.len() ==> (#[trigger] accounts[j]).slot != accounts[i].slot
}

/// Whether readings are the picture of some accounts: of each slot, and of no
/// other, what is known of the account that stands last on it.
pub open spec fn pictures(
    readings: Map<u32, Reading>,
    provider: Seq<char>,
    accounts: Seq<AccountView>,
    entries: Map<Seq<char>, Entry>,
    models: Seq<String>,
    now: i64,
) -> bool {
    &&& forall|n: u32| #[trigger] readings.contains_key(n) <==> has_account(accounts, n)
    &&& forall|i: int|
        0 <= i < accounts.len() && last_on_slot(accounts, i) ==> reads(
            readings[(#[trigger] accounts[i]).slot],
            accounts[i],
            entry_at(entries, slot_key_text(provider, accounts[i].slot)),
            models,
            now,
        )
}

proof fn lemma_picture_grows(
    readings: Map<u32, Reading>,
    provider: Seq<char>,
    accounts: Seq<AccountView>,
    entries: Map<Seq<char>, Entry>,
    models: Seq<String>,
    now: i64,
    a: AccountView,
    r: Reading,
)
    requires
        pictures(readings, provider, accounts, entries, models, now),
        reads(r, a, entry_at(entries, slot_key_text(provider, a.slot)), models, now),
    ensures
        pictures(readings.insert(a.slot, r), provider, accounts.push(a), entries, models, now),
{
    let grown = accounts.push(a);
    let out = readings.insert(a.slot, r);
    assert forall|n: u32| #[trigger] out.contains_key(n) <==> has_account(grown, n) by {
        if n == a.slot {
            assert(grown[accounts.len() as int].slot == n);
        } else {
            assert(out.contains_key(n) == readings.contains_key(n));
            if has_account(accounts, n) {
                let i = choose|i: int| 0 <= i < accounts.len() && (#[trigger] accounts[i]).slot == n;
                assert(grown[i].slot == n);
            }
            if has_account(grown, n) {
                let i = choose|i: int| 0 <= i < grown.len() && (#[trigger] grown[i]).slot == n;
                assert(accounts[i].slot == n);
            }
        }
    }
    assert forall|i: int| 0 <= i < grown.len() && last_on_slot(grown, i) implies reads(
        out[(#[trigger] grown[i]).slot],
        grown[i],
        entry_at(entries, slot_key_text(provider, grown[i].slot)),
        models,
        now,
    ) by {
        if i < accounts.len() {
            assert(grown[accounts.len() as int].slot != grown[i].slot);
            assert forall|j: int| i < j < accounts.len() implies (#[trigger] accounts[j]).slot
                != accounts[i].slot by {
                assert(grown[j].slot != grown[i].slot);
            }
            assert(grown[i] == accounts[i]);
        }
    }
}

/// The picture of every account that a tick decides on.
///
/// The headroom comes from the windows that the usage table still trusts, and is
/// unknown for an account that carries a mark.
pub fn snapshot(
    provider: &str,
    accounts: &Vec<AccountView>,
    entries: &Table<Entry>,
    models: &Vec<String>,
    now: i64,
) -> (r: Snapshot)
    requires
        entries.wf(),
    ensures
        r.wf(),
        pictures(r.readings@, provider@, accounts@, entries@, models@, now),
{
    let mut readings: SlotMap<Reading> = SlotMap::new();
    let mut i: usize = 0;
    assert(accounts@.take(0) =~= Seq::empty());
    while i < accounts.len()
        invariant
            i <= accounts.len(),
            entries.wf(),
            readings.wf(),
            pictures(
                readings@,
                provider@,
                accounts@.take(i as int),
                entries@,
                models@,
                now,
            ),
        decreases accounts.len() - i,
    {
        let a: &AccountView = &accounts[i];
        let r: Reading = read_account(
            a,
            entries.get(slot_key(provider, a.slot).as_str()),
            models,
            now,
        );
        proof {
            assert(accounts@.take(i + 1) =~= accounts@.take(i as int).push(*a));
            lemma_picture_grows(
                readings@,
                provider@,
                accounts@.take(i as int),
                entries@,
                models@,
                now,
                *a,
                r,
            );
        }
        readings.insert(a.slot, r);
        i += 1;
    }
    assert(accounts@.take(accounts@.len() as int) =~= accounts@);
    Snapshot { readings }
}

/// The second phase of a tick's measuring: every slot that counts, where the decision
/// could turn on it. An account whose token has expired is the exception: the tick holds
/// for an idle tool.
pub fn widened(
    provider: &str,
    b: &Baseline,
    view: &ProviderView,
    entries: &Table<Entry>,
    snap: &Snapshot,
    threshold: i64,
    now: i64,
) -> (r: Option<Vec<u32>>)
    requires
        entries.wf(),
        snap.wf(),
    ensures
        r is Some == escalates(
            b.candidates@,
            headroom_in(snap.readings@, b.current),
            account_at(view.accounts@, b.current) matches Some(a) && a.usage_status
                == UsageStatus::TokenExpired,
            threshold,
        ),
        r matches Some(plan) ==> plan@ == awake(
            seq![b.current] + b.candidates@,
            provider@,
            entries@,
            snap.readings@,
            now,
        ),
{
    let expired: bool = match account_of(&view.accounts, b.current) {
        Some(a) => a.usage_status == UsageStatus::TokenExpired,
        None => false,
    };
    escalation(provider, b.current, &b.candidates, entries, snap, expired, threshold, now)
}

} // verus!
