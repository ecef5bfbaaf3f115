//! What a collection pass reports: the accounts, the next candidate and the first
//! recovery.

use vstd::prelude::*;
use vstd::string::*;

use crate::collect::{entry_or_blank, SlotState};
use crate::contract::{
    copy_windows, AccountView, LastGood, NextRecovery, ProviderView, UsageStatus, Window,
};
use crate::gating::{bound_pct, gating};
use crate::poll_policy::{binding_pct, latest_full_reset, limiting_reset_ts};
use crate::slots::{slot_key, slot_key_text};
use crate::table::Table;
use crate::text::{copy_opt, opt_text};
use crate::timefmt::{format_or_empty, format_ts, rfc3339_text, stamp, whole_seconds};
use crate::units::{clip, clipped, gap};
use crate::usage_store::{backs_off, Entry, STALE_OK_S};

verus! {

/// What is known of an account's usage: its mark, or whether its measurement is
/// recent.
pub open spec fn status_of(st: SlotState, e: Entry) -> UsageStatus {
    match st.sentinel {
        Some(s) => s,
        None => if e.age_s matches Some(age) && age <= STALE_OK_S {
            UsageStatus::Okay
        } else {
            UsageStatus::Stale
        },
    }
}

/// Whether a view is what is reported of an account.
///
/// Only an account whose measurement is current has windows, with their instant and
/// age; of any other the measurement is reported as the last good one.
pub open spec fn is_view(v: AccountView, st: SlotState, e: Entry, now: i64) -> bool {
    let status = status_of(st, e);
    let current = status is Okay;
    &&& v.slot == st.slot
    &&& v.email == st.meta.email
    &&& v.organization_name == st.meta.organization_name
    &&& v.organization_uuid == st.meta.organization_uuid
    &&& v.plan == st.meta.plan
    &&& v.alias == st.meta.alias
    &&& v.icon == st.meta.icon
    &&& v.active == st.active
    &&& v.disabled == st.meta.disabled
    &&& v.preferred == st.meta.preferred
    &&& v.usage_status == status
    &&& opt_text(v.fetched_at) == (match (current, e.fetched_at) {
        (true, Some(at)) => rfc3339_text(whole_seconds(at)),
        _ => None,
    })
    &&& v.age_seconds == if current {
        e.age_s
    } else {
        None
    }
    &&& v.windows@ == (match (current, e.last_good) {
        (true, Some(w)) => w@,
        _ => Seq::empty(),
    })
    &&& match (current, e.fetched_at, e.last_good) {
        (false, Some(at), Some(w)) => v.last_good matches Some(g) && g.fetched_at@ == stamp(at)
            && g.age_seconds == clip(now - at) && g.windows@ == w@,
        _ => v.last_good is None,
    }
    &&& v.last_error == e.last_error
    &&& opt_text(v.backoff_until) == if backs_off(e.backoff_until, now) {
        rfc3339_text(whole_seconds(e.backoff_until->0))
    } else {
        None
    }
}

/// One account as it is reported.
pub fn account_view(st: &SlotState, e: &Entry, now: i64) -> (v: AccountView)
    ensures
        is_view(v, *st, *e, now),
{
    let recent: bool = match e.age_s {
        Some(age) => age <= STALE_OK_S,
        None => false,
    };
    let status: UsageStatus = match st.sentinel {
        Some(s) => s,
        None => if recent {
            UsageStatus::Okay
        } else {
            UsageStatus::Stale
        },
    };
    let current: bool = status == UsageStatus::Okay;
    let last_good: Option<LastGood> = if current {
        None
    } else {
        match (e.fetched_at, &e.last_good) {
            (Some(at), Some(w)) => Some(
                LastGood {
                    fetched_at: format_or_empty(at),
                    age_seconds: clipped(gap(now, at)),
                    windows: copy_windows(w),
                },
            ),
            _ => None,
        }
    };
    let windows: Vec<Window> = match (current, &e.last_good) {
        (true, Some(w)) => copy_windows(w),
        _ => Vec::new(),
    };
    assert(windows@.len() == 0 ==> windows@ =~= Seq::<Window>::empty());
    AccountView {
        slot: st.slot,
        email: st.meta.email.clone(),
        organization_name: st.meta.organization_name.clone(),
        organization_uuid: st.meta.organization_uuid.clone(),
        plan: copy_opt(&st.meta.plan),
        alias: copy_opt(&st.meta.alias),
        icon: copy_opt(&st.meta.icon),
        active: st.active,
        disabled: st.meta.disabled,
        preferred: st.meta.preferred,
        usage_status: status,
        fetched_at: match (current, e.fetched_at) {
            (true, Some(at)) => format_ts(at),
            _ => None,
        },
        age_seconds: if current {
            e.age_s
        } else {
            None
        },
        windows,
        last_good,
        last_error: copy_opt(&e.last_error),
        backoff_until: if e.in_backoff(now) {
            match e.backoff_until {
                Some(t) => format_ts(t),
                None => None,
            }
        } else {
            None
        },
    }
}

/// Whether the rotation may land on an account, before any question of headroom.
pub open spec fn may_land(disabled: bool, status: Option<UsageStatus>) -> bool {
    !disabled && !(status matches Some(s) && (s is NoCredentials || s is ApiKey
        || s is ReloginRequired || s is Unsupported))
}

/// Whether the rotation may land on a slot at all: a disabled one is out by choice,
/// one without a usable login until someone logs in again.
pub fn rotatable(disabled: bool, status: Option<UsageStatus>) -> (r: bool)
    ensures
        r == may_land(disabled, status),
{
    !disabled && match status {
        Some(s) => match s {
            UsageStatus::NoCredentials | UsageStatus::ApiKey | UsageStatus::ReloginRequired
            | UsageStatus::Unsupported => false,
            _ => true,
        },
        None => true,
    }
}

/// Whether windows leave the rotation willing to land: the binding one is below the
/// threshold. Unknown headroom passes.
pub open spec fn under(windows: Seq<Window>, models: Seq<String>, threshold: i64) -> bool {
    bound_pct(windows, models) matches Some(p) ==> p < threshold
}

/// Whether windows leave the rotation willing to land.
pub fn within_threshold(windows: &Vec<Window>, models: &Vec<String>, threshold: i64) -> (r: bool)
    ensures
        r == under(windows@, models@, threshold),
{
    match binding_pct(windows, models) {
        Some(p) => p < threshold,
        None => true,
    }
}

/// The trusted windows of an entry, none where they are not known.
pub open spec fn trusted_windows(e: Entry) -> Seq<Window> {
    match e.decided_on() {
        Some(w) => w,
        None => Seq::empty(),
    }
}

fn entry_under(e: Option<&Entry>, models: &Vec<String>, threshold: i64) -> (r: bool)
    ensures
        r == under(
            match e {
                Some(x) => trusted_windows(*x),
                None => Seq::empty(),
            },
            models@,
            threshold,
        ),
{
    if let Some(x) = e {
        if let Some(w) = x.decision_windows() {
            return within_threshold(w, models, threshold);
        }
    }
    let none: Vec<Window> = Vec::new();
    assert(none@ =~= Seq::<Window>::empty());
    within_threshold(&none, models, threshold)
}

/// Whether a slot is one that the rotation may take now.
pub open spec fn is_healthy(
    st: SlotState,
    entries: Map<Seq<char>, Entry>,
    models: Seq<String>,
    threshold: i64,
) -> bool {
    may_land(st.meta.disabled, st.sentinel) && under(
        trusted_windows(entry_or_blank(entries, st.key@)),
        models,
        threshold,
    )
}

/// Whether a slot is one that the rotation may take now.
pub fn healthy(st: &SlotState, entries: &Table<Entry>, models: &Vec<String>, threshold: i64) -> (r:
    bool)
    requires
        entries.wf(),
    ensures
        r == is_healthy(*st, entries@, models@, threshold),
{
    rotatable(st.meta.disabled, st.sentinel) && entry_under(
        entries.get(st.key.as_str()),
        models,
        threshold,
    )
}

/// The position behind the first active slot, or the start.
pub open spec fn after_active(states: Seq<SlotState>) -> int
    decreases states.len(),
{
    if states.len() == 0 {
        0
    } else if after_active(states.drop_last()) > 0 {
        after_active(states.drop_last())
    } else if states.last().active {
        states.len() as int
    } else {
        0
    }
}

/// The first of `n` slots from a start on, round the end, that is healthy and not
/// active.
pub open spec fn first_healthy(
    states: Seq<SlotState>,
    start: int,
    entries: Map<Seq<char>, Entry>,
    models: Seq<String>,
    threshold: i64,
    n: int,
) -> Option<u32>
    decreases n,
{
    if n <= 0 {
        None
    } else {
        match first_healthy(states, start, entries, models, threshold, n - 1) {
            Some(s) => Some(s),
            None => {
                let st = states[(start + n - 1) % states.len() as int];
                if !st.active && is_healthy(st, entries, models, threshold) {
                    Some(st.slot)
                } else {
                    None
                }
            },
        }
    }
}

proof fn lemma_first_healthy_stays(
    states: Seq<SlotState>,
    start: int,
    entries: Map<Seq<char>, Entry>,
    models: Seq<String>,
    threshold: i64,
    n: int,
    m: int,
)
    requires
        n <= m,
        first_healthy(states, start, entries, models, threshold, n) is Some,
    ensures
        first_healthy(states, start, entries, models, threshold, m) == first_healthy(
            states,
            start,
            entries,
            models,
            threshold,
            n,
        ),
    decreases m - n,
{
    if n < m {
        lemma_first_healthy_stays(states, start, entries, models, threshold, n, m - 1);
    }
}

/// The position behind the first active slot, or the start.
fn find_after_active(states: &Vec<SlotState>) -> (r: usize)
    ensures
        r == after_active(states@),
        r <= states@.len(),
{
    let mut i: usize = 0;
    assert(states@.take(0) =~= Seq::empty());
    while i < states.len()
        invariant
            i <= states.len(),
            after_active(states@.take(i as int)) == 0,
        decreases states.len() - i,
    {
        assert(states@.take(i + 1).drop_last() =~= states@.take(i as int));
        if states[i].active {
            proof {
                lemma_after_active_stays(states@, i + 1);
            }
            return i + 1;
        }
        i += 1;
    }
    assert(states@.take(states@.len() as int) =~= states@);
    0
}

proof fn lemma_after_active_stays(states: Seq<SlotState>, n: int)
    requires
        0 <= n <= states.len(),
        after_active(states.take(n)) > 0,
    ensures
        after_active(states) == after_active(states.take(n)),
    decreases states.len() - n,
{
    if n == states.len() {
        assert(states.take(n) =~= states);
    } else {
        assert(states.take(n + 1).drop_last() =~= states.take(n));
        lemma_after_active_stays(states, n + 1);
    }
}

/// The rotation's next healthy slot after the active one. Unknown headroom is no
/// reason to skip.
pub fn next_candidate(
    states: &Vec<SlotState>,
    entries: &Table<Entry>,
    models: &Vec<String>,
    threshold: i64,
) -> (r: Option<u32>)
    requires
        entries.wf(),
    ensures
        r == first_healthy(
            states@,
            after_active(states@),
            entries@,
            models@,
            threshold,
            states@.len() as int,
        ),
{
    let len: usize = states.len();
    let start: usize = find_after_active(states);
    let mut at: usize = if start == len {
        0
    } else {
        start
    };
    let mut n: usize = 0;
    proof {
        if len > 0 {
            if start == len {
                assert(start as int % len as int == 0) by (nonlinear_arith)
                    requires
                        start == len,
                        len > 0,
                ;
            } else {
                assert(start as int % len as int == start) by (nonlinear_arith)
                    requires
                        0 <= start < len,
                ;
            }
        }
    }
    while n < len
        invariant
            n <= len,
            len == states@.len(),
            len > 0 ==> at < len,
            len > 0 ==> at == (start + n) % len as int,
            start == after_active(states@),
            entries.wf(),
            first_healthy(states@, start as int, entries@, models@, threshold, n as int) is None,
        decreases len - n,
    {
        let st: &SlotState = &states[at];
        if !st.active && healthy(st, entries, models, threshold) {
            proof {
                lemma_first_healthy_stays(
                    states@,
                    start as int,
                    entries@,
                    models@,
                    threshold,
                    n + 1,
                    len as int,
                );
            }
            return Some(st.slot);
        }
        proof {
            let a = (start + n) as int;
            assert((a + 1) % len as int == if a % len as int + 1 == len {
                0
            } else {
                a % len as int + 1
            }) by (nonlinear_arith)
                requires
                    a >= 0,
                    len > 0,
            ;
        }
        at = if at + 1 == len {
            0
        } else {
            at + 1
        };
        n += 1;
    }
    None
}

/// The slots of accounts whose trusted measurement is under the threshold.
pub open spec fn healthy_among(
    provider: Seq<char>,
    accounts: Seq<AccountView>,
    entries: Map<Seq<char>, Entry>,
    models: Seq<String>,
    threshold: i64,
) -> Seq<u32>
    decreases accounts.len(),
{
    if accounts.len() == 0 {
        Seq::empty()
    } else {
        let rest = healthy_among(provider, accounts.drop_last(), entries, models, threshold);
        let n = accounts.last().slot;
        if under(
            trusted_windows(entry_or_blank(entries, slot_key_text(provider, n))),
            models,
            threshold,
        ) {
            rest.push(n)
        } else {
            rest
        }
    }
}

/// The slots whose trusted measurement is under the threshold: the verdict that the
/// next candidate is chosen by.
pub fn healthy_slots(
    provider: &str,
    accounts: &Vec<AccountView>,
    entries: &Table<Entry>,
    models: &Vec<String>,
    threshold: i64,
) -> (r: Vec<u32>)
    requires
        entries.wf(),
    ensures
        r@ == healthy_among(provider@, accounts@, entries@, models@, threshold),
{
    let mut r: Vec<u32> = Vec::new();
    let mut i: usize = 0;
    assert(accounts@.take(0) =~= Seq::empty());
    while i < accounts.len()
        invariant
            i <= accounts.len(),
            entries.wf(),
            r@ == healthy_among(
                provider@,
                accounts@.take(i as int),
                entries@,
                models@,
                threshold,
            ),
        decreases accounts.len() - i,
    {
        assert(accounts@.take(i + 1).drop_last() =~= accounts@.take(i as int));
        let n: u32 = accounts[i].slot;
        if entry_under(entries.get(slot_key(provider, n).as_str()), models, threshold) {
            r.push(n);
        }
        i += 1;
    }
    assert(accounts@.take(accounts@.len() as int) =~= accounts@);
    r
}

/// When an account that the rotation may land on comes back from its limit.
pub open spec fn comes_back(st: SlotState, entries: Map<Seq<char>, Entry>, models: Seq<String>) -> Option<
    i64,
> {
    if may_land(st.meta.disabled, st.sentinel) {
        match entry_or_blank(entries, st.key@).decided_on() {
            Some(w) => latest_full_reset(gating(w, models)),
            None => None,
        }
    } else {
        None
    }
}

/// The first recovery: the earliest instant, then the least slot.
pub open spec fn first_back(
    states: Seq<SlotState>,
    entries: Map<Seq<char>, Entry>,
    models: Seq<String>,
) -> Option<(i64, u32)>
    decreases states.len(),
{
    if states.len() == 0 {
        None
    } else {
        let rest = first_back(states.drop_last(), entries, models);
        let st = states.last();
        match (comes_back(st, entries, models), rest) {
            (Some(t), Some(best)) => if t < best.0 || (t == best.0 && st.slot < best.1) {
                Some((t, st.slot))
            } else {
                rest
            },
            (Some(t), None) => Some((t, st.slot)),
            (None, _) => rest,
        }
    }
}

/// Whether a report shows a recovery: its slot, and its instant in RFC 3339, where it has
/// one.
pub open spec fn shows_recovery(r: Option<NextRecovery>, best: Option<(i64, u32)>) -> bool {
    match best {
        Some(b) => match rfc3339_text(whole_seconds(b.0)) {
            Some(text) => r matches Some(x) && x.slot == b.1 && x.at@ == text,
            None => r is None,
        },
        None => r is None,
    }
}

/// The earliest moment at which an exhausted account becomes usable again. An
/// account that nobody can switch to is no recovery.
pub fn next_recovery(states: &Vec<SlotState>, entries: &Table<Entry>, models: &Vec<String>) -> (r:
    Option<NextRecovery>)
    requires
        entries.wf(),
    ensures
        shows_recovery(r, first_back(states@, entries@, models@)),
{
    let mut best: Option<(i64, u32)> = None;
    let mut i: usize = 0;
    assert(states@.take(0) =~= Seq::empty());
    while i < states.len()
        invariant
            i <= states.len(),
            entries.wf(),
            best == first_back(states@.take(i as int), entries@, models@),
        decreases states.len() - i,
    {
        assert(states@.take(i + 1).drop_last() =~= states@.take(i as int));
        let st: &SlotState = &states[i];
        let mut back: Option<i64> = None;
        if rotatable(st.meta.disabled, st.sentinel) {
            if let Some(e) = entries.get(st.key.as_str()) {
                if let Some(w) = e.decision_windows() {
                    back = limiting_reset_ts(w, models);
                }
            }
        }
        assert(back == comes_back(*st, entries@, models@));
        match (back, best) {
            (Some(t), Some(b)) => {
                if t < b.0 || (t == b.0 && st.slot < b.1) {
                    best = Some((t, st.slot));
                }
            },
            (Some(t), None) => {
                best = Some((t, st.slot));
            },
            (None, _) => {},
        }
        i += 1;
    }
    assert(states@.take(states@.len() as int) =~= states@);
    match best {
        Some(b) => match format_ts(b.0) {
            Some(at) => Some(NextRecovery { slot: b.1, at }),
            None => None,
        },
        None => None,
    }
}

/// The first active slot.
pub open spec fn active_of(states: Seq<SlotState>) -> Option<u32> {
    if after_active(states) > 0 {
        Some(states[after_active(states) - 1].slot)
    } else {
        None
    }
}

/// Whether views are those of the states of a pass.
pub open spec fn views_of(
    views: Seq<AccountView>,
    states: Seq<SlotState>,
    entries: Map<Seq<char>, Entry>,
    now: i64,
) -> bool {
    views.len() == states.len() && forall|i: int|
        0 <= i < states.len() ==> is_view(
            #[trigger] views[i],
            states[i],
            entry_or_blank(entries, states[i].key@),
            now,
        )
}

/// What a pass reports of a provider.
///
/// Where the live login could not be read, `unreadable` says why, and the slot that
/// is recorded as active is reported beside it.
pub fn provider_view(
    provider: &str,
    installed: bool,
    states: &Vec<SlotState>,
    entries: &Table<Entry>,
    models: &Vec<String>,
    threshold: i64,
    unreadable: Option<String>,
    recorded_active: Option<u32>,
    now: i64,
) -> (v: ProviderView)
    requires
        entries.wf(),
    ensures
        v.provider@ == provider@,
        v.installed == installed,
        v.active_slot == active_of(states@),
        v.active_unreadable == if v.active_slot is None {
            unreadable
        } else {
            None
        },
        v.last_known_active_slot == if v.active_unreadable is Some {
            recorded_active
        } else {
            None
        },
        v.next_candidate == first_healthy(
            states@,
            after_active(states@),
            entries@,
            models@,
            threshold,
            states@.len() as int,
        ),
        shows_recovery(v.next_recovery, first_back(states@, entries@, models@)),
        views_of(v.accounts@, states@, entries@, now),
{
    let mut accounts: Vec<AccountView> = Vec::new();
    let mut i: usize = 0;
    while i < states.len()
        invariant
            i <= states.len(),
            entries.wf(),
            views_of(accounts@, states@.take(i as int), entries@, now),
        decreases states.len() - i,
    {
        let v: AccountView = match entries.get(states[i].key.as_str()) {
            Some(e) => account_view(&states[i], e, now),
            None => account_view(&states[i], &Entry::default(), now),
        };
        accounts.push(v);
        i += 1;
    }
    assert(states@.take(states@.len() as int) =~= states@);
    let behind: usize = find_after_active(states);
    let active_slot: Option<u32> = if behind > 0 {
        Some(states[behind - 1].slot)
    } else {
        None
    };
    let active_unreadable: Option<String> = if active_slot.is_none() {
        unreadable
    } else {
        None
    };
    let last_known_active_slot: Option<u32> = if active_unreadable.is_some() {
        recorded_active
    } else {
        None
    };
    ProviderView {
        provider: provider.to_owned(),
        installed,
        active_slot,
        active_unreadable,
        last_known_active_slot,
        next_candidate: next_candidate(states, entries, models, threshold),
        next_recovery: next_recovery(states, entries, models),
        accounts,
    }
}

/// The next candidate is a slot that is not active, that the rotation may land on,
/// and whose trusted measurement, where there is one, is under the threshold.
pub proof fn law_next_candidate_is_sound(
    states: Seq<SlotState>,
    start: int,
    entries: Map<Seq<char>, Entry>,
    models: Seq<String>,
    threshold: i64,
    n: int,
)
    requires
        states.len() > 0,
        start >= 0,
        first_healthy(states, start, entries, models, threshold, n) is Some,
    ensures
        exists|i: int|
            0 <= i < states.len() && (#[trigger] states[i]).slot == first_healthy(
                states,
                start,
                entries,
                models,
                threshold,
                n,
            )->0 && !states[i].active && is_healthy(states[i], entries, models, threshold),
    decreases n,
{
    if first_healthy(states, start, entries, models, threshold, n - 1) is Some {
        law_next_candidate_is_sound(states, start, entries, models, threshold, n - 1);
    } else {
        let i = (start + n - 1) % states.len() as int;
        assert(0 <= i < states.len());
        assert(states[i].slot == states[i].slot);
    }
}

} // verus!
