//! What holds of what was measured: which windows count, how much is left, how long a
//! measurement is trusted, and when the next one is made.

use vstd::prelude::*;

use crate::collect::{entry_or_blank, SlotState};
use crate::collect_view::{comes_back, first_back, healthy_slots, trusted_windows};
use crate::contract::{AccountView, Window};
use crate::gating::{gating, has_account_wide, headroom, highest, law_peak_is_the_maximum, peak};
use crate::poll_policy::{
    earliest_future_reset_ts, earliest_reset_after, latest_full_reset, limiting_reset_ts,
    plan_after_fetch, window_reset, PlanInput,
};
use crate::table::Table;
use crate::text::{lowercase, opt_text, texts};
use crate::usage_store::{
    due_candidate, earliest_reset, failure_backoff_s, is_permanent_auth_error, row_eligible,
    soonest_reset, Entry, Row, UsageStore,
};

verus! {

/// Whether some window is one of five hours or of seven days.
pub open spec fn reports_the_account(windows: Seq<Window>) -> bool {
    exists|i: int|
        0 <= i < windows.len() && ((#[trigger] windows[i]).kind is FiveHour
            || windows[i].kind is SevenDay)
}

/// Whether some model is named so, without regard to case.
pub open spec fn names_model(models: Seq<String>, name: Seq<char>) -> bool {
    exists|i: int| 0 <= i < models.len() && lowercase((#[trigger] models[i])@) == name
}

/// Which windows count. The five-hour and the seven-day window always do. One that is scoped
/// to a model does where the model is named, where all are, or where the account reports no
/// window for all of it; without a name it never does. No other kind of window does.
pub proof fn law_which_windows_count(windows: Seq<Window>, models: Seq<String>, w: Window)
    ensures
        gating(windows, models).contains(w) <==> windows.contains(w) && (w.kind is FiveHour
            || w.kind is SevenDay || (w.kind is Scoped && w.name is Some && (!reports_the_account(
            windows,
        ) || names_model(models, "all"@) || names_model(models, lowercase(w.name->0@))))),
{
    let keep = |x: Window|
        crate::gating::gates(x, has_account_wide(windows), crate::gating::wanted(models));
    assert(gating(windows, models) == windows.filter(keep));
    lemma_wide(windows);
    lemma_wanted(models, "all"@);
    if w.name is Some {
        lemma_wanted(models, lowercase(w.name->0@));
    }
    broadcast use vstd::seq_lib::group_filter_ensures;
    if gating(windows, models).contains(w) {
        windows.lemma_filter_contains_rev(keep, w);
        let i = choose|i: int|
            0 <= i < windows.filter(keep).len() && windows.filter(keep)[i] == w;
        windows.lemma_filter_pred(keep, i);
    }
    if windows.contains(w) && keep(w) {
        let i = choose|i: int| 0 <= i < windows.len() && windows[i] == w;
        windows.lemma_filter_contains(keep, i);
    }
}

proof fn lemma_wide(windows: Seq<Window>)
    ensures
        has_account_wide(windows) == reports_the_account(windows),
{
    if has_account_wide(windows) {
        let i = choose|i: int|
            0 <= i < windows.len() && crate::gating::account_wide(#[trigger] windows[i]);
        assert(windows[i].kind is FiveHour || windows[i].kind is SevenDay);
    }
    if reports_the_account(windows) {
        let i = choose|i: int|
            0 <= i < windows.len() && ((#[trigger] windows[i]).kind is FiveHour
                || windows[i].kind is SevenDay);
        assert(crate::gating::account_wide(windows[i]));
    }
}

proof fn lemma_wanted(models: Seq<String>, name: Seq<char>)
    ensures
        crate::gating::wanted(models).contains(name) == names_model(models, name),
{
    let list = crate::gating::wanted(models);
    if list.contains(name) {
        let i = choose|i: int| 0 <= i < list.len() && list[i] == name;
        assert(lowercase(models[i]@) == name);
    }
    if names_model(models, name) {
        let i = choose|i: int| 0 <= i < models.len() && lowercase((#[trigger] models[i])@) == name;
        assert(list[i] == name);
    }
}

/// What is left of an account is what is left of the fullest window that counts: no window
/// that counts has less, and one has just that. Nothing is known where no window counts.
pub proof fn law_the_fullest_window_binds(
    windows: &Vec<Window>,
    models: &Vec<String>,
    r: Option<i128>,
    w: Window,
)
    requires
        call_ensures(headroom, (windows, models), r),
    ensures
        gating(windows@, models@).contains(w) ==> r is Some && r->0 <= 100_000_000 - w.pct,
        r is Some ==> exists|x: Window| #[trigger]
            gating(windows@, models@).contains(x) && r->0 == 100_000_000 - x.pct,
        r is None <==> gating(windows@, models@).len() == 0,
{
    let list = gating(windows@, models@);
    law_peak_is_the_maximum(list);
    if list.contains(w) {
        let i = choose|i: int| 0 <= i < list.len() && list[i] == w;
        assert(list[i].pct <= peak(list)->0);
    }
    if r is Some {
        let i = choose|i: int| 0 <= i < list.len() && #[trigger] list[i].pct == peak(list)->0;
        assert(list.contains(list[i]));
    }
}

/// The percentage used of an account is that of the fullest window that counts.
pub proof fn law_the_highest_is_the_fullest(
    windows: &Vec<Window>,
    models: &Vec<String>,
    r: Option<i64>,
    w: Window,
)
    requires
        call_ensures(highest, (windows, models), r),
    ensures
        gating(windows@, models@).contains(w) ==> r is Some && r->0 >= w.pct,
        r is Some ==> exists|x: Window| #[trigger]
            gating(windows@, models@).contains(x) && r->0 == x.pct,
        r is None <==> gating(windows@, models@).len() == 0,
{
    let list = gating(windows@, models@);
    law_peak_is_the_maximum(list);
    if list.contains(w) {
        let i = choose|i: int| 0 <= i < list.len() && list[i] == w;
        assert(list[i].pct <= peak(list)->0);
    }
    if r is Some {
        let i = choose|i: int| 0 <= i < list.len() && #[trigger] list[i].pct == peak(list)->0;
        assert(list.contains(list[i]));
    }
}

proof fn lemma_latest_full(list: Seq<Window>)
    ensures
        forall|i: int|
            0 <= i < list.len() && (#[trigger] list[i]).pct >= 100_000_000 && window_reset(
                list[i],
            ) is Some ==> latest_full_reset(list) is Some && window_reset(list[i])->0
                <= latest_full_reset(list)->0,
        latest_full_reset(list) is Some ==> exists|i: int|
            0 <= i < list.len() && (#[trigger] list[i]).pct >= 100_000_000 && window_reset(list[i])
                == latest_full_reset(list),
    decreases list.len(),
{
    if list.len() > 0 {
        let rest = list.drop_last();
        lemma_latest_full(rest);
        assert forall|i: int|
            0 <= i < list.len() && (#[trigger] list[i]).pct >= 100_000_000 && window_reset(
                list[i],
            ) is Some implies latest_full_reset(list) is Some && window_reset(list[i])->0
            <= latest_full_reset(list)->0 by {
            if i < rest.len() {
                assert(rest[i] == list[i]);
            }
        }
        if latest_full_reset(list) is Some {
            if latest_full_reset(list) == latest_full_reset(rest) {
                let i = choose|i: int|
                    0 <= i < rest.len() && (#[trigger] rest[i]).pct >= 100_000_000 && window_reset(
                        rest[i],
                    ) == latest_full_reset(rest);
                assert(list[i] == rest[i]);
            } else {
                assert(window_reset(list[list.len() - 1]) == latest_full_reset(list));
            }
        }
    }
}

/// An account that is full is usable again when the last of its full windows that count
/// resets: none of them resets later, and one resets then.
pub proof fn law_the_last_full_window_frees(
    windows: &Vec<Window>,
    models: &Vec<String>,
    r: Option<i64>,
    w: Window,
)
    requires
        call_ensures(limiting_reset_ts, (windows, models), r),
    ensures
        gating(windows@, models@).contains(w) && w.pct >= 100_000_000 && window_reset(w) is Some
            ==> r is Some && window_reset(w)->0 <= r->0,
        r is Some ==> exists|x: Window| #[trigger]
            gating(windows@, models@).contains(x) && x.pct >= 100_000_000 && window_reset(x) == r,
{
    let list = gating(windows@, models@);
    lemma_latest_full(list);
    if list.contains(w) {
        let i = choose|i: int| 0 <= i < list.len() && list[i] == w;
        assert(list[i] == w);
    }
    if r is Some {
        let i = choose|i: int|
            0 <= i < list.len() && (#[trigger] list[i]).pct >= 100_000_000 && window_reset(list[i])
                == latest_full_reset(list);
        assert(list.contains(list[i]));
    }
}

proof fn lemma_earliest_after(list: Seq<Window>, now: i64)
    ensures
        forall|i: int|
            0 <= i < list.len() && (window_reset(#[trigger] list[i]) matches Some(t) && t > now)
                ==> earliest_reset_after(list, now) is Some && earliest_reset_after(list, now)->0
                <= window_reset(list[i])->0,
        earliest_reset_after(list, now) is Some ==> earliest_reset_after(list, now)->0 > now
            && exists|i: int|
            0 <= i < list.len() && window_reset(#[trigger] list[i]) == earliest_reset_after(
                list,
                now,
            ),
    decreases list.len(),
{
    if list.len() > 0 {
        let rest = list.drop_last();
        lemma_earliest_after(rest, now);
        assert forall|i: int|
            0 <= i < list.len() && (window_reset(#[trigger] list[i]) matches Some(t) && t
                > now) implies earliest_reset_after(list, now) is Some && earliest_reset_after(
            list,
            now,
        )->0 <= window_reset(list[i])->0 by {
            if i < rest.len() {
                assert(rest[i] == list[i]);
            }
        }
        if earliest_reset_after(list, now) is Some {
            if earliest_reset_after(list, now) == earliest_reset_after(rest, now) {
                let i = choose|i: int|
                    0 <= i < rest.len() && window_reset(#[trigger] rest[i])
                        == earliest_reset_after(rest, now);
                assert(list[i] == rest[i]);
            } else {
                assert(window_reset(list[list.len() - 1]) == earliest_reset_after(list, now));
            }
        }
    }
}

/// The next reset of an account is the first, of the windows that count, that lies ahead.
pub proof fn law_the_next_reset_is_the_first_ahead(
    windows: &Vec<Window>,
    now: i64,
    models: &Vec<String>,
    r: Option<i64>,
    w: Window,
)
    requires
        call_ensures(earliest_future_reset_ts, (windows, now, models), r),
    ensures
        r is Some ==> r->0 > now,
        gating(windows@, models@).contains(w) && window_reset(w) is Some && window_reset(w)->0 > now
            ==> r is Some && r->0 <= window_reset(w)->0,
        r is Some ==> exists|x: Window| #[trigger]
            gating(windows@, models@).contains(x) && window_reset(x) == r,
{
    let list = gating(windows@, models@);
    lemma_earliest_after(list, now);
    if list.contains(w) {
        let i = choose|i: int| 0 <= i < list.len() && list[i] == w;
        assert(list[i] == w);
    }
    if r is Some {
        let i = choose|i: int|
            0 <= i < list.len() && window_reset(#[trigger] list[i]) == earliest_reset_after(
                list,
                now,
            );
        assert(list.contains(list[i]));
    }
}

proof fn lemma_soonest(list: Seq<Window>)
    ensures
        forall|i: int|
            0 <= i < list.len() && window_reset(#[trigger] list[i]) is Some ==> soonest_reset(
                list,
            ) is Some && soonest_reset(list)->0 <= window_reset(list[i])->0,
        soonest_reset(list) is Some ==> exists|i: int|
            0 <= i < list.len() && window_reset(#[trigger] list[i]) == soonest_reset(list),
    decreases list.len(),
{
    if list.len() > 0 {
        let rest = list.drop_last();
        lemma_soonest(rest);
        assert forall|i: int|
            0 <= i < list.len() && window_reset(#[trigger] list[i]) is Some implies soonest_reset(
            list,
        ) is Some && soonest_reset(list)->0 <= window_reset(list[i])->0 by {
            if i < rest.len() {
                assert(rest[i] == list[i]);
            }
        }
        if soonest_reset(list) is Some {
            if soonest_reset(list) == soonest_reset(rest) {
                let i = choose|i: int|
                    0 <= i < rest.len() && window_reset(#[trigger] rest[i]) == soonest_reset(rest);
                assert(list[i] == rest[i]);
            } else {
                assert(window_reset(list[list.len() - 1]) == soonest_reset(list));
            }
        }
    }
}

/// A measurement is obsolete from the first reset on of a window that counts.
pub proof fn law_a_measurement_lasts_to_the_first_reset(
    windows: &Vec<Window>,
    models: &Vec<String>,
    r: Option<i64>,
    w: Window,
)
    requires
        call_ensures(earliest_reset, (windows, models), r),
    ensures
        gating(windows@, models@).contains(w) && window_reset(w) is Some ==> r is Some && r->0
            <= window_reset(w)->0,
        r is Some ==> exists|x: Window| #[trigger]
            gating(windows@, models@).contains(x) && window_reset(x) == r,
{
    let list = gating(windows@, models@);
    lemma_soonest(list);
    if list.contains(w) {
        let i = choose|i: int| 0 <= i < list.len() && list[i] == w;
        assert(list[i] == w);
    }
    if r is Some {
        let i = choose|i: int|
            0 <= i < list.len() && window_reset(#[trigger] list[i]) == soonest_reset(list);
        assert(list.contains(list[i]));
    }
}

/// When the next poll is planned. An account that moves close to the threshold while it is
/// active is polled every minute; another that moves, at half the interval and at least
/// every three minutes apart; one that does not, at one and a half times it, up to five
/// minutes for the active account and ten for another. A full one is polled no oftener than
/// every ten minutes. After a recent refusal the interval never shrinks, and is six minutes
/// at the least.
pub proof fn law_the_cadence_follows_the_use(
    i: PlanInput,
    roll: u32,
    r: (i64, i64),
    used: int,
    was: int,
    v: i64,
)
    requires
        call_ensures(plan_after_fetch, (i, roll), r),
        peak(gating(i.new@, i.models@)) == Some(used),
        i.prev is Some,
        peak(gating(i.prev->0@, i.models@)) == Some(was),
        i.prev_interval_s == Some(v),
        0 < v <= 1_800_000_000,
    ensures
        i.is_active && !i.recent_429 && (used - was >= 1_000_000 || was - used >= 1_000_000)
            && i.threshold - 15_000_000 <= used < 100_000_000 ==> r.1 == 60_000_000,
        !i.recent_429 && (used - was >= 1_000_000 || was - used >= 1_000_000) && used < 100_000_000
            && (!i.is_active || used < i.threshold - 15_000_000) ==> r.1 == if v / 2
            > 180_000_000 {
            v / 2
        } else {
            180_000_000
        },
        !i.recent_429 && -1_000_000 < used - was < 1_000_000 && used < 100_000_000 && i.is_active
            ==> 180_000_000 <= r.1 <= 300_000_000 && (v * 3 / 2 <= 300_000_000 && v * 3 / 2
            >= 180_000_000 ==> r.1 == v * 3 / 2),
        !i.recent_429 && -1_000_000 < used - was < 1_000_000 && used < 100_000_000 && !i.is_active
            ==> 180_000_000 <= r.1 <= 600_000_000 && (v * 3 / 2 <= 600_000_000 && v * 3 / 2
            >= 180_000_000 ==> r.1 == v * 3 / 2),
        used >= 100_000_000 ==> r.1 >= 600_000_000,
        i.recent_429 ==> r.1 >= 360_000_000 && r.1 >= v,
{
}

/// An account of which nothing was known before is polled again at the default: after three
/// minutes where it is active, and after five where it is not.
pub proof fn law_the_first_interval_is_the_default(i: PlanInput, roll: u32, r: (i64, i64))
    requires
        call_ensures(plan_after_fetch, (i, roll), r),
        i.prev_interval_s is None,
        i.prev is None || peak(gating(i.prev->0@, i.models@)) is None,
        !i.recent_429,
        peak(gating(i.new@, i.models@)) matches Some(p) ==> p < 100_000_000,
    ensures
        i.is_active ==> r.1 == 180_000_000,
        !i.is_active ==> r.1 == 300_000_000,
{
}

/// No poll waits past the reset that makes the measurement obsolete by more than a minute:
/// for a full account the one that frees it, for another the first ahead.
pub proof fn law_no_poll_sleeps_through_a_reset(
    i: PlanInput,
    roll: u32,
    r: (i64, i64),
    at: Option<i64>,
    first: Option<i64>,
)
    requires
        call_ensures(plan_after_fetch, (i, roll), r),
        call_ensures(limiting_reset_ts, (i.new, i.models), at),
        call_ensures(earliest_future_reset_ts, (i.new, i.now, i.models), first),
    ensures
        peak(gating(i.new@, i.models@)) matches Some(p) && p >= 100_000_000 && at is Some && at->0
            > i.now ==> r.0 <= at->0 + 60_000_000,
        (peak(gating(i.new@, i.models@)) is None || peak(gating(i.new@, i.models@))->0
            < 100_000_000) && first is Some ==> r.0 <= first->0 + 60_000_000,
{
}

/// A row may be fetched only where its token has no strike, no backoff is running and no
/// other claim is live. Then it is: by force, always; by the plan, where it is older than
/// three minutes and its poll is due or was never planned; else where either holds.
pub proof fn law_what_may_be_fetched(
    row: &Row,
    now: i64,
    respect_plans: bool,
    force: bool,
    r: bool,
)
    requires
        call_ensures(row_eligible, (row, now, respect_plans, force), r),
    ensures
        r ==> row.auth_dead_strikes == 0,
        r ==> row.backoff_until is None || row.backoff_until->0 <= now,
        r ==> row.claim_until is None || row.claim_until->0 <= now,
        ({
            let free = row.auth_dead_strikes == 0 && (row.backoff_until is None
                || row.backoff_until->0 <= now) && (row.claim_until is None || row.claim_until->0
                <= now);
            let old = row.fetched_at is None || now - row.fetched_at->0 > 180_000_000;
            let due = row.next_poll_at is Some && row.next_poll_at->0 <= now;
            &&& free && force ==> r
            &&& free && !force && respect_plans ==> (r <==> old && (due || row.next_poll_at is None))
            &&& free && !force && !respect_plans ==> (r <==> old || due)
        }),
{
}

/// What an account sees of the table is its own row: what was measured and when, what failed
/// last and how often. Of a row that belongs to another account it sees nothing.
pub proof fn law_an_entry_shows_its_row(
    store: &UsageStore,
    key: &(String, String, String),
    models: &Vec<String>,
    now: i64,
    e: Entry,
)
    requires
        store.wf(),
        call_ensures(UsageStore::entry, (store, key, models, now), e),
    ensures
        ({
            let own = store.rows@.contains_key(key.0@) && store.rows@[key.0@].email@ == key.1@
                && store.rows@[key.0@].org@ == key.2@;
            let row = store.rows@[key.0@];
            &&& !own ==> e.last_good is None && e.fetched_at is None && e.age_s is None
                && e.auth_dead_strikes == 0 && e.backoff_until is None && e.next_poll_at is None
                && e.last_error is None && e.claim_until is None && !e.trust_extended
            &&& own ==> (e.last_good is Some <==> row.last_good is Some)
            &&& own && row.last_good is Some ==> e.last_good->0@ == row.last_good->0@
            &&& own ==> e.fetched_at == row.fetched_at && e.last_error == row.last_error
                && e.backoff_until == row.backoff_until && e.next_poll_at == row.next_poll_at
                && e.interval_s == row.interval_s && e.auth_dead_strikes == row.auth_dead_strikes
                && e.dead_fingerprint == row.dead_fingerprint && e.claim_until == row.claim_until
                && e.consecutive_failures == row.consecutive_failures && e.last_429_at
                == row.last_429_at && e.last_attempt_at == row.last_attempt_at
            &&& own ==> (e.age_s is Some <==> row.fetched_at is Some)
            &&& own && row.fetched_at is Some && i64::MIN <= now - row.fetched_at->0 <= i64::MAX
                ==> e.age_s->0 == now - row.fetched_at->0
        }),
{
}

/// Decisions run on a measurement up to five minutes old. An older one counts only while its
/// age is deliberate: after a failure, before the planned poll, or under a live claim; and
/// for no longer than an hour, or, after a refusal, until a window resets and for less than
/// two hours.
pub proof fn law_how_long_a_measurement_counts(
    store: &UsageStore,
    key: &(String, String, String),
    models: &Vec<String>,
    now: i64,
    e: Entry,
    w: Option<&Vec<Window>>,
    first: Option<i64>,
    age: int,
)
    requires
        store.wf(),
        call_ensures(UsageStore::entry, (store, key, models, now), e),
        call_ensures(Entry::decision_windows, (&e,), w),
        store.rows@.contains_key(key.0@),
        store.rows@[key.0@].email@ == key.1@,
        store.rows@[key.0@].org@ == key.2@,
        store.rows@[key.0@].last_good is Some,
        store.rows@[key.0@].fetched_at is Some,
        age == now - store.rows@[key.0@].fetched_at->0,
        i64::MIN <= age <= i64::MAX,
        call_ensures(earliest_reset, (&store.rows@[key.0@].last_good->0, models), first),
    ensures
        ({
            let row = store.rows@[key.0@];
            let deliberate = row.consecutive_failures > 0 || (row.next_poll_at is Some && now
                < row.next_poll_at->0) || (row.claim_until is Some && now < row.claim_until->0);
            let refused = row.last_error is Some && row.last_error->0@ == "http-429"@;
            &&& age <= 300_000_000 ==> w is Some
            &&& w is Some ==> w->0@ == row.last_good->0@
            &&& age > 300_000_000 && !refused ==> (w is Some <==> deliberate && age
                <= 3_600_000_000)
            &&& age > 300_000_000 && refused ==> (w is Some <==> deliberate && age < 7_200_000_000
                && (first is None || now < first->0))
        }),
{
}

/// A failure is counted, its kind and its instant are kept, and a refusal is stamped; a
/// strike is given with the fingerprint of the login that was sent, for a permanent failure
/// alone. Only the row under the claim that is presented is changed.
pub proof fn law_a_failure_is_recorded(
    key: &str,
    claim: &str,
    kind: String,
    retry_after: Option<i64>,
    struck_fp: Option<String>,
    now: i64,
    other: Seq<char>,
)
    ensures
        forall|s: &mut UsageStore|
            s.wf() && (s.rows@.contains_key(key@) ==> s.rows@[key@].consecutive_failures < u32::MAX
                && s.rows@[key@].auth_dead_strikes < u32::MAX) && #[trigger] call_ensures(
                UsageStore::record_failure,
                (s, key, claim, kind, retry_after, struck_fp, now),
                (),
            ) ==> {
                let row = s.rows@[key@];
                let after = final(s).rows@[key@];
                let held = s.rows@.contains_key(key@) && row.claim_id is Some && row.claim_id->0@
                    == claim@;
                let fatal = kind@ == "invalid_grant"@ || kind@ == "no_refresh_token"@;
                &&& !held ==> *final(s) == *s
                &&& held ==> after.consecutive_failures == row.consecutive_failures + 1
                &&& held ==> opt_text(after.last_error) == Some(kind@)
                &&& held ==> after.last_attempt_at == Some(now)
                &&& held ==> after.last_good == row.last_good && after.fetched_at == row.fetched_at
                &&& held ==> after.claim_id is None && after.claim_until is None
                &&& held ==> after.last_429_at == if kind@ == "http-429"@ {
                    Some(now)
                } else {
                    row.last_429_at
                }
                &&& held ==> after.auth_dead_strikes == if fatal {
                    row.auth_dead_strikes + 1
                } else {
                    row.auth_dead_strikes as int
                }
                &&& held && fatal ==> after.dead_fingerprint == struck_fp
                &&& held && !fatal ==> after.dead_fingerprint == row.dead_fingerprint
                &&& held ==> after.email == row.email && after.org == row.org
                &&& other != key@ ==> final(s).rows@.contains_key(other) == s.rows@.contains_key(
                    other,
                ) && final(s).rows@[other] == s.rows@[other]
            },
{
}

/// What a success stores is what was measured: as many windows, each with its kind, its name
/// and its percentage, and with the reset that it named; only a weekly window that named
/// none may get one. Everything that told of failure is gone. Only the row under the claim
/// that is presented is changed.
pub proof fn law_a_success_stores_what_was_measured(
    key: &str,
    claim: &str,
    windows: Vec<Window>,
    is_active: bool,
    threshold: i64,
    models: &Vec<String>,
    now: i64,
    roll: u32,
    other: Seq<char>,
    i: int,
)
    requires
        0 <= i < windows@.len(),
    ensures
        forall|s: &mut UsageStore|
            s.wf() && #[trigger] call_ensures(
                UsageStore::record_success,
                (s, key, claim, windows, is_active, threshold, models, now, roll),
                (),
            ) ==> {
                let row = s.rows@[key@];
                let after = final(s).rows@[key@];
                let held = s.rows@.contains_key(key@) && row.claim_id is Some && row.claim_id->0@
                    == claim@;
                &&& !held ==> *final(s) == *s
                &&& held ==> after.last_good is Some && after.last_good->0@.len() == windows@.len()
                &&& held ==> {
                    let w = after.last_good->0@[i];
                    &&& w.kind == windows@[i].kind && w.name == windows@[i].name && w.pct
                        == windows@[i].pct
                    &&& w.used == windows@[i].used && w.limit == windows@[i].limit
                    &&& windows@[i].resets_at is Some || !(windows@[i].kind is SevenDay)
                        ==> w.resets_at == windows@[i].resets_at
                }
                &&& held ==> after.fetched_at == Some(now) && after.last_attempt_at == Some(now)
                &&& held ==> after.consecutive_failures == 0 && after.last_error is None
                    && after.backoff_until is None && after.auth_dead_strikes == 0
                &&& held ==> after.claim_id is None && after.claim_until is None
                &&& held ==> after.next_poll_at is Some && after.interval_s is Some
                &&& held ==> after.email == row.email && after.org == row.org && after.last_429_at
                    == row.last_429_at
                &&& other != key@ ==> final(s).rows@.contains_key(other) == s.rows@.contains_key(
                    other,
                ) && final(s).rows@[other] == s.rows@[other]
            },
{
    assert forall|s: &mut UsageStore|
        s.wf() && #[trigger] call_ensures(
            UsageStore::record_success,
            (s, key, claim, windows, is_active, threshold, models, now, roll),
            (),
        ) implies {
        let row = s.rows@[key@];
        let after = final(s).rows@[key@];
        let held = s.rows@.contains_key(key@) && row.claim_id is Some && row.claim_id->0@ == claim@;
        held ==> after.last_good is Some && after.last_good->0@.len() == windows@.len() && {
            let w = after.last_good->0@[i];
            &&& w.kind == windows@[i].kind && w.name == windows@[i].name && w.pct
                == windows@[i].pct
            &&& w.used == windows@[i].used && w.limit == windows@[i].limit
            &&& windows@[i].resets_at is Some || !(windows@[i].kind is SevenDay) ==> w.resets_at
                == windows@[i].resets_at
        }
    } by {
        lemma_unset_weekly(windows@);
    }
}

proof fn lemma_unset_weekly(windows: Seq<Window>)
    ensures
        crate::usage_store::first_weekly(windows, true) matches Some(k) ==> 0 <= k < windows.len()
            && windows[k].kind is SevenDay && windows[k].resets_at is None,
    decreases windows.len(),
{
    if windows.len() > 0 {
        lemma_unset_weekly(windows.drop_last());
    }
}

/// A failure backs off for longer the oftener it comes: half a minute the first time, twice
/// as long each further time, and ten minutes at the most; longer only where the server asks
/// for it. A delay that it asks for is kept, up to the time that a measurement is trusted,
/// and a refusal without one waits five minutes at least.
pub proof fn law_backoff_doubles(n: u32, asked: Option<i64>, refused: bool, r: i64, next: i64)
    requires
        1 <= n < u32::MAX,
        call_ensures(failure_backoff_s, (n, asked, refused), r),
        call_ensures(failure_backoff_s, ((n + 1) as u32, None, false), next),
    ensures
        n == 1 && asked is None ==> r == 30_000_000,
        asked is None ==> next == if 2 * r < 600_000_000 {
            2 * r
        } else {
            600_000_000
        },
        asked is Some && asked->0 > 0 && !refused && asked->0 <= 3_600_000_000 ==> r >= asked->0,
        asked is Some && asked->0 > 0 && refused && asked->0 <= 3_600_000_000 ==> r >= asked->0,
        asked is Some && asked->0 > 600_000_000 && refused && asked->0 <= 3_600_000_000 ==> r
            >= asked->0 + 900_000_000,
        asked == Some(0i64) && refused ==> r >= 300_000_000,
        r >= 30_000_000,
{
    crate::usage_store::law_backoff_is_bounded(n, asked, refused);
    lemma_curve_doubles(n);
    if n == 1 {
        assert(crate::usage_store::doubled(0) == 1);
    }
}

proof fn lemma_curve_doubles(n: u32)
    requires
        1 <= n < u32::MAX,
    ensures
        crate::usage_store::curve((n + 1) as u32) == if 2 * crate::usage_store::curve(n)
            < 600_000_000 {
            2 * crate::usage_store::curve(n)
        } else {
            600_000_000
        },
{
    let a = n - 1;
    if a < 32 {
        assert(crate::usage_store::doubled((a + 1) as nat) == 2 * crate::usage_store::doubled(
            a as nat,
        ));
        lemma_doubled_is_large(32);
    } else {
        lemma_doubled_is_large(32);
    }
}

proof fn lemma_doubled_is_large(n: nat)
    ensures
        crate::usage_store::doubled(n) >= n + 1,
        n >= 5 ==> crate::usage_store::doubled(n) >= 32,
    decreases n,
{
    if n > 0 {
        lemma_doubled_is_large((n - 1) as nat);
        if n == 5 {
            reveal_with_fuel(crate::usage_store::doubled, 6);
        }
    }
}

/// A kind of failure condemns a login exactly where the token was rejected, or there is none
/// to renew it with.
pub proof fn law_what_condemns_a_login(kind: &str, r: bool)
    requires
        call_ensures(is_permanent_auth_error, (kind,), r),
    ensures
        r <==> kind@ == "invalid_grant"@ || kind@ == "no_refresh_token"@,
{
}

/// The account that is polled next has no strike, no running backoff, and a plan that is due
/// or too far ahead to be one. None that may be polled was measured longer ago, and one that
/// was never measured comes before every one that was.
pub proof fn law_the_stalest_is_polled_first(
    candidates: &Vec<String>,
    entries: &Table<Entry>,
    now: i64,
    r: Option<String>,
    i: int,
)
    requires
        entries.wf(),
        call_ensures(due_candidate, (candidates, entries, now), r),
        0 <= i < candidates@.len(),
    ensures
        ({
            let known = entries@.contains_key(candidates@[i]@);
            let e = entries@[candidates@[i]@];
            let open = !known || (e.auth_dead_strikes == 0 && (e.backoff_until is None
                || e.backoff_until->0 <= now) && (e.next_poll_at is None || e.next_poll_at->0
                <= now));
            &&& open ==> r is Some
            &&& open && !known ==> !(entries@.contains_key(r->0@) && entries@[r->0@].fetched_at
                is Some)
            &&& open && known && e.fetched_at is None ==> !(entries@.contains_key(r->0@)
                && entries@[r->0@].fetched_at is Some)
            &&& open && known && e.fetched_at is Some ==> !(entries@.contains_key(r->0@)
                && entries@[r->0@].fetched_at is Some && entries@[r->0@].fetched_at->0
                > e.fetched_at->0)
        }),
        r is Some && entries@.contains_key(r->0@) ==> entries@[r->0@].auth_dead_strikes == 0 && (
        entries@[r->0@].backoff_until is None || entries@[r->0@].backoff_until->0 <= now),
{
    let keys = texts(candidates@);
    let k = candidates@[i]@;
    assert(keys[i] == k);
    let e = entries@[k];
    if !entries@.contains_key(k) || (e.auth_dead_strikes == 0 && (e.backoff_until is None
        || e.backoff_until->0 <= now) && (e.next_poll_at is None || e.next_poll_at->0 <= now)) {
        assert(crate::usage_store::is_due(crate::usage_store::entry_at(entries@, keys[i]), now));
        if r is Some {
            assert(!crate::usage_store::polled_before(
                crate::usage_store::measured_at(crate::usage_store::entry_at(entries@, keys[i])),
                keys[i],
                crate::usage_store::measured_at(crate::usage_store::entry_at(entries@, r->0@)),
                r->0@,
            ));
        }
    }
}

/// A slot counts as healthy exactly where it is one of the accounts' and no window that
/// counts, of the measurement that decisions run on, has reached the threshold; one of which
/// nothing is known does.
pub proof fn law_healthy_is_below_the_threshold(
    provider: &str,
    accounts: &Vec<AccountView>,
    entries: &Table<Entry>,
    models: &Vec<String>,
    threshold: i64,
    r: Vec<u32>,
    n: u32,
)
    requires
        entries.wf(),
        call_ensures(healthy_slots, (provider, accounts, entries, models, threshold), r),
    ensures
        r@.contains(n) <==> (exists|i: int|
            0 <= i < accounts@.len() && (#[trigger] accounts@[i]).slot == n) && forall|w: Window|
            #[trigger] gating(
                trusted_windows(
                    entry_or_blank(entries@, crate::slots::slot_key_text(provider@, n)),
                ),
                models@,
            ).contains(w) ==> w.pct < threshold,
{
    crate::rotation_laws::lemma_healthy_among(
        provider@,
        accounts@,
        entries@,
        models@,
        threshold,
        n,
    );
    let list = gating(
        trusted_windows(entry_or_blank(entries@, crate::slots::slot_key_text(provider@, n))),
        models@,
    );
    law_peak_is_the_maximum(list);
    assert forall|w: Window| #[trigger] list.contains(w) implies w.pct <= peak(list)->0 by {
        let i = choose|i: int| 0 <= i < list.len() && list[i] == w;
        assert(list[i].pct <= peak(list)->0);
    }
    if list.len() > 0 {
        let i = choose|i: int| 0 <= i < list.len() && #[trigger] list[i].pct == peak(list)->0;
        assert(list.contains(list[i]));
    }
}

/// The windows that a decision runs on are those of a trusted measurement, and none where
/// there is no such.
pub proof fn law_trusted_windows_are_the_measured(e: &Entry, r: Option<&Vec<Window>>)
    requires
        call_ensures(Entry::decision_windows, (e,), r),
    ensures
        r is Some ==> trusted_windows(*e) == r->0@,
        r is None ==> trusted_windows(*e).len() == 0,
        r is Some <==> e.last_good is Some && e.age_s is Some && (e.age_s->0 <= 300_000_000
            || e.trust_extended),
{
}

proof fn lemma_first_back(
    states: Seq<SlotState>,
    entries: Map<Seq<char>, Entry>,
    models: Seq<String>,
)
    ensures
        forall|i: int|
            0 <= i < states.len() && comes_back(#[trigger] states[i], entries, models) is Some
                ==> first_back(states, entries, models) is Some && first_back(
                states,
                entries,
                models,
            ).unwrap().0 <= comes_back(states[i], entries, models)->0,
        first_back(states, entries, models) is Some ==> exists|i: int|
            0 <= i < states.len() && (#[trigger] states[i]).slot == first_back(
                states,
                entries,
                models,
            ).unwrap().1 && comes_back(states[i], entries, models) == Some(
                first_back(states, entries, models).unwrap().0,
            ),
    decreases states.len(),
{
    if states.len() > 0 {
        let rest = states.drop_last();
        lemma_first_back(rest, entries, models);
        let best = first_back(states, entries, models);
        assert forall|i: int|
            0 <= i < states.len() && comes_back(
                #[trigger] states[i],
                entries,
                models,
            ) is Some implies best is Some && best.unwrap().0 <= comes_back(
            states[i],
            entries,
            models,
        )->0 by {
            if i < rest.len() {
                assert(rest[i] == states[i]);
            }
        }
        if best is Some {
            if best == first_back(rest, entries, models) {
                let i = choose|i: int|
                    0 <= i < rest.len() && (#[trigger] rest[i]).slot == best.unwrap().1 && comes_back(
                        rest[i],
                        entries,
                        models,
                    ) == Some(best.unwrap().0);
                assert(states[i] == rest[i]);
            } else {
                assert(states[states.len() - 1].slot == best.unwrap().1);
            }
        }
    }
}

/// The next recovery is of an account that is not held and has a login that can be used, and
/// that is full; no such account comes back before it.
pub proof fn law_the_next_recovery_is_the_first(
    states: Seq<SlotState>,
    entries: Map<Seq<char>, Entry>,
    models: Seq<String>,
    i: int,
    w: Window,
)
    requires
        0 <= i < states.len(),
        !states[i].meta.disabled,
        states[i].sentinel is None || states[i].sentinel->0 is Okay || states[i].sentinel->0
            is Stale || states[i].sentinel->0 is TokenExpired,
        gating(trusted_windows(entry_or_blank(entries, states[i].key@)), models).contains(w),
        w.pct >= 100_000_000,
        window_reset(w) is Some,
        forall|x: Window| #[trigger]
            gating(trusted_windows(entry_or_blank(entries, states[i].key@)), models).contains(x)
                && x.pct >= 100_000_000 && window_reset(x) is Some ==> window_reset(x)->0
                <= window_reset(w)->0,
    ensures
        first_back(states, entries, models) is Some,
        first_back(states, entries, models).unwrap().0 <= window_reset(w)->0,
        exists|j: int|
            0 <= j < states.len() && (#[trigger] states[j]).slot == first_back(
                states,
                entries,
                models,
            ).unwrap().1 && !states[j].meta.disabled && !(states[j].sentinel is Some && (
            states[j].sentinel->0 is NoCredentials || states[j].sentinel->0 is ApiKey
                || states[j].sentinel->0 is ReloginRequired || states[j].sentinel->0
                is Unsupported)),
{
    let list = gating(trusted_windows(entry_or_blank(entries, states[i].key@)), models);
    lemma_latest_full(list);
    let k = choose|k: int| 0 <= k < list.len() && list[k] == w;
    assert(list[k] == w);
    let m = choose|m: int|
        0 <= m < list.len() && (#[trigger] list[m]).pct >= 100_000_000 && window_reset(list[m])
            == latest_full_reset(list);
    assert(list.contains(list[m]));
    lemma_gating_of_nothing(models);
    assert(comes_back(states[i], entries, models) == window_reset(w));
    lemma_first_back(states, entries, models);
    let j = choose|j: int|
        0 <= j < states.len() && (#[trigger] states[j]).slot == first_back(
            states,
            entries,
            models,
        ).unwrap().1 && comes_back(states[j], entries, models) == Some(
            first_back(states, entries, models).unwrap().0,
        );
    assert(states[j].slot == states[j].slot);
}

proof fn lemma_gating_of_nothing(models: Seq<String>)
    ensures
        gating(Seq::<Window>::empty(), models).len() == 0,
{
    let keep = |x: Window|
        crate::gating::gates(
            x,
            has_account_wide(Seq::<Window>::empty()),
            crate::gating::wanted(models),
        );
    Seq::<Window>::empty().lemma_filter_len(keep);
}

/// The weekly reset of an account is that of its first seven-day window, where it lies
/// ahead of now.
pub proof fn law_the_weekly_reset_of_an_account(
    windows: &Vec<Window>,
    now: i64,
    r: Option<i64>,
    i: int,
)
    requires
        call_ensures(crate::auto_rank::seven_day_reset_ts, (windows, now), r),
    ensures
        0 <= i < windows@.len() && windows@[i].kind is SevenDay && (forall|k: int|
            0 <= k < i ==> !((#[trigger] windows@[k]).kind is SevenDay)) ==> r == (match window_reset(
            windows@[i],
        ) {
            Some(t) => if t > now {
                Some(t)
            } else {
                None
            },
            None => None,
        }),
        (forall|k: int| 0 <= k < windows@.len() ==> !((#[trigger] windows@[k]).kind is SevenDay))
            ==> r is None,
{
    lemma_first_seven_day(windows@, i);
}

proof fn lemma_first_seven_day(windows: Seq<Window>, i: int)
    ensures
        0 <= i < windows.len() && windows[i].kind is SevenDay && (forall|k: int|
            0 <= k < i ==> !((#[trigger] windows[k]).kind is SevenDay))
            ==> crate::auto_rank::first_seven_day(windows) == window_reset(windows[i]),
        (forall|k: int| 0 <= k < windows.len() ==> !((#[trigger] windows[k]).kind is SevenDay))
            ==> crate::auto_rank::first_seven_day(windows) is None,
    decreases windows.len(),
{
    if windows.len() > 0 {
        let rest = windows.drop_first();
        lemma_first_seven_day(rest, i - 1);
        assert forall|k: int| 0 <= k < rest.len() implies #[trigger] rest[k] == windows[k + 1] by {}
        if i > 0 && forall|k: int| 0 <= k < i ==> !((#[trigger] windows[k]).kind is SevenDay) {
            assert(!(windows[0].kind is SevenDay));
            assert forall|k: int| 0 <= k < i - 1 && k < rest.len() implies !((
            #[trigger] rest[k]).kind is SevenDay) by {
                assert(!(windows[k + 1].kind is SevenDay));
            }
        }
        if forall|k: int| 0 <= k < windows.len() ==> !((#[trigger] windows[k]).kind is SevenDay) {
            assert(!(windows[0].kind is SevenDay));
            assert forall|k: int| 0 <= k < rest.len() implies !((#[trigger] rest[k]).kind
                is SevenDay) by {
                assert(!(windows[k + 1].kind is SevenDay));
            }
        }
    }
}

} // verus!
