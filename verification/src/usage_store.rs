//! Per-account usage table: last-known-good measurements, fetch and backoff
//! state.
//!
//! One failed round trip never blanks an account: a failure updates the error
//! and backoff fields and leaves the last-good measurement alone. The table is
//! shared by the on-demand surfaces and the scheduled collector, so each learns
//! from the other's fetches.
//!
//! A caller claims a row under the table's lock, fetches with no lock held, and
//! merges the outcome under the lock again, fenced by the claim. A bounded lease
//! lets a concurrent collector skip an account that is being fetched, and a
//! crashed claimer's lease ages out. Rows hold windows and instants only.

use vstd::prelude::*;
use vstd::string::*;

use crate::contract::{copy_windows, Window, WindowKind};
use crate::gating::{gating, relevant};
use crate::poll_policy::{
    plan_after_fetch, window_reset, PlanInput, EDGE_BACKOFF_S, EXHAUSTED_INTERVAL_S,
    RECENT_429_WINDOW_S, RESET_SLACK_S, SERVE_TTL_S,
};
use crate::table::{before, comes_before, Table};
use crate::text::{
    borrow_opt, copy_opt, decimal, hex, hex_bound, law_hex_is_injective, opt_is, opt_str, opt_text,
    same, show, show_hex, texts,
};
use crate::timefmt::{format_ts, parse_reset_ts, rfc3339_text, whole_seconds};
use crate::units::{at_least, at_most, clip, clipped, gap, greater, later, lesser};

verus! {

/// The version of the stored table; a file at any other is read as empty.
pub const SCHEMA_VERSION: u32 = 2;

/// Trusted for switch decisions up to this age.
pub const STALE_OK_S: i64 = 300_000_000;

/// How long a claim on a row lasts.
pub const CLAIM_TTL_S: i64 = 90_000_000;

/// Deliberate staleness extends trust up to this age and no further.
pub const TRUST_MAX_AGE_S: i64 = 3_600_000_000;

/// Ceiling of the trust in data that is stale for a refusal and names no reset.
pub const RATE_LIMIT_TRUST_MAX_AGE_S: i64 = 7_200_000_000;

/// The first failure backoff when the server asked for none; it doubles with
/// each further failure.
pub const BACKOFF_BASE_S: i64 = 30_000_000;

/// Ceiling of that doubling.
pub const BACKOFF_CAP_S: i64 = 600_000_000;

/// The greatest number of doublings.
pub const BACKOFF_MAX_SHIFT: u32 = 32;

/// What is added to an hour-scale delay that the server asked for.
pub const RETRY_AFTER_MARGIN_S: i64 = 900_000_000;

/// Ceiling of the delay and its margin.
pub const RETRY_AFTER_FLOOR_CAP_S: i64 = 4_500_000_000;

/// Strikes before a refresh token counts as dead.
pub const AUTH_DEAD_STRIKES: u32 = 1;

/// A weekly window resets on a fixed slot.
pub const WEEK_S: i64 = 604_800_000_000;

/// Whether a kind of failure proves that the stored credential is permanently
/// unusable.
pub open spec fn permanent(kind: Seq<char>) -> bool {
    kind == "invalid_grant"@ || kind == "no_refresh_token"@
}

/// Whether `kind` proves the stored credential permanently unusable rather than
/// merely throttled, so whether the failure also strikes the token.
pub fn is_permanent_auth_error(kind: &str) -> (r: bool)
    ensures
        r == permanent(kind@),
{
    same(kind, "invalid_grant") || same(kind, "no_refresh_token")
}

/// The windows of an optional measurement.
pub open spec fn measured(o: Option<Vec<Window>>) -> Option<Seq<Window>> {
    match o {
        Some(w) => Some(w@),
        None => None,
    }
}

/// One account's stored row.
#[derive(Debug)]
pub struct Row {
    /// The identity that the measurements belong to.
    pub email: String,
    pub org: String,
    pub last_good: Option<Vec<Window>>,
    /// When `last_good` was measured: written on success only.
    pub fetched_at: Option<i64>,
    pub last_attempt_at: Option<i64>,
    pub consecutive_failures: u32,
    pub last_error: Option<String>,
    pub backoff_until: Option<i64>,
    /// When this token was last refused. A later success does not clear it.
    pub last_429_at: Option<i64>,
    pub next_poll_at: Option<i64>,
    pub interval_s: Option<i64>,
    pub claim_until: Option<i64>,
    pub claim_id: Option<String>,
    /// Consecutive permanent failures.
    pub auth_dead_strikes: u32,
    /// Fingerprint of the credential that the strikes condemned.
    pub dead_fingerprint: Option<String>,
}

/// The row of an account of which nothing is known yet.
pub open spec fn blank_row(email: String, org: String) -> Row {
    Row {
        email,
        org,
        last_good: None,
        fetched_at: None,
        last_attempt_at: None,
        consecutive_failures: 0,
        last_error: None,
        backoff_until: None,
        last_429_at: None,
        next_poll_at: None,
        interval_s: None,
        claim_until: None,
        claim_id: None,
        auth_dead_strikes: 0,
        dead_fingerprint: None,
    }
}

/// Read model of one account's usage state. `age_s` and `trust_extended` are
/// computed when it is taken; everything else mirrors the row.
#[derive(Debug)]
pub struct Entry {
    pub last_good: Option<Vec<Window>>,
    pub fetched_at: Option<i64>,
    /// Age of `last_good`.
    pub age_s: Option<i64>,
    pub last_attempt_at: Option<i64>,
    pub consecutive_failures: u32,
    pub last_error: Option<String>,
    pub backoff_until: Option<i64>,
    pub next_poll_at: Option<i64>,
    pub interval_s: Option<i64>,
    pub last_429_at: Option<i64>,
    pub auth_dead_strikes: u32,
    pub dead_fingerprint: Option<String>,
    /// Staleness past `STALE_OK_S` is trusted while it is deliberate.
    pub trust_extended: bool,
    pub claim_until: Option<i64>,
}

/// The entry of an account of which nothing is known.
pub open spec fn blank_entry() -> Entry {
    Entry {
        last_good: None,
        fetched_at: None,
        age_s: None,
        last_attempt_at: None,
        consecutive_failures: 0,
        last_error: None,
        backoff_until: None,
        next_poll_at: None,
        interval_s: None,
        last_429_at: None,
        auth_dead_strikes: 0,
        dead_fingerprint: None,
        trust_extended: false,
        claim_until: None,
    }
}

impl Default for Entry {
    fn default() -> (r: Entry)
        ensures
            r == blank_entry(),
    {
        Entry {
            last_good: None,
            fetched_at: None,
            age_s: None,
            last_attempt_at: None,
            consecutive_failures: 0,
            last_error: None,
            backoff_until: None,
            next_poll_at: None,
            interval_s: None,
            last_429_at: None,
            auth_dead_strikes: 0,
            dead_fingerprint: None,
            trust_extended: false,
            claim_until: None,
        }
    }
}

/// Whether a lease is still live.
pub open spec fn claim_lives(claim_until: Option<i64>, now: i64) -> bool {
    claim_until matches Some(until) && now < until
}

/// Whether a collector's fetch lease on a row is still live.
pub fn live_claim(claim_until: Option<i64>, now: i64) -> (r: bool)
    ensures
        r == claim_lives(claim_until, now),
{
    match claim_until {
        Some(until) => now < until,
        None => false,
    }
}

/// Whether a measurement of that age is served without a fetch.
pub open spec fn is_fresh(fetched_at: Option<i64>, now: i64) -> bool {
    fetched_at matches Some(f) && now - f <= SERVE_TTL_S
}

/// Whether a failure backoff is running.
pub open spec fn backs_off(backoff_until: Option<i64>, now: i64) -> bool {
    backoff_until matches Some(b) && now < b
}

/// Whether a refusal is recent: within `RECENT_429_WINDOW_S` of it, or of the end
/// of the backoff that it installed.
pub open spec fn refused_recently(
    last_429_at: Option<i64>,
    last_error: Option<Seq<char>>,
    backoff_until: Option<i64>,
    now: i64,
) -> bool {
    match last_429_at {
        Some(stamp) => {
            let anchor = if last_error == Some("http-429"@) {
                match backoff_until {
                    Some(until) => greater(stamp as int, until as int),
                    None => stamp as int,
                }
            } else {
                stamp as int
            };
            now < anchor + RECENT_429_WINDOW_S
        },
        None => false,
    }
}

/// Whether a token was refused recently.
fn recently_refused(
    last_429_at: Option<i64>,
    last_error: &Option<String>,
    backoff_until: Option<i64>,
    now: i64,
) -> (r: bool)
    ensures
        r == refused_recently(last_429_at, opt_text(*last_error), backoff_until, now),
{
    match last_429_at {
        Some(stamp) => {
            let mut anchor: i64 = stamp;
            if opt_is(last_error, "http-429") {
                if let Some(until) = backoff_until {
                    if until > anchor {
                        anchor = until;
                    }
                }
            }
            (now as i128) < anchor as i128 + RECENT_429_WINDOW_S as i128
        },
        None => false,
    }
}

impl Entry {
    /// Whether the stored credential is provably dead. Strikes condemn the
    /// credential that was sent: one with another fingerprint is not condemned.
    pub open spec fn dead(&self, stored_fp: Option<Seq<char>>) -> bool {
        self.auth_dead_strikes >= AUTH_DEAD_STRIKES && !(stored_fp is Some
            && self.dead_fingerprint is Some && stored_fp != opt_text(self.dead_fingerprint))
    }

    /// Whether the measurement is recent enough for decisions.
    pub open spec fn trusted(&self) -> bool {
        self.last_good is Some && (self.age_s matches Some(age) && (age <= STALE_OK_S
            || self.trust_extended))
    }

    /// The windows that decisions run on.
    pub open spec fn decided_on(&self) -> Option<Seq<Window>> {
        if self.trusted() {
            measured(self.last_good)
        } else {
            None
        }
    }

    /// Fresh enough to serve without fetching.
    pub fn fresh(&self, now: i64) -> (r: bool)
        ensures
            r == is_fresh(self.fetched_at, now),
    {
        match self.fetched_at {
            Some(f) => gap(now, f) <= SERVE_TTL_S as i128,
            None => false,
        }
    }

    /// Whether a failure backoff is running.
    pub fn in_backoff(&self, now: i64) -> (r: bool)
        ensures
            r == backs_off(self.backoff_until, now),
    {
        match self.backoff_until {
            Some(b) => now < b,
            None => false,
        }
    }

    /// Whether this token was refused recently enough to keep the wider cadence.
    /// Recency is reckoned from when the backoff of the refusal lifts.
    pub fn recent_429(&self, now: i64) -> (r: bool)
        ensures
            r == refused_recently(
                self.last_429_at,
                opt_text(self.last_error),
                self.backoff_until,
                now,
            ),
    {
        recently_refused(self.last_429_at, &self.last_error, self.backoff_until, now)
    }

    /// Whether another collector's fetch lease is still live.
    pub fn claimed(&self, now: i64) -> (r: bool)
        ensures
            r == claim_lives(self.claim_until, now),
    {
        live_claim(self.claim_until, now)
    }

    /// Whether the stored credential is provably dead.
    pub fn token_dead(&self, stored_fp: Option<&str>) -> (r: bool)
        ensures
            r == self.dead(opt_str(stored_fp)),
    {
        if self.auth_dead_strikes < AUTH_DEAD_STRIKES {
            return false;
        }
        match (stored_fp, &self.dead_fingerprint) {
            (Some(stored), Some(struck)) => same(stored, struck.as_str()),
            _ => true,
        }
    }

    /// The windows that switch decisions run on: the last measurement while it
    /// is recent enough to trust.
    pub fn decision_windows(&self) -> (r: Option<&Vec<Window>>)
        ensures
            r is Some == self.decided_on() is Some,
            r matches Some(w) ==> self.decided_on() == Some(w@) && self.last_good == Some(*w),
    {
        match (&self.last_good, self.age_s) {
            (Some(windows), Some(age)) => if age <= STALE_OK_S || self.trust_extended {
                Some(windows)
            } else {
                None
            },
            _ => None,
        }
    }

    /// A copy of the entry.
    pub fn copy(&self) -> (r: Entry)
        ensures
            r == (Entry { last_good: r.last_good, ..*self }),
            measured(r.last_good) == measured(self.last_good),
    {
        Entry {
            last_good: match &self.last_good {
                Some(w) => Some(copy_windows(w)),
                None => None,
            },
            fetched_at: self.fetched_at,
            age_s: self.age_s,
            last_attempt_at: self.last_attempt_at,
            consecutive_failures: self.consecutive_failures,
            last_error: copy_opt(&self.last_error),
            backoff_until: self.backoff_until,
            next_poll_at: self.next_poll_at,
            interval_s: self.interval_s,
            last_429_at: self.last_429_at,
            auth_dead_strikes: self.auth_dead_strikes,
            dead_fingerprint: copy_opt(&self.dead_fingerprint),
            trust_extended: self.trust_extended,
            claim_until: self.claim_until,
        }
    }
}

/// Whether a deadline lies further ahead than the interval it was planned with
/// allows, at the slowest: eleven tenths of it and the slack.
pub open spec fn oversleeps(next_poll_at: Option<i64>, interval_s: Option<i64>, now: i64) -> bool {
    match next_poll_at {
        Some(next) => {
            let interval = match interval_s {
                Some(i) => greater(i as int, EXHAUSTED_INTERVAL_S as int),
                None => EXHAUSTED_INTERVAL_S as int,
            };
            10 * (next - now - RESET_SLACK_S) > 11 * interval
        },
        None => false,
    }
}

/// Whether a deadline cannot have come from the bounded planner.
pub fn plan_oversleeps_interval(entry: &Entry, now: i64) -> (r: bool)
    ensures
        r == oversleeps(entry.next_poll_at, entry.interval_s, now),
{
    match entry.next_poll_at {
        Some(next) => {
            let interval: i128 = match entry.interval_s {
                Some(i) => at_least(i as i128, EXHAUSTED_INTERVAL_S as i128),
                None => EXHAUSTED_INTERVAL_S as i128,
            };
            10 * (next as i128 - now as i128 - RESET_SLACK_S as i128) > 11 * interval
        },
        None => false,
    }
}

/// Whether an account may be polled: its token is not dead, no backoff is
/// running, and its plan is due or obsolete. One without an entry may.
pub open spec fn is_due(entry: Option<Entry>, now: i64) -> bool {
    match entry {
        Some(e) => !e.dead(None) && !backs_off(e.backoff_until, now) && !(e.next_poll_at matches Some(
            next,
        ) && now < next && !oversleeps(e.next_poll_at, e.interval_s, now)),
        None => true,
    }
}

/// The entry under a key.
pub open spec fn entry_at(entries: Map<Seq<char>, Entry>, key: Seq<char>) -> Option<Entry> {
    if entries.contains_key(key) {
        Some(entries[key])
    } else {
        None
    }
}

/// When an account was last measured.
pub open spec fn measured_at(entry: Option<Entry>) -> Option<i64> {
    match entry {
        Some(e) => e.fetched_at,
        None => None,
    }
}

/// Whether one account is polled before another: the one never measured first,
/// then the one measured longer ago, then by key.
pub open spec fn polled_before(a_at: Option<i64>, a: Seq<char>, b_at: Option<i64>, b: Seq<char>) -> bool {
    match (a_at, b_at) {
        (None, Some(_)) => true,
        (Some(_), None) => false,
        (None, None) => before(a, b),
        (Some(x), Some(y)) => x < y || (x == y && before(a, b)),
    }
}

fn polls_before(a_at: Option<i64>, a: &str, b_at: Option<i64>, b: &str) -> (r: bool)
    ensures
        r == polled_before(a_at, a@, b_at, b@),
{
    match (a_at, b_at) {
        (None, Some(_)) => true,
        (Some(_), None) => false,
        (None, None) => comes_before(a, b),
        (Some(x), Some(y)) => x < y || (x == y && comes_before(a, b)),
    }
}

fn due_now(entry: Option<&Entry>, now: i64) -> (r: bool)
    ensures
        r == is_due(
            match entry {
                Some(e) => Some(*e),
                None => None,
            },
            now,
        ),
{
    match entry {
        Some(e) => {
            if e.token_dead(None) || e.in_backoff(now) {
                return false;
            }
            match e.next_poll_at {
                Some(next) => !(now < next && !plan_oversleeps_interval(e, now)),
                None => true,
            }
        },
        None => true,
    }
}

/// Whether `key` is the due one of some candidates that is polled first.
pub open spec fn is_first_due(
    candidates: Seq<Seq<char>>,
    entries: Map<Seq<char>, Entry>,
    now: i64,
    key: Seq<char>,
) -> bool {
    &&& candidates.contains(key)
    &&& is_due(entry_at(entries, key), now)
    &&& forall|i: int|
        #![trigger candidates[i]]
        0 <= i < candidates.len() && is_due(entry_at(entries, candidates[i]), now)
            ==> !polled_before(
            measured_at(entry_at(entries, candidates[i])),
            candidates[i],
            measured_at(entry_at(entries, key)),
            key,
        )
}

/// Whether none of some candidates is due.
pub open spec fn none_is_due(
    candidates: Seq<Seq<char>>,
    entries: Map<Seq<char>, Entry>,
    now: i64,
) -> bool {
    forall|i: int|
        #![trigger candidates[i]]
        0 <= i < candidates.len() ==> !is_due(entry_at(entries, candidates[i]), now)
}

proof fn lemma_polled_before_transitive(
    a_at: Option<i64>,
    a: Seq<char>,
    b_at: Option<i64>,
    b: Seq<char>,
    c_at: Option<i64>,
    c: Seq<char>,
)
    requires
        polled_before(a_at, a, b_at, b),
        !polled_before(c_at, c, b_at, b),
    ensures
        !polled_before(c_at, c, a_at, a),
{
    if polled_before(c_at, c, a_at, a) && before(a, b) && before(c, a) {
        crate::table::law_before_is_transitive(c, a, b);
    }
}

/// The due candidate with the stalest data, or `None`: one past its planned poll,
/// not in backoff and with a token that is not dead.
pub fn due_candidate(candidates: &Vec<String>, entries: &Table<Entry>, now: i64) -> (r: Option<
    String,
>)
    requires
        entries.wf(),
    ensures
        r matches Some(key) ==> is_first_due(texts(candidates@), entries@, now, key@),
        r is None ==> forall|i: int|
            0 <= i < candidates@.len() ==> !is_due(
                entry_at(entries@, (#[trigger] candidates@[i])@),
                now,
            ),
        r is None ==> none_is_due(texts(candidates@), entries@, now),
{
    let mut best: Option<usize> = None;
    let mut best_at: Option<i64> = None;
    let ghost keys = texts(candidates@);
    let mut i: usize = 0;
    while i < candidates.len()
        invariant
            i <= candidates.len(),
            entries.wf(),
            keys == texts(candidates@),
            best matches Some(b) ==> b < i && best_at == measured_at(
                entry_at(entries@, candidates@[b as int]@),
            ) && is_due(entry_at(entries@, candidates@[b as int]@), now) && (forall|j: int|
                #![trigger keys[j]]
                0 <= j < i && is_due(entry_at(entries@, keys[j]), now) ==> !polled_before(
                    measured_at(entry_at(entries@, keys[j])),
                    keys[j],
                    best_at,
                    candidates@[b as int]@,
                )),
            best is None ==> forall|j: int|
                0 <= j < i ==> !is_due(entry_at(entries@, (#[trigger] candidates@[j])@), now),
        decreases candidates.len() - i,
    {
        let key: &str = candidates[i].as_str();
        let entry: Option<&Entry> = entries.get(key);
        let at: Option<i64> = match entry {
            Some(e) => e.fetched_at,
            None => None,
        };
        if due_now(entry, now) {
            proof {
                crate::table::law_before_is_irreflexive(key@);
            }
            match best {
                Some(b) => {
                    if polls_before(at, key, best_at, candidates[b].as_str()) {
                        proof {
                            let bk = candidates@[b as int]@;
                            assert forall|j: int|
                                #![trigger keys[j]]
                                0 <= j < i + 1 && is_due(
                                    entry_at(entries@, keys[j]),
                                    now,
                                ) implies !polled_before(
                                measured_at(entry_at(entries@, keys[j])),
                                keys[j],
                                at,
                                key@,
                            ) by {
                                if j < i {
                                    lemma_polled_before_transitive(
                                        at,
                                        key@,
                                        best_at,
                                        bk,
                                        measured_at(entry_at(entries@, keys[j])),
                                        keys[j],
                                    );
                                }
                            }
                        }
                        best = Some(i);
                        best_at = at;
                    }
                },
                None => {
                    assert forall|j: int| 0 <= j < i implies !is_due(
                        entry_at(entries@, #[trigger] keys[j]),
                        now,
                    ) by {
                        assert(keys[j] == candidates@[j]@);
                    }
                    best = Some(i);
                    best_at = at;
                },
            }
        }
        i += 1;
    }
    match best {
        Some(b) => {
            assert(keys[b as int] == candidates@[b as int]@);
            Some(candidates[b].clone())
        },
        None => {
            assert forall|j: int|
                #![trigger keys[j]]
                0 <= j < keys.len() implies !is_due(entry_at(entries@, keys[j]), now) by {
                assert(keys[j] == candidates@[j]@);
            }
            None
        },
    }
}

/// The first reset of some windows.
pub open spec fn soonest_reset(windows: Seq<Window>) -> Option<i64>
    decreases windows.len(),
{
    if windows.len() == 0 {
        None
    } else {
        let rest = soonest_reset(windows.drop_last());
        match (window_reset(windows.last()), rest) {
            (Some(t), Some(e)) => if t < e {
                Some(t)
            } else {
                rest
            },
            (Some(t), None) => Some(t),
            (None, _) => rest,
        }
    }
}

/// When the soonest relevant window rolls over: from then on the measurement is
/// obsolete.
pub fn earliest_reset(windows: &Vec<Window>, models: &Vec<String>) -> (r: Option<i64>)
    ensures
        r == soonest_reset(gating(windows@, models@)),
{
    let list: Vec<&Window> = relevant(windows, models);
    let ghost all = gating(windows@, models@);
    let mut soonest: Option<i64> = None;
    let mut i: usize = 0;
    while i < list.len()
        invariant
            i <= list.len(),
            list@.map_values(|w: &Window| *w) == all,
            soonest == soonest_reset(all.take(i as int)),
        decreases list.len() - i,
    {
        proof {
            assert(all.take(i + 1).drop_last() =~= all.take(i as int));
            assert(all[i as int] == *list@[i as int]);
        }
        match (parse_reset_ts(borrow_opt(&list[i].resets_at)), soonest) {
            (Some(t), Some(e)) => {
                if t < e {
                    soonest = Some(t);
                }
            },
            (Some(t), None) => {
                soonest = Some(t);
            },
            (None, _) => {},
        }
        i += 1;
    }
    assert(all.len() == list@.len());
    assert(all.take(all.len() as int) =~= all);
    soonest
}

/// The first instant after `now` that lies whole weeks after `ts`, or `ts` itself
/// where it lies ahead.
pub open spec fn next_weekly(ts: i64, now: i64) -> int {
    if ts > now {
        ts as int
    } else {
        ts + ((now - ts) / WEEK_S as int + 1) * WEEK_S
    }
}

/// A weekly reset that is stepped forward lies ahead, at most a week ahead of now
/// where it had passed, and whole weeks after where it stood.
pub proof fn law_weekly_reset_lies_ahead(ts: i64, now: i64)
    ensures
        next_weekly(ts, now) > now,
        ts <= now ==> next_weekly(ts, now) <= now + WEEK_S,
        (next_weekly(ts, now) - ts) % WEEK_S as int == 0,
{
    if ts <= now {
        let weeks = (now - ts) / WEEK_S as int;
        assert(((weeks + 1) * WEEK_S) % WEEK_S as int == 0) by (nonlinear_arith)
            requires
                WEEK_S == 604_800_000_000,
        ;
    }
}

/// The first 7-day window.
pub open spec fn first_weekly(windows: Seq<Window>, unset: bool) -> Option<int>
    decreases windows.len(),
{
    if windows.len() == 0 {
        None
    } else {
        match first_weekly(windows.drop_last(), unset) {
            Some(i) => Some(i),
            None => {
                let w = windows.last();
                if w.kind is SevenDay && (unset ==> w.resets_at is None) {
                    Some(windows.len() - 1)
                } else {
                    None
                }
            },
        }
    }
}

/// The weekly slot that a previous measurement pins, stepped past `now`.
pub open spec fn weekly_slot(previous: Seq<Window>, now: i64) -> Option<int> {
    match first_weekly(previous, false) {
        Some(i) => match window_reset(previous[i]) {
            Some(t) => Some(next_weekly(t, now)),
            None => None,
        },
        None => None,
    }
}

/// Whether `stored` is `new` with a missing weekly reset filled in from what was
/// measured before.
pub open spec fn carried(
    new: Seq<Window>,
    previous: Seq<Window>,
    now: i64,
    stored: Seq<Window>,
) -> bool {
    match (first_weekly(new, true), weekly_slot(previous, now)) {
        (Some(i), Some(ts)) => {
            &&& stored == new.update(i, stored[i])
            &&& stored[i] == (Window { resets_at: stored[i].resets_at, ..new[i] })
            &&& opt_text(stored[i].resets_at) == rfc3339_text(whole_seconds(clip(ts)))
        },
        _ => stored == new,
    }
}

proof fn lemma_first_weekly(windows: Seq<Window>, unset: bool)
    ensures
        first_weekly(windows, unset) matches Some(i) ==> 0 <= i < windows.len(),
    decreases windows.len(),
{
    if windows.len() > 0 {
        lemma_first_weekly(windows.drop_last(), unset);
    }
}

proof fn lemma_first_weekly_stays(windows: Seq<Window>, unset: bool, n: int)
    requires
        0 <= n <= windows.len(),
        first_weekly(windows.take(n), unset) is Some,
    ensures
        first_weekly(windows, unset) == first_weekly(windows.take(n), unset),
    decreases windows.len() - n,
{
    if n == windows.len() {
        assert(windows.take(n) =~= windows);
    } else {
        assert(windows.take(n + 1).drop_last() =~= windows.take(n));
        lemma_first_weekly_stays(windows, unset, n + 1);
    }
}

fn find_weekly(windows: &Vec<Window>, unset: bool) -> (r: Option<usize>)
    ensures
        r is Some == first_weekly(windows@, unset) is Some,
        r matches Some(i) ==> i < windows@.len() && first_weekly(windows@, unset) == Some(i as int),
{
    let mut i: usize = 0;
    while i < windows.len()
        invariant
            i <= windows.len(),
            first_weekly(windows@.take(i as int), unset) is None,
        decreases windows.len() - i,
    {
        assert(windows@.take(i + 1).drop_last() =~= windows@.take(i as int));
        if windows[i].kind == WindowKind::SevenDay && (!unset || windows[i].resets_at.is_none()) {
            proof {
                lemma_first_weekly_stays(windows@, unset, i + 1);
            }
            return Some(i);
        }
        i += 1;
    }
    assert(windows@.take(windows@.len() as int) =~= windows@);
    None
}

/// Pins a missing weekly `resets_at` from the previous measurement, stepped
/// forward by whole weeks to the first instant after `now`. Only the 7-day window:
/// the 5-hour one rolls from first use.
pub fn carry_weekly_reset(new: &mut Vec<Window>, previous: &Vec<Window>, now: i64)
    ensures
        carried(old(new)@, previous@, now, final(new)@),
        final(new)@.len() == old(new)@.len(),
{
    proof {
        lemma_first_weekly(new@, true);
        lemma_first_weekly(previous@, false);
    }
    let target: usize = match find_weekly(new, true) {
        Some(i) => i,
        None => {
            return;
        },
    };
    let ts: i64 = match find_weekly(previous, false) {
        Some(i) => match parse_reset_ts(borrow_opt(&previous[i].resets_at)) {
            Some(t) => t,
            None => {
                return;
            },
        },
        None => {
            return;
        },
    };
    let next: i128 = if ts > now {
        ts as i128
    } else {
        ts as i128 + (gap(now, ts) / 604_800_000_000 + 1) * 604_800_000_000
    };
    assert(next == next_weekly(ts, now));
    let mut w: Window = new[target].clone();
    w.resets_at = format_ts(clipped(next));
    new.set(target, w);
}

/// Whether a measurement that a refusal froze is still trusted: until the
/// soonest reset, and no longer than `RATE_LIMIT_TRUST_MAX_AGE_S`.
pub open spec fn frozen_trust(
    last_good: Option<Seq<Window>>,
    age_s: Option<i64>,
    now: i64,
    models: Seq<String>,
) -> bool {
    age_s matches Some(age) && age < RATE_LIMIT_TRUST_MAX_AGE_S && (match last_good {
        Some(w) => soonest_reset(gating(w, models)) matches Some(t) ==> now < t,
        None => true,
    })
}

/// Whether a measurement that a refusal froze is still trustworthy.
///
/// Usage rises within a window, so the frozen measurement stays a lower bound
/// until its window resets. The soonest reset counts: once that window rolls over
/// the measurement is obsolete. The age is bounded in any case.
pub fn rate_limited_trust_ok(
    last_good: Option<&Vec<Window>>,
    age_s: Option<i64>,
    now: i64,
    models: &Vec<String>,
) -> (r: bool)
    ensures
        r == frozen_trust(
            match last_good {
                Some(w) => Some(w@),
                None => None,
            },
            age_s,
            now,
            models@,
        ),
{
    let age: i64 = match age_s {
        Some(age) => age,
        None => {
            return false;
        },
    };
    let ceiling: i128 = now as i128 + (RATE_LIMIT_TRUST_MAX_AGE_S as i128 - age as i128);
    let soonest: Option<i64> = match last_good {
        Some(w) => earliest_reset(w, models),
        None => None,
    };
    match soonest {
        Some(t) => (now as i128) < at_most(t as i128, ceiling),
        None => (now as i128) < ceiling,
    }
}

/// The power of two.
pub open spec fn doubled(n: nat) -> int
    decreases n,
{
    if n == 0 {
        1
    } else {
        2 * doubled((n - 1) as nat)
    }
}

/// The backoff by the number of failures alone.
pub open spec fn curve(consecutive_failures: u32) -> int {
    let shift = if consecutive_failures == 0 {
        0
    } else {
        lesser(consecutive_failures - 1, BACKOFF_MAX_SHIFT as int)
    };
    lesser(BACKOFF_BASE_S * doubled(shift as nat), BACKOFF_CAP_S as int)
}

/// How long an account is left alone after a failed fetch.
pub open spec fn backoff(
    consecutive_failures: u32,
    retry_after_s: Option<i64>,
    rate_limited: bool,
) -> int {
    let computed = curve(consecutive_failures);
    match retry_after_s {
        None => computed,
        Some(asked) => if asked == 0 {
            if rate_limited {
                greater(computed, EDGE_BACKOFF_S as int)
            } else {
                computed
            }
        } else {
            let wanted = if asked > BACKOFF_CAP_S && rate_limited {
                asked + RETRY_AFTER_MARGIN_S
            } else {
                asked as int
            };
            let ceiling = if rate_limited {
                RETRY_AFTER_FLOOR_CAP_S as int
            } else {
                TRUST_MAX_AGE_S as int
            };
            greater(lesser(wanted, ceiling), computed)
        },
    }
}

/// A backoff lasts at least as long as the curve says, and at most
/// `RETRY_AFTER_FLOOR_CAP_S`, or `TRUST_MAX_AGE_S` where it was no refusal.
pub proof fn law_backoff_is_bounded(
    consecutive_failures: u32,
    retry_after_s: Option<i64>,
    rate_limited: bool,
)
    ensures
        curve(consecutive_failures) <= backoff(consecutive_failures, retry_after_s, rate_limited),
        backoff(consecutive_failures, retry_after_s, rate_limited) <= if rate_limited {
            RETRY_AFTER_FLOOR_CAP_S
        } else {
            TRUST_MAX_AGE_S
        },
        BACKOFF_BASE_S <= curve(consecutive_failures) <= BACKOFF_CAP_S,
{
    let shift = if consecutive_failures == 0 {
        0
    } else {
        lesser(consecutive_failures - 1, BACKOFF_MAX_SHIFT as int)
    };
    lemma_doubled_positive(shift as nat);
}

proof fn lemma_doubled_positive(n: nat)
    ensures
        doubled(n) >= 1,
    decreases n,
{
    if n > 0 {
        lemma_doubled_positive((n - 1) as nat);
    }
}

/// More failures never shorten the curve.
pub proof fn law_curve_is_monotone(a: u32, b: u32)
    requires
        a <= b,
    ensures
        curve(a) <= curve(b),
{
    let x = if a == 0 {
        0
    } else {
        lesser(a - 1, BACKOFF_MAX_SHIFT as int)
    };
    let y = if b == 0 {
        0
    } else {
        lesser(b - 1, BACKOFF_MAX_SHIFT as int)
    };
    lemma_doubled_monotone(x as nat, y as nat);
}

proof fn lemma_doubled_monotone(a: nat, b: nat)
    requires
        a <= b,
    ensures
        doubled(a) <= doubled(b),
    decreases b,
{
    if a < b {
        lemma_doubled_positive((b - 1) as nat);
        lemma_doubled_monotone(a, (b - 1) as nat);
    }
}

/// How long to stay in backoff after a failed fetch.
///
/// No delay asked: the exponential curve. A delay of zero on a refusal is the
/// edge of a saturated budget: at least `EDGE_BACKOFF_S`; on any other error it
/// says nothing. A positive delay is honored, plus `RETRY_AFTER_MARGIN_S` when it
/// is an hour-scale refusal, and bounded by the ceiling of the trust in the row.
pub fn failure_backoff_s(
    consecutive_failures: u32,
    retry_after_s: Option<i64>,
    rate_limited: bool,
) -> (r: i64)
    ensures
        r == backoff(consecutive_failures, retry_after_s, rate_limited),
{
    let shift: u32 = if consecutive_failures == 0 {
        0
    } else if consecutive_failures - 1 < BACKOFF_MAX_SHIFT {
        consecutive_failures - 1
    } else {
        BACKOFF_MAX_SHIFT
    };
    let mut computed: i64 = BACKOFF_BASE_S;
    let mut n: u32 = 0;
    while n < shift && computed < BACKOFF_CAP_S
        invariant
            n <= shift,
            computed == BACKOFF_BASE_S * doubled(n as nat),
            0 < computed < 2 * BACKOFF_CAP_S,
        decreases shift - n,
    {
        computed = computed * 2;
        n += 1;
    }
    proof {
        lemma_doubled_monotone(n as nat, shift as nat);
    }
    if computed > BACKOFF_CAP_S {
        computed = BACKOFF_CAP_S;
    }
    assert(computed == curve(consecutive_failures));
    proof {
        law_backoff_is_bounded(consecutive_failures, retry_after_s, rate_limited);
    }
    match retry_after_s {
        None => computed,
        Some(asked) => {
            if asked == 0 {
                if rate_limited && computed < EDGE_BACKOFF_S {
                    EDGE_BACKOFF_S
                } else {
                    computed
                }
            } else {
                let wanted: i128 = if asked > BACKOFF_CAP_S && rate_limited {
                    asked as i128 + RETRY_AFTER_MARGIN_S as i128
                } else {
                    asked as i128
                };
                let ceiling: i128 = if rate_limited {
                    RETRY_AFTER_FLOOR_CAP_S as i128
                } else {
                    TRUST_MAX_AGE_S as i128
                };
                at_least(at_most(wanted, ceiling), computed as i128) as i64
            }
        },
    }
}

/// Whether a row may be fetched. Never with a dead token, in a failure backoff or
/// under a live claim. Then, by mode: forced, always; respecting plans, when it is
/// stale and its poll is due or unplanned; else when it is due or stale.
pub open spec fn eligible(row: Row, now: i64, respect_plans: bool, force: bool) -> bool {
    let stale = !is_fresh(row.fetched_at, now);
    let poll_due = row.next_poll_at matches Some(next) && now >= next;
    &&& row.auth_dead_strikes < AUTH_DEAD_STRIKES
    &&& !backs_off(row.backoff_until, now)
    &&& !claim_lives(row.claim_until, now)
    &&& {
        ||| force
        ||| if respect_plans {
            stale && (poll_due || row.next_poll_at is None)
        } else {
            poll_due || stale
        }
    }
}

/// Fetch eligibility of a stored row, evaluated under the table's lock.
pub fn row_eligible(row: &Row, now: i64, respect_plans: bool, force: bool) -> (r: bool)
    ensures
        r == eligible(*row, now, respect_plans, force),
{
    if row.auth_dead_strikes >= AUTH_DEAD_STRIKES {
        return false;
    }
    if let Some(b) = row.backoff_until {
        if now < b {
            return false;
        }
    }
    if live_claim(row.claim_until, now) {
        return false;
    }
    if force {
        return true;
    }
    let stale: bool = match row.fetched_at {
        Some(f) => gap(now, f) > SERVE_TTL_S as i128,
        None => true,
    };
    let poll_due: bool = match row.next_poll_at {
        Some(next) => now >= next,
        None => false,
    };
    if respect_plans {
        return stale && (poll_due || row.next_poll_at.is_none());
    }
    poll_due || stale
}

/// Whether a row belongs to an identity.
pub open spec fn belongs(row: Row, email: Seq<char>, org: Seq<char>) -> bool {
    row.email@ == email && row.org@ == org
}

fn row_matches(row: &Row, email: &str, org: &str) -> (r: bool)
    ensures
        r == belongs(*row, email@, org@),
{
    same(row.email.as_str(), email) && same(row.org.as_str(), org)
}

/// Whether a writer holds the lease of a row.
pub open spec fn holds_lease(row: Row, claim: Seq<char>) -> bool {
    opt_text(row.claim_id) == Some(claim)
}

/// The text of a claim: the process and a random number.
pub open spec fn claim_text(pid: u32, nonce: u64) -> Seq<char> {
    decimal(pid as nat) + "-"@ + hex(nonce as nat, 16)
}

/// The text of a claim.
pub fn claim_id(pid: u32, nonce: u64) -> (r: String)
    ensures
        r@ == claim_text(pid, nonce),
{
    show(pid as u64).concat("-").concat(show_hex(nonce).as_str())
}

/// `rand::random`: any number of 64 bits.
#[verifier::external_body]
pub(crate) fn random_u64() -> u64 {
    rand::random::<u64>()
}

/// A claim that no other process makes, and this one does not make twice but by
/// chance.
pub fn new_claim_id(pid: u32) -> (r: String)
    ensures
        exists|nonce: u64| r@ == #[trigger] claim_text(pid, nonce),
{
    let nonce: u64 = random_u64();
    claim_id(pid, nonce)
}

/// Claims of one process that were drawn with different numbers differ.
pub proof fn law_claims_differ(pid: u32, a: u64, b: u64)
    requires
        a != b,
    ensures
        claim_text(pid, a) != claim_text(pid, b),
{
    if claim_text(pid, a) == claim_text(pid, b) {
        let n = (decimal(pid as nat) + "-"@).len() as int;
        assert(claim_text(pid, a).skip(n) =~= hex(a as nat, 16));
        assert(claim_text(pid, b).skip(n) =~= hex(b as nat, 16));
        assert(hex_bound(16) == 0x1_0000_0000_0000_0000) by {
            reveal_with_fuel(hex_bound, 17);
        }
        law_hex_is_injective(a as nat, b as nat, 16);
    }
}

/// A row as a claim leaves it.
pub open spec fn claimed_row(row: Row, id: String, now: i64) -> Row {
    Row {
        last_attempt_at: Some(now),
        claim_id: Some(id),
        claim_until: Some(clip(now + CLAIM_TTL_S)),
        ..row
    }
}

/// Whether a key may be claimed: its row is eligible, belongs to another account,
/// or is not there.
pub open spec fn claimable(
    rows: Map<Seq<char>, Row>,
    key: (String, String, String),
    respect_plans: bool,
    force: bool,
    now: i64,
) -> bool {
    let k = key.0@;
    rows.contains_key(k) && belongs(rows[k], key.1@, key.2@) ==> eligible(
        rows[k],
        now,
        respect_plans,
        force,
    )
}

/// The row that a claim starts from: the account's own, or a blank one.
pub open spec fn own_row(rows: Map<Seq<char>, Row>, key: (String, String, String)) -> Row {
    if rows.contains_key(key.0@) && belongs(rows[key.0@], key.1@, key.2@) {
        rows[key.0@]
    } else {
        blank_row(key.1, key.2)
    }
}

/// The table after the first `n` keys were claimed where they may be.
pub open spec fn rows_after(
    rows: Map<Seq<char>, Row>,
    keys: Seq<(String, String, String)>,
    ids: Seq<String>,
    respect_plans: bool,
    force: bool,
    now: i64,
    n: int,
) -> Map<Seq<char>, Row>
    decreases n,
{
    if n <= 0 {
        rows
    } else {
        let was = rows_after(rows, keys, ids, respect_plans, force, now, n - 1);
        let key = keys[n - 1];
        if claimable(was, key, respect_plans, force, now) {
            was.insert(key.0@, claimed_row(own_row(was, key), ids[n - 1], now))
        } else {
            was
        }
    }
}

/// The claims that were won on the first `n` keys.
pub open spec fn won_after(
    rows: Map<Seq<char>, Row>,
    keys: Seq<(String, String, String)>,
    ids: Seq<String>,
    respect_plans: bool,
    force: bool,
    now: i64,
    n: int,
) -> Map<Seq<char>, String>
    decreases n,
{
    if n <= 0 {
        Map::empty()
    } else {
        let was = rows_after(rows, keys, ids, respect_plans, force, now, n - 1);
        let won = won_after(rows, keys, ids, respect_plans, force, now, n - 1);
        let key = keys[n - 1];
        if claimable(was, key, respect_plans, force, now) {
            won.insert(key.0@, ids[n - 1])
        } else {
            won
        }
    }
}

/// Whether a reserve with fresh claims of a process leaves a table and wins claims.
pub open spec fn reserves(
    rows: Map<Seq<char>, Row>,
    keys: Seq<(String, String, String)>,
    respect_plans: bool,
    force: bool,
    now: i64,
    pid: u32,
    after: Map<Seq<char>, Row>,
    won: Map<Seq<char>, String>,
) -> bool {
    exists|ids: Seq<String>|
        ids.len() == keys.len() && (forall|i: int|
            0 <= i < ids.len() ==> exists|nonce: u64|
                (#[trigger] ids[i])@ == #[trigger] claim_text(pid, nonce)) && #[trigger] rows_after(
            rows,
            keys,
            ids,
            respect_plans,
            force,
            now,
            keys.len() as int,
        ) == after && won_after(rows, keys, ids, respect_plans, force, now, keys.len() as int) == won
}

/// Whether an entry mirrors a row at `now`.
pub open spec fn mirrors(e: Entry, row: Row, models: Seq<String>, now: i64) -> bool {
    let age: Option<i64> = match row.fetched_at {
        Some(at) => Some(clip(now - at)),
        None => None,
    };
    let within = if opt_text(row.last_error) == Some("http-429"@) {
        frozen_trust(measured(row.last_good), age, now, models)
    } else {
        age matches Some(a) && a <= TRUST_MAX_AGE_S
    };
    &&& measured(e.last_good) == measured(row.last_good)
    &&& e == Entry {
        last_good: e.last_good,
        fetched_at: row.fetched_at,
        age_s: age,
        last_attempt_at: row.last_attempt_at,
        consecutive_failures: row.consecutive_failures,
        last_error: row.last_error,
        backoff_until: row.backoff_until,
        next_poll_at: row.next_poll_at,
        interval_s: row.interval_s,
        last_429_at: row.last_429_at,
        auth_dead_strikes: row.auth_dead_strikes,
        dead_fingerprint: row.dead_fingerprint,
        trust_extended: within && (row.consecutive_failures > 0 || (row.next_poll_at matches Some(
            next,
        ) && now < next) || claim_lives(row.claim_until, now)),
        claim_until: row.claim_until,
    }
}

/// Whether an entry is what an account sees of the table: its own row, or nothing.
pub open spec fn sees(
    rows: Map<Seq<char>, Row>,
    key: (String, String, String),
    models: Seq<String>,
    now: i64,
    e: Entry,
) -> bool {
    if rows.contains_key(key.0@) && belongs(rows[key.0@], key.1@, key.2@) {
        mirrors(e, rows[key.0@], models, now)
    } else {
        e == blank_entry()
    }
}

/// Whether a key is named for the last time at a position.
pub open spec fn last_named(keys: Seq<(String, String, String)>, i: int) -> bool {
    forall|j: int| i < j < keys.len() ==> (#[trigger] keys[j]).0@ != keys[i].0@
}

/// Whether a key is named.
pub open spec fn named(keys: Seq<(String, String, String)>, key: Seq<char>) -> bool {
    exists|i: int| 0 <= i < keys.len() && (#[trigger] keys[i]).0@ == key
}

/// Whether `entries` holds, for each key and no other, what the account that is
/// named last for it sees of the table.
pub open spec fn snapshot_of(
    rows: Map<Seq<char>, Row>,
    keys: Seq<(String, String, String)>,
    models: Seq<String>,
    now: i64,
    entries: Map<Seq<char>, Entry>,
) -> bool {
    &&& forall|k: Seq<char>| #[trigger] entries.contains_key(k) <==> named(keys, k)
    &&& forall|i: int|
        0 <= i < keys.len() && last_named(keys, i) ==> sees(
            rows,
            #[trigger] keys[i],
            models,
            now,
            entries[keys[i].0@],
        )
}

proof fn lemma_snapshot_grows(
    rows: Map<Seq<char>, Row>,
    keys: Seq<(String, String, String)>,
    key: (String, String, String),
    models: Seq<String>,
    now: i64,
    entries: Map<Seq<char>, Entry>,
    e: Entry,
)
    requires
        snapshot_of(rows, keys, models, now, entries),
        sees(rows, key, models, now, e),
    ensures
        snapshot_of(rows, keys.push(key), models, now, entries.insert(key.0@, e)),
{
    let grown = keys.push(key);
    let out = entries.insert(key.0@, e);
    assert forall|k: Seq<char>| #[trigger] out.contains_key(k) <==> named(grown, k) by {
        if k == key.0@ {
            assert(grown[keys.len() as int].0@ == k);
        } else {
            if named(keys, k) {
                let i = choose|i: int| 0 <= i < keys.len() && (#[trigger] keys[i]).0@ == k;
                assert(grown[i].0@ == k);
            }
            if named(grown, k) {
                let i = choose|i: int| 0 <= i < grown.len() && (#[trigger] grown[i]).0@ == k;
                assert(keys[i].0@ == k);
            }
            assert(out.contains_key(k) == entries.contains_key(k));
        }
    }
    assert forall|i: int| 0 <= i < grown.len() && last_named(grown, i) implies sees(
        rows,
        #[trigger] grown[i],
        models,
        now,
        out[grown[i].0@],
    ) by {
        if i < keys.len() {
            assert(grown[keys.len() as int].0@ != grown[i].0@);
            assert forall|j: int| i < j < keys.len() implies (#[trigger] keys[j]).0@
                != keys[i].0@ by {
                assert(grown[j].0@ != grown[i].0@);
            }
            assert(last_named(keys, i));
            assert(grown[i] == keys[i]);
        }
    }
}

/// Whether a row is what a success makes of another.
pub open spec fn succeeded(
    old_row: Row,
    new_row: Row,
    windows: Vec<Window>,
    plan: PlanInput,
    roll: u32,
    now: i64,
) -> bool {
    let previous = match old_row.last_good {
        Some(w) => w@,
        None => Seq::<Window>::empty(),
    };
    let stored = match new_row.last_good {
        Some(w) => w@,
        None => Seq::<Window>::empty(),
    };
    &&& carried(windows@, previous, now, stored)
    &&& new_row.last_good is Some <==> windows@.len() > 0
    &&& new_row == Row {
        last_good: new_row.last_good,
        fetched_at: Some(now),
        last_attempt_at: Some(now),
        next_poll_at: Some(clip(plan.next_poll(roll as int))),
        interval_s: Some(clip(plan.interval())),
        consecutive_failures: 0,
        last_error: None,
        backoff_until: None,
        auth_dead_strikes: 0,
        claim_id: None,
        claim_until: None,
        ..old_row
    }
}

/// A row as a failure leaves it.
pub open spec fn failed_row(
    row: Row,
    kind: String,
    retry_after: Option<i64>,
    struck_fp: Option<String>,
    now: i64,
) -> Row {
    let rate_limited = kind@ == "http-429"@;
    let failures = (row.consecutive_failures + 1) as u32;
    Row {
        consecutive_failures: failures,
        last_error: Some(kind),
        last_attempt_at: Some(now),
        last_429_at: if rate_limited {
            Some(now)
        } else {
            row.last_429_at
        },
        backoff_until: Some(clip(now + backoff(failures, retry_after, rate_limited))),
        auth_dead_strikes: if permanent(kind@) {
            (row.auth_dead_strikes + 1) as u32
        } else {
            row.auth_dead_strikes
        },
        dead_fingerprint: if permanent(kind@) {
            struck_fp
        } else {
            row.dead_fingerprint
        },
        claim_id: None,
        claim_until: None,
        ..row
    }
}

/// A row as lifting the quarantine leaves it.
pub open spec fn healed_row(row: Row) -> Row {
    Row {
        auth_dead_strikes: 0,
        dead_fingerprint: None,
        consecutive_failures: 0,
        last_error: None,
        backoff_until: None,
        claim_id: None,
        claim_until: None,
        ..row
    }
}

/// The usage table.
#[derive(Debug)]
pub struct UsageStore {
    pub rows: Table<Row>,
}

impl UsageStore {
    /// The keys of the table are well-formed.
    pub open spec fn wf(&self) -> bool {
        self.rows.wf()
    }

    /// The table that a file holds: empty at another schema version.
    pub fn from_file(schema_version: u32, rows: Table<Row>) -> (r: UsageStore)
        requires
            rows.wf(),
        ensures
            r.wf(),
            schema_version == SCHEMA_VERSION ==> r.rows == rows,
            schema_version != SCHEMA_VERSION ==> r.rows@ == Map::<Seq<char>, Row>::empty(),
    {
        if schema_version != SCHEMA_VERSION {
            return UsageStore { rows: Table::new() };
        }
        UsageStore { rows }
    }

    /// What one account sees of the table.
    pub fn entry(&self, key: &(String, String, String), models: &Vec<String>, now: i64) -> (r:
        Entry)
        requires
            self.wf(),
        ensures
            sees(self.rows@, *key, models@, now, r),
    {
        match self.rows.get(key.0.as_str()) {
            Some(row) => {
                if !row_matches(row, key.1.as_str(), key.2.as_str()) {
                    return Entry::default();
                }
                let age_s: Option<i64> = match row.fetched_at {
                    Some(at) => Some(clipped(gap(now, at))),
                    None => None,
                };
                let within_ceiling: bool = if opt_is(&row.last_error, "http-429") {
                    rate_limited_trust_ok(row.last_good.as_ref(), age_s, now, models)
                } else {
                    match age_s {
                        Some(age) => age <= TRUST_MAX_AGE_S,
                        None => false,
                    }
                };
                let planned: bool = match row.next_poll_at {
                    Some(next) => now < next,
                    None => false,
                };
                Entry {
                    last_good: match &row.last_good {
                        Some(w) => Some(copy_windows(w)),
                        None => None,
                    },
                    fetched_at: row.fetched_at,
                    age_s,
                    last_attempt_at: row.last_attempt_at,
                    consecutive_failures: row.consecutive_failures,
                    last_error: copy_opt(&row.last_error),
                    backoff_until: row.backoff_until,
                    next_poll_at: row.next_poll_at,
                    interval_s: row.interval_s,
                    last_429_at: row.last_429_at,
                    auth_dead_strikes: row.auth_dead_strikes,
                    dead_fingerprint: copy_opt(&row.dead_fingerprint),
                    trust_extended: within_ceiling && (row.consecutive_failures > 0 || planned
                        || live_claim(row.claim_until, now)),
                    claim_until: row.claim_until,
                }
            },
            None => Entry::default(),
        }
    }

    /// Identity-guarded snapshot for `keys`, of `(key, email, org)`: an empty entry
    /// where the row is missing or belongs to a different account, so a slot that
    /// is reused never serves the previous account's usage. Of a key named twice
    /// the last naming counts.
    pub fn entries(
        &self,
        keys: &Vec<(String, String, String)>,
        models: &Vec<String>,
        now: i64,
    ) -> (r: Table<Entry>)
        requires
            self.wf(),
        ensures
            r.wf(),
            snapshot_of(self.rows@, keys@, models@, now, r@),
    {
        let mut out: Table<Entry> = Table::new();
        let mut n: usize = 0;
        assert(keys@.take(0) =~= Seq::empty());
        while n < keys.len()
            invariant
                n <= keys.len(),
                self.wf(),
                out.wf(),
                snapshot_of(self.rows@, keys@.take(n as int), models@, now, out@),
            decreases keys.len() - n,
        {
            let e: Entry = self.entry(&keys[n], models, now);
            proof {
                assert(keys@.take(n + 1) =~= keys@.take(n as int).push(keys@[n as int]));
                lemma_snapshot_grows(
                    self.rows@,
                    keys@.take(n as int),
                    keys@[n as int],
                    models@,
                    now,
                    out@,
                    e,
                );
            }
            out.insert(keys[n].0.clone(), e);
            n += 1;
        }
        assert(keys@.take(keys@.len() as int) =~= keys@);
        out
    }

    /// Claims, with the given claims, those of `keys` that may be fetched: the
    /// check and the lease are one step, so that two collectors never both fetch.
    /// `force` ignores freshness and the plan, and still honors the failure
    /// backoff, a live claim and the dead-token quarantine. A row for another
    /// identity is replaced. Returns the claims that were won, by key.
    pub fn reserve_with(
        &mut self,
        keys: &Vec<(String, String, String)>,
        respect_plans: bool,
        force: bool,
        now: i64,
        ids: &Vec<String>,
    ) -> (won: Table<String>)
        requires
            old(self).wf(),
            ids@.len() == keys@.len(),
        ensures
            final(self).wf(),
            final(self).rows@ == rows_after(
                old(self).rows@,
                keys@,
                ids@,
                respect_plans,
                force,
                now,
                keys@.len() as int,
            ),
            won.wf(),
            won@ == won_after(
                old(self).rows@,
                keys@,
                ids@,
                respect_plans,
                force,
                now,
                keys@.len() as int,
            ),
    {
        let ghost rows0 = self.rows@;
        let mut won: Table<String> = Table::new();
        let mut n: usize = 0;
        while n < keys.len()
            invariant
                n <= keys.len(),
                ids@.len() == keys@.len(),
                self.wf(),
                won.wf(),
                self.rows@ == rows_after(rows0, keys@, ids@, respect_plans, force, now, n as int),
                won@ == won_after(rows0, keys@, ids@, respect_plans, force, now, n as int),
            decreases keys.len() - n,
        {
            let key: &str = keys[n].0.as_str();
            let ghost was = self.rows@;
            let may: bool = match self.rows.get(key) {
                Some(row) => !row_matches(row, keys[n].1.as_str(), keys[n].2.as_str())
                    || row_eligible(row, now, respect_plans, force),
                None => true,
            };
            if may {
                let mut row: Row = Row {
                    email: keys[n].1.clone(),
                    org: keys[n].2.clone(),
                    last_good: None,
                    fetched_at: None,
                    last_attempt_at: None,
                    consecutive_failures: 0,
                    last_error: None,
                    backoff_until: None,
                    last_429_at: None,
                    next_poll_at: None,
                    interval_s: None,
                    claim_until: None,
                    claim_id: None,
                    auth_dead_strikes: 0,
                    dead_fingerprint: None,
                };
                if let Some(stored) = self.rows.remove(key) {
                    if row_matches(&stored, keys[n].1.as_str(), keys[n].2.as_str()) {
                        row = stored;
                    }
                }
                row.last_attempt_at = Some(now);
                row.claim_id = Some(ids[n].clone());
                row.claim_until = Some(later(now, CLAIM_TTL_S));
                self.rows.insert(keys[n].0.clone(), row);
                won.insert(keys[n].0.clone(), ids[n].clone());
                proof {
                    let k = keys@[n as int].0@;
                    assert(was.remove(k).insert(k, row) =~= was.insert(k, row));
                }
            }
            n += 1;
        }
        won
    }

    /// Claims, with fresh claims of process `pid`, those of `keys` that may be
    /// fetched.
    pub fn reserve(
        &mut self,
        keys: &Vec<(String, String, String)>,
        respect_plans: bool,
        force: bool,
        now: i64,
        pid: u32,
    ) -> (won: Table<String>)
        requires
            old(self).wf(),
        ensures
            final(self).wf(),
            won.wf(),
            reserves(
                old(self).rows@,
                keys@,
                respect_plans,
                force,
                now,
                pid,
                final(self).rows@,
                won@,
            ),
    {
        let mut ids: Vec<String> = Vec::new();
        let mut i: usize = 0;
        while i < keys.len()
            invariant
                i <= keys.len(),
                ids@.len() == i,
                forall|j: int|
                    0 <= j < ids@.len() ==> exists|nonce: u64|
                        (#[trigger] ids@[j])@ == #[trigger] claim_text(pid, nonce),
            decreases keys.len() - i,
        {
            ids.push(new_claim_id(pid));
            i += 1;
        }
        self.reserve_with(keys, respect_plans, force, now, &ids)
    }

    /// Merges a successful fetch, fenced by the lease that produced it: a late
    /// writer whose lease was replaced changes nothing.
    ///
    /// Writes the measurement, the new plan and clears the error, the backoff and
    /// the strikes: a success proves the token alive. No window at all clears the
    /// stored measurement. The stamp of the last refusal survives.
    pub fn record_success(
        &mut self,
        key: &str,
        claim: &str,
        windows: Vec<Window>,
        is_active: bool,
        threshold: i64,
        models: &Vec<String>,
        now: i64,
        roll: u32,
    )
        requires
            old(self).wf(),
        ensures
            final(self).wf(),
            ({
                let rows = old(self).rows@;
                if rows.contains_key(key@) && holds_lease(rows[key@], claim@) {
                    let row = rows[key@];
                    &&& final(self).rows@ == rows.insert(key@, final(self).rows@[key@])
                    &&& exists|prev: Vec<Window>|
                        prev@ == (match row.last_good {
                            Some(w) => w@,
                            None => Seq::<Window>::empty(),
                        }) && #[trigger] succeeded(
                            row,
                            final(self).rows@[key@],
                            windows,
                            PlanInput {
                                prev_interval_s: row.interval_s,
                                prev: Some(&prev),
                                new: &windows,
                                is_active,
                                threshold,
                                models,
                                recent_429: refused_recently(
                                    row.last_429_at,
                                    opt_text(row.last_error),
                                    row.backoff_until,
                                    now,
                                ),
                                now,
                            },
                            roll,
                            now,
                        )
                } else {
                    *final(self) == *old(self)
                }
            }),
    {
        let held: bool = match self.rows.get(key) {
            Some(row) => opt_is(&row.claim_id, claim),
            None => false,
        };
        if !held {
            return;
        }
        let ghost rows = self.rows@;
        if let Some(mut row) = self.rows.remove(key) {
            let ghost was = row;
            let previous: Vec<Window> = match row.last_good {
                Some(w) => w,
                None => Vec::new(),
            };
            let recent_429: bool = recently_refused(
                row.last_429_at,
                &row.last_error,
                row.backoff_until,
                now,
            );
            let plan: PlanInput = PlanInput {
                prev_interval_s: row.interval_s,
                prev: Some(&previous),
                new: &windows,
                is_active,
                threshold,
                models,
                recent_429,
                now,
            };
            let ghost input = plan;
            let (next_poll_at, interval_s): (i64, i64) = plan_after_fetch(plan, roll);
            let mut stored: Vec<Window> = copy_windows(&windows);
            carry_weekly_reset(&mut stored, &previous, now);
            let ghost kept = stored@;
            row.last_good = if stored.len() == 0 {
                None
            } else {
                Some(stored)
            };
            row.fetched_at = Some(now);
            row.last_attempt_at = Some(now);
            row.next_poll_at = Some(next_poll_at);
            row.interval_s = Some(interval_s);
            row.consecutive_failures = 0;
            row.last_error = None;
            row.backoff_until = None;
            row.auth_dead_strikes = 0;
            row.claim_id = None;
            row.claim_until = None;
            proof {
                assert(kept.len() == windows@.len());
                assert(kept.len() == 0 ==> kept =~= Seq::<Window>::empty());
                assert(succeeded(was, row, windows, input, roll, now));
            }
            self.rows.insert(key.to_owned(), row);
            proof {
                assert(rows.remove(key@).insert(key@, row) =~= rows.insert(key@, row));
                assert(self.rows@[key@] == row);
            }
        }
    }

    /// Merges a failed fetch, fenced by its lease. Never touches the measurement,
    /// so that a failing account keeps it while its trust ages out.
    ///
    /// `kind` is the classified error and `retry_after` the delay that the server
    /// asked for. A permanent error also strikes the credential that `struck_fp`
    /// was taken from; a transient one is no evidence that the token is alive or
    /// dead.
    pub fn record_failure(
        &mut self,
        key: &str,
        claim: &str,
        kind: String,
        retry_after: Option<i64>,
        struck_fp: Option<String>,
        now: i64,
    )
        requires
            old(self).wf(),
            old(self).rows@.contains_key(key@) ==> old(self).rows@[key@].consecutive_failures
                < u32::MAX && old(self).rows@[key@].auth_dead_strikes < u32::MAX,
        ensures
            final(self).wf(),
            ({
                let rows = old(self).rows@;
                if rows.contains_key(key@) && holds_lease(rows[key@], claim@) {
                    final(self).rows@ == rows.insert(
                        key@,
                        failed_row(rows[key@], kind, retry_after, struck_fp, now),
                    )
                } else {
                    *final(self) == *old(self)
                }
            }),
    {
        let held: bool = match self.rows.get(key) {
            Some(row) => opt_is(&row.claim_id, claim),
            None => false,
        };
        if !held {
            return;
        }
        let ghost rows = self.rows@;
        if let Some(mut row) = self.rows.remove(key) {
            let rate_limited: bool = same(kind.as_str(), "http-429");
            let ghost was = row;
            row.consecutive_failures = row.consecutive_failures + 1;
            row.last_attempt_at = Some(now);
            if rate_limited {
                row.last_429_at = Some(now);
            }
            row.backoff_until = Some(
                later(now, failure_backoff_s(row.consecutive_failures, retry_after, rate_limited)),
            );
            if is_permanent_auth_error(kind.as_str()) {
                row.auth_dead_strikes = row.auth_dead_strikes + 1;
                row.dead_fingerprint = struck_fp;
            }
            row.last_error = Some(kind);
            row.claim_id = None;
            row.claim_until = None;
            self.rows.insert(key.to_owned(), row);
            proof {
                assert(row == failed_row(was, kind, retry_after, struck_fp, now));
                assert(rows.remove(key@).insert(key@, row) =~= rows.insert(key@, row));
            }
        }
    }

    /// Moves a row to another key, in place of the one that stood there; where there is
    /// none, nothing moves.
    pub fn relocate(&mut self, from: &str, to: &str)
        requires
            old(self).wf(),
        ensures
            final(self).wf(),
            ({
                let rows = old(self).rows@;
                if rows.contains_key(from@) {
                    final(self).rows@ == rows.remove(from@).insert(to@, rows[from@])
                } else {
                    final(self).rows@ == rows
                }
            }),
    {
        let ghost rows = self.rows@;
        match self.rows.remove(from) {
            Some(row) => {
                self.rows.insert(to.to_owned(), row);
            },
            None => {
                assert(rows.remove(from@) =~= rows);
            },
        }
    }

    /// Gives a claim back without an outcome, fenced by it: the row is as it was
    /// before, but for the attempt.
    pub fn release(&mut self, key: &str, claim: &str)
        requires
            old(self).wf(),
        ensures
            final(self).wf(),
            ({
                let rows = old(self).rows@;
                if rows.contains_key(key@) && holds_lease(rows[key@], claim@) {
                    final(self).rows@ == rows.insert(
                        key@,
                        Row { claim_id: None, claim_until: None, ..rows[key@] },
                    )
                } else {
                    *final(self) == *old(self)
                }
            }),
    {
        let held: bool = match self.rows.get(key) {
            Some(row) => opt_is(&row.claim_id, claim),
            None => false,
        };
        if !held {
            return;
        }
        let ghost rows = self.rows@;
        if let Some(mut row) = self.rows.remove(key) {
            row.claim_id = None;
            row.claim_until = None;
            self.rows.insert(key.to_owned(), row);
            proof {
                assert(rows.remove(key@).insert(key@, row) =~= rows.insert(key@, row));
            }
        }
    }

    /// Lifts the dead-token quarantine after a new login rewrote the credential,
    /// with the failure state that rode with it.
    pub fn clear_dead(&mut self, key: &str)
        requires
            old(self).wf(),
        ensures
            final(self).wf(),
            old(self).rows@.contains_key(key@) ==> final(self).rows@ == old(self).rows@.insert(
                key@,
                healed_row(old(self).rows@[key@]),
            ),
            !old(self).rows@.contains_key(key@) ==> final(self).rows@ == old(self).rows@,
    {
        let ghost rows = self.rows@;
        match self.rows.remove(key) {
            Some(mut row) => {
                row.auth_dead_strikes = 0;
                row.dead_fingerprint = None;
                row.consecutive_failures = 0;
                row.last_error = None;
                row.backoff_until = None;
                row.claim_id = None;
                row.claim_until = None;
                self.rows.insert(key.to_owned(), row);
                proof {
                    assert(rows.remove(key@).insert(key@, row) =~= rows.insert(key@, row));
                }
            },
            None => {
                assert(rows.remove(key@) =~= rows);
            },
        }
    }
}

} // verus!
