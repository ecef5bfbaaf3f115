//! What holds of the usage table across its operations.

use vstd::prelude::*;

use crate::contract::Window;
use crate::poll_policy::PlanInput;
use crate::text::opt_text;
use crate::units::clip;
use crate::usage_store::{
    backs_off, belongs, blank_entry, claim_lives, claimable, claimed_row, eligible, failed_row,
    healed_row, holds_lease, is_fresh, law_backoff_is_bounded, mirrors, own_row, permanent,
    rows_after, sees, succeeded, won_after, Entry, Row, BACKOFF_BASE_S, CLAIM_TTL_S,
    RATE_LIMIT_TRUST_MAX_AGE_S, STALE_OK_S, TRUST_MAX_AGE_S,
};

verus! {

/// Whether no key is named twice.
pub open spec fn distinct(keys: Seq<(String, String, String)>) -> bool {
    forall|i: int, j: int|
        0 <= i < j < keys.len() ==> (#[trigger] keys[i]).0@ != (#[trigger] keys[j]).0@
}

proof fn lemma_reserve_leaves_others(
    rows: Map<Seq<char>, Row>,
    keys: Seq<(String, String, String)>,
    ids: Seq<String>,
    respect_plans: bool,
    force: bool,
    now: i64,
    n: int,
    k: Seq<char>,
)
    requires
        0 <= n <= keys.len(),
        forall|i: int| 0 <= i < n ==> (#[trigger] keys[i]).0@ != k,
    ensures
        rows_after(rows, keys, ids, respect_plans, force, now, n).contains_key(k)
            == rows.contains_key(k),
        rows.contains_key(k) ==> rows_after(rows, keys, ids, respect_plans, force, now, n)[k]
            == rows[k],
        !won_after(rows, keys, ids, respect_plans, force, now, n).contains_key(k),
    decreases n,
{
    if n > 0 {
        lemma_reserve_leaves_others(rows, keys, ids, respect_plans, force, now, n - 1, k);
    }
}

proof fn lemma_reserve_at(
    rows: Map<Seq<char>, Row>,
    keys: Seq<(String, String, String)>,
    ids: Seq<String>,
    respect_plans: bool,
    force: bool,
    now: i64,
    n: int,
    i: int,
)
    requires
        distinct(keys),
        0 <= i < n <= keys.len(),
    ensures
        ({
            let k = keys[i].0@;
            let after = rows_after(rows, keys, ids, respect_plans, force, now, n);
            let won = won_after(rows, keys, ids, respect_plans, force, now, n);
            if claimable(rows, keys[i], respect_plans, force, now) {
                &&& won.contains_key(k) && won[k] == ids[i]
                &&& after.contains_key(k)
                &&& after[k] == claimed_row(own_row(rows, keys[i]), ids[i], now)
            } else {
                &&& !won.contains_key(k)
                &&& after.contains_key(k) && after[k] == rows[k]
            }
        }),
    decreases n,
{
    let k = keys[i].0@;
    if i == n - 1 {
        assert forall|j: int| 0 <= j < n - 1 implies (#[trigger] keys[j]).0@ != k by {
            assert(keys[j].0@ != keys[i].0@);
        }
        lemma_reserve_leaves_others(rows, keys, ids, respect_plans, force, now, n - 1, k);
    } else {
        lemma_reserve_at(rows, keys, ids, respect_plans, force, now, n - 1, i);
        assert(keys[n - 1].0@ != k);
    }
}

/// What a reserve does for each of its keys, where none is named twice: a key that
/// may be claimed is won with its claim and its row is stamped; any other row is
/// left as it was.
pub proof fn law_reserve_by_key(
    rows: Map<Seq<char>, Row>,
    keys: Seq<(String, String, String)>,
    ids: Seq<String>,
    respect_plans: bool,
    force: bool,
    now: i64,
    i: int,
)
    requires
        distinct(keys),
        0 <= i < keys.len(),
    ensures
        ({
            let k = keys[i].0@;
            let n = keys.len() as int;
            let after = rows_after(rows, keys, ids, respect_plans, force, now, n);
            let won = won_after(rows, keys, ids, respect_plans, force, now, n);
            &&& won.contains_key(k) == claimable(rows, keys[i], respect_plans, force, now)
            &&& won.contains_key(k) ==> won[k] == ids[i] && after[k] == claimed_row(
                own_row(rows, keys[i]),
                ids[i],
                now,
            )
            &&& !won.contains_key(k) ==> after[k] == rows[k]
        }),
{
    lemma_reserve_at(rows, keys, ids, respect_plans, force, now, keys.len() as int, i);
}

/// Whether every one of some keys that names a row names it for one account.
pub open spec fn names_account(
    keys: Seq<(String, String, String)>,
    k: Seq<char>,
    email: Seq<char>,
    org: Seq<char>,
) -> bool {
    forall|j: int|
        0 <= j < keys.len() && (#[trigger] keys[j]).0@ == k ==> keys[j].1@ == email && keys[j].2@
            == org
}

/// A row whose claim is live is not won, and is left as it is, by a reserve in whatever
/// mode and with whatever keys that name it for its account.
pub proof fn law_a_live_claim_stands(
    rows: Map<Seq<char>, Row>,
    keys: Seq<(String, String, String)>,
    ids: Seq<String>,
    respect_plans: bool,
    force: bool,
    now: i64,
    n: int,
    k: Seq<char>,
)
    requires
        0 <= n <= keys.len(),
        rows.contains_key(k),
        claim_lives(rows[k].claim_until, now),
        names_account(keys, k, rows[k].email@, rows[k].org@),
    ensures
        rows_after(rows, keys, ids, respect_plans, force, now, n).contains_key(k),
        rows_after(rows, keys, ids, respect_plans, force, now, n)[k] == rows[k],
        !won_after(rows, keys, ids, respect_plans, force, now, n).contains_key(k),
    decreases n,
{
    if n > 0 {
        law_a_live_claim_stands(rows, keys, ids, respect_plans, force, now, n - 1, k);
        assert(keys[n - 1].0@ == k ==> belongs(rows[k], keys[n - 1].1@, keys[n - 1].2@));
    }
}

/// What a reserve won carries its claim, for the account that it was won for.
proof fn lemma_won_is_claimed(
    rows: Map<Seq<char>, Row>,
    keys: Seq<(String, String, String)>,
    ids: Seq<String>,
    respect_plans: bool,
    force: bool,
    now: i64,
    n: int,
    k: Seq<char>,
    email: Seq<char>,
    org: Seq<char>,
)
    requires
        0 <= n <= keys.len(),
        names_account(keys, k, email, org),
        won_after(rows, keys, ids, respect_plans, force, now, n).contains_key(k),
    ensures
        ({
            let after = rows_after(rows, keys, ids, respect_plans, force, now, n);
            &&& after.contains_key(k)
            &&& after[k].claim_until == Some(clip(now + CLAIM_TTL_S))
            &&& after[k].claim_id == Some(
                won_after(rows, keys, ids, respect_plans, force, now, n)[k],
            )
            &&& belongs(after[k], email, org)
        }),
    decreases n,
{
    if n > 0 {
        let was = rows_after(rows, keys, ids, respect_plans, force, now, n - 1);
        if !(keys[n - 1].0@ == k && claimable(was, keys[n - 1], respect_plans, force, now)) {
            lemma_won_is_claimed(
                rows,
                keys,
                ids,
                respect_plans,
                force,
                now,
                n - 1,
                k,
                email,
                org,
            );
        }
    }
}

/// Two collectors never claim one row within the lease: what the first won, no reserve
/// within `CLAIM_TTL_S` wins again as long as the row still carries the claim, whatever
/// came between, in whatever mode and with whatever keys that name the row for its
/// account. The claim stands after it, so this goes on until the lease ends.
pub proof fn law_reserve_never_double_claims(
    rows: Map<Seq<char>, Row>,
    keys: Seq<(String, String, String)>,
    ids: Seq<String>,
    respect_plans: bool,
    force: bool,
    now: i64,
    k: Seq<char>,
    email: Seq<char>,
    org: Seq<char>,
    rows2: Map<Seq<char>, Row>,
    keys2: Seq<(String, String, String)>,
    ids2: Seq<String>,
    respect_plans2: bool,
    force2: bool,
    now2: i64,
)
    requires
        names_account(keys, k, email, org),
        names_account(keys2, k, email, org),
        now2 < now + CLAIM_TTL_S,
        now + CLAIM_TTL_S <= i64::MAX,
        won_after(rows, keys, ids, respect_plans, force, now, keys.len() as int).contains_key(k),
        rows2.contains_key(k),
        belongs(rows2[k], email, org),
        ({
            let after = rows_after(rows, keys, ids, respect_plans, force, now, keys.len() as int);
            rows2[k].claim_id == after[k].claim_id && rows2[k].claim_until == after[k].claim_until
        }),
    ensures
        ({
            let n2 = keys2.len() as int;
            let after2 = rows_after(rows2, keys2, ids2, respect_plans2, force2, now2, n2);
            &&& !won_after(
                rows2,
                keys2,
                ids2,
                respect_plans2,
                force2,
                now2,
                n2,
            ).contains_key(k)
            &&& after2.contains_key(k) && after2[k] == rows2[k]
        }),
{
    lemma_won_is_claimed(
        rows,
        keys,
        ids,
        respect_plans,
        force,
        now,
        keys.len() as int,
        k,
        email,
        org,
    );
    law_a_live_claim_stands(
        rows2,
        keys2,
        ids2,
        respect_plans2,
        force2,
        now2,
        keys2.len() as int,
        k,
    );
}

/// The row that a reserve won still carries the claim right after it, for its account.
pub proof fn law_what_was_won_is_claimed(
    rows: Map<Seq<char>, Row>,
    keys: Seq<(String, String, String)>,
    ids: Seq<String>,
    respect_plans: bool,
    force: bool,
    now: i64,
    k: Seq<char>,
    email: Seq<char>,
    org: Seq<char>,
)
    requires
        names_account(keys, k, email, org),
        won_after(rows, keys, ids, respect_plans, force, now, keys.len() as int).contains_key(k),
    ensures
        ({
            let n = keys.len() as int;
            let after = rows_after(rows, keys, ids, respect_plans, force, now, n);
            let won = won_after(rows, keys, ids, respect_plans, force, now, n);
            &&& after.contains_key(k)
            &&& holds_lease(after[k], won[k]@)
            &&& after[k].claim_until == Some(clip(now + CLAIM_TTL_S))
            &&& belongs(after[k], email, org)
        }),
{
    lemma_won_is_claimed(
        rows,
        keys,
        ids,
        respect_plans,
        force,
        now,
        keys.len() as int,
        k,
        email,
        org,
    );
}

/// The winner of a claim holds the lease of the row, until another claim replaces
/// it: then it does not.
pub proof fn law_a_new_claim_fences_the_old(row: Row, old_id: String, new_id: String, t1: i64, t2: i64)
    requires
        old_id@ != new_id@,
    ensures
        holds_lease(claimed_row(row, old_id, t1), old_id@),
        holds_lease(claimed_row(claimed_row(row, old_id, t1), new_id, t2), new_id@),
        !holds_lease(claimed_row(claimed_row(row, old_id, t1), new_id, t2), old_id@),
{
}

/// A failure leaves the last measurement, its instant and its plan alone, releases
/// the lease, and installs a backoff that keeps every collector away for at least
/// `BACKOFF_BASE_S`, whatever its mode.
pub proof fn law_failure_keeps_the_measurement(
    row: Row,
    kind: String,
    retry_after: Option<i64>,
    struck_fp: Option<String>,
    now: i64,
    t: i64,
    respect_plans: bool,
    force: bool,
)
    requires
        row.consecutive_failures < u32::MAX,
        t < now + BACKOFF_BASE_S <= i64::MAX,
    ensures
        ({
            let after = failed_row(row, kind, retry_after, struck_fp, now);
            &&& after.last_good == row.last_good
            &&& after.fetched_at == row.fetched_at
            &&& after.next_poll_at == row.next_poll_at
            &&& after.interval_s == row.interval_s
            &&& after.claim_id is None && after.claim_until is None
            &&& backs_off(after.backoff_until, t)
            &&& !eligible(after, t, respect_plans, force)
        }),
{
    law_backoff_is_bounded(
        (row.consecutive_failures + 1) as u32,
        retry_after,
        kind@ == "http-429"@,
    );
}

/// A transient failure never strikes the token.
pub proof fn law_transient_failure_never_strikes(
    row: Row,
    kind: String,
    retry_after: Option<i64>,
    struck_fp: Option<String>,
    now: i64,
)
    requires
        !permanent(kind@),
    ensures
        ({
            let after = failed_row(row, kind, retry_after, struck_fp, now);
            after.auth_dead_strikes == row.auth_dead_strikes && after.dead_fingerprint
                == row.dead_fingerprint
        }),
{
}

/// A permanent failure quarantines the row: no collector may fetch it, at any
/// time and in any mode; its entry counts as dead for the credential that was
/// struck and not for one with another fingerprint.
pub proof fn law_permanent_failure_quarantines(
    row: Row,
    kind: String,
    retry_after: Option<i64>,
    struck_fp: Option<String>,
    now: i64,
    t: i64,
    respect_plans: bool,
    force: bool,
    models: Seq<String>,
    e: Entry,
    other: Seq<char>,
)
    requires
        permanent(kind@),
        row.auth_dead_strikes < u32::MAX,
        mirrors(e, failed_row(row, kind, retry_after, struck_fp, now), models, t),
    ensures
        !eligible(failed_row(row, kind, retry_after, struck_fp, now), t, respect_plans, force),
        e.dead(None),
        e.dead(opt_text(struck_fp)),
        e.dead(Some(other)) <==> (struck_fp is None || opt_text(struck_fp) == Some(other)),
{
}

/// A row whose quarantine was lifted may be fetched at once, and reads as neither
/// failing nor dead.
pub proof fn law_healing_lifts_the_quarantine(row: Row, now: i64, respect_plans: bool)
    ensures
        eligible(healed_row(row), now, respect_plans, true),
        healed_row(row).auth_dead_strikes == 0,
        healed_row(row).last_error is None,
        healed_row(row).last_good == row.last_good,
{
}

/// A success clears failures, backoff and strikes, releases the lease and keeps
/// the stamp of the last refusal.
pub proof fn law_success_clears_failure(
    old_row: Row,
    new_row: Row,
    windows: Vec<Window>,
    plan: PlanInput,
    roll: u32,
    now: i64,
)
    requires
        succeeded(old_row, new_row, windows, plan, roll, now),
    ensures
        new_row.consecutive_failures == 0,
        new_row.last_error is None,
        new_row.backoff_until is None,
        new_row.auth_dead_strikes == 0,
        new_row.claim_id is None,
        new_row.claim_until is None,
        new_row.fetched_at == Some(now),
        new_row.last_429_at == old_row.last_429_at,
        is_fresh(new_row.fetched_at, now),
{
}

/// An account never sees what was measured for another: where the row belongs to
/// someone else, or is missing, its entry is blank.
pub proof fn law_no_account_sees_another(
    rows: Map<Seq<char>, Row>,
    key: (String, String, String),
    models: Seq<String>,
    now: i64,
    e: Entry,
)
    requires
        sees(rows, key, models, now, e),
        rows.contains_key(key.0@) ==> !belongs(rows[key.0@], key.1@, key.2@),
    ensures
        e == blank_entry(),
        e.decided_on() is None,
{
}

/// Trust never outlives its ceiling: decisions run on a measurement older than
/// `STALE_OK_S` only up to `TRUST_MAX_AGE_S`, or `RATE_LIMIT_TRUST_MAX_AGE_S` after
/// a refusal, and only while a failure, a plan or a claim explains its age.
pub proof fn law_trust_is_bounded(e: Entry, row: Row, models: Seq<String>, now: i64)
    requires
        mirrors(e, row, models, now),
        e.trusted(),
        e.age_s->0 > STALE_OK_S,
    ensures
        opt_text(row.last_error) == Some("http-429"@) ==> e.age_s->0 < RATE_LIMIT_TRUST_MAX_AGE_S,
        opt_text(row.last_error) != Some("http-429"@) ==> e.age_s->0 <= TRUST_MAX_AGE_S,
        row.consecutive_failures > 0 || (row.next_poll_at matches Some(next) && now < next)
            || claim_lives(row.claim_until, now),
{
}

} // verus!
