//! What holds of a collection pass as a whole: from the rows of the table and the logins in
//! hand to what is reported, and to what is fetched.

use vstd::prelude::*;

use crate::collect::{entry_or_blank, fetchable, keyed_for, CollectOpts, SlotState};
use crate::collect_view::{account_view, is_view, provider_view};
use crate::contract::{AccountView, ProviderView, UsageStatus};
use crate::pass::{dead_marked, finished, marked, reports, starts, Started};
use crate::rotation_laws::{distinct_slots, law_a_held_account_is_not_next};
use crate::switch::{rotation, Strategy};
use crate::table::Table;
use crate::text::opt_text;
use crate::usage_store::{snapshot_of, Entry, Row, UsageStore};

verus! {

/// Whether no two states of a pass have one key.
pub open spec fn distinct_keys(states: Seq<SlotState>) -> bool {
    forall|i: int, j: int|
        0 <= i < j < states.len() ==> (#[trigger] states[i]).key@ != (#[trigger] states[j]).key@
}

/// Whether a row is that of the account of a state.
pub open spec fn has_row(rows: Map<Seq<char>, Row>, st: SlotState) -> bool {
    rows.contains_key(st.key@) && rows[st.key@].email@ == st.meta.email@ && rows[st.key@].org@
        == st.meta.organization_uuid@
}

/// Whether the strikes of a row are against the login in hand: they are at least one, and
/// were given to its fingerprint, or to none that is known.
pub open spec fn is_struck(row: Row, st: SlotState) -> bool {
    row.auth_dead_strikes >= 1 && (row.dead_fingerprint is None || st.login is None || opt_text(
        row.dead_fingerprint,
    ) == Some(st.login->0.fingerprint@))
}

/// What a state's account sees of the table.
pub proof fn lemma_sees(
    rows: Map<Seq<char>, Row>,
    keys: Seq<(String, String, String)>,
    states: Seq<SlotState>,
    entries: Map<Seq<char>, Entry>,
    models: Seq<String>,
    now: i64,
    i: int,
)
    requires
        keyed_for(keys, states),
        distinct_keys(states),
        snapshot_of(rows, keys, models, now, entries),
        0 <= i < states.len(),
    ensures
        entries.contains_key(states[i].key@),
        has_row(rows, states[i]) ==> crate::usage_store::mirrors(
            entries[states[i].key@],
            rows[states[i].key@],
            models,
            now,
        ),
        !has_row(rows, states[i]) ==> entries[states[i].key@] == crate::usage_store::blank_entry(),
{
    assert(keys[i].0 == states[i].key);
    assert(crate::usage_store::named(keys, states[i].key@));
    assert(crate::usage_store::last_named(keys, i)) by {
        assert forall|j: int| i < j < keys.len() implies (#[trigger] keys[j]).0@ != keys[i].0@ by {
            assert(states[i].key@ != states[j].key@);
        }
    }
}

/// After a pass, every account that carries no other mark and whose row has a strike against
/// the login in hand is reported as one that needs a new login; it is no next candidate, and
/// no rotation lists it.
pub proof fn law_a_struck_login_needs_a_new_one(
    rows: Map<Seq<char>, Row>,
    keys: Seq<(String, String, String)>,
    states: Seq<SlotState>,
    marks: Seq<Option<UsageStatus>>,
    after: Seq<SlotState>,
    entries: Map<Seq<char>, Entry>,
    v: ProviderView,
    provider: Seq<char>,
    installed: bool,
    models: Seq<String>,
    threshold: i64,
    now: i64,
    i: int,
    healthy: Seq<u32>,
    strategy: Strategy,
    preferred: Seq<String>,
)
    requires
        keyed_for(keys, states),
        distinct_keys(states),
        snapshot_of(rows, keys, models, now, entries),
        after.len() == states.len(),
        marks.len() == states.len(),
        forall|k: int|
            0 <= k < states.len() ==> #[trigger] after[k] == finished(
                states[k],
                marks[k],
                entries,
            ),
        reports(v, provider, installed, after, entries, models, threshold, now),
        0 <= i < states.len(),
        states[i].sentinel is None,
        marks[i] is None,
        has_row(rows, states[i]),
        is_struck(rows[states[i].key@], states[i]),
    ensures
        v.accounts@[i].slot == states[i].slot,
        v.accounts@[i].usage_status is ReloginRequired,
        distinct_slots(v.accounts@) ==> v.next_candidate != Some(states[i].slot),
        distinct_slots(v.accounts@) ==> !rotation(
            v.accounts@,
            healthy,
            strategy,
            preferred,
            models,
        ).contains(states[i].slot),
{
    lemma_sees(rows, keys, states, entries, models, now, i);
    assert(after[i] == finished(states[i], marks[i], entries));
    assert(is_view(v.accounts@[i], after[i], entry_or_blank(entries, after[i].key@), now));
    if distinct_slots(v.accounts@) {
        law_a_held_account_is_not_next(
            v.accounts@,
            after,
            entries,
            models,
            threshold,
            now,
            i,
        );
        crate::rotation_laws::law_a_held_account_is_out(
            v.accounts@,
            healthy,
            strategy,
            preferred,
            models,
            i,
        );
    }
}

/// After a pass, an account that carries no other mark and has no strike against its login
/// is reported by the age of its measurement: as current up to five minutes, and as stale
/// beyond, or where there is none.
pub proof fn law_an_unmarked_account_is_reported_by_its_age(
    rows: Map<Seq<char>, Row>,
    keys: Seq<(String, String, String)>,
    states: Seq<SlotState>,
    marks: Seq<Option<UsageStatus>>,
    after: Seq<SlotState>,
    entries: Map<Seq<char>, Entry>,
    v: ProviderView,
    provider: Seq<char>,
    installed: bool,
    models: Seq<String>,
    threshold: i64,
    now: i64,
    i: int,
)
    requires
        keyed_for(keys, states),
        distinct_keys(states),
        snapshot_of(rows, keys, models, now, entries),
        after.len() == states.len(),
        marks.len() == states.len(),
        forall|k: int|
            0 <= k < states.len() ==> #[trigger] after[k] == finished(
                states[k],
                marks[k],
                entries,
            ),
        reports(v, provider, installed, after, entries, models, threshold, now),
        0 <= i < states.len(),
        states[i].sentinel is None,
        marks[i] is None,
        has_row(rows, states[i]) ==> !is_struck(rows[states[i].key@], states[i]),
    ensures
        v.accounts@[i].usage_status is Okay <==> has_row(rows, states[i]) && (
        rows[states[i].key@].fetched_at matches Some(at) && now - at <= 300_000_000),
        v.accounts@[i].usage_status is Okay || v.accounts@[i].usage_status is Stale,
        v.accounts@[i].usage_status is Okay ==> v.accounts@[i].windows@ == (
        match rows[states[i].key@].last_good {
            Some(w) => w@,
            None => Seq::empty(),
        }) && v.accounts@[i].last_good is None,
        v.accounts@[i].usage_status is Stale ==> v.accounts@[i].windows@.len() == 0,
{
    lemma_sees(rows, keys, states, entries, models, now, i);
    assert(after[i] == finished(states[i], marks[i], entries));
    assert(is_view(v.accounts@[i], after[i], entry_or_blank(entries, after[i].key@), now));
}

/// A mark that was there before the fetches, or that a fetch earned, is what is reported,
/// whatever the table says.
pub proof fn law_a_mark_is_reported(
    states: Seq<SlotState>,
    marks: Seq<Option<UsageStatus>>,
    after: Seq<SlotState>,
    entries: Map<Seq<char>, Entry>,
    v: ProviderView,
    provider: Seq<char>,
    installed: bool,
    models: Seq<String>,
    threshold: i64,
    now: i64,
    i: int,
)
    requires
        after.len() == states.len(),
        marks.len() == states.len(),
        forall|k: int|
            0 <= k < states.len() ==> #[trigger] after[k] == finished(
                states[k],
                marks[k],
                entries,
            ),
        reports(v, provider, installed, after, entries, models, threshold, now),
        0 <= i < states.len(),
    ensures
        states[i].sentinel is Some ==> v.accounts@[i].usage_status == states[i].sentinel->0,
        states[i].sentinel is None && marks[i] is Some ==> v.accounts@[i].usage_status
            == marks[i]->0,
{
    assert(after[i] == finished(states[i], marks[i], entries));
    assert(is_view(v.accounts@[i], after[i], entry_or_blank(entries, after[i].key@), now));
}

/// What is reported of an account is what its slot says: its number, its email, its
/// organization, its plan, its alias and icon, and whether it is active, held or preferred.
pub proof fn law_an_account_is_reported_as_its_slot(
    states: Seq<SlotState>,
    marks: Seq<Option<UsageStatus>>,
    after: Seq<SlotState>,
    entries: Map<Seq<char>, Entry>,
    v: ProviderView,
    provider: Seq<char>,
    installed: bool,
    models: Seq<String>,
    threshold: i64,
    now: i64,
    i: int,
)
    requires
        after.len() == states.len(),
        marks.len() == states.len(),
        forall|k: int|
            0 <= k < states.len() ==> #[trigger] after[k] == finished(
                states[k],
                marks[k],
                entries,
            ),
        reports(v, provider, installed, after, entries, models, threshold, now),
        0 <= i < states.len(),
    ensures
        v.accounts@.len() == states.len(),
        v.accounts@[i].slot == states[i].slot,
        v.accounts@[i].email@ == states[i].meta.email@,
        v.accounts@[i].organization_uuid@ == states[i].meta.organization_uuid@,
        v.accounts@[i].organization_name@ == states[i].meta.organization_name@,
        v.accounts@[i].plan == states[i].meta.plan,
        v.accounts@[i].alias == states[i].meta.alias,
        v.accounts@[i].icon == states[i].meta.icon,
        v.accounts@[i].active == states[i].active,
        v.accounts@[i].disabled == states[i].meta.disabled,
        v.accounts@[i].preferred == states[i].meta.preferred,
{
    assert(after[i] == finished(states[i], marks[i], entries));
    assert(is_view(v.accounts@[i], after[i], entry_or_blank(entries, after[i].key@), now));
}

proof fn lemma_fetchable(states: Seq<SlotState>, opts: CollectOpts, k: int) -> (i: int)
    requires
        0 <= k < fetchable(states, opts).len(),
    ensures
        0 <= i < states.len(),
        fetchable(states, opts)[k] == states[i],
        states[i].sentinel is None,
        opts.force_slots@.len() == 0 || opts.force_slots@.contains(states[i].slot),
        opts.only matches Some(only) ==> only@.contains(states[i].slot),
    decreases states.len(),
{
    let short = states.drop_last();
    if k < fetchable(short, opts).len() {
        let i = lemma_fetchable(short, opts, k);
        assert(short[i] == states[i]);
        i
    } else {
        states.len() - 1
    }
}

proof fn lemma_fetchable_all(states: Seq<SlotState>, opts: CollectOpts, i: int)
    requires
        0 <= i < states.len(),
        states[i].sentinel is None,
        opts.force_slots@.len() == 0 || opts.force_slots@.contains(states[i].slot),
        opts.only matches Some(only) ==> only@.contains(states[i].slot),
    ensures
        fetchable(states, opts).contains(states[i]),
    decreases states.len(),
{
    let short = states.drop_last();
    let rest = fetchable(short, opts);
    let out = fetchable(states, opts);
    if i < short.len() {
        lemma_fetchable_all(short, opts, i);
        assert(short[i] == states[i]);
        let k = choose|k: int| 0 <= k < rest.len() && rest[k] == states[i];
        assert(out[k] == states[i]);
    } else {
        assert(out[out.len() - 1] == states[i]);
    }
}

/// What a pass asks the table to let it fetch is an account without a mark, whose login is
/// not struck, and that the caller asks for: one of those to be forced, where there are any,
/// and one of the only ones, where they are named.
pub proof fn law_what_is_fetched_was_asked_for(
    s: Started,
    before: UsageStore,
    after: UsageStore,
    states: Seq<SlotState>,
    now_marked: Seq<SlotState>,
    opts: CollectOpts,
    models: Seq<String>,
    now: i64,
    pid: u32,
    k: int,
)
    requires
        starts(s, before, after, states, now_marked, opts, models, now, pid),
        distinct_keys(states),
        0 <= k < s.candidates@.len(),
    ensures
        exists|i: int|
            0 <= i < states.len() && (#[trigger] states[i]).key == s.candidates@[k].0
                && states[i].sentinel is None && (opts.force_slots@.len() == 0
                || opts.force_slots@.contains(states[i].slot)) && (opts.only is None
                || opts.only->0@.contains(states[i].slot)) && !(has_row(
                crate::pass::healed_rows(before.rows@, states),
                states[i],
            ) && is_struck(
                crate::pass::healed_rows(before.rows@, states)[states[i].key@],
                states[i],
            )),
{
    let dead = dead_marked(states, s.entries@);
    let i = lemma_fetchable(dead, opts, k);
    lemma_sees(
        crate::pass::healed_rows(before.rows@, states),
        s.keys@,
        states,
        s.entries@,
        models,
        now,
        i,
    );
    assert(dead[i].key == states[i].key);
    assert(dead[i].login == states[i].login);
    assert(states[i].key == s.candidates@[k].0);
}

/// An account without a mark and without a strike that the caller asks for is put to the
/// table.
pub proof fn law_what_is_asked_for_is_put_to_the_table(
    s: Started,
    before: UsageStore,
    after: UsageStore,
    states: Seq<SlotState>,
    now_marked: Seq<SlotState>,
    opts: CollectOpts,
    models: Seq<String>,
    now: i64,
    pid: u32,
    i: int,
)
    requires
        starts(s, before, after, states, now_marked, opts, models, now, pid),
        distinct_keys(states),
        0 <= i < states.len(),
        states[i].sentinel is None,
        opts.force_slots@.len() == 0 || opts.force_slots@.contains(states[i].slot),
        opts.only is None || opts.only->0@.contains(states[i].slot),
        has_row(crate::pass::healed_rows(before.rows@, states), states[i])
            ==> crate::pass::healed_rows(
            before.rows@,
            states,
        )[states[i].key@].auth_dead_strikes == 0,
    ensures
        exists|k: int|
            0 <= k < s.candidates@.len() && (#[trigger] s.candidates@[k]).0 == states[i].key
                && s.candidates@[k].1 == states[i].meta.email && s.candidates@[k].2
                == states[i].meta.organization_uuid,
{
    let dead = dead_marked(states, s.entries@);
    lemma_sees(
        crate::pass::healed_rows(before.rows@, states),
        s.keys@,
        states,
        s.entries@,
        models,
        now,
        i,
    );
    assert(dead[i].key == states[i].key);
    lemma_fetchable_all(dead, opts, i);
    let list = fetchable(dead, opts);
    let k = choose|k: int| 0 <= k < list.len() && list[k] == dead[i];
    assert(s.candidates@[k].0 == states[i].key);
}

/// Before the fetches, an active login that has expired, or that is older than the stored
/// one, and that nothing fetches, is marked as expired; no other account is.
pub proof fn law_only_an_idle_active_login_is_marked_expired(
    s: Started,
    before: UsageStore,
    after: UsageStore,
    states: Seq<SlotState>,
    now_marked: Seq<SlotState>,
    opts: CollectOpts,
    models: Seq<String>,
    now: i64,
    pid: u32,
    i: int,
)
    requires
        starts(s, before, after, states, now_marked, opts, models, now, pid),
        distinct_keys(states),
        0 <= i < states.len(),
        states[i].sentinel is None,
        has_row(crate::pass::healed_rows(before.rows@, states), states[i]) ==> !is_struck(
            crate::pass::healed_rows(before.rows@, states)[states[i].key@],
            states[i],
        ),
    ensures
        now_marked[i].sentinel == if states[i].active && !s.won@.contains_key(states[i].key@) && (
        states[i].heal_live || (states[i].login is Some && states[i].login->0.expires_at is Some
            && states[i].login->0.expires_at->0 < now)) {
            Some(UsageStatus::TokenExpired)
        } else {
            None
        },
{
    lemma_sees(
        crate::pass::healed_rows(before.rows@, states),
        s.keys@,
        states,
        s.entries@,
        models,
        now,
        i,
    );
    assert(now_marked[i] == marked(states[i], s.entries@, s.won@, now));
}

/// What is shown of a measurement. That of an account that is reported as current stands
/// under its windows, with its age and its instant; of any other it stands as the last good
/// one, and only there. What went wrong last is always shown, and a backoff while it runs.
pub proof fn law_what_is_shown_of_a_measurement(st: SlotState, e: Entry, now: i64, v: AccountView)
    requires
        call_ensures(account_view, (&st, &e, now), v),
    ensures
        v.usage_status is Okay && e.last_good is Some ==> v.windows@ == e.last_good->0@
            && v.last_good is None && v.age_seconds == e.age_s,
        !(v.usage_status is Okay) ==> v.windows@.len() == 0 && v.age_seconds is None
            && v.fetched_at is None,
        !(v.usage_status is Okay) && e.fetched_at is Some && e.last_good is Some
            ==> v.last_good is Some && v.last_good->0.windows@ == e.last_good->0@,
        !(v.usage_status is Okay) && e.fetched_at is Some && e.last_good is Some && 0 <= now
            && 0 <= e.fetched_at->0 ==> v.last_good->0.age_seconds == now - e.fetched_at->0,
        e.last_good is None ==> v.windows@.len() == 0 && v.last_good is None,
        v.last_error == e.last_error,
        e.backoff_until is None || e.backoff_until->0 <= now ==> v.backoff_until is None,
        st.sentinel is Some ==> v.usage_status == st.sentinel->0,
{
}

/// The active slot of a pass is that of its first active account; without one there is none.
/// Only then it is said why the live login could not be read, and which slot was active last.
pub proof fn law_the_active_slot_of_a_pass(
    provider: &str,
    installed: bool,
    states: Vec<SlotState>,
    entries: Table<Entry>,
    models: Vec<String>,
    threshold: i64,
    unreadable: Option<String>,
    recorded: Option<u32>,
    now: i64,
    v: ProviderView,
    i: int,
)
    requires
        entries.wf(),
        call_ensures(
            provider_view,
            (
                provider,
                installed,
                &states,
                &entries,
                &models,
                threshold,
                unreadable,
                recorded,
                now,
            ),
            v,
        ),
    ensures
        0 <= i < states@.len() && states@[i].active && (forall|k: int|
            0 <= k < i ==> !(#[trigger] states@[k]).active) ==> v.active_slot == Some(
            states@[i].slot,
        ),
        (forall|k: int| 0 <= k < states@.len() ==> !(#[trigger] states@[k]).active)
            ==> v.active_slot is None,
        v.active_slot is Some ==> v.active_unreadable is None && v.last_known_active_slot is None,
        v.active_slot is None ==> v.active_unreadable == unreadable,
        v.active_slot is None && unreadable is Some ==> v.last_known_active_slot == recorded,
{
    lemma_after_active(states@, i);
}

proof fn lemma_after_active(states: Seq<SlotState>, i: int)
    ensures
        0 <= i < states.len() && states[i].active && (forall|k: int|
            0 <= k < i ==> !(#[trigger] states[k]).active) ==> crate::collect_view::after_active(
            states,
        ) == i + 1,
        (forall|k: int| 0 <= k < states.len() ==> !(#[trigger] states[k]).active)
            ==> crate::collect_view::after_active(states) == 0,
    decreases states.len(),
{
    if states.len() > 0 {
        let short = states.drop_last();
        lemma_after_active(short, i);
        assert forall|k: int| 0 <= k < short.len() implies #[trigger] short[k] == states[k] by {}
        if forall|k: int| 0 <= k < states.len() ==> !(#[trigger] states[k]).active {
            assert(!states[states.len() - 1].active);
            assert forall|k: int| 0 <= k < short.len() implies !(#[trigger] short[k]).active by {
                assert(!states[k].active);
            }
        }
        if i == states.len() - 1 && forall|k: int| 0 <= k < i ==> !(#[trigger] states[k]).active {
            assert forall|k: int| 0 <= k < short.len() implies !(#[trigger] short[k]).active by {
                assert(!states[k].active);
            }
        }
        if 0 <= i < short.len() && forall|k: int| 0 <= k < i ==> !(#[trigger] states[k]).active {
            assert forall|k: int| 0 <= k < i implies !(#[trigger] short[k]).active by {
                assert(!states[k].active);
            }
        }
    }
}

/// Whether a row may be fetched at all: no backoff runs, and no claim stands.
pub open spec fn is_free(row: Row, now: i64) -> bool {
    (row.backoff_until is None || row.backoff_until->0 <= now) && (row.claim_until is None
        || row.claim_until->0 <= now)
}

/// Who is fetched of the accounts that are asked for. One that nothing is known of always
/// is. A row that backs off or is claimed never is. Any other is where it is forced. Else a
/// measurement of less than three minutes is left alone unless its plan is due and all that
/// is stale is asked for, and an older one waits for its plan, unless all is asked for.
pub proof fn law_who_is_fetched(
    s: Started,
    before: UsageStore,
    after: UsageStore,
    states: Seq<SlotState>,
    now_marked: Seq<SlotState>,
    opts: CollectOpts,
    models: Seq<String>,
    now: i64,
    pid: u32,
    i: int,
)
    requires
        starts(s, before, after, states, now_marked, opts, models, now, pid),
        distinct_keys(states),
        0 <= i < states.len(),
        states[i].sentinel is None,
        opts.force_slots@.len() == 0 || opts.force_slots@.contains(states[i].slot),
        opts.only is None || opts.only->0@.contains(states[i].slot),
        has_row(crate::pass::healed_rows(before.rows@, states), states[i])
            ==> crate::pass::healed_rows(
            before.rows@,
            states,
        )[states[i].key@].auth_dead_strikes == 0,
    ensures
        ({
            let rows = crate::pass::healed_rows(before.rows@, states);
            let row = rows[states[i].key@];
            let fresh = row.fetched_at is Some && now - row.fetched_at->0 <= 180_000_000;
            let due = row.next_poll_at is Some && row.next_poll_at->0 <= now;
            let won = s.won@.contains_key(states[i].key@);
            &&& !has_row(rows, states[i]) ==> won
            &&& has_row(rows, states[i]) && !is_free(row, now) ==> !won
            &&& has_row(rows, states[i]) && is_free(row, now) && opts.force_slots@.len() > 0 ==> won
            &&& has_row(rows, states[i]) && is_free(row, now) && opts.force_slots@.len() == 0
                && opts.all_stale ==> (won <==> due || !fresh)
            &&& has_row(rows, states[i]) && is_free(row, now) && opts.force_slots@.len() == 0
                && !opts.all_stale ==> (won <==> !fresh && (due || row.next_poll_at is None))
        }),
{
    law_what_is_asked_for_is_put_to_the_table(
        s,
        before,
        after,
        states,
        now_marked,
        opts,
        models,
        now,
        pid,
        i,
    );
    let rows = crate::pass::healed_rows(before.rows@, states);
    let keys = s.candidates@;
    let k = choose|k: int|
        0 <= k < keys.len() && (#[trigger] keys[k]).0 == states[i].key && keys[k].1
            == states[i].meta.email && keys[k].2 == states[i].meta.organization_uuid;
    let dead = dead_marked(states, s.entries@);
    let list = fetchable(dead, opts);
    assert(distinct_keys(dead)) by {
        assert forall|a: int, b: int| 0 <= a < b < dead.len() implies (#[trigger] dead[a]).key@ != (
        #[trigger] dead[b]).key@ by {
            assert(dead[a].key == states[a].key && dead[b].key == states[b].key);
        }
    }
    lemma_fetchable_distinct(dead, opts);
    assert(crate::usage_laws::distinct(keys)) by {
        assert forall|a: int, b: int| 0 <= a < b < keys.len() implies (#[trigger] keys[a]).0@ != (
        #[trigger] keys[b]).0@ by {
            assert(keys[a].0 == list[a].key && keys[b].0 == list[b].key);
        }
    }
    let respect = !opts.all_stale;
    let force = opts.force_slots@.len() > 0;
    let ids = choose|ids: Seq<String>|
        ids.len() == keys.len() && (forall|j: int|
            0 <= j < ids.len() ==> exists|nonce: u64|
                (#[trigger] ids[j])@ == #[trigger] crate::usage_store::claim_text(pid, nonce))
            && #[trigger] crate::usage_store::rows_after(
            rows,
            keys,
            ids,
            respect,
            force,
            now,
            keys.len() as int,
        ) == after.rows@ && crate::usage_store::won_after(
            rows,
            keys,
            ids,
            respect,
            force,
            now,
            keys.len() as int,
        ) == s.won@;
    crate::usage_laws::law_reserve_by_key(
        rows,
        keys,
        ids,
        respect,
        force,
        now,
        k,
    );
}

proof fn lemma_fetchable_distinct(states: Seq<SlotState>, opts: CollectOpts)
    requires
        distinct_keys(states),
    ensures
        forall|a: int, b: int|
            0 <= a < b < fetchable(states, opts).len() ==> (#[trigger] fetchable(
                states,
                opts,
            )[a]).key@ != (#[trigger] fetchable(states, opts)[b]).key@,
    decreases states.len(),
{
    if states.len() > 0 {
        let short = states.drop_last();
        let rest = fetchable(short, opts);
        let out = fetchable(states, opts);
        assert(distinct_keys(short)) by {
            assert forall|a: int, b: int| 0 <= a < b < short.len() implies (
            #[trigger] short[a]).key@ != (#[trigger] short[b]).key@ by {
                assert(states[a].key@ != states[b].key@);
            }
        }
        lemma_fetchable_distinct(short, opts);
        assert forall|a: int, b: int| 0 <= a < b < out.len() implies (#[trigger] out[a]).key@ != (
        #[trigger] out[b]).key@ by {
            assert(out[a] == rest[a]);
            if b < rest.len() {
                assert(out[b] == rest[b]);
            } else {
                let j = lemma_fetchable(short, opts, a);
                assert(states[j].key@ != states[states.len() - 1].key@);
            }
        }
    }
}

} // verus!
