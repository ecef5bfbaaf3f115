//! A collection pass put together: before the fetches, after each, and after all.

use vstd::prelude::*;
use vstd::string::*;

use crate::collect::{
    all_keys, dead_mark, expired_mark, fetch_candidates, fetchable, keyed_for, mark_dead,
    mark_expired, CollectOpts, SlotState,
};
use crate::collect_view::{
    active_of, after_active, first_back, first_healthy, provider_view, shows_recovery, views_of,
};
use crate::contract::{ProviderView, UsageStatus, Window};
use crate::fetch::Record;
use crate::poll_policy::PlanInput;
use crate::table::Table;
use crate::text::opt_text;
use crate::usage_store::{
    failed_row, healed_row, holds_lease, refused_recently, reserves, snapshot_of, succeeded, Entry,
    Row, UsageStore,
};

verus! {

/// Whether a slot whose login was replaced carries strikes that condemned the old one.
pub open spec fn to_heal(st: SlotState, rows: Map<Seq<char>, Row>) -> bool {
    &&& st.adopt
    &&& rows.contains_key(st.key@)
    &&& rows[st.key@].email@ == st.meta.email@
    &&& rows[st.key@].org@ == st.meta.organization_uuid@
    &&& rows[st.key@].auth_dead_strikes > 0
}

/// The table with the strikes lifted of the slots whose login was replaced.
pub open spec fn healed_rows(rows: Map<Seq<char>, Row>, states: Seq<SlotState>) -> Map<
    Seq<char>,
    Row,
>
    decreases states.len(),
{
    if states.len() == 0 {
        rows
    } else {
        let was = healed_rows(rows, states.drop_last());
        let st = states.last();
        if to_heal(st, was) {
            was.insert(st.key@, healed_row(was[st.key@]))
        } else {
            was
        }
    }
}

/// Lifts the strikes of the slots whose login was replaced: they condemned another.
pub fn heal_adopted(store: &mut UsageStore, states: &Vec<SlotState>)
    requires
        old(store).wf(),
    ensures
        final(store).wf(),
        final(store).rows@ == healed_rows(old(store).rows@, states@),
{
    let ghost rows = store.rows@;
    let mut i: usize = 0;
    assert(states@.take(0) =~= Seq::empty());
    while i < states.len()
        invariant
            i <= states.len(),
            store.wf(),
            store.rows@ == healed_rows(rows, states@.take(i as int)),
        decreases states.len() - i,
    {
        assert(states@.take(i + 1).drop_last() =~= states@.take(i as int));
        let st: &SlotState = &states[i];
        let struck: bool = match store.rows.get(st.key.as_str()) {
            Some(row) => st.adopt && crate::text::same(row.email.as_str(), st.meta.email.as_str())
                && crate::text::same(row.org.as_str(), st.meta.organization_uuid.as_str())
                && row.auth_dead_strikes > 0,
            None => false,
        };
        if struck {
            store.clear_dead(st.key.as_str());
        }
        i += 1;
    }
    assert(states@.take(states@.len() as int) =~= states@);
}

/// What a pass has before the fetches.
#[derive(Debug)]
pub struct Started {
    /// The keys and identities of all accounts.
    pub keys: Vec<(String, String, String)>,
    /// What each account sees of the table.
    pub entries: Table<Entry>,
    /// Those that may be fetched.
    pub candidates: Vec<(String, String, String)>,
    /// The claims that were won.
    pub won: Table<String>,
}

/// A state with the mark that the table and the claims give it.
pub open spec fn marked(
    st: SlotState,
    entries: Map<Seq<char>, Entry>,
    won: Map<Seq<char>, String>,
    now: i64,
) -> SlotState {
    let dead = SlotState { sentinel: dead_mark(st, entries), ..st };
    SlotState { sentinel: expired_mark(dead, won, now), ..dead }
}

/// A state with the mark of a dead token.
pub open spec fn dead_marked(states: Seq<SlotState>, entries: Map<Seq<char>, Entry>) -> Seq<
    SlotState,
> {
    states.map_values(
        |st: SlotState| SlotState { sentinel: dead_mark(st, entries), ..st },
    )
}

/// Whether a pass was started: the strikes of replaced logins are lifted; every account
/// is seen as the table then has it; a dead token marks its account; of the accounts
/// without a mark that are asked for, those that the table lets through are claimed; and
/// an expired active login that nothing fetches is marked.
pub open spec fn starts(
    s: Started,
    before: UsageStore,
    after: UsageStore,
    states: Seq<SlotState>,
    marks: Seq<SlotState>,
    opts: CollectOpts,
    models: Seq<String>,
    now: i64,
    pid: u32,
) -> bool {
    let rows = healed_rows(before.rows@, states);
    &&& keyed_for(s.keys@, states)
    &&& s.entries.wf()
    &&& snapshot_of(rows, s.keys@, models, now, s.entries@)
    &&& keyed_for(s.candidates@, fetchable(dead_marked(states, s.entries@), opts))
    &&& s.won.wf()
    &&& reserves(
        rows,
        s.candidates@,
        !opts.all_stale,
        opts.force_slots@.len() > 0,
        now,
        pid,
        after.rows@,
        s.won@,
    )
    &&& marks.len() == states.len()
    &&& forall|i: int|
        0 <= i < states.len() ==> #[trigger] marks[i] == marked(states[i], s.entries@, s.won@, now)
}

/// Starts a pass: everything up to the fetches. The table is that under its lock.
pub fn begin_pass(
    states: &mut Vec<SlotState>,
    store: &mut UsageStore,
    opts: &CollectOpts,
    models: &Vec<String>,
    now: i64,
    pid: u32,
) -> (s: Started)
    requires
        old(store).wf(),
    ensures
        final(store).wf(),
        starts(
            s,
            *old(store),
            *final(store),
            old(states)@,
            final(states)@,
            *opts,
            models@,
            now,
            pid,
        ),
{
    let ghost first = states@;
    heal_adopted(store, states);
    let keys: Vec<(String, String, String)> = all_keys(states);
    let entries: Table<Entry> = store.entries(&keys, models, now);
    mark_dead(states, &entries);
    assert(states@ =~= dead_marked(first, entries@));
    let candidates: Vec<(String, String, String)> = fetch_candidates(states, opts);
    let won: Table<String> = store.reserve(
        &candidates,
        !opts.all_stale,
        opts.force_slots.len() > 0,
        now,
        pid,
    );
    mark_expired(states, &won, now);
    Started { keys, entries, candidates, won }
}

/// Records what a fetch ended with, under its claim.
pub fn record_outcome(
    store: &mut UsageStore,
    st: &SlotState,
    claim: &str,
    record: Record,
    windows: Vec<Window>,
    threshold: i64,
    models: &Vec<String>,
    now: i64,
    roll: u32,
)
    requires
        old(store).wf(),
        old(store).rows@.contains_key(st.key@) ==> old(store).rows@[st.key@].consecutive_failures
            < u32::MAX && old(store).rows@[st.key@].auth_dead_strikes < u32::MAX,
    ensures
        final(store).wf(),
        ({
            let rows = old(store).rows@;
            let k = st.key@;
            if rows.contains_key(k) && holds_lease(rows[k], claim@) {
                let row = rows[k];
                match record {
                    Record::Success => {
                        &&& final(store).rows@ == rows.insert(k, final(store).rows@[k])
                        &&& exists|prev: Vec<Window>|
                            prev@ == (match row.last_good {
                                Some(w) => w@,
                                None => Seq::<Window>::empty(),
                            }) && #[trigger] succeeded(
                                row,
                                final(store).rows@[k],
                                windows,
                                PlanInput {
                                    prev_interval_s: row.interval_s,
                                    prev: Some(&prev),
                                    new: &windows,
                                    is_active: st.active,
                                    threshold,
                                    models,
                                    recent_429: refused_recently(
                                        row.last_429_at,
                                        opt_text(row.last_error),
                                        row.backoff_until,
                                        now,
                                    ),
                                    now,
                                },
                                roll,
                                now,
                            )
                    },
                    Record::Failure { kind, retry_after, strike } => final(store).rows@
                        == rows.insert(
                        k,
                        failed_row(
                            row,
                            kind,
                            retry_after,
                            match (strike, st.login) {
                                (true, Some(c)) => Some(c.fingerprint),
                                _ => None,
                            },
                            now,
                        ),
                    ),
                    Record::Release => final(store).rows@ == rows.insert(
                        k,
                        Row { claim_id: None, claim_until: None, ..row },
                    ),
                }
            } else {
                *final(store) == *old(store)
            }
        }),
{
    match record {
        Record::Success => {
            store.record_success(
                st.key.as_str(),
                claim,
                windows,
                st.active,
                threshold,
                models,
                now,
                roll,
            );
        },
        Record::Failure { kind, retry_after, strike } => {
            let struck: Option<String> = match (strike, &st.login) {
                (true, Some(c)) => Some(c.fingerprint.clone()),
                _ => None,
            };
            store.record_failure(st.key.as_str(), claim, kind, retry_after, struck, now);
        },
        Record::Release => {
            store.release(st.key.as_str(), claim);
        },
    }
}

/// A state with the mark of its fetch, where it has none, and then that of a dead token.
pub open spec fn finished(
    st: SlotState,
    mark: Option<UsageStatus>,
    entries: Map<Seq<char>, Entry>,
) -> SlotState {
    let fetched = SlotState {
        sentinel: match st.sentinel {
            Some(s) => Some(s),
            None => mark,
        },
        ..st
    };
    SlotState { sentinel: dead_mark(fetched, entries), ..fetched }
}

/// Whether a view is what a pass reports.
pub open spec fn reports(
    v: ProviderView,
    provider: Seq<char>,
    installed: bool,
    states: Seq<SlotState>,
    entries: Map<Seq<char>, Entry>,
    models: Seq<String>,
    threshold: i64,
    now: i64,
) -> bool {
    &&& v.provider@ == provider
    &&& v.installed == installed
    &&& v.active_slot == active_of(states)
    &&& v.next_candidate == first_healthy(
        states,
        after_active(states),
        entries,
        models,
        threshold,
        states.len() as int,
    )
    &&& shows_recovery(v.next_recovery, first_back(states, entries, models))
    &&& views_of(v.accounts@, states, entries, now)
}

/// Ends a pass: the marks that the fetches earned, the table as they left it, and the
/// quarantine that it may show.
pub fn finish_pass(
    states: &mut Vec<SlotState>,
    marks: &Vec<Option<UsageStatus>>,
    store: &UsageStore,
    keys: &Vec<(String, String, String)>,
    provider: &str,
    installed: bool,
    unreadable: Option<String>,
    recorded_active: Option<u32>,
    models: &Vec<String>,
    threshold: i64,
    now: i64,
) -> (v: ProviderView)
    requires
        store.wf(),
        marks@.len() == old(states)@.len(),
    ensures
        exists|entries: Map<Seq<char>, Entry>| #[trigger]
            snapshot_of(store.rows@, keys@, models@, now, entries) && final(states)@.len() == old(
                states,
            )@.len() && (forall|i: int|
                0 <= i < old(states)@.len() ==> #[trigger] final(states)@[i] == finished(
                    old(states)@[i],
                    marks@[i],
                    entries,
                )) && reports(
                v,
                provider@,
                installed,
                final(states)@,
                entries,
                models@,
                threshold,
                now,
            ),
        v.active_unreadable == if v.active_slot is None {
            unreadable
        } else {
            None
        },
        v.last_known_active_slot == if v.active_unreadable is Some {
            recorded_active
        } else {
            None
        },
{
    let mut i: usize = 0;
    while i < states.len()
        invariant
            i <= states.len(),
            states@.len() == old(states)@.len(),
            marks@.len() == states@.len(),
            forall|k: int|
                0 <= k < i ==> #[trigger] states@[k] == (SlotState {
                    sentinel: match old(states)@[k].sentinel {
                        Some(s) => Some(s),
                        None => marks@[k],
                    },
                    ..old(states)@[k]
                }),
            forall|k: int| i <= k < states@.len() ==> #[trigger] states@[k] == old(states)@[k],
        decreases states.len() - i,
    {
        if states[i].sentinel.is_none() {
            states[i].sentinel = marks[i];
        }
        i += 1;
    }
    let entries: Table<Entry> = store.entries(keys, models, now);
    mark_dead(states, &entries);
    proof {
        assert(snapshot_of(store.rows@, keys@, models@, now, entries@));
    }
    provider_view(
        provider,
        installed,
        states,
        &entries,
        models,
        threshold,
        unreadable,
        recorded_active,
        now,
    )
}

} // verus!
