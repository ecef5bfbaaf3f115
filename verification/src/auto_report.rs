//! What a tick reports of the accounts, and the guard against misspelt models.

use vstd::prelude::*;
use vstd::string::*;

use crate::auto::{account_at, account_of, considered, switchable, Reason, TickOutcome};
use crate::auto_rank::{windows_in, Reading, Snapshot};
use crate::auto_tick::Move;
use crate::contract::{AccountView, Window};
use crate::events::{label_of, window_label, Event};
use crate::gating::{gating, relevant};
use crate::history::SlotRef;
use crate::numfmt::{join, joined};
use crate::slot_map::{lemma_no_entries, lemma_prefix, slots_map, SlotMap};
use crate::slots::lists;
use crate::text::{copy_list, lower, lowercase, opt_text, same, texts};
use crate::timefmt::{format_or_empty, format_ts, rfc3339_text, stamp, whole_seconds};
use crate::units::{clip, later};

verus! {

/// Whether labels and percentages are those of some windows.
pub open spec fn labels(pcts: Seq<(String, i64)>, windows: Seq<Window>) -> bool {
    pcts.len() == windows.len() && forall|i: int|
        0 <= i < windows.len() ==> (#[trigger] pcts[i]).0@ == label_of(windows[i]) && pcts[i].1
            == windows[i].pct
}

/// The labels and percentages of the windows that gate an account.
fn label_windows(windows: &Vec<Window>, models: &Vec<String>) -> (r: Vec<(String, i64)>)
    ensures
        labels(r@, gating(windows@, models@)),
{
    let list: Vec<&Window> = relevant(windows, models);
    let ghost all = gating(windows@, models@);
    let mut r: Vec<(String, i64)> = Vec::new();
    let mut i: usize = 0;
    while i < list.len()
        invariant
            i <= list.len(),
            list@.map_values(|w: &Window| *w) == all,
            r@.len() == i,
            forall|k: int|
                0 <= k < i ==> (#[trigger] r@[k]).0@ == label_of(all[k]) && r@[k].1 == all[k].pct,
        decreases list.len() - i,
    {
        assert(all[i as int] == *list@[i as int]);
        r.push((window_label(list[i]), list[i].pct));
        i += 1;
    }
    assert(all.len() == list@.len());
    r
}

/// Whether a map holds the headroom of each reading.
pub open spec fn reports_headroom(m: Map<u32, Option<i64>>, readings: Map<u32, Reading>) -> bool {
    forall|n: u32|
        (#[trigger] m.contains_key(n) <==> readings.contains_key(n)) && (m.contains_key(n) ==> m[n]
            == readings[n].headroom)
}

/// Whether a map holds the failure of each reading that has one.
pub open spec fn reports_errors(m: Map<u32, String>, readings: Map<u32, Reading>) -> bool {
    forall|n: u32|
        (#[trigger] m.contains_key(n) <==> readings.contains_key(n)
            && readings[n].fetch_error is Some) && (m.contains_key(n) ==> Some(m[n])
            == readings[n].fetch_error)
}

/// Whether a map holds the gating windows of each reading that has any.
pub open spec fn reports_windows(
    m: Map<u32, Vec<(String, i64)>>,
    readings: Map<u32, Reading>,
    models: Seq<String>,
) -> bool {
    forall|n: u32|
        (#[trigger] m.contains_key(n) <==> readings.contains_key(n) && gating(
            readings[n].windows@,
            models,
        ).len() > 0) && (m.contains_key(n) ==> labels(m[n]@, gating(readings[n].windows@, models)))
}

/// The poll event of a tick: the headroom of every account, why it is unknown where
/// it is, and the windows that the decision read. Without an active account it
/// holds nothing.
pub fn poll_event(
    active: Option<u32>,
    accounts: &Vec<AccountView>,
    snap: &Snapshot,
    threshold: i64,
    models: &Vec<String>,
) -> (r: Event)
    requires
        snap.wf(),
    ensures
        r matches Event::Poll { active: who, headroom, threshold: at, fetch_errors, windows } && at
            == threshold && headroom.wf() && fetch_errors.wf() && windows.wf() && match active {
            None => who is None && headroom@ == Map::<u32, Option<i64>>::empty() && fetch_errors@
                == Map::<u32, String>::empty() && windows@ == Map::<
                u32,
                Vec<(String, i64)>,
            >::empty(),
            Some(current) => who matches Some(a) && a.slot == Some(current) && a.email@ == (
            match account_at(accounts@, current) {
                Some(x) => x.email@,
                None => ""@,
            }) && reports_headroom(headroom@, snap.readings@) && reports_errors(
                fetch_errors@,
                snap.readings@,
            ) && reports_windows(windows@, snap.readings@, models@),
        },
{
    let mut headroom: SlotMap<Option<i64>> = SlotMap::new();
    let mut fetch_errors: SlotMap<String> = SlotMap::new();
    let mut windows: SlotMap<Vec<(String, i64)>> = SlotMap::new();
    let current: u32 = match active {
        Some(n) => n,
        None => {
            return Event::Poll { active: None, headroom, threshold, fetch_errors, windows };
        },
    };
    let ghost items = snap.readings.items@;
    let mut i: usize = 0;
    proof {
        lemma_no_entries(items.take(0));
    }
    while i < snap.readings.items.len()
        invariant
            i <= items.len(),
            items == snap.readings.items@,
            snap.wf(),
            headroom.wf(),
            fetch_errors.wf(),
            windows.wf(),
            reports_headroom(headroom@, slots_map(items.take(i as int))),
            reports_errors(fetch_errors@, slots_map(items.take(i as int))),
            reports_windows(windows@, slots_map(items.take(i as int)), models@),
        decreases items.len() - i,
    {
        let slot: u32 = snap.readings.items[i].0;
        let reading: &Reading = &snap.readings.items[i].1;
        let ghost was = slots_map(items.take(i as int));
        let ghost now = slots_map(items.take(i + 1));
        proof {
            lemma_prefix(items, i as int);
            assert(!was.contains_key(slot));
            assert(headroom@.contains_key(slot) <==> was.contains_key(slot));
            assert(fetch_errors@.contains_key(slot) ==> was.contains_key(slot));
            assert(windows@.contains_key(slot) ==> was.contains_key(slot));
        }
        headroom.insert(slot, reading.headroom);
        if let Some(kind) = &reading.fetch_error {
            fetch_errors.insert(slot, kind.clone());
        }
        let pcts: Vec<(String, i64)> = label_windows(&reading.windows, models);
        if pcts.len() > 0 {
            windows.insert(slot, pcts);
        }
        i += 1;
    }
    assert(items.take(items.len() as int) =~= items);
    let email: String = match account_of(accounts, current) {
        Some(a) => a.email.clone(),
        None => "".to_owned(),
    };
    Event::Poll {
        active: Some(SlotRef::numbered(current, email)),
        headroom,
        threshold,
        fetch_errors,
        windows,
    }
}

/// The model names but `all`.
pub open spec fn named_models(models: Seq<String>) -> Seq<String>
    decreases models.len(),
{
    if models.len() == 0 {
        Seq::empty()
    } else {
        let rest = named_models(models.drop_last());
        if lowercase(models.last()@) == "all"@ {
            rest
        } else {
            rest.push(models.last())
        }
    }
}

/// The slots whose windows show which models there are.
pub open spec fn watched(accounts: Seq<AccountView>, quarantined: Seq<u32>) -> Seq<u32>
    decreases accounts.len(),
{
    if accounts.len() == 0 {
        Seq::empty()
    } else {
        let rest = watched(accounts.drop_last(), quarantined);
        let a = accounts.last();
        if !quarantined.contains(a.slot) && considered(a, false) {
            rest.push(a.slot)
        } else {
            rest
        }
    }
}

/// Whether some window has a name, but for case.
pub open spec fn has_model(windows: Seq<Window>, l: Seq<char>) -> bool {
    exists|i: int|
        0 <= i < windows.len() && ((#[trigger] windows[i]).name matches Some(x) && lowercase(x@) == l)
}

/// Whether some slot has a window of a model.
pub open spec fn model_seen(slots: Seq<u32>, readings: Map<u32, Reading>, l: Seq<char>) -> bool {
    exists|i: int| 0 <= i < slots.len() && has_model(windows_in(readings, #[trigger] slots[i]), l)
}

/// Whether every slot has been measured.
pub open spec fn all_observed(slots: Seq<u32>, readings: Map<u32, Reading>) -> bool {
    slots.len() > 0 && forall|i: int|
        0 <= i < slots.len() ==> windows_in(readings, #[trigger] slots[i]).len() > 0
}

/// The names that no slot has a window for.
pub open spec fn unseen(names: Seq<String>, slots: Seq<u32>, readings: Map<u32, Reading>) -> Seq<
    String,
>
    decreases names.len(),
{
    if names.len() == 0 {
        Seq::empty()
    } else {
        let rest = unseen(names.drop_last(), slots, readings);
        if model_seen(slots, readings, lowercase(names.last()@)) {
            rest
        } else {
            rest.push(names.last())
        }
    }
}

fn has_window_named(windows: &Vec<Window>, l: &str) -> (r: bool)
    ensures
        r == has_model(windows@, l@),
{
    let mut i: usize = 0;
    while i < windows.len()
        invariant
            i <= windows.len(),
            forall|j: int|
                0 <= j < i ==> !((#[trigger] windows@[j]).name matches Some(x) && lowercase(x@) == l@),
        decreases windows.len() - i,
    {
        if let Some(x) = &windows[i].name {
            if same(lower(x.as_str()).as_str(), l) {
                assert(windows@[i as int].name matches Some(x) && lowercase(x@) == l@);
                return true;
            }
        }
        i += 1;
    }
    false
}

fn is_model_seen(slots: &Vec<u32>, snap: &Snapshot, l: &str) -> (r: bool)
    requires
        snap.wf(),
    ensures
        r == model_seen(slots@, snap.readings@, l@),
{
    let mut i: usize = 0;
    while i < slots.len()
        invariant
            i <= slots.len(),
            snap.wf(),
            forall|j: int|
                0 <= j < i ==> !has_model(windows_in(snap.readings@, #[trigger] slots@[j]), l@),
        decreases slots.len() - i,
    {
        let seen: bool = match snap.readings.get(slots[i]) {
            Some(x) => has_window_named(&x.windows, l),
            None => false,
        };
        if seen {
            assert(has_model(windows_in(snap.readings@, slots@[i as int]), l@));
            return true;
        }
        i += 1;
    }
    false
}

/// What the guard against misspelt models found.
#[derive(Debug)]
pub struct ModelCheck {
    /// Whether it need not be asked again.
    pub done: bool,
    /// The names that no account has a window for.
    pub missing: Vec<String>,
}

/// Looks for configured model names that no account reports: such a name gates
/// nothing. It is only provable once every account that counts has been measured.
pub fn check_model_names(
    accounts: &Vec<AccountView>,
    snap: &Snapshot,
    quarantined: &Vec<u32>,
    models: &Vec<String>,
) -> (r: ModelCheck)
    requires
        snap.wf(),
    ensures
        ({
            let names = named_models(models@);
            let slots = watched(accounts@, quarantined@);
            if names.len() == 0 {
                r.done && r.missing@.len() == 0
            } else if !all_observed(slots, snap.readings@) {
                !r.done && r.missing@.len() == 0
            } else {
                r.done && r.missing@ == unseen(names, slots, snap.readings@)
            }
        }),
{
    let mut names: Vec<String> = Vec::new();
    let mut i: usize = 0;
    assert(models@.take(0) =~= Seq::empty());
    while i < models.len()
        invariant
            i <= models.len(),
            names@ == named_models(models@.take(i as int)),
        decreases models.len() - i,
    {
        assert(models@.take(i + 1).drop_last() =~= models@.take(i as int));
        if !same(lower(models[i].as_str()).as_str(), "all") {
            names.push(models[i].clone());
        }
        i += 1;
    }
    assert(models@.take(models@.len() as int) =~= models@);
    if names.len() == 0 {
        return ModelCheck { done: true, missing: Vec::new() };
    }
    let mut slots: Vec<u32> = Vec::new();
    let mut k: usize = 0;
    assert(accounts@.take(0) =~= Seq::empty());
    while k < accounts.len()
        invariant
            k <= accounts.len(),
            slots@ == watched(accounts@.take(k as int), quarantined@),
        decreases accounts.len() - k,
    {
        assert(accounts@.take(k + 1).drop_last() =~= accounts@.take(k as int));
        if !lists(quarantined, accounts[k].slot) && switchable(&accounts[k], false) {
            slots.push(accounts[k].slot);
        }
        k += 1;
    }
    assert(accounts@.take(accounts@.len() as int) =~= accounts@);
    if slots.len() == 0 {
        return ModelCheck { done: false, missing: Vec::new() };
    }
    let mut m: usize = 0;
    while m < slots.len()
        invariant
            m <= slots.len(),
            names@ == named_models(models@),
            names@.len() > 0,
            slots@ == watched(accounts@, quarantined@),
            snap.wf(),
            forall|j: int|
                0 <= j < m ==> windows_in(snap.readings@, #[trigger] slots@[j]).len() > 0,
        decreases slots.len() - m,
    {
        let observed: bool = match snap.readings.get(slots[m]) {
            Some(x) => x.windows.len() > 0,
            None => false,
        };
        if !observed {
            assert(windows_in(snap.readings@, slots@[m as int]).len() == 0);
            return ModelCheck { done: false, missing: Vec::new() };
        }
        m += 1;
    }
    let mut missing: Vec<String> = Vec::new();
    let mut n: usize = 0;
    assert(names@.take(0) =~= Seq::empty());
    while n < names.len()
        invariant
            n <= names.len(),
            snap.wf(),
            missing@ == unseen(names@.take(n as int), slots@, snap.readings@),
        decreases names.len() - n,
    {
        assert(names@.take(n + 1).drop_last() =~= names@.take(n as int));
        if !is_model_seen(&slots, snap, lower(names[n].as_str()).as_str()) {
            missing.push(names[n].clone());
        }
        n += 1;
    }
    assert(names@.take(names@.len() as int) =~= names@);
    ModelCheck { done: true, missing }
}

/// Whether an event warns about model names that no account reports.
pub open spec fn warns_of(e: Event, missing: Seq<String>) -> bool {
    e matches Event::ConfigWarning { message } && message@ == "model: "@ + joined(
        texts(missing),
        ", "@,
    )
        + " matches no account's usage windows — only the 5h/7d limits are being watched for it (typo?)"@
}

/// The warning about model names that no account reports.
pub fn model_warning(missing: &Vec<String>) -> (r: Event)
    ensures
        warns_of(r, missing@),
{
    Event::ConfigWarning {
        message: "model: ".to_owned().concat(join(missing, ", ").as_str()).concat(
            " matches no account's usage windows — only the 5h/7d limits are being watched for it (typo?)",
        ),
    }
}

/// What is reported of a tick that does nothing.
pub open spec fn reports(e: Event, reason: Reason, api_keys: Seq<u32>) -> bool {
    e matches Event::NoSwitch { reason: r, detail } && r@ == reason.text() && detail@
        == reason.detail_text(api_keys)
}

/// What is reported of a tick that does nothing, and why.
pub fn hold_event(reason: Reason, api_keys: &Vec<u32>) -> (r: Event)
    ensures
        reports(r, reason, api_keys@),
{
    Event::NoSwitch { reason: reason.name().to_owned(), detail: reason.detail(api_keys) }
}

/// Whether an event reports that every account is at its limit.
pub open spec fn reports_exhausted(e: Event, earliest: Option<i64>) -> bool {
    e matches Event::AllExhausted { earliest_reset_at } && opt_text(earliest_reset_at) == (
    match earliest {
        Some(t) => rfc3339_text(whole_seconds(t)),
        None => None,
    })
}

/// What is reported where every account is at its limit.
pub fn exhausted_event(earliest: Option<i64>) -> (r: Event)
    ensures
        reports_exhausted(r, earliest),
{
    Event::AllExhausted {
        earliest_reset_at: match earliest {
            Some(t) => format_ts(t),
            None => None,
        },
    }
}

/// What is reported of the sleep before the next tick.
pub fn sleep_event(delay: i64, now: i64) -> (r: Event)
    ensures
        r matches Event::Sleep { seconds, until } && seconds == delay && until@ == stamp(
            clip(now + delay),
        ),
{
    Event::Sleep { seconds: delay, until: format_or_empty(later(now, delay)) }
}

/// What is said of a switch whose cooldown could not be recorded.
pub fn unrecorded_switch(why: &str) -> (r: String)
    ensures
        r@ == "the switch landed but its cooldown and no-return bar were not recorded ("@ + why@
            + "); the next tick may switch again sooner than the cooldown asks"@,
{
    "the switch landed but its cooldown and no-return bar were not recorded (".to_owned().concat(
        why,
    ).concat("); the next tick may switch again sooner than the cooldown asks")
}

/// Whether a tick ends so that has come to a move, and what is reported of it.
pub open spec fn ends(
    e: Event,
    outcome: TickOutcome,
    next: Move,
    refused: Option<String>,
    failed: bool,
) -> bool {
    match next {
        Move::Switch(_) | Move::Remeasure(_) => false,
        Move::Stale(slot) => outcome is NoAction && reports(
            e,
            Reason::StaleUsage { slot, failed },
            Seq::empty(),
        ),
        Move::Unsupported => outcome is Blocked && (e matches Event::NoSwitch { reason, detail }
            && reason@ == "unsupported"@ && detail@ == (match refused {
            Some(why) => why@,
            None => ""@,
        })),
        Move::Network => outcome is Error && (e matches Event::Error { message, transient }
            && transient && message@ == "could not freshen any candidate (network?)"@),
        Move::NoViableTarget => outcome is Blocked && reports(
            e,
            Reason::NoViableTarget,
            Seq::empty(),
        ),
    }
}

/// How a tick ends whose targets are used up, and what is reported of it: `None` while
/// there is something left to do. `refused` is what the last target said that cannot be
/// made live; `failed` whether the pick was measured again in vain, rather than not at
/// all.
pub fn ended(next: Move, refused: &Option<String>, failed: bool) -> (r: Option<
    (Event, TickOutcome),
>)
    ensures
        r is None <==> next is Switch || next is Remeasure,
        r matches Some(x) ==> ends(x.0, x.1, next, *refused, failed),
{
    let none: Vec<u32> = Vec::new();
    assert(none@ =~= Seq::empty());
    match next {
        Move::Switch(_) => None,
        Move::Remeasure(_) => None,
        Move::Stale(slot) => Some(
            (hold_event(Reason::StaleUsage { slot, failed }, &none), TickOutcome::NoAction),
        ),
        Move::Unsupported => Some(
            (
                Event::NoSwitch {
                    reason: "unsupported".to_owned(),
                    detail: match refused {
                        Some(why) => why.clone(),
                        None => "".to_owned(),
                    },
                },
                TickOutcome::Blocked,
            ),
        ),
        Move::Network => Some(
            (
                Event::Error {
                    message: "could not freshen any candidate (network?)".to_owned(),
                    transient: true,
                },
                TickOutcome::Error,
            ),
        ),
        Move::NoViableTarget => Some(
            (hold_event(Reason::NoViableTarget, &none), TickOutcome::Blocked),
        ),
    }
}

/// Whether the guard against misspelt models has done its work, and for which models.
#[derive(Debug)]
pub struct ModelGuard {
    pub models: Option<Vec<String>>,
    pub done: bool,
}

/// Whether two lists hold the same texts.
fn same_texts(a: &Vec<String>, b: &Vec<String>) -> (r: bool)
    ensures
        r == (texts(a@) == texts(b@)),
{
    if a.len() != b.len() {
        assert(texts(a@).len() != texts(b@).len());
        return false;
    }
    let mut i: usize = 0;
    while i < a.len()
        invariant
            i <= a.len(),
            a@.len() == b@.len(),
            forall|k: int| 0 <= k < i ==> a@[k]@ == #[trigger] b@[k]@,
        decreases a.len() - i,
    {
        if !same(a[i].as_str(), b[i].as_str()) {
            assert(texts(a@)[i as int] != texts(b@)[i as int]);
            return false;
        }
        i += 1;
    }
    assert(texts(a@) =~= texts(b@));
    true
}

impl ModelGuard {
    /// A guard that has seen nothing.
    pub fn new() -> (r: ModelGuard)
        ensures
            r.models is None,
            !r.done,
    {
        ModelGuard { models: None, done: false }
    }

    /// Whether the guard is armed for some models.
    pub open spec fn is_for(self, models: Seq<String>) -> bool {
        self.models matches Some(m) && texts(m@) == texts(models)
    }

    /// Whether there is nothing to ask about some models: it was asked, or there are none.
    pub open spec fn done_for(self, models: Seq<String>) -> bool {
        if self.is_for(models) {
            self.done
        } else {
            models.len() == 0
        }
    }

    /// Arms the guard for the models that are configured now: it asks once for each
    /// value of the setting, and never where there is none.
    pub fn arm(&mut self, models: &Vec<String>)
        ensures
            final(self).is_for(models@),
            final(self).done == old(self).done_for(models@),
    {
        let known: bool = match &self.models {
            Some(m) => same_texts(m, models),
            None => false,
        };
        if !known {
            self.done = models.len() == 0;
            self.models = Some(copy_list(models));
        }
    }

    /// Looks for misspelt models unless that is done, and answers with the warning where
    /// there is one to give.
    pub fn look(
        &mut self,
        accounts: &Vec<AccountView>,
        snap: &Snapshot,
        quarantined: &Vec<u32>,
        models: &Vec<String>,
    ) -> (r: Option<Event>)
        requires
            snap.wf(),
        ensures
            final(self).models == old(self).models,
            ({
                let names = named_models(models@);
                let slots = watched(accounts@, quarantined@);
                let ready = names.len() == 0 || all_observed(slots, snap.readings@);
                let missing = if names.len() > 0 && ready {
                    unseen(names, slots, snap.readings@)
                } else {
                    Seq::empty()
                };
                &&& final(self).done == (old(self).done || ready)
                &&& r is Some == (!old(self).done && missing.len() > 0)
                &&& r matches Some(e) ==> warns_of(e, missing)
            }),
    {
        if self.done {
            return None;
        }
        let check: ModelCheck = check_model_names(accounts, snap, quarantined, models);
        self.done = check.done;
        if check.missing.len() == 0 {
            return None;
        }
        Some(model_warning(&check.missing))
    }
}

/// The guard warns at most once for one value of the setting: once it is done for some
/// models it stays so while they are configured, and it asks again when they change.
pub proof fn law_the_guard_warns_once(guard: ModelGuard, models: Seq<String>, others: Seq<String>)
    requires
        guard.done,
        guard.is_for(models),
        texts(others) != texts(models),
        others.len() > 0,
    ensures
        guard.done_for(models),
        !guard.done_for(others),
{
}

} // verus!
