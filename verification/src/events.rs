//! What the loop says: one event per decision, as JSON and as a line of text.

use vstd::prelude::*;
use vstd::string::*;

use crate::contract::{Window, WindowKind};
use crate::history::SlotRef;
use crate::json::{
    int_or_null, is_opt_text, is_text, is_text_list, micro_or_null, opt_int, opt_micro, put_slot,
    slot_object, text_list, Json,
};
use crate::numfmt::{join, joined, pct_label, pct_text, show_whole, whole_text};
use crate::slot_map::SlotMap;
use crate::table::Table;
use crate::text::{decimal, opt_text, show, texts};
use crate::units::FULL_PCT;

verus! {

/// The version that every event carries.
pub const SCHEMA_VERSION: i128 = 1;

/// A window's label.
pub open spec fn label_of(w: Window) -> Seq<char> {
    match w.kind {
        WindowKind::FiveHour => "5h"@,
        WindowKind::SevenDay => "7d"@,
        WindowKind::Daily => "daily"@,
        WindowKind::Monthly => "monthly"@,
        WindowKind::Spend => "spend"@,
        WindowKind::Scoped => match w.name {
            Some(name) => name@,
            None => "scoped"@,
        },
    }
}

/// One window's label: `5h`, `7d`, or the scoped window's own name.
pub fn window_label(window: &Window) -> (r: String)
    ensures
        r@ == label_of(*window),
{
    match window.kind {
        WindowKind::FiveHour => "5h".to_owned(),
        WindowKind::SevenDay => "7d".to_owned(),
        WindowKind::Daily => "daily".to_owned(),
        WindowKind::Monthly => "monthly".to_owned(),
        WindowKind::Spend => "spend".to_owned(),
        WindowKind::Scoped => match &window.name {
            Some(name) => name.clone(),
            None => "scoped".to_owned(),
        },
    }
}

/// What the loop has to say.
#[derive(Debug)]
pub enum Event {
    Poll {
        /// The active account, or `None` when nothing manages the live login.
        active: Option<SlotRef>,
        /// The headroom of each slot, `None` where it could not be measured.
        headroom: SlotMap<Option<i64>>,
        threshold: i64,
        /// The kind of failure that explains an unknown headroom.
        fetch_errors: SlotMap<String>,
        /// The windows that the decision read, in report order.
        windows: SlotMap<Vec<(String, i64)>>,
    },
    Switch { trigger: String, from: Option<SlotRef>, to: SlotRef, warnings: Vec<String> },
    NoSwitch { reason: String, detail: String },
    Quarantined { account: SlotRef, reason: String },
    Unquarantined { account: SlotRef, reason: String },
    AllExhausted { earliest_reset_at: Option<String> },
    Sleep { seconds: i64, until: String },
    Error { message: String, transient: bool },
    EngineRefused { message: String },
    ConfigWarning { message: String },
}

/// One event with the moment and the provider that it is about.
#[derive(Debug)]
pub struct Emit {
    pub ts: String,
    pub provider: String,
    pub event: Event,
}

/// Whether a value names an account; null where there is none.
pub open spec fn names_account(j: Json, account: Option<SlotRef>) -> bool {
    match account {
        Some(a) => j matches Json::Object(o) && o.wf() && o@.dom() == set![
            "number"@,
            "slot"@,
            "email"@,
        ] && o@["number"@] == opt_int(a.slot) && o@["slot"@] == opt_int(a.slot) && o@["email"@]
            == Json::Str(a.email),
        None => j is Null,
    }
}

proof fn lemma_account_keys_differ()
    ensures
        "number"@ != "slot"@,
        "number"@ != "email"@,
        "slot"@ != "email"@,
{
    reveal_strlit("number");
    reveal_strlit("slot");
    reveal_strlit("email");
    assert("number"@.len() == 6 && "slot"@.len() == 4 && "email"@.len() == 5);
}

/// An account as a value: its number under two names, and its email.
pub fn account_ref(account: Option<&SlotRef>) -> (r: Json)
    ensures
        names_account(
            r,
            match account {
                Some(a) => Some(*a),
                None => None,
            },
        ),
{
    match account {
        Some(a) => {
            proof {
                lemma_account_keys_differ();
            }
            let mut o: Table<Json> = Table::new();
            o.insert("number".to_owned(), int_or_null(a.slot));
            o.insert("slot".to_owned(), int_or_null(a.slot));
            o.insert("email".to_owned(), Json::Str(a.email.clone()));
            assert(o@.dom() =~= set!["number"@, "slot"@, "email"@]);
            Json::Object(o)
        },
        None => Json::Null,
    }
}

/// The headroom of each slot as values.
pub open spec fn headroom_items(items: Seq<(u32, Option<i64>)>) -> Seq<(u32, Json)> {
    items.map_values(|p: (u32, Option<i64>)| (p.0, opt_micro(p.1)))
}

/// The failures of each slot as values.
pub open spec fn error_items(items: Seq<(u32, String)>) -> Seq<(u32, Json)> {
    items.map_values(|p: (u32, String)| (p.0, Json::Str(p.1)))
}

/// The object of labels and percentages; of two equal labels the later counts.
pub open spec fn pct_object(pcts: Seq<(String, i64)>) -> Map<Seq<char>, Json>
    decreases pcts.len(),
{
    if pcts.len() == 0 {
        Map::empty()
    } else {
        pct_object(pcts.drop_last()).insert(pcts.last().0@, Json::Micro(pcts.last().1))
    }
}

/// Whether values are the windows of each slot.
pub open spec fn window_items(items: Seq<(u32, Vec<(String, i64)>)>, built: Seq<(u32, Json)>) -> bool {
    built.len() == items.len() && forall|i: int|
        0 <= i < items.len() ==> (#[trigger] built[i]).0 == items[i].0 && (
        built[i].1 matches Json::Object(o) && o.wf() && o@ == pct_object(items[i].1@))
}

fn headroom_object(map: &SlotMap<Option<i64>>) -> (r: Table<Json>)
    ensures
        r.wf(),
        r@ == slot_object(headroom_items(map.items@)),
{
    let ghost all = headroom_items(map.items@);
    let mut out: Table<Json> = Table::new();
    let mut i: usize = 0;
    assert(all.take(0) =~= Seq::empty());
    while i < map.items.len()
        invariant
            i <= map.items.len(),
            all == headroom_items(map.items@),
            out.wf(),
            out@ == slot_object(all.take(i as int)),
        decreases map.items.len() - i,
    {
        let slot: u32 = map.items[i].0;
        let value: Json = micro_or_null(map.items[i].1);
        assert(all.take(i + 1) =~= all.take(i as int).push((slot, value)));
        put_slot(&mut out, Ghost(all.take(i as int)), slot, value);
        i += 1;
    }
    assert(all.take(all.len() as int) =~= all);
    out
}

fn error_object(map: &SlotMap<String>) -> (r: Table<Json>)
    ensures
        r.wf(),
        r@ == slot_object(error_items(map.items@)),
{
    let ghost all = error_items(map.items@);
    let mut out: Table<Json> = Table::new();
    let mut i: usize = 0;
    assert(all.take(0) =~= Seq::empty());
    while i < map.items.len()
        invariant
            i <= map.items.len(),
            all == error_items(map.items@),
            out.wf(),
            out@ == slot_object(all.take(i as int)),
        decreases map.items.len() - i,
    {
        let slot: u32 = map.items[i].0;
        let value: Json = Json::Str(map.items[i].1.clone());
        assert(all.take(i + 1) =~= all.take(i as int).push((slot, value)));
        put_slot(&mut out, Ghost(all.take(i as int)), slot, value);
        i += 1;
    }
    assert(all.take(all.len() as int) =~= all);
    out
}

fn pcts_object(pcts: &Vec<(String, i64)>) -> (r: Table<Json>)
    ensures
        r.wf(),
        r@ == pct_object(pcts@),
{
    let mut out: Table<Json> = Table::new();
    let mut i: usize = 0;
    assert(pcts@.take(0) =~= Seq::empty());
    while i < pcts.len()
        invariant
            i <= pcts.len(),
            out.wf(),
            out@ == pct_object(pcts@.take(i as int)),
        decreases pcts.len() - i,
    {
        assert(pcts@.take(i + 1).drop_last() =~= pcts@.take(i as int));
        out.insert(pcts[i].0.clone(), Json::Micro(pcts[i].1));
        i += 1;
    }
    assert(pcts@.take(pcts@.len() as int) =~= pcts@);
    out
}

fn window_object(map: &SlotMap<Vec<(String, i64)>>) -> (r: Table<Json>)
    ensures
        r.wf(),
        exists|built: Seq<(u32, Json)>|
            window_items(map.items@, built) && r@ == #[trigger] slot_object(built),
{
    let ghost mut built: Seq<(u32, Json)> = Seq::empty();
    let mut out: Table<Json> = Table::new();
    let mut i: usize = 0;
    while i < map.items.len()
        invariant
            i <= map.items.len(),
            out.wf(),
            out@ == slot_object(built),
            window_items(map.items@.take(i as int), built),
        decreases map.items.len() - i,
    {
        let slot: u32 = map.items[i].0;
        let value: Json = Json::Object(pcts_object(&map.items[i].1));
        let ghost was = built;
        put_slot(&mut out, Ghost(built), slot, value);
        proof {
            built = built.push((slot, value));
            let part = map.items@.take(i + 1);
            assert forall|k: int| 0 <= k < part.len() implies (#[trigger] built[k]).0 == part[k].0
                && (built[k].1 matches Json::Object(o) && o.wf() && o@ == pct_object(part[k].1@)) by {
                if k < i {
                    assert(built[k] == was[k]);
                    assert(part[k] == map.items@.take(i as int)[k]);
                }
            }
        }
        i += 1;
    }
    assert(map.items@.take(map.items@.len() as int) =~= map.items@);
    out
}

/// A duration in microseconds, rounded to tenths of a second.
pub open spec fn tenths(seconds: i64) -> int {
    if seconds >= 0 {
        (seconds + 50_000) / 100_000 * 100_000
    } else {
        -((-seconds + 50_000) / 100_000 * 100_000)
    }
}

impl Event {
    /// The name of the kind of event.
    pub open spec fn kind_text(&self) -> Seq<char> {
        match self {
            Event::Poll { .. } => "poll"@,
            Event::Switch { .. } => "switch"@,
            Event::NoSwitch { .. } => "no-switch"@,
            Event::Quarantined { .. } => "account-quarantined"@,
            Event::Unquarantined { .. } => "account-unquarantined"@,
            Event::AllExhausted { .. } => "all-exhausted"@,
            Event::Sleep { .. } => "sleep"@,
            Event::Error { .. } => "error"@,
            Event::EngineRefused { .. } => "engine-refused"@,
            Event::ConfigWarning { .. } => "config-warning"@,
        }
    }

    /// The name of the kind of event.
    pub fn kind(&self) -> (r: &'static str)
        ensures
            r@ == self.kind_text(),
    {
        match self {
            Event::Poll { .. } => "poll",
            Event::Switch { .. } => "switch",
            Event::NoSwitch { .. } => "no-switch",
            Event::Quarantined { .. } => "account-quarantined",
            Event::Unquarantined { .. } => "account-unquarantined",
            Event::AllExhausted { .. } => "all-exhausted",
            Event::Sleep { .. } => "sleep",
            Event::Error { .. } => "error",
            Event::EngineRefused { .. } => "engine-refused",
            Event::ConfigWarning { .. } => "config-warning",
        }
    }

    /// Whether a list of named values is the payload of the event.
    pub open spec fn has_fields(&self, f: Seq<(String, Json)>) -> bool {
        match self {
            Event::Poll { active, headroom, threshold, fetch_errors, windows } => {
                &&& f.len() == 5
                &&& f[0].0@ == "active"@ && names_account(f[0].1, *active)
                &&& f[1].0@ == "headroomPct"@ && (f[1].1 matches Json::Object(o) && o.wf() && o@
                    == slot_object(headroom_items(headroom.items@)))
                &&& f[2].0@ == "threshold"@ && f[2].1 == Json::Micro(*threshold)
                &&& f[3].0@ == "fetchErrors"@ && (f[3].1 matches Json::Object(o) && o.wf() && o@
                    == slot_object(error_items(fetch_errors.items@)))
                &&& f[4].0@ == "windows"@ && (f[4].1 matches Json::Object(o) && o.wf() && exists|
                    built: Seq<(u32, Json)>,
                |
                    window_items(windows.items@, built) && o@ == #[trigger] slot_object(built))
            },
            Event::Switch { trigger, from, to, warnings } => {
                &&& f.len() == 5
                &&& f[0].0@ == "trigger"@ && is_text(f[0].1, trigger@)
                &&& f[1].0@ == "from"@ && names_account(f[1].1, *from)
                &&& f[2].0@ == "to"@ && names_account(f[2].1, Some(*to))
                &&& f[3].0@ == "warnings"@ && is_text_list(f[3].1, warnings@)
                &&& f[4].0@ == "dryRun"@ && f[4].1 == Json::Bool(false)
            },
            Event::NoSwitch { reason, detail } => {
                &&& f.len() == 2
                &&& f[0].0@ == "reason"@ && is_text(f[0].1, reason@)
                &&& f[1].0@ == "detail"@ && is_text(f[1].1, detail@)
            },
            Event::Quarantined { account, reason } | Event::Unquarantined { account, reason } => {
                &&& f.len() == 4
                &&& f[0].0@ == "number"@ && f[0].1 == opt_int(account.slot)
                &&& f[1].0@ == "slot"@ && f[1].1 == opt_int(account.slot)
                &&& f[2].0@ == "email"@ && is_text(f[2].1, account.email@)
                &&& f[3].0@ == "reason"@ && is_text(f[3].1, reason@)
            },
            Event::AllExhausted { earliest_reset_at } => {
                &&& f.len() == 1
                &&& f[0].0@ == "earliestResetAt"@ && is_opt_text(
                    f[0].1,
                    opt_text(*earliest_reset_at),
                )
            },
            Event::Sleep { seconds, until } => {
                &&& f.len() == 2
                &&& f[0].0@ == "seconds"@ && f[0].1 == Json::Micro(
                    crate::units::clip(tenths(*seconds)),
                )
                &&& f[1].0@ == "until"@ && is_text(f[1].1, until@)
            },
            Event::Error { message, transient } => {
                &&& f.len() == 2
                &&& f[0].0@ == "message"@ && is_text(f[0].1, message@)
                &&& f[1].0@ == "transient"@ && f[1].1 == Json::Bool(*transient)
            },
            Event::EngineRefused { message } | Event::ConfigWarning { message } => {
                &&& f.len() == 1
                &&& f[0].0@ == "message"@ && is_text(f[0].1, message@)
            },
        }
    }

    /// The payload of the event.
    pub fn fields(&self) -> (f: Vec<(String, Json)>)
        ensures
            self.has_fields(f@),
    {
        let mut f: Vec<(String, Json)> = Vec::new();
        match self {
            Event::Poll { active, headroom, threshold, fetch_errors, windows } => {
                f.push(("active".to_owned(), account_ref(active.as_ref())));
                f.push(("headroomPct".to_owned(), Json::Object(headroom_object(headroom))));
                f.push(("threshold".to_owned(), Json::Micro(*threshold)));
                f.push(("fetchErrors".to_owned(), Json::Object(error_object(fetch_errors))));
                f.push(("windows".to_owned(), Json::Object(window_object(windows))));
            },
            Event::Switch { trigger, from, to, warnings } => {
                f.push(("trigger".to_owned(), Json::Str(trigger.clone())));
                f.push(("from".to_owned(), account_ref(from.as_ref())));
                f.push(("to".to_owned(), account_ref(Some(to))));
                f.push(("warnings".to_owned(), text_list(warnings)));
                f.push(("dryRun".to_owned(), Json::Bool(false)));
            },
            Event::NoSwitch { reason, detail } => {
                f.push(("reason".to_owned(), Json::Str(reason.clone())));
                f.push(("detail".to_owned(), Json::Str(detail.clone())));
            },
            Event::Quarantined { account, reason } | Event::Unquarantined { account, reason } => {
                f.push(("number".to_owned(), int_or_null(account.slot)));
                f.push(("slot".to_owned(), int_or_null(account.slot)));
                f.push(("email".to_owned(), Json::Str(account.email.clone())));
                f.push(("reason".to_owned(), Json::Str(reason.clone())));
            },
            Event::AllExhausted { earliest_reset_at } => {
                f.push(
                    (
                        "earliestResetAt".to_owned(),
                        match earliest_reset_at {
                            Some(at) => Json::Str(at.clone()),
                            None => Json::Null,
                        },
                    ),
                );
            },
            Event::Sleep { seconds, until } => {
                let s: i128 = *seconds as i128;
                let t: i128 = if s >= 0 {
                    (s + 50_000) / 100_000 * 100_000
                } else {
                    -((-s + 50_000) / 100_000 * 100_000)
                };
                f.push(("seconds".to_owned(), Json::Micro(crate::units::clipped(t))));
                f.push(("until".to_owned(), Json::Str(until.clone())));
            },
            Event::Error { message, transient } => {
                f.push(("message".to_owned(), Json::Str(message.clone())));
                f.push(("transient".to_owned(), Json::Bool(*transient)));
            },
            Event::EngineRefused { message } | Event::ConfigWarning { message } => {
                f.push(("message".to_owned(), Json::Str(message.clone())));
            },
        }
        f
    }

    /// The event as a line for a person.
    pub open spec fn line(&self) -> Seq<char> {
        match self {
            Event::Poll { active, headroom, threshold, fetch_errors, windows } => match active {
                None => "poll: no active account"@,
                Some(a) => {
                    let slot = match a.slot {
                        Some(n) => n,
                        None => 0u32,
                    };
                    "slot "@ + decimal(slot as nat) + " ("@ + a.email@ + "): "@ + used_text(
                        slot,
                        headroom@,
                        fetch_errors@,
                    ) + " (switch at "@ + pct_text(*threshold as int) + "%)"@ + tail_text(
                        slot,
                        headroom.items@,
                        headroom@,
                        fetch_errors@,
                        windows@,
                    )
                },
            },
            Event::Switch { trigger, from, to, .. } => "switched "@ + (match from {
                Some(f) => account_text(*f),
                None => "(none)"@,
            }) + " -> "@ + account_text(*to) + " ("@ + trigger@ + ")"@,
            Event::NoSwitch { reason, detail } => if detail@.len() == 0 {
                "no switch: "@ + reason@
            } else {
                "no switch: "@ + reason@ + " ("@ + detail@ + ")"@
            },
            Event::Quarantined { account, reason } => account_text(*account) + " quarantined: "@
                + reason@ + ". Log in as it and run `swapd add --slot "@ + decimal(
                match account.slot {
                    Some(n) => n as nat,
                    None => 0,
                },
            ) + "` to recover."@,
            Event::Unquarantined { account, reason } => account_text(*account)
                + " back in rotation ("@ + reason@ + ")"@,
            Event::AllExhausted { earliest_reset_at } => match earliest_reset_at {
                Some(at) => "all accounts exhausted; earliest reset "@ + at@,
                None => "all accounts exhausted; no reset time known"@,
            },
            Event::Sleep { seconds, until } => "sleeping "@ + whole_text(
                *seconds as int,
                60_000_000,
            ) + "m (until "@ + until@ + ")"@,
            Event::Error { message, transient } => "error: "@ + message@ + (if *transient {
                " (will retry)"@
            } else {
                ""@
            }),
            Event::EngineRefused { message } => "not starting: "@ + message@,
            Event::ConfigWarning { message } => "warning: "@ + message@,
        }
    }
}

/// An account as text.
pub open spec fn account_text(a: SlotRef) -> Seq<char> {
    match a.slot {
        Some(n) => "slot "@ + decimal(n as nat) + " ("@ + a.email@ + ")"@,
        None => "("@ + a.email@ + ")"@,
    }
}

/// How much of the active account is used, as text.
pub open spec fn used_text(
    slot: u32,
    headroom: Map<u32, Option<i64>>,
    fetch_errors: Map<u32, String>,
) -> Seq<char> {
    if headroom.contains_key(slot) && headroom[slot] is Some {
        whole_text(FULL_PCT - headroom[slot]->0, 1_000_000) + "% used"@
    } else if fetch_errors.contains_key(slot) {
        "usage unknown ("@ + fetch_errors[slot]@ + ")"@
    } else {
        "usage unknown"@
    }
}

/// A window's label and percentage, as text.
pub open spec fn window_text(p: (String, i64)) -> Seq<char> {
    p.0@ + " "@ + whole_text(p.1 as int, 1_000_000) + "%"@
}

/// Windows as texts.
pub open spec fn window_texts(pcts: Seq<(String, i64)>) -> Seq<Seq<char>> {
    pcts.map_values(|p: (String, i64)| window_text(p))
}

/// What is known of one other account, as text: its windows, else its headroom,
/// else why not.
pub open spec fn state_text(
    slot: u32,
    headroom: Map<u32, Option<i64>>,
    fetch_errors: Map<u32, String>,
    windows: Map<u32, Vec<(String, i64)>>,
) -> Seq<char> {
    if windows.contains_key(slot) && windows[slot]@.len() > 0 {
        joined(window_texts(windows[slot]@), " · "@)
    } else if headroom.contains_key(slot) && headroom[slot] is Some {
        whole_text(FULL_PCT - headroom[slot]->0, 1_000_000) + "%"@
    } else if fetch_errors.contains_key(slot) {
        "? ("@ + fetch_errors[slot]@ + ")"@
    } else {
        "?"@
    }
}

/// The accounts of `items` but for one, as texts.
pub open spec fn other_texts(
    slot: u32,
    items: Seq<(u32, Option<i64>)>,
    headroom: Map<u32, Option<i64>>,
    fetch_errors: Map<u32, String>,
    windows: Map<u32, Vec<(String, i64)>>,
) -> Seq<Seq<char>>
    decreases items.len(),
{
    if items.len() == 0 {
        Seq::empty()
    } else {
        let rest = other_texts(slot, items.drop_last(), headroom, fetch_errors, windows);
        let n = items.last().0;
        if n == slot {
            rest
        } else {
            rest.push(
                "#"@ + decimal(n as nat) + ": "@ + state_text(n, headroom, fetch_errors, windows),
            )
        }
    }
}

/// The other accounts as text.
pub open spec fn tail_text(
    slot: u32,
    items: Seq<(u32, Option<i64>)>,
    headroom: Map<u32, Option<i64>>,
    fetch_errors: Map<u32, String>,
    windows: Map<u32, Vec<(String, i64)>>,
) -> Seq<char> {
    let others = other_texts(slot, items, headroom, fetch_errors, windows);
    if others.len() == 0 {
        ""@
    } else {
        " | others: "@ + joined(others, ", "@)
    }
}

/// An account as text.
pub fn label(account: &SlotRef) -> (r: String)
    ensures
        r@ == account_text(*account),
{
    match account.slot {
        Some(n) => "slot ".to_owned().concat(show(n as u64).as_str()).concat(" (").concat(
            account.email.as_str(),
        ).concat(")"),
        None => "(".to_owned().concat(account.email.as_str()).concat(")"),
    }
}

fn used(slot: u32, headroom: &SlotMap<Option<i64>>, fetch_errors: &SlotMap<String>) -> (r: String)
    requires
        headroom.wf(),
        fetch_errors.wf(),
    ensures
        r@ == used_text(slot, headroom@, fetch_errors@),
{
    if let Some(Some(h)) = headroom.get(slot) {
        return show_whole(FULL_PCT as i128 - *h as i128, 1_000_000).concat("% used");
    }
    match fetch_errors.get(slot) {
        Some(kind) => "usage unknown (".to_owned().concat(kind.as_str()).concat(")"),
        None => "usage unknown".to_owned(),
    }
}

/// One other account's state: its windows if they are known, else how much is
/// used, else why not.
pub fn describe(
    slot: u32,
    headroom: &SlotMap<Option<i64>>,
    fetch_errors: &SlotMap<String>,
    windows: &SlotMap<Vec<(String, i64)>>,
) -> (r: String)
    requires
        headroom.wf(),
        fetch_errors.wf(),
        windows.wf(),
    ensures
        r@ == state_text(slot, headroom@, fetch_errors@, windows@),
{
    if let Some(pcts) = windows.get(slot) {
        if pcts.len() > 0 {
            let ghost goal = window_texts(pcts@);
            let mut parts: Vec<String> = Vec::new();
            let mut i: usize = 0;
            while i < pcts.len()
                invariant
                    i <= pcts.len(),
                    goal == window_texts(pcts@),
                    texts(parts@) =~= goal.take(i as int),
                decreases pcts.len() - i,
            {
                broadcast use crate::text::lemma_texts_push;

                let part: String = pcts[i].0.clone().concat(" ").concat(
                    show_whole(pcts[i].1 as i128, 1_000_000).as_str(),
                ).concat("%");
                assert(goal[i as int] == window_text(pcts@[i as int]));
                parts.push(part);
                i += 1;
            }
            assert(goal.take(goal.len() as int) =~= goal);
            return join(&parts, " · ");
        }
    }
    if let Some(Some(h)) = headroom.get(slot) {
        return show_whole(FULL_PCT as i128 - *h as i128, 1_000_000).concat("%");
    }
    match fetch_errors.get(slot) {
        Some(kind) => "? (".to_owned().concat(kind.as_str()).concat(")"),
        None => "?".to_owned(),
    }
}

fn tail(
    slot: u32,
    headroom: &SlotMap<Option<i64>>,
    fetch_errors: &SlotMap<String>,
    windows: &SlotMap<Vec<(String, i64)>>,
) -> (r: String)
    requires
        headroom.wf(),
        fetch_errors.wf(),
        windows.wf(),
    ensures
        r@ == tail_text(slot, headroom.items@, headroom@, fetch_errors@, windows@),
{
    let ghost items = headroom.items@;
    let mut parts: Vec<String> = Vec::new();
    let mut i: usize = 0;
    assert(items.take(0) =~= Seq::empty());
    assert(texts(parts@) =~= Seq::empty());
    while i < headroom.items.len()
        invariant
            i <= items.len(),
            items == headroom.items@,
            headroom.wf(),
            fetch_errors.wf(),
            windows.wf(),
            texts(parts@) == other_texts(
                slot,
                items.take(i as int),
                headroom@,
                fetch_errors@,
                windows@,
            ),
        decreases items.len() - i,
    {
        broadcast use crate::text::lemma_texts_push;

        assert(items.take(i + 1).drop_last() =~= items.take(i as int));
        let n: u32 = headroom.items[i].0;
        if n != slot {
            let part: String = "#".to_owned().concat(show(n as u64).as_str()).concat(": ").concat(
                describe(n, headroom, fetch_errors, windows).as_str(),
            );
            parts.push(part);
        }
        i += 1;
    }
    assert(items.take(items.len() as int) =~= items);
    assert(texts(parts@).len() == parts@.len());
    if parts.len() == 0 {
        "".to_owned()
    } else {
        " | others: ".to_owned().concat(join(&parts, ", ").as_str())
    }
}

impl Emit {
    /// Whether the maps of the event are well-formed.
    pub open spec fn wf(&self) -> bool {
        self.event matches Event::Poll { headroom, fetch_errors, windows, .. } ==> headroom.wf()
            && fetch_errors.wf() && windows.wf()
    }

    /// The event as a list of named values: the version, the kind, the moment and
    /// the provider, and then its payload.
    pub fn to_json(&self) -> (r: Vec<(String, Json)>)
        ensures
            r@.len() >= 4,
            r@[0].0@ == "schemaVersion"@ && r@[0].1 == Json::Int(SCHEMA_VERSION),
            r@[1].0@ == "event"@ && is_text(r@[1].1, self.event.kind_text()),
            r@[2].0@ == "ts"@ && is_text(r@[2].1, self.ts@),
            r@[3].0@ == "provider"@ && is_text(r@[3].1, self.provider@),
            self.event.has_fields(r@.skip(4)),
    {
        let mut r: Vec<(String, Json)> = Vec::new();
        r.push(("schemaVersion".to_owned(), Json::Int(SCHEMA_VERSION)));
        r.push(("event".to_owned(), Json::Str(self.event.kind().to_owned())));
        r.push(("ts".to_owned(), Json::Str(self.ts.clone())));
        r.push(("provider".to_owned(), Json::Str(self.provider.clone())));
        let mut fields: Vec<(String, Json)> = self.event.fields();
        let ghost payload = fields@;
        let ghost head = r@;
        r.append(&mut fields);
        assert(r@.skip(4) =~= payload);
        r
    }

    /// One line for a person who watches.
    pub fn human(&self) -> (r: String)
        requires
            self.wf(),
        ensures
            r@ == self.event.line(),
    {
        match &self.event {
            Event::Poll { active, headroom, threshold, fetch_errors, windows } => match active {
                None => "poll: no active account".to_owned(),
                Some(a) => {
                    let slot: u32 = match a.slot {
                        Some(n) => n,
                        None => 0,
                    };
                    "slot ".to_owned().concat(show(slot as u64).as_str()).concat(" (").concat(
                        a.email.as_str(),
                    ).concat("): ").concat(used(slot, headroom, fetch_errors).as_str()).concat(
                        " (switch at ",
                    ).concat(pct_label(*threshold).as_str()).concat("%)").concat(
                        tail(slot, headroom, fetch_errors, windows).as_str(),
                    )
                },
            },
            Event::Switch { trigger, from, to, .. } => {
                let src: String = match from {
                    Some(f) => label(f),
                    None => "(none)".to_owned(),
                };
                "switched ".to_owned().concat(src.as_str()).concat(" -> ").concat(
                    label(to).as_str(),
                ).concat(" (").concat(trigger.as_str()).concat(")")
            },
            Event::NoSwitch { reason, detail } => {
                let said: String = "no switch: ".to_owned().concat(reason.as_str());
                if detail.as_str().is_empty() {
                    said
                } else {
                    said.concat(" (").concat(detail.as_str()).concat(")")
                }
            },
            Event::Quarantined { account, reason } => {
                let slot: u32 = match account.slot {
                    Some(n) => n,
                    None => 0,
                };
                label(account).concat(" quarantined: ").concat(reason.as_str()).concat(
                    ". Log in as it and run `swapd add --slot ",
                ).concat(show(slot as u64).as_str()).concat("` to recover.")
            },
            Event::Unquarantined { account, reason } => label(account).concat(
                " back in rotation (",
            ).concat(reason.as_str()).concat(")"),
            Event::AllExhausted { earliest_reset_at } => match earliest_reset_at {
                Some(at) => "all accounts exhausted; earliest reset ".to_owned().concat(at.as_str()),
                None => "all accounts exhausted; no reset time known".to_owned(),
            },
            Event::Sleep { seconds, until } => "sleeping ".to_owned().concat(
                show_whole(*seconds as i128, 60_000_000).as_str(),
            ).concat("m (until ").concat(until.as_str()).concat(")"),
            Event::Error { message, transient } => {
                let tail: &str = if *transient {
                    " (will retry)"
                } else {
                    ""
                };
                "error: ".to_owned().concat(message.as_str()).concat(tail)
            },
            Event::EngineRefused { message } => "not starting: ".to_owned().concat(
                message.as_str(),
            ),
            Event::ConfigWarning { message } => "warning: ".to_owned().concat(message.as_str()),
        }
    }
}

} // verus!
