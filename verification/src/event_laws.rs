//! What holds of what is said: the events of the loop, the lines for a person, and the
//! numbers in them.

use vstd::prelude::*;

use crate::auto_report::{exhausted_event, hold_event, poll_event, sleep_event};
use crate::auto_rank::Snapshot;
use crate::auto::Reason;
use crate::config::render;
use crate::contract::{AccountView, Window};
use crate::events::{describe, window_label, Event};
use crate::gating::gating;
use crate::history::{SlotRef, SwitchRecord};
use crate::json::{member, Json};
use crate::numfmt::{pct_label, show_whole};
use crate::outputs::{record_line, rotation_target, switch_line, view, SwitchOutput};
use crate::slot_map::SlotMap;
use crate::switch::SwitchResult;
use crate::text::{decimal, opt_text};
use crate::units::{at_least, at_most, clipped, later};

verus! {

/// A number is shown as the whole number that is nearest to it.
pub proof fn law_a_number_is_shown_as_the_nearest(x: i128, unit: u64, r: String)
    requires
        unit > 0,
        0 <= x < 0x1_0000_0000_0000_0000,
        call_ensures(show_whole, (x, unit), r),
    ensures
        exists|k: nat|
            r@ == #[trigger] decimal(k) && 2 * (x - k * unit) <= unit && 2 * (k * unit - x) <= unit,
{
    let n = x as nat;
    let d = unit as nat;
    let q = n / d;
    let m = n % d;
    let k = crate::numfmt::rounded(n, d);
    assert(r@ == decimal(k));
    assert(n == q * d + m && m < d) by (nonlinear_arith)
        requires
            d > 0,
            q == n / d,
            m == n % d,
    ;
    if k == q + 1 {
        assert(k * d == q * d + d) by (nonlinear_arith)
            requires
                k == q + 1,
        ;
    }
    assert(k * unit == k * d);
}

/// Numbers stay what they are within 64 bits, and stop at the ends of them.
pub proof fn law_a_number_is_kept_within_its_bounds(x: i128, r: i64)
    requires
        call_ensures(clipped, (x,), r),
    ensures
        i64::MIN <= x <= i64::MAX ==> r == x,
        x > i64::MAX ==> r == i64::MAX,
        x < i64::MIN ==> r == i64::MIN,
{
}

/// Of two numbers one is the greater and one the lesser, and a sum is what it is.
pub proof fn law_of_two_numbers(a: i128, b: i128, most: i128, least: i128, x: i64, y: i64, sum: i64)
    requires
        call_ensures(at_least, (a, b), most),
        call_ensures(at_most, (a, b), least),
        call_ensures(later, (x, y), sum),
    ensures
        most >= a && most >= b && (most == a || most == b),
        least <= a && least <= b && (least == a || least == b),
        i64::MIN <= x + y <= i64::MAX ==> sum == x + y,
{
}

/// The name of a window: five hours and seven days by their length, a scoped one by its own
/// name.
pub proof fn law_a_window_is_named(w: Window, r: String)
    requires
        call_ensures(window_label, (&w,), r),
    ensures
        w.kind is FiveHour ==> r@ == "5h"@,
        w.kind is SevenDay ==> r@ == "7d"@,
        w.kind is Scoped && w.name is Some ==> r@ == w.name->0@,
        w.kind is Scoped && w.name is None ==> r@ == "scoped"@,
        w.kind is Daily ==> r@ == "daily"@,
        w.kind is Monthly ==> r@ == "monthly"@,
        w.kind is Spend ==> r@ == "spend"@,
{
}

/// Whether a value names an account by its number and its address.
pub open spec fn names(j: Json, a: SlotRef) -> bool {
    j matches Json::Object(o) && (a.slot is Some ==> o@["slot"@] == Json::Int(a.slot->0 as i128)
        && o@["number"@] == Json::Int(a.slot->0 as i128)) && (a.slot is None ==> o@["slot"@]
        == Json::Null) && o@["email"@] == Json::Str(a.email)
}

/// What is reported of a switch: what asked for it, the account that was left and the one
/// that was landed on, each under its own name, and that it was made.
pub proof fn law_a_switch_is_reported_with_both_ends(
    trigger: String,
    from: Option<SlotRef>,
    to: SlotRef,
    warnings: Vec<String>,
    f: Vec<(String, Json)>,
)
    requires
        call_ensures(Event::fields, (&Event::Switch { trigger, from, to, warnings },), f),
    ensures
        member(f@, "trigger"@) matches Some(Json::Str(s)) && s@ == trigger@,
        from is Some ==> member(f@, "from"@) is Some && names(member(f@, "from"@)->0, from->0),
        from is None ==> member(f@, "from"@) == Some(Json::Null),
        member(f@, "to"@) is Some && names(member(f@, "to"@)->0, to),
        member(f@, "dryRun"@) == Some(Json::Bool(false)),
{
    lemma_switch_names();
    reveal_with_fuel(member, 6);
}

proof fn lemma_switch_names()
    ensures
        "trigger"@.len() == 7 && "from"@.len() == 4 && "to"@.len() == 2 && "warnings"@.len() == 8
            && "dryRun"@.len() == 6,
{
    reveal_strlit("trigger");
    reveal_strlit("from");
    reveal_strlit("to");
    reveal_strlit("warnings");
    reveal_strlit("dryRun");
}

/// What is reported of a poll: the active account, the threshold, and under the number of
/// each slot its headroom, null where it is unknown.
pub proof fn law_a_poll_is_reported_by_slot(
    active: Option<SlotRef>,
    headroom: SlotMap<Option<i64>>,
    threshold: i64,
    fetch_errors: SlotMap<String>,
    windows: SlotMap<Vec<(String, i64)>>,
    f: Vec<(String, Json)>,
    n: u32,
)
    requires
        headroom.wf(),
        fetch_errors.wf(),
        call_ensures(
            Event::fields,
            (&Event::Poll { active, headroom, threshold, fetch_errors, windows },),
            f,
        ),
    ensures
        active is Some ==> member(f@, "active"@) is Some && names(
            member(f@, "active"@)->0,
            active->0,
        ),
        member(f@, "threshold"@) == Some(Json::Micro(threshold)),
        headroom@.contains_key(n) ==> (member(f@, "headroomPct"@) matches Some(Json::Object(o))
            && o@.contains_key(decimal(n as nat)) && o@[decimal(n as nat)] == (if headroom@[n] is Some {
            Json::Micro(headroom@[n]->0)
        } else {
            Json::Null
        })),
        fetch_errors@.contains_key(n) ==> (member(f@, "fetchErrors"@) matches Some(Json::Object(o))
            && o@.contains_key(decimal(n as nat)) && o@[decimal(n as nat)] == Json::Str(
            fetch_errors@[n],
        )),
{
    reveal_strlit("active");
    reveal_strlit("headroomPct");
    reveal_strlit("threshold");
    reveal_strlit("fetchErrors");
    reveal_strlit("windows");
    assert("active"@.len() == 6 && "headroomPct"@.len() == 11 && "threshold"@.len() == 9
        && "fetchErrors"@.len() == 11 && "windows"@.len() == 7);
    assert("headroomPct"@[0] == 'h' && "fetchErrors"@[0] == 'f');
    reveal_with_fuel(member, 6);
    if headroom@.contains_key(n) {
        let i = headroom.lemma_position(n);
        let all = crate::events::headroom_items(headroom.items@);
        assert(all[i].0 == n);
        lemma_slot_object(all, i);
    }
    if fetch_errors@.contains_key(n) {
        let i = fetch_errors.lemma_position(n);
        let all = crate::events::error_items(fetch_errors.items@);
        assert(all[i].0 == n);
        lemma_slot_object(all, i);
    }
}

proof fn lemma_slot_object(items: Seq<(u32, Json)>, i: int)
    requires
        0 <= i < items.len(),
        forall|a: int, b: int| 0 <= a < b < items.len() ==> (#[trigger] items[a]).0 != (
        #[trigger] items[b]).0,
    ensures
        crate::json::slot_object(items).contains_key(decimal(items[i].0 as nat)),
        crate::json::slot_object(items)[decimal(items[i].0 as nat)] == items[i].1,
    decreases items.len(),
{
    let short = items.drop_last();
    assert forall|a: int, b: int| 0 <= a < b < short.len() implies (#[trigger] short[a]).0 != (
    #[trigger] short[b]).0 by {
        assert(items[a].0 != items[b].0);
    }
    if i < short.len() {
        assert(short[i] == items[i]);
        lemma_slot_object(short, i);
        assert(items[i].0 != items[items.len() - 1].0);
        if decimal(items[i].0 as nat) == decimal(items.last().0 as nat) {
            crate::text::law_decimal_is_injective(items[i].0 as nat, items.last().0 as nat);
        }
    }
}

/// What is reported of an account that is taken out, or let back: it, and why.
pub proof fn law_a_quarantine_names_its_account(
    account: SlotRef,
    reason: String,
    out: bool,
    f: Vec<(String, Json)>,
)
    requires
        call_ensures(
            Event::fields,
            (&(if out {
                Event::Quarantined { account, reason }
            } else {
                Event::Unquarantined { account, reason }
            }),),
            f,
        ),
    ensures
        account.slot is Some ==> member(f@, "slot"@) == Some(Json::Int(account.slot->0 as i128)),
        member(f@, "email"@) matches Some(Json::Str(s)) && s@ == account.email@,
        member(f@, "reason"@) matches Some(Json::Str(s)) && s@ == reason@,
{
    reveal_strlit("number");
    reveal_strlit("slot");
    reveal_strlit("email");
    reveal_strlit("reason");
    assert("number"@.len() == 6 && "slot"@.len() == 4 && "email"@.len() == 5 && "reason"@.len()
        == 6);
    assert("number"@[0] == 'n' && "reason"@[0] == 'r');
    reveal_with_fuel(member, 6);
}

/// The kind of an event, by its name.
pub proof fn law_an_event_has_its_name(e: Event, r: &'static str)
    requires
        call_ensures(Event::kind, (&e,), r),
    ensures
        e is Poll ==> r@ == "poll"@,
        e is Switch ==> r@ == "switch"@,
        e is NoSwitch ==> r@ == "no-switch"@,
        e is Quarantined ==> r@ == "account-quarantined"@,
        e is Unquarantined ==> r@ == "account-unquarantined"@,
        e is AllExhausted ==> r@ == "all-exhausted"@,
        e is Sleep ==> r@ == "sleep"@,
        e is Error ==> r@ == "error"@,
        e is EngineRefused ==> r@ == "engine-refused"@,
        e is ConfigWarning ==> r@ == "config-warning"@,
{
}

/// What is said of an account without windows: how much of it is used, which is what its
/// headroom leaves of a hundred, to the nearest percent; where that is unknown, why.
pub proof fn law_what_is_said_of_an_account(
    slot: u32,
    headroom: SlotMap<Option<i64>>,
    fetch_errors: SlotMap<String>,
    windows: SlotMap<Vec<(String, i64)>>,
    r: String,
)
    requires
        headroom.wf(),
        fetch_errors.wf(),
        windows.wf(),
        call_ensures(describe, (slot, &headroom, &fetch_errors, &windows), r),
        !windows@.contains_key(slot),
    ensures
        headroom@.contains_key(slot) && headroom@[slot] == Some(100_000_000i64) ==> r@ == decimal(0)
            + "%"@,
        headroom@.contains_key(slot) && headroom@[slot] is Some && 0 <= headroom@[slot]->0
            <= 100_000_000 ==> exists|k: nat|
            r@ == #[trigger] decimal(k) + "%"@ && 2 * ((100_000_000 - headroom@[slot]->0) - k
                * 1_000_000) <= 1_000_000 && 2 * (k * 1_000_000 - (100_000_000
                - headroom@[slot]->0)) <= 1_000_000,
        !(headroom@.contains_key(slot) && headroom@[slot] is Some) && !fetch_errors@.contains_key(
            slot,
        ) ==> r@ == "?"@,
        !(headroom@.contains_key(slot) && headroom@[slot] is Some) && fetch_errors@.contains_key(
            slot,
        ) ==> r@ == "? ("@ + fetch_errors@[slot]@ + ")"@,
{
    if headroom@.contains_key(slot) && headroom@[slot] is Some && 0 <= headroom@[slot]->0
        <= 100_000_000 {
        let n = (100_000_000 - headroom@[slot]->0) as nat;
        let k = crate::numfmt::rounded(n, 1_000_000);
        assert(r@ == decimal(k) + "%"@);
    }
}

/// The slot that a rotation takes is the first of the ranking; without one it says so.
pub proof fn law_a_rotation_takes_the_first(ranked: Vec<u32>, r: Result<u32, SwitchOutput>)
    requires
        call_ensures(rotation_target, (&ranked,), r),
    ensures
        ranked@.len() > 0 ==> r is Ok && r->Ok_0 == ranked@[0],
        ranked@.len() == 0 ==> r is Err && !r->Err_0.switched && r->Err_0.to is None,
{
}

/// What a switch answers is what it did.
pub proof fn law_a_switch_answers_what_it_did(result: SwitchResult, r: SwitchOutput)
    requires
        call_ensures(view, (result,), r),
    ensures
        r.switched == result.switched,
        r.from == result.from,
        r.to == Some(result.to),
        r.warnings == result.warnings,
        r.reason == result.reason,
{
}

/// The line of a switch names the slot that was landed on; where nothing was switched it
/// says why.
pub proof fn law_the_line_of_a_switch(out: SwitchOutput, r: String)
    requires
        call_ensures(switch_line, (&out,), r),
    ensures
        out.switched && out.to is Some && out.to->0.slot is Some ==> r@ == "switched to slot "@
            + decimal(out.to->0.slot->0 as nat) + " ("@ + out.to->0.email@ + ")"@,
        !out.switched && out.reason is Some ==> r@ == "no switch: "@ + out.reason->0@,
        !out.switched && out.reason is None ==> r@ == "no switch: "@ + "nothing to do"@,
{
}

/// The line of a record goes from the slot that was left to the one that was landed on.
pub proof fn law_the_line_of_a_record(record: SwitchRecord, r: String)
    requires
        call_ensures(record_line, (&record,), r),
        record.from is Some && record.from->0.slot is Some && record.to.slot is Some,
    ensures
        r@ == record.ts@ + " "@ + (decimal(record.from->0.slot->0 as nat) + " ("@
            + record.from->0.email@ + ")"@) + " -> "@ + (decimal(record.to.slot->0 as nat) + " ("@
            + record.to.email@ + ")"@) + " ("@ + record.trigger@ + ")"@,
{
}

/// The poll of a tick reports what the tick knew: of each slot its headroom, and why it is
/// unknown; without an active account nothing.
pub proof fn law_a_poll_reports_what_was_known(
    active: Option<u32>,
    accounts: Vec<AccountView>,
    snap: Snapshot,
    threshold: i64,
    models: Vec<String>,
    r: Event,
    n: u32,
)
    requires
        snap.wf(),
        call_ensures(poll_event, (active, &accounts, &snap, threshold, &models), r),
    ensures
        r is Poll,
        r->Poll_threshold == threshold,
        active is None ==> r->active is None && !r->headroom@.contains_key(n),
        active is Some ==> r->active is Some && r->active->0.slot == active,
        active is Some ==> (r->headroom@.contains_key(n) <==> snap.readings@.contains_key(n)),
        active is Some && snap.readings@.contains_key(n) ==> r->headroom@[n]
            == snap.readings@[n].headroom,
        active is Some ==> (r->fetch_errors@.contains_key(n) <==> snap.readings@.contains_key(n)
            && snap.readings@[n].fetch_error is Some),
        active is Some && snap.readings@.contains_key(n) ==> (r->windows@.contains_key(n)
            <==> gating(snap.readings@[n].windows@, models@).len() > 0),
{
}

/// A sleep is reported with its length, and ends as long after now.
pub proof fn law_a_sleep_is_reported(delay: i64, now: i64, r: Event)
    requires
        0 <= delay <= 0x1000_0000_0000_0000,
        0 <= now <= 0x1000_0000_0000_0000,
        call_ensures(sleep_event, (delay, now), r),
    ensures
        r is Sleep && r->seconds == delay && r->until@ == crate::timefmt::stamp((now + delay) as i64),
{
}

/// Where every account is at its limit, the first reset is reported, if one is known.
pub proof fn law_an_exhausted_fleet_is_reported(earliest: Option<i64>, r: Event)
    requires
        call_ensures(exhausted_event, (earliest,), r),
    ensures
        r is AllExhausted,
        earliest is None ==> r->earliest_reset_at is None,
        earliest is Some ==> opt_text(r->earliest_reset_at) == crate::timefmt::rfc3339_text(
            crate::timefmt::whole_seconds(earliest->0),
        ),
{
}

/// A tick that does nothing is reported as such, with its reason.
pub proof fn law_a_hold_is_reported_with_its_reason(reason: Reason, api_keys: Vec<u32>, r: Event)
    requires
        call_ensures(hold_event, (reason, &api_keys), r),
    ensures
        r is NoSwitch,
        reason is Cooldown ==> r->NoSwitch_reason@ == "cooldown"@,
        reason is Disabled ==> r->NoSwitch_reason@ == "disabled"@,
        reason is NoActive ==> r->NoSwitch_reason@ == "no-active-account"@,
{
}

/// A sleep is told in tenths of a second, the nearest to its length.
pub proof fn law_a_sleep_is_told_in_tenths(seconds: i64, until: String, f: Vec<(String, Json)>)
    requires
        0 <= seconds <= 0x1000_0000_0000_0000,
        call_ensures(Event::fields, (&Event::Sleep { seconds, until },), f),
    ensures
        member(f@, "seconds"@) matches Some(Json::Micro(t)) && t % 100_000 == 0 && t - seconds
            <= 50_000 && seconds - t <= 50_000,
        member(f@, "until"@) matches Some(Json::Str(s)) && s@ == until@,
{
    reveal_strlit("seconds");
    reveal_strlit("until");
    assert("seconds"@.len() == 7 && "until"@.len() == 5);
    reveal_with_fuel(member, 3);
}

/// A settings value is shown the way it is set: a truth value by its word, a whole number by
/// its digits, a text bare, and a fraction with one digit behind the point at the least.
pub proof fn law_a_setting_is_shown_the_way_it_is_set(j: Json, r: String, label: String)
    requires
        crate::config::plain_value(j),
        call_ensures(render, (&j,), r),
        j matches Json::Micro(x) ==> call_ensures(pct_label, (x,), label),
    ensures
        j == Json::Bool(true) ==> r@ == "true"@,
        j == Json::Bool(false) ==> r@ == "false"@,
        j is Null ==> r@ == "null"@,
        j matches Json::Int(n) ==> r@ == (if n >= 0 {
            decimal(n as nat)
        } else {
            "-"@ + decimal((-n) as nat)
        }),
        j matches Json::Str(s) ==> r@ == s@,
        j matches Json::Micro(x) ==> r@ == (if x % 1_000_000 == 0 {
            label@ + ".0"@
        } else {
            label@
        }),
{
}

} // verus!
