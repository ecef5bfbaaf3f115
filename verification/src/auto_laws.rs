//! What holds of the loop's decisions: who may be moved to, who comes first, and when a
//! move is made at all.

use vstd::prelude::*;

use crate::auto::{
    account_at, census, preferred_among, AutoEngine, Classified, Decision, Step, TickInput,
    TickOutcome,
};
use crate::auto_bar::{bar_in_force, lemma_admitted, Departure};
use crate::auto_rank::{first_seven_day, Reading, RankInput, Snapshot, Trigger, Verdict};
use crate::auto_tick::{answers, decides, ranked_on};
use crate::contract::{AccountView, Window};
use crate::order::{in_order, slots_of, Key};
use crate::rotation_laws::{distinct_slots, is_named, is_weekly_reset};

verus! {

/// Who is a candidate: the slot of an account that is not the current one, not
/// quarantined and not held, with a login that can be used; one with an API key only among
/// those with one, and only where that is allowed.
pub proof fn law_candidates_are_the_open_accounts(
    accounts: Seq<AccountView>,
    current: u32,
    quarantined: Seq<u32>,
    api_keys: bool,
    keyed: bool,
    n: u32,
)
    ensures
        census(accounts, current, quarantined, api_keys, keyed).contains(n) <==> (exists|i: int|
            0 <= i < accounts.len() && (#[trigger] accounts[i]).slot == n && !accounts[i].disabled
                && !(accounts[i].usage_status is NoCredentials) && !(
            accounts[i].usage_status is ReloginRequired) && !(
            accounts[i].usage_status is Unsupported) && (accounts[i].usage_status is ApiKey
                <==> keyed)) && n != current && !quarantined.contains(n) && (keyed ==> api_keys),
    decreases accounts.len(),
{
    let out = census(accounts, current, quarantined, api_keys, keyed);
    if accounts.len() > 0 {
        let short = accounts.drop_last();
        let last = accounts.last();
        law_candidates_are_the_open_accounts(short, current, quarantined, api_keys, keyed, n);
        let rest = census(short, current, quarantined, api_keys, keyed);
        assert(accounts[accounts.len() - 1] == last);
        if out.contains(n) {
            let k = choose|k: int| 0 <= k < out.len() && out[k] == n;
            if k < rest.len() {
                assert(rest[k] == n);
                let i = choose|i: int|
                    0 <= i < short.len() && (#[trigger] short[i]).slot == n && !short[i].disabled
                        && !(short[i].usage_status is NoCredentials) && !(
                    short[i].usage_status is ReloginRequired) && !(
                    short[i].usage_status is Unsupported) && (short[i].usage_status is ApiKey
                        <==> keyed);
                assert(accounts[i] == short[i]);
            }
        }
        if exists|i: int|
            0 <= i < accounts.len() && (#[trigger] accounts[i]).slot == n && !accounts[i].disabled
                && !(accounts[i].usage_status is NoCredentials) && !(
            accounts[i].usage_status is ReloginRequired) && !(
            accounts[i].usage_status is Unsupported) && (accounts[i].usage_status is ApiKey
                <==> keyed) {
            if n != current && !quarantined.contains(n) && (keyed ==> api_keys) {
                let i = choose|i: int|
                    0 <= i < accounts.len() && (#[trigger] accounts[i]).slot == n
                        && !accounts[i].disabled && !(accounts[i].usage_status is NoCredentials)
                        && !(accounts[i].usage_status is ReloginRequired) && !(
                    accounts[i].usage_status is Unsupported) && (accounts[i].usage_status is ApiKey
                        <==> keyed);
                if i < short.len() {
                    assert(short[i] == accounts[i]);
                    assert(rest.contains(n));
                    let k = choose|k: int| 0 <= k < rest.len() && rest[k] == n;
                    assert(out[k] == n);
                } else {
                    assert(out[out.len() - 1] == n);
                }
            }
        }
    }
}

proof fn lemma_account_at(accounts: Seq<AccountView>, i: int)
    requires
        distinct_slots(accounts),
        0 <= i < accounts.len(),
    ensures
        account_at(accounts, accounts[i].slot) == Some(accounts[i]),
    decreases accounts.len(),
{
    let short = accounts.drop_last();
    let n = accounts[i].slot;
    assert(distinct_slots(short)) by {
        assert forall|a: int, b: int| 0 <= a < b < short.len() implies (#[trigger] short[a]).slot != (
        #[trigger] short[b]).slot by {
            assert(accounts[a].slot != accounts[b].slot);
        }
    }
    if i < short.len() {
        lemma_account_at(short, i);
        assert(short[i] == accounts[i]);
    } else {
        lemma_account_absent(short, n);
    }
}

proof fn lemma_account_absent(accounts: Seq<AccountView>, n: u32)
    ensures
        (forall|i: int| 0 <= i < accounts.len() ==> (#[trigger] accounts[i]).slot != n)
            ==> account_at(accounts, n) is None,
    decreases accounts.len(),
{
    if accounts.len() > 0 {
        let short = accounts.drop_last();
        lemma_account_absent(short, n);
        if forall|i: int| 0 <= i < accounts.len() ==> (#[trigger] accounts[i]).slot != n {
            assert forall|i: int| 0 <= i < short.len() implies (#[trigger] short[i]).slot != n by {
                assert(accounts[i].slot != n);
            }
            assert(accounts[accounts.len() - 1].slot != n);
        }
    }
}

proof fn lemma_preferred_among(
    slots: Seq<u32>,
    accounts: Seq<AccountView>,
    names: Seq<String>,
    i: int,
)
    requires
        distinct_slots(accounts),
        0 <= i < accounts.len(),
    ensures
        preferred_among(slots, accounts, names).contains(accounts[i].slot) <==> slots.contains(
            accounts[i].slot,
        ) && (accounts[i].preferred || is_named(accounts[i], names)),
    decreases slots.len(),
{
    let n = accounts[i].slot;
    let out = preferred_among(slots, accounts, names);
    lemma_account_at(accounts, i);
    crate::rotation_laws::lemma_prefers(accounts[i], names);
    if slots.len() > 0 {
        let short = slots.drop_last();
        lemma_preferred_among(short, accounts, names, i);
        let rest = preferred_among(short, accounts, names);
        assert(slots[slots.len() - 1] == slots.last());
        if out.contains(n) {
            let k = choose|k: int| 0 <= k < out.len() && out[k] == n;
            if k < rest.len() {
                assert(rest[k] == n);
                let j = choose|j: int| 0 <= j < short.len() && short[j] == n;
                assert(slots[j] == n);
            }
        }
        if slots.contains(n) && (accounts[i].preferred || is_named(accounts[i], names)) {
            let j = choose|j: int| 0 <= j < slots.len() && slots[j] == n;
            if j < short.len() {
                assert(short[j] == n);
                let k = choose|k: int| 0 <= k < rest.len() && rest[k] == n;
                assert(out[k] == n);
            } else {
                assert(out[out.len() - 1] == n);
            }
        }
    }
}

/// What the gates made of a target, and where it stands.
proof fn lemma_target(d: Decision, t: TickInput, trigger: Trigger, current: u32, x: int)
    requires
        answers(d, t, trigger, current),
        0 <= x < d.ordered@.len(),
    ensures
        ({
            let input = ranked_on(t, trigger, current, &d.oauth, &d.preferred);
            let bar = bar_in_force(t.state.left_at_limit, input);
            let list = input.targets(bar);
            &&& d.ordered@ == slots_of(list)
            &&& in_order(list)
            &&& d.oauth@.contains(d.ordered@[x])
            &&& input.verdict(d.ordered@[x], bar) == Verdict::Takes(list[x].0) || input.verdict(
                d.ordered@[x],
                bar,
            ) == Verdict::Fallback(list[x].0)
            &&& d.step == Step::Try(trigger)
        }),
{
    let input = ranked_on(t, trigger, current, &d.oauth, &d.preferred);
    let bar = bar_in_force(t.state.left_at_limit, input);
    let list = input.targets(bar);
    lemma_admitted(input, d.oauth@, bar, false);
    lemma_admitted(input, d.oauth@, bar, true);
    assert(list.contains(list[x]));
}

/// What the loop may move to is the slot of an account that is not the current one, not
/// quarantined and not held, with a login that can be used, and that is measured and has
/// something left.
pub proof fn law_a_target_is_open_and_has_room(
    d: Decision,
    t: TickInput,
    trigger: Trigger,
    current: u32,
    x: int,
)
    requires
        answers(d, t, trigger, current),
        0 <= x < d.ordered@.len(),
    ensures
        d.step == Step::Try(trigger),
        d.ordered@[x] != current,
        !t.quarantined@.contains(d.ordered@[x]),
        exists|i: int|
            0 <= i < t.view.accounts@.len() && (#[trigger] t.view.accounts@[i]).slot
                == d.ordered@[x] && !t.view.accounts@[i].disabled && !(
            t.view.accounts@[i].usage_status is NoCredentials) && !(
            t.view.accounts@[i].usage_status is ReloginRequired) && !(
            t.view.accounts@[i].usage_status is Unsupported) && !(
            t.view.accounts@[i].usage_status is ApiKey),
        t.snap.readings@.contains_key(d.ordered@[x]),
        t.snap.readings@[d.ordered@[x]].headroom matches Some(h) && h > 0,
{
    lemma_target(d, t, trigger, current, x);
    law_candidates_are_the_open_accounts(
        t.view.accounts@,
        current,
        t.quarantined@,
        t.settings.include_api_key_accounts,
        false,
        d.ordered@[x],
    );
}

/// Whether an account that the loop looks at is below the threshold, or the active one is
/// not measured: there is a healthy place to be.
pub open spec fn some_account_is_below(t: TickInput, slots: Seq<u32>, current: u32) -> bool {
    let r = t.snap.readings@;
    ||| !(r.contains_key(current) && r[current].headroom is Some)
    ||| 100_000_000 - r[current].headroom->0 < t.settings.threshold
    ||| exists|i: int|
        0 <= i < slots.len() && r.contains_key(#[trigger] slots[i]) && (r[slots[i]].headroom matches Some(
            h,
        ) && 100_000_000 - h < t.settings.threshold)
}

proof fn lemma_not_over(d: Decision, t: TickInput, trigger: Trigger, current: u32)
    requires
        some_account_is_below(t, d.oauth@, current),
    ensures
        !ranked_on(t, trigger, current, &d.oauth, &d.preferred).over(),
{
    let input = ranked_on(t, trigger, current, &d.oauth, &d.preferred);
    if input.over() {
        let i = choose|i: int|
            0 <= i < d.oauth@.len() && t.snap.readings@.contains_key(#[trigger] d.oauth@[i]) && (
            t.snap.readings@[d.oauth@[i]].headroom matches Some(h) && 100_000_000 - h
                < t.settings.threshold);
        assert(crate::auto_rank::headroom_in(t.snap.readings@, d.oauth@[i]) is Some);
    }
}

/// The two keys that a pair of targets stand in the order of, on an escape or while some
/// account is below the threshold.
proof fn lemma_pair(
    d: Decision,
    t: TickInput,
    trigger: Trigger,
    current: u32,
    i: int,
    j: int,
    x: int,
    y: int,
)
    requires
        answers(d, t, trigger, current),
        trigger is AtLimit || trigger is Failover || some_account_is_below(t, d.oauth@, current),
        distinct_slots(t.view.accounts@),
        0 <= i < t.view.accounts@.len(),
        0 <= j < t.view.accounts@.len(),
        0 <= x < d.ordered@.len(),
        0 <= y < d.ordered@.len(),
        d.ordered@[x] == t.view.accounts@[i].slot,
        d.ordered@[y] == t.view.accounts@[j].slot,
    ensures
        ({
            let a = t.view.accounts@;
            let r = t.snap.readings@;
            let input = ranked_on(t, trigger, current, &d.oauth, &d.preferred);
            let kx = input.plain_key(a[i].slot, r[a[i].slot].headroom->0);
            let ky = input.plain_key(a[j].slot, r[a[j].slot].headroom->0);
            &&& x < y ==> !ky.less(kx)
            &&& y < x ==> !kx.less(ky)
            &&& d.preferred@.contains(a[i].slot) == (a[i].preferred || is_named(
                a[i],
                t.settings.preferred@,
            ))
            &&& d.preferred@.contains(a[j].slot) == (a[j].preferred || is_named(
                a[j],
                t.settings.preferred@,
            ))
        }),
{
    if trigger.by_choice() {
        lemma_not_over(d, t, trigger, current);
    }
    lemma_target(d, t, trigger, current, x);
    lemma_target(d, t, trigger, current, y);
    lemma_preferred_among(d.oauth@, t.view.accounts@, t.settings.preferred@, i);
    lemma_preferred_among(d.oauth@, t.view.accounts@, t.settings.preferred@, j);
    let input = ranked_on(t, trigger, current, &d.oauth, &d.preferred);
    let list = input.targets(bar_in_force(t.state.left_at_limit, input));
    if x < y {
        assert(!list[y].0.less(list[x].0));
    }
    if y < x {
        assert(!list[x].0.less(list[y].0));
    }
}

/// Where the strategy is not to consume first, the loop tries the account with the most
/// left first, of those that are alike in being preferred or not: on every escape, and on
/// a move by choice while some account is below the threshold.
pub proof fn law_the_most_room_is_tried_first(
    d: Decision,
    t: TickInput,
    trigger: Trigger,
    current: u32,
    i: int,
    j: int,
    x: int,
    y: int,
)
    requires
        answers(d, t, trigger, current),
        trigger is AtLimit || trigger is Failover || some_account_is_below(t, d.oauth@, current),
        t.settings.strategy@ != "consume-first"@,
        distinct_slots(t.view.accounts@),
        0 <= i < t.view.accounts@.len(),
        0 <= j < t.view.accounts@.len(),
        0 <= x < y < d.ordered@.len(),
        d.ordered@[x] == t.view.accounts@[i].slot,
        d.ordered@[y] == t.view.accounts@[j].slot,
        (t.view.accounts@[i].preferred || is_named(t.view.accounts@[i], t.settings.preferred@)) == (
        t.view.accounts@[j].preferred || is_named(t.view.accounts@[j], t.settings.preferred@)),
    ensures
        t.snap.readings@[d.ordered@[x]].headroom->0 >= t.snap.readings@[d.ordered@[y]].headroom->0,
{
    lemma_pair(d, t, trigger, current, i, j, x, y);
}

/// With nothing preferred, an escape tries every target before every other with less left.
pub proof fn law_an_escape_tries_the_emptiest_first(
    d: Decision,
    t: TickInput,
    trigger: Trigger,
    current: u32,
    x: int,
    y: int,
)
    requires
        answers(d, t, trigger, current),
        trigger is AtLimit || trigger is Failover,
        t.settings.strategy@ != "consume-first"@,
        d.preferred@.len() == 0,
        0 <= x < y < d.ordered@.len(),
    ensures
        t.snap.readings@[d.ordered@[x]].headroom->0 >= t.snap.readings@[d.ordered@[y]].headroom->0,
{
    lemma_target(d, t, trigger, current, x);
    lemma_target(d, t, trigger, current, y);
    let input = ranked_on(t, trigger, current, &d.oauth, &d.preferred);
    let list = input.targets(bar_in_force(t.state.left_at_limit, input));
    assert(!list[y].0.less(list[x].0));
}

/// An account whose own flag is set, or that the settings name, is tried before every one
/// of which neither holds: on every escape, and on a move by choice while some account is
/// below the threshold.
pub proof fn law_the_preferred_is_tried_first(
    d: Decision,
    t: TickInput,
    trigger: Trigger,
    current: u32,
    i: int,
    j: int,
    x: int,
    y: int,
)
    requires
        answers(d, t, trigger, current),
        trigger is AtLimit || trigger is Failover || some_account_is_below(t, d.oauth@, current),
        distinct_slots(t.view.accounts@),
        0 <= i < t.view.accounts@.len(),
        0 <= j < t.view.accounts@.len(),
        0 <= x < d.ordered@.len(),
        0 <= y < d.ordered@.len(),
        d.ordered@[x] == t.view.accounts@[i].slot,
        d.ordered@[y] == t.view.accounts@[j].slot,
        t.view.accounts@[i].preferred || is_named(t.view.accounts@[i], t.settings.preferred@),
        !t.view.accounts@[j].preferred && !is_named(
            t.view.accounts@[j],
            t.settings.preferred@,
        ),
    ensures
        x < y,
{
    lemma_pair(d, t, trigger, current, i, j, x, y);
}

/// Where the strategy is to consume first, the loop tries the account whose week ends
/// sooner first, of those that are alike in being preferred or not, and one whose week's
/// end is not known or past behind every one whose is; of two that end alike, the one with
/// more left.
pub proof fn law_the_sooner_reset_is_tried_first(
    d: Decision,
    t: TickInput,
    trigger: Trigger,
    current: u32,
    i: int,
    j: int,
    x: int,
    y: int,
    at_x: Option<i64>,
    at_y: Option<i64>,
)
    requires
        answers(d, t, trigger, current),
        trigger is AtLimit || trigger is Failover || some_account_is_below(t, d.oauth@, current),
        t.settings.strategy@ == "consume-first"@,
        distinct_slots(t.view.accounts@),
        0 <= i < t.view.accounts@.len(),
        0 <= j < t.view.accounts@.len(),
        0 <= x < y < d.ordered@.len(),
        d.ordered@[x] == t.view.accounts@[i].slot,
        d.ordered@[y] == t.view.accounts@[j].slot,
        (t.view.accounts@[i].preferred || is_named(t.view.accounts@[i], t.settings.preferred@)) == (
        t.view.accounts@[j].preferred || is_named(t.view.accounts@[j], t.settings.preferred@)),
        is_weekly_reset(t.snap.readings@[d.ordered@[x]].windows@, at_x),
        is_weekly_reset(t.snap.readings@[d.ordered@[y]].windows@, at_y),
    ensures
        at_y is Some && at_y->0 > t.now ==> ((at_x matches Some(a) && t.now < a <= at_y->0)),
        at_x == at_y ==> t.snap.readings@[d.ordered@[x]].headroom->0
            >= t.snap.readings@[d.ordered@[y]].headroom->0,
{
    lemma_pair(d, t, trigger, current, i, j, x, y);
    law_a_target_is_open_and_has_room(d, t, trigger, current, x);
    law_a_target_is_open_and_has_room(d, t, trigger, current, y);
    let wx = t.snap.readings@[d.ordered@[x]].windows@;
    let wy = t.snap.readings@[d.ordered@[y]].windows@;
    crate::rotation_laws::law_weekly_reset_is_the_first(wx);
    crate::rotation_laws::law_weekly_reset_is_the_first(wy);
    crate::rotation_laws::lemma_weekly_is_one(wx, at_x, first_seven_day(wx));
    crate::rotation_laws::lemma_weekly_is_one(wy, at_y, first_seven_day(wy));
}

/// A move by choice, while some account is below the threshold, goes to one that is; where
/// the strategy is not to consume first, to one that has more left than the active account
/// by the margin of the settings.
pub proof fn law_a_move_by_choice_is_worth_it(
    d: Decision,
    t: TickInput,
    trigger: Trigger,
    current: u32,
    x: int,
)
    requires
        answers(d, t, trigger, current),
        trigger is Proactive || trigger is ConsumeFirst,
        some_account_is_below(t, d.oauth@, current),
        0 <= x < d.ordered@.len(),
    ensures
        100_000_000 - t.snap.readings@[d.ordered@[x]].headroom->0 < t.settings.threshold,
        t.settings.strategy@ != "consume-first"@ && t.snap.readings@.contains_key(current) && (
        t.snap.readings@[current].headroom is Some) ==> t.snap.readings@[d.ordered@[x]].headroom->0
            - t.snap.readings@[current].headroom->0 >= t.settings.hysteresis_pct,
{
    lemma_not_over(d, t, trigger, current);
    lemma_target(d, t, trigger, current, x);
}

/// To consume first, the loop goes to an account that is preferred, or whose week ends
/// before that of the active one, where both ends are known and lie ahead.
pub proof fn law_to_consume_first_goes_to_a_sooner_reset(
    d: Decision,
    t: TickInput,
    current: u32,
    i: int,
    x: int,
    mine: Option<i64>,
    its: Option<i64>,
)
    requires
        answers(d, t, Trigger::ConsumeFirst, current),
        t.settings.strategy@ == "consume-first"@,
        some_account_is_below(t, d.oauth@, current),
        distinct_slots(t.view.accounts@),
        0 <= i < t.view.accounts@.len(),
        0 <= x < d.ordered@.len(),
        d.ordered@[x] == t.view.accounts@[i].slot,
        !t.view.accounts@[i].preferred && !is_named(
            t.view.accounts@[i],
            t.settings.preferred@,
        ),
        t.snap.readings@.contains_key(current),
        is_weekly_reset(t.snap.readings@[current].windows@, mine),
        is_weekly_reset(t.snap.readings@[d.ordered@[x]].windows@, its),
    ensures
        its matches Some(a) && (mine matches Some(b) && t.now < a < b),
{
    lemma_not_over(d, t, Trigger::ConsumeFirst, current);
    lemma_target(d, t, Trigger::ConsumeFirst, current, x);
    lemma_preferred_among(d.oauth@, t.view.accounts@, t.settings.preferred@, i);
    let wx = t.snap.readings@[d.ordered@[x]].windows@;
    let wc = t.snap.readings@[current].windows@;
    crate::rotation_laws::law_weekly_reset_is_the_first(wx);
    crate::rotation_laws::law_weekly_reset_is_the_first(wc);
    crate::rotation_laws::lemma_weekly_is_one(wx, its, first_seven_day(wx));
    crate::rotation_laws::lemma_weekly_is_one(wc, mine, first_seven_day(wc));
}

/// Whether the last move was away from a slot: such a one may be barred.
pub open spec fn was_just_left(t: TickInput, n: u32) -> bool {
    t.state.left_at_limit matches Some(d) && d.from == n
}

proof fn lemma_bar_is_the_departure(t: TickInput, input: RankInput, n: u32)
    requires
        !was_just_left(t, n),
    ensures
        bar_in_force(t.state.left_at_limit, input) != Some(n),
{
}

proof fn lemma_taken(d: Decision, t: TickInput, trigger: Trigger, current: u32, n: u32, key: Key)
    requires
        answers(d, t, trigger, current),
        d.oauth@.contains(n),
        ({
            let input = ranked_on(t, trigger, current, &d.oauth, &d.preferred);
            input.verdict(n, bar_in_force(t.state.left_at_limit, input)) == Verdict::Takes(key)
        }),
    ensures
        d.step == Step::Try(trigger),
        d.ordered@.contains(n),
{
    let input = ranked_on(t, trigger, current, &d.oauth, &d.preferred);
    let bar = bar_in_force(t.state.left_at_limit, input);
    lemma_admitted(input, d.oauth@, bar, false);
    let list = input.admitted(d.oauth@, bar, false);
    assert(list.contains((key, n)));
    let k = choose|k: int| 0 <= k < list.len() && list[k] == (key, n);
    assert(slots_of(list)[k] == n);
}

proof fn lemma_is_candidate(d: Decision, t: TickInput, trigger: Trigger, current: u32, i: int)
    requires
        answers(d, t, trigger, current),
        0 <= i < t.view.accounts@.len(),
        t.view.accounts@[i].slot != current,
        !t.quarantined@.contains(t.view.accounts@[i].slot),
        !t.view.accounts@[i].disabled,
        t.view.accounts@[i].usage_status is Okay || t.view.accounts@[i].usage_status is Stale
            || t.view.accounts@[i].usage_status is TokenExpired,
    ensures
        d.oauth@.contains(t.view.accounts@[i].slot),
{
    law_candidates_are_the_open_accounts(
        t.view.accounts@,
        current,
        t.quarantined@,
        t.settings.include_api_key_accounts,
        false,
        t.view.accounts@[i].slot,
    );
    assert(t.view.accounts@[i].slot == t.view.accounts@[i].slot);
}

/// An escape tries every open account that is measured and has something left, but for the
/// one that was just left.
pub proof fn law_an_escape_leaves_no_way_out_untried(
    d: Decision,
    t: TickInput,
    trigger: Trigger,
    current: u32,
    i: int,
)
    requires
        answers(d, t, trigger, current),
        trigger is AtLimit || trigger is Failover,
        0 <= i < t.view.accounts@.len(),
        t.view.accounts@[i].slot != current,
        !t.quarantined@.contains(t.view.accounts@[i].slot),
        !t.view.accounts@[i].disabled,
        t.view.accounts@[i].usage_status is Okay || t.view.accounts@[i].usage_status is Stale
            || t.view.accounts@[i].usage_status is TokenExpired,
        t.snap.readings@.contains_key(t.view.accounts@[i].slot),
        t.snap.readings@[t.view.accounts@[i].slot].headroom matches Some(h) && h > 0,
        !was_just_left(t, t.view.accounts@[i].slot),
    ensures
        d.step == Step::Try(trigger),
        d.ordered@.contains(t.view.accounts@[i].slot),
{
    let n = t.view.accounts@[i].slot;
    let input = ranked_on(t, trigger, current, &d.oauth, &d.preferred);
    lemma_is_candidate(d, t, trigger, current, i);
    lemma_bar_is_the_departure(t, input, n);
    lemma_taken(
        d,
        t,
        trigger,
        current,
        n,
        input.plain_key(n, t.snap.readings@[n].headroom->0),
    );
}

/// Even the account that was just left is open to an escape, unless it was left at its
/// limit and its window has not reset since.
pub proof fn law_an_escape_may_go_back(
    d: Decision,
    t: TickInput,
    trigger: Trigger,
    current: u32,
    i: int,
)
    requires
        answers(d, t, trigger, current),
        trigger is AtLimit || trigger is Failover,
        0 <= i < t.view.accounts@.len(),
        t.view.accounts@[i].slot != current,
        !t.quarantined@.contains(t.view.accounts@[i].slot),
        !t.view.accounts@[i].disabled,
        t.view.accounts@[i].usage_status is Okay || t.view.accounts@[i].usage_status is Stale
            || t.view.accounts@[i].usage_status is TokenExpired,
        t.snap.readings@.contains_key(t.view.accounts@[i].slot),
        t.snap.readings@[t.view.accounts@[i].slot].headroom matches Some(h) && h > 0,
        t.state.left_at_limit matches Some(d) && (d.trigger@ != "at-limit"@ || d.recovery_at is None
            || d.recovery_at->0 <= t.now),
    ensures
        d.step == Step::Try(trigger),
        d.ordered@.contains(t.view.accounts@[i].slot),
{
    let n = t.view.accounts@[i].slot;
    let input = ranked_on(t, trigger, current, &d.oauth, &d.preferred);
    lemma_is_candidate(d, t, trigger, current, i);
    assert(bar_in_force(t.state.left_at_limit, input) is None);
    lemma_taken(
        d,
        t,
        trigger,
        current,
        n,
        input.plain_key(n, t.snap.readings@[n].headroom->0),
    );
}

/// A move by choice tries every open account below the threshold that has more left than
/// the active one by the margin, but for the one that was just left.
pub proof fn law_a_better_account_is_tried(
    d: Decision,
    t: TickInput,
    current: u32,
    i: int,
)
    requires
        answers(d, t, Trigger::Proactive, current),
        t.settings.strategy@ != "consume-first"@,
        0 <= i < t.view.accounts@.len(),
        t.view.accounts@[i].slot != current,
        !t.quarantined@.contains(t.view.accounts@[i].slot),
        !t.view.accounts@[i].disabled,
        t.view.accounts@[i].usage_status is Okay || t.view.accounts@[i].usage_status is Stale
            || t.view.accounts@[i].usage_status is TokenExpired,
        t.snap.readings@.contains_key(t.view.accounts@[i].slot),
        t.snap.readings@[t.view.accounts@[i].slot].headroom matches Some(h) && h > 0
            && 100_000_000 - h < t.settings.threshold && (t.snap.readings@.contains_key(current)
            && t.snap.readings@[current].headroom is Some ==> h
            - t.snap.readings@[current].headroom->0 >= t.settings.hysteresis_pct),
        !was_just_left(t, t.view.accounts@[i].slot),
    ensures
        d.step == Step::Try(Trigger::Proactive),
        d.ordered@.contains(t.view.accounts@[i].slot),
{
    let n = t.view.accounts@[i].slot;
    let trigger = Trigger::Proactive;
    let input = ranked_on(t, trigger, current, &d.oauth, &d.preferred);
    lemma_is_candidate(d, t, trigger, current, i);
    let k = choose|k: int| 0 <= k < d.oauth@.len() && d.oauth@[k] == n;
    assert(some_account_is_below(t, d.oauth@, current)) by {
        assert(t.snap.readings@.contains_key(d.oauth@[k]));
    }
    lemma_not_over(d, t, trigger, current);
    lemma_bar_is_the_departure(t, input, n);
    lemma_taken(
        d,
        t,
        trigger,
        current,
        n,
        input.plain_key(n, t.snap.readings@[n].headroom->0),
    );
}

/// To consume first, the loop tries every open account below the threshold whose week ends
/// before that of the active one, but for the one that was just left.
pub proof fn law_a_sooner_reset_is_tried(
    d: Decision,
    t: TickInput,
    current: u32,
    i: int,
    mine: i64,
    its: i64,
)
    requires
        answers(d, t, Trigger::ConsumeFirst, current),
        t.settings.strategy@ == "consume-first"@,
        0 <= i < t.view.accounts@.len(),
        t.view.accounts@[i].slot != current,
        !t.quarantined@.contains(t.view.accounts@[i].slot),
        !t.view.accounts@[i].disabled,
        t.view.accounts@[i].usage_status is Okay || t.view.accounts@[i].usage_status is Stale
            || t.view.accounts@[i].usage_status is TokenExpired,
        t.snap.readings@.contains_key(t.view.accounts@[i].slot),
        t.snap.readings@[t.view.accounts@[i].slot].headroom matches Some(h) && h > 0
            && 100_000_000 - h < t.settings.threshold,
        t.snap.readings@.contains_key(current),
        is_weekly_reset(t.snap.readings@[current].windows@, Some(mine)),
        is_weekly_reset(t.snap.readings@[t.view.accounts@[i].slot].windows@, Some(its)),
        t.now < its < mine,
        !was_just_left(t, t.view.accounts@[i].slot),
    ensures
        d.step == Step::Try(Trigger::ConsumeFirst),
        d.ordered@.contains(t.view.accounts@[i].slot),
{
    let n = t.view.accounts@[i].slot;
    let trigger = Trigger::ConsumeFirst;
    let input = ranked_on(t, trigger, current, &d.oauth, &d.preferred);
    lemma_is_candidate(d, t, trigger, current, i);
    let k = choose|k: int| 0 <= k < d.oauth@.len() && d.oauth@[k] == n;
    assert(some_account_is_below(t, d.oauth@, current)) by {
        assert(t.snap.readings@.contains_key(d.oauth@[k]));
    }
    lemma_not_over(d, t, trigger, current);
    lemma_bar_is_the_departure(t, input, n);
    let wn = t.snap.readings@[n].windows@;
    let wc = t.snap.readings@[current].windows@;
    crate::rotation_laws::law_weekly_reset_is_the_first(wn);
    crate::rotation_laws::law_weekly_reset_is_the_first(wc);
    crate::rotation_laws::lemma_weekly_is_one(wn, Some(its), first_seven_day(wn));
    crate::rotation_laws::lemma_weekly_is_one(wc, Some(mine), first_seven_day(wc));
    lemma_taken(
        d,
        t,
        trigger,
        current,
        n,
        input.plain_key(n, t.snap.readings@[n].headroom->0),
    );
}

proof fn lemma_account_at_is_one(accounts: Seq<AccountView>, n: u32)
    ensures
        account_at(accounts, n) matches Some(a) ==> exists|i: int|
            0 <= i < accounts.len() && (#[trigger] accounts[i]).slot == n && accounts[i] == a,
    decreases accounts.len(),
{
    if accounts.len() > 0 {
        let short = accounts.drop_last();
        lemma_account_at_is_one(short, n);
        if account_at(short, n) is Some {
            let i = choose|i: int|
                0 <= i < short.len() && (#[trigger] short[i]).slot == n && short[i] == account_at(
                    short,
                    n,
                )->0;
            assert(accounts[i] == short[i]);
        } else {
            assert(accounts[accounts.len() - 1] == accounts.last());
        }
    }
}

/// Whether the loop is to watch the active slot: switching is on, and the active account is
/// none with an API key.
pub open spec fn watches(t: TickInput, current: u32) -> bool {
    &&& t.settings.enabled
    &&& t.view.active_slot == Some(current)
    &&& forall|i: int|
        0 <= i < t.view.accounts@.len() && (#[trigger] t.view.accounts@[i]).slot == current ==> !(
        t.view.accounts@[i].usage_status is ApiKey)
}

proof fn lemma_watches(t: TickInput, current: u32)
    requires
        watches(t, current),
    ensures
        t.preflight() is None,
{
    lemma_account_at_is_one(t.view.accounts@, current);
}

/// Whether the loop may move to an account: it is another than the current one, not
/// quarantined, not held, and has a login that can be used.
pub open spec fn is_way_out(t: TickInput, current: u32, i: int) -> bool {
    &&& 0 <= i < t.view.accounts@.len()
    &&& t.view.accounts@[i].slot != current
    &&& !t.quarantined@.contains(t.view.accounts@[i].slot)
    &&& !t.view.accounts@[i].disabled
    &&& t.view.accounts@[i].usage_status is Okay || t.view.accounts@[i].usage_status is Stale
        || t.view.accounts@[i].usage_status is TokenExpired
    &&& t.snap.readings@.contains_key(t.view.accounts@[i].slot)
    &&& t.snap.readings@[t.view.accounts@[i].slot].headroom matches Some(h) && h > 0
}

/// An account at its limit is left, in a cooldown too, wherever an open account that is
/// measured has something left and was not just left itself.
pub proof fn law_an_account_at_its_limit_is_left(
    d: Decision,
    t: TickInput,
    e: AutoEngine,
    after: AutoEngine,
    current: u32,
    i: int,
)
    requires
        decides(d, t, e, after),
        watches(t, current),
        t.snap.readings@.contains_key(current),
        t.snap.readings@[current].headroom matches Some(h) && h <= 0,
        t.settings.threshold <= 100_000_000,
        is_way_out(t, current, i),
        !was_just_left(t, t.view.accounts@[i].slot),
    ensures
        d.step == Step::Try(Trigger::AtLimit),
        d.ordered@.contains(t.view.accounts@[i].slot),
{
    lemma_watches(t, current);
    assert(e.classified(t, current) == Classified::Trigger(Trigger::AtLimit));
    law_an_escape_leaves_no_way_out_untried(d, t, Trigger::AtLimit, current, i);
}

/// An account at the threshold is left, out of a cooldown, wherever an open account below it
/// has more left by the margin, where the strategy is not to consume first.
pub proof fn law_an_account_at_the_threshold_is_left(
    d: Decision,
    t: TickInput,
    e: AutoEngine,
    after: AutoEngine,
    current: u32,
    i: int,
)
    requires
        decides(d, t, e, after),
        watches(t, current),
        t.settings.strategy@ != "consume-first"@,
        t.snap.readings@.contains_key(current),
        t.snap.readings@[current].headroom matches Some(h) && h > 0 && 100_000_000 - h
            >= t.settings.threshold,
        t.state.cooldown_until is None || t.state.cooldown_until->0 <= t.now,
        is_way_out(t, current, i),
        100_000_000 - t.snap.readings@[t.view.accounts@[i].slot].headroom->0
            < t.settings.threshold,
        t.snap.readings@[t.view.accounts@[i].slot].headroom->0
            - t.snap.readings@[current].headroom->0 >= t.settings.hysteresis_pct,
        !was_just_left(t, t.view.accounts@[i].slot),
    ensures
        d.step == Step::Try(Trigger::Proactive),
        d.ordered@.contains(t.view.accounts@[i].slot),
{
    lemma_watches(t, current);
    assert(e.classified(t, current) == Classified::Trigger(Trigger::Proactive));
    law_a_better_account_is_tried(d, t, current, i);
}

/// An account that could not be read is left once that happened as often as the settings
/// say, and not before; a reading in between starts the count anew.
pub proof fn law_an_unreadable_account_is_left_in_time(
    d: Decision,
    t: TickInput,
    e: AutoEngine,
    after: AutoEngine,
    current: u32,
    i: int,
)
    requires
        decides(d, t, e, after),
        watches(t, current),
        e.unhealthy_ticks < u32::MAX,
        forall|k: int|
            0 <= k < t.view.accounts@.len() && (#[trigger] t.view.accounts@[k]).slot == current
                ==> !(t.view.accounts@[k].usage_status is TokenExpired),
    ensures
        ({
            let unread = !t.snap.readings@.contains_key(current)
                || t.snap.readings@[current].headroom is None;
            &&& !unread ==> after.unhealthy_ticks == 0
            &&& unread ==> after.unhealthy_ticks == e.unhealthy_ticks + 1
            &&& unread && e.unhealthy_ticks + 1 < t.settings.unhealthy_ticks ==> !(d.step is Try)
            &&& unread && e.unhealthy_ticks + 1 >= t.settings.unhealthy_ticks && is_way_out(
                t,
                current,
                i,
            ) && !was_just_left(t, t.view.accounts@[i].slot) ==> d.step == Step::Try(
                Trigger::Failover,
            ) && d.ordered@.contains(t.view.accounts@[i].slot)
        }),
{
    lemma_watches(t, current);
    lemma_account_at_is_one(t.view.accounts@, current);
    let unread = !t.snap.readings@.contains_key(current)
        || t.snap.readings@[current].headroom is None;
    if unread && e.unhealthy_ticks + 1 >= t.settings.unhealthy_ticks {
        assert(e.classified(t, current) == Classified::Trigger(Trigger::Failover));
        if is_way_out(t, current, i) && !was_just_left(t, t.view.accounts@[i].slot) {
            law_an_escape_leaves_no_way_out_untried(d, t, Trigger::Failover, current, i);
        }
    }
}

/// A login that expired while its tool is idle is no reason to move, for half an hour; then
/// it counts like any that cannot be read.
pub proof fn law_an_idle_login_waits_half_an_hour(
    d: Decision,
    t: TickInput,
    e: AutoEngine,
    after: AutoEngine,
    current: u32,
    k: int,
)
    requires
        decides(d, t, e, after),
        watches(t, current),
        e.unhealthy_ticks < u32::MAX,
        distinct_slots(t.view.accounts@),
        0 <= k < t.view.accounts@.len(),
        t.view.accounts@[k].slot == current,
        t.view.accounts@[k].usage_status is TokenExpired,
        !t.snap.readings@.contains_key(current) || t.snap.readings@[current].headroom is None,
    ensures
        e.idle_hold_since is None || t.now - e.idle_hold_since->0 <= 1_800_000_000 ==> !(
        d.step is Try) && after.unhealthy_ticks == 0,
        e.idle_hold_since is None ==> after.idle_hold_since == Some(t.now),
        e.idle_hold_since is Some ==> after.idle_hold_since == e.idle_hold_since,
        e.idle_hold_since is Some && t.now - e.idle_hold_since->0 > 1_800_000_000
            ==> after.unhealthy_ticks == e.unhealthy_ticks + 1,
{
    lemma_watches(t, current);
    lemma_account_at(t.view.accounts@, k);
}

/// Where the strategy is to consume first, an active account that is preferred is left at
/// its limit only, while some account that is measured is below the threshold.
pub proof fn law_a_preferred_account_is_kept(
    d: Decision,
    t: TickInput,
    e: AutoEngine,
    after: AutoEngine,
    current: u32,
    k: int,
)
    requires
        decides(d, t, e, after),
        t.wf(),
        t.view.active_slot == Some(current),
        t.settings.strategy@ == "consume-first"@,
        distinct_slots(t.view.accounts@),
        0 <= k < t.view.accounts@.len(),
        t.view.accounts@[k].slot == current,
        t.view.accounts@[k].preferred || is_named(t.view.accounts@[k], t.settings.preferred@),
        t.snap.readings@.contains_key(current),
        t.snap.readings@[current].headroom matches Some(h) && h > 0,
        100_000_000 - t.snap.readings@[current].headroom->0 < t.settings.threshold || exists|n: u32|
            n != current && #[trigger] t.snap.readings@.contains_key(n) && (
            t.snap.readings@[n].headroom matches Some(x) && 100_000_000 - x
                < t.settings.threshold),
    ensures
        !(d.step is Try),
{
    lemma_account_at(t.view.accounts@, k);
    crate::rotation_laws::lemma_prefers(t.view.accounts@[k], t.settings.preferred@);
    let h = t.snap.readings@[current].headroom->0;
    if 100_000_000 - h >= t.settings.threshold {
        let n = choose|n: u32|
            n != current && #[trigger] t.snap.readings@.contains_key(n) && (
            t.snap.readings@[n].headroom matches Some(x) && 100_000_000 - x < t.settings.threshold);
        lemma_peers_not_over(t, current, n);
    }
}

proof fn lemma_peers_not_over(t: TickInput, current: u32, n: u32)
    requires
        t.wf(),
        n != current,
        t.snap.readings@.contains_key(n),
        t.snap.readings@[n].headroom matches Some(x) && 100_000_000 - x < t.settings.threshold,
    ensures
        forall|h: Option<i64>|
            !#[trigger] crate::auto_rank::all_over(
                crate::slots::without(t.snap.readings.numbers(), current),
                t.snap.readings@,
                h,
                t.settings.threshold,
            ),
{
    let numbers = t.snap.readings.numbers();
    let peers = crate::slots::without(numbers, current);
    let i = t.snap.readings.lemma_position(n);
    assert(numbers[i] == n);
    crate::slots::lemma_without(numbers, current);
    assert(peers.contains(n));
    let k = choose|k: int| 0 <= k < peers.len() && peers[k] == n;
    assert(crate::auto_rank::headroom_in(t.snap.readings@, peers[k]) is Some);
}

/// Where the strategy is to consume first, an account that is neither preferred nor at its
/// limit is left, out of a cooldown, for an open one below the threshold whose week ends
/// sooner.
pub proof fn law_a_sooner_week_is_consumed_first(
    d: Decision,
    t: TickInput,
    e: AutoEngine,
    after: AutoEngine,
    current: u32,
    i: int,
    mine: i64,
    its: i64,
)
    requires
        decides(d, t, e, after),
        t.wf(),
        watches(t, current),
        t.settings.strategy@ == "consume-first"@,
        forall|k: int|
            0 <= k < t.view.accounts@.len() && (#[trigger] t.view.accounts@[k]).slot == current
                ==> !t.view.accounts@[k].preferred && !is_named(
                t.view.accounts@[k],
                t.settings.preferred@,
            ),
        t.snap.readings@.contains_key(current),
        t.snap.readings@[current].headroom matches Some(h) && h > 0,
        t.state.cooldown_until is None || t.state.cooldown_until->0 <= t.now,
        is_way_out(t, current, i),
        100_000_000 - t.snap.readings@[t.view.accounts@[i].slot].headroom->0
            < t.settings.threshold,
        is_weekly_reset(t.snap.readings@[current].windows@, Some(mine)),
        is_weekly_reset(t.snap.readings@[t.view.accounts@[i].slot].windows@, Some(its)),
        t.now < its < mine,
        !was_just_left(t, t.view.accounts@[i].slot),
    ensures
        d.step == Step::Try(Trigger::ConsumeFirst),
        d.ordered@.contains(t.view.accounts@[i].slot),
{
    lemma_watches(t, current);
    lemma_account_at_is_one(t.view.accounts@, current);
    if account_at(t.view.accounts@, current) is Some {
        crate::rotation_laws::lemma_prefers(
            account_at(t.view.accounts@, current)->0,
            t.settings.preferred@,
        );
    }
    lemma_peers_not_over(t, current, t.view.accounts@[i].slot);
    assert(e.classified(t, current) == Classified::Trigger(Trigger::ConsumeFirst));
    law_a_sooner_reset_is_tried(d, t, current, i, mine, its);
}

/// Whether a window of a list is the first of those that are filled the most.
pub open spec fn is_first_fullest(list: Seq<Window>, k: int) -> bool {
    &&& 0 <= k < list.len()
    &&& forall|m: int| 0 <= m < list.len() ==> (#[trigger] list[m]).pct <= list[k].pct
    &&& forall|m: int| 0 <= m < k ==> (#[trigger] list[m]).pct < list[k].pct
}

proof fn lemma_binding(list: Seq<Window>) -> (k: int)
    requires
        list.len() > 0,
    ensures
        is_first_fullest(list, k),
        crate::auto_rank::binding_window(list) == Some(list[k]),
    decreases list.len(),
{
    let short = list.drop_last();
    if short.len() == 0 {
        assert(crate::auto_rank::binding_window(short) is None);
        assert(list[0] == list.last());
        0
    } else {
        let k = lemma_binding(short);
        assert forall|m: int| 0 <= m < short.len() implies short[m] == #[trigger] list[m] by {}
        if list.last().pct > short[k].pct {
            assert forall|m: int| 0 <= m < list.len() - 1 implies (#[trigger] list[m]).pct
                < list.last().pct by {
                assert(short[m].pct <= short[k].pct);
            }
            list.len() - 1
        } else {
            assert forall|m: int| 0 <= m < list.len() implies (#[trigger] list[m]).pct
                <= list[k].pct by {
                if m < short.len() {
                    assert(short[m].pct <= short[k].pct);
                }
            }
            assert forall|m: int| 0 <= m < k implies (#[trigger] list[m]).pct < list[k].pct by {
                assert(short[m].pct < short[k].pct);
            }
            k
        }
    }
}

/// An account is back when the window that binds it resets, the first of those that count and
/// are filled the most, and not when a lesser one does; where that is not known, or past,
/// neither is it.
pub proof fn law_the_binding_window_says_when_an_account_is_back(
    windows: &Vec<Window>,
    models: &Vec<String>,
    now: i64,
    r: Option<i64>,
    k: int,
)
    requires
        call_ensures(crate::auto_rank::binding_recovery_ts, (windows, models, now), r),
        is_first_fullest(crate::gating::gating(windows@, models@), k),
    ensures
        ({
            let at = crate::poll_policy::window_reset(
                crate::gating::gating(windows@, models@)[k],
            );
            &&& r is Some <==> at is Some && at->0 > now
            &&& r is Some ==> r == at
        }),
{
    let list = crate::gating::gating(windows@, models@);
    let j = lemma_binding(list);
    assert(list[j].pct <= list[k].pct && list[k].pct <= list[j].pct);
    if j < k {
        assert(list[j].pct < list[k].pct);
    }
    if k < j {
        assert(list[k].pct < list[j].pct);
    }
}

/// Of an account without a window that counts, it is not known when it is back.
pub proof fn law_nothing_comes_back_without_a_window(
    windows: &Vec<Window>,
    models: &Vec<String>,
    now: i64,
    r: Option<i64>,
)
    requires
        call_ensures(crate::auto_rank::binding_recovery_ts, (windows, models, now), r),
        crate::gating::gating(windows@, models@).len() == 0,
    ensures
        r is None,
{
}

/// While every account is at or over the threshold, a move by choice goes only to one that
/// is back at least five minutes before the active account, or that has at least twice as
/// much left.
pub proof fn law_a_crowded_fleet_moves_for_a_gain(
    d: Decision,
    t: TickInput,
    trigger: Trigger,
    current: u32,
    x: int,
    back: Option<i64>,
    its: Option<i64>,
)
    requires
        answers(d, t, trigger, current),
        trigger is Proactive || trigger is ConsumeFirst,
        !some_account_is_below(t, d.oauth@, current),
        0 <= x < d.ordered@.len(),
        call_ensures(
            crate::auto_rank::recovery_of,
            (t.snap, current, &t.settings.models, t.now),
            back,
        ),
        call_ensures(
            crate::auto_rank::recovery_of,
            (t.snap, d.ordered@[x], &t.settings.models, t.now),
            its,
        ),
    ensures
        (its is Some && (back is None || its->0 < back->0 - 300_000_000))
            || t.snap.readings@[d.ordered@[x]].headroom->0
            >= t.snap.readings@[current].headroom->0 * 2,
{
    lemma_target(d, t, trigger, current, x);
    lemma_over(d, t, trigger, current, x);
}

proof fn lemma_over(d: Decision, t: TickInput, trigger: Trigger, current: u32, x: int)
    requires
        answers(d, t, trigger, current),
        !some_account_is_below(t, d.oauth@, current),
        0 <= x < d.ordered@.len(),
    ensures
        ranked_on(t, trigger, current, &d.oauth, &d.preferred).over(),
{
    lemma_target(d, t, trigger, current, x);
    let slots = d.oauth@;
    let r = t.snap.readings@;
    let k = choose|k: int| 0 <= k < slots.len() && slots[k] == d.ordered@[x];
    assert(crate::auto_rank::headroom_in(r, slots[k]) is Some);
    assert forall|i: int| 0 <= i < slots.len() implies (crate::auto_rank::headroom_in(
        r,
        #[trigger] slots[i],
    ) matches Some(h) ==> crate::units::FULL_PCT - h >= t.settings.threshold) by {
        if r.contains_key(slots[i]) && r[slots[i]].headroom is Some {
            assert(!(100_000_000 - r[slots[i]].headroom->0 < t.settings.threshold));
        }
    }
}

/// While every account is at or over the threshold, what is back within four hours is tried
/// before all that is back later or not known to be, and of two such the sooner one first;
/// of two that are not, the one with more left.
pub proof fn law_a_crowded_fleet_tries_the_soonest_back(
    d: Decision,
    t: TickInput,
    trigger: Trigger,
    current: u32,
    x: int,
    y: int,
    mine: Option<i64>,
    back_x: Option<i64>,
    back_y: Option<i64>,
)
    requires
        answers(d, t, trigger, current),
        trigger is Proactive || trigger is ConsumeFirst,
        !some_account_is_below(t, d.oauth@, current),
        0 <= x < y < d.ordered@.len(),
        call_ensures(
            crate::auto_rank::recovery_of,
            (t.snap, current, &t.settings.models, t.now),
            mine,
        ),
        call_ensures(
            crate::auto_rank::recovery_of,
            (t.snap, d.ordered@[x], &t.settings.models, t.now),
            back_x,
        ),
        call_ensures(
            crate::auto_rank::recovery_of,
            (t.snap, d.ordered@[y], &t.settings.models, t.now),
            back_y,
        ),
    ensures
        back_y is Some && back_y->0 - t.now <= 14_400_000_000 ==> back_x is Some && back_x->0
            <= back_y->0,
        ({
            let far_x = back_x is None || back_x->0 - t.now > 14_400_000_000;
            let far_y = back_y is None || back_y->0 - t.now > 14_400_000_000;
            let far = mine is None || mine->0 - t.now > 14_400_000_000;
            let room = t.snap.readings@[current].headroom->0;
            let hx = t.snap.readings@[d.ordered@[x]].headroom->0;
            let hy = t.snap.readings@[d.ordered@[y]].headroom->0;
            far && far_x && far_y && room > 3_000_000 ==> hx >= hy
        }),
{
    lemma_target(d, t, trigger, current, x);
    lemma_target(d, t, trigger, current, y);
    lemma_over(d, t, trigger, current, x);
    let input = ranked_on(t, trigger, current, &d.oauth, &d.preferred);
    let bar = bar_in_force(t.state.left_at_limit, input);
    let list = input.targets(bar);
    assert(!list[y].0.less(list[x].0));
    lemma_admitted(input, d.oauth@, bar, false);
    lemma_admitted(input, d.oauth@, bar, true);
    assert(list.contains(list[x]) && list.contains(list[y]));
}

/// A move by choice does not go straight back to the account that was left, as long as that
/// has gained nothing: it has less than three percent more left than when it was left, no
/// more than twice what the active account has and three percent, and is not back clearly
/// sooner than it was due then.
pub proof fn law_a_move_is_not_undone_for_nothing(
    d: Decision,
    t: TickInput,
    trigger: Trigger,
    current: u32,
    x: int,
    back: Option<i64>,
)
    requires
        answers(d, t, trigger, current),
        trigger is Proactive || trigger is ConsumeFirst,
        t.state.left_at_limit matches Some(l) && {
            &&& l.to == current
            &&& l.trigger@ != "failover"@
            &&& l.headroom is Some
            &&& t.snap.readings@.contains_key(l.from)
            &&& t.snap.readings@[l.from].headroom matches Some(h) && h < l.headroom->0 + 3_000_000
                && h < 100_000_000 && (t.snap.readings@.contains_key(current) && (
            t.snap.readings@[current].headroom matches Some(a) && h <= 2 * a + 3_000_000))
            &&& call_ensures(
                crate::auto_rank::recovery_of,
                (t.snap, l.from, &t.settings.models, t.now),
                back,
            )
            &&& back is None || (l.recovery_at is Some && back->0 >= l.recovery_at->0
                - 300_000_000)
        },
        0 <= x < d.ordered@.len(),
    ensures
        d.ordered@[x] != t.state.left_at_limit->0.from,
{
    lemma_target(d, t, trigger, current, x);
    let input = ranked_on(t, trigger, current, &d.oauth, &d.preferred);
    assert(!crate::auto_bar::has_recovered(t.state.left_at_limit, input));
}

/// An account that was left at its limit is not gone back to before its window resets, from
/// where that move led, on an escape either.
pub proof fn law_a_spent_account_is_not_gone_back_to(
    d: Decision,
    t: TickInput,
    trigger: Trigger,
    current: u32,
    x: int,
)
    requires
        answers(d, t, trigger, current),
        t.state.left_at_limit matches Some(l) && l.to == current && l.trigger@ == "at-limit"@ && (
        l.recovery_at matches Some(until) && t.now < until),
        0 <= x < d.ordered@.len(),
    ensures
        d.ordered@[x] != t.state.left_at_limit->0.from,
{
    lemma_target(d, t, trigger, current, x);
}

/// Where nothing is tried, that every account is exhausted is said only where every
/// candidate is measured and at its limit, and there is none with an API key.
pub proof fn law_exhausted_means_every_account(
    d: Decision,
    t: TickInput,
    trigger: Trigger,
    current: u32,
    i: int,
)
    requires
        answers(d, t, trigger, current),
        d.step is AllExhausted,
        0 <= i < d.oauth@.len(),
    ensures
        t.snap.readings@.contains_key(d.oauth@[i]),
        t.snap.readings@[d.oauth@[i]].headroom matches Some(h) && h <= 0,
        d.api_keys@.len() == 0,
        !(trigger is ConsumeFirst),
{
    assert(crate::auto_rank::headroom_in(t.snap.readings@, d.oauth@[i]) is Some);
}

proof fn lemma_soonest_usable(items: Seq<(u32, Reading)>, models: Seq<String>, now: i64)
    ensures
        crate::auto::soonest_usable(items, models, now) matches Ok(best) ==> {
            &&& forall|i: int|
                0 <= i < items.len() && (crate::gating::peak(
                    crate::gating::gating((#[trigger] items[i]).1.windows@, models),
                ) matches Some(p) && p >= 100_000_000) ==> {
                    let back = crate::poll_policy::latest_full_reset(
                        crate::gating::gating(items[i].1.windows@, models),
                    );
                    back is Some && back->0 > now && best is Some && best->0 <= back->0
                }
            &&& best is Some ==> exists|i: int|
                0 <= i < items.len() && crate::poll_policy::latest_full_reset(
                    crate::gating::gating((#[trigger] items[i]).1.windows@, models),
                ) == best
        },
    decreases items.len(),
{
    if items.len() > 0 {
        let short = items.drop_last();
        lemma_soonest_usable(short, models, now);
        if let Ok(best) = crate::auto::soonest_usable(items, models, now) {
            let before = crate::auto::soonest_usable(short, models, now)->Ok_0;
            assert forall|i: int|
                0 <= i < items.len() && (crate::gating::peak(
                    crate::gating::gating((#[trigger] items[i]).1.windows@, models),
                ) matches Some(p) && p >= 100_000_000) implies {
                let back = crate::poll_policy::latest_full_reset(
                    crate::gating::gating(items[i].1.windows@, models),
                );
                back is Some && back->0 > now && best is Some && best->0 <= back->0
            } by {
                if i < short.len() {
                    assert(short[i] == items[i]);
                }
            }
            if best is Some {
                if best == before {
                    let i = choose|i: int|
                        0 <= i < short.len() && crate::poll_policy::latest_full_reset(
                            crate::gating::gating((#[trigger] short[i]).1.windows@, models),
                        ) == before;
                    assert(items[i] == short[i]);
                } else {
                    assert(items[items.len() - 1] == items.last());
                }
            }
        }
    }
}

/// The earliest recovery that is named is that of a full account, at the last reset of its
/// full windows; no full account comes back before it, and each names a reset ahead.
pub proof fn law_the_earliest_recovery_is_proven(
    snap: &crate::auto_rank::Snapshot,
    models: &Vec<String>,
    now: i64,
    r: Option<i64>,
    i: int,
)
    requires
        call_ensures(crate::auto::earliest_recovery, (snap, models, now), r),
        r is Some,
        0 <= i < snap.readings.items@.len(),
        crate::gating::peak(
            crate::gating::gating(snap.readings.items@[i].1.windows@, models@),
        ) matches Some(p) && p >= 100_000_000,
    ensures
        ({
            let back = crate::poll_policy::latest_full_reset(
                crate::gating::gating(snap.readings.items@[i].1.windows@, models@),
            );
            back is Some && back->0 > now && r->0 <= back->0
        }),
{
    lemma_soonest_usable(snap.readings.items@, models@, now);
    assert(snap.readings.items@[i] == snap.readings.items@[i]);
}

/// A tick that is blocked until a known reset sleeps toward it, never past it by more than
/// its own interval, and never longer than ten minutes.
pub proof fn law_a_blocked_loop_sleeps_toward_the_reset(
    e: &AutoEngine,
    interval: i64,
    now: i64,
    roll: u32,
    r: i64,
)
    requires
        0 <= interval <= 600_000_000,
        call_ensures(AutoEngine::schedule, (e, TickOutcome::Blocked, interval, now, roll), r),
    ensures
        r >= interval,
        r <= 600_000_000,
        e.sleep_until is Some && interval <= e.sleep_until->0 - now <= 600_000_000 ==> r
            == e.sleep_until->0 - now,
        e.sleep_until is Some && e.sleep_until->0 - now <= interval ==> r == interval,
        e.sleep_until is None && !e.blocked_wait_long ==> r == interval,
        e.sleep_until is None && e.blocked_wait_long ==> r >= 300_000_000,
{
}

/// The headroom that is known of a slot, if any.
pub open spec fn room_in(snap: Snapshot, n: u32) -> Option<i64> {
    if snap.readings@.contains_key(n) {
        snap.readings@[n].headroom
    } else {
        None
    }
}

/// When an account that was left is worth going back to. One that was left at its limit is
/// not before its window resets. One that was failed over from is once it is below the
/// threshold. Any other is where it has more than twice the room of the active account and
/// three points, where it is below the threshold and the active account cannot be read, and
/// where it has gained three points since.
pub proof fn law_when_an_account_that_was_left_is_worth_it(
    d: Departure,
    input: RankInput,
    peer: Option<i64>,
    r: bool,
)
    requires
        input.snap.wf(),
        call_ensures(crate::auto_bar::left_account_recovered, (&Some(d), &input), r),
        call_ensures(
            crate::auto_rank::recovery_of,
            (input.snap, d.from, &input.settings.models, input.now),
            peer,
        ),
    ensures
        ({
            let h = room_in(*input.snap, d.from);
            let below = h is Some && 100_000_000 - h->0 < input.settings.threshold;
            let held = d.trigger@ == "at-limit"@ && d.recovery_at is Some && input.now
                < d.recovery_at->0;
            &&& held ==> !r
            &&& d.trigger@ == "failover"@ && below ==> r
            &&& d.trigger@ == "failover"@ && !below && peer is None ==> !r
            &&& d.trigger@ != "failover"@ && !held && below && input.active_headroom is None ==> r
            &&& d.trigger@ != "failover"@ && !held && h is Some && input.active_headroom is Some
                && h->0 > 2 * input.active_headroom->0 + 3_000_000 ==> r
            &&& d.trigger@ != "failover"@ && !held && h is Some && d.headroom is Some && h->0
                >= d.headroom->0 + 3_000_000 ==> r
            &&& d.trigger@ != "failover"@ && h is None && peer is None ==> !r
        }),
{
    reveal_strlit("at-limit");
    reveal_strlit("failover");
    assert("at-limit"@[0] == 'a' && "failover"@[0] == 'f');
}

} // verus!
