//! The bar against undoing the previous move, and when it is lifted.

use vstd::prelude::*;

use crate::auto_rank::{
    clearly_sooner, headroom_in, is_clearly_sooner, is_near, is_ranking, near, rank_candidates,
    recovery_of, RankInput, Ranked, Trigger, HORIZON_HEADROOM_RATIO, SPENT_HEADROOM_PCT,
};
use crate::order::{in_order, lemma_placed, placed, Key};
use crate::slots::lists;
use crate::text::same;
use crate::units::{lesser, FULL_PCT};

verus! {

/// Where the last switch came from, and what it looked like there.
#[derive(Debug)]
pub struct Departure {
    /// The slot that was left.
    pub from: u32,
    /// The slot that was landed on.
    pub to: u32,
    pub trigger: String,
    /// The headroom of the account that was left, where it was measured.
    pub headroom: Option<i64>,
    /// When its binding window was due back, `None` for unknown or never.
    pub recovery_at: Option<i64>,
}

impl Departure {
    /// Whether the account was left at its limit and has not come back.
    pub open spec fn spent(&self, now: i64) -> bool {
        self.trigger@ == "at-limit"@ && (self.recovery_at matches Some(until) && now < until)
    }
}

/// Whether the account that was left was proven spent, and its window has not
/// reset yet: until then no reading releases it, since readings lag a real limit.
pub fn left_at_limit_holds(departure: &Departure, now: i64) -> (r: bool)
    ensures
        r == departure.spent(now),
{
    same(departure.trigger.as_str(), "at-limit") && match departure.recovery_at {
        Some(until) => now < until,
        None => false,
    }
}

/// Whether an account has room below the threshold.
pub open spec fn lands_well(h: Option<i64>, threshold: i64) -> bool {
    h matches Some(x) && x > FULL_PCT - threshold
}

fn would_land_well(h: Option<i64>, threshold: i64) -> (r: bool)
    ensures
        r == lands_well(h, threshold),
{
    match h {
        Some(x) => x as i128 > FULL_PCT as i128 - threshold as i128,
        None => false,
    }
}

/// Whether the account that was left is a better proposition than it was.
///
/// Without a departure there is nothing to hold against it. Proven spent and not
/// yet reset, it is not. After a failover nothing was measured: it must be a
/// healthy place to land, or come back clearly sooner than the active account,
/// whose own reset must be known unless the other one is near. Else it must
/// dominate the active account, or have gained on its own headroom at departure,
/// or come back clearly sooner than it was due then.
pub open spec fn has_recovered(departure: Option<Departure>, input: RankInput) -> bool {
    match departure {
        None => true,
        Some(d) => {
            let h = headroom_in(input.readings(), d.from);
            let peer = input.back(d.from);
            if d.spent(input.now) {
                false
            } else if d.trigger@ == Trigger::Failover.text() {
                let active = input.back(input.current);
                ||| lands_well(h, input.settings.threshold)
                ||| (active is Some || near(peer, input.now)) && clearly_sooner(peer, active)
            } else {
                ||| (h matches Some(x) && (input.active_headroom matches Some(a) && x > a
                    * HORIZON_HEADROOM_RATIO + SPENT_HEADROOM_PCT))
                ||| (input.active_headroom is None && lands_well(h, input.settings.threshold))
                ||| (h matches Some(x) && (d.headroom matches Some(left) && x >= lesser(
                    left + SPENT_HEADROOM_PCT,
                    FULL_PCT as int,
                )))
                ||| clearly_sooner(peer, d.recovery_at)
            }
        },
    }
}

/// Whether the account that was left is a better proposition than when it was
/// left.
pub fn left_account_recovered(departure: &Option<Departure>, input: &RankInput) -> (r: bool)
    requires
        input.snap.wf(),
    ensures
        r == has_recovered(*departure, *input),
{
    let d: &Departure = match departure {
        Some(d) => d,
        None => {
            return true;
        },
    };
    if left_at_limit_holds(d, input.now) {
        return false;
    }
    let threshold: i64 = input.settings.threshold;
    let h: Option<i64> = input.snap.headroom(d.from);
    let peer: Option<i64> = recovery_of(input.snap, d.from, &input.settings.models, input.now);
    if same(d.trigger.as_str(), Trigger::Failover.name()) {
        if would_land_well(h, threshold) {
            return true;
        }
        let active: Option<i64> = recovery_of(
            input.snap,
            input.current,
            &input.settings.models,
            input.now,
        );
        return (active.is_some() || is_near(peer, input.now)) && is_clearly_sooner(peer, active);
    }
    match (h, input.active_headroom) {
        (Some(x), Some(a)) => {
            if x as i128 > a as i128 * HORIZON_HEADROOM_RATIO as i128 + SPENT_HEADROOM_PCT as i128 {
                return true;
            }
        },
        (Some(_), None) => {
            if would_land_well(h, threshold) {
                return true;
            }
        },
        _ => {},
    }
    if let (Some(left), Some(x)) = (d.headroom, h) {
        let gained: i128 = left as i128 + SPENT_HEADROOM_PCT as i128;
        let goal: i128 = if gained <= FULL_PCT as i128 {
            gained
        } else {
            FULL_PCT as i128
        };
        if x as i128 >= goal {
            return true;
        }
    }
    is_clearly_sooner(peer, d.recovery_at)
}

/// The account that is barred, if any.
///
/// The bar is for moves by choice; an escape may go anywhere but back onto an
/// account that was proven spent. It holds only where the last switch put us. A
/// preferred account that has recovered is free; so is one with twice the active
/// headroom, or, where that is unknown, one that is a healthy place to land.
pub open spec fn barred(departure: Option<Departure>, input: RankInput, recovered: bool) -> Option<
    u32,
> {
    match departure {
        None => None,
        Some(d) => {
            let h = headroom_in(input.readings(), d.from);
            if !input.trigger.by_choice() && !d.spent(input.now) {
                None
            } else if d.to != input.current {
                None
            } else if !recovered {
                Some(d.from)
            } else if input.preferred@.contains(d.from) {
                None
            } else if h matches Some(left) && (input.active_headroom matches Some(a) && left >= a
                * HORIZON_HEADROOM_RATIO) {
                None
            } else if input.active_headroom is None && lands_well(h, input.settings.threshold) {
                None
            } else {
                Some(d.from)
            }
        },
    }
}

/// The account that was most recently left, while it is still barred.
pub fn no_return_account(departure: &Option<Departure>, input: &RankInput, recovered: bool) -> (r:
    Option<u32>)
    requires
        input.snap.wf(),
    ensures
        r == barred(*departure, *input, recovered),
{
    let d: &Departure = match departure {
        Some(d) => d,
        None => {
            return None;
        },
    };
    if !input.trigger.discretionary() && !left_at_limit_holds(d, input.now) {
        return None;
    }
    if d.to != input.current {
        return None;
    }
    if !recovered {
        return Some(d.from);
    }
    if lists(input.preferred, d.from) {
        return None;
    }
    let h: Option<i64> = input.snap.headroom(d.from);
    match (h, input.active_headroom) {
        (Some(left), Some(a)) => {
            if left as i128 >= a as i128 * HORIZON_HEADROOM_RATIO as i128 {
                return None;
            }
        },
        (Some(_), None) => {
            if would_land_well(h, input.settings.threshold) {
                return None;
            }
        },
        _ => {},
    }
    Some(d.from)
}

/// The bar that the ranking is made under: none where the barred account has
/// recovered, the bar leaves nothing and lifting it leaves something.
pub open spec fn bar_in_force(departure: Option<Departure>, input: RankInput) -> Option<u32> {
    let recovered = has_recovered(departure, input);
    let bar = barred(departure, input, recovered);
    if bar is Some && recovered && input.targets(bar).len() == 0 && input.targets(None).len() > 0 {
        None
    } else {
        bar
    }
}

/// Ranks with the bar, and again without it when the bar leaves nothing and the
/// barred account has recovered. That the bar leaves nothing is no release by
/// itself: with two accounts it always does.
pub fn rank(departure: &Option<Departure>, input: &RankInput) -> (r: Ranked)
    requires
        input.snap.wf(),
    ensures
        is_ranking(r, *input, bar_in_force(*departure, *input)),
{
    let recovered: bool = left_account_recovered(departure, input);
    let no_return: Option<u32> = no_return_account(departure, input, recovered);
    let ranked: Ranked = rank_candidates(input, no_return);
    assert(ranked.ordered@.len() == input.targets(no_return).len());
    if no_return.is_some() && ranked.ordered.len() == 0 && recovered {
        let unbarred: Ranked = rank_candidates(input, None);
        assert(unbarred.ordered@.len() == input.targets(None).len());
        if unbarred.ordered.len() > 0 {
            return unbarred;
        }
    }
    ranked
}

/// The candidates that qualify, or that are fallbacks, stand in the order of their keys,
/// and are those of which the gates say so.
pub proof fn lemma_admitted(
    input: RankInput,
    slots: Seq<u32>,
    no_return: Option<u32>,
    fallback: bool,
)
    ensures
        in_order(input.admitted(slots, no_return, fallback)),
        forall|e: (Key, u32)| #[trigger]
            input.admitted(slots, no_return, fallback).contains(e) <==> slots.contains(e.1)
                && input.verdict(e.1, no_return) == if fallback {
                crate::auto_rank::Verdict::Fallback(e.0)
            } else {
                crate::auto_rank::Verdict::Takes(e.0)
            },
    decreases slots.len(),
{
    let out = input.admitted(slots, no_return, fallback);
    if slots.len() > 0 {
        let rest = slots.drop_last();
        let last = slots.last();
        lemma_admitted(input, rest, no_return, fallback);
        let was = input.admitted(rest, no_return, fallback);
        assert forall|e: (Key, u32)| #[trigger] out.contains(e) <==> slots.contains(e.1)
            && input.verdict(e.1, no_return) == if fallback {
            crate::auto_rank::Verdict::Fallback(e.0)
        } else {
            crate::auto_rank::Verdict::Takes(e.0)
        } by {
            assert(was.contains(e) <==> rest.contains(e.1) && input.verdict(e.1, no_return)
                == if fallback {
                crate::auto_rank::Verdict::Fallback(e.0)
            } else {
                crate::auto_rank::Verdict::Takes(e.0)
            });
            assert(slots.contains(e.1) <==> rest.contains(e.1) || e.1 == last) by {
                if slots.contains(e.1) {
                    let j = choose|j: int| 0 <= j < slots.len() && slots[j] == e.1;
                    if j < rest.len() {
                        assert(rest[j] == e.1);
                    }
                }
                if rest.contains(e.1) {
                    let j = choose|j: int| 0 <= j < rest.len() && rest[j] == e.1;
                    assert(slots[j] == e.1);
                }
                assert(slots[slots.len() - 1] == last);
            }
            match input.verdict(last, no_return) {
                crate::auto_rank::Verdict::Takes(key) => {
                    lemma_placed(was, (key, last));
                    assert(placed(was, (key, last)).contains(e) <==> was.contains(e) || e == (
                        key,
                        last,
                    ));
                },
                crate::auto_rank::Verdict::Fallback(key) => {
                    lemma_placed(was, (key, last));
                    assert(placed(was, (key, last)).contains(e) <==> was.contains(e) || e == (
                        key,
                        last,
                    ));
                },
                _ => {},
            }
        }
        match input.verdict(last, no_return) {
            crate::auto_rank::Verdict::Takes(key) => {
                lemma_placed(was, (key, last));
            },
            crate::auto_rank::Verdict::Fallback(key) => {
                lemma_placed(was, (key, last));
            },
            _ => {},
        }
    }
}

/// The targets stand in the order of their keys. Each is a candidate whose usage
/// is known, with headroom left, and not the barred account. A move by choice,
/// while some account of the fleet is below the threshold, lands only below it.
pub proof fn law_targets_are_sound(input: RankInput, no_return: Option<u32>, i: int)
    requires
        0 <= i < input.targets(no_return).len(),
    ensures
        in_order(input.targets(no_return)),
        ({
            let slot = input.targets(no_return)[i].1;
            &&& input.candidates@.contains(slot)
            &&& headroom_in(input.readings(), slot) matches Some(h) && h > 0
            &&& no_return != Some(slot)
            &&& input.trigger.by_choice() && !input.over() ==> FULL_PCT - headroom_in(
                input.readings(),
                slot,
            )->0 < input.settings.threshold
        }),
{
    lemma_admitted(input, input.candidates@, no_return, false);
    lemma_admitted(input, input.candidates@, no_return, true);
    let list = input.targets(no_return);
    assert(list.contains(list[i]));
}

/// Every candidate that the gates admit is among the targets.
pub proof fn law_no_qualifying_candidate_is_lost(
    input: RankInput,
    no_return: Option<u32>,
    slot: u32,
    key: Key,
)
    requires
        input.candidates@.contains(slot),
        input.verdict(slot, no_return) == crate::auto_rank::Verdict::Takes(key),
    ensures
        input.targets(no_return).contains((key, slot)),
{
    lemma_admitted(input, input.candidates@, no_return, false);
    assert(input.admitted(input.candidates@, no_return, false).contains((key, slot)));
}

/// Preference never admits a target by itself, but where resets decide: whether a
/// candidate qualifies is the same without it.
pub proof fn law_preference_admits_nothing(input: RankInput, other: RankInput, slot: u32, no_return: Option<u32>)
    requires
        other == (RankInput { preferred: other.preferred, ..input }),
        !(input.trigger is ConsumeFirst),
    ensures
        input.verdict(slot, no_return) is Takes == other.verdict(slot, no_return) is Takes,
        input.verdict(slot, no_return) is Fallback == other.verdict(slot, no_return) is Fallback,
{
}

/// An account that was left at its limit is not gone back to before its window
/// resets, from where that move led, whatever the trigger and the readings.
pub proof fn law_no_return_to_a_spent_account(d: Departure, input: RankInput, i: int)
    requires
        d.spent(input.now),
        d.to == input.current,
        0 <= i < input.targets(bar_in_force(Some(d), input)).len(),
    ensures
        input.targets(bar_in_force(Some(d), input))[i].1 != d.from,
{
    law_targets_are_sound(input, bar_in_force(Some(d), input), i);
}

/// After a move by choice the loop does not go straight back by choice, unless the
/// account that was left has recovered.
pub proof fn law_no_straight_return(d: Departure, input: RankInput, i: int)
    requires
        input.trigger.by_choice(),
        d.to == input.current,
        !has_recovered(Some(d), input),
        0 <= i < input.targets(bar_in_force(Some(d), input)).len(),
    ensures
        input.targets(bar_in_force(Some(d), input))[i].1 != d.from,
{
    law_targets_are_sound(input, bar_in_force(Some(d), input), i);
}

} // verus!
