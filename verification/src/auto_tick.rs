//! One tick: the decision, the attempts to carry it out, and the sleep after it.

use vstd::prelude::*;
use vstd::string::*;

use crate::auto::{
    account_of, candidates_of, census, earliest_recovery, earliest_usable, preferred_among,
    preferred_slots, AutoEngine, AutoState, Classified, Decision, Quarantine, Reason, Step,
    TickInput, TickOutcome, MAX_SLEEP_S, NO_RESET_FALLBACK_S, STATE_SCHEMA_VERSION,
};
use crate::auto_bar::{bar_in_force, rank, Departure};
use crate::auto_rank::{
    any_measured, fresh_in, headroom_in, recovery_of, RankInput, Ranked, Snapshot, Trigger,
};
use crate::compact::{rename_pin, renamed_pin};
use crate::contract::{AccountView, UsageStatus};
use crate::errors::ErrorCode;
use crate::history::SlotRef;
use crate::order::slots_of;
use crate::poll_policy::RESET_SLACK_S;
use crate::table::Table;
use crate::text::{copy_opt, decimal, number32, opt_text, parse_u32, same, same_opt, show};
use crate::timefmt::{format_or_empty, stamp};
use crate::units::{at_least, at_most, clip, clipped, greater, later, lesser};

verus! {

/// The picture that a decision was ranked on.
pub open spec fn ranked_on<'a>(
    t: TickInput<'a>,
    trigger: Trigger,
    current: u32,
    oauth: &'a Vec<u32>,
    preferred: &'a Vec<u32>,
) -> RankInput<'a> {
    RankInput {
        trigger,
        consume_first: t.consume_first(),
        candidates: oauth,
        snap: t.snap,
        current,
        active_headroom: headroom_in(t.snap.readings@, current),
        settings: t.settings,
        preferred,
        now: t.now,
    }
}

/// Whether every one of some slots is measured and at its limit.
pub open spec fn all_spent(slots: Seq<u32>, snap: Snapshot) -> bool {
    forall|i: int|
        0 <= i < slots.len() ==> (headroom_in(snap.readings@, #[trigger] slots[i]) matches Some(h)
            && h <= 0)
}

/// What is done when nothing can be taken.
pub open spec fn empty_step(
    t: TickInput,
    trigger: Trigger,
    oauth: Seq<u32>,
    api_keys: Seq<u32>,
    any_known: bool,
    active_reset: Option<i64>,
) -> Step {
    if api_keys.len() > 0 && !(trigger is ConsumeFirst) {
        Step::Hold(Reason::Unsupported, TickOutcome::Blocked)
    } else if !any_known {
        Step::Hold(Reason::NoComparison, TickOutcome::Blocked)
    } else if trigger is ConsumeFirst {
        Step::Hold(
            if active_reset is None {
                Reason::ResetUnknown
            } else {
                Reason::AlreadyConsumingSoonest
            },
            TickOutcome::NoAction,
        )
    } else if !all_spent(oauth, *t.snap) {
        Step::Hold(Reason::NoQualifyingCandidate, TickOutcome::Blocked)
    } else {
        Step::AllExhausted(
            earliest_usable(t.snap.readings.items@, t.settings.models@, t.now),
        )
    }
}

/// The engine after a step.
pub open spec fn engine_after(e: AutoEngine, step: Step) -> AutoEngine {
    match step {
        Step::Hold(Reason::NoCandidates, _) => AutoEngine { blocked_wait_long: true, ..e },
        Step::AllExhausted(at) => AutoEngine {
            blocked_wait_long: true,
            sleep_until: match at {
                Some(t) => Some(clip(t + RESET_SLACK_S)),
                None => e.sleep_until,
            },
            ..e
        },
        _ => e,
    }
}

/// Whether a decision is the one that a trigger leads to.
pub open spec fn answers(d: Decision, t: TickInput, trigger: Trigger, current: u32) -> bool {
    let active = headroom_in(t.snap.readings@, current);
    let input = ranked_on(t, trigger, current, &d.oauth, &d.preferred);
    let bar = bar_in_force(t.state.left_at_limit, input);
    let targets = input.targets(bar);
    &&& d.oauth@ == t.oauth(current)
    &&& d.api_keys@ == t.keyed(current)
    &&& d.preferred@ == preferred_among(d.oauth@, t.view.accounts@, t.settings.preferred@)
    &&& if trigger is ConsumeFirst && d.oauth@.len() == 0 && active is Some {
        &&& d.step == Step::Hold(Reason::NoPeer { headroom: active->0 }, TickOutcome::NoAction)
        &&& d.ordered@.len() == 0
    } else if d.oauth@.len() == 0 && d.api_keys@.len() == 0 {
        &&& d.step == Step::Hold(Reason::NoCandidates, TickOutcome::Blocked)
        &&& d.ordered@.len() == 0
    } else if targets.len() > 0 {
        &&& d.step == Step::Try(trigger)
        &&& d.ordered@ == slots_of(targets)
        &&& d.left == (active, input.back(current))
    } else {
        &&& d.step == empty_step(
            t,
            trigger,
            d.oauth@,
            d.api_keys@,
            any_measured(d.oauth@, t.snap.readings@),
            input.active_reset(),
        )
        &&& d.ordered@.len() == 0
    }
}

/// Whether a decision is the one that a tick leads to, from an engine that was
/// started.
pub open spec fn decides(d: Decision, t: TickInput, e: AutoEngine, after: AutoEngine) -> bool {
    match t.preflight() {
        Some(reason) => {
            &&& d.step == Step::Hold(reason, TickOutcome::NoAction)
            &&& d.ordered@.len() == 0
            &&& after == e
        },
        None => {
            let current = t.view.active_slot->0;
            match e.classified(t, current) {
                Classified::Hold(reason) => {
                    &&& d.step == Step::Hold(reason, TickOutcome::NoAction)
                    &&& d.ordered@.len() == 0
                    &&& after == e.counted(t, current)
                },
                Classified::Trigger(trigger) => if trigger.by_choice() && t.in_cooldown() {
                    &&& d.step == Step::Hold(Reason::Cooldown, TickOutcome::NoAction)
                    &&& d.ordered@.len() == 0
                    &&& after == e.counted(t, current)
                } else {
                    &&& answers(d, t, trigger, current)
                    &&& after == engine_after(e.counted(t, current), d.step)
                },
            }
        },
    }
}

fn held(reason: Reason, outcome: TickOutcome) -> (d: Decision)
    ensures
        d.step == Step::Hold(reason, outcome),
        d.ordered@.len() == 0,
{
    Decision {
        step: Step::Hold(reason, outcome),
        oauth: Vec::new(),
        api_keys: Vec::new(),
        preferred: Vec::new(),
        ordered: Vec::new(),
        left: (None, None),
    }
}

fn every_one_spent(slots: &Vec<u32>, snap: &Snapshot) -> (r: bool)
    requires
        snap.wf(),
    ensures
        r == all_spent(slots@, *snap),
{
    let mut i: usize = 0;
    while i < slots.len()
        invariant
            i <= slots.len(),
            snap.wf(),
            forall|j: int|
                0 <= j < i ==> (headroom_in(snap.readings@, #[trigger] slots@[j]) matches Some(h)
                    && h <= 0),
        decreases slots.len() - i,
    {
        let spent: bool = match snap.headroom(slots[i]) {
            Some(h) => h <= 0,
            None => false,
        };
        if !spent {
            return false;
        }
        i += 1;
    }
    true
}

impl AutoEngine {
    /// What is done when nothing can be taken.
    pub fn nothing_to_take(
        &mut self,
        t: &TickInput,
        trigger: Trigger,
        oauth: &Vec<u32>,
        api_keys: &Vec<u32>,
        any_known: bool,
        active_reset_ts: Option<i64>,
    ) -> (r: Step)
        requires
            t.wf(),
        ensures
            r == empty_step(*t, trigger, oauth@, api_keys@, any_known, active_reset_ts),
            *final(self) == engine_after(*old(self), r),
    {
        if api_keys.len() > 0 && trigger != Trigger::ConsumeFirst {
            return Step::Hold(Reason::Unsupported, TickOutcome::Blocked);
        }
        if !any_known {
            return Step::Hold(Reason::NoComparison, TickOutcome::Blocked);
        }
        if trigger == Trigger::ConsumeFirst {
            return Step::Hold(
                if active_reset_ts.is_none() {
                    Reason::ResetUnknown
                } else {
                    Reason::AlreadyConsumingSoonest
                },
                TickOutcome::NoAction,
            );
        }
        if !every_one_spent(oauth, t.snap) {
            return Step::Hold(Reason::NoQualifyingCandidate, TickOutcome::Blocked);
        }
        self.blocked_wait_long = true;
        let earliest: Option<i64> = earliest_recovery(t.snap, &t.settings.models, t.now);
        if let Some(at) = earliest {
            self.sleep_until = Some(later(at, RESET_SLACK_S));
        }
        Step::AllExhausted(earliest)
    }

    /// What a trigger leads to: a switch to one of the ranked targets, or the
    /// reason why there is none.
    pub fn consider(&mut self, t: &TickInput, trigger: Trigger, current: u32) -> (d: Decision)
        requires
            t.wf(),
        ensures
            answers(d, *t, trigger, current),
            *final(self) == engine_after(*old(self), d.step),
    {
        let api_allowed: bool = t.settings.include_api_key_accounts;
        let oauth: Vec<u32> = candidates_of(
            &t.view.accounts,
            current,
            t.quarantined,
            api_allowed,
            false,
        );
        let api_keys: Vec<u32> = candidates_of(
            &t.view.accounts,
            current,
            t.quarantined,
            api_allowed,
            true,
        );
        let preferred: Vec<u32> = preferred_slots(&oauth, &t.view.accounts, &t.settings.preferred);
        let active: Option<i64> = t.snap.headroom(current);
        let consume_first: bool = same(t.settings.strategy.as_str(), "consume-first");
        if let Some(h) = active {
            if trigger == Trigger::ConsumeFirst && oauth.len() == 0 {
                return Decision {
                    step: Step::Hold(Reason::NoPeer { headroom: h }, TickOutcome::NoAction),
                    oauth,
                    api_keys,
                    preferred,
                    ordered: Vec::new(),
                    left: (None, None),
                };
            }
        }
        if oauth.len() == 0 && api_keys.len() == 0 {
            self.blocked_wait_long = true;
            return Decision {
                step: Step::Hold(Reason::NoCandidates, TickOutcome::Blocked),
                oauth,
                api_keys,
                preferred,
                ordered: Vec::new(),
                left: (None, None),
            };
        }
        let input: RankInput = RankInput {
            trigger,
            consume_first,
            candidates: &oauth,
            snap: t.snap,
            current,
            active_headroom: active,
            settings: t.settings,
            preferred: &preferred,
            now: t.now,
        };
        let ghost spec_input = input;
        let ranked: Ranked = rank(&t.state.left_at_limit, &input);
        proof {
            assert(spec_input == ranked_on(*t, trigger, current, &oauth, &preferred));
            assert(ranked.ordered@.len() == spec_input.targets(
                bar_in_force(t.state.left_at_limit, spec_input),
            ).len());
        }
        if ranked.ordered.len() == 0 {
            let step: Step = self.nothing_to_take(
                t,
                trigger,
                &oauth,
                &api_keys,
                ranked.any_known,
                ranked.active_reset_ts,
            );
            return Decision {
                step,
                oauth,
                api_keys,
                preferred,
                ordered: Vec::new(),
                left: (None, None),
            };
        }
        let back: Option<i64> = recovery_of(t.snap, current, &t.settings.models, t.now);
        Decision {
            step: Step::Try(trigger),
            oauth,
            api_keys,
            preferred,
            ordered: ranked.ordered,
            left: (active, back),
        }
    }

    /// Decides one tick.
    ///
    /// Nothing is done without an active account, while switching is off, on an
    /// API-key account, or while the active account asks for nothing. A move by
    /// choice waits for the cooldown.
    pub fn decide(&mut self, t: &TickInput) -> (d: Decision)
        requires
            t.wf(),
            old(self).unhealthy_ticks < u32::MAX,
        ensures
            decides(d, *t, old(self).started(), *final(self)),
    {
        self.sleep_until = None;
        self.blocked_wait_long = false;
        self.idle_hold_slow = false;
        let current: u32 = match t.view.active_slot {
            Some(n) => n,
            None => {
                let reason: Reason = match &t.view.active_unreadable {
                    Some(why) => if same(why.as_str(), "keychain-unavailable") {
                        Reason::KeychainUnavailable
                    } else if same(why.as_str(), "cli-busy") {
                        Reason::CliBusy
                    } else {
                        Reason::SwitchInProgress
                    },
                    None => if t.has_live_login {
                        Reason::UnmanagedActive
                    } else {
                        Reason::NoActive
                    },
                };
                return held(reason, TickOutcome::NoAction);
            },
        };
        if !t.settings.enabled {
            return held(Reason::Disabled, TickOutcome::NoAction);
        }
        let keyed: bool = match account_of(&t.view.accounts, current) {
            Some(a) => a.usage_status == UsageStatus::ApiKey,
            None => false,
        };
        if keyed && !t.settings.include_api_key_accounts {
            return held(Reason::ActiveApiKey, TickOutcome::NoAction);
        }
        match self.classify(t, current) {
            Classified::Hold(reason) => held(reason, TickOutcome::NoAction),
            Classified::Trigger(trigger) => {
                let cooling: bool = match t.state.cooldown_until {
                    Some(until) => t.now < until,
                    None => false,
                };
                if trigger.discretionary() && cooling {
                    return held(Reason::Cooldown, TickOutcome::NoAction);
                }
                self.consider(t, trigger, current)
            },
        }
    }

    /// How long to wait: toward a known reset, but at least the interval and at
    /// most `MAX_SLEEP_S`; longer than the interval when nothing can change soon;
    /// else the interval, moved by up to a tenth.
    pub open spec fn delay(self, outcome: TickOutcome, interval: i64, now: i64, roll: int) -> int {
        match outcome {
            TickOutcome::Blocked => match self.sleep_until {
                Some(until) => lesser(greater(until - now, interval as int), MAX_SLEEP_S as int),
                None => if self.blocked_wait_long {
                    greater(interval as int, NO_RESET_FALLBACK_S as int)
                } else {
                    interval as int
                },
            },
            _ => if outcome is NoAction && self.idle_hold_slow {
                greater(interval as int, NO_RESET_FALLBACK_S as int)
            } else {
                interval * (9_000_000 + 2 * roll) / 10_000_000
            },
        }
    }

    /// How long to wait before the next tick; `roll` is a random number in
    /// millionths.
    pub fn schedule(&self, outcome: TickOutcome, interval: i64, now: i64, roll: u32) -> (r: i64)
        requires
            interval >= 0,
        ensures
            r == clip(self.delay(outcome, interval, now, roll as int)),
    {
        let plain: i128 = interval as i128;
        let delay: i128 = match outcome {
            TickOutcome::Blocked => match self.sleep_until {
                Some(until) => at_most(
                    at_least(until as i128 - now as i128, plain),
                    MAX_SLEEP_S as i128,
                ),
                None => if self.blocked_wait_long {
                    at_least(plain, NO_RESET_FALLBACK_S as i128)
                } else {
                    plain
                },
            },
            _ => if outcome == TickOutcome::NoAction && self.idle_hold_slow {
                at_least(plain, NO_RESET_FALLBACK_S as i128)
            } else {
                let factor: i128 = 9_000_000 + 2 * roll as i128;
                assert(0 <= plain * factor <= 0x1_0000_0000_0000_0000 * 0x4_0000_0000)
                    by (nonlinear_arith)
                    requires
                        0 <= plain <= 0x1_0000_0000_0000_0000,
                        0 <= factor <= 0x4_0000_0000,
                ;
                plain * factor / 10_000_000
            },
        };
        clipped(delay)
    }
}

/// A wait is never longer than `MAX_SLEEP_S` while the interval is not, and never
/// shorter than nine tenths of the interval.
pub proof fn law_sleep_is_bounded(
    e: AutoEngine,
    outcome: TickOutcome,
    interval: i64,
    now: i64,
    roll: int,
)
    requires
        0 <= interval <= MAX_SLEEP_S,
        0 <= roll <= 1_000_000,
    ensures
        interval * 9 / 10 <= e.delay(outcome, interval, now, roll),
        e.delay(outcome, interval, now, roll) <= MAX_SLEEP_S * 11 / 10,
        outcome is Blocked ==> e.delay(outcome, interval, now, roll) <= MAX_SLEEP_S,
{
    assert(interval * 9_000_000 <= interval * (9_000_000 + 2 * roll) <= interval * 11_000_000)
        by (nonlinear_arith)
        requires
            interval >= 0,
            0 <= roll <= 1_000_000,
    ;
}

/// In a cooldown no move by choice is decided.
pub proof fn law_cooldown_holds(d: Decision, t: TickInput, e: AutoEngine, after: AutoEngine)
    requires
        decides(d, t, e, after),
        t.in_cooldown(),
    ensures
        d.step matches Step::Try(trigger) ==> !trigger.by_choice(),
{
    if t.preflight() is None {
        if let Classified::Trigger(trigger) = e.classified(t, t.view.active_slot->0) {
        }
    }
}

/// While switching is off, or without an active account, nothing is ever tried.
pub proof fn law_no_switch_without_leave(d: Decision, t: TickInput, e: AutoEngine, after: AutoEngine)
    requires
        decides(d, t, e, after),
        !t.settings.enabled || t.view.active_slot is None,
    ensures
        d.step is Hold,
        d.ordered@.len() == 0,
{
}

/// An active account below the threshold is never left, but to consume a sooner
/// reset first where that is the strategy.
pub proof fn law_below_threshold_stays(d: Decision, t: TickInput, e: AutoEngine, after: AutoEngine)
    requires
        decides(d, t, e, after),
        t.view.active_slot is Some,
        headroom_in(t.snap.readings@, t.view.active_slot->0) matches Some(h)
            && crate::units::FULL_PCT - h < t.settings.threshold,
        d.step is Try,
    ensures
        t.consume_first(),
        d.step == Step::Try(Trigger::ConsumeFirst),
{
    assert(t.preflight() is None);
}

/// A move by choice settles: while some account is below the threshold it lands below
/// it, and on the same readings and settings the next tick tries nothing, but to consume
/// first.
pub proof fn law_a_move_by_choice_settles(
    input: RankInput,
    no_return: Option<u32>,
    i: int,
    d: Decision,
    t: TickInput,
    e: AutoEngine,
    after: AutoEngine,
)
    requires
        0 <= i < input.targets(no_return).len(),
        input.trigger.by_choice(),
        !input.over(),
        decides(d, t, e, after),
        t.view.active_slot == Some(input.targets(no_return)[i].1),
        t.snap.readings@ == input.readings(),
        t.settings.threshold == input.settings.threshold,
        !t.consume_first(),
    ensures
        !(d.step is Try),
{
    crate::auto_bar::law_targets_are_sound(input, no_return, i);
    if d.step is Try {
        law_below_threshold_stays(d, t, e, after);
    }
}

/// What came of an attempt to switch.
#[derive(Debug)]
pub enum Tried {
    Switched,
    /// The live login had moved there meanwhile.
    AlreadyActive,
    /// The target's refresh token was rejected.
    TokenDead,
    /// The machine or the network failed; another target may do.
    Transient,
    /// The target cannot be made the live login.
    Unsupported(String),
    /// Anything else.
    Fault,
}

/// What an error of an attempt means.
pub open spec fn meaning(code: ErrorCode) -> int {
    match code {
        ErrorCode::TokenDead => 0,
        ErrorCode::RefreshDenied | ErrorCode::Http => 1,
        ErrorCode::Unsupported => 2,
        _ => 3,
    }
}

/// What an error of an attempt means for the tick.
pub fn tried_of(code: ErrorCode, message: String) -> (r: Tried)
    ensures
        r is TokenDead <==> meaning(code) == 0,
        r is Transient <==> meaning(code) == 1,
        r matches Tried::Unsupported(m) ==> m@ == message@,
        r is Unsupported <==> meaning(code) == 2,
        r is Fault <==> meaning(code) == 3,
{
    match code {
        ErrorCode::TokenDead => Tried::TokenDead,
        ErrorCode::RefreshDenied | ErrorCode::Http => Tried::Transient,
        ErrorCode::Unsupported => Tried::Unsupported(message),
        _ => Tried::Fault,
    }
}

/// The attempts of one tick.
#[derive(Debug)]
pub struct Attempt {
    pub trigger: Trigger,
    pub ordered: Vec<u32>,
    /// The position of the target that is tried next.
    pub at: usize,
    pub transient: bool,
    pub unsupported: Option<String>,
    /// Whether the pick was measured again.
    pub remeasured: bool,
}

/// What is done next in carrying a decision out.
#[derive(Clone, Copy, Debug, PartialEq, Eq, Structural)]
pub enum Move {
    /// Switch to a slot.
    Switch(u32),
    /// Measure a slot again, and rank again.
    Remeasure(u32),
    /// Hold: the measurement of the pick is too old to act on.
    Stale(u32),
    /// No target took it, and one said why it cannot.
    Unsupported,
    /// No target took it, and the network may be why.
    Network,
    /// No target took it.
    NoViableTarget,
}

impl Attempt {
    /// What is done next. To consume first is no escape, so it never acts on a
    /// stale measurement and never slides to a worse target: the pick is measured
    /// again once, and then it holds.
    pub open spec fn next_move(self, snap: Snapshot) -> Move {
        if self.at < self.ordered@.len() {
            let target = self.ordered@[self.at as int];
            if self.trigger is ConsumeFirst && !fresh_in(snap.readings@, target) {
                if self.remeasured {
                    Move::Stale(target)
                } else {
                    Move::Remeasure(target)
                }
            } else {
                Move::Switch(target)
            }
        } else if self.transient {
            Move::Network
        } else if self.unsupported is Some {
            Move::Unsupported
        } else {
            Move::NoViableTarget
        }
    }

    /// The attempts for a decision.
    pub fn new(trigger: Trigger, ordered: Vec<u32>, remeasured: bool) -> (r: Attempt)
        ensures
            r == (Attempt {
                trigger,
                ordered,
                at: 0,
                transient: false,
                unsupported: None,
                remeasured,
            }),
    {
        Attempt { trigger, ordered, at: 0, transient: false, unsupported: None, remeasured }
    }

    /// What is done next.
    pub fn next(&self, snap: &Snapshot) -> (r: Move)
        requires
            snap.wf(),
        ensures
            r == self.next_move(*snap),
    {
        if self.at < self.ordered.len() {
            let target: u32 = self.ordered[self.at];
            if self.trigger == Trigger::ConsumeFirst && !snap.fresh(target) {
                if self.remeasured {
                    return Move::Stale(target);
                }
                return Move::Remeasure(target);
            }
            return Move::Switch(target);
        }
        if self.transient {
            return Move::Network;
        }
        if self.unsupported.is_some() {
            return Move::Unsupported;
        }
        Move::NoViableTarget
    }

    /// Takes in what came of an attempt: how the tick ends, or `None` where the next
    /// target is tried.
    pub fn tried(&mut self, outcome: Tried) -> (r: Option<TickOutcome>)
        requires
            old(self).at < old(self).ordered@.len(),
        ensures
            r == (match outcome {
                Tried::Switched => Some(TickOutcome::Switched),
                Tried::AlreadyActive => Some(TickOutcome::NoAction),
                Tried::Fault => Some(TickOutcome::Error),
                _ => None,
            }),
            r is Some ==> *final(self) == *old(self),
            r is None ==> *final(self) == (Attempt {
                at: (old(self).at + 1) as usize,
                transient: old(self).transient || outcome is Transient,
                unsupported: match outcome {
                    Tried::Unsupported(m) => Some(m),
                    _ => old(self).unsupported,
                },
                ..*old(self)
            }),
    {
        let count: usize = self.ordered.len();
        assert(self.at < count);
        match outcome {
            Tried::Switched => {
                return Some(TickOutcome::Switched);
            },
            Tried::AlreadyActive => {
                return Some(TickOutcome::NoAction);
            },
            Tried::Fault => {
                return Some(TickOutcome::Error);
            },
            Tried::TokenDead => {},
            Tried::Transient => {
                self.transient = true;
            },
            Tried::Unsupported(m) => {
                self.unsupported = Some(m);
            },
        }
        self.at = self.at + 1;
        None
    }
}

/// To consume first never switches to a slot whose measurement is not fresh.
pub proof fn law_consume_first_acts_on_fresh_data(a: Attempt, snap: Snapshot, slot: u32)
    requires
        a.trigger is ConsumeFirst,
        a.next_move(snap) == Move::Switch(slot),
    ensures
        fresh_in(snap.readings@, slot),
{
}

/// The slots that a state has quarantined.
pub open spec fn quarantined_in(items: Seq<(String, Quarantine)>) -> Seq<u32>
    decreases items.len(),
{
    if items.len() == 0 {
        Seq::empty()
    } else {
        let rest = quarantined_in(items.drop_last());
        match number32(items.last().0@) {
            Some(n) => rest.push(n),
            None => rest,
        }
    }
}

/// The quarantined slots whose stored login is another than the one that failed.
pub open spec fn replaced_in(items: Seq<(String, Quarantine)>, stored: Seq<Option<String>>) -> Seq<
    u32,
>
    decreases items.len(),
{
    if items.len() == 0 {
        Seq::empty()
    } else {
        let rest = replaced_in(items.drop_last(), stored);
        match number32(items.last().0@) {
            Some(n) => if opt_text(stored[items.len() - 1]) != opt_text(
                items.last().1.fingerprint,
            ) {
                rest.push(n)
            } else {
                rest
            },
            None => rest,
        }
    }
}

/// A quarantine without some slots.
pub open spec fn freed(q: Map<Seq<char>, Quarantine>, slots: Seq<u32>) -> Map<
    Seq<char>,
    Quarantine,
>
    decreases slots.len(),
{
    if slots.len() == 0 {
        q
    } else {
        freed(q, slots.drop_last()).remove(decimal(slots.last() as nat))
    }
}

/// A quarantine after some moves: an entry under a number stands under the new one.
pub open spec fn renamed_in(
    items: Seq<(String, Quarantine)>,
    moves: Seq<crate::compact::Move>,
) -> Map<Seq<char>, Quarantine>
    decreases items.len(),
{
    if items.len() == 0 {
        Map::empty()
    } else {
        renamed_in(items.drop_last(), moves).insert(
            renamed_pin(moves, items.last().0@),
            items.last().1,
        )
    }
}

impl Clone for Quarantine {
    fn clone(&self) -> (r: Quarantine)
        ensures
            r == *self,
    {
        Quarantine {
            reason: self.reason.clone(),
            since: self.since.clone(),
            fingerprint: copy_opt(&self.fingerprint),
        }
    }
}

impl AutoState {
    /// The quarantine is well-formed.
    pub open spec fn wf(&self) -> bool {
        self.quarantine.wf()
    }

    /// A state that remembers nothing.
    pub fn new() -> (r: AutoState)
        ensures
            r.wf(),
            r.schema_version == 0,
            r.cooldown_until is None,
            r.quarantine@ == Map::<Seq<char>, Quarantine>::empty(),
            r.left_at_limit is None,
    {
        AutoState {
            schema_version: 0,
            cooldown_until: None,
            quarantine: Table::new(),
            left_at_limit: None,
        }
    }

    /// The slots that are quarantined.
    pub fn quarantined(&self) -> (r: Vec<u32>)
        ensures
            r@ == quarantined_in(self.quarantine.items@),
    {
        let ghost items = self.quarantine.items@;
        let mut r: Vec<u32> = Vec::new();
        let mut i: usize = 0;
        assert(items.take(0) =~= Seq::empty());
        while i < self.quarantine.items.len()
            invariant
                i <= items.len(),
                items == self.quarantine.items@,
                r@ == quarantined_in(items.take(i as int)),
            decreases items.len() - i,
        {
            assert(items.take(i + 1).drop_last() =~= items.take(i as int));
            if let Some(n) = parse_u32(self.quarantine.items[i].0.as_str()) {
                r.push(n);
            }
            i += 1;
        }
        assert(items.take(items.len() as int) =~= items);
        r
    }

    /// The quarantined slots whose stored login has been replaced since, given the
    /// fingerprint of what is stored now for each entry.
    pub fn replaced(&self, stored: &Vec<Option<String>>) -> (r: Vec<u32>)
        requires
            stored@.len() == self.quarantine.items@.len(),
        ensures
            r@ == replaced_in(self.quarantine.items@, stored@),
    {
        let ghost items = self.quarantine.items@;
        let mut r: Vec<u32> = Vec::new();
        let mut i: usize = 0;
        assert(items.take(0) =~= Seq::empty());
        while i < self.quarantine.items.len()
            invariant
                i <= items.len(),
                items == self.quarantine.items@,
                stored@.len() == items.len(),
                r@ == replaced_in(items.take(i as int), stored@),
            decreases items.len() - i,
        {
            assert(items.take(i + 1).drop_last() =~= items.take(i as int));
            if let Some(n) = parse_u32(self.quarantine.items[i].0.as_str()) {
                if !same_opt(&stored[i], &self.quarantine.items[i].1.fingerprint) {
                    r.push(n);
                }
            }
            i += 1;
        }
        assert(items.take(items.len() as int) =~= items);
        r
    }

    /// Lets slots back into the rotation.
    pub fn release(&mut self, slots: &Vec<u32>)
        requires
            old(self).wf(),
        ensures
            final(self).wf(),
            final(self).quarantine@ == freed(old(self).quarantine@, slots@),
            final(self).schema_version == STATE_SCHEMA_VERSION,
            final(self).cooldown_until == old(self).cooldown_until,
            final(self).left_at_limit == old(self).left_at_limit,
    {
        let ghost q = self.quarantine@;
        self.schema_version = STATE_SCHEMA_VERSION;
        let mut i: usize = 0;
        assert(slots@.take(0) =~= Seq::empty());
        while i < slots.len()
            invariant
                i <= slots.len(),
                self.wf(),
                self.quarantine@ == freed(q, slots@.take(i as int)),
                self.schema_version == STATE_SCHEMA_VERSION,
                self.cooldown_until == old(self).cooldown_until,
                self.left_at_limit == old(self).left_at_limit,
            decreases slots.len() - i,
        {
            assert(slots@.take(i + 1).drop_last() =~= slots@.take(i as int));
            self.quarantine.remove(show(slots[i] as u64).as_str());
            i += 1;
        }
        assert(slots@.take(slots@.len() as int) =~= slots@);
    }

    /// Takes a slot out of the rotation until its login is replaced.
    pub fn quarantine(
        &mut self,
        slot: u32,
        reason: String,
        fingerprint: Option<String>,
        now: i64,
    )
        requires
            old(self).wf(),
        ensures
            final(self).wf(),
            ({
                let k = decimal(slot as nat);
                let q = final(self).quarantine@;
                &&& q == old(self).quarantine@.insert(k, q[k])
                &&& q[k].reason == reason && q[k].fingerprint == fingerprint && q[k].since@
                    == stamp(now)
            }),
            final(self).schema_version == STATE_SCHEMA_VERSION,
            final(self).cooldown_until == old(self).cooldown_until,
            final(self).left_at_limit == old(self).left_at_limit,
    {
        self.schema_version = STATE_SCHEMA_VERSION;
        self.quarantine.insert(
            show(slot as u64),
            Quarantine { reason, since: format_or_empty(now), fingerprint },
        );
    }

    /// Renames the quarantined slots after some moves: a number follows its slot.
    pub fn renumber(&mut self, moves: &Vec<crate::compact::Move>)
        requires
            old(self).wf(),
        ensures
            final(self).wf(),
            final(self).quarantine@ == renamed_in(old(self).quarantine.items@, moves@),
            final(self).schema_version == STATE_SCHEMA_VERSION,
            final(self).cooldown_until == old(self).cooldown_until,
            final(self).left_at_limit == old(self).left_at_limit,
    {
        let ghost items = self.quarantine.items@;
        let mut renamed: Table<Quarantine> = Table::new();
        let mut i: usize = 0;
        assert(items.take(0) =~= Seq::empty());
        assert(renamed@ =~= renamed_in(items.take(0), moves@));
        while i < self.quarantine.items.len()
            invariant
                i <= items.len(),
                items == self.quarantine.items@,
                renamed.wf(),
                renamed@ == renamed_in(items.take(i as int), moves@),
                self.cooldown_until == old(self).cooldown_until,
                self.left_at_limit == old(self).left_at_limit,
            decreases items.len() - i,
        {
            assert(items.take(i + 1).drop_last() =~= items.take(i as int));
            let entry: &(String, Quarantine) = &self.quarantine.items[i];
            renamed.insert(rename_pin(moves, entry.0.as_str()), entry.1.clone());
            i += 1;
        }
        assert(items.take(items.len() as int) =~= items);
        self.quarantine = renamed;
        self.schema_version = STATE_SCHEMA_VERSION;
    }

    /// Records a switch that landed: the cooldown it starts, and where it came
    /// from. A login that no slot claims cannot be barred.
    pub fn record_switch(
        &mut self,
        target: u32,
        from: Option<&SlotRef>,
        trigger: Trigger,
        left: (Option<i64>, Option<i64>),
        cooldown: i64,
        now: i64,
    )
        requires
            old(self).wf(),
        ensures
            final(self).wf(),
            final(self).schema_version == STATE_SCHEMA_VERSION,
            final(self).quarantine == old(self).quarantine,
            final(self).cooldown_until == Some(clip(now + cooldown)),
            match from {
                Some(f) => match f.slot {
                    Some(n) => final(self).left_at_limit matches Some(d) && d.from == n && d.to
                        == target && d.trigger@ == trigger.text() && d.headroom == left.0
                        && d.recovery_at == left.1,
                    None => final(self).left_at_limit is None,
                },
                None => final(self).left_at_limit is None,
            },
    {
        self.schema_version = STATE_SCHEMA_VERSION;
        self.cooldown_until = Some(later(now, cooldown));
        let slot: Option<u32> = match from {
            Some(f) => f.slot,
            None => None,
        };
        self.left_at_limit = match slot {
            Some(n) => Some(
                Departure {
                    from: n,
                    to: target,
                    trigger: trigger.name().to_owned(),
                    headroom: left.0,
                    recovery_at: left.1,
                },
            ),
            None => None,
        };
    }
}

/// A slot that was released is not quarantined any more.
pub proof fn law_release_frees(q: Map<Seq<char>, Quarantine>, slots: Seq<u32>, n: u32)
    requires
        slots.contains(n),
    ensures
        !freed(q, slots).contains_key(decimal(n as nat)),
    decreases slots.len(),
{
    let rest = slots.drop_last();
    if slots.last() != n {
        let i = choose|i: int| 0 <= i < slots.len() && slots[i] == n;
        assert(rest[i] == n);
        law_release_frees(q, rest, n);
    }
}

/// The slot of an entry is among those that are quarantined.
proof fn lemma_quarantined(items: Seq<(String, Quarantine)>, i: int, n: u32)
    requires
        0 <= i < items.len(),
        number32(items[i].0@) == Some(n),
    ensures
        quarantined_in(items).contains(n),
    decreases items.len(),
{
    let rest = quarantined_in(items.drop_last());
    let out = quarantined_in(items);
    if i == items.len() - 1 {
        assert(out[rest.len() as int] == n);
    } else {
        lemma_quarantined(items.drop_last(), i, n);
        let k = choose|k: int| 0 <= k < rest.len() && rest[k] == n;
        assert(out[k] == n);
    }
}

/// A slot that is quarantined is no candidate, in any census.
pub proof fn law_a_quarantined_slot_is_no_candidate(
    state: AutoState,
    n: u32,
    accounts: Seq<AccountView>,
    current: u32,
    api_keys: bool,
    keyed: bool,
)
    requires
        state.wf(),
        state.quarantine@.contains_key(decimal(n as nat)),
    ensures
        quarantined_in(state.quarantine.items@).contains(n),
        !census(
            accounts,
            current,
            quarantined_in(state.quarantine.items@),
            api_keys,
            keyed,
        ).contains(n),
{
    let i = state.quarantine.lemma_position(decimal(n as nat));
    crate::text::law_decimal_is_read_back(n as nat, 0x1_0000_0000);
    lemma_quarantined(state.quarantine.items@, i, n);
    crate::auto::law_census_leaves_out(
        accounts,
        current,
        quarantined_in(state.quarantine.items@),
        api_keys,
        keyed,
    );
}

/// A slot is let back only where the login that is stored for it is another than the one
/// that failed.
pub proof fn law_only_a_replaced_login_frees(
    items: Seq<(String, Quarantine)>,
    stored: Seq<Option<String>>,
    n: u32,
)
    requires
        replaced_in(items, stored).contains(n),
    ensures
        exists|i: int|
            0 <= i < items.len() && number32((#[trigger] items[i]).0@) == Some(n) && opt_text(
                stored[i],
            ) != opt_text(items[i].1.fingerprint),
    decreases items.len(),
{
    let short = items.drop_last();
    let rest = replaced_in(short, stored);
    if rest.contains(n) {
        law_only_a_replaced_login_frees(short, stored, n);
        let i = choose|i: int|
            0 <= i < short.len() && number32((#[trigger] short[i]).0@) == Some(n) && opt_text(
                stored[i],
            ) != opt_text(short[i].1.fingerprint);
        assert(items[i] == short[i]);
    } else {
        let out = replaced_in(items, stored);
        let k = choose|k: int| 0 <= k < out.len() && out[k] == n;
        assert(k == rest.len()) by {
            if k < rest.len() {
                assert(rest[k] == n);
            }
        }
        assert(items[items.len() - 1] == items.last());
    }
}

/// A quarantine follows its slot: what was quarantined under a number still is, under
/// the number that the slot has after some moves.
pub proof fn law_a_quarantine_follows_its_slot(
    items: Seq<(String, Quarantine)>,
    moves: Seq<crate::compact::Move>,
    i: int,
    n: u32,
)
    requires
        0 <= i < items.len(),
        number32(items[i].0@) == Some(n),
    ensures
        renamed_in(items, moves).contains_key(
            decimal(crate::compact::renumbered(moves, n) as nat),
        ),
    decreases items.len(),
{
    if i < items.len() - 1 {
        law_a_quarantine_follows_its_slot(items.drop_last(), moves, i, n);
    }
}

} // verus!
