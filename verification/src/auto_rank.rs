//! Which account the loop moves to: the gates, the ranking and the bar against
//! going straight back.
//!
//! A candidate must beat the active account by a margin, so that two accounts
//! hovering at the line cannot trade places, and the account that was just left
//! is barred until it is a different proposition from the one it was.

use vstd::prelude::*;

use crate::contract::{Window, WindowKind};
use crate::gating::{gating, peak, relevant};
use crate::order::{place, placed, instant_key, slots_of, take_slots, when_key, Key};
use crate::poll_policy::window_reset;
use crate::settings::Settings;
use crate::slot_map::SlotMap;
use crate::slots::lists;
use crate::text::borrow_opt;
use crate::timefmt::parse_reset_ts;
use crate::units::{greater, FULL_PCT};

verus! {

/// How much sooner a target must come back than the account that is left.
pub const RECOVERY_HYSTERESIS_S: i64 = 300_000_000;

/// How far ahead a sooner reset is worth more than headroom.
pub const RECOVERY_HORIZON_S: i64 = 14_400_000_000;

/// How many times the active headroom a target must have.
pub const HORIZON_HEADROOM_RATIO: i64 = 2;

/// Headroom below which an account is spent.
pub const SPENT_HEADROOM_PCT: i64 = 3_000_000;

/// What asks for a switch.
#[derive(Clone, Copy, Debug, PartialEq, Eq, Structural)]
pub enum Trigger {
    Proactive,
    ConsumeFirst,
    AtLimit,
    Failover,
}

impl Trigger {
    /// The name of the trigger.
    pub open spec fn text(self) -> Seq<char> {
        match self {
            Trigger::Proactive => "proactive"@,
            Trigger::ConsumeFirst => "consume-first"@,
            Trigger::AtLimit => "at-limit"@,
            Trigger::Failover => "failover"@,
        }
    }

    /// The name of the trigger.
    pub fn name(self) -> (r: &'static str)
        ensures
            r@ == self.text(),
    {
        match self {
            Trigger::Proactive => "proactive",
            Trigger::ConsumeFirst => "consume-first",
            Trigger::AtLimit => "at-limit",
            Trigger::Failover => "failover",
        }
    }

    /// Whether the engine need not move at all.
    pub open spec fn by_choice(self) -> bool {
        self is Proactive || self is ConsumeFirst
    }

    /// Whether the engine need not move at all.
    pub fn discretionary(self) -> (r: bool)
        ensures
            r == self.by_choice(),
    {
        match self {
            Trigger::Proactive | Trigger::ConsumeFirst => true,
            _ => false,
        }
    }
}

/// What is known of one account in one tick.
#[derive(Debug)]
pub struct Reading {
    /// The percentage left, where there is a trusted measurement.
    pub headroom: Option<i64>,
    /// The windows that it was read from.
    pub windows: Vec<Window>,
    /// The kind of failure that explains an unknown headroom.
    pub fetch_error: Option<String>,
    /// Whether the measurement is fresh enough to act on right now.
    pub fresh: bool,
}

/// The picture that one tick decides on.
#[derive(Debug)]
pub struct Snapshot {
    pub readings: SlotMap<Reading>,
}

/// The headroom of a slot.
pub open spec fn headroom_in(readings: Map<u32, Reading>, slot: u32) -> Option<i64> {
    if readings.contains_key(slot) {
        readings[slot].headroom
    } else {
        None
    }
}

/// The windows of a slot.
pub open spec fn windows_in(readings: Map<u32, Reading>, slot: u32) -> Seq<Window> {
    if readings.contains_key(slot) {
        readings[slot].windows@
    } else {
        Seq::empty()
    }
}

/// Whether a slot's measurement is fresh.
pub open spec fn fresh_in(readings: Map<u32, Reading>, slot: u32) -> bool {
    readings.contains_key(slot) && readings[slot].fresh
}

impl Snapshot {
    /// The readings stand in the order of their slots.
    pub open spec fn wf(&self) -> bool {
        self.readings.wf()
    }

    /// The headroom of a slot.
    pub fn headroom(&self, slot: u32) -> (r: Option<i64>)
        requires
            self.wf(),
        ensures
            r == headroom_in(self.readings@, slot),
    {
        match self.readings.get(slot) {
            Some(x) => x.headroom,
            None => None,
        }
    }

    /// Whether a slot's measurement is fresh.
    pub fn fresh(&self, slot: u32) -> (r: bool)
        requires
            self.wf(),
        ensures
            r == fresh_in(self.readings@, slot),
    {
        match self.readings.get(slot) {
            Some(x) => x.fresh,
            None => false,
        }
    }
}

/// The first window that is filled the most.
pub open spec fn binding_window(windows: Seq<Window>) -> Option<Window>
    decreases windows.len(),
{
    if windows.len() == 0 {
        None
    } else {
        match binding_window(windows.drop_last()) {
            Some(w) => if windows.last().pct > w.pct {
                Some(windows.last())
            } else {
                Some(w)
            },
            None => Some(windows.last()),
        }
    }
}

/// An instant that lies ahead.
pub open spec fn ahead(at: Option<i64>, now: i64) -> Option<i64> {
    match at {
        Some(t) => if t > now {
            Some(t)
        } else {
            None
        },
        None => None,
    }
}

/// When the binding window of an account comes back.
pub open spec fn recovery(windows: Seq<Window>, models: Seq<String>, now: i64) -> Option<i64> {
    match binding_window(gating(windows, models)) {
        Some(w) => ahead(window_reset(w), now),
        None => None,
    }
}

/// The window that binds is one that holds the peak.
pub proof fn law_binding_window_is_at_the_peak(windows: Seq<Window>)
    ensures
        binding_window(windows) is Some == peak(windows) is Some,
        binding_window(windows) matches Some(w) ==> w.pct == peak(windows)->0,
    decreases windows.len(),
{
    if windows.len() > 0 {
        law_binding_window_is_at_the_peak(windows.drop_last());
    }
}

/// When the binding window of an account comes back, `None` for unknown or past.
///
/// The window that holds the account back is picked first and then asked for its
/// reset, so that a lower window never stands in for it.
pub fn binding_recovery_ts(windows: &Vec<Window>, models: &Vec<String>, now: i64) -> (r: Option<i64>)
    ensures
        r == recovery(windows@, models@, now),
{
    let list: Vec<&Window> = relevant(windows, models);
    let ghost all = gating(windows@, models@);
    let mut best: Option<usize> = None;
    let mut i: usize = 0;
    while i < list.len()
        invariant
            i <= list.len(),
            list@.map_values(|w: &Window| *w) == all,
            best is Some == binding_window(all.take(i as int)) is Some,
            best matches Some(b) ==> b < i && binding_window(all.take(i as int)) == Some(
                *list@[b as int],
            ),
        decreases list.len() - i,
    {
        proof {
            assert(all.take(i + 1).drop_last() =~= all.take(i as int));
            assert(all[i as int] == *list@[i as int]);
        }
        match best {
            Some(b) => {
                if list[i].pct > list[b].pct {
                    best = Some(i);
                }
            },
            None => {
                best = Some(i);
            },
        }
        i += 1;
    }
    assert(all.len() == list@.len());
    assert(all.take(all.len() as int) =~= all);
    match best {
        Some(b) => match parse_reset_ts(borrow_opt(&list[b].resets_at)) {
            Some(t) => if t > now {
                Some(t)
            } else {
                None
            },
            None => None,
        },
        None => None,
    }
}

/// The first 7-day window's reset.
pub open spec fn first_seven_day(windows: Seq<Window>) -> Option<i64>
    decreases windows.len(),
{
    if windows.len() == 0 {
        None
    } else if windows[0].kind is SevenDay {
        window_reset(windows[0])
    } else {
        first_seven_day(windows.drop_first())
    }
}

/// The first 7-day window's reset.
pub fn seven_day_reset(windows: &Vec<Window>) -> (r: Option<i64>)
    ensures
        r == first_seven_day(windows@),
{
    let mut i: usize = 0;
    assert(windows@.skip(0) =~= windows@);
    while i < windows.len()
        invariant
            i <= windows.len(),
            first_seven_day(windows@) == first_seven_day(windows@.skip(i as int)),
        decreases windows.len() - i,
    {
        assert(windows@.skip(i as int)[0] == windows@[i as int]);
        assert(windows@.skip(i as int).drop_first() =~= windows@.skip(i + 1));
        if windows[i].kind == WindowKind::SevenDay {
            return parse_reset_ts(borrow_opt(&windows[i].resets_at));
        }
        i += 1;
    }
    None
}

/// An account's weekly reset, `None` when unknown or already past: a window that
/// has just rolled over is the least perishable of all.
pub fn seven_day_reset_ts(windows: &Vec<Window>, now: i64) -> (r: Option<i64>)
    ensures
        r == ahead(first_seven_day(windows@), now),
{
    match seven_day_reset(windows) {
        Some(t) => if t > now {
            Some(t)
        } else {
            None
        },
        None => None,
    }
}

/// Whether some slot is measured.
pub open spec fn any_measured(slots: Seq<u32>, readings: Map<u32, Reading>) -> bool {
    exists|i: int| 0 <= i < slots.len() && headroom_in(readings, #[trigger] slots[i]) is Some
}

/// Whether the active account and every measured one of some slots are at or over
/// the threshold, and at least one is measured.
pub open spec fn all_over(
    slots: Seq<u32>,
    readings: Map<u32, Reading>,
    active_headroom: Option<i64>,
    threshold: i64,
) -> bool {
    &&& active_headroom matches Some(a) && FULL_PCT - a >= threshold
    &&& any_measured(slots, readings)
    &&& forall|i: int|
        0 <= i < slots.len() ==> (headroom_in(readings, #[trigger] slots[i]) matches Some(h)
            ==> FULL_PCT - h >= threshold)
}

/// Whether the active account and every measured candidate are at or over the
/// threshold: the state in which there is no healthy place to land. An active
/// account that is not measured is no such state; a candidate that is not does
/// not stand in its way.
pub fn every_account_above_threshold(
    candidates: &Vec<u32>,
    snap: &Snapshot,
    active_headroom: Option<i64>,
    threshold: i64,
) -> (r: bool)
    requires
        snap.wf(),
    ensures
        r == all_over(candidates@, snap.readings@, active_headroom, threshold),
{
    match active_headroom {
        Some(a) => {
            if FULL_PCT as i128 - (a as i128) < threshold as i128 {
                return false;
            }
        },
        None => {
            return false;
        },
    }
    let mut any: bool = false;
    let mut i: usize = 0;
    while i < candidates.len()
        invariant
            i <= candidates.len(),
            snap.wf(),
            any == any_measured(candidates@.take(i as int), snap.readings@),
            forall|j: int|
                0 <= j < i ==> (headroom_in(snap.readings@, #[trigger] candidates@[j]) matches Some(h)
                    ==> FULL_PCT - h >= threshold),
        decreases candidates.len() - i,
    {
        let ghost part = candidates@.take(i as int);
        let ghost more = candidates@.take(i + 1);
        match snap.headroom(candidates[i]) {
            Some(h) => {
                if FULL_PCT as i128 - (h as i128) < threshold as i128 {
                    return false;
                }
                any = true;
                assert(headroom_in(snap.readings@, more[i as int]) is Some);
            },
            None => {
                proof {
                    if any_measured(part, snap.readings@) {
                        let j = choose|j: int|
                            0 <= j < part.len() && headroom_in(
                                snap.readings@,
                                #[trigger] part[j],
                            ) is Some;
                        assert(more[j] == part[j]);
                    }
                    if any_measured(more, snap.readings@) {
                        let j = choose|j: int|
                            0 <= j < more.len() && headroom_in(
                                snap.readings@,
                                #[trigger] more[j],
                            ) is Some;
                        assert(part[j] == more[j]);
                    }
                }
            },
        }
        i += 1;
    }
    assert(candidates@.take(candidates@.len() as int) =~= candidates@);
    any
}

/// Whether `a` comes at least the recovery margin before `b`, where never comes
/// last.
pub open spec fn clearly_sooner(a: Option<i64>, b: Option<i64>) -> bool {
    match (a, b) {
        (Some(x), Some(y)) => x < y - RECOVERY_HYSTERESIS_S,
        (Some(_), None) => true,
        (None, _) => false,
    }
}

/// Whether `a` comes at least the recovery margin before `b`.
pub fn is_clearly_sooner(a: Option<i64>, b: Option<i64>) -> (r: bool)
    ensures
        r == clearly_sooner(a, b),
{
    match (a, b) {
        (Some(x), Some(y)) => (x as i128) < y as i128 - RECOVERY_HYSTERESIS_S as i128,
        (Some(_), None) => true,
        (None, _) => false,
    }
}

/// Whether an instant lies within the recovery horizon.
pub open spec fn near(at: Option<i64>, now: i64) -> bool {
    at matches Some(t) && t - now <= RECOVERY_HORIZON_S
}

/// Whether an instant lies within the recovery horizon.
pub fn is_near(at: Option<i64>, now: i64) -> (r: bool)
    ensures
        r == near(at, now),
{
    match at {
        Some(t) => t as i128 - now as i128 <= RECOVERY_HORIZON_S as i128,
        None => false,
    }
}

/// Whether a pair of accounts is ranked by reset rather than by headroom: when all
/// that is worth having is spent, or when either is back soon.
pub open spec fn by_reset(
    candidate: Option<i64>,
    active: Option<i64>,
    active_headroom: int,
    best_headroom: int,
    now: i64,
) -> bool {
    ||| active_headroom <= SPENT_HEADROOM_PCT && best_headroom <= SPENT_HEADROOM_PCT
    ||| near(candidate, now)
    ||| near(active, now)
}

/// Whether this candidate is ranked by soonest reset rather than by headroom.
pub fn recovery_is_useful(
    candidate_recovery_ts: Option<i64>,
    active_recovery_ts: Option<i64>,
    active_headroom: i64,
    best_candidate_headroom: i64,
    now: i64,
) -> (r: bool)
    ensures
        r == by_reset(
            candidate_recovery_ts,
            active_recovery_ts,
            active_headroom as int,
            best_candidate_headroom as int,
            now,
        ),
{
    if active_headroom <= SPENT_HEADROOM_PCT && best_candidate_headroom <= SPENT_HEADROOM_PCT {
        return true;
    }
    is_near(candidate_recovery_ts, now) || is_near(active_recovery_ts, now)
}

/// The most headroom that any measured slot has, and zero at the least.
pub open spec fn most_headroom(slots: Seq<u32>, readings: Map<u32, Reading>) -> int
    decreases slots.len(),
{
    if slots.len() == 0 {
        0
    } else {
        let rest = most_headroom(slots.drop_last(), readings);
        match headroom_in(readings, slots.last()) {
            Some(h) => greater(rest, h as int),
            None => rest,
        }
    }
}

/// Everything that the ranking reads.
pub struct RankInput<'a> {
    pub trigger: Trigger,
    pub consume_first: bool,
    pub candidates: &'a Vec<u32>,
    pub snap: &'a Snapshot,
    pub current: u32,
    pub active_headroom: Option<i64>,
    pub settings: &'a Settings,
    pub preferred: &'a Vec<u32>,
    pub now: i64,
}

/// What the gates make of one candidate.
#[derive(Clone, Copy, Debug, PartialEq, Eq, Structural)]
pub enum Verdict {
    /// Its usage is not known.
    Unknown,
    /// It does not qualify.
    Out,
    /// It is taken only where nothing qualifies.
    Fallback(Key),
    /// It qualifies.
    Takes(Key),
}

impl<'a> RankInput<'a> {
    pub open spec fn readings(&self) -> Map<u32, Reading> {
        self.snap.readings@
    }

    pub open spec fn over(&self) -> bool {
        all_over(
            self.candidates@,
            self.readings(),
            self.active_headroom,
            self.settings.threshold,
        )
    }

    /// The active account's weekly reset, where resets decide.
    pub open spec fn active_reset(&self) -> Option<i64> {
        if self.consume_first {
            ahead(first_seven_day(windows_in(self.readings(), self.current)), self.now)
        } else {
            None
        }
    }

    pub open spec fn weekly_reset(&self, slot: u32) -> Option<i64> {
        ahead(first_seven_day(windows_in(self.readings(), slot)), self.now)
    }

    pub open spec fn back(&self, slot: u32) -> Option<i64> {
        recovery(windows_in(self.readings(), slot), self.settings.models@, self.now)
    }

    pub open spec fn active_room(&self) -> int {
        match self.active_headroom {
            Some(h) => h as int,
            None => 0,
        }
    }

    /// The key among candidates that the gates admitted, but for recovery: the
    /// preferred first, then the soonest weekly reset where resets decide, then the
    /// most headroom.
    pub open spec fn plain_key(&self, slot: u32, h: i64) -> Key {
        let (x, y) = if self.consume_first {
            (when_key(self.weekly_reset(slot)), -(h as int) as i128)
        } else {
            (-(h as int) as i128, 0i128)
        };
        if self.preferred@.len() > 0 {
            Key {
                a: if self.preferred@.contains(slot) {
                    0
                } else {
                    1
                },
                b: x,
                c: y,
                d: 0,
            }
        } else {
            Key { a: x, b: y, c: 0, d: 0 }
        }
    }

    /// Soonest back first, then the most headroom.
    pub open spec fn recovery_key(&self, slot: u32, h: i64) -> Key {
        Key { a: 0, b: when_key(self.back(slot)), c: -(h as int) as i128, d: 0 }
    }

    /// Behind those that are back soon: the most headroom first, then the soonest
    /// back.
    pub open spec fn headroom_key(&self, slot: u32, h: i64) -> Key {
        Key { a: 1, b: -(h as int) as i128, c: when_key(self.back(slot)), d: 0 }
    }

    /// What the gates make of a candidate with known headroom when the whole fleet
    /// is over the threshold and the move is by choice.
    pub open spec fn verdict_over(&self, slot: u32, h: i64) -> Verdict {
        let mine = self.back(self.current);
        let its = self.back(slot);
        if by_reset(
            its,
            mine,
            self.active_room(),
            most_headroom(self.candidates@, self.readings()),
            self.now,
        ) {
            if clearly_sooner(its, mine) {
                Verdict::Takes(self.recovery_key(slot, h))
            } else {
                Verdict::Out
            }
        } else if h < self.active_room() * HORIZON_HEADROOM_RATIO {
            if self.active_room() <= SPENT_HEADROOM_PCT && h >= self.active_room()
                && clearly_sooner(its, mine) {
                Verdict::Fallback(self.recovery_key(slot, h))
            } else {
                Verdict::Out
            }
        } else {
            Verdict::Takes(self.headroom_key(slot, h))
        }
    }

    /// Whether a candidate below the threshold is worth a move by choice.
    pub open spec fn worth_it(&self, slot: u32, h: i64) -> bool {
        if self.consume_first {
            ||| !(self.trigger is ConsumeFirst)
            ||| self.preferred@.contains(slot)
            ||| (self.weekly_reset(slot) matches Some(its) && (self.active_reset() matches Some(
                mine,
            ) && its < mine))
        } else {
            self.active_headroom matches Some(mine) ==> h - mine >= self.settings.hysteresis_pct
        }
    }

    /// What the gates make of a candidate.
    pub open spec fn verdict(&self, slot: u32, no_return: Option<u32>) -> Verdict {
        match headroom_in(self.readings(), slot) {
            None => Verdict::Unknown,
            Some(h) => if h <= 0 || no_return == Some(slot) {
                Verdict::Out
            } else if !self.trigger.by_choice() {
                Verdict::Takes(self.plain_key(slot, h))
            } else if self.over() {
                self.verdict_over(slot, h)
            } else if FULL_PCT - h >= self.settings.threshold {
                Verdict::Out
            } else if self.worth_it(slot, h) {
                Verdict::Takes(self.plain_key(slot, h))
            } else {
                Verdict::Out
            },
        }
    }

    /// The candidates that qualify, or that are fallbacks, in order.
    pub open spec fn admitted(&self, slots: Seq<u32>, no_return: Option<u32>, fallback: bool) -> Seq<
        (Key, u32),
    >
        decreases slots.len(),
    {
        if slots.len() == 0 {
            Seq::empty()
        } else {
            let rest = self.admitted(slots.drop_last(), no_return, fallback);
            match self.verdict(slots.last(), no_return) {
                Verdict::Takes(key) => if fallback {
                    rest
                } else {
                    placed(rest, (key, slots.last()))
                },
                Verdict::Fallback(key) => if fallback {
                    placed(rest, (key, slots.last()))
                } else {
                    rest
                },
                _ => rest,
            }
        }
    }

    /// The targets, best first: those that qualify, or else the fallbacks.
    pub open spec fn targets(&self, no_return: Option<u32>) -> Seq<(Key, u32)> {
        let list = self.admitted(self.candidates@, no_return, false);
        if list.len() > 0 {
            list
        } else {
            self.admitted(self.candidates@, no_return, true)
        }
    }
}

/// Copies the windows' weekly reset out of a snapshot.
fn weekly_of(snap: &Snapshot, slot: u32, now: i64) -> (r: Option<i64>)
    requires
        snap.wf(),
    ensures
        r == ahead(first_seven_day(windows_in(snap.readings@, slot)), now),
{
    match snap.readings.get(slot) {
        Some(x) => seven_day_reset_ts(&x.windows, now),
        None => None,
    }
}

/// When a slot's binding window comes back.
pub fn recovery_of(snap: &Snapshot, slot: u32, models: &Vec<String>, now: i64) -> (r: Option<i64>)
    requires
        snap.wf(),
    ensures
        r == recovery(windows_in(snap.readings@, slot), models@, now),
{
    match snap.readings.get(slot) {
        Some(x) => binding_recovery_ts(&x.windows, models, now),
        None => {
            let none: Vec<Window> = Vec::new();
            let r: Option<i64> = binding_recovery_ts(&none, models, now);
            assert(none@ =~= Seq::<Window>::empty());
            r
        },
    }
}

fn best_headroom(snap: &Snapshot, candidates: &Vec<u32>) -> (r: i64)
    requires
        snap.wf(),
    ensures
        r == most_headroom(candidates@, snap.readings@),
{
    let mut best: i64 = 0;
    let mut i: usize = 0;
    while i < candidates.len()
        invariant
            i <= candidates.len(),
            snap.wf(),
            best == most_headroom(candidates@.take(i as int), snap.readings@),
        decreases candidates.len() - i,
    {
        assert(candidates@.take(i + 1).drop_last() =~= candidates@.take(i as int));
        if let Some(h) = snap.headroom(candidates[i]) {
            if h > best {
                best = h;
            }
        }
        i += 1;
    }
    assert(candidates@.take(candidates@.len() as int) =~= candidates@);
    best
}

/// What the ranking computes once for all candidates.
struct Fleet {
    over: bool,
    best: i64,
    active_reset: Option<i64>,
    active_recovery: Option<i64>,
}

fn judge(input: &RankInput, slot: u32, no_return: Option<u32>, fleet: &Fleet) -> (r: Verdict)
    requires
        input.snap.wf(),
        fleet.over == input.over(),
        fleet.best == most_headroom(input.candidates@, input.readings()),
        fleet.active_reset == input.active_reset(),
        fleet.over ==> fleet.active_recovery == input.back(input.current),
    ensures
        r == input.verdict(slot, no_return),
{
    let h: i64 = match input.snap.headroom(slot) {
        Some(h) => h,
        None => {
            return Verdict::Unknown;
        },
    };
    let barred: bool = match no_return {
        Some(n) => n == slot,
        None => false,
    };
    if h <= 0 || barred {
        return Verdict::Out;
    }
    if input.trigger.discretionary() {
        if fleet.over {
            let its: Option<i64> = recovery_of(
                input.snap,
                slot,
                &input.settings.models,
                input.now,
            );
            let mine: Option<i64> = fleet.active_recovery;
            let room: i64 = match input.active_headroom {
                Some(a) => a,
                None => 0,
            };
            if recovery_is_useful(its, mine, room, fleet.best, input.now) {
                return if is_clearly_sooner(its, mine) {
                    Verdict::Takes(Key { a: 0, b: instant_key(its), c: -(h as i128), d: 0 })
                } else {
                    Verdict::Out
                };
            }
            if (h as i128) < room as i128 * HORIZON_HEADROOM_RATIO as i128 {
                return if room <= SPENT_HEADROOM_PCT && h >= room && is_clearly_sooner(its, mine) {
                    Verdict::Fallback(Key { a: 0, b: instant_key(its), c: -(h as i128), d: 0 })
                } else {
                    Verdict::Out
                };
            }
            return Verdict::Takes(Key { a: 1, b: -(h as i128), c: instant_key(its), d: 0 });
        }
        if FULL_PCT as i128 - h as i128 >= input.settings.threshold as i128 {
            return Verdict::Out;
        }
    }
    let reset: Option<i64> = if input.consume_first {
        weekly_of(input.snap, slot, input.now)
    } else {
        None
    };
    let wanted: bool = lists(input.preferred, slot);
    if input.trigger.discretionary() {
        if input.consume_first {
            let sooner: bool = match (reset, fleet.active_reset) {
                (Some(its), Some(mine)) => its < mine,
                _ => false,
            };
            if input.trigger == Trigger::ConsumeFirst && !wanted && !sooner {
                return Verdict::Out;
            }
        } else if let Some(mine) = input.active_headroom {
            if h as i128 - (mine as i128) < input.settings.hysteresis_pct as i128 {
                return Verdict::Out;
            }
        }
    }
    let (x, y): (i128, i128) = if input.consume_first {
        (instant_key(reset), -(h as i128))
    } else {
        (-(h as i128), 0)
    };
    if input.preferred.len() > 0 {
        Verdict::Takes(
            Key {
                a: if wanted {
                    0
                } else {
                    1
                },
                b: x,
                c: y,
                d: 0,
            },
        )
    } else {
        Verdict::Takes(Key { a: x, b: y, c: 0, d: 0 })
    }
}

/// What the ranking answers.
#[derive(Debug)]
pub struct Ranked {
    /// The targets, best first.
    pub ordered: Vec<u32>,
    /// Whether any candidate's usage is known.
    pub any_known: bool,
    /// The active account's weekly reset, where resets decide.
    pub active_reset_ts: Option<i64>,
}

/// Whether `r` is what the ranking answers under a bar.
pub open spec fn is_ranking(r: Ranked, input: RankInput, no_return: Option<u32>) -> bool {
    &&& r.ordered@ == slots_of(input.targets(no_return))
    &&& r.any_known == any_measured(input.candidates@, input.readings())
    &&& r.active_reset_ts == input.active_reset()
}

/// Filters and ranks the candidates for this tick's trigger.
pub fn rank_candidates(input: &RankInput, no_return: Option<u32>) -> (r: Ranked)
    requires
        input.snap.wf(),
    ensures
        is_ranking(r, *input, no_return),
{
    let over: bool = every_account_above_threshold(
        input.candidates,
        input.snap,
        input.active_headroom,
        input.settings.threshold,
    );
    let fleet: Fleet = Fleet {
        over,
        best: best_headroom(input.snap, input.candidates),
        active_reset: if input.consume_first {
            weekly_of(input.snap, input.current, input.now)
        } else {
            None
        },
        active_recovery: if over {
            recovery_of(input.snap, input.current, &input.settings.models, input.now)
        } else {
            None
        },
    };
    let ghost all = input.candidates@;
    let mut qualifying: Vec<(Key, u32)> = Vec::new();
    let mut fallback: Vec<(Key, u32)> = Vec::new();
    let mut any_known: bool = false;
    let mut i: usize = 0;
    while i < input.candidates.len()
        invariant
            i <= all.len(),
            all == input.candidates@,
            input.snap.wf(),
            fleet.over == input.over(),
            fleet.best == most_headroom(input.candidates@, input.readings()),
            fleet.active_reset == input.active_reset(),
            fleet.over ==> fleet.active_recovery == input.back(input.current),
            qualifying@ == input.admitted(all.take(i as int), no_return, false),
            fallback@ == input.admitted(all.take(i as int), no_return, true),
            any_known == any_measured(all.take(i as int), input.readings()),
        decreases all.len() - i,
    {
        let slot: u32 = input.candidates[i];
        let ghost part = all.take(i as int);
        let ghost more = all.take(i + 1);
        let verdict: Verdict = judge(input, slot, no_return, &fleet);
        proof {
            assert(more.drop_last() =~= part);
            assert(more.last() == slot);
            if any_measured(part, input.readings()) {
                let j = choose|j: int|
                    0 <= j < part.len() && headroom_in(input.readings(), #[trigger] part[j]) is Some;
                assert(more[j] == part[j]);
            }
            if any_measured(more, input.readings()) && headroom_in(input.readings(), slot) is None {
                let j = choose|j: int|
                    0 <= j < more.len() && headroom_in(input.readings(), #[trigger] more[j]) is Some;
                assert(part[j] == more[j]);
            }
            if headroom_in(input.readings(), slot) is Some {
                assert(headroom_in(input.readings(), more[i as int]) is Some);
            }
        }
        match verdict {
            Verdict::Unknown => {},
            Verdict::Out => {
                any_known = true;
            },
            Verdict::Fallback(key) => {
                any_known = true;
                place(&mut fallback, (key, slot));
            },
            Verdict::Takes(key) => {
                any_known = true;
                place(&mut qualifying, (key, slot));
            },
        }
        i += 1;
    }
    assert(all.take(all.len() as int) =~= all);
    Ranked {
        ordered: if qualifying.len() == 0 {
            take_slots(&fallback)
        } else {
            take_slots(&qualifying)
        },
        any_known,
        active_reset_ts: fleet.active_reset,
    }
}

} // verus!
