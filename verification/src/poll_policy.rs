//! Cadence policy for the usage endpoint: every number in one place.
//!
//! The endpoint budgets usage requests: roughly a trailing hour of some thirty
//! requests per identity, with capacity returning only as old requests age out.
//! A burst saturates the identity for up to a full hour, and a pause restores
//! nothing early. So everything here keeps the sustained rate under the cap and
//! reckons with an hour's recovery. Plans are kept per account by whichever
//! collector fetched, so every surface inherits one cadence.
//!
//! Durations are in microseconds, percentages in millionths.

use vstd::prelude::*;

use crate::contract::Window;
use crate::gating::{bound_pct, gating, headroom, highest, relevant};
use crate::text::{borrow_opt, opt_text};
use crate::timefmt::{parse_reset_ts, reset_instant};
use crate::units::{at_least, at_most, clip, clipped, greater, lesser, FULL_PCT};

verus! {

/// Freshness floor of every collector: a younger entry is served without a
/// fetch.
pub const SERVE_TTL_S: i64 = 180_000_000;

/// Floor of the normal cadence.
pub const MIN_INTERVAL_S: i64 = 180_000_000;

/// The cadence of the active account while it moves close to the threshold.
pub const URGENT_INTERVAL_S: i64 = 60_000_000;

/// Ceiling for an active account whose usage is not moving.
pub const ACTIVE_MAX_INTERVAL_S: i64 = 300_000_000;

/// Starting cadence for a candidate with no learned interval.
pub const CANDIDATE_DEFAULT_INTERVAL_S: i64 = 300_000_000;

/// Ceiling for an idle candidate.
pub const CANDIDATE_MAX_INTERVAL_S: i64 = 600_000_000;

/// The cadence of an exhausted account: slow, but never stopped, since quota can
/// be granted before the reported reset.
pub const EXHAUSTED_INTERVAL_S: i64 = 600_000_000;

/// The change of the binding percentage that counts as movement.
pub const MOVEMENT_DELTA_PCT: i64 = 1_000_000;

/// Reaction to a refusal with a retry delay of zero.
pub const EDGE_BACKOFF_S: i64 = 300_000_000;

/// Floor of the cadence while a refusal was seen recently.
pub const POST_429_MIN_INTERVAL_S: i64 = 360_000_000;

/// How long a refusal keeps that cadence.
pub const RECENT_429_WINDOW_S: i64 = 3_600_000_000;

/// Ceiling of the growth while refusals recur.
pub const POST_429_MAX_INTERVAL_S: i64 = 1_800_000_000;

/// How close to the threshold the active account is watched closely.
pub const ESCALATION_MARGIN_PCT: i64 = 15_000_000;

/// No poll is scheduled later than this after a known reset.
pub const RESET_SLACK_S: i64 = 60_000_000;

/// The fraction of an interval, in millionths, by which a poll may be moved.
pub const JITTER_FRAC: i64 = 100_000;

/// The instant at which a window resets.
pub open spec fn window_reset(w: Window) -> Option<i64> {
    reset_instant(opt_text(w.resets_at))
}

/// The latest reset among the full ones of some windows.
pub open spec fn latest_full_reset(windows: Seq<Window>) -> Option<i64>
    decreases windows.len(),
{
    if windows.len() == 0 {
        None
    } else {
        let rest = latest_full_reset(windows.drop_last());
        let w = windows.last();
        if w.pct < FULL_PCT {
            rest
        } else {
            match (window_reset(w), rest) {
                (Some(t), Some(l)) => if t > l {
                    Some(t)
                } else {
                    rest
                },
                (Some(t), None) => Some(t),
                (None, _) => rest,
            }
        }
    }
}

/// The earliest reset after `now` among some windows.
pub open spec fn earliest_reset_after(windows: Seq<Window>, now: i64) -> Option<i64>
    decreases windows.len(),
{
    if windows.len() == 0 {
        None
    } else {
        let rest = earliest_reset_after(windows.drop_last(), now);
        match (window_reset(windows.last()), rest) {
            (Some(t), Some(e)) => if t > now && t < e {
                Some(t)
            } else {
                rest
            },
            (Some(t), None) => if t > now {
                Some(t)
            } else {
                None
            },
            (None, _) => rest,
        }
    }
}

/// Utilization of the binding relevant window, or `None`.
pub fn binding_pct(windows: &Vec<Window>, models: &Vec<String>) -> (r: Option<i64>)
    ensures
        r is Some == bound_pct(windows@, models@) is Some,
        r is Some ==> r->0 == bound_pct(windows@, models@)->0,
{
    highest(windows, models)
}

/// When the last of the full relevant windows resets, so when the account is
/// usable again.
pub fn limiting_reset_ts(windows: &Vec<Window>, models: &Vec<String>) -> (r: Option<i64>)
    ensures
        r == latest_full_reset(gating(windows@, models@)),
{
    let list: Vec<&Window> = relevant(windows, models);
    let ghost all = gating(windows@, models@);
    let mut latest: Option<i64> = None;
    let mut i: usize = 0;
    while i < list.len()
        invariant
            i <= list.len(),
            list@.map_values(|w: &Window| *w) == all,
            latest == latest_full_reset(all.take(i as int)),
        decreases list.len() - i,
    {
        proof {
            assert(all.take(i + 1).drop_last() =~= all.take(i as int));
            assert(all[i as int] == *list@[i as int]);
        }
        if list[i].pct >= FULL_PCT {
            match (parse_reset_ts(borrow_opt(&list[i].resets_at)), latest) {
                (Some(t), Some(l)) => {
                    if t > l {
                        latest = Some(t);
                    }
                },
                (Some(t), None) => {
                    latest = Some(t);
                },
                (None, _) => {},
            }
        }
        i += 1;
    }
    assert(all.len() == list@.len());
    assert(all.take(all.len() as int) =~= all);
    latest
}

/// The next reset of a relevant window ahead of `now`, at any utilization.
pub fn earliest_future_reset_ts(windows: &Vec<Window>, now: i64, models: &Vec<String>) -> (r:
    Option<i64>)
    ensures
        r == earliest_reset_after(gating(windows@, models@), now),
{
    let list: Vec<&Window> = relevant(windows, models);
    let ghost all = gating(windows@, models@);
    let mut earliest: Option<i64> = None;
    let mut i: usize = 0;
    while i < list.len()
        invariant
            i <= list.len(),
            list@.map_values(|w: &Window| *w) == all,
            earliest == earliest_reset_after(all.take(i as int), now),
        decreases list.len() - i,
    {
        proof {
            assert(all.take(i + 1).drop_last() =~= all.take(i as int));
            assert(all[i as int] == *list@[i as int]);
        }
        match (parse_reset_ts(borrow_opt(&list[i].resets_at)), earliest) {
            (Some(t), Some(e)) => {
                if t > now && t < e {
                    earliest = Some(t);
                }
            },
            (Some(t), None) => {
                if t > now {
                    earliest = Some(t);
                }
            },
            (None, _) => {},
        }
        i += 1;
    }
    assert(all.len() == list@.len());
    assert(all.take(all.len() as int) =~= all);
    earliest
}

/// Everything that `plan_after_fetch` reads about one just-fetched account.
pub struct PlanInput<'a> {
    /// The interval that the previous plan chose, if any.
    pub prev_interval_s: Option<i64>,
    /// The windows that the previous poll measured.
    pub prev: Option<&'a Vec<Window>>,
    /// The windows that this poll measured.
    pub new: &'a Vec<Window>,
    pub is_active: bool,
    /// The switch threshold, in percent used.
    pub threshold: i64,
    /// Configured scoped-window model names.
    pub models: &'a Vec<String>,
    /// Whether this token was refused recently.
    pub recent_429: bool,
    pub now: i64,
}

impl<'a> PlanInput<'a> {
    pub open spec fn default_interval(&self) -> int {
        if self.is_active {
            MIN_INTERVAL_S as int
        } else {
            CANDIDATE_DEFAULT_INTERVAL_S as int
        }
    }

    pub open spec fn ceiling(&self) -> int {
        if self.is_active {
            ACTIVE_MAX_INTERVAL_S as int
        } else {
            CANDIDATE_MAX_INTERVAL_S as int
        }
    }

    /// The interval that the new one is grown or shrunk from.
    pub open spec fn base(&self) -> int {
        match self.prev_interval_s {
            Some(v) => if v != 0 {
                v as int
            } else {
                self.default_interval()
            },
            None => self.default_interval(),
        }
    }

    pub open spec fn prev_pct(&self) -> Option<int> {
        match self.prev {
            Some(w) => bound_pct(w@, self.models@),
            None => None,
        }
    }

    pub open spec fn new_pct(&self) -> Option<int> {
        bound_pct(self.new@, self.models@)
    }

    /// Whether both utilizations are known.
    pub open spec fn known(&self) -> bool {
        self.prev_pct() is Some && self.new_pct() is Some
    }

    /// Whether the account is being consumed.
    pub open spec fn moving(&self) -> bool {
        &&& self.known()
        &&& {
            ||| self.new_pct()->0 - self.prev_pct()->0 >= MOVEMENT_DELTA_PCT
            ||| self.prev_pct()->0 - self.new_pct()->0 >= MOVEMENT_DELTA_PCT
        }
    }

    /// Whether the active account is moving close to the threshold.
    pub open spec fn urgent(&self) -> bool {
        self.is_active && self.moving() && !self.recent_429 && self.new_pct()->0 >= self.threshold
            - ESCALATION_MARGIN_PCT
    }

    pub open spec fn exhausted(&self) -> bool {
        self.new_pct() matches Some(p) && p >= FULL_PCT
    }

    /// The interval by movement alone.
    pub open spec fn paced(&self) -> int {
        if self.urgent() {
            URGENT_INTERVAL_S as int
        } else if self.moving() {
            greater(MIN_INTERVAL_S as int, self.base() / 2)
        } else if self.known() {
            lesser(self.ceiling(), greater(MIN_INTERVAL_S as int, self.base() * 3 / 2))
        } else {
            self.default_interval()
        }
    }

    /// The interval with congestion reckoned in.
    pub open spec fn congested(&self) -> int {
        if self.recent_429 {
            lesser(
                POST_429_MAX_INTERVAL_S as int,
                greater(
                    self.paced(),
                    greater(self.base() * 3 / 2, POST_429_MIN_INTERVAL_S as int),
                ),
            )
        } else {
            self.paced()
        }
    }

    /// The interval that is planned.
    pub open spec fn interval(&self) -> int {
        if self.exhausted() {
            greater(self.congested(), EXHAUSTED_INTERVAL_S as int)
        } else {
            self.congested()
        }
    }

    /// The reset after which what was measured is obsolete.
    pub open spec fn deadline(&self) -> Option<i64> {
        if self.exhausted() {
            match latest_full_reset(gating(self.new@, self.models@)) {
                Some(t) => if t > self.now {
                    Some(t)
                } else {
                    None
                },
                None => None,
            }
        } else {
            earliest_reset_after(gating(self.new@, self.models@), self.now)
        }
    }

    /// The instant planned, before it is pulled to a reset.
    pub open spec fn jittered(&self, roll: int) -> int {
        self.now + self.interval() * (9_000_000 + 2 * roll) / 10_000_000
    }

    /// The instant of the next poll.
    pub open spec fn next_poll(&self, roll: int) -> int {
        match self.deadline() {
            Some(t) => lesser(self.jittered(roll), t + RESET_SLACK_S),
            None => self.jittered(roll),
        }
    }
}

/// `(next_poll_at, interval)` for an account just fetched successfully.
///
/// Movement halves the interval, floored at `MIN_INTERVAL_S`, or drops it to
/// `URGENT_INTERVAL_S` when the active account moves inside the escalation band.
/// No movement backs off by half again toward the account's ceiling; unknown
/// utilization uses the default. A recent refusal floors the cadence at
/// `POST_429_MIN_INTERVAL_S`, rules urgent mode out and grows the interval toward
/// `POST_429_MAX_INTERVAL_S`. The scheduled time is moved by up to `JITTER_FRAC`
/// and is never later than the account's next reset and `RESET_SLACK_S`.
///
/// `roll` is a random number in millionths: half a million moves nothing.
pub fn plan_after_fetch(i: PlanInput, roll: u32) -> (r: (i64, i64))
    ensures
        r.0 == clip(i.next_poll(roll as int)),
        r.1 == clip(i.interval()),
{
    let default: i128 = if i.is_active {
        MIN_INTERVAL_S as i128
    } else {
        CANDIDATE_DEFAULT_INTERVAL_S as i128
    };
    let ceiling: i128 = if i.is_active {
        ACTIVE_MAX_INTERVAL_S as i128
    } else {
        CANDIDATE_MAX_INTERVAL_S as i128
    };
    let base: i128 = match i.prev_interval_s {
        Some(v) => if v != 0 {
            v as i128
        } else {
            default
        },
        None => default,
    };
    let prev_pct: Option<i64> = match i.prev {
        Some(w) => binding_pct(w, i.models),
        None => None,
    };
    let new_pct: Option<i64> = binding_pct(i.new, i.models);
    let floor: i128 = MIN_INTERVAL_S as i128;
    let grown: i128 = base * 3 / 2;
    let mut interval: i128 = default;
    match (prev_pct, new_pct) {
        (Some(prev_pct), Some(new_pct)) => {
            let delta: i128 = new_pct as i128 - prev_pct as i128;
            if delta >= MOVEMENT_DELTA_PCT as i128 || -delta >= MOVEMENT_DELTA_PCT as i128 {
                interval = at_least(floor, base / 2);
                if i.is_active && !i.recent_429 && new_pct as i128 >= i.threshold as i128
                    - ESCALATION_MARGIN_PCT as i128 {
                    interval = URGENT_INTERVAL_S as i128;
                }
            } else {
                interval = at_most(ceiling, at_least(floor, grown));
            }
        },
        _ => {},
    }
    assert(interval == i.paced());
    if i.recent_429 {
        let increased: i128 = at_least(grown, POST_429_MIN_INTERVAL_S as i128);
        interval = at_most(POST_429_MAX_INTERVAL_S as i128, at_least(interval, increased));
    }
    assert(interval == i.congested());
    let exhausted: bool = match headroom(i.new, i.models) {
        Some(h) => h <= 0,
        None => false,
    };
    if exhausted {
        interval = at_least(interval, EXHAUSTED_INTERVAL_S as i128);
    }
    assert(interval == i.interval());
    let factor: i128 = 9_000_000 + 2 * roll as i128;
    assert(0 <= interval * factor <= 0x1_0000_0000_0000_0000 * 0x4_0000_0000) by (nonlinear_arith)
        requires
            0 <= interval <= 0x1_0000_0000_0000_0000,
            0 <= factor <= 0x4_0000_0000,
    ;
    let mut next_poll: i128 = i.now as i128 + interval * factor / 10_000_000;
    let deadline: Option<i64> = if exhausted {
        match limiting_reset_ts(i.new, i.models) {
            Some(t) => if t > i.now {
                Some(t)
            } else {
                None
            },
            None => None,
        }
    } else {
        earliest_future_reset_ts(i.new, i.now, i.models)
    };
    if let Some(t) = deadline {
        next_poll = at_most(next_poll, t as i128 + RESET_SLACK_S as i128);
    }
    (clipped(next_poll), clipped(interval))
}

/// A poll is never planned later than `RESET_SLACK_S` after the account's next
/// reset: for an exhausted account the one that frees it, else the first ahead.
pub proof fn law_poll_follows_no_reset(i: PlanInput, roll: int)
    ensures
        i.deadline() matches Some(t) ==> i.next_poll(roll) <= t + RESET_SLACK_S,
{
}

/// Where the previous interval was at most `POST_429_MAX_INTERVAL_S`, so is the
/// new one, and it is never below `URGENT_INTERVAL_S`; only an urgent account is
/// polled faster than `MIN_INTERVAL_S`.
pub proof fn law_interval_is_bounded(i: PlanInput)
    requires
        i.prev_interval_s matches Some(v) ==> v <= POST_429_MAX_INTERVAL_S,
    ensures
        URGENT_INTERVAL_S <= i.interval() <= POST_429_MAX_INTERVAL_S,
        i.interval() < MIN_INTERVAL_S ==> i.urgent(),
        i.exhausted() ==> i.interval() >= EXHAUSTED_INTERVAL_S,
        i.recent_429 ==> i.interval() >= POST_429_MIN_INTERVAL_S,
{
}

/// While refusals recur, the interval never shrinks below the previous one, up
/// to the ceiling.
pub proof fn law_congestion_never_tightens(i: PlanInput)
    requires
        i.recent_429,
        i.prev_interval_s matches Some(v) && 0 < v <= POST_429_MAX_INTERVAL_S,
    ensures
        i.interval() >= i.prev_interval_s->0,
{
}

/// The noise moves a poll by at most a tenth of the interval either way, and a
/// reset only pulls it earlier.
pub proof fn law_jitter_is_bounded(i: PlanInput, roll: int)
    requires
        0 <= roll <= 1_000_000,
    ensures
        i.interval() * (1_000_000 - JITTER_FRAC) / 1_000_000 <= i.jittered(roll) - i.now
            <= i.interval() * (1_000_000 + JITTER_FRAC) / 1_000_000,
        i.next_poll(roll) <= i.jittered(roll),
        i.deadline() is None ==> i.next_poll(roll) == i.jittered(roll),
{
    let n = i.interval();
    assert(n >= 0);
    assert(n * (1_000_000 - JITTER_FRAC) / 1_000_000 == n * 9_000_000 / 10_000_000);
    assert(n * (1_000_000 + JITTER_FRAC) / 1_000_000 == n * 11_000_000 / 10_000_000);
    assert(n * 9_000_000 <= n * (9_000_000 + 2 * roll) <= n * 11_000_000) by (nonlinear_arith)
        requires
            n >= 0,
            0 <= roll <= 1_000_000,
    ;
}

} // verus!
