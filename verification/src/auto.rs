//! The switching loop: what one look at the accounts asks for.
//!
//! When the active account's binding window crosses the threshold, the loop moves
//! to the candidate with the most headroom, while the old login is still valid.
//! A cooldown bounds the rate of moves by choice. What is fetched is decided by
//! the usage table; here is only decided what is done.

use vstd::prelude::*;
use vstd::string::*;

use crate::auto_bar::Departure;
use crate::auto_rank::{
    all_over, every_account_above_threshold, headroom_in, Reading, Snapshot, Trigger,
};
use crate::contract::{AccountView, ProviderView, UsageStatus, Window};
use crate::gating::{bound_pct, gating, headroom, highest};
use crate::numfmt::{show_slots, show_ten_places, show_whole, slot_list, ten_places, whole_text};
use crate::poll_policy::{latest_full_reset, limiting_reset_ts};
use crate::settings::Settings;
use crate::slots::{drop_slot, lists, without};
use crate::switch::{is_preferred, prefers};
use crate::table::Table;
use crate::text::{decimal, same, show};
use crate::units::FULL_PCT;

verus! {

/// The version of the stored state.
pub const STATE_SCHEMA_VERSION: u32 = 1;

/// How long an expired active token counts as an idle command line tool.
pub const IDLE_HOLD_MAX_S: i64 = 1_800_000_000;

/// Longest sleep, even toward a known reset.
pub const MAX_SLEEP_S: i64 = 600_000_000;

/// The sleep when nothing can be taken and no recovery is known.
pub const NO_RESET_FALLBACK_S: i64 = 300_000_000;

/// How one tick ended.
#[derive(Clone, Copy, Debug, PartialEq, Eq, Structural)]
pub enum TickOutcome {
    Switched,
    Error,
    NoAction,
    /// A switch was wanted and could not be made.
    Blocked,
}

/// What one tick leaves the next.
#[derive(Debug)]
pub struct AutoState {
    pub schema_version: u32,
    /// Before this no move by choice is made.
    pub cooldown_until: Option<i64>,
    /// The slots that are out, by their number as text.
    pub quarantine: Table<Quarantine>,
    /// The last switch, as the account it left looked then.
    pub left_at_limit: Option<Departure>,
}

/// Why a slot is out. The fingerprint is of the login that failed.
#[derive(Debug)]
pub struct Quarantine {
    pub reason: String,
    /// RFC 3339.
    pub since: String,
    pub fingerprint: Option<String>,
}

/// Why a tick does nothing.
#[derive(Clone, Copy, Debug, PartialEq, Eq, Structural)]
pub enum Reason {
    SwitchInProgress,
    KeychainUnavailable,
    CliBusy,
    UnmanagedActive,
    NoActive,
    Disabled,
    ActiveApiKey,
    ActiveIdle,
    UsageUnknown { ticks: u32, of: u32 },
    BelowThreshold { headroom: i64, threshold: i64 },
    PreferredActive,
    Cooldown,
    NoPeer { headroom: i64 },
    NoCandidates,
    Unsupported,
    NoComparison,
    ResetUnknown,
    AlreadyConsumingSoonest,
    NoQualifyingCandidate,
    StaleUsage { slot: u32, failed: bool },
    AlreadyActive,
    NoViableTarget,
}

impl Reason {
    /// The name of the reason.
    pub open spec fn text(self) -> Seq<char> {
        match self {
            Reason::SwitchInProgress => "switch-in-progress"@,
            Reason::KeychainUnavailable => "keychain-unavailable"@,
            Reason::CliBusy => "cli-busy"@,
            Reason::UnmanagedActive => "unmanaged-active-account"@,
            Reason::NoActive => "no-active-account"@,
            Reason::Disabled => "disabled"@,
            Reason::ActiveApiKey => "active-api-key"@,
            Reason::ActiveIdle => "active-idle"@,
            Reason::UsageUnknown { .. } => "active-usage-unknown"@,
            Reason::BelowThreshold { .. } => "below-threshold"@,
            Reason::PreferredActive => "preferred-active"@,
            Reason::Cooldown => "cooldown"@,
            Reason::NoPeer { .. } => "below-threshold"@,
            Reason::NoCandidates => "no-candidates"@,
            Reason::Unsupported => "unsupported"@,
            Reason::NoComparison => "no-comparison"@,
            Reason::ResetUnknown => "reset-unknown"@,
            Reason::AlreadyConsumingSoonest => "already-consuming-soonest"@,
            Reason::NoQualifyingCandidate => "no-qualifying-candidate"@,
            Reason::StaleUsage { .. } => "stale-usage"@,
            Reason::AlreadyActive => "already-active"@,
            Reason::NoViableTarget => "no-viable-target"@,
        }
    }

    /// The name of the reason.
    pub fn name(self) -> (r: &'static str)
        ensures
            r@ == self.text(),
    {
        match self {
            Reason::SwitchInProgress => "switch-in-progress",
            Reason::KeychainUnavailable => "keychain-unavailable",
            Reason::CliBusy => "cli-busy",
            Reason::UnmanagedActive => "unmanaged-active-account",
            Reason::NoActive => "no-active-account",
            Reason::Disabled => "disabled",
            Reason::ActiveApiKey => "active-api-key",
            Reason::ActiveIdle => "active-idle",
            Reason::UsageUnknown { .. } => "active-usage-unknown",
            Reason::BelowThreshold { .. } => "below-threshold",
            Reason::PreferredActive => "preferred-active",
            Reason::Cooldown => "cooldown",
            Reason::NoPeer { .. } => "below-threshold",
            Reason::NoCandidates => "no-candidates",
            Reason::Unsupported => "unsupported",
            Reason::NoComparison => "no-comparison",
            Reason::ResetUnknown => "reset-unknown",
            Reason::AlreadyConsumingSoonest => "already-consuming-soonest",
            Reason::NoQualifyingCandidate => "no-qualifying-candidate",
            Reason::StaleUsage { .. } => "stale-usage",
            Reason::AlreadyActive => "already-active",
            Reason::NoViableTarget => "no-viable-target",
        }
    }

    /// What is said beside the name; `api_keys` are the managed API-key candidates.
    pub open spec fn detail_text(self, api_keys: Seq<u32>) -> Seq<char> {
        match self {
            Reason::UnmanagedActive => "run `swapd add` to include it in the rotation"@,
            Reason::NoActive => "log in and run `swapd add` first"@,
            Reason::Disabled => "enabled is off — usage polling continues"@,
            Reason::ActiveApiKey => "API-key accounts have no quota to watch"@,
            Reason::ActiveIdle => "token expired while the CLI is idle; resumes on next use"@,
            Reason::UsageUnknown { ticks, of } => decimal(ticks as nat) + "/"@ + decimal(of as nat)
                + " before failover"@,
            Reason::BelowThreshold { headroom, threshold } => ten_places(FULL_PCT - headroom)
                + "% < "@ + ten_places(threshold as int) + "%"@,
            Reason::PreferredActive =>
                "the active account is preferred; it is left only at its limit"@,
            Reason::NoPeer { headroom } => whole_text(FULL_PCT - headroom, 1_000_000)
                + "% used, no peer to consume ahead of it"@,
            Reason::Unsupported =>
                "the only candidates left are managed API-key accounts (slots "@ + slot_list(
                api_keys,
            ) + "), which cannot be made the live login"@,
            Reason::NoComparison => "no candidate has readable usage"@,
            Reason::ResetUnknown =>
                "the active account's weekly reset time is unknown; consume-first is idle until it is reported"@,
            Reason::AlreadyConsumingSoonest => "no sooner-resetting account with room to spare"@,
            Reason::NoQualifyingCandidate =>
                "no candidate is below the threshold and better than the active account by the hysteresis margin, or usage is unreadable this tick"@,
            Reason::StaleUsage { slot, failed } => "slot "@ + decimal(slot as nat)
                + "'s usage could not be refreshed this tick ("@ + (if failed {
                "the fetch failed"@
            } else {
                "backoff or a concurrent poller"@
            }) + "); retrying"@,
            Reason::AlreadyActive => "already-active"@,
            _ => ""@,
        }
    }

    /// What is said beside the name.
    pub fn detail(self, api_keys: &Vec<u32>) -> (r: String)
        ensures
            r@ == self.detail_text(api_keys@),
    {
        match self {
            Reason::UnmanagedActive => "run `swapd add` to include it in the rotation".to_owned(),
            Reason::NoActive => "log in and run `swapd add` first".to_owned(),
            Reason::Disabled => "enabled is off — usage polling continues".to_owned(),
            Reason::ActiveApiKey => "API-key accounts have no quota to watch".to_owned(),
            Reason::ActiveIdle =>
                "token expired while the CLI is idle; resumes on next use".to_owned(),
            Reason::UsageUnknown { ticks, of } => show(ticks as u64).concat("/").concat(
                show(of as u64).as_str(),
            ).concat(" before failover"),
            Reason::BelowThreshold { headroom, threshold } => show_ten_places(
                FULL_PCT as i128 - headroom as i128,
            ).concat("% < ").concat(show_ten_places(threshold as i128).as_str()).concat("%"),
            Reason::PreferredActive =>
                "the active account is preferred; it is left only at its limit".to_owned(),
            Reason::NoPeer { headroom } => show_whole(
                FULL_PCT as i128 - headroom as i128,
                1_000_000,
            ).concat("% used, no peer to consume ahead of it"),
            Reason::Unsupported =>
                "the only candidates left are managed API-key accounts (slots ".to_owned().concat(
                show_slots(api_keys).as_str(),
            ).concat("), which cannot be made the live login"),
            Reason::NoComparison => "no candidate has readable usage".to_owned(),
            Reason::ResetUnknown =>
                "the active account's weekly reset time is unknown; consume-first is idle until it is reported".to_owned(),
            Reason::AlreadyConsumingSoonest =>
                "no sooner-resetting account with room to spare".to_owned(),
            Reason::NoQualifyingCandidate =>
                "no candidate is below the threshold and better than the active account by the hysteresis margin, or usage is unreadable this tick".to_owned(),
            Reason::StaleUsage { slot, failed } => {
                let why: &str = if failed {
                    "the fetch failed"
                } else {
                    "backoff or a concurrent poller"
                };
                "slot ".to_owned().concat(show(slot as u64).as_str()).concat(
                    "'s usage could not be refreshed this tick (",
                ).concat(why).concat("); retrying")
            },
            Reason::AlreadyActive => "already-active".to_owned(),
            _ => "".to_owned(),
        }
    }
}

/// The first account on a slot.
pub open spec fn account_at(accounts: Seq<AccountView>, slot: u32) -> Option<AccountView>
    decreases accounts.len(),
{
    if accounts.len() == 0 {
        None
    } else {
        match account_at(accounts.drop_last(), slot) {
            Some(a) => Some(a),
            None => if accounts.last().slot == slot {
                Some(accounts.last())
            } else {
                None
            },
        }
    }
}

proof fn lemma_account_at_stays(accounts: Seq<AccountView>, slot: u32, n: int)
    requires
        0 <= n <= accounts.len(),
        account_at(accounts.take(n), slot) is Some,
    ensures
        account_at(accounts, slot) == account_at(accounts.take(n), slot),
    decreases accounts.len() - n,
{
    if n == accounts.len() {
        assert(accounts.take(n) =~= accounts);
    } else {
        assert(accounts.take(n + 1).drop_last() =~= accounts.take(n));
        lemma_account_at_stays(accounts, slot, n + 1);
    }
}

/// The first account on a slot.
pub fn account_of(accounts: &Vec<AccountView>, slot: u32) -> (r: Option<&AccountView>)
    ensures
        r is Some == account_at(accounts@, slot) is Some,
        r matches Some(a) ==> account_at(accounts@, slot) == Some(*a),
{
    let mut i: usize = 0;
    while i < accounts.len()
        invariant
            i <= accounts.len(),
            account_at(accounts@.take(i as int), slot) is None,
        decreases accounts.len() - i,
    {
        assert(accounts@.take(i + 1).drop_last() =~= accounts@.take(i as int));
        if accounts[i].slot == slot {
            proof {
                lemma_account_at_stays(accounts@, slot, i + 1);
            }
            return Some(&accounts[i]);
        }
        i += 1;
    }
    assert(accounts@.take(accounts@.len() as int) =~= accounts@);
    None
}

/// Whether the loop may consider an account at all: it is enabled and has a usable
/// credential; a managed API key only where that is allowed.
pub open spec fn considered(a: AccountView, api_keys: bool) -> bool {
    &&& !a.disabled
    &&& !(a.usage_status is NoCredentials)
    &&& !(a.usage_status is ReloginRequired)
    &&& !(a.usage_status is Unsupported)
    &&& a.usage_status is ApiKey ==> api_keys
}

/// Whether the loop may consider an account at all.
pub fn switchable(a: &AccountView, api_keys: bool) -> (r: bool)
    ensures
        r == considered(*a, api_keys),
{
    !a.disabled && match a.usage_status {
        UsageStatus::NoCredentials | UsageStatus::ReloginRequired | UsageStatus::Unsupported =>
        false,
        UsageStatus::ApiKey => api_keys,
        _ => true,
    }
}

/// The slots of the accounts, but the current one, that are not quarantined and
/// may be considered: those with an API key, or those without.
pub open spec fn census(
    accounts: Seq<AccountView>,
    current: u32,
    quarantined: Seq<u32>,
    api_keys: bool,
    keyed: bool,
) -> Seq<u32>
    decreases accounts.len(),
{
    if accounts.len() == 0 {
        Seq::empty()
    } else {
        let rest = census(accounts.drop_last(), current, quarantined, api_keys, keyed);
        let a = accounts.last();
        if a.slot != current && !quarantined.contains(a.slot) && considered(a, api_keys)
            && a.usage_status is ApiKey == keyed {
            rest.push(a.slot)
        } else {
            rest
        }
    }
}

/// The slots that may be moved to: those with an API key, or those without.
pub fn candidates_of(
    accounts: &Vec<AccountView>,
    current: u32,
    quarantined: &Vec<u32>,
    api_keys: bool,
    keyed: bool,
) -> (r: Vec<u32>)
    ensures
        r@ == census(accounts@, current, quarantined@, api_keys, keyed),
{
    let mut r: Vec<u32> = Vec::new();
    let mut i: usize = 0;
    assert(accounts@.take(0) =~= Seq::empty());
    while i < accounts.len()
        invariant
            i <= accounts.len(),
            r@ == census(accounts@.take(i as int), current, quarantined@, api_keys, keyed),
        decreases accounts.len() - i,
    {
        assert(accounts@.take(i + 1).drop_last() =~= accounts@.take(i as int));
        let a: &AccountView = &accounts[i];
        if a.slot != current && !lists(quarantined, a.slot) && switchable(a, api_keys) && (
        a.usage_status == UsageStatus::ApiKey) == keyed {
            r.push(a.slot);
        }
        i += 1;
    }
    assert(accounts@.take(accounts@.len() as int) =~= accounts@);
    r
}

/// Neither the current slot nor a quarantined one is ever a candidate.
pub proof fn law_census_leaves_out(
    accounts: Seq<AccountView>,
    current: u32,
    quarantined: Seq<u32>,
    api_keys: bool,
    keyed: bool,
)
    ensures
        !census(accounts, current, quarantined, api_keys, keyed).contains(current),
        forall|n: u32|
            quarantined.contains(n) ==> !#[trigger] census(
                accounts,
                current,
                quarantined,
                api_keys,
                keyed,
            ).contains(n),
        !api_keys && keyed ==> census(accounts, current, quarantined, api_keys, keyed).len() == 0,
    decreases accounts.len(),
{
    if accounts.len() > 0 {
        law_census_leaves_out(accounts.drop_last(), current, quarantined, api_keys, keyed);
        let rest = census(accounts.drop_last(), current, quarantined, api_keys, keyed);
        let out = census(accounts, current, quarantined, api_keys, keyed);
        assert forall|n: u32| #[trigger] out.contains(n) implies rest.contains(n) || (n
            == accounts.last().slot && out != rest) by {
            let i = choose|i: int| 0 <= i < out.len() && out[i] == n;
            if i < rest.len() {
                assert(rest[i] == n);
            }
        }
    }
}

/// Of some candidates, those that are preferred.
pub open spec fn preferred_among(
    slots: Seq<u32>,
    accounts: Seq<AccountView>,
    names: Seq<String>,
) -> Seq<u32>
    decreases slots.len(),
{
    if slots.len() == 0 {
        Seq::empty()
    } else {
        let rest = preferred_among(slots.drop_last(), accounts, names);
        if account_at(accounts, slots.last()) matches Some(a) && prefers(a, names) {
            rest.push(slots.last())
        } else {
            rest
        }
    }
}

/// Of some candidates, those that are preferred.
pub fn preferred_slots(slots: &Vec<u32>, accounts: &Vec<AccountView>, names: &Vec<String>) -> (r:
    Vec<u32>)
    ensures
        r@ == preferred_among(slots@, accounts@, names@),
{
    let mut r: Vec<u32> = Vec::new();
    let mut i: usize = 0;
    assert(slots@.take(0) =~= Seq::empty());
    while i < slots.len()
        invariant
            i <= slots.len(),
            r@ == preferred_among(slots@.take(i as int), accounts@, names@),
        decreases slots.len() - i,
    {
        assert(slots@.take(i + 1).drop_last() =~= slots@.take(i as int));
        let wanted: bool = match account_of(accounts, slots[i]) {
            Some(a) => is_preferred(a, names),
            None => false,
        };
        if wanted {
            r.push(slots[i]);
        }
        i += 1;
    }
    assert(slots@.take(slots@.len() as int) =~= slots@);
    r
}

/// When the first of the full accounts is usable again: `Err` where one of them
/// names no reset ahead, so that it may come back at any moment.
pub open spec fn soonest_usable(
    items: Seq<(u32, Reading)>,
    models: Seq<String>,
    now: i64,
) -> Result<Option<i64>, ()>
    decreases items.len(),
{
    if items.len() == 0 {
        Ok(None)
    } else {
        let w = items.last().1.windows@;
        match soonest_usable(items.drop_last(), models, now) {
            Err(_) => Err(()),
            Ok(sofar) => if bound_pct(w, models) matches Some(p) && p >= FULL_PCT {
                match latest_full_reset(gating(w, models)) {
                    Some(t) => if t <= now {
                        Err(())
                    } else {
                        match sofar {
                            Some(e) => Ok(
                                Some(
                                    if t < e {
                                        t
                                    } else {
                                        e
                                    },
                                ),
                            ),
                            None => Ok(Some(t)),
                        }
                    },
                    None => Err(()),
                }
            } else {
                Ok(sofar)
            },
        }
    }
}

/// The earliest moment at which any account becomes usable again, or `None` when
/// that cannot be proven.
pub open spec fn earliest_usable(
    items: Seq<(u32, Reading)>,
    models: Seq<String>,
    now: i64,
) -> Option<i64> {
    match soonest_usable(items, models, now) {
        Ok(at) => at,
        Err(_) => None,
    }
}

proof fn lemma_unprovable_stays(items: Seq<(u32, Reading)>, models: Seq<String>, now: i64, n: int)
    requires
        0 <= n <= items.len(),
        soonest_usable(items.take(n), models, now) is Err,
    ensures
        soonest_usable(items, models, now) is Err,
    decreases items.len() - n,
{
    if n == items.len() {
        assert(items.take(n) =~= items);
    } else {
        assert(items.take(n + 1).drop_last() =~= items.take(n));
        lemma_unprovable_stays(items, models, now, n + 1);
    }
}

/// The earliest moment at which any account becomes usable again.
///
/// For one account it is the latest reset among its full windows. One blocked
/// account whose full windows name no reset makes the answer unprovable: it could
/// come back at any moment.
pub fn earliest_recovery(snap: &Snapshot, models: &Vec<String>, now: i64) -> (r: Option<i64>)
    ensures
        r == earliest_usable(snap.readings.items@, models@, now),
{
    let ghost items = snap.readings.items@;
    let mut earliest: Option<i64> = None;
    let mut i: usize = 0;
    assert(items.take(0) =~= Seq::empty());
    while i < snap.readings.items.len()
        invariant
            i <= items.len(),
            items == snap.readings.items@,
            soonest_usable(items.take(i as int), models@, now) == Ok::<Option<i64>, ()>(earliest),
        decreases items.len() - i,
    {
        assert(items.take(i + 1).drop_last() =~= items.take(i as int));
        let windows: &Vec<Window> = &snap.readings.items[i].1.windows;
        let full: bool = match highest(windows, models) {
            Some(p) => p >= FULL_PCT,
            None => false,
        };
        if full {
            let usable: Option<i64> = limiting_reset_ts(windows, models);
            match usable {
                Some(t) => {
                    if t <= now {
                        proof {
                            lemma_unprovable_stays(items, models@, now, i + 1);
                        }
                        return None;
                    }
                    earliest = match earliest {
                        Some(e) => if t < e {
                            Some(t)
                        } else {
                            Some(e)
                        },
                        None => Some(t),
                    };
                },
                None => {
                    proof {
                        lemma_unprovable_stays(items, models@, now, i + 1);
                    }
                    return None;
                },
            }
        }
        i += 1;
    }
    assert(items.take(items.len() as int) =~= items);
    earliest
}

/// What the engine carries from tick to tick.
#[derive(Clone, Copy, Debug, PartialEq, Eq, Structural)]
pub struct AutoEngine {
    /// Consecutive ticks without a reading of the active account.
    pub unhealthy_ticks: u32,
    /// When the current idle-hold started.
    pub idle_hold_since: Option<i64>,
    /// A known reset to sleep toward.
    pub sleep_until: Option<i64>,
    /// Whether a blocked tick is static enough to wait longer.
    pub blocked_wait_long: bool,
    /// Whether the tick ended in an idle-hold.
    pub idle_hold_slow: bool,
}

/// What a tick decides on.
pub struct TickInput<'a> {
    pub view: &'a ProviderView,
    pub snap: &'a Snapshot,
    pub settings: &'a Settings,
    pub state: &'a AutoState,
    pub quarantined: &'a Vec<u32>,
    /// Whether a login is live at all.
    pub has_live_login: bool,
    pub now: i64,
}

/// What the active account asks for.
#[derive(Clone, Copy, Debug, PartialEq, Eq, Structural)]
pub enum Classified {
    Hold(Reason),
    Trigger(Trigger),
}

/// What is done next.
#[derive(Clone, Copy, Debug, PartialEq, Eq, Structural)]
pub enum Step {
    /// Nothing, for a reason.
    Hold(Reason, TickOutcome),
    /// Nothing, since every account is at its limit; when the first comes back.
    AllExhausted(Option<i64>),
    /// A switch to the first target that takes it.
    Try(Trigger),
}

/// A decision, with the lists that it was made on.
#[derive(Debug)]
pub struct Decision {
    pub step: Step,
    /// The candidates with usage to compare.
    pub oauth: Vec<u32>,
    /// The candidates with a managed API key.
    pub api_keys: Vec<u32>,
    /// The preferred ones of the first.
    pub preferred: Vec<u32>,
    /// The targets, best first.
    pub ordered: Vec<u32>,
    /// The headroom and the recovery of the account that is left.
    pub left: (Option<i64>, Option<i64>),
}

impl<'a> TickInput<'a> {
    /// The snapshot is well-formed.
    pub open spec fn wf(&self) -> bool {
        self.snap.wf()
    }

    pub open spec fn status_is(&self, slot: u32, status: UsageStatus) -> bool {
        account_at(self.view.accounts@, slot) matches Some(a) && a.usage_status == status
    }

    /// Why nothing is done before the active account's usage is looked at.
    pub open spec fn preflight(&self) -> Option<Reason> {
        match self.view.active_slot {
            None => match self.view.active_unreadable {
                Some(why) => Some(
                    if why@ == "keychain-unavailable"@ {
                        Reason::KeychainUnavailable
                    } else if why@ == "cli-busy"@ {
                        Reason::CliBusy
                    } else {
                        Reason::SwitchInProgress
                    },
                ),
                None => Some(
                    if self.has_live_login {
                        Reason::UnmanagedActive
                    } else {
                        Reason::NoActive
                    },
                ),
            },
            Some(current) => if !self.settings.enabled {
                Some(Reason::Disabled)
            } else if self.status_is(current, UsageStatus::ApiKey)
                && !self.settings.include_api_key_accounts {
                Some(Reason::ActiveApiKey)
            } else {
                None
            },
        }
    }

    pub open spec fn consume_first(&self) -> bool {
        self.settings.strategy@ == "consume-first"@
    }

    pub open spec fn in_cooldown(&self) -> bool {
        self.state.cooldown_until matches Some(until) && self.now < until
    }

    /// What an active account with a known headroom asks for.
    pub open spec fn wants(&self, current: u32, h: i64) -> Classified {
        let peers_over = all_over(
            without(self.snap.readings.numbers(), current),
            self.snap.readings@,
            Some(h),
            self.settings.threshold,
        );
        let pinned = account_at(self.view.accounts@, current) matches Some(a) && prefers(
            a,
            self.settings.preferred@,
        );
        if FULL_PCT - h < self.settings.threshold || (self.consume_first() && h > 0 && !peers_over) {
            if !self.consume_first() {
                Classified::Hold(
                    Reason::BelowThreshold { headroom: h, threshold: self.settings.threshold },
                )
            } else if pinned {
                Classified::Hold(Reason::PreferredActive)
            } else {
                Classified::Trigger(Trigger::ConsumeFirst)
            }
        } else if h <= 0 {
            Classified::Trigger(Trigger::AtLimit)
        } else {
            Classified::Trigger(Trigger::Proactive)
        }
    }

    /// The candidates with usage to compare.
    pub open spec fn oauth(&self, current: u32) -> Seq<u32> {
        census(
            self.view.accounts@,
            current,
            self.quarantined@,
            self.settings.include_api_key_accounts,
            false,
        )
    }

    /// The candidates with a managed API key.
    pub open spec fn keyed(&self, current: u32) -> Seq<u32> {
        census(
            self.view.accounts@,
            current,
            self.quarantined@,
            self.settings.include_api_key_accounts,
            true,
        )
    }
}

impl AutoEngine {
    /// An engine that has seen nothing.
    pub fn new() -> (r: AutoEngine)
        ensures
            r == (AutoEngine {
                unhealthy_ticks: 0,
                idle_hold_since: None,
                sleep_until: None,
                blocked_wait_long: false,
                idle_hold_slow: false,
            }),
    {
        AutoEngine {
            unhealthy_ticks: 0,
            idle_hold_since: None,
            sleep_until: None,
            blocked_wait_long: false,
            idle_hold_slow: false,
        }
    }

    /// The engine at the start of a tick.
    pub open spec fn started(self) -> AutoEngine {
        AutoEngine {
            sleep_until: None,
            blocked_wait_long: false,
            idle_hold_slow: false,
            ..self
        }
    }

    /// Since when the engine holds for an idle tool.
    pub open spec fn held_since(self, now: i64) -> i64 {
        match self.idle_hold_since {
            Some(s) => s,
            None => now,
        }
    }

    /// Whether an expired active token still counts as an idle tool.
    pub open spec fn idle(self, now: i64) -> bool {
        now - self.held_since(now) <= IDLE_HOLD_MAX_S
    }

    /// What the active account asks for.
    pub open spec fn classified(self, t: TickInput, current: u32) -> Classified {
        match headroom_in(t.snap.readings@, current) {
            Some(h) => t.wants(current, h),
            None => if t.status_is(current, UsageStatus::TokenExpired) && self.idle(t.now) {
                Classified::Hold(Reason::ActiveIdle)
            } else if self.unhealthy_ticks + 1 < t.settings.unhealthy_ticks {
                Classified::Hold(
                    Reason::UsageUnknown {
                        ticks: (self.unhealthy_ticks + 1) as u32,
                        of: t.settings.unhealthy_ticks,
                    },
                )
            } else {
                Classified::Trigger(Trigger::Failover)
            },
        }
    }

    /// The engine after the active account was looked at.
    pub open spec fn counted(self, t: TickInput, current: u32) -> AutoEngine {
        let expired = t.status_is(current, UsageStatus::TokenExpired);
        match headroom_in(t.snap.readings@, current) {
            Some(_) => AutoEngine { unhealthy_ticks: 0, idle_hold_since: None, ..self },
            None => if expired && self.idle(t.now) {
                AutoEngine {
                    unhealthy_ticks: 0,
                    idle_hold_since: Some(self.held_since(t.now)),
                    idle_hold_slow: true,
                    ..self
                }
            } else {
                AutoEngine {
                    unhealthy_ticks: (self.unhealthy_ticks + 1) as u32,
                    idle_hold_since: if expired {
                        Some(self.held_since(t.now))
                    } else {
                        None
                    },
                    ..self
                }
            },
        }
    }

    /// What this tick's active account asks for: a trigger, or the reason why
    /// nothing happens.
    pub fn classify(&mut self, t: &TickInput, current: u32) -> (r: Classified)
        requires
            t.wf(),
            old(self).unhealthy_ticks < u32::MAX,
        ensures
            r == old(self).classified(*t, current),
            *final(self) == old(self).counted(*t, current),
    {
        let h: i64 = match t.snap.headroom(current) {
            Some(h) => h,
            None => {
                let expired: bool = match account_of(&t.view.accounts, current) {
                    Some(a) => a.usage_status == UsageStatus::TokenExpired,
                    None => false,
                };
                if expired {
                    let since: i64 = match self.idle_hold_since {
                        Some(s) => s,
                        None => t.now,
                    };
                    self.idle_hold_since = Some(since);
                    if t.now as i128 - since as i128 <= IDLE_HOLD_MAX_S as i128 {
                        self.unhealthy_ticks = 0;
                        self.idle_hold_slow = true;
                        return Classified::Hold(Reason::ActiveIdle);
                    }
                } else {
                    self.idle_hold_since = None;
                }
                self.unhealthy_ticks = self.unhealthy_ticks + 1;
                if self.unhealthy_ticks < t.settings.unhealthy_ticks {
                    return Classified::Hold(
                        Reason::UsageUnknown {
                            ticks: self.unhealthy_ticks,
                            of: t.settings.unhealthy_ticks,
                        },
                    );
                }
                return Classified::Trigger(Trigger::Failover);
            },
        };
        self.unhealthy_ticks = 0;
        self.idle_hold_since = None;
        let numbers: Vec<u32> = slot_numbers(t.snap);
        let peers: Vec<u32> = drop_slot(&numbers, current);
        let peers_over: bool = every_account_above_threshold(
            &peers,
            t.snap,
            Some(h),
            t.settings.threshold,
        );
        let consume_first: bool = same(t.settings.strategy.as_str(), "consume-first");
        if FULL_PCT as i128 - (h as i128) < t.settings.threshold as i128 || (consume_first && h > 0
            && !peers_over) {
            if !consume_first {
                return Classified::Hold(
                    Reason::BelowThreshold { headroom: h, threshold: t.settings.threshold },
                );
            }
            let pinned: bool = match account_of(&t.view.accounts, current) {
                Some(a) => is_preferred(a, &t.settings.preferred),
                None => false,
            };
            if pinned {
                return Classified::Hold(Reason::PreferredActive);
            }
            return Classified::Trigger(Trigger::ConsumeFirst);
        }
        if h <= 0 {
            Classified::Trigger(Trigger::AtLimit)
        } else {
            Classified::Trigger(Trigger::Proactive)
        }
    }
}

/// The slots of a snapshot.
fn slot_numbers(snap: &Snapshot) -> (r: Vec<u32>)
    ensures
        r@ == snap.readings.numbers(),
{
    let mut r: Vec<u32> = Vec::new();
    let mut i: usize = 0;
    while i < snap.readings.items.len()
        invariant
            i <= snap.readings.items.len(),
            r@ =~= snap.readings.numbers().take(i as int),
        decreases snap.readings.items.len() - i,
    {
        r.push(snap.readings.items[i].0);
        i += 1;
    }
    assert(snap.readings.numbers().take(snap.readings.items@.len() as int)
        =~= snap.readings.numbers());
    r
}

} // verus!
