//! What is reported of providers, accounts and their usage windows.

use vstd::prelude::*;

use crate::text::copy_opt;

verus! {

/// Everything that `list` reports.
#[derive(Debug)]
pub struct ListPayload {
    pub schema_version: u32,
    pub providers: Vec<ProviderView>,
}

/// One provider as `list` reports it.
#[derive(Debug)]
pub struct ProviderView {
    pub provider: String,
    pub installed: bool,
    pub active_slot: Option<u32>,
    /// Why `active_slot` is absent although the store may hold an active
    /// account: `switch-in-progress`, `keychain-unavailable` or `cli-busy`.
    pub active_unreadable: Option<String>,
    /// The slot that the store records as active, present only beside
    /// `active_unreadable`.
    pub last_known_active_slot: Option<u32>,
    pub next_candidate: Option<u32>,
    pub next_recovery: Option<NextRecovery>,
    pub accounts: Vec<AccountView>,
}

/// The account that becomes usable first, and when.
#[derive(Debug)]
pub struct NextRecovery {
    pub slot: u32,
    pub at: String,
}

/// One account as `list` reports it.
#[derive(Debug)]
pub struct AccountView {
    pub slot: u32,
    pub email: String,
    pub organization_name: String,
    pub organization_uuid: String,
    pub plan: Option<String>,
    pub alias: Option<String>,
    pub icon: Option<String>,
    pub active: bool,
    pub disabled: bool,
    pub preferred: bool,
    pub usage_status: UsageStatus,
    pub fetched_at: Option<String>,
    /// In microseconds.
    pub age_seconds: Option<i64>,
    pub windows: Vec<Window>,
    pub last_good: Option<LastGood>,
    /// The kind of the most recent failed fetch; absent once a fetch succeeds.
    pub last_error: Option<String>,
    /// When the failure backoff lifts; absent when none is running.
    pub backoff_until: Option<String>,
}

/// The last usage that was measured, beside a row that is not current.
#[derive(Debug)]
pub struct LastGood {
    pub fetched_at: String,
    /// In microseconds.
    pub age_seconds: i64,
    pub windows: Vec<Window>,
}

/// What is known of an account's usage.
#[derive(Clone, Copy, Debug, PartialEq, Eq, Structural)]
pub enum UsageStatus {
    Okay,
    Stale,
    ReloginRequired,
    TokenExpired,
    NoCredentials,
    ApiKey,
    Unsupported,
}

/// One usage window. `pct`, `used` and `limit` are in millionths.
#[derive(Debug)]
pub struct Window {
    pub kind: WindowKind,
    pub name: Option<String>,
    pub pct: i64,
    pub resets_at: Option<String>,
    pub pace: Option<Pace>,
    pub used: Option<i64>,
    pub limit: Option<i64>,
    pub currency: Option<String>,
}

/// What a usage window measures.
#[derive(Clone, Copy, Debug, PartialEq, Eq, Structural)]
pub enum WindowKind {
    FiveHour,
    SevenDay,
    Daily,
    Monthly,
    Scoped,
    Spend,
}

/// How a window's use compares with an even pace. `expected_pct` is in
/// millionths.
#[derive(Debug)]
pub struct Pace {
    pub expected_pct: i64,
    pub ahead: bool,
    pub exhausts_at: Option<String>,
    pub lasts_to_reset: bool,
}

impl Clone for Pace {
    fn clone(&self) -> (r: Pace)
        ensures
            r == *self,
    {
        Pace {
            expected_pct: self.expected_pct,
            ahead: self.ahead,
            exhausts_at: copy_opt(&self.exhausts_at),
            lasts_to_reset: self.lasts_to_reset,
        }
    }
}

impl Clone for Window {
    fn clone(&self) -> (r: Window)
        ensures
            r == *self,
    {
        Window {
            kind: self.kind,
            name: copy_opt(&self.name),
            pct: self.pct,
            resets_at: copy_opt(&self.resets_at),
            pace: match &self.pace {
                Some(p) => Some(p.clone()),
                None => None,
            },
            used: self.used,
            limit: self.limit,
            currency: copy_opt(&self.currency),
        }
    }
}

/// A list of windows, copied.
pub fn copy_windows(windows: &Vec<Window>) -> (r: Vec<Window>)
    ensures
        r@ == windows@,
{
    let mut r: Vec<Window> = Vec::new();
    let mut i: usize = 0;
    while i < windows.len()
        invariant
            i <= windows.len(),
            r@ == windows@.take(i as int),
        decreases windows.len() - i,
    {
        r.push(windows[i].clone());
        i += 1;
    }
    assert(windows@.take(windows@.len() as int) =~= windows@);
    r
}

} // verus!
