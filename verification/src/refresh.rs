//! Renewing one slot's token, and refreshing its usage by name.
//!
//! A refresh token serves once. Whoever holds the slot's lock reads the stored login
//! again: where it has moved on, another has renewed it, and that one is taken over.

use vstd::prelude::*;
use vstd::string::*;

use crate::auto::{account_at, account_of};
use crate::collect::{CollectOpts, Credential, Stored};
use crate::contract::{AccountView, UsageStatus};
use crate::errors::{error_about, is_error, ErrorCode, SwapdError};
use crate::fetch::DriverError;
use crate::slots::ProviderSlots;
use crate::text::{decimal, same, show};

verus! {

/// What became of a login that was to be renewed.
#[derive(Debug)]
pub enum Refreshed {
    /// The token was spent here, and the successor is stored.
    Rotated(Credential),
    /// Another was first: this is the generation that it stored.
    Adopted(Credential),
    /// It failed, and the slot holds what it held.
    Failed(DriverError),
}

/// The stored login that is taken over instead of renewing: one with another
/// fingerprint.
pub open spec fn successor(stored: Stored, login: Credential) -> Option<Credential> {
    match stored.usable() {
        Some(c) => if c.fingerprint@ != login.fingerprint@ {
            Some(c)
        } else {
            None
        },
        None => None,
    }
}

/// The stored login that is taken over instead of renewing.
pub fn adopt(stored: &Stored, login: &Credential) -> (r: Option<Credential>)
    ensures
        r == successor(*stored, *login),
{
    match stored.take_usable() {
        Some(c) => if same(c.fingerprint.as_str(), login.fingerprint.as_str()) {
            None
        } else {
            Some(c)
        },
        None => None,
    }
}

/// What became of a renewal. A login that was renewed by another is taken over, whatever
/// the driver would have said; the token is then not spent.
pub fn refresh_slot(
    stored: &Stored,
    login: &Credential,
    renewed: Result<Credential, DriverError>,
) -> (r: Refreshed)
    ensures
        match successor(*stored, *login) {
            Some(c) => r == Refreshed::Adopted(c),
            None => match renewed {
                Ok(c) => r == Refreshed::Rotated(c),
                Err(e) => r == Refreshed::Failed(e),
            },
        },
{
    if let Some(c) = adopt(stored, login) {
        return Refreshed::Adopted(c);
    }
    match renewed {
        Ok(c) => Refreshed::Rotated(c),
        Err(e) => Refreshed::Failed(e),
    }
}

/// Of two that renew one login in turn, the second takes over what the first stored, as
/// long as the successor has another fingerprint.
pub proof fn law_one_token_is_spent_once(first: Credential, login: Credential, live_is_older: bool)
    requires
        first.fingerprint@ != login.fingerprint@,
        crate::text::trimmed(first.bytes@).len() > 0,
    ensures
        successor(Stored { login: Some(first), live_is_older }, login) == Some(first),
{
}

/// Why a slot that was named was not fetched.
#[derive(Debug)]
pub struct Skipped {
    pub slot: u32,
    pub reason: String,
}

/// Why a named slot was not fetched, where it was not: the stamp of its last attempt has
/// not moved. A dead token says so itself; else another was fetching it.
pub fn skipped_reason(
    accounts: &Vec<AccountView>,
    slot: u32,
    before: Option<i64>,
    after: Option<i64>,
) -> (r: Option<Skipped>)
    ensures
        match account_at(accounts@, slot) {
            None => r is None,
            Some(a) => if after != before {
                r is None
            } else {
                r matches Some(s) && s.slot == slot && s.reason@ == (
                if a.usage_status is ReloginRequired {
                    "token-dead"@
                } else {
                    "claimed"@
                })
            },
        },
{
    let dead: bool = match account_of(accounts, slot) {
        Some(a) => a.usage_status == UsageStatus::ReloginRequired,
        None => {
            return None;
        },
    };
    let moved: bool = match (before, after) {
        (Some(x), Some(y)) => x != y,
        (None, None) => false,
        _ => true,
    };
    if moved {
        return None;
    }
    let reason: &str = if dead {
        "token-dead"
    } else {
        "claimed"
    };
    Some(Skipped { slot, reason: reason.to_owned() })
}

/// What a refresh asks for: one slot by force, or all that are due or stale. A slot that
/// is not there is an error, before anything is fetched.
pub fn refresh_opts(slots: &ProviderSlots, provider: &str, slot: Option<u32>) -> (r: Result<
    CollectOpts,
    SwapdError,
>)
    requires
        slots.wf(),
    ensures
        match slot {
            Some(n) => if slots.slots@.contains_key(n) {
                r matches Ok(o) && o.force_slots@ == seq![n] && !o.all_stale && o.only is None
            } else {
                r matches Err(e) && is_error(
                    e,
                    ErrorCode::NoSuchSlot,
                    "no slot "@ + decimal(n as nat) + (" for "@ + provider@),
                )
            },
            None => r matches Ok(o) && o.force_slots@.len() == 0 && o.all_stale && o.only is None,
        },
{
    match slot {
        Some(n) => {
            if !slots.slots.contains_key(n) {
                return Err(
                    error_about(
                        ErrorCode::NoSuchSlot,
                        "no slot ",
                        show(n as u64).as_str(),
                        " for ".to_owned().concat(provider).as_str(),
                    ),
                );
            }
            let mut force_slots: Vec<u32> = Vec::new();
            force_slots.push(n);
            assert(force_slots@ =~= seq![n]);
            Ok(CollectOpts { force_slots, all_stale: false, only: None })
        },
        None => Ok(CollectOpts { force_slots: Vec::new(), all_stale: true, only: None }),
    }
}

/// What is said of a named slot that was not fetched.
pub fn skipped_line(s: &Skipped) -> (r: String)
    ensures
        r@ == "warning: slot "@ + decimal(s.slot as nat) + " was not fetched: "@ + (
        if s.reason@ == "token-dead"@ {
            "its refresh-token lineage is dead — log in, then run: swapd add"@
        } else {
            "another swapd process is fetching it right now; try again in a moment"@
        }),
{
    let why: &str = if same(s.reason.as_str(), "token-dead") {
        "its refresh-token lineage is dead — log in, then run: swapd add"
    } else {
        "another swapd process is fetching it right now; try again in a moment"
    };
    "warning: slot ".to_owned().concat(show(s.slot as u64).as_str()).concat(
        " was not fetched: ",
    ).concat(why)
}

} // verus!
