//! Opening an account's window ahead of use: whether it shows yet, and how long to wait.

use vstd::prelude::*;
use vstd::string::*;

use crate::contract::{AccountView, UsageStatus, Window, WindowKind};
use crate::errors::{error_about, is_error, ErrorCode, SwapdError};
use crate::poll_policy::window_reset;
use crate::text::{borrow_opt, decimal, show};
use crate::timefmt::{format_or_empty, parse_reset_ts, stamp};

verus! {

/// What a run did.
#[derive(Debug)]
pub struct Ignited {
    pub slot: u32,
    pub at: String,
    /// Whether the tool renewed the slot's login while it ran.
    pub rotated: bool,
    /// Whether the 5-hour window showed as open; nothing where there is none to wait
    /// for.
    pub window_seen: Option<bool>,
}

/// The first 5-hour window.
pub open spec fn five_hour(windows: Seq<Window>) -> Option<Window>
    decreases windows.len(),
{
    if windows.len() == 0 {
        None
    } else if windows[0].kind is FiveHour {
        Some(windows[0])
    } else {
        five_hour(windows.drop_first())
    }
}

/// The first account on a slot whose measurement is current.
pub open spec fn current_on(accounts: Seq<AccountView>, slot: u32) -> Option<AccountView>
    decreases accounts.len(),
{
    if accounts.len() == 0 {
        None
    } else if accounts[0].slot == slot && accounts[0].usage_status is Okay {
        Some(accounts[0])
    } else {
        current_on(accounts.drop_first(), slot)
    }
}

/// Whether a slot's 5-hour window is open: nothing where the account has none, or where
/// it was not measured.
pub open spec fn seen(accounts: Seq<AccountView>, slot: u32, now: i64) -> Option<bool> {
    match current_on(accounts, slot) {
        Some(a) => match five_hour(a.windows@) {
            Some(w) => Some(window_reset(w) matches Some(t) && t > now),
            None => None,
        },
        None => None,
    }
}

fn open_window(windows: &Vec<Window>, now: i64) -> (r: Option<bool>)
    ensures
        r == (match five_hour(windows@) {
            Some(w) => Some(window_reset(w) matches Some(t) && t > now),
            None => None,
        }),
{
    let mut i: usize = 0;
    assert(windows@.skip(0) =~= windows@);
    while i < windows.len()
        invariant
            i <= windows.len(),
            five_hour(windows@) == five_hour(windows@.skip(i as int)),
        decreases windows.len() - i,
    {
        assert(windows@.skip(i as int)[0] == windows@[i as int]);
        assert(windows@.skip(i as int).drop_first() =~= windows@.skip(i + 1));
        if windows[i].kind == WindowKind::FiveHour {
            return match parse_reset_ts(borrow_opt(&windows[i].resets_at)) {
                Some(t) => Some(t > now),
                None => Some(false),
            };
        }
        i += 1;
    }
    None
}

/// Whether a slot's 5-hour window is open.
pub fn window_seen(accounts: &Vec<AccountView>, slot: u32, now: i64) -> (r: Option<bool>)
    ensures
        r == seen(accounts@, slot, now),
{
    let mut i: usize = 0;
    assert(accounts@.skip(0) =~= accounts@);
    while i < accounts.len()
        invariant
            i <= accounts.len(),
            current_on(accounts@, slot) == current_on(accounts@.skip(i as int), slot),
        decreases accounts.len() - i,
    {
        assert(accounts@.skip(i as int)[0] == accounts@[i as int]);
        assert(accounts@.skip(i as int).drop_first() =~= accounts@.skip(i + 1));
        if accounts[i].slot == slot && accounts[i].usage_status == UsageStatus::Okay {
            return open_window(&accounts[i].windows, now);
        }
        i += 1;
    }
    None
}

/// The seconds between the measurements after a run.
pub open spec fn waits() -> Seq<u64> {
    seq![3, 7, 15, 30]
}

/// How long to wait before the window is looked for again, after `tried` waits: nothing
/// where it was seen, where there is none, or where the waits are used up.
pub fn next_wait(seen: Option<bool>, tried: usize) -> (r: Option<u64>)
    ensures
        r == (if seen == Some(false) && tried < waits().len() {
            Some(waits()[tried as int])
        } else {
            None
        }),
{
    match seen {
        Some(false) => if tried == 0 {
            Some(3)
        } else if tried == 1 {
            Some(7)
        } else if tried == 2 {
            Some(15)
        } else if tried == 3 {
            Some(30)
        } else {
            None
        },
        _ => None,
    }
}

/// Checks that an account can be ignited: the provider can, and is installed.
pub fn check_ignite(provider: &str, can_ignite: bool, installed: bool) -> (r: Result<(), SwapdError>)
    ensures
        if !can_ignite {
            r matches Err(e) && is_error(
                e,
                ErrorCode::Unsupported,
                ""@ + provider@ + " cannot ignite an account"@,
            )
        } else if !installed {
            r matches Err(e) && is_error(
                e,
                ErrorCode::ProviderNotInstalled,
                ""@ + provider@ + " is not installed"@,
            )
        } else {
            r is Ok
        },
{
    if !can_ignite {
        return Err(error_about(ErrorCode::Unsupported, "", provider, " cannot ignite an account"));
    }
    if !installed {
        return Err(
            error_about(ErrorCode::ProviderNotInstalled, "", provider, " is not installed"),
        );
    }
    Ok(())
}

/// Checks how a run ended.
pub fn check_exit(code: i32) -> (r: Result<(), SwapdError>)
    ensures
        code == 0 ==> r is Ok,
        code != 0 ==> (r matches Err(e) && is_error(
            e,
            ErrorCode::Http,
            "igniter exited "@ + crate::config::int_text(code as int) + ""@,
        )),
{
    if code == 0 {
        return Ok(());
    }
    let n: i64 = code as i64;
    let text: String = if n < 0 {
        "-".to_owned().concat(show((-n) as u64).as_str())
    } else {
        show(n as u64)
    };
    Err(error_about(ErrorCode::Http, "igniter exited ", text.as_str(), ""))
}

/// What a run did.
pub fn ignited(slot: u32, rotated: bool, window_seen: Option<bool>, now: i64) -> (r: Ignited)
    ensures
        r.slot == slot,
        r.rotated == rotated,
        r.window_seen == window_seen,
        r.at@ == stamp(now),
{
    Ignited { slot, at: format_or_empty(now), rotated, window_seen }
}

/// What a run did, as a line.
pub fn human_line(out: &Ignited) -> (r: String)
    ensures
        r@ == "ignited slot "@ + decimal(out.slot as nat) + (if out.window_seen == Some(false) {
            " — window not visible yet"@
        } else {
            ""@
        }),
{
    let tail: &str = match out.window_seen {
        Some(false) => " — window not visible yet",
        _ => "",
    };
    "ignited slot ".to_owned().concat(show(out.slot as u64).as_str()).concat(tail)
}

} // verus!
