//! Checks that single verbs make before they act, and what they make of the outcome.

use vstd::prelude::*;
use vstd::string::*;

use crate::collect::Credential;
use crate::errors::{error_about, is_error, ErrorCode, SwapdError};
use crate::slots::ProviderSlots;
use crate::switch::{match_slot, slot_of};
use crate::text::{decimal, opt_str, opt_text, same, show, trim, trimmed};
use crate::timefmt::{parse_reset_ts, reset_instant};

verus! {

/// Checks that an account can be run: the provider can, is installed, and the slot holds
/// no managed key.
pub fn check_run(provider: &str, slot: u32, can_run: bool, installed: bool, api_key: bool) -> (r:
    Result<(), SwapdError>)
    ensures
        if !can_run {
            r matches Err(e) && is_error(
                e,
                ErrorCode::Unsupported,
                provider@ + " cannot run an account"@,
            )
        } else if !installed {
            r matches Err(e) && is_error(
                e,
                ErrorCode::ProviderNotInstalled,
                provider@ + " is not installed"@,
            )
        } else if api_key {
            r matches Err(e) && is_error(
                e,
                ErrorCode::Unsupported,
                "slot "@ + decimal(slot as nat)
                    + " holds a managed API key; api-key logins cannot run"@,
            )
        } else {
            r is Ok
        },
{
    if !can_run {
        return Err(
            SwapdError::new(
                ErrorCode::Unsupported,
                provider.to_owned().concat(" cannot run an account"),
            ),
        );
    }
    if !installed {
        return Err(
            SwapdError::new(
                ErrorCode::ProviderNotInstalled,
                provider.to_owned().concat(" is not installed"),
            ),
        );
    }
    if api_key {
        return Err(
            error_about(
                ErrorCode::Unsupported,
                "slot ",
                show(slot as u64).as_str(),
                " holds a managed API key; api-key logins cannot run",
            ),
        );
    }
    Ok(())
}

/// How an account is run.
#[derive(Clone, Copy, Debug, PartialEq, Eq, Structural)]
pub enum RunPath {
    /// The tool itself, as the live login: it is that of the slot already.
    Direct,
    /// In the slot's profile, which takes the place of a directory that is set.
    ProfileOverAmbient,
    /// In the slot's profile.
    Profile,
}

/// Whether a live login is that of a slot.
pub open spec fn runs_live(slots: ProviderSlots, slot: u32, live: Option<Credential>) -> bool {
    live matches Some(l) && trimmed(l.bytes@).len() > 0 && slot_of(slots, l) == Some(slot)
}

/// How an account is run: directly only where no other directory is set, and the live
/// login was read and is that of the slot. To run it so spends no token.
pub fn run_path(slots: &ProviderSlots, slot: u32, ambient_dir: Option<&str>, live: &Option<Credential>) -> (r:
    RunPath)
    ensures
        r == (if opt_str(ambient_dir) is Some && opt_str(ambient_dir)->0.len() > 0 {
            RunPath::ProfileOverAmbient
        } else if runs_live(*slots, slot, *live) {
            RunPath::Direct
        } else {
            RunPath::Profile
        }),
{
    if let Some(dir) = ambient_dir {
        if !dir.is_empty() {
            return RunPath::ProfileOverAmbient;
        }
    }
    let here: bool = match live {
        Some(l) => if trim(l.bytes.as_str()).as_str().is_empty() {
            false
        } else {
            match match_slot(slots, l) {
                Some(n) => n == slot,
                None => false,
            }
        },
        None => false,
    };
    if here {
        RunPath::Direct
    } else {
        RunPath::Profile
    }
}

/// The exit code of a process: its own, or that of a signal by the shell's convention.
pub fn exit_code(code: Option<i32>, signal: Option<i32>) -> (r: i32)
    requires
        signal matches Some(s) ==> s <= 0x7fff_ff7f,
    ensures
        r == (match code {
            Some(c) => c as int,
            None => match signal {
                Some(s) => 128 + s,
                None => 1,
            },
        }),
{
    match code {
        Some(c) => c,
        None => match signal {
            Some(s) => 128 + s,
            None => 1,
        },
    }
}

/// The text that `{:?}` makes of a text.
pub uninterp spec fn debug_text(s: Seq<char>) -> Seq<char>;

/// `format!` with `{:?}` of a text: in quotes, with escapes. The result is only named.
#[verifier::external_body]
fn quoted(s: &str) -> (r: String)
    ensures
        r@ == debug_text(s@),
{
    format!("{s:?}")
}

/// The deadline that a refusal named, or the error where it is no instant.
pub fn parse_deadline(raw: Option<&str>) -> (r: Result<Option<i64>, SwapdError>)
    ensures
        match raw {
            None => r == Ok::<Option<i64>, SwapdError>(None),
            Some(s) => match reset_instant(Some(s@)) {
                Some(t) => r == Ok::<Option<i64>, SwapdError>(Some(t)),
                None => r matches Err(e) && is_error(
                    e,
                    ErrorCode::InvalidInput,
                    "--resets-at must be an RFC 3339 timestamp, got "@ + debug_text(s@) + ""@,
                ),
            },
        },
{
    match raw {
        None => Ok(None),
        Some(s) => match parse_reset_ts(Some(s)) {
            Some(t) => Ok(Some(t)),
            None => Err(
                error_about(
                    ErrorCode::InvalidInput,
                    "--resets-at must be an RFC 3339 timestamp, got ",
                    quoted(s).as_str(),
                    "",
                ),
            ),
        },
    }
}

/// Why a banked reset cannot be spent now.
#[derive(Debug)]
pub enum ResetHold {
    NotAtLimit,
    /// One was spent recently; when the next may be.
    Cooldown(Option<String>),
    Blocked,
}

/// Why a banked reset cannot be spent now, in words.
pub open spec fn hold_text(hold: ResetHold) -> Seq<char> {
    match hold {
        ResetHold::NotAtLimit => "it spends only once the account is at a limit"@,
        ResetHold::Cooldown(until) => match until {
            Some(t) => "a reset was spent recently; the next may be at "@ + t@,
            None => "a reset was spent recently"@,
        },
        ResetHold::Blocked => "the provider names no spendable grant"@,
    }
}

/// The grant of a banked reset that is spent, or why none is: there is no bank, or it
/// holds.
pub fn spendable(slot: u32, bank: Option<(Option<ResetHold>, Option<String>)>) -> (r: Result<
    String,
    SwapdError,
>)
    requires
        bank matches Some(b) ==> (b.0 is Some || b.1 is Some),
    ensures
        match bank {
            None => r matches Err(e) && is_error(
                e,
                ErrorCode::InvalidInput,
                "slot "@ + decimal(slot as nat) + " has no banked reset"@,
            ),
            Some(b) => match b.0 {
                Some(hold) => r matches Err(e) && is_error(
                    e,
                    ErrorCode::InvalidInput,
                    "slot "@ + decimal(slot as nat) + ("'s reset cannot be spent now: "@
                        + hold_text(hold)),
                ),
                None => r matches Ok(g) && Some(g@) == opt_text(b.1),
            },
        },
{
    let number: String = show(slot as u64);
    match bank {
        None => Err(
            error_about(
                ErrorCode::InvalidInput,
                "slot ",
                number.as_str(),
                " has no banked reset",
            ),
        ),
        Some((Some(hold), _)) => {
            let why: String = match hold {
                ResetHold::NotAtLimit =>
                    "it spends only once the account is at a limit".to_owned(),
                ResetHold::Cooldown(until) => match until {
                    Some(t) => "a reset was spent recently; the next may be at ".to_owned().concat(
                        t.as_str(),
                    ),
                    None => "a reset was spent recently".to_owned(),
                },
                ResetHold::Blocked => "the provider names no spendable grant".to_owned(),
            };
            Err(
                error_about(
                    ErrorCode::InvalidInput,
                    "slot ",
                    number.as_str(),
                    "'s reset cannot be spent now: ".to_owned().concat(why.as_str()).as_str(),
                ),
            )
        },
        Some((None, grant)) => match grant {
            Some(g) => Ok(g),
            None => Ok(String::new()),
        },
    }
}

/// Checks what a provider made of a reset.
pub fn check_reset(outcome: &str) -> (r: Result<(), SwapdError>)
    ensures
        outcome@ == "reset"@ ==> r is Ok,
        outcome@ != "reset"@ ==> (r matches Err(e) && is_error(
            e,
            ErrorCode::Http,
            "the provider refused the reset: "@ + outcome@ + ""@,
        )),
{
    if same(outcome, "reset") {
        return Ok(());
    }
    Err(error_about(ErrorCode::Http, "the provider refused the reset: ", outcome, ""))
}

/// Whether a verb spends tokens or replaces the live login.
pub open spec fn takes_over(verb: Seq<char>) -> bool {
    verb == "switch"@ || verb == "auto"@ || verb == "ignite"@ || verb == "run"@ || verb
        == "rotate"@
}

/// Whether a verb may run in shadow, while another tool still owns the logins: those
/// that spend tokens or replace the live login may not.
pub fn check_shadow(verb: &str, shadow: bool) -> (r: Result<(), SwapdError>)
    ensures
        r is Err <==> shadow && takes_over(verb@),
        r matches Err(e) ==> is_error(
            e,
            ErrorCode::Unsupported,
            "'"@ + verb@ + "' is refused while SWAPD_SHADOW is set"@,
        ),
{
    let owner: bool = same(verb, "switch") || same(verb, "auto") || same(verb, "ignite") || same(
        verb,
        "run",
    ) || same(verb, "rotate");
    if shadow && owner {
        return Err(
            error_about(
                ErrorCode::Unsupported,
                "'",
                verb,
                "' is refused while SWAPD_SHADOW is set",
            ),
        );
    }
    Ok(())
}

/// Checks that a provider banks limit resets.
pub fn check_banks_resets(provider: &str, can: bool) -> (r: Result<(), SwapdError>)
    ensures
        can ==> r is Ok,
        !can ==> (r matches Err(e) && is_error(
            e,
            ErrorCode::Unsupported,
            provider@ + " banks no limit resets"@,
        )),
{
    if can {
        return Ok(());
    }
    Err(SwapdError::new(ErrorCode::Unsupported, provider.to_owned().concat(" banks no limit resets")))
}

} // verus!
