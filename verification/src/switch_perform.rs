//! Carrying a switch out: what is checked, what is kept, and what is said.
//!
//! The order is what matters. The target is resolved, and a switch that would do
//! nothing is refused; the target is renewed, before any lock is taken; then, under
//! the lock, the live login is read again, put where it survives, and replaced.

use vstd::prelude::*;
use vstd::string::*;

use crate::collect::Credential;
use crate::errors::{error_about, is_error, ErrorCode, SwapdError};
use crate::history::{SlotRef, SwitchRecord};
use crate::numfmt::{show_whole, whole_text};
use crate::slots::{ProviderSlots, Slot};
use crate::switch::{
    goes_stale, is_stale, match_slot, slot_of, stash_key, stash_text, Freshen, SwitchResult,
};
use crate::text::{decimal, same, show, trim, trimmed};
use crate::timefmt::{format_or_empty, stamp};

verus! {

/// Whether stored bytes hold a login.
pub open spec fn holds_login(stored: Option<String>) -> bool {
    stored matches Some(b) && trimmed(b@).len() > 0
}

/// Why a slot cannot be switched to, if it cannot: there is no such slot, it holds no
/// login, or the driver refuses it.
pub open spec fn refusal_of(
    slots: ProviderSlots,
    provider: Seq<char>,
    target: u32,
    stored: Option<String>,
    refused: Option<String>,
) -> Option<(ErrorCode, Seq<char>)> {
    if !slots.slots@.contains_key(target) {
        Some((ErrorCode::NoSuchSlot, "no slot "@ + decimal(target as nat) + (" for "@ + provider)))
    } else if !holds_login(stored) {
        Some(
            (
                ErrorCode::NoSuchSlot,
                "slot "@ + decimal(target as nat)
                    + " has no stored login; log in and run `swapd add`"@,
            ),
        )
    } else {
        match refused {
            Some(why) => Some(
                (
                    ErrorCode::Unsupported,
                    "slot "@ + decimal(target as nat) + (" cannot be made "@ + provider
                        + "'s live login: "@ + why@),
                ),
            ),
            None => None,
        }
    }
}

/// The account of the slot that is switched to, or why it cannot be. The driver is
/// asked first whether it takes the login, so that nothing is touched where it does
/// not.
pub fn check_target(
    slots: &ProviderSlots,
    provider: &str,
    target: u32,
    stored: &Option<String>,
    refused: &Option<String>,
) -> (r: Result<SlotRef, SwapdError>)
    requires
        slots.wf(),
    ensures
        match refusal_of(*slots, provider@, target, *stored, *refused) {
            Some(x) => r matches Err(e) && is_error(e, x.0, x.1),
            None => r == Ok::<SlotRef, SwapdError>(
                SlotRef { slot: Some(target), email: slots.slots@[target].email },
            ),
        },
{
    let number: String = show(target as u64);
    let meta: &Slot = match slots.slots.get(target) {
        Some(m) => m,
        None => {
            return Err(
                error_about(
                    ErrorCode::NoSuchSlot,
                    "no slot ",
                    number.as_str(),
                    " for ".to_owned().concat(provider).as_str(),
                ),
            );
        },
    };
    let blank: bool = match stored {
        Some(b) => trim(b.as_str()).as_str().is_empty(),
        None => true,
    };
    if blank {
        return Err(
            error_about(
                ErrorCode::NoSuchSlot,
                "slot ",
                number.as_str(),
                " has no stored login; log in and run `swapd add`",
            ),
        );
    }
    if let Some(why) = refused {
        return Err(
            error_about(
                ErrorCode::Unsupported,
                "slot ",
                number.as_str(),
                " cannot be made ".to_owned().concat(provider).concat("'s live login: ").concat(
                    why.as_str(),
                ).as_str(),
            ),
        );
    }
    Ok(SlotRef::numbered(target, meta.email.clone()))
}

/// Whether the live login is that of a slot: asked of the login itself, since the
/// record of it can lag.
pub open spec fn is_live_on(slots: ProviderSlots, live: Option<Credential>, target: u32) -> bool {
    live matches Some(l) && slot_of(slots, l) == Some(target)
}

/// The answer to a switch that would do nothing, where it would.
pub fn already_active(slots: &ProviderSlots, live: &Option<Credential>, target: u32, to: &SlotRef) -> (r:
    Option<SwitchResult>)
    ensures
        r is Some == is_live_on(*slots, *live, target),
        r matches Some(x) ==> !x.switched && (x.reason matches Some(why) && why@
            == "already-active"@) && x.from == Some(*to) && x.to == *to && x.warnings@.len() == 0,
{
    let here: bool = match live {
        Some(l) => match match_slot(slots, l) {
            Some(n) => n == target,
            None => false,
        },
        None => false,
    };
    if !here {
        return None;
    }
    Some(
        SwitchResult {
            switched: false,
            reason: Some("already-active".to_owned()),
            from: Some(to.clone()),
            to: to.clone(),
            warnings: Vec::new(),
        },
    )
}

/// What came of renewing the target.
#[derive(Debug)]
pub enum Renewal {
    /// It was not needed.
    NotNeeded,
    Renewed,
    /// The refresh token was rejected.
    Dead,
    /// It failed otherwise; why.
    Failed(String),
}

/// Whether the target has to be renewed before it lands: it expires within the
/// buffer.
pub fn needs_renewal(login: &Credential, now: i64, freshen: Freshen) -> (r: bool)
    ensures
        r == goes_stale(login.expires_at, now, freshen.buffer_s),
{
    is_stale(login.expires_at, now, freshen.buffer_s)
}

/// What is said of a target whose refresh token was rejected.
pub open spec fn dead_text(slot: u32) -> Seq<char> {
    "slot "@ + decimal(slot as nat)
        + "'s login is expired and its refresh token was rejected; log in again and run `swapd add`"@
}

/// What is said of a target that had to be renewed and was not.
pub open spec fn denied_text(slot: u32, freshen: Freshen, why: Seq<char>) -> Seq<char> {
    "slot "@ + decimal(slot as nat) + ("'s login expires within "@ + whole_text(
        freshen.buffer_s as int,
        60_000_000,
    ) + " minutes and could not be refreshed ("@ + why + "); leaving it where it is"@)
}

/// What is said of a target that lands although it was not renewed.
pub open spec fn anyway_text(slot: u32, why: Seq<char>) -> Seq<char> {
    "slot "@ + decimal(slot as nat) + "'s login is expired and could not be refreshed ("@ + why
        + "); switching to it anyway"@
}

/// What a switch goes on with after the target was renewed, or not: whether it lands
/// the renewed login, with a warning where it lands one that could not be renewed.
///
/// A rejected token is fatal to the target. Any other failure is so only where the
/// renewal is required.
pub fn refresh_if_stale(slot: u32, freshen: Freshen, renewal: Renewal, warnings: &mut Vec<String>) -> (r:
    Result<bool, SwapdError>)
    ensures
        match renewal {
            Renewal::NotNeeded => r == Ok::<bool, SwapdError>(false) && final(warnings)@ == old(
                warnings,
            )@,
            Renewal::Renewed => r == Ok::<bool, SwapdError>(true) && final(warnings)@ == old(
                warnings,
            )@,
            Renewal::Dead => final(warnings)@ == old(warnings)@ && (r matches Err(e) && is_error(
                e,
                ErrorCode::TokenDead,
                dead_text(slot),
            )),
            Renewal::Failed(why) => if freshen.required {
                final(warnings)@ == old(warnings)@ && (r matches Err(e) && is_error(
                    e,
                    ErrorCode::RefreshDenied,
                    denied_text(slot, freshen, why@),
                ))
            } else {
                &&& r == Ok::<bool, SwapdError>(false)
                &&& final(warnings)@.len() == old(warnings)@.len() + 1
                &&& final(warnings)@.drop_last() == old(warnings)@
                &&& final(warnings)@.last()@ == anyway_text(slot, why@)
            },
        },
{
    let number: String = show(slot as u64);
    match renewal {
        Renewal::NotNeeded => Ok(false),
        Renewal::Renewed => Ok(true),
        Renewal::Dead => Err(
            error_about(
                ErrorCode::TokenDead,
                "slot ",
                number.as_str(),
                "'s login is expired and its refresh token was rejected; log in again and run `swapd add`",
            ),
        ),
        Renewal::Failed(why) => {
            if freshen.required {
                return Err(
                    error_about(
                        ErrorCode::RefreshDenied,
                        "slot ",
                        number.as_str(),
                        "'s login expires within ".to_owned().concat(
                            show_whole(freshen.buffer_s as i128, 60_000_000).as_str(),
                        ).concat(" minutes and could not be refreshed (").concat(
                            why.as_str(),
                        ).concat("); leaving it where it is").as_str(),
                    ),
                );
            }
            warnings.push(
                "slot ".to_owned().concat(number.as_str()).concat(
                    "'s login is expired and could not be refreshed (",
                ).concat(why.as_str()).concat("); switching to it anyway"),
            );
            assert(warnings@.drop_last() =~= old(warnings)@);
            Ok(false)
        },
    }
}

/// Where the outgoing login is kept.
#[derive(Debug)]
pub enum Keep {
    /// Under a key of its own, since no slot owns it.
    Stash(String),
    /// In its slot, whose strikes then no longer apply.
    Store(u32),
    /// Nowhere: its slot holds a newer generation.
    Superseded(u32),
    /// Nowhere: its slot holds the same bytes.
    AlreadyStored(u32),
}

/// What a switch does with the outgoing login, and where it came from.
#[derive(Debug)]
pub struct Outgoing {
    pub from: SlotRef,
    pub keep: Keep,
    pub warning: Option<String>,
}

/// The email that a login says it belongs to.
pub open spec fn claimed_email(live: Credential) -> Seq<char> {
    match live.identity {
        Some(i) => i.email@,
        None => ""@,
    }
}

/// Whether `out` is what is done with the outgoing login, given what is stored for
/// its slot and whether that is newer.
pub open spec fn preserves(
    out: Outgoing,
    slots: ProviderSlots,
    provider: Seq<char>,
    live: Credential,
    stored: Option<String>,
    live_is_older: bool,
    now: i64,
) -> bool {
    match slot_of(slots, live) {
        None => {
            let key = stash_text(provider, now, live.fingerprint@);
            &&& out.keep matches Keep::Stash(k) && k@ == key
            &&& out.from.slot is None
            &&& out.from.email@ == claimed_email(live)
            &&& out.warning matches Some(w) && w@
                == "the live login does not match a managed account; it was preserved as '"@ + key
                + "' and not written into any slot. If you need that account, log in as it and run `swapd add`"@
        },
        Some(n) => {
            &&& out.from.slot == Some(n)
            &&& out.from.email@ == if slots.slots@.contains_key(n) {
                slots.slots@[n].email@
            } else {
                claimed_email(live)
            }
            &&& if stored is Some && live_is_older {
                &&& out.keep == Keep::Superseded(n)
                &&& out.warning matches Some(w) && w@ == "slot "@ + decimal(n as nat)
                    + " already holds a newer generation of this account's login than the live one; the live copy was discarded rather than overwrite it"@
            } else {
                &&& out.warning is None
                &&& out.keep == if stored matches Some(b) && b@ == live.bytes@ {
                    Keep::AlreadyStored(n)
                } else {
                    Keep::Store(n)
                }
            }
        },
    }
}

/// Puts the outgoing login where it survives: into the slot that owns it, unless that
/// holds the same or a newer generation, or else under a key of its own. That it is
/// kept is the licence to overwrite the live store.
pub fn preserve_outgoing(
    slots: &ProviderSlots,
    provider: &str,
    live: &Credential,
    stored: &Option<String>,
    live_is_older: bool,
    now: i64,
) -> (out: Outgoing)
    requires
        slots.wf(),
    ensures
        preserves(out, *slots, provider@, *live, *stored, live_is_older, now),
{
    let claimed: String = match &live.identity {
        Some(i) => i.email.clone(),
        None => "".to_owned(),
    };
    let n: u32 = match match_slot(slots, live) {
        Some(n) => n,
        None => {
            let key: String = stash_key(provider, now, live.fingerprint.as_str());
            let warning: String =
                "the live login does not match a managed account; it was preserved as '".to_owned().concat(
                key.as_str(),
            ).concat(
                "' and not written into any slot. If you need that account, log in as it and run `swapd add`",
            );
            return Outgoing {
                from: SlotRef::unmanaged(claimed),
                keep: Keep::Stash(key),
                warning: Some(warning),
            };
        },
    };
    let email: String = match slots.slots.get(n) {
        Some(s) => s.email.clone(),
        None => claimed,
    };
    let from: SlotRef = SlotRef::numbered(n, email);
    if stored.is_some() && live_is_older {
        let warning: String = "slot ".to_owned().concat(show(n as u64).as_str()).concat(
            " already holds a newer generation of this account's login than the live one; the live copy was discarded rather than overwrite it",
        );
        return Outgoing { from, keep: Keep::Superseded(n), warning: Some(warning) };
    }
    let kept: bool = match stored {
        Some(b) => same(b.as_str(), live.bytes.as_str()),
        None => false,
    };
    Outgoing {
        from,
        keep: if kept {
            Keep::AlreadyStored(n)
        } else {
            Keep::Store(n)
        },
        warning: None,
    }
}

/// A live login is never lost: it is put into its slot or under a key of its own,
/// unless its slot already holds it or a newer generation of it.
pub proof fn law_outgoing_is_never_lost(
    out: Outgoing,
    slots: ProviderSlots,
    provider: Seq<char>,
    live: Credential,
    stored: Option<String>,
    live_is_older: bool,
    now: i64,
)
    requires
        preserves(out, slots, provider, live, stored, live_is_older, now),
    ensures
        out.keep is Superseded ==> stored is Some && live_is_older && slot_of(slots, live) is Some,
        out.keep is AlreadyStored ==> (stored matches Some(b) && b@ == live.bytes@),
        out.keep is Stash <==> slot_of(slots, live) is None,
        out.keep matches Keep::Store(n) ==> slot_of(slots, live) == Some(n) && !(stored is Some
            && live_is_older),
{
}

/// What is said when the live store could not be written: where the previous login
/// could not be put back either, that too. `None` where the driver's own error stands.
pub fn write_failed(target: u32, why: &str, restore_failed: &Option<String>) -> (r: Option<
    SwapdError,
>)
    ensures
        match restore_failed {
            Some(again) => r matches Some(e) && is_error(
                e,
                ErrorCode::Io,
                "switch to slot "@ + decimal(target as nat) + (" failed ("@ + why@
                    + ") and the previous live login could not be restored ("@ + again@
                    + "); it is preserved in swapd's store"@),
            ),
            None => r is None,
        },
{
    match restore_failed {
        Some(again) => Some(
            error_about(
                ErrorCode::Io,
                "switch to slot ",
                show(target as u64).as_str(),
                " failed (".to_owned().concat(why).concat(
                    ") and the previous live login could not be restored (",
                ).concat(again.as_str()).concat("); it is preserved in swapd's store").as_str(),
            ),
        ),
        None => None,
    }
}

/// The record of a switch that landed.
pub fn switch_record(from: &Option<SlotRef>, to: &SlotRef, trigger: &str, now: i64) -> (r:
    SwitchRecord)
    ensures
        r.ts@ == stamp(now),
        r.from == *from,
        r.to == *to,
        r.trigger@ == trigger@,
{
    SwitchRecord {
        ts: format_or_empty(now),
        from: match from {
            Some(f) => Some(f.clone()),
            None => None,
        },
        to: to.clone(),
        trigger: trigger.to_owned(),
    }
}

/// What is said where the landing could not be recorded.
pub open spec fn unrecorded_text(target: u32, why: Seq<char>) -> Seq<char> {
    "the switch landed but slot "@ + decimal(target as nat) + " could not be recorded as active ("@
        + why
        + "); the stored record stays stale until the next `swapd switch` or `swapd add` writes it (`swapd list` derives the active account from the live login for its own output, but does not write it back)"@
}

/// What is said where the landing could not be logged.
pub open spec fn unlogged_text(why: Seq<char>) -> Seq<char> {
    "the switch landed but was not logged ("@ + why + ")"@
}

/// The result of a switch that landed. Once the live store holds the target, a
/// failure of the bookkeeping is a warning and no error.
pub fn landed(
    target: u32,
    from: Option<SlotRef>,
    to: SlotRef,
    warnings: Vec<String>,
    unrecorded: &Option<String>,
    unlogged: &Option<String>,
) -> (r: SwitchResult)
    ensures
        r.switched,
        r.reason is None,
        r.from == from,
        r.to == to,
        r.warnings@.len() == warnings@.len() + (if unrecorded is Some {
            1int
        } else {
            0
        }) + (if unlogged is Some {
            1int
        } else {
            0
        }),
        r.warnings@.take(warnings@.len() as int) == warnings@,
        unrecorded matches Some(why) ==> r.warnings@[warnings@.len() as int]@ == unrecorded_text(
            target,
            why@,
        ),
        unlogged matches Some(why) ==> r.warnings@.last()@ == unlogged_text(why@),
{
    let ghost first = warnings@;
    let mut warnings: Vec<String> = warnings;
    if let Some(why) = unrecorded {
        warnings.push(
            "the switch landed but slot ".to_owned().concat(show(target as u64).as_str()).concat(
                " could not be recorded as active (",
            ).concat(why.as_str()).concat(
                "); the stored record stays stale until the next `swapd switch` or `swapd add` writes it (`swapd list` derives the active account from the live login for its own output, but does not write it back)",
            ),
        );
    }
    if let Some(why) = unlogged {
        warnings.push(
            "the switch landed but was not logged (".to_owned().concat(why.as_str()).concat(")"),
        );
    }
    assert(warnings@.take(first.len() as int) =~= first);
    SwitchResult { switched: true, reason: None, from, to, warnings }
}

} // verus!
